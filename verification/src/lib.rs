//! Lexer, parser and layout planning for `.ead` documents.
pub mod backend;
pub mod lexer;
pub mod parser;
pub mod text;

use vstd::prelude::*;
use crate::lexer::{lemma_token_at_advances, lex, lex_from, spec_lines, Lexer};
use crate::lexer::token::{Token, TokenKindV, TokenV};
use crate::parser::{spec_parse, Parser};
use crate::parser::ast::Node;

verus! {

/// The output formats.
#[derive(Copy, Clone, PartialEq, Eq, Debug, Structural)]
pub enum OutputFormat {
    Pdf,
}

/// The views of a sequence of tokens.
pub open spec fn tokens_view(ts: Seq<Token>) -> Seq<TokenV> {
    ts.map_values(|t: Token| t@)
}

/// All tokens of `content`, in order.
pub fn get_tokens(content: &str) -> (r: Vec<Token>)
    ensures
        tokens_view(r@) == lex(content@),
{
    let mut lexer = Lexer::new(content);
    let ghost lines = spec_lines(content@);
    let mut out: Vec<Token> = Vec::new();
    loop
        invariant
            lexer.source_lines() == lines,
            lines == spec_lines(content@),
            0 <= lexer.position() <= lines.len(),
            tokens_view(out@) + lex_from(lines, lexer.position()) == lex_from(lines, 0),
        decreases lines.len() - lexer.position(),
    {
        let ghost before = lexer.position();
        match lexer.next() {
            None => {
                assert(tokens_view(out@) =~= lex_from(lines, 0));
                return out;
            },
            Some(t) => {
                proof {
                    lemma_token_at_advances(lines, before);
                }
                let ghost prev = tokens_view(out@);
                out.push(t);
                assert(tokens_view(out@) =~= prev.push(t@));
                assert(tokens_view(out@) + lex_from(lines, lexer.position()) =~= prev + lex_from(
                    lines,
                    before,
                ));
            },
        }
    }
}

/// The kinds of the tokens of the source text `s`.
pub open spec fn lex_kinds(s: Seq<char>) -> Seq<TokenKindV> {
    lex(s).map_values(|t: TokenV| t.kind)
}

/// The document tree of `content`.
pub fn get_ast(content: &str) -> (r: Node)
    ensures
        r@ == spec_parse(lex_kinds(content@)),
        r is Document,
{
    let tokens = get_tokens(content);
    let mut parser = Parser::new(tokens);
    assert(parser.kinds() =~= lex_kinds(content@));
    parser.parse()
}

} // verus!
