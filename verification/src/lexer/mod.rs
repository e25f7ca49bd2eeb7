//! Splits `.ead` source into lines and classifies each of them.
pub mod token;

use vstd::prelude::*;
use crate::text::{
    chars_to_string, copy_range, decimal, eq_lit, find_char, find_from, push_all, push_decimal,
    run_end, skip_run, starts_with, starts_with_at, str_chars, trim, trim_chars,
};
use crate::lexer::token::{
    AbstractKind, ConclusionKind, ContentsKind, NoteKind, StructuralKind, Token, TokenKindV,
    TokenType, TokenV,
};

verus! {

/// `l` without one trailing carriage return.
pub open spec fn strip_cr(l: Seq<char>) -> Seq<char> {
    if l.len() > 0 && l.last() == '\r' {
        l.drop_last()
    } else {
        l
    }
}

/// After reading `s`: the lines finished so far, and the line being read.
pub open spec fn lines_acc(s: Seq<char>) -> (Seq<Seq<char>>, Seq<char>)
    decreases s.len(),
{
    if s.len() == 0 {
        (seq![], seq![])
    } else {
        let (done, cur) = lines_acc(s.drop_last());
        if s.last() == '\n' {
            (done.push(strip_cr(cur)), seq![])
        } else {
            (done, cur.push(s.last()))
        }
    }
}

/// The lines of `s` as `str::lines` gives them: split at `\n`, a `\r` just before a
/// `\n` dropped, and no empty last line after a final `\n`.
pub open spec fn spec_lines(s: Seq<char>) -> Seq<Seq<char>> {
    let (done, cur) = lines_acc(s);
    if cur.len() > 0 {
        done.push(cur)
    } else {
        done
    }
}

/// No line of a text holds a line feed.
pub proof fn law_lines_have_no_line_feed(s: Seq<char>)
    ensures
        forall|i: int, j: int|
            0 <= i < spec_lines(s).len() && 0 <= j < spec_lines(s)[i].len() ==> #[trigger] spec_lines(
                s,
            )[i][j] != '\n',
{
    lemma_lines_acc_no_line_feed(s);
}

/// Neither the finished lines nor the line being read hold a line feed.
pub proof fn lemma_lines_acc_no_line_feed(s: Seq<char>)
    ensures
        forall|i: int, j: int|
            0 <= i < lines_acc(s).0.len() && 0 <= j < lines_acc(s).0[i].len() ==> #[trigger] lines_acc(
                s,
            ).0[i][j] != '\n',
        forall|j: int| 0 <= j < lines_acc(s).1.len() ==> #[trigger] lines_acc(s).1[j] != '\n',
    decreases s.len(),
{
    if s.len() > 0 {
        lemma_lines_acc_no_line_feed(s.drop_last());
        let (done, cur) = lines_acc(s.drop_last());
        if s.last() == '\n' {
            let l = strip_cr(cur);
            assert forall|j: int| 0 <= j < l.len() implies l[j] != '\n' by {
                assert(l[j] == cur[j]);
            }
            assert forall|i: int, j: int|
                0 <= i < done.push(l).len() && 0 <= j < done.push(l)[i].len() implies done.push(
                l,
            )[i][j] != '\n' by {
                if i < done.len() {
                    assert(done.push(l)[i] == done[i]);
                }
            }
        } else {
            assert forall|j: int| 0 <= j < cur.push(s.last()).len() implies cur.push(s.last())[j]
                != '\n' by {
                if j < cur.len() {
                    assert(cur.push(s.last())[j] == cur[j]);
                }
            }
        }
    }
}

/// The three back quotes that open and close a listing.
pub open spec fn fence() -> Seq<char> {
    seq!['`', '`', '`']
}

/// A line that opens or closes a listing.
pub open spec fn is_fence(l: Seq<char>) -> bool {
    starts_with(trim(l), fence())
}

/// The first line at or after `j` that closes a listing.
pub open spec fn fence_from(lines: Seq<Seq<char>>, j: int) -> Option<int>
    decreases lines.len() - j,
{
    if j < 0 || j >= lines.len() {
        None
    } else if is_fence(lines[j]) {
        Some(j)
    } else {
        fence_from(lines, j + 1)
    }
}

/// The body of a listing made of `lines[a..b]`: each line followed by `\n`.
pub open spec fn listing_code(lines: Seq<Seq<char>>, a: int, b: int) -> Seq<char>
    decreases b - a,
{
    if b <= a {
        seq![]
    } else {
        listing_code(lines, a, b - 1) + lines[b - 1] + seq!['\n']
    }
}

/// The message for an attribute line without `=`.
pub open spec fn attribute_error() -> Seq<char> {
    "неверный формат атрибута (ожидалось '\\ключ = значение')"@
}

/// The message for a listing opened on line `start` and never closed.
pub open spec fn unclosed_listing_error(start: nat) -> Seq<char> {
    "незакрытый листинг (начало на строке "@ + decimal(start) + seq![')']
}

/// The cell keyword.
pub open spec fn cell_keyword() -> Seq<char> {
    "ГРАФА"@
}

/// The token that a whole trimmed line `s` stands for, if it is a keyword line.
pub open spec fn keyword(s: Seq<char>) -> Option<TokenKindV> {
    if s == "ТИТУЛЬНЫЙ ЛИСТ"@ {
        Some(TokenKindV::Structure { kind: StructuralKind::TitlePage })
    } else if s == "ЛИСТ ДЛЯ ЗАМЕЧАНИЙ"@ {
        Some(TokenKindV::Structure { kind: StructuralKind::NotesPage })
    } else if s == "РЕФЕРАТ"@ {
        Some(TokenKindV::Structure { kind: StructuralKind::Abstract(AbstractKind::Extended) })
    } else if s == "АННОТАЦИЯ"@ {
        Some(TokenKindV::Structure { kind: StructuralKind::Abstract(AbstractKind::Short) })
    } else if s == "СОДЕРЖАНИЕ"@ {
        Some(TokenKindV::Structure { kind: StructuralKind::Contents(ContentsKind::Collection) })
    } else if s == "ОГЛАВЛЕНИЕ"@ {
        Some(TokenKindV::Structure { kind: StructuralKind::Contents(ContentsKind::Integrated) })
    } else if s == "НОРМАТИВНЫЕ ССЫЛКИ"@ {
        Some(TokenKindV::Structure { kind: StructuralKind::NormativeReferences })
    } else if s == "ОПРЕДЕЛЕНИЯ ОБОЗНАЧЕНИЯ СОКРАЩЕНИЯ"@ {
        Some(TokenKindV::Structure { kind: StructuralKind::Definitions })
    } else if s == "ВВЕДЕНИЕ"@ {
        Some(TokenKindV::Structure { kind: StructuralKind::Introduction })
    } else if s == "ОСНОВНАЯ ЧАСТЬ"@ {
        Some(TokenKindV::Structure { kind: StructuralKind::MainPart })
    } else if s == "ЗАКЛЮЧЕНИЕ"@ {
        Some(TokenKindV::Structure { kind: StructuralKind::Conclusion(ConclusionKind::Final) })
    } else if s == "ВЫВОДЫ"@ {
        Some(TokenKindV::Structure { kind: StructuralKind::Conclusion(ConclusionKind::Summary) })
    } else if s == "СПИСОК ИСПОЛЬЗОВАННЫХ ИСТОЧНИКОВ"@ {
        Some(TokenKindV::Structure { kind: StructuralKind::Sources })
    } else if s == "ПРИЛОЖЕНИЕ"@ {
        Some(TokenKindV::Structure { kind: StructuralKind::Appendix })
    } else if s == "СВЕДЕНИЯ О САМОСТОЯТЕЛЬНОСТИ ВЫПОЛНЕНИЯ РАБОТЫ"@ {
        Some(TokenKindV::Structure { kind: StructuralKind::IndependenceStatement })
    } else if s == "РИСУНОК"@ {
        Some(TokenKindV::Figure)
    } else if s == "ТАБЛИЦА"@ {
        Some(TokenKindV::Table)
    } else if s == "СТРОКА"@ {
        Some(TokenKindV::Row)
    } else if s == "ПРИМЕЧАНИЯ"@ {
        Some(TokenKindV::Note { kind: NoteKind::General })
    } else if s == "ПРИМЕРЫ"@ {
        Some(TokenKindV::Note { kind: NoteKind::Example })
    } else if s == "ПОЯСНЕНИЯ"@ {
        Some(TokenKindV::Note { kind: NoteKind::Remark })
    } else {
        None
    }
}

/// What a trimmed line `s` means when it does not open a listing.
pub open spec fn classify(s: Seq<char>) -> TokenKindV {
    if s.len() == 0 {
        TokenKindV::EmptyLine
    } else if s[0] == '/' {
        let n = run_end(s, '/', 0);
        TokenKindV::Section { level: n as u8, heading: trim(s.subrange(n, s.len() as int)) }
    } else if s[0] == '\\' {
        let r = s.subrange(1, s.len() as int);
        match find_from(r, '=', 0) {
            Some(k) => TokenKindV::Attribute {
                key: trim(r.subrange(0, k)),
                value: trim(r.subrange(k + 1, r.len() as int)),
            },
            None => TokenKindV::Error { message: attribute_error() },
        }
    } else if s[0] == '-' {
        let n = run_end(s, '-', 0);
        TokenKindV::ListItem { level: n as u8, text: trim(s.subrange(n, s.len() as int)) }
    } else if starts_with(s, cell_keyword()) {
        let c = trim(s.subrange(cell_keyword().len() as int, s.len() as int));
        TokenKindV::Cell { text: if c.len() == 0 { None } else { Some(c) } }
    } else {
        match keyword(s) {
            Some(k) => k,
            None => TokenKindV::Paragraph { text: s },
        }
    }
}

/// The keyword line that names the token kind `k`, for the kinds that a keyword line
/// gives: one line for each structural element kind, figures, tables, rows and each kind
/// of note.
pub open spec fn keyword_line(k: TokenKindV) -> Option<Seq<char>> {
    match k {
        TokenKindV::Structure { kind } => Some(match kind {
            StructuralKind::TitlePage => "ТИТУЛЬНЫЙ ЛИСТ"@,
            StructuralKind::NotesPage => "ЛИСТ ДЛЯ ЗАМЕЧАНИЙ"@,
            StructuralKind::Abstract(AbstractKind::Extended) => "РЕФЕРАТ"@,
            StructuralKind::Abstract(AbstractKind::Short) => "АННОТАЦИЯ"@,
            StructuralKind::Contents(ContentsKind::Collection) => "СОДЕРЖАНИЕ"@,
            StructuralKind::Contents(ContentsKind::Integrated) => "ОГЛАВЛЕНИЕ"@,
            StructuralKind::NormativeReferences => "НОРМАТИВНЫЕ ССЫЛКИ"@,
            StructuralKind::Definitions => "ОПРЕДЕЛЕНИЯ ОБОЗНАЧЕНИЯ СОКРАЩЕНИЯ"@,
            StructuralKind::Introduction => "ВВЕДЕНИЕ"@,
            StructuralKind::MainPart => "ОСНОВНАЯ ЧАСТЬ"@,
            StructuralKind::Conclusion(ConclusionKind::Final) => "ЗАКЛЮЧЕНИЕ"@,
            StructuralKind::Conclusion(ConclusionKind::Summary) => "ВЫВОДЫ"@,
            StructuralKind::Sources => "СПИСОК ИСПОЛЬЗОВАННЫХ ИСТОЧНИКОВ"@,
            StructuralKind::Appendix => "ПРИЛОЖЕНИЕ"@,
            StructuralKind::IndependenceStatement => "СВЕДЕНИЯ О САМОСТОЯТЕЛЬНОСТИ ВЫПОЛНЕНИЯ РАБОТЫ"@,
        }),
        TokenKindV::Figure => Some("РИСУНОК"@),
        TokenKindV::Table => Some("ТАБЛИЦА"@),
        TokenKindV::Row => Some("СТРОКА"@),
        TokenKindV::Note { kind } => Some(match kind {
            NoteKind::General => "ПРИМЕЧАНИЯ"@,
            NoteKind::Example => "ПРИМЕРЫ"@,
            NoteKind::Remark => "ПОЯСНЕНИЯ"@,
        }),
        _ => None,
    }
}

/// The keyword line of `k`, trimmed as it is, means `k`, and opens no listing.
proof fn lemma_keyword_line_means(k: TokenKindV)
    requires
        keyword_line(k) is Some,
    ensures
        classify(keyword_line(k).unwrap()) == k,
        !starts_with(keyword_line(k).unwrap(), fence()),
{
    reveal_strlit("ГРАФА");
    reveal_strlit("ТИТУЛЬНЫЙ ЛИСТ");
    reveal_strlit("ЛИСТ ДЛЯ ЗАМЕЧАНИЙ");
    reveal_strlit("РЕФЕРАТ");
    reveal_strlit("АННОТАЦИЯ");
    reveal_strlit("СОДЕРЖАНИЕ");
    reveal_strlit("ОГЛАВЛЕНИЕ");
    reveal_strlit("НОРМАТИВНЫЕ ССЫЛКИ");
    reveal_strlit("ОПРЕДЕЛЕНИЯ ОБОЗНАЧЕНИЯ СОКРАЩЕНИЯ");
    reveal_strlit("ВВЕДЕНИЕ");
    reveal_strlit("ОСНОВНАЯ ЧАСТЬ");
    reveal_strlit("ЗАКЛЮЧЕНИЕ");
    reveal_strlit("ВЫВОДЫ");
    reveal_strlit("СПИСОК ИСПОЛЬЗОВАННЫХ ИСТОЧНИКОВ");
    reveal_strlit("ПРИЛОЖЕНИЕ");
    reveal_strlit("СВЕДЕНИЯ О САМОСТОЯТЕЛЬНОСТИ ВЫПОЛНЕНИЯ РАБОТЫ");
    reveal_strlit("РИСУНОК");
    reveal_strlit("ТАБЛИЦА");
    reveal_strlit("СТРОКА");
    reveal_strlit("ПРИМЕЧАНИЯ");
    reveal_strlit("ПРИМЕРЫ");
    reveal_strlit("ПОЯСНЕНИЯ");
    let w = keyword_line(k).unwrap();
    match k {
        TokenKindV::Structure { kind: StructuralKind::Contents(ContentsKind::Integrated) } => {
            assert("ОГЛАВЛЕНИЕ"@[0] != "СОДЕРЖАНИЕ"@[0]);
        },
        TokenKindV::Structure { kind: StructuralKind::NormativeReferences } => {
            assert("НОРМАТИВНЫЕ ССЫЛКИ"@[0] != "ЛИСТ ДЛЯ ЗАМЕЧАНИЙ"@[0]);
        },
        TokenKindV::Structure { kind: StructuralKind::MainPart } => {
            assert("ОСНОВНАЯ ЧАСТЬ"@[0] != "ТИТУЛЬНЫЙ ЛИСТ"@[0]);
        },
        TokenKindV::Structure { kind: StructuralKind::Conclusion(ConclusionKind::Final) } => {
            assert("ЗАКЛЮЧЕНИЕ"@[0] != "СОДЕРЖАНИЕ"@[0]);
            assert("ЗАКЛЮЧЕНИЕ"@[0] != "ОГЛАВЛЕНИЕ"@[0]);
        },
        TokenKindV::Structure { kind: StructuralKind::Appendix } => {
            assert("ПРИЛОЖЕНИЕ"@[0] != "СОДЕРЖАНИЕ"@[0]);
            assert("ПРИЛОЖЕНИЕ"@[0] != "ОГЛАВЛЕНИЕ"@[0]);
            assert("ПРИЛОЖЕНИЕ"@[0] != "ЗАКЛЮЧЕНИЕ"@[0]);
        },
        TokenKindV::Figure => {
            assert("РИСУНОК"@[1] != "РЕФЕРАТ"@[1]);
        },
        TokenKindV::Table => {
            assert("ТАБЛИЦА"@[0] != "РЕФЕРАТ"@[0]);
            assert("ТАБЛИЦА"@[0] != "РИСУНОК"@[0]);
        },
        TokenKindV::Row => {
            assert("СТРОКА"@[0] != "ВЫВОДЫ"@[0]);
        },
        TokenKindV::Note { kind: NoteKind::General } => {
            assert("ПРИМЕЧАНИЯ"@[0] != "СОДЕРЖАНИЕ"@[0]);
            assert("ПРИМЕЧАНИЯ"@[0] != "ОГЛАВЛЕНИЕ"@[0]);
            assert("ПРИМЕЧАНИЯ"@[0] != "ЗАКЛЮЧЕНИЕ"@[0]);
            assert("ПРИМЕЧАНИЯ"@[3] != "ПРИЛОЖЕНИЕ"@[3]);
        },
        TokenKindV::Note { kind: NoteKind::Example } => {
            assert("ПРИМЕРЫ"@[0] != "РЕФЕРАТ"@[0]);
            assert("ПРИМЕРЫ"@[0] != "РИСУНОК"@[0]);
            assert("ПРИМЕРЫ"@[0] != "ТАБЛИЦА"@[0]);
        },
        TokenKindV::Note { kind: NoteKind::Remark } => {
            assert("ПОЯСНЕНИЯ"@[0] != "АННОТАЦИЯ"@[0]);
        },
        _ => {},
    }
    lemma_first_char_not_prefix(w, cell_keyword());
    lemma_first_char_not_prefix(w, fence());
}

/// A sequence whose first character differs from that of `p` does not start with `p`.
proof fn lemma_first_char_not_prefix(s: Seq<char>, p: Seq<char>)
    requires
        s.len() > 0,
        p.len() > 0,
        s[0] != p[0],
    ensures
        !starts_with(s, p),
{
    if starts_with(s, p) {
        assert(s.subrange(0, p.len() as int)[0] == s[0]);
    }
}

/// Each keyword line gives its own kind: a line whose trimmed text is the keyword line of
/// `k` lexes to a token of kind `k` (every structural element kind, figures, tables, rows
/// and each note kind has its line).
pub proof fn law_keyword_lines_give_their_kind(lines: Seq<Seq<char>>, i: int, k: TokenKindV)
    requires
        0 <= i < lines.len(),
        keyword_line(k) == Some(trim(lines[i])),
    ensures
        classify(trim(lines[i])) == k,
        token_at(lines, i).0.kind == k,
{
    lemma_keyword_line_means(k);
}

/// No two kinds share a keyword line: whatever line a keyword gives a kind for is the
/// keyword line of that kind.
pub proof fn law_keyword_names_one_kind(s: Seq<char>)
    ensures
        keyword(s) matches Some(k) ==> keyword_line(k) == Some(s),
{
}

/// `fence_from` finds nothing before `j`.
pub proof fn lemma_fence_from_bounds(lines: Seq<Seq<char>>, j: int)
    ensures
        fence_from(lines, j) matches Some(k) ==> 0 <= j <= k < lines.len() && is_fence(lines[k]),
    decreases lines.len() - j,
{
    if 0 <= j < lines.len() && !is_fence(lines[j]) {
        lemma_fence_from_bounds(lines, j + 1);
    }
}

/// The token that starts at line index `i`, and the index of the line after it.
pub open spec fn token_at(lines: Seq<Seq<char>>, i: int) -> (TokenV, int) {
    let raw = lines[i];
    let s = trim(raw);
    if starts_with(s, fence()) {
        match fence_from(lines, i + 1) {
            Some(k) => (
                TokenV {
                    kind: TokenKindV::Listing { code: listing_code(lines, i + 1, k) },
                    line: k + 1,
                    raw,
                },
                k + 1,
            ),
            None => (
                TokenV {
                    kind: TokenKindV::Error { message: unclosed_listing_error((i + 1) as nat) },
                    line: lines.len() as int,
                    raw,
                },
                lines.len() as int,
            ),
        }
    } else {
        (TokenV { kind: classify(s), line: i + 1, raw }, i + 1)
    }
}

/// The token at line index `i` ends after it, within the lines.
pub proof fn lemma_token_at_advances(lines: Seq<Seq<char>>, i: int)
    requires
        0 <= i < lines.len(),
    ensures
        i < token_at(lines, i).1 <= lines.len(),
        token_at(lines, i).0.line == token_at(lines, i).1,
{
    lemma_fence_from_bounds(lines, i + 1);
}

/// The tokens of `lines` from line index `i` on.
pub open spec fn lex_from(lines: Seq<Seq<char>>, i: int) -> Seq<TokenV>
    decreases lines.len() - i,
{
    if i < 0 || i >= lines.len() {
        seq![]
    } else {
        proof {
            lemma_token_at_advances(lines, i);
        }
        seq![token_at(lines, i).0] + lex_from(lines, token_at(lines, i).1)
    }
}

/// Without listings, each line is one token: its meaning, its number and the line itself.
pub proof fn law_one_token_per_line(lines: Seq<Seq<char>>, i: int)
    requires
        0 <= i <= lines.len(),
        forall|j: int| 0 <= j < lines.len() ==> !is_fence(#[trigger] lines[j]),
    ensures
        lex_from(lines, i) == Seq::new(
            (lines.len() - i) as nat,
            |j: int| TokenV { kind: classify(trim(lines[i + j])), line: i + j + 1, raw: lines[i + j] },
        ),
    decreases lines.len() - i,
{
    if i < lines.len() {
        assert(!is_fence(lines[i]));
        law_one_token_per_line(lines, i + 1);
        assert(lex_from(lines, i) =~= Seq::new(
            (lines.len() - i) as nat,
            |j: int| TokenV { kind: classify(trim(lines[i + j])), line: i + j + 1, raw: lines[i + j] },
        ));
    } else {
        assert(lex_from(lines, i) =~= Seq::new(
            (lines.len() - i) as nat,
            |j: int| TokenV { kind: classify(trim(lines[i + j])), line: i + j + 1, raw: lines[i + j] },
        ));
    }
}

/// The tokens cover every line, in order: their line numbers increase strictly, stay within
/// the lines after `i`, and the last token ends on the last line.
pub proof fn law_tokens_cover_lines(lines: Seq<Seq<char>>, i: int)
    requires
        0 <= i <= lines.len(),
    ensures
        ({
            let ts = lex_from(lines, i);
            &&& ts.len() <= lines.len() - i
            &&& forall|a: int| 0 <= a < ts.len() ==> i < #[trigger] ts[a].line <= lines.len()
            &&& forall|a: int, b: int| 0 <= a < b < ts.len() ==> #[trigger] ts[a].line < #[trigger] ts[b].line
            &&& ts.len() > 0 ==> ts.last().line == lines.len()
            &&& i < lines.len() ==> ts.len() > 0
        }),
    decreases lines.len() - i,
{
    if i < lines.len() {
        lemma_token_at_advances(lines, i);
        let (t, j) = token_at(lines, i);
        law_tokens_cover_lines(lines, j);
        let rest = lex_from(lines, j);
        let ts = lex_from(lines, i);
        assert(ts == seq![t] + rest);
        assert forall|a: int| 0 <= a < ts.len() implies i < #[trigger] ts[a].line <= lines.len() by {
            if a > 0 {
                assert(ts[a] == rest[a - 1]);
            }
        }
        assert forall|a: int, b: int| 0 <= a < b < ts.len() implies #[trigger] ts[a].line < #[trigger] ts[b].line by {
            assert(ts[b] == rest[b - 1]);
            if a > 0 {
                assert(ts[a] == rest[a - 1]);
            }
        }
        if rest.len() > 0 {
            assert(ts.last() == rest.last());
        }
    }
}

/// The tokens of the source text `s`.
pub open spec fn lex(s: Seq<char>) -> Seq<TokenV> {
    lex_from(spec_lines(s), 0)
}

/// Reads a source text line by line and hands out its tokens.
pub struct Lexer {
    lines: Vec<Vec<char>>,
    line_num: usize,
}

impl Lexer {
    /// The lines of the source.
    pub closed spec fn source_lines(&self) -> Seq<Seq<char>> {
        self.lines@.map_values(|l: Vec<char>| l@)
    }

    /// How many lines have been read.
    pub closed spec fn position(&self) -> int {
        self.line_num as int
    }

    #[verifier::type_invariant]
    closed spec fn inv(&self) -> bool {
        self.line_num <= self.lines.len()
    }

    /// A lexer at the start of `input`.
    pub fn new(input: &str) -> (r: Self)
        ensures
            r.source_lines() == spec_lines(input@),
            r.position() == 0,
    {
        let chars = str_chars(input);
        let mut done: Vec<Vec<char>> = Vec::new();
        let mut cur: Vec<char> = Vec::new();
        let mut i: usize = 0;
        assert(chars@.take(0) =~= seq![]);
        while i < chars.len()
            invariant
                i <= chars.len(),
                lines_acc(chars@.take(i as int)) == (done@.map_values(|l: Vec<char>| l@), cur@),
            decreases chars.len() - i,
        {
            let c = chars[i];
            let ghost prev = done@.map_values(|l: Vec<char>| l@);
            assert(chars@.take(i + 1).drop_last() =~= chars@.take(i as int));
            if c == '\n' {
                if cur.len() > 0 && cur[cur.len() - 1] == '\r' {
                    cur.pop();
                }
                done.push(cur);
                cur = Vec::new();
                assert(done@.map_values(|l: Vec<char>| l@) =~= prev.push(done@.last()@));
            } else {
                cur.push(c);
                assert(done@.map_values(|l: Vec<char>| l@) =~= prev);
            }
            i = i + 1;
        }
        assert(chars@.take(chars.len() as int) =~= chars@);
        if cur.len() > 0 {
            let ghost prev = done@.map_values(|l: Vec<char>| l@);
            done.push(cur);
            assert(done@.map_values(|l: Vec<char>| l@) =~= prev.push(done@.last()@));
        }
        Lexer { lines: done, line_num: 0 }
    }

    /// The next token, if any line is left; it covers one line, or the lines of a listing.
    pub fn next(&mut self) -> (r: Option<Token>)
        ensures
            final(self).source_lines() == old(self).source_lines(),
            0 <= final(self).position() <= final(self).source_lines().len(),
            old(self).position() >= old(self).source_lines().len() ==> r is None
                && final(self).position() == old(self).position(),
            old(self).position() < old(self).source_lines().len() ==> ({
                let (t, j) = token_at(old(self).source_lines(), old(self).position());
                &&& r matches Some(tok)
                &&& tok@ == t
                &&& final(self).position() == j
            }),
    {
        proof {
            use_type_invariant(&*self);
        }
        if self.line_num >= self.lines.len() {
            return None;
        }
        let i: usize = self.line_num;
        let raw = copy_range(&self.lines[i], 0, self.lines[i].len());
        assert(raw@ =~= self.source_lines()[i as int]);
        self.line_num = i + 1;
        let kind = self.identify_kind(&raw);
        proof {
            lemma_token_at_advances(self.source_lines(), i as int);
        }
        Some(Token::new(kind, self.line_num, chars_to_string(&raw)))
    }

    /// The meaning of the line `raw`, just read; a listing reads on to its end.
    fn identify_kind(&mut self, raw: &Vec<char>) -> (r: TokenType)
        requires
            1 <= old(self).position() <= old(self).source_lines().len(),
            raw@ == old(self).source_lines()[old(self).position() - 1],
        ensures
            final(self).source_lines() == old(self).source_lines(),
            ({
                let (t, j) = token_at(old(self).source_lines(), old(self).position() - 1);
                r@ == t.kind && final(self).position() == j
            }),
    {
        let stripped = trim_chars(raw);
        let n: usize = stripped.len();
        assert(stripped@.subrange(0, n as int) =~= stripped@);
        let fence_chars = vec!['`', '`', '`'];
        assert(fence_chars@ =~= fence());
        if starts_with_at(&stripped, 0, &fence_chars) {
            return self.parse_listing();
        }
        if n == 0 {
            return TokenType::EmptyLine;
        }
        if stripped[0] == '/' {
            let level: usize = skip_run(&stripped, '/', 0);
            let heading = trim_chars(&copy_range(&stripped, level, n));
            return TokenType::Section { level: #[verifier::truncate] (level as u8), heading: chars_to_string(&heading) };
        }
        if stripped[0] == '\\' {
            let rest = copy_range(&stripped, 1, n);
            return match find_char(&rest, '=', 0) {
                Some(k) => {
                    let key = trim_chars(&copy_range(&rest, 0, k));
                    let value = trim_chars(&copy_range(&rest, k + 1, rest.len()));
                    TokenType::Attribute {
                        key: chars_to_string(&key),
                        value: chars_to_string(&value),
                    }
                },
                None => {
                    let message = str_chars("неверный формат атрибута (ожидалось '\\ключ = значение')");
                    TokenType::Error { message: chars_to_string(&message) }
                },
            };
        }
        if stripped[0] == '-' {
            let level: usize = skip_run(&stripped, '-', 0);
            let text = trim_chars(&copy_range(&stripped, level, n));
            return TokenType::ListItem { level: #[verifier::truncate] (level as u8), text: chars_to_string(&text) };
        }
        let cell = str_chars("ГРАФА");
        if starts_with_at(&stripped, 0, &cell) {
            let content = trim_chars(&copy_range(&stripped, cell.len(), n));
            return if content.len() == 0 {
                TokenType::Cell { text: None }
            } else {
                TokenType::Cell { text: Some(chars_to_string(&content)) }
            };
        }
        if let Some(kind) = self.match_keyword(&stripped) {
            return kind;
        }
        TokenType::Paragraph { text: chars_to_string(&stripped) }
    }

    /// Reads the lines of a listing up to its closing fence.
    fn parse_listing(&mut self) -> (r: TokenType)
        requires
            1 <= old(self).position() <= old(self).source_lines().len(),
            is_fence(old(self).source_lines()[old(self).position() - 1]),
        ensures
            final(self).source_lines() == old(self).source_lines(),
            ({
                let (t, j) = token_at(old(self).source_lines(), old(self).position() - 1);
                r@ == t.kind && final(self).position() == j
            }),
    {
        proof {
            use_type_invariant(&*self);
        }
        let ghost lines = self.source_lines();
        let start_line: usize = self.line_num;
        let total: usize = self.lines.len();
        let mut code: Vec<char> = Vec::new();
        let fence_chars = vec!['`', '`', '`'];
        assert(fence_chars@ =~= fence());
        let mut k: usize = start_line;
        while k < total
            invariant
                start_line <= k <= total,
                start_line == old(self).line_num,
                1 <= start_line,
                is_fence(lines[start_line - 1]),
                lines == old(self).source_lines(),
                self.source_lines() == lines,
                lines.len() == total == self.lines.len(),
                fence_from(lines, start_line as int) == fence_from(lines, k as int),
                code@ == listing_code(lines, start_line as int, k as int),
                fence_chars@ == fence(),
            decreases total - k,
        {
            assert(self.lines@[k as int]@ == lines[k as int]);
            let t = trim_chars(&self.lines[k]);
            assert(t@.subrange(0, t.len() as int) =~= t@);
            if starts_with_at(&t, 0, &fence_chars) {
                assert(fence_from(lines, start_line as int) == Some(k as int));
                self.line_num = k + 1;
                let r = TokenType::Listing { code: chars_to_string(&code) };
                return r;
            }
            push_all(&mut code, &self.lines[k]);
            code.push('\n');
            assert(code@ =~= listing_code(lines, start_line as int, k + 1));
            k = k + 1;
        }
        self.line_num = total;
        let mut message = str_chars("незакрытый листинг (начало на строке ");
        push_decimal(start_line, &mut message);
        message.push(')');
        assert(message@ =~= unclosed_listing_error(start_line as nat));
        TokenType::Error { message: chars_to_string(&message) }
    }

    /// The keyword token that the trimmed line `s` is, if any.
    fn match_keyword(&self, s: &Vec<char>) -> (r: Option<TokenType>)
        ensures
            match r {
                Some(t) => keyword(s@) == Some(t@),
                None => keyword(s@) is None,
            },
    {
        if eq_lit(s, "ТИТУЛЬНЫЙ ЛИСТ") {
            Some(TokenType::Structure { kind: StructuralKind::TitlePage })
        } else if eq_lit(s, "ЛИСТ ДЛЯ ЗАМЕЧАНИЙ") {
            Some(TokenType::Structure { kind: StructuralKind::NotesPage })
        } else if eq_lit(s, "РЕФЕРАТ") {
            Some(TokenType::Structure { kind: StructuralKind::Abstract(AbstractKind::Extended) })
        } else if eq_lit(s, "АННОТАЦИЯ") {
            Some(TokenType::Structure { kind: StructuralKind::Abstract(AbstractKind::Short) })
        } else if eq_lit(s, "СОДЕРЖАНИЕ") {
            Some(TokenType::Structure { kind: StructuralKind::Contents(ContentsKind::Collection) })
        } else if eq_lit(s, "ОГЛАВЛЕНИЕ") {
            Some(TokenType::Structure { kind: StructuralKind::Contents(ContentsKind::Integrated) })
        } else if eq_lit(s, "НОРМАТИВНЫЕ ССЫЛКИ") {
            Some(TokenType::Structure { kind: StructuralKind::NormativeReferences })
        } else if eq_lit(s, "ОПРЕДЕЛЕНИЯ ОБОЗНАЧЕНИЯ СОКРАЩЕНИЯ") {
            Some(TokenType::Structure { kind: StructuralKind::Definitions })
        } else if eq_lit(s, "ВВЕДЕНИЕ") {
            Some(TokenType::Structure { kind: StructuralKind::Introduction })
        } else if eq_lit(s, "ОСНОВНАЯ ЧАСТЬ") {
            Some(TokenType::Structure { kind: StructuralKind::MainPart })
        } else if eq_lit(s, "ЗАКЛЮЧЕНИЕ") {
            Some(TokenType::Structure { kind: StructuralKind::Conclusion(ConclusionKind::Final) })
        } else if eq_lit(s, "ВЫВОДЫ") {
            Some(TokenType::Structure { kind: StructuralKind::Conclusion(ConclusionKind::Summary) })
        } else if eq_lit(s, "СПИСОК ИСПОЛЬЗОВАННЫХ ИСТОЧНИКОВ") {
            Some(TokenType::Structure { kind: StructuralKind::Sources })
        } else if eq_lit(s, "ПРИЛОЖЕНИЕ") {
            Some(TokenType::Structure { kind: StructuralKind::Appendix })
        } else if eq_lit(s, "СВЕДЕНИЯ О САМОСТОЯТЕЛЬНОСТИ ВЫПОЛНЕНИЯ РАБОТЫ") {
            Some(TokenType::Structure { kind: StructuralKind::IndependenceStatement })
        } else if eq_lit(s, "РИСУНОК") {
            Some(TokenType::Figure)
        } else if eq_lit(s, "ТАБЛИЦА") {
            Some(TokenType::Table)
        } else if eq_lit(s, "СТРОКА") {
            Some(TokenType::Row)
        } else if eq_lit(s, "ПРИМЕЧАНИЯ") {
            Some(TokenType::Note { kind: NoteKind::General })
        } else if eq_lit(s, "ПРИМЕРЫ") {
            Some(TokenType::Note { kind: NoteKind::Example })
        } else if eq_lit(s, "ПОЯСНЕНИЯ") {
            Some(TokenType::Note { kind: NoteKind::Remark })
        } else {
            None
        }
    }
}

} // verus!
