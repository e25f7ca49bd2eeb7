//! Tokens produced by the lexer, one per source line (a listing spans several lines).
use vstd::prelude::*;

verus! {

/// Which abstract: the extended one ("РЕФЕРАТ") or the short one ("АННОТАЦИЯ").
#[derive(Debug, PartialEq, Eq, Clone, Copy, Structural)]
pub enum AbstractKind {
    Extended,
    Short,
}

/// Which table of contents: "СОДЕРЖАНИЕ" or "ОГЛАВЛЕНИЕ".
#[derive(Debug, PartialEq, Eq, Clone, Copy, Structural)]
pub enum ContentsKind {
    Collection,
    Integrated,
}

/// Which closing part: "ЗАКЛЮЧЕНИЕ" or "ВЫВОДЫ".
#[derive(Debug, PartialEq, Eq, Clone, Copy, Structural)]
pub enum ConclusionKind {
    Final,
    Summary,
}

/// The structural elements of a document, each opened by a keyword line.
#[derive(Debug, PartialEq, Eq, Clone, Copy, Structural)]
pub enum StructuralKind {
    TitlePage,
    NotesPage,
    Abstract(AbstractKind),
    Contents(ContentsKind),
    NormativeReferences,
    Definitions,
    Introduction,
    MainPart,
    Conclusion(ConclusionKind),
    Sources,
    Appendix,
    IndependenceStatement,
}

/// The kinds of note blocks.
#[derive(Debug, PartialEq, Eq, Clone, Copy, Structural)]
pub enum NoteKind {
    General,
    Example,
    Remark,
}

/// What a line (or a listing) of the source means.
#[derive(Debug, PartialEq, Clone)]
pub enum TokenType {
    Structure { kind: StructuralKind },
    Section { level: u8, heading: String },
    Figure,
    Row,
    Cell { text: Option<String> },
    Table,
    Listing { code: String },
    Attribute { key: String, value: String },
    Note { kind: NoteKind },
    Paragraph { text: String },
    ListItem { level: u8, text: String },
    Error { message: String },
    EmptyLine,
}

/// A token: its meaning, the number of the last source line it covers, and its first line.
#[derive(Debug, PartialEq, Clone)]
pub struct Token {
    pub kind: TokenType,
    pub line: usize,
    pub raw: String,
}

/// The mathematical value of a [`TokenType`]: strings are character sequences.
pub enum TokenKindV {
    Structure { kind: StructuralKind },
    Section { level: u8, heading: Seq<char> },
    Figure,
    Row,
    Cell { text: Option<Seq<char>> },
    Table,
    Listing { code: Seq<char> },
    Attribute { key: Seq<char>, value: Seq<char> },
    Note { kind: NoteKind },
    Paragraph { text: Seq<char> },
    ListItem { level: u8, text: Seq<char> },
    Error { message: Seq<char> },
    EmptyLine,
}

/// The mathematical value of a [`Token`].
pub struct TokenV {
    pub kind: TokenKindV,
    pub line: int,
    pub raw: Seq<char>,
}

impl View for TokenType {
    type V = TokenKindV;

    open spec fn view(&self) -> TokenKindV {
        match self {
            TokenType::Structure { kind } => TokenKindV::Structure { kind: *kind },
            TokenType::Section { level, heading } => TokenKindV::Section {
                level: *level,
                heading: heading@,
            },
            TokenType::Figure => TokenKindV::Figure,
            TokenType::Row => TokenKindV::Row,
            TokenType::Cell { text } => TokenKindV::Cell {
                text: match text {
                    Some(t) => Some(t@),
                    None => None,
                },
            },
            TokenType::Table => TokenKindV::Table,
            TokenType::Listing { code } => TokenKindV::Listing { code: code@ },
            TokenType::Attribute { key, value } => TokenKindV::Attribute {
                key: key@,
                value: value@,
            },
            TokenType::Note { kind } => TokenKindV::Note { kind: *kind },
            TokenType::Paragraph { text } => TokenKindV::Paragraph { text: text@ },
            TokenType::ListItem { level, text } => TokenKindV::ListItem {
                level: *level,
                text: text@,
            },
            TokenType::Error { message } => TokenKindV::Error { message: message@ },
            TokenType::EmptyLine => TokenKindV::EmptyLine,
        }
    }
}

impl View for Token {
    type V = TokenV;

    open spec fn view(&self) -> TokenV {
        TokenV { kind: self.kind@, line: self.line as int, raw: self.raw@ }
    }
}

impl Token {
    /// A token of the given kind, ending on line `line`, whose first line is `raw`.
    pub fn new(kind: TokenType, line: usize, raw: String) -> (r: Self)
        ensures
            r.kind == kind,
            r.line == line,
            r.raw == raw,
    {
        Token { kind, line, raw }
    }
}

} // verus!
