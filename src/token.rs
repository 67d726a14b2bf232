use vstd::prelude::*;

verus! {

/// The kind of a token. Punctuation and operators carry no payload; a string
/// literal carries its text with the surrounding quotes removed.
#[derive(Clone, Debug, PartialEq, Eq)]
pub enum TokenType {
    LeftParen,
    RightParen,
    LeftBrace,
    RightBrace,
    Comma,
    Dot,
    Minus,
    Plus,
    Semicolon,
    Star,
    Slash,
    Bang,
    BangEqual,
    Equal,
    EqualEqual,
    Less,
    LessEqual,
    Greater,
    GreaterEqual,
    String(String),
    End,
}

/// The mathematical model of a `TokenType`.
pub enum KindView {
    LeftParen,
    RightParen,
    LeftBrace,
    RightBrace,
    Comma,
    Dot,
    Minus,
    Plus,
    Semicolon,
    Star,
    Slash,
    Bang,
    BangEqual,
    Equal,
    EqualEqual,
    Less,
    LessEqual,
    Greater,
    GreaterEqual,
    Str(Seq<char>),
    End,
}

impl View for TokenType {
    type V = KindView;

    open spec fn view(&self) -> KindView {
        match self {
            TokenType::LeftParen => KindView::LeftParen,
            TokenType::RightParen => KindView::RightParen,
            TokenType::LeftBrace => KindView::LeftBrace,
            TokenType::RightBrace => KindView::RightBrace,
            TokenType::Comma => KindView::Comma,
            TokenType::Dot => KindView::Dot,
            TokenType::Minus => KindView::Minus,
            TokenType::Plus => KindView::Plus,
            TokenType::Semicolon => KindView::Semicolon,
            TokenType::Star => KindView::Star,
            TokenType::Slash => KindView::Slash,
            TokenType::Bang => KindView::Bang,
            TokenType::BangEqual => KindView::BangEqual,
            TokenType::Equal => KindView::Equal,
            TokenType::EqualEqual => KindView::EqualEqual,
            TokenType::Less => KindView::Less,
            TokenType::LessEqual => KindView::LessEqual,
            TokenType::Greater => KindView::Greater,
            TokenType::GreaterEqual => KindView::GreaterEqual,
            TokenType::String(s) => KindView::Str(s@),
            TokenType::End => KindView::End,
        }
    }
}

/// One token: its kind, the source text it was read from, and the 1-based
/// line of its first character.
#[derive(Clone, Debug, PartialEq, Eq)]
pub struct Token {
    pub kind: TokenType,
    pub lexeme: String,
    pub line: usize,
}

/// The mathematical model of a `Token`.
pub struct TokenView {
    pub kind: KindView,
    pub lexeme: Seq<char>,
    pub line: nat,
}

impl View for Token {
    type V = TokenView;

    open spec fn view(&self) -> TokenView {
        TokenView { kind: self.kind@, lexeme: self.lexeme@, line: self.line as nat }
    }
}

impl Token {
    pub fn new(kind: TokenType, lexeme: String, line: usize) -> (r: Token)
        ensures
            r.kind == kind,
            r.lexeme == lexeme,
            r.line == line,
    {
        Token { kind, lexeme, line }
    }
}

/// The models of a sequence of tokens.
pub open spec fn token_views(s: Seq<Token>) -> Seq<TokenView> {
    s.map_values(|t: Token| t@)
}

/// The models of a sequence of errors.
pub open spec fn error_views(s: Seq<ScanError>) -> Seq<ErrorView> {
    s.map_values(|e: ScanError| e@)
}

/// A lexical error. Neither kind stops the scan.
#[derive(Clone, Copy, Debug, PartialEq, Eq)]
pub enum ScanError {
    /// A character that starts no token, with the line it stands on.
    UnexpectedChar { line: usize, ch: char },
    /// A string literal still open at the end of the input, with the line
    /// where scanning stopped.
    UnterminatedString { line: usize },
}

/// The mathematical model of a `ScanError`.
pub enum ErrorView {
    UnexpectedChar { line: nat, ch: char },
    UnterminatedString { line: nat },
}

impl View for ScanError {
    type V = ErrorView;

    open spec fn view(&self) -> ErrorView {
        match self {
            ScanError::UnexpectedChar { line, ch } => ErrorView::UnexpectedChar {
                line: *line as nat,
                ch: *ch,
            },
            ScanError::UnterminatedString { line } => ErrorView::UnterminatedString {
                line: *line as nat,
            },
        }
    }
}

} // verus!
