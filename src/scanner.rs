use vstd::prelude::*;
use crate::laws::{lemma_end_last_and_unique, lemma_lexeme_is_source_span, lemma_whitespace_only};
use crate::model::{spelling, is_blank, newlines, token_starts, emitted_errors, emitted_tokens, find_from, lemma_find_from, lemma_lex_at_advances, lemma_line_at_next, lemma_newlines_bound, lex_at, line_at, scan, scan_from};
use crate::token::{error_views, token_views, ErrorView, KindView, ScanError, Token, TokenType, TokenView};

verus! {

/// A single-use scanner over one source text. The cursor runs from the start
/// of the text to its end; `start` marks the first character of the lexeme
/// being read and `line` the line of the cursor.
pub struct Scanner {
    source: String,
    len: usize,
    tokens: Vec<Token>,
    errors: Vec<ScanError>,
    start: usize,
    current: usize,
    line: usize,
}

impl Scanner {
    /// The characters of the source text.
    pub closed spec fn source_view(&self) -> Seq<char> {
        self.source@
    }

    /// The index of the next character to read.
    pub closed spec fn cursor(&self) -> nat {
        self.current as nat
    }

    /// The index of the first character of the lexeme being read.
    pub closed spec fn lexeme_start(&self) -> nat {
        self.start as nat
    }

    /// The line of the cursor.
    pub closed spec fn line_view(&self) -> nat {
        self.line as nat
    }

    /// The tokens collected so far.
    pub closed spec fn collected_tokens(&self) -> Seq<TokenView> {
        token_views(self.tokens@)
    }

    /// The errors collected so far.
    pub closed spec fn collected_errors(&self) -> Seq<ErrorView> {
        error_views(self.errors@)
    }

    /// The scanner's invariant: the cursor lies within the text, `line` is
    /// the line of the cursor, and what was collected so far, followed by the
    /// scan of the rest, is the scan of the whole text.
    pub closed spec fn wf(&self) -> bool {
        let src = self.source@;
        &&& self.len == src.len()
        &&& src.len() < usize::MAX
        &&& self.start <= self.current <= self.len
        &&& self.line == line_at(src, self.current as int)
        &&& token_views(self.tokens@) + scan_from(src, self.current as int).0 == scan_from(src, 0).0
        &&& error_views(self.errors@) + scan_from(src, self.current as int).1 == scan_from(src, 0).1
    }

    /// A scanner at the start of `source`, with nothing collected yet. The
    /// line counter must fit in a `usize`, which the length bound ensures.
    pub fn new(source: String) -> (r: Scanner)
        requires
            source@.len() < usize::MAX,
        ensures
            r.wf(),
            r.source_view() == source@,
            r.cursor() == 0,
            r.lexeme_start() == 0,
            r.line_view() == 1,
            r.collected_tokens() == Seq::<TokenView>::empty(),
            r.collected_errors() == Seq::<ErrorView>::empty(),
    {
        let len = source.as_str().unicode_len();
        let r = Scanner {
            source,
            len,
            tokens: Vec::new(),
            errors: Vec::new(),
            start: 0,
            current: 0,
            line: 1,
        };
        proof {
            assert(r.source@.subrange(0, 0) =~= Seq::<char>::empty());
            assert(token_views(r.tokens@) =~= Seq::empty());
            assert(error_views(r.errors@) =~= Seq::empty());
        }
        r
    }

    /// Scans the whole text. The tokens end with one `End` token on the last
    /// line; the errors come in the order they were met.
    pub fn scan_tokens(self) -> (r: (Vec<Token>, Vec<ScanError>))
        requires
            self.wf(),
        ensures
            token_views(r.0@) == scan(self.source_view()).0,
            error_views(r.1@) == scan(self.source_view()).1,
            r.0@.len() >= 1,
            r.0@.last().kind is End,
            r.0@.last().lexeme@ == Seq::<char>::empty(),
            r.0@.last().line == line_at(self.source_view(), self.source_view().len() as int),
            forall|i: int| 0 <= i < r.0@.len() - 1 ==> !(#[trigger] r.0@[i].kind is End),
            (forall|i: int| 0 <= i < self.source_view().len() ==> is_blank(#[trigger] self.source_view()[i]))
                ==> r.0@.len() == 1 && r.0@[0].line == 1 + newlines(self.source_view()) && r.1@.len() == 0,
            forall|k: int|
                0 <= k < r.0@.len() - 1 ==> {
                    let a = #[trigger] token_starts(self.source_view(), 0)[k];
                    let src = self.source_view();
                    &&& 0 <= a < src.len()
                    &&& r.0@[k].lexeme@ == src.subrange(a, lex_at(src, a).next)
                    &&& r.0@[k].line == line_at(src, a)
                    &&& !(r.0@[k].kind is String) ==> r.0@[k].lexeme@ == spelling(r.0@[k].kind@)
                },
            forall|k: int|
                0 <= k < r.0@.len() - 2 ==> lex_at(self.source_view(), #[trigger] token_starts(self.source_view(), 0)[k]).next
                    <= token_starts(self.source_view(), 0)[k + 1],
    {
        let ghost src = self.source@;
        let mut s = self;
        while !s.is_at_end()
            invariant
                s.wf(),
                s.source@ == src,
            decreases s.len - s.current,
        {
            s.start = s.current;
            let ghost before = s;
            s.scan_token();
            proof {
                let p = before.current as int;
                lemma_lex_at_advances(src, p);
                let step = lex_at(src, p);
                let rest = scan_from(src, step.next);
                assert(scan_from(src, p).0 == emitted_tokens(step.emit) + rest.0);
                assert(token_views(before.tokens@) + emitted_tokens(step.emit) + rest.0
                    =~= token_views(before.tokens@) + (emitted_tokens(step.emit) + rest.0));
                assert(error_views(before.errors@) + emitted_errors(step.emit) + rest.1
                    =~= error_views(before.errors@) + (emitted_errors(step.emit) + rest.1));
            }
        }
        let end = Token::new(TokenType::End, String::new(), s.line);
        s.tokens.push(end);
        proof {
            assert(scan_from(src, s.current as int).0 =~= Seq::empty());
            assert(scan_from(src, s.current as int).1 =~= Seq::empty());
            assert(token_views(s.tokens@) =~= scan(src).0);
            assert(error_views(s.errors@) =~= scan(src).1);
            lemma_end_last_and_unique(src);
            lemma_lexeme_is_source_span(src);
            let n = s.tokens@.len() as int;
            assert forall|i: int| 0 <= i < n implies s.tokens@[i]@ == scan(src).0[i] by {
                assert(token_views(s.tokens@)[i] == s.tokens@[i]@);
            }
            assert forall|i: int| 0 <= i < n - 1 && !(#[trigger] s.tokens@[i].kind is String) implies !(scan(src).0[i].kind is Str) by {
                assert(s.tokens@[i]@ == scan(src).0[i]);
            }
            assert forall|i: int| 0 <= i < n - 1 implies !(#[trigger] s.tokens@[i].kind is End) by {
                assert(s.tokens@[i]@ == scan(src).0[i]);
                assert(!(s.tokens@[i].kind@ is End));
            }
            if forall|i: int| 0 <= i < src.len() ==> is_blank(#[trigger] src[i]) {
                lemma_whitespace_only(src);
                assert(error_views(s.errors@).len() == 0);
            }
        }
        (s.tokens, s.errors)
    }

    /// Reads one lexeme from the cursor on, and records its token or error.
    fn scan_token(&mut self)
        requires
            old(self).wf(),
            old(self).start == old(self).current,
            old(self).current < old(self).len,
        ensures
            final(self).source@ == old(self).source@,
            final(self).len == old(self).len,
            final(self).start <= final(self).current,
            final(self).current == lex_at(old(self).source@, old(self).current as int).next,
            final(self).line == line_at(old(self).source@, final(self).current as int),
            token_views(final(self).tokens@) == token_views(old(self).tokens@) + emitted_tokens(
                lex_at(old(self).source@, old(self).current as int).emit,
            ),
            error_views(final(self).errors@) == error_views(old(self).errors@) + emitted_errors(
                lex_at(old(self).source@, old(self).current as int).emit,
            ),
    {
        let ghost src = self.source@;
        let ghost p = self.current as int;
        proof {
            lemma_line_at_next(src, p);
            lemma_newlines_bound(src.subrange(0, p + 1));
            if p + 1 < src.len() {
                lemma_line_at_next(src, p + 1);
            }
        }
        let line = self.line;
        let c = self.advance();
        match c {
            '(' => self.add_token(TokenType::LeftParen, line),
            ')' => self.add_token(TokenType::RightParen, line),
            '{' => self.add_token(TokenType::LeftBrace, line),
            '}' => self.add_token(TokenType::RightBrace, line),
            ',' => self.add_token(TokenType::Comma, line),
            '.' => self.add_token(TokenType::Dot, line),
            '-' => self.add_token(TokenType::Minus, line),
            '+' => self.add_token(TokenType::Plus, line),
            ';' => self.add_token(TokenType::Semicolon, line),
            '*' => self.add_token(TokenType::Star, line),
            '!' => {
                let t = if self.cond_advance('=') {
                    TokenType::BangEqual
                } else {
                    TokenType::Bang
                };
                self.add_token(t, line);
            },
            '=' => {
                let t = if self.cond_advance('=') {
                    TokenType::EqualEqual
                } else {
                    TokenType::Equal
                };
                self.add_token(t, line);
            },
            '<' => {
                let t = if self.cond_advance('=') {
                    TokenType::LessEqual
                } else {
                    TokenType::Less
                };
                self.add_token(t, line);
            },
            '>' => {
                let t = if self.cond_advance('=') {
                    TokenType::GreaterEqual
                } else {
                    TokenType::Greater
                };
                self.add_token(t, line);
            },
            '/' => {
                if self.cond_advance('/') {
                    proof {
                        lemma_line_at_next(src, p + 1);
                    }
                    self.skip_comment();
                } else {
                    self.add_token(TokenType::Slash, line);
                }
            },
            '"' => self.string(),
            ' ' | '\t' | '\r' => {},
            '\n' => {
                self.line = self.line + 1;
            },
            _ => {
                self.errors.push(ScanError::UnexpectedChar { line, ch: c });
            },
        }
        proof {
            assert(token_views(final(self).tokens@) =~= token_views(old(self).tokens@) + emitted_tokens(lex_at(src, p).emit));
            assert(error_views(final(self).errors@) =~= error_views(old(self).errors@) + emitted_errors(lex_at(src, p).emit));
        }
    }

    /// Passes over the rest of a line comment, up to but not including the
    /// next newline.
    fn skip_comment(&mut self)
        requires
            old(self).len == old(self).source@.len(),
            2 <= old(self).current <= old(self).len,
            old(self).line == line_at(old(self).source@, old(self).current as int),
        ensures
            final(self).source@ == old(self).source@,
            final(self).len == old(self).len,
            final(self).start == old(self).start,
            final(self).tokens == old(self).tokens,
            final(self).errors == old(self).errors,
            old(self).current <= final(self).current,
            final(self).current == find_from(old(self).source@, old(self).current as int, '\n'),
            final(self).line == old(self).line,
            final(self).line == line_at(old(self).source@, final(self).current as int),
    {
        let ghost src = self.source@;
        let ghost from = self.current as int;
        proof {
            lemma_find_from(src, from, '\n');
        }
        while self.peek() != '\n' && !self.is_at_end()
            invariant
                self.source@ == src,
                self.len == src.len(),
                from <= self.current <= self.len,
                self.start == old(self).start,
                self.tokens == old(self).tokens,
                self.errors == old(self).errors,
                self.line == old(self).line,
                self.line == line_at(src, self.current as int),
                find_from(src, self.current as int, '\n') == find_from(src, from, '\n'),
            decreases self.len - self.current,
        {
            proof {
                lemma_line_at_next(src, self.current as int);
            }
            self.advance();
        }
    }

    /// Reads a string literal whose opening quote was just consumed, and
    /// records its token, or an error if the text ends first.
    fn string(&mut self)
        requires
            old(self).len == old(self).source@.len(),
            old(self).source@.len() < usize::MAX,
            old(self).current == old(self).start + 1,
            old(self).current <= old(self).len,
            old(self).line == line_at(old(self).source@, old(self).start as int),
            old(self).line == line_at(old(self).source@, old(self).current as int),
        ensures
            final(self).source@ == old(self).source@,
            final(self).len == old(self).len,
            final(self).start == old(self).start,
            old(self).current <= final(self).current,
            ({
                let src = old(self).source@;
                let q = find_from(src, old(self).current as int, '"');
                let st = lex_at(src, old(self).start as int);
                &&& src[old(self).start as int] == '"' ==> final(self).current == st.next
                &&& final(self).line == line_at(src, final(self).current as int)
                &&& q < src.len() ==> {
                    &&& final(self).current == q + 1
                    &&& token_views(final(self).tokens@) == token_views(old(self).tokens@).push(
                        TokenView {
                            kind: KindView::Str(src.subrange(old(self).current as int, q)),
                            lexeme: src.subrange(old(self).start as int, q + 1),
                            line: old(self).line as nat,
                        },
                    )
                    &&& final(self).errors == old(self).errors
                }
                &&& q >= src.len() ==> {
                    &&& final(self).current == src.len()
                    &&& final(self).tokens == old(self).tokens
                    &&& error_views(final(self).errors@) == error_views(old(self).errors@).push(
                        ErrorView::UnterminatedString { line: line_at(src, q) },
                    )
                }
            }),
    {
        let ghost src = self.source@;
        let ghost from = self.current as int;
        proof {
            lemma_find_from(src, from, '"');
        }
        let line = self.line;
        while self.peek() != '"' && !self.is_at_end()
            invariant
                self.source@ == src,
                self.len == src.len(),
                src.len() < usize::MAX,
                from <= self.current <= self.len,
                self.start == old(self).start,
                self.tokens == old(self).tokens,
                self.errors == old(self).errors,
                self.line == line_at(src, self.current as int),
                find_from(src, self.current as int, '"') == find_from(src, from, '"'),
            decreases self.len - self.current,
        {
            proof {
                lemma_line_at_next(src, self.current as int);
                lemma_newlines_bound(src.subrange(0, self.current + 1));
            }
            if self.peek() == '\n' {
                self.line = self.line + 1;
            }
            self.advance();
        }
        if self.is_at_end() {
            self.errors.push(ScanError::UnterminatedString { line: self.line });
            proof {
                assert(error_views(self.errors@) =~= error_views(old(self).errors@).push(
                    ErrorView::UnterminatedString { line: line_at(src, find_from(src, from, '"')) },
                ));
            }
            return;
        }
        proof {
            lemma_line_at_next(src, self.current as int);
        }
        self.advance();
        let text = String::from_str(self.source.as_str().substring_char(self.start + 1, self.current - 1));
        self.add_token(TokenType::String(text), line);
    }

    /// Records a token of kind `kind` over the lexeme `[start, current)`.
    fn add_token(&mut self, kind: TokenType, line: usize)
        requires
            old(self).start <= old(self).current <= old(self).source@.len(),
        ensures
            final(self).source@ == old(self).source@,
            final(self).len == old(self).len,
            final(self).start == old(self).start,
            final(self).current == old(self).current,
            final(self).line == old(self).line,
            final(self).errors == old(self).errors,
            final(self).tokens@ == old(self).tokens@.push(final(self).tokens@.last()),
            final(self).tokens@.last()@ == (TokenView {
                kind: kind@,
                lexeme: old(self).source@.subrange(old(self).start as int, old(self).current as int),
                line: line as nat,
            }),
    {
        let text = String::from_str(self.source.as_str().substring_char(self.start, self.current));
        self.tokens.push(Token::new(kind, text, line));
    }

    /// Whether the cursor has reached the end of the text.
    fn is_at_end(&self) -> (r: bool)
        ensures
            r == (self.current >= self.len),
    {
        self.current >= self.len
    }

    /// The character at the cursor, or NUL at the end of the text.
    fn peek(&self) -> (r: char)
        requires
            self.len == self.source@.len(),
        ensures
            r == if self.current < self.len { self.source@[self.current as int] } else { '\0' },
    {
        if self.is_at_end() {
            return '\0';
        }
        self.source.as_str().get_char(self.current)
    }

    /// Consumes the character at the cursor and returns it.
    fn advance(&mut self) -> (r: char)
        requires
            old(self).len == old(self).source@.len(),
            old(self).current < old(self).len,
        ensures
            r == old(self).source@[old(self).current as int],
            final(self).current == old(self).current + 1,
            final(self).source@ == old(self).source@,
            final(self).len == old(self).len,
            final(self).start == old(self).start,
            final(self).line == old(self).line,
            final(self).tokens == old(self).tokens,
            final(self).errors == old(self).errors,
    {
        let c = self.source.as_str().get_char(self.current);
        self.current = self.current + 1;
        c
    }

    /// Consumes the character at the cursor if it is `expected`, and says
    /// whether it did.
    fn cond_advance(&mut self, expected: char) -> (r: bool)
        requires
            old(self).len == old(self).source@.len(),
        ensures
            r == (old(self).current < old(self).len && old(self).source@[old(self).current as int] == expected),
            final(self).current == old(self).current + if r { 1int } else { 0int },
            final(self).source@ == old(self).source@,
            final(self).len == old(self).len,
            final(self).start == old(self).start,
            final(self).line == old(self).line,
            final(self).tokens == old(self).tokens,
            final(self).errors == old(self).errors,
    {
        if self.is_at_end() {
            return false;
        }
        if self.source.as_str().get_char(self.current) != expected {
            return false;
        }
        self.current = self.current + 1;
        true
    }
}

} // verus!
