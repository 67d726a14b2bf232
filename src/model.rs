use vstd::prelude::*;
use crate::token::{ErrorView, KindView, TokenView};

verus! {

/// The number of newline characters in `s`.
pub open spec fn newlines(s: Seq<char>) -> nat
    decreases s.len(),
{
    if s.len() == 0 {
        0
    } else {
        newlines(s.drop_last()) + if s.last() == '\n' { 1nat } else { 0nat }
    }
}

/// The 1-based line on which the character at index `p` of `src` stands.
pub open spec fn line_at(src: Seq<char>, p: int) -> nat {
    1 + newlines(src.subrange(0, p))
}

/// The first index at or after `i` that holds `c`, or `src.len()` if none does.
pub open spec fn find_from(src: Seq<char>, i: int, c: char) -> int
    decreases src.len() - i,
{
    if i >= src.len() {
        src.len() as int
    } else if src[i] == c {
        i
    } else {
        find_from(src, i + 1, c)
    }
}

/// What one step of the scan leaves behind.
pub enum Emit {
    Nothing,
    Token(TokenView),
    Error(ErrorView),
}

/// One step of the scan: where the next step starts, and what it emitted.
pub struct Step {
    pub next: int,
    pub emit: Emit,
}

/// The tokens that an emission adds: one or none.
pub open spec fn emitted_tokens(e: Emit) -> Seq<TokenView> {
    match e {
        Emit::Token(t) => seq![t],
        _ => seq![],
    }
}

/// The errors that an emission adds: one or none.
pub open spec fn emitted_errors(e: Emit) -> Seq<ErrorView> {
    match e {
        Emit::Error(x) => seq![x],
        _ => seq![],
    }
}

/// The kind of a one-character punctuation token.
pub open spec fn single_kind(c: char) -> Option<KindView> {
    if c == '(' {
        Some(KindView::LeftParen)
    } else if c == ')' {
        Some(KindView::RightParen)
    } else if c == '{' {
        Some(KindView::LeftBrace)
    } else if c == '}' {
        Some(KindView::RightBrace)
    } else if c == ',' {
        Some(KindView::Comma)
    } else if c == '.' {
        Some(KindView::Dot)
    } else if c == '-' {
        Some(KindView::Minus)
    } else if c == '+' {
        Some(KindView::Plus)
    } else if c == ';' {
        Some(KindView::Semicolon)
    } else if c == '*' {
        Some(KindView::Star)
    } else {
        None
    }
}

/// The kinds of an operator that may be followed by `=`: alone, and with `=`.
pub open spec fn operator_kinds(c: char) -> Option<(KindView, KindView)> {
    if c == '!' {
        Some((KindView::Bang, KindView::BangEqual))
    } else if c == '=' {
        Some((KindView::Equal, KindView::EqualEqual))
    } else if c == '<' {
        Some((KindView::Less, KindView::LessEqual))
    } else if c == '>' {
        Some((KindView::Greater, KindView::GreaterEqual))
    } else {
        None
    }
}

/// How a token of kind `k` is written in the source; empty for a string
/// literal, whose text varies, and for `End`.
pub open spec fn spelling(k: KindView) -> Seq<char> {
    match k {
        KindView::LeftParen => seq!['('],
        KindView::RightParen => seq![')'],
        KindView::LeftBrace => seq!['{'],
        KindView::RightBrace => seq!['}'],
        KindView::Comma => seq![','],
        KindView::Dot => seq!['.'],
        KindView::Minus => seq!['-'],
        KindView::Plus => seq!['+'],
        KindView::Semicolon => seq![';'],
        KindView::Star => seq!['*'],
        KindView::Slash => seq!['/'],
        KindView::Bang => seq!['!'],
        KindView::BangEqual => seq!['!', '='],
        KindView::Equal => seq!['='],
        KindView::EqualEqual => seq!['=', '='],
        KindView::Less => seq!['<'],
        KindView::LessEqual => seq!['<', '='],
        KindView::Greater => seq!['>'],
        KindView::GreaterEqual => seq!['>', '='],
        KindView::Str(_) => seq![],
        KindView::End => seq![],
    }
}

/// Whether `c` is skipped without a token.
pub open spec fn is_blank(c: char) -> bool {
    c == ' ' || c == '\t' || c == '\r' || c == '\n'
}

/// The token of kind `k` read from `src[p..q)`.
pub open spec fn token_of(src: Seq<char>, p: int, q: int, k: KindView) -> Emit {
    Emit::Token(TokenView { kind: k, lexeme: src.subrange(p, q), line: line_at(src, p) })
}

/// The scan step that starts at index `p`, for `0 <= p < src.len()`.
pub open spec fn lex_at(src: Seq<char>, p: int) -> Step {
    let c = src[p];
    let eq_next = p + 1 < src.len() && src[p + 1] == '=';
    if single_kind(c) is Some {
        Step { next: p + 1, emit: token_of(src, p, p + 1, single_kind(c)->0) }
    } else if operator_kinds(c) is Some {
        let (alone, with_eq) = operator_kinds(c)->0;
        if eq_next {
            Step { next: p + 2, emit: token_of(src, p, p + 2, with_eq) }
        } else {
            Step { next: p + 1, emit: token_of(src, p, p + 1, alone) }
        }
    } else if c == '/' {
        if p + 1 < src.len() && src[p + 1] == '/' {
            Step { next: find_from(src, p + 2, '\n'), emit: Emit::Nothing }
        } else {
            Step { next: p + 1, emit: token_of(src, p, p + 1, KindView::Slash) }
        }
    } else if c == '"' {
        let q = find_from(src, p + 1, '"');
        if q < src.len() {
            Step {
                next: q + 1,
                emit: token_of(src, p, q + 1, KindView::Str(src.subrange(p + 1, q))),
            }
        } else {
            Step {
                next: q,
                emit: Emit::Error(ErrorView::UnterminatedString { line: line_at(src, q) }),
            }
        }
    } else if is_blank(c) {
        Step { next: p + 1, emit: Emit::Nothing }
    } else {
        Step {
            next: p + 1,
            emit: Emit::Error(ErrorView::UnexpectedChar { line: line_at(src, p), ch: c }),
        }
    }
}

/// The tokens and errors of the scan of `src` from index `p` on, without the
/// closing `End` token.
pub open spec fn scan_from(src: Seq<char>, p: int) -> (Seq<TokenView>, Seq<ErrorView>)
    decreases src.len() - p,
{
    if p < 0 || p >= src.len() {
        (seq![], seq![])
    } else {
        let step = lex_at(src, p);
        if step.next <= p || step.next > src.len() {
            (seq![], seq![])
        } else {
            let rest = scan_from(src, step.next);
            (emitted_tokens(step.emit) + rest.0, emitted_errors(step.emit) + rest.1)
        }
    }
}

/// The indices at which the steps that emitted the tokens of
/// `scan_from(src, p)` started, one for each token.
pub open spec fn token_starts(src: Seq<char>, p: int) -> Seq<int>
    decreases src.len() - p,
{
    if p < 0 || p >= src.len() {
        seq![]
    } else {
        let step = lex_at(src, p);
        if step.next <= p || step.next > src.len() {
            seq![]
        } else {
            let rest = token_starts(src, step.next);
            if step.emit is Token {
                seq![p] + rest
            } else {
                rest
            }
        }
    }
}

/// The whole scan of `src`: its tokens, closed by one `End` token on the last
/// line, and its errors in the order met.
pub open spec fn scan(src: Seq<char>) -> (Seq<TokenView>, Seq<ErrorView>) {
    let body = scan_from(src, 0);
    (
        body.0.push(TokenView { kind: KindView::End, lexeme: seq![], line: line_at(src, src.len() as int) }),
        body.1,
    )
}

/// `find_from` lands at or after `i` and within the input, on `c` unless at
/// the end, and passes over no `c`.
pub proof fn lemma_find_from(src: Seq<char>, i: int, c: char)
    requires
        0 <= i <= src.len(),
    ensures
        i <= find_from(src, i, c) <= src.len(),
        find_from(src, i, c) < src.len() ==> src[find_from(src, i, c)] == c,
        forall|j: int| i <= j < find_from(src, i, c) ==> src[j] != c,
    decreases src.len() - i,
{
    if i < src.len() && src[i] != c {
        lemma_find_from(src, i + 1, c);
    }
}

/// A step that emits a token other than a string literal reads exactly the
/// spelling of its kind.
pub proof fn lemma_lex_at_spelling(src: Seq<char>, p: int)
    requires
        0 <= p < src.len(),
        lex_at(src, p).emit is Token,
        !(lex_at(src, p).emit->Token_0.kind is Str),
    ensures
        lex_at(src, p).emit->Token_0.lexeme == spelling(lex_at(src, p).emit->Token_0.kind),
{
    if p + 1 < src.len() {
        assert(src.subrange(p, p + 2) =~= seq![src[p], src[p + 1]]);
    }
    assert(src.subrange(p, p + 1) =~= seq![src[p]]);
}

/// Each step moves forward and stays within the input.
pub proof fn lemma_lex_at_advances(src: Seq<char>, p: int)
    requires
        0 <= p < src.len(),
    ensures
        p < lex_at(src, p).next <= src.len(),
{
    lemma_find_from(src, p + 1, '"');
    if p + 2 <= src.len() {
        lemma_find_from(src, p + 2, '\n');
    }
}

/// There are no more newlines in a sequence than characters.
pub proof fn lemma_newlines_bound(s: Seq<char>)
    ensures
        newlines(s) <= s.len(),
    decreases s.len(),
{
    if s.len() > 0 {
        lemma_newlines_bound(s.drop_last());
    }
}

/// Moving one character forward adds one line exactly when that character is
/// a newline.
pub proof fn lemma_line_at_next(src: Seq<char>, p: int)
    requires
        0 <= p < src.len(),
    ensures
        line_at(src, p + 1) == line_at(src, p) + if src[p] == '\n' { 1nat } else { 0nat },
{
    assert(src.subrange(0, p + 1).drop_last() =~= src.subrange(0, p));
}

} // verus!
