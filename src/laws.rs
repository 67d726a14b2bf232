use vstd::prelude::*;
use crate::model::{spelling, lemma_lex_at_spelling, token_starts, emitted_tokens, is_blank, lemma_lex_at_advances, lex_at, line_at, newlines, scan, scan_from, Emit};
use crate::token::{KindView, TokenView};

verus! {

/// No step of the scan emits an `End` token.
proof fn lemma_scan_from_has_no_end(src: Seq<char>, p: int)
    ensures
        forall|i: int| 0 <= i < scan_from(src, p).0.len() ==> !(scan_from(src, p).0[i].kind is End),
    decreases src.len() - p,
{
    if 0 <= p < src.len() {
        lemma_lex_at_advances(src, p);
        let step = lex_at(src, p);
        lemma_scan_from_has_no_end(src, step.next);
        let rest = scan_from(src, step.next).0;
        assert forall|i: int| 0 <= i < scan_from(src, p).0.len() implies !(scan_from(src, p).0[i].kind is End) by {
            if i >= emitted_tokens(step.emit).len() {
                assert(scan_from(src, p).0[i] == rest[i - emitted_tokens(step.emit).len()]);
            }
        }
    }
}

/// For every input, the token sequence ends with an `End` token, and no other
/// token is an `End` token.
pub proof fn lemma_end_last_and_unique(src: Seq<char>)
    ensures
        scan(src).0.len() >= 1,
        scan(src).0.last().kind is End,
        forall|i: int| 0 <= i < scan(src).0.len() - 1 ==> !(scan(src).0[i].kind is End),
{
    lemma_scan_from_has_no_end(src, 0);
    let body = scan_from(src, 0).0;
    assert forall|i: int| 0 <= i < scan(src).0.len() - 1 implies !(scan(src).0[i].kind is End) by {
        assert(scan(src).0[i] == body[i]);
    }
}

/// Over blanks and newlines alone, the scan from any index emits nothing.
proof fn lemma_blank_scan_from(src: Seq<char>, p: int)
    requires
        forall|i: int| 0 <= i < src.len() ==> is_blank(#[trigger] src[i]),
    ensures
        scan_from(src, p).0 == Seq::<TokenView>::empty(),
        scan_from(src, p).1.len() == 0,
    decreases src.len() - p,
{
    if 0 <= p < src.len() {
        lemma_lex_at_advances(src, p);
        lemma_blank_scan_from(src, p + 1);
        assert(scan_from(src, p).0 =~= Seq::<TokenView>::empty());
    }
}

/// An input made only of spaces, tabs, carriage returns and newlines gives
/// no error and the one token `End`, on the line after the last newline.
pub proof fn lemma_whitespace_only(src: Seq<char>)
    requires
        forall|i: int| 0 <= i < src.len() ==> is_blank(#[trigger] src[i]),
    ensures
        scan(src).0 == seq![TokenView { kind: KindView::End, lexeme: Seq::empty(), line: 1 + newlines(src) }],
        scan(src).1.len() == 0,
{
    lemma_blank_scan_from(src, 0);
    assert(src.subrange(0, src.len() as int) =~= src);
    assert(scan(src).0 =~= seq![TokenView { kind: KindView::End, lexeme: Seq::empty(), line: 1 + newlines(src) }]);
}

/// The steps behind the tokens of the scan from `q` on start in order, each
/// at or after the end of the one before, and each emitted its token.
proof fn lemma_token_starts(src: Seq<char>, q: int)
    requires
        0 <= q <= src.len(),
    ensures
        token_starts(src, q).len() == scan_from(src, q).0.len(),
        forall|k: int|
            0 <= k < token_starts(src, q).len() ==> q <= #[trigger] token_starts(src, q)[k] < src.len()
                && lex_at(src, token_starts(src, q)[k]).emit == Emit::Token(scan_from(src, q).0[k]),
        forall|k: int|
            0 <= k < token_starts(src, q).len() - 1 ==> lex_at(src, #[trigger] token_starts(src, q)[k]).next
                <= token_starts(src, q)[k + 1],
    decreases src.len() - q,
{
    if q < src.len() {
        lemma_lex_at_advances(src, q);
        let step = lex_at(src, q);
        lemma_token_starts(src, step.next);
        let rest = token_starts(src, step.next);
        let toks = scan_from(src, step.next).0;
        if step.emit is Token {
            assert(token_starts(src, q) == seq![q] + rest);
            assert(scan_from(src, q).0 == seq![step.emit->Token_0] + toks);
            assert forall|k: int| 0 <= k < token_starts(src, q).len() - 1 implies lex_at(src, #[trigger] token_starts(src, q)[k]).next
                <= token_starts(src, q)[k + 1] by {
                if k > 0 {
                    assert(token_starts(src, q)[k] == rest[k - 1]);
                    assert(token_starts(src, q)[k + 1] == rest[k]);
                }
            }
            assert forall|k: int| 0 <= k < token_starts(src, q).len() implies q <= #[trigger] token_starts(src, q)[k] < src.len()
                && lex_at(src, token_starts(src, q)[k]).emit == Emit::Token(scan_from(src, q).0[k]) by {
                if k > 0 {
                    assert(token_starts(src, q)[k] == rest[k - 1]);
                    assert(scan_from(src, q).0[k] == toks[k - 1]);
                }
            }
        } else {
            assert(scan_from(src, q).0 =~= toks);
        }
    }
}

/// Every token but the closing `End` was emitted by a step that the scan ran:
/// the `k`-th by the step that started at `token_starts(src, 0)[k]`. Its
/// lexeme is exactly the source text `[start, current)` of that step, its line
/// is the line of that step's first character, and the spans of successive
/// tokens do not overlap and come in the order of the source. Outside string
/// literals, the lexeme is the spelling of the token's kind.
pub proof fn lemma_lexeme_is_source_span(src: Seq<char>)
    ensures
        token_starts(src, 0).len() == scan(src).0.len() - 1,
        forall|k: int|
            0 <= k < token_starts(src, 0).len() ==> {
                let a = #[trigger] token_starts(src, 0)[k];
                &&& 0 <= a < src.len()
                &&& scan(src).0[k].lexeme == src.subrange(a, lex_at(src, a).next)
                &&& scan(src).0[k].line == line_at(src, a)
                &&& !(scan(src).0[k].kind is Str) ==> scan(src).0[k].lexeme == spelling(scan(src).0[k].kind)
            },
        forall|k: int|
            0 <= k < token_starts(src, 0).len() - 1 ==> lex_at(src, #[trigger] token_starts(src, 0)[k]).next
                <= token_starts(src, 0)[k + 1],
{
    lemma_token_starts(src, 0);
    let body = scan_from(src, 0).0;
    assert forall|k: int| 0 <= k < token_starts(src, 0).len() implies {
        let a = #[trigger] token_starts(src, 0)[k];
        &&& 0 <= a < src.len()
        &&& scan(src).0[k].lexeme == src.subrange(a, lex_at(src, a).next)
        &&& scan(src).0[k].line == line_at(src, a)
        &&& !(scan(src).0[k].kind is Str) ==> scan(src).0[k].lexeme == spelling(scan(src).0[k].kind)
    } by {
        assert(scan(src).0[k] == body[k]);
        lemma_lex_at_advances(src, token_starts(src, 0)[k]);
        if !(body[k].kind is Str) {
            lemma_lex_at_spelling(src, token_starts(src, 0)[k]);
        }
    }
}

} // verus!
