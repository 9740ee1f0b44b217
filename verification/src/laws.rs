//! General laws of the scanner, proved once and for all inputs.

use vstd::prelude::*;

use crate::classes::{is_ident_start, is_ws_char};
use crate::scan::{
    block_comment_end, lemma_block_comment_end, lemma_line_comment_end, lemma_num_end,
    lemma_scan_string_fine, lemma_sym_end, lemma_ws_end, lex, line_comment_end, sym_end, ws_end,
    LexSpec,
};
use crate::token::KindView;

verus! {

/// Every token covers at least one character of the input, lying at or
/// after the position the request started from.
pub proof fn lemma_token_bounds(s: Seq<char>, i: int)
    requires
        0 <= i <= s.len(),
    ensures
        lex(s, i) matches LexSpec::Token { start, end, .. } ==> i <= start <= end < s.len(),
    decreases s.len() - i,
{
    lemma_ws_end(s, i);
    let j = ws_end(s, i);
    if j < s.len() {
        let c = s[j];
        if is_ident_start(c) {
            lemma_sym_end(s, j + 1);
        } else if crate::classes::is_num_start(c) {
            lemma_num_end(s, j + 1);
        } else if c == '"' || c == '\'' {
            lemma_scan_string_fine(s, j + 1, c);
        } else if c == '/' && j + 1 < s.len() && (s[j + 1] == '/' || s[j + 1] == '*') {
            if s[j + 1] == '/' {
                lemma_line_comment_end(s, j + 2);
                lemma_token_bounds(s, line_comment_end(s, j + 2));
            } else {
                lemma_block_comment_end(s, j + 2);
                if block_comment_end(s, j + 2) is Some {
                    lemma_token_bounds(s, block_comment_end(s, j + 2)->0);
                }
            }
        }
    }
}

/// Law: for every input, consecutive token requests produce tokens in
/// strictly increasing start-location order, and the two tokens' spans do
/// not overlap: the first ends strictly before the second starts.
pub proof fn lemma_spans_disjoint(
    s: Seq<char>,
    i: int,
    kind1: KindView,
    start1: int,
    end1: int,
    kind2: KindView,
    start2: int,
    end2: int,
)
    requires
        0 <= i <= s.len(),
        lex(s, i) == (LexSpec::Token { kind: kind1, start: start1, end: end1 }),
        lex(s, end1 + 1) == (LexSpec::Token { kind: kind2, start: start2, end: end2 }),
    ensures
        i <= start1 <= end1 < start2 <= end2 < s.len(),
{
    lemma_token_bounds(s, i);
    lemma_token_bounds(s, end1 + 1);
}

/// Law: the reserved words `true`, `false` and `nil` always lex to their
/// literal kinds, never to a symbol, and a symbol token never carries a
/// reserved word — whatever whitespace or comments surround them.
pub proof fn lemma_reserved_words(s: Seq<char>, i: int, kind: KindView, start: int, end: int)
    requires
        0 <= i <= s.len(),
        lex(s, i) == (LexSpec::Token { kind, start, end }),
    ensures
        kind matches KindView::Symbol(t) ==> !(t == "true"@ || t == "false"@ || t == "nil"@),
        is_ident_start(s[start]) ==> {
            let t = s.subrange(start, end + 1);
            &&& (t == "true"@ ==> kind == KindView::Boolean(true))
            &&& (t == "false"@ ==> kind == KindView::Boolean(false))
            &&& (t == "nil"@ ==> kind == KindView::Nil)
            &&& (!(t == "true"@ || t == "false"@ || t == "nil"@) ==> kind == KindView::Symbol(t))
        },
    decreases s.len() - i,
{
    reveal_strlit("true");
    reveal_strlit("false");
    reveal_strlit("nil");
    lemma_token_bounds(s, i);
    lemma_ws_end(s, i);
    let j = ws_end(s, i);
    if j < s.len() {
        let c = s[j];
        if is_ident_start(c) {
            lemma_sym_end(s, j + 1);
            let e = sym_end(s, j + 1);
            let t0 = s.subrange(j, e);
            assert(lex(s, i) == crate::scan::deliver(
                s,
                crate::scan::symbol_kind(t0),
                j,
                e - 1,
            ));
            assert(kind == crate::scan::symbol_kind(t0));
            assert(start == j && end == e - 1);
            assert(s.subrange(start, end + 1) == t0);
        } else if crate::classes::is_num_start(c) {
            lemma_num_end(s, j + 1);
        } else if c == '"' || c == '\'' {
            lemma_scan_string_fine(s, j + 1, c);
        } else if c == '/' && j + 1 < s.len() && (s[j + 1] == '/' || s[j + 1] == '*') {
            if s[j + 1] == '/' {
                lemma_line_comment_end(s, j + 2);
                lemma_reserved_words(s, line_comment_end(s, j + 2), kind, start, end);
            } else {
                lemma_block_comment_end(s, j + 2);
                if block_comment_end(s, j + 2) is Some {
                    lemma_reserved_words(s, block_comment_end(s, j + 2)->0, kind, start, end);
                }
            }
        }
    }
}

/// Law: a number token always carries exactly the characters of its
/// span, and that text is a valid float literal.
pub proof fn lemma_number_text_valid(s: Seq<char>, i: int, kind: KindView, start: int, end: int)
    requires
        0 <= i <= s.len(),
        lex(s, i) == (LexSpec::Token { kind, start, end }),
        kind is Number,
    ensures
        kind matches KindView::Number(t) ==> {
            &&& t == s.subrange(start, end + 1)
            &&& crate::classes::is_float_literal(t)
        },
    decreases s.len() - i,
{
    lemma_token_bounds(s, i);
    lemma_ws_end(s, i);
    let j = ws_end(s, i);
    if j < s.len() {
        let c = s[j];
        if is_ident_start(c) {
            lemma_sym_end(s, j + 1);
        } else if crate::classes::is_num_start(c) {
            lemma_num_end(s, j + 1);
        } else if c == '"' || c == '\'' {
            lemma_scan_string_fine(s, j + 1, c);
        } else if c == '/' && j + 1 < s.len() && (s[j + 1] == '/' || s[j + 1] == '*') {
            if s[j + 1] == '/' {
                lemma_line_comment_end(s, j + 2);
                lemma_number_text_valid(s, line_comment_end(s, j + 2), kind, start, end);
            } else {
                lemma_block_comment_end(s, j + 2);
                if block_comment_end(s, j + 2) is Some {
                    lemma_number_text_valid(s, block_comment_end(s, j + 2)->0, kind, start, end);
                }
            }
        }
    }
}

/// Law: input that is all whitespace from position `i` onwards yields no
/// token, only the clean end-of-input signal.
pub proof fn lemma_whitespace_only(s: Seq<char>, i: int)
    requires
        0 <= i <= s.len(),
        forall|k: int| i <= k < s.len() ==> is_ws_char(#[trigger] s[k]),
    ensures
        lex(s, i) == LexSpec::End,
{
    lemma_ws_end(s, i);
}

/// Law: comments are transparent wherever whitespace is legal: lexing
/// from the start of a line comment, or of a closed block comment, is
/// lexing from just after it.
pub proof fn lemma_comment_transparent(s: Seq<char>, i: int)
    requires
        0 <= i,
        i + 1 < s.len(),
        s[i] == '/',
        s[i + 1] == '/' || s[i + 1] == '*',
    ensures
        s[i + 1] == '/' ==> lex(s, i) == lex(s, line_comment_end(s, i + 2)),
        s[i + 1] == '*' && block_comment_end(s, i + 2) is Some ==> lex(s, i) == lex(
            s,
            block_comment_end(s, i + 2)->0,
        ),
{
    lemma_ws_end(s, i);
    assert(!is_ws_char('/'));
    assert(ws_end(s, i) == i);
    lemma_line_comment_end(s, i + 2);
    lemma_block_comment_end(s, i + 2);
}

} // verus!
