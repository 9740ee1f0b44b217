//! The mathematical model of the scanner: a total specification of what
//! one token request produces from any position in the input.

use vstd::prelude::*;

use crate::classes::{
    hex_field_val, is_closer, is_float_literal, is_ident_cont, is_ident_start, is_num_cont,
    is_num_start, is_scalar_value, is_ws_char,
};
use crate::token::KindView;

verus! {

/// The outcome of one token request at a given position.
///
/// - `End`: the input was exhausted (possibly through trailing whitespace
///   or a trailing line comment); the cursor stands at the end.
/// - `Token`: a token whose characters are `s[start ..= end]`; the cursor
///   stands at `end + 1`.
/// - `Fail`: a syntax error with message `msg`, covering the characters
///   `s[from ..= to]`; the cursor stands at `next`.
pub enum LexSpec {
    End,
    Token { kind: KindView, start: int, end: int },
    Fail { msg: Seq<char>, from: int, to: int, next: int },
}

/// The first position at or after `i` whose character fails `p`, or the
/// end of the input.
pub open spec fn run_end(s: Seq<char>, i: int, p: spec_fn(char) -> bool) -> int
    decreases s.len() - i,
{
    if i < 0 || i >= s.len() {
        i
    } else if p(s[i]) {
        run_end(s, i + 1, p)
    } else {
        i
    }
}

/// The end of the whitespace run beginning at `i`.
pub open spec fn ws_end(s: Seq<char>, i: int) -> int {
    run_end(s, i, |c: char| is_ws_char(c))
}

/// The end of the symbol run beginning at `i`.
pub open spec fn sym_end(s: Seq<char>, i: int) -> int {
    run_end(s, i, |c: char| is_ident_cont(c))
}

/// The end of the numeric run beginning at `i`.
pub open spec fn num_end(s: Seq<char>, i: int) -> int {
    run_end(s, i, |c: char| is_num_cont(c))
}

pub proof fn lemma_ws_end(s: Seq<char>, i: int)
    requires
        0 <= i <= s.len(),
    ensures
        i <= ws_end(s, i) <= s.len(),
        forall|k: int| i <= k < ws_end(s, i) ==> is_ws_char(#[trigger] s[k]),
        ws_end(s, i) < s.len() ==> !is_ws_char(s[ws_end(s, i)]),
{
    lemma_run_end(s, i, |c: char| is_ws_char(c));
}

pub proof fn lemma_sym_end(s: Seq<char>, i: int)
    requires
        0 <= i <= s.len(),
    ensures
        i <= sym_end(s, i) <= s.len(),
        forall|k: int| i <= k < sym_end(s, i) ==> is_ident_cont(#[trigger] s[k]),
        sym_end(s, i) < s.len() ==> !is_ident_cont(s[sym_end(s, i)]),
{
    lemma_run_end(s, i, |c: char| is_ident_cont(c));
}

pub proof fn lemma_num_end(s: Seq<char>, i: int)
    requires
        0 <= i <= s.len(),
    ensures
        i <= num_end(s, i) <= s.len(),
        forall|k: int| i <= k < num_end(s, i) ==> is_num_cont(#[trigger] s[k]),
        num_end(s, i) < s.len() ==> !is_num_cont(s[num_end(s, i)]),
{
    lemma_run_end(s, i, |c: char| is_num_cont(c));
}

/// The position after the newline that closes a line comment, or the end
/// of the input.
pub open spec fn line_comment_end(s: Seq<char>, i: int) -> int
    decreases s.len() - i,
{
    if i < 0 || i >= s.len() {
        i
    } else if s[i] == '\n' {
        i + 1
    } else {
        line_comment_end(s, i + 1)
    }
}

/// The position after the first `*/` at or after `i`, if any.
pub open spec fn block_comment_end(s: Seq<char>, i: int) -> Option<int>
    decreases s.len() - i,
{
    if i < 0 || i + 2 > s.len() {
        None
    } else if s[i] == '*' && s[i + 1] == '/' {
        Some(i + 2)
    } else {
        block_comment_end(s, i + 1)
    }
}

/// The outcome of scanning a quoted string body from `i` (just after the
/// opening quote `q`): either the decoded text together with the position
/// after the closing quote, or an error.
pub enum StrScan {
    Fine { text: Seq<char>, end: int },
    Bad { msg: Seq<char>, from: int, to: int, next: int },
}

/// Prefixes one decoded character onto a successful string scan.
pub open spec fn str_prepend(c: char, r: StrScan) -> StrScan {
    match r {
        StrScan::Fine { text, end } => StrScan::Fine { text: seq![c].add(text), end },
        StrScan::Bad { msg, from, to, next } => StrScan::Bad { msg, from, to, next },
    }
}

/// Prefixes already-decoded text onto a string scan outcome.
pub open spec fn str_prefix(t: Seq<char>, r: StrScan) -> StrScan {
    match r {
        StrScan::Fine { text, end } => StrScan::Fine { text: t + text, end },
        StrScan::Bad { msg, from, to, next } => StrScan::Bad { msg, from, to, next },
    }
}

/// Growing the prefix one character at a time agrees with prepending that
/// character to the outcome.
pub proof fn lemma_str_prefix_push(t: Seq<char>, c: char, r: StrScan)
    ensures
        str_prefix(t.push(c), r) == str_prefix(t, str_prepend(c, r)),
{
    match r {
        StrScan::Fine { text, end } => {
            assert(t.push(c) + text =~= t + (seq![c].add(text)));
        },
        StrScan::Bad { .. } => {},
    }
}

/// Decodes a hexadecimal escape of width `w` whose backslash stands at
/// `i` (so the hex field occupies `s[i + 2 .. i + 2 + w]`), then scans the
/// rest of the string body.
pub open spec fn scan_hex_escape(s: Seq<char>, i: int, q: char, w: int) -> StrScan
    decreases s.len() - i, 0int,
    when 0 <= i && 1 <= w
{
    if i + 2 + w > s.len() {
        StrScan::Bad {
            msg: "unexpected end whilst parsing escape"@,
            from: s.len() - 1,
            to: s.len() - 1,
            next: s.len() as int,
        }
    } else {
        match hex_field_val(s.subrange(i + 2, i + 2 + w)) {
            None => StrScan::Bad {
                msg: "invalid hex"@,
                from: i,
                to: i + 1 + w,
                next: i + 2 + w,
            },
            Some(v) => if v <= u32::MAX && is_scalar_value(v as u32) {
                str_prepend(v as char, scan_string_body(s, i + 2 + w, q))
            } else {
                StrScan::Bad {
                    msg: "is not a valid character"@,
                    from: i,
                    to: i + 1 + w,
                    next: i + 2 + w,
                }
            },
        }
    }
}

/// Scans a quoted string body from `i`, decoding escape sequences, until
/// the closing quote `q`.
pub open spec fn scan_string_body(s: Seq<char>, i: int, q: char) -> StrScan
    decreases s.len() - i, 1int,
    when 0 <= i
{
    if i >= s.len() {
        StrScan::Bad {
            msg: "unterminated string"@,
            from: s.len() - 1,
            to: s.len() - 1,
            next: s.len() as int,
        }
    } else if s[i] == q {
        StrScan::Fine { text: Seq::empty(), end: i + 1 }
    } else if s[i] == '\\' {
        if i + 1 >= s.len() {
            StrScan::Bad {
                msg: "unexpected end whilst parsing escape"@,
                from: s.len() - 1,
                to: s.len() - 1,
                next: s.len() as int,
            }
        } else {
            let e = s[i + 1];
            if e == 'x' {
                scan_hex_escape(s, i, q, 2)
            } else if e == 'u' {
                scan_hex_escape(s, i, q, 4)
            } else if e == 'U' {
                scan_hex_escape(s, i, q, 8)
            } else if e == 'n' {
                str_prepend('\n', scan_string_body(s, i + 2, q))
            } else if e == 'r' {
                str_prepend('\r', scan_string_body(s, i + 2, q))
            } else if e == 't' {
                str_prepend('\t', scan_string_body(s, i + 2, q))
            } else if e == '0' {
                str_prepend('\0', scan_string_body(s, i + 2, q))
            } else if e == '\\' {
                str_prepend('\\', scan_string_body(s, i + 2, q))
            } else {
                StrScan::Bad {
                    msg: "is not a valid escape"@,
                    from: i,
                    to: i + 1,
                    next: i + 2,
                }
            }
        }
    } else {
        str_prepend(s[i], scan_string_body(s, i + 1, q))
    }
}

/// A successful string scan ends after at least one consumed character,
/// within the input.
pub proof fn lemma_scan_string_fine(s: Seq<char>, i: int, q: char)
    requires
        0 <= i,
    ensures
        scan_string_body(s, i, q) matches StrScan::Fine { end, .. } ==> i < end <= s.len(),
    decreases s.len() - i,
{
    reveal_with_fuel(scan_string_body, 3);
    reveal_with_fuel(scan_hex_escape, 3);
    if i >= s.len() {
    } else if s[i] == q {
    } else if s[i] == '\\' {
        if i + 1 < s.len() {
            let e = s[i + 1];
            if e == 'x' {
                if i + 4 <= s.len() {
                    lemma_scan_string_fine(s, i + 4, q);
                }
            } else if e == 'u' {
                if i + 6 <= s.len() {
                    lemma_scan_string_fine(s, i + 6, q);
                }
            } else if e == 'U' {
                if i + 10 <= s.len() {
                    lemma_scan_string_fine(s, i + 10, q);
                }
            } else {
                lemma_scan_string_fine(s, i + 2, q);
            }
        }
    } else {
        lemma_scan_string_fine(s, i + 1, q);
    }
}

/// Whether a token kind is exempt from delimiter validation: the four
/// opening kinds and the dot.
pub open spec fn is_opening_or_dot(kv: KindView) -> bool {
    match kv {
        KindView::LeftParen => true,
        KindView::LeftBracket => true,
        KindView::LeftBrace => true,
        KindView::Dot => true,
        _ => false,
    }
}

/// Completes a scanned token covering `s[start ..= end]`: every kind but
/// the openers and the dot must be followed by whitespace, a closer, the
/// end of the input — or, after a symbol, a dot.
pub open spec fn deliver(s: Seq<char>, kv: KindView, start: int, end: int) -> LexSpec {
    if is_opening_or_dot(kv) {
        LexSpec::Token { kind: kv, start, end }
    } else if end + 1 < s.len() {
        let c = s[end + 1];
        let exempt = kv is Symbol && c == '.';
        if !exempt && !is_ws_char(c) && !is_closer(c) {
            LexSpec::Fail {
                msg: "expected delimeter"@,
                from: end + 1,
                to: end + 1,
                next: end + 1,
            }
        } else {
            LexSpec::Token { kind: kv, start, end }
        }
    } else {
        LexSpec::Token { kind: kv, start, end }
    }
}

/// Classifies the symbol run `t`: the reserved words map to their literal
/// kinds, anything else is a symbol.
pub open spec fn symbol_kind(t: Seq<char>) -> KindView {
    if t == "true"@ {
        KindView::Boolean(true)
    } else if t == "false"@ {
        KindView::Boolean(false)
    } else if t == "nil"@ {
        KindView::Nil
    } else {
        KindView::Symbol(t)
    }
}

/// One token request at position `i`: skips whitespace and comments, then
/// produces the next token, an error, or the end of the input.
pub open spec fn lex(s: Seq<char>, i: int) -> LexSpec
    decreases s.len() - i,
    when 0 <= i <= s.len()
    via lex_decreases
{
    let j = ws_end(s, i);
    if j >= s.len() {
        LexSpec::End
    } else {
        let c = s[j];
        if c == '(' {
            deliver(s, KindView::LeftParen, j, j)
        } else if c == ')' {
            deliver(s, KindView::RightParen, j, j)
        } else if c == '[' {
            deliver(s, KindView::LeftBracket, j, j)
        } else if c == ']' {
            deliver(s, KindView::RightBracket, j, j)
        } else if c == '{' {
            deliver(s, KindView::LeftBrace, j, j)
        } else if c == '}' {
            deliver(s, KindView::RightBrace, j, j)
        } else if c == '.' {
            deliver(s, KindView::Dot, j, j)
        } else if is_ident_start(c) {
            let e = sym_end(s, j + 1);
            deliver(s, symbol_kind(s.subrange(j, e)), j, e - 1)
        } else if is_num_start(c) {
            let e = num_end(s, j + 1);
            if is_float_literal(s.subrange(j, e)) {
                deliver(s, KindView::Number(s.subrange(j, e)), j, e - 1)
            } else {
                LexSpec::Fail {
                    msg: "invalid number literal"@,
                    from: j,
                    to: e - 1,
                    next: e,
                }
            }
        } else if c == '"' || c == '\'' {
            match scan_string_body(s, j + 1, c) {
                StrScan::Fine { text, end } => deliver(s, KindView::String(text), j, end - 1),
                StrScan::Bad { msg, from, to, next } => LexSpec::Fail { msg, from, to, next },
            }
        } else if c == '/' && j + 1 < s.len() && (s[j + 1] == '/' || s[j + 1] == '*') {
            if s[j + 1] == '/' {
                lex(s, line_comment_end(s, j + 2))
            } else {
                match block_comment_end(s, j + 2) {
                    Some(k) => lex(s, k),
                    None => LexSpec::Fail {
                        msg: "unterminated comment"@,
                        from: s.len() - 1,
                        to: s.len() - 1,
                        next: s.len() as int,
                    },
                }
            }
        } else {
            LexSpec::Fail {
                msg: "unexpected character"@,
                from: j,
                to: j,
                next: j + 1,
            }
        }
    }
}

#[via_fn]
proof fn lex_decreases(s: Seq<char>, i: int) {
    lemma_ws_end(s, i);
    let j = ws_end(s, i);
    if 0 <= j < s.len() {
        lemma_line_comment_end(s, j + 2);
        lemma_block_comment_end(s, j + 2);
    }
}

/// `run_end` moves forward, stays within the input, accepts every
/// character it passed over, and stops only at the end or at a rejected
/// character.
pub proof fn lemma_run_end(s: Seq<char>, i: int, p: spec_fn(char) -> bool)
    requires
        0 <= i <= s.len(),
    ensures
        i <= run_end(s, i, p) <= s.len(),
        forall|k: int| i <= k < run_end(s, i, p) ==> p(#[trigger] s[k]),
        run_end(s, i, p) < s.len() ==> !p(s[run_end(s, i, p)]),
    decreases s.len() - i,
{
    if i < s.len() && p(s[i]) {
        lemma_run_end(s, i + 1, p);
    }
}

/// `line_comment_end` moves forward over non-newline characters and stops
/// after a newline or at the end of the input.
pub proof fn lemma_line_comment_end(s: Seq<char>, i: int)
    requires
        0 <= i,
    ensures
        i <= line_comment_end(s, i),
        i <= s.len() ==> line_comment_end(s, i) <= s.len(),
        i > s.len() ==> line_comment_end(s, i) == i,
    decreases s.len() - i,
{
    if 0 <= i < s.len() && s[i] != '\n' {
        lemma_line_comment_end(s, i + 1);
    }
}

/// A closed block comment ends after its `*/`, within the input.
pub proof fn lemma_block_comment_end(s: Seq<char>, i: int)
    requires
        0 <= i,
    ensures
        block_comment_end(s, i) is Some ==> i + 2 <= block_comment_end(s, i)->0 <= s.len(),
    decreases s.len() - i,
{
    if block_comment_end(s, i) is Some && !(i + 2 <= s.len() && s[i] == '*' && s[i + 1] == '/') {
        lemma_block_comment_end(s, i + 1);
    }
}

} // verus!
