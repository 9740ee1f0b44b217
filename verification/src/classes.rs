//! Character classification and the grammar of numeric literals.

use vstd::prelude::*;

verus! {

/// ASCII whitespace: space, tab, newline, carriage return, form feed.
pub open spec fn is_ws_char(c: char) -> bool {
    c == ' ' || c == '\t' || c == '\n' || c == '\r' || c == '\x0c'
}

pub fn ws_char(c: char) -> (b: bool)
    ensures
        b == is_ws_char(c),
{
    c == ' ' || c == '\t' || c == '\n' || c == '\r' || c == '\x0c'
}

/// A decimal digit.
pub open spec fn is_digit_char(c: char) -> bool {
    '0' <= c && c <= '9'
}

pub fn digit_char(c: char) -> (b: bool)
    ensures
        b == is_digit_char(c),
{
    '0' <= c && c <= '9'
}

/// A character that may open a symbol: a letter or an underscore.
pub open spec fn is_ident_start(c: char) -> bool {
    ('A' <= c && c <= 'Z') || ('a' <= c && c <= 'z') || c == '_'
}

pub fn ident_start(c: char) -> (b: bool)
    ensures
        b == is_ident_start(c),
{
    ('A' <= c && c <= 'Z') || ('a' <= c && c <= 'z') || c == '_'
}

/// A character that may continue a symbol: a letter, digit or underscore.
pub open spec fn is_ident_cont(c: char) -> bool {
    is_ident_start(c) || is_digit_char(c)
}

pub fn ident_cont(c: char) -> (b: bool)
    ensures
        b == is_ident_cont(c),
{
    ident_start(c) || digit_char(c)
}

/// A character that may open a numeric literal: a sign or a digit.
pub open spec fn is_num_start(c: char) -> bool {
    c == '+' || c == '-' || is_digit_char(c)
}

pub fn num_start(c: char) -> (b: bool)
    ensures
        b == is_num_start(c),
{
    c == '+' || c == '-' || digit_char(c)
}

/// A character that may continue a numeric run: a digit, underscore,
/// decimal point or exponent marker.
pub open spec fn is_num_cont(c: char) -> bool {
    is_digit_char(c) || c == '_' || c == '.' || c == 'E' || c == 'e'
}

pub fn num_cont(c: char) -> (b: bool)
    ensures
        b == is_num_cont(c),
{
    digit_char(c) || c == '_' || c == '.' || c == 'E' || c == 'e'
}

/// A closing bracket, paren or brace: a legal boundary after a token.
pub open spec fn is_closer(c: char) -> bool {
    c == ')' || c == ']' || c == '}'
}

pub fn closer(c: char) -> (b: bool)
    ensures
        b == is_closer(c),
{
    c == ')' || c == ']' || c == '}'
}

/// A hexadecimal digit, in either case.
pub open spec fn is_hex_digit(c: char) -> bool {
    is_digit_char(c) || ('a' <= c && c <= 'f') || ('A' <= c && c <= 'F')
}

/// The numeric value of a hexadecimal digit.
pub open spec fn hex_digit_val(c: char) -> nat {
    if is_digit_char(c) {
        (c as nat - '0' as nat) as nat
    } else if 'a' <= c && c <= 'f' {
        (c as nat - 'a' as nat + 10) as nat
    } else if 'A' <= c && c <= 'F' {
        (c as nat - 'A' as nat + 10) as nat
    } else {
        0
    }
}

pub fn hex_digit(c: char) -> (r: Option<u8>)
    ensures
        r is Some <==> is_hex_digit(c),
        r is Some ==> r->0 == hex_digit_val(c),
        r is Some ==> r->0 < 16,
{
    if '0' <= c && c <= '9' {
        Some((c as u32 - '0' as u32) as u8)
    } else if 'a' <= c && c <= 'f' {
        Some((c as u32 - 'a' as u32 + 10) as u8)
    } else if 'A' <= c && c <= 'F' {
        Some((c as u32 - 'A' as u32 + 10) as u8)
    } else {
        None
    }
}

/// A Unicode scalar value: any code point other than a surrogate.
pub open spec fn is_scalar_value(v: u32) -> bool {
    v < 0xD800 || (0xE000 <= v && v <= 0x10FFFF)
}

pub fn scalar_value(v: u32) -> (b: bool)
    ensures
        b == is_scalar_value(v),
{
    v < 0xD800 || (0xE000 <= v && v <= 0x10FFFF)
}

/// A sign character.
pub open spec fn is_sign(c: char) -> bool {
    c == '+' || c == '-'
}

/// The mantissa of a decimal float literal: at least one digit, at most
/// one decimal point, nothing else.
pub open spec fn is_mantissa(m: Seq<char>) -> bool {
    &&& m.len() > 0
    &&& forall|k: int| 0 <= k < m.len() ==> (is_digit_char(#[trigger] m[k]) || m[k] == '.')
    &&& forall|j: int, k: int| 0 <= j < k < m.len() ==> !(#[trigger] m[j] == '.' && #[trigger] m[k] == '.')
    &&& exists|k: int| 0 <= k < m.len() && is_digit_char(#[trigger] m[k])
}

/// The body of an exponent: an optional sign followed by at least one
/// digit.
pub open spec fn is_exp_body(x: Seq<char>) -> bool {
    if x.len() > 0 && is_sign(x[0]) {
        x.len() > 1 && forall|k: int| 1 <= k < x.len() ==> is_digit_char(#[trigger] x[k])
    } else {
        x.len() > 0 && forall|k: int| 0 <= k < x.len() ==> is_digit_char(#[trigger] x[k])
    }
}

/// A finite decimal float literal under the standard grammar: an optional
/// sign, a mantissa, and an optional exponent introduced by `e` or `E`
/// whose body is an optionally signed digit run.
pub open spec fn is_float_literal(t: Seq<char>) -> bool {
    let u = if t.len() > 0 && is_sign(t[0]) {
        t.drop_first()
    } else {
        t
    };
    is_float_literal_tail(u)
}

/// Decides whether the characters `src[lo..hi]` form a valid float
/// literal.
pub fn check_float_literal(src: &Vec<char>, lo: usize, hi: usize) -> (b: bool)
    requires
        lo <= hi <= src@.len(),
    ensures
        b == is_float_literal(src@.subrange(lo as int, hi as int)),
{
    let ghost t = src@.subrange(lo as int, hi as int);
    if lo == hi {
        proof {
            assert(t.len() == 0);
            assert(!is_mantissa(t));
            lemma_tail_no_exp(t, false);
        }
        return false;
    }
    // Skip an optional leading sign; `u` is the unsigned remainder.
    let p: usize = if src[lo] == '+' || src[lo] == '-' {
        lo + 1
    } else {
        lo
    };
    let ghost u = src@.subrange(p as int, hi as int);
    proof {
        assert(t[0] == src@[lo as int]);
        if t.len() > 0 && is_sign(t[0]) {
            assert(t.drop_first() =~= u);
        } else {
            assert(t =~= u);
        }
        assert(is_float_literal(t) == is_float_literal_tail(u));
    }
    // Scan the mantissa: everything up to the first exponent marker.
    let mut j: usize = p;
    let mut digit_seen: bool = false;
    let mut seen_dot: bool = false;
    let mut multi_dot: bool = false;
    let mut ok_chars: bool = true;
    while j < hi && !(src[j] == 'e' || src[j] == 'E')
        invariant
            lo <= p <= j <= hi <= src@.len(),
            forall|k: int| p <= k < j ==> !(#[trigger] src@[k] == 'e' || src@[k] == 'E'),
            digit_seen == exists|k: int| p <= k < j && is_digit_char(#[trigger] src@[k]),
            seen_dot == exists|k: int| p <= k < j && #[trigger] src@[k] == '.',
            multi_dot == exists|j1: int, j2: int|
                p <= j1 < j2 < j && #[trigger] src@[j1] == '.' && #[trigger] src@[j2] == '.',
            ok_chars == forall|k: int|
                p <= k < j ==> (is_digit_char(#[trigger] src@[k]) || src@[k] == '.'),
        decreases hi - j,
    {
        let c = src[j];
        if digit_char(c) {
            digit_seen = true;
        } else if c == '.' {
            if seen_dot {
                multi_dot = true;
            }
            seen_dot = true;
        } else {
            ok_chars = false;
        }
        j = j + 1;
    }
    let mantissa_ok = j > p && digit_seen && ok_chars && !multi_dot;
    let ghost i0: int = j as int - p as int;
    proof {
        lemma_mantissa_scan(src@, p as int, j as int, digit_seen, multi_dot, ok_chars);
        assert(u.take(i0) =~= src@.subrange(p as int, j as int));
        assert(is_mantissa(u.take(i0)) == mantissa_ok);
    }
    if j == hi {
        // No exponent marker anywhere in `u`.
        proof {
            assert(u =~= u.take(i0));
            assert(forall|k: int| 0 <= k < u.len() ==> #[trigger] u[k] == src@[p + k]);
            assert(forall|k: int| 0 <= k < u.len() ==> !(#[trigger] u[k] == 'e' || u[k] == 'E'));
            lemma_tail_no_exp(u, mantissa_ok);
        }
        return mantissa_ok;
    }
    // Exponent marker at `j`; scan its body.
    let mut q: usize = j + 1;
    if q < hi && (src[q] == '+' || src[q] == '-') {
        q = q + 1;
    }
    let ghost q0: int = q as int;
    let mut exp_digits_ok: bool = q < hi;
    let mut w: usize = q;
    while w < hi
        invariant
            q0 == q as int,
            q <= w <= hi <= src@.len(),
            exp_digits_ok == (q0 < hi && forall|k: int|
                q0 <= k < w ==> is_digit_char(#[trigger] src@[k])),
        decreases hi - w,
    {
        if !digit_char(src[w]) {
            exp_digits_ok = false;
        }
        w = w + 1;
    }
    proof {
        lemma_exp_scan(src@, j as int + 1, q0, hi as int, exp_digits_ok);
        assert(u.skip(i0 + 1) =~= src@.subrange(j as int + 1, hi as int));
        assert(is_exp_body(u.skip(i0 + 1)) == exp_digits_ok);
        assert(forall|k: int| 0 <= k < u.len() ==> #[trigger] u[k] == src@[p + k]);
        assert(u[i0] == src@[j as int]);
        assert(forall|k: int| 0 <= k < i0 ==> !(#[trigger] u[k] == 'e' || u[k] == 'E'));
        lemma_tail_with_exp(u, i0, mantissa_ok, exp_digits_ok);
    }
    mantissa_ok && exp_digits_ok
}

/// The mantissa scan flags decide `is_mantissa` of the scanned range.
proof fn lemma_mantissa_scan(sv: Seq<char>, p: int, j: int, digit_seen: bool, multi_dot: bool, ok_chars: bool)
    requires
        0 <= p <= j <= sv.len(),
        digit_seen == exists|k: int| p <= k < j && is_digit_char(#[trigger] sv[k]),
        multi_dot == exists|j1: int, j2: int|
            p <= j1 < j2 < j && #[trigger] sv[j1] == '.' && #[trigger] sv[j2] == '.',
        ok_chars == forall|k: int| p <= k < j ==> (is_digit_char(#[trigger] sv[k]) || sv[k] == '.'),
    ensures
        is_mantissa(sv.subrange(p, j)) == (j > p && digit_seen && ok_chars && !multi_dot),
{
    let m = sv.subrange(p, j);
    assert(forall|k: int| 0 <= k < m.len() ==> #[trigger] m[k] == sv[p + k]);
    if j > p && digit_seen && ok_chars && !multi_dot {
        assert forall|j1: int, j2: int| 0 <= j1 < j2 < m.len() implies !(#[trigger] m[j1] == '.'
            && #[trigger] m[j2] == '.') by {
            assert(m[j1] == sv[p + j1]);
            assert(m[j2] == sv[p + j2]);
        }
        let kw = choose|k: int| p <= k < j && is_digit_char(#[trigger] sv[k]);
        assert(m[kw - p] == sv[kw]);
        assert(is_mantissa(m));
    } else if j == p {
        assert(!is_mantissa(m));
    } else if !digit_seen {
        if is_mantissa(m) {
            let kw = choose|k: int| 0 <= k < m.len() && is_digit_char(#[trigger] m[k]);
            assert(sv[p + kw] == m[kw]);
        }
        assert(!is_mantissa(m));
    } else if multi_dot {
        let (j1, j2) = choose|j1: int, j2: int|
            p <= j1 < j2 < j && #[trigger] sv[j1] == '.' && #[trigger] sv[j2] == '.';
        assert(m[j1 - p] == '.' && m[j2 - p] == '.');
        assert(!is_mantissa(m));
    } else {
        assert(exists|k: int| p <= k < j && !(is_digit_char(#[trigger] sv[k]) || sv[k] == '.'));
        let kw = choose|k: int| p <= k < j && !(is_digit_char(#[trigger] sv[k]) || sv[k] == '.');
        assert(m[kw - p] == sv[kw]);
        assert(!is_mantissa(m));
    }
}

/// The exponent scan flag decides `is_exp_body` of the scanned range.
proof fn lemma_exp_scan(sv: Seq<char>, e1: int, q0: int, hi: int, exp_ok: bool)
    requires
        0 <= e1 <= hi <= sv.len(),
        q0 == if e1 < hi && is_sign(sv[e1]) {
            e1 + 1
        } else {
            e1
        },
        exp_ok == (q0 < hi && forall|k: int| q0 <= k < hi ==> is_digit_char(#[trigger] sv[k])),
    ensures
        is_exp_body(sv.subrange(e1, hi)) == exp_ok,
{
    let x = sv.subrange(e1, hi);
    assert(forall|k: int| 0 <= k < x.len() ==> #[trigger] x[k] == sv[e1 + k]);
    let signed = x.len() > 0 && is_sign(x[0]);
    assert(q0 == if signed {
        e1 + 1
    } else {
        e1
    });
    if exp_ok {
        assert(q0 < hi);
        if signed {
            assert(forall|k: int| 1 <= k < x.len() ==> is_digit_char(#[trigger] x[k]));
            assert(x.len() > 1);
        } else {
            assert(forall|k: int| 0 <= k < x.len() ==> is_digit_char(#[trigger] x[k]));
            assert(x.len() > 0);
        }
        assert(is_exp_body(x));
    } else if q0 < hi {
        assert(exists|k: int| q0 <= k < hi && !is_digit_char(#[trigger] sv[k]));
        let kw = choose|k: int| q0 <= k < hi && !is_digit_char(#[trigger] sv[k]);
        assert(x[kw - e1] == sv[kw]);
        assert(!is_digit_char(x[kw - e1]));
        assert(!is_exp_body(x));
    } else {
        assert(x.len() == hi - e1);
        assert(!is_exp_body(x));
    }
}

/// Without an exponent marker, the literal is valid exactly when the
/// mantissa is.
proof fn lemma_tail_no_exp(u: Seq<char>, mant_ok: bool)
    requires
        forall|k: int| 0 <= k < u.len() ==> !(#[trigger] u[k] == 'e' || u[k] == 'E'),
        mant_ok == is_mantissa(u),
    ensures
        is_float_literal_tail(u) == mant_ok,
{
    reveal(is_float_literal_tail);
    if mant_ok {
        assert(is_float_literal_tail(u));
    } else {
        assert forall|i: int| !exp_split_at(u, i) by {
            if 0 <= i < u.len() {
                assert(!(u[i] == 'e' || u[i] == 'E'));
            }
        }
        assert(!is_float_literal_tail(u));
    }
}

/// With a first exponent marker at `i0`, the literal is valid exactly
/// when both the mantissa and the exponent body are.
proof fn lemma_tail_with_exp(u: Seq<char>, i0: int, mant_ok: bool, exp_ok: bool)
    requires
        0 <= i0 < u.len(),
        u[i0] == 'e' || u[i0] == 'E',
        forall|k: int| 0 <= k < i0 ==> !(#[trigger] u[k] == 'e' || u[k] == 'E'),
        mant_ok == is_mantissa(u.take(i0)),
        exp_ok == is_exp_body(u.skip(i0 + 1)),
    ensures
        is_float_literal_tail(u) == (mant_ok && exp_ok),
{
    reveal(is_float_literal_tail);
    if mant_ok && exp_ok {
        assert(exp_split_at(u, i0));
        assert(is_float_literal_tail(u));
    } else {
        assert forall|i: int| !exp_split_at(u, i) by {
            if 0 <= i < u.len() && (u[i] == 'e' || u[i] == 'E') && (forall|jj: int|
                0 <= jj < i ==> !(#[trigger] u[jj] == 'e' || u[jj] == 'E')) {
                assert(i == i0);
            }
        }
        assert(!is_mantissa(u)) by {
            if is_mantissa(u) {
                assert(is_digit_char(u[i0]) || u[i0] == '.');
            }
        }
        assert(!is_float_literal_tail(u));
    }
}

/// A nonempty run of hexadecimal digits.
pub open spec fn all_hex_digits(t: Seq<char>) -> bool {
    t.len() > 0 && forall|k: int| 0 <= k < t.len() ==> is_hex_digit(#[trigger] t[k])
}

/// The value of a big-endian hexadecimal digit sequence.
pub open spec fn hex_val(t: Seq<char>) -> nat
    decreases t.len(),
{
    if t.len() == 0 {
        0
    } else {
        hex_val(t.drop_last()) * 16 + hex_digit_val(t.last())
    }
}

/// The value of a fixed-width hexadecimal field, as the standard unsigned
/// radix-16 parse accepts it: an optional leading plus sign, then at
/// least one hexadecimal digit.
pub open spec fn hex_field_val(t: Seq<char>) -> Option<nat> {
    if t.len() > 0 && t[0] == '+' {
        if all_hex_digits(t.drop_first()) {
            Some(hex_val(t.drop_first()))
        } else {
            None
        }
    } else {
        if all_hex_digits(t) {
            Some(hex_val(t))
        } else {
            None
        }
    }
}

/// Sixteen to the power `n`.
pub open spec fn pow16(n: nat) -> nat
    decreases n,
{
    if n == 0 {
        1
    } else {
        16 * pow16((n - 1) as nat)
    }
}

pub proof fn lemma_pow16_pos(n: nat)
    ensures
        pow16(n) >= 1,
    decreases n,
{
    if n > 0 {
        lemma_pow16_pos((n - 1) as nat);
    }
}

pub proof fn lemma_pow16_mono(a: nat, b: nat)
    requires
        a <= b,
    ensures
        1 <= pow16(a) <= pow16(b),
    decreases b,
{
    if b > a {
        lemma_pow16_mono(a, (b - 1) as nat);
    } else {
        lemma_pow16_pos(a);
    }
}

/// A hexadecimal digit sequence of width `n` has a value below 16^n.
pub proof fn lemma_hex_val_bound(t: Seq<char>)
    ensures
        hex_val(t) < pow16(t.len()),
    decreases t.len(),
{
    if t.len() > 0 {
        lemma_hex_val_bound(t.drop_last());
    }
}

/// Parses the characters `src[lo..hi]` as a fixed-width hexadecimal
/// field.
pub fn parse_hex_range(src: &Vec<char>, lo: usize, hi: usize) -> (r: Option<u32>)
    requires
        lo <= hi <= src@.len(),
        hi - lo <= 8,
    ensures
        r is Some <==> hex_field_val(src@.subrange(lo as int, hi as int)) is Some,
        r is Some ==> Some(r->0 as nat) == hex_field_val(src@.subrange(lo as int, hi as int)),
{
    let ghost t = src@.subrange(lo as int, hi as int);
    let start: usize = if lo < hi && src[lo] == '+' {
        lo + 1
    } else {
        lo
    };
    let ghost d = src@.subrange(start as int, hi as int);
    proof {
        assert(t.len() > 0 ==> t[0] == src@[lo as int]);
        if t.len() > 0 && t[0] == '+' {
            assert(t.drop_first() =~= d);
        } else {
            assert(t =~= d);
        }
        assert(hex_field_val(t) == if all_hex_digits(d) {
            Some(hex_val(d))
        } else {
            Option::<nat>::None
        });
    }
    if start == hi {
        proof {
            assert(d.len() == 0);
            assert(!all_hex_digits(d));
            if t.len() > 0 && t[0] == '+' {
                assert(hex_field_val(t) is None);
            } else {
                assert(t == d);
                assert(!all_hex_digits(t));
                assert(hex_field_val(t) is None);
            }
        }
        return None;
    }
    let mut v: u32 = 0;
    let mut i: usize = start;
    while i < hi
        invariant
            lo <= start <= i <= hi <= src@.len(),
            hi - lo <= 8,
            t == src@.subrange(lo as int, hi as int),
            d == src@.subrange(start as int, hi as int),
            hex_field_val(t) == (if all_hex_digits(d) {
                Some(hex_val(d))
            } else {
                Option::<nat>::None
            }),
            forall|k: int| start <= k < i ==> is_hex_digit(#[trigger] src@[k]),
            v as nat == hex_val(src@.subrange(start as int, i as int)),
        decreases hi - i,
    {
        let c = src[i];
        match hex_digit(c) {
            None => {
                proof {
                    assert(d[i - start] == src@[i as int]);
                    assert(!is_hex_digit(d[i - start]));
                    assert(!all_hex_digits(d));
                    assert(hex_field_val(t) is None);
                }
                return None;
            },
            Some(dv) => {
                let ghost pre = src@.subrange(start as int, i as int);
                proof {
                    lemma_hex_val_bound(pre);
                    lemma_pow16_mono(pre.len(), 7);
                    assert(pow16(1) == 16 * pow16(0));
                    assert(pow16(2) == 16 * pow16(1));
                    assert(pow16(3) == 16 * pow16(2));
                    assert(pow16(4) == 16 * pow16(3));
                    assert(pow16(5) == 16 * pow16(4));
                    assert(pow16(6) == 16 * pow16(5));
                    assert(pow16(7) == 16 * pow16(6));
                    assert(pow16(7) == 0x10000000);
                    assert(v < 0x10000000);
                }
                v = v * 16 + dv as u32;
                proof {
                    let post = src@.subrange(start as int, i as int + 1);
                    assert(post.drop_last() =~= pre);
                    assert(post.last() == src@[i as int]);
                    assert(hex_val(post) == hex_val(pre) * 16 + hex_digit_val(src@[i as int]));
                }
                i = i + 1;
            },
        }
    }
    proof {
        assert(d =~= src@.subrange(start as int, hi as int));
        assert(forall|k: int| 0 <= k < d.len() ==> #[trigger] d[k] == src@[start + k]);
        assert(all_hex_digits(d));
        assert(v as nat == hex_val(d));
    }
    Some(v)
}

/// `is_float_literal` after the optional leading sign has been removed.
#[verifier::opaque]
pub open spec fn is_float_literal_tail(u: Seq<char>) -> bool {
    ||| (is_mantissa(u) && forall|k: int|
        0 <= k < u.len() ==> !(#[trigger] u[k] == 'e' || u[k] == 'E'))
    ||| exists|i: int| #[trigger] exp_split_at(u, i)
}

/// The literal `u` splits at index `i` into a mantissa, an exponent
/// marker, and an exponent body.
pub open spec fn exp_split_at(u: Seq<char>, i: int) -> bool {
    0 <= i < u.len() && (u[i] == 'e' || u[i] == 'E') && (forall|j: int|
        0 <= j < i ==> !(#[trigger] u[j] == 'e' || u[j] == 'E')) && is_mantissa(u.take(i))
        && is_exp_body(u.skip(i + 1))
}

} // verus!
