//! The lexer: a forward cursor over the input characters, producing one
//! token, error or end-of-input signal per request.

use vstd::prelude::*;

use crate::classes::{
    check_float_literal, closer, ident_cont, ident_start, num_cont, num_start, parse_hex_range,
    scalar_value,
};
use crate::location::{lemma_coords_bounded, loc_at, point_of, span_of, LocationArea, LocationPoint};
use crate::scan::{
    block_comment_end, lemma_block_comment_end, lemma_line_comment_end, lemma_num_end,
    lemma_sym_end, lemma_ws_end, lex, line_comment_end, num_end, scan_hex_escape,
    scan_string_body, str_prepend, sym_end, ws_end, LexSpec, StrScan,
};
use crate::token::{Error, ErrorKind, Symbol, Token, TokenKind};

verus! {

/// Relies on `String::push`: appends one character to the string.
#[verifier::external_body]
fn push_char(s: &mut String, c: char)
    ensures
        final(s)@ == old(s)@.push(c),
{
    s.push(c)
}

/// Relies on `char::from_u32`: returns the character with scalar value
/// `v`, or `None` exactly when `v` is a surrogate or exceeds the largest
/// code point.
#[verifier::external_body]
fn char_of_u32(v: u32) -> (r: Option<char>)
    ensures
        r is Some <==> crate::classes::is_scalar_value(v),
        r is Some ==> r->0 as u32 == v,
{
    char::from_u32(v)
}

/// Whether the result `r` of one token request from position `i` of
/// input `s`, leaving the cursor at `j`, is what the scanner
/// specification demands.
pub open spec fn lex_matches(s: Seq<char>, i: int, r: Option<Result<Token, Error>>, j: int) -> bool {
    match lex(s, i) {
        LexSpec::End => r is None && j == s.len(),
        LexSpec::Token { kind, start, end } => {
            &&& j == end + 1
            &&& match r {
                Some(Ok(t)) => t.kind@ == kind && t.location == span_of(s, start, end),
                _ => false,
            }
        },
        LexSpec::Fail { msg, from, to, next } => {
            &&& j == next
            &&& match r {
                Some(Err(e)) => {
                    &&& e.kind == ErrorKind::SyntaxError
                    &&& e.message@ == msg
                    &&& e.location == Some(span_of(s, from, to))
                },
                _ => false,
            }
        },
    }
}

/// The lexer: owns the input characters and a forward cursor.
/// `location` is the position of the next unconsumed character;
/// `current` is the position of the character consumed last.
pub struct Lexer {
    src: Vec<char>,
    pos: usize,
    location: LocationPoint,
    current: LocationPoint,
}

impl Lexer {
    /// The input character sequence.
    pub closed spec fn input(&self) -> Seq<char> {
        self.src@
    }

    /// The number of characters consumed so far.
    pub closed spec fn position(&self) -> int {
        self.pos as int
    }

    /// The cursor invariant: the position is within the input and the two
    /// location fields track it.
    pub closed spec fn wf(&self) -> bool {
        &&& self.pos <= self.src@.len()
        &&& self.location == loc_at(self.src@, self.pos as int)
        &&& self.current == loc_at(
            self.src@,
            if self.pos == 0 {
                0
            } else {
                self.pos as int - 1
            },
        )
    }

    /// Builds a lexer over `src` with the cursor at the start.
    pub fn new(src: Vec<char>) -> (r: Lexer)
        ensures
            r.wf(),
            r.input() == src@,
            r.position() == 0,
    {
        let r = Lexer {
            src,
            pos: 0,
            location: LocationPoint::default(),
            current: LocationPoint::default(),
        };
        proof {
            assert(r.wf());
        }
        r
    }

    /// Reads the next unconsumed character, if any, without advancing.
    fn peek(&self) -> (r: Option<char>)
        requires
            self.wf(),
        ensures
            self.position() < self.input().len() ==> r == Some(
                self.input()[self.position()],
            ),
            self.position() == self.input().len() ==> r is None,
    {
        if self.pos < self.src.len() {
            Some(self.src[self.pos])
        } else {
            None
        }
    }

    /// Consumes one character, advancing the cursor and the location
    /// fields.
    fn eat(&mut self) -> (r: Option<char>)
        requires
            old(self).wf(),
        ensures
            final(self).wf(),
            final(self).input() == old(self).input(),
            old(self).position() < old(self).input().len() ==> {
                &&& r == Some(old(self).input()[old(self).position()])
                &&& final(self).position() == old(self).position() + 1
            },
            old(self).position() == old(self).input().len() ==> {
                &&& r is None
                &&& final(self).position() == old(self).position()
            },
    {
        if self.pos < self.src.len() {
            let ch = self.src[self.pos];
            proof {
                lemma_coords_bounded(self.src@, self.pos as int);
                lemma_coords_bounded(self.src@, self.pos as int + 1);
            }
            self.current = self.location;
            self.pos = self.pos + 1;
            if ch == '\n' {
                self.location.line = self.location.line + 1;
                self.location.column = 0;
            } else {
                self.location.column = self.location.column + 1;
            }
            self.location.index = self.pos;
            Some(ch)
        } else {
            None
        }
    }

    /// Consumes exactly `n` characters and returns them, or consumes to
    /// the end of the input and returns `None` if fewer remain.
    fn eat_n(&mut self, n: usize) -> (r: Option<String>)
        requires
            old(self).wf(),
        ensures
            final(self).wf(),
            final(self).input() == old(self).input(),
            old(self).position() + n <= old(self).input().len() ==> {
                &&& final(self).position() == old(self).position() + n
                &&& match r {
                    Some(t) => t@ == old(self).input().subrange(
                        old(self).position(),
                        old(self).position() + n,
                    ),
                    None => false,
                }
            },
            old(self).position() + n > old(self).input().len() ==> {
                &&& r is None
                &&& final(self).position() == old(self).input().len()
            },
    {
        let ghost s = self.src@;
        let ghost pos0 = self.pos as int;
        let mut out = String::new();
        let mut k: usize = 0;
        while k < n
            invariant
                self.wf(),
                s == old(self).input(),
                pos0 == old(self).position(),
                self.src@ == s,
                k <= n,
                pos0 + k == self.position(),
                self.position() <= s.len(),
                out@ == s.subrange(pos0, pos0 + k),
            decreases n - k,
        {
            match self.eat() {
                Some(c) => {
                    push_char(&mut out, c);
                    proof {
                        assert(s.subrange(pos0, pos0 + k + 1) =~= s.subrange(pos0, pos0 + k).push(
                            s[pos0 + k],
                        ));
                    }
                    k = k + 1;
                },
                None => {
                    return None;
                },
            }
        }
        Some(out)
    }

    /// Consumes the whitespace run at the cursor.
    fn skip_whitespace(&mut self)
        requires
            old(self).wf(),
        ensures
            final(self).wf(),
            final(self).input() == old(self).input(),
            final(self).position() == ws_end(old(self).input(), old(self).position()),
    {
        let ghost s = self.src@;
        let ghost pos0 = self.pos as int;
        loop
            invariant
                self.wf(),
                s == old(self).input(),
                pos0 == old(self).position(),
                self.src@ == s,
                pos0 <= self.position() <= s.len(),
                ws_end(s, pos0) == ws_end(s, self.position()),
            decreases s.len() - self.position(),
        {
            match self.peek() {
                Some(c) => {
                    if crate::classes::ws_char(c) {
                        let ghost p = self.pos as int;
                        self.eat();
                        proof {
                            assert(ws_end(s, p) == ws_end(s, p + 1));
                        }
                    } else {
                        proof {
                            lemma_ws_end(s, self.pos as int);
                        }
                        return ;
                    }
                },
                None => {
                    proof {
                        lemma_ws_end(s, self.pos as int);
                    }
                    return ;
                },
            }
        }
    }

    /// Consumes a line comment body: everything through the next newline,
    /// or to the end of the input.
    fn skip_line_comment(&mut self)
        requires
            old(self).wf(),
        ensures
            final(self).wf(),
            final(self).input() == old(self).input(),
            final(self).position() == line_comment_end(old(self).input(), old(self).position()),
    {
        let ghost s = self.src@;
        let ghost pos0 = self.pos as int;
        loop
            invariant
                self.wf(),
                s == old(self).input(),
                pos0 == old(self).position(),
                self.src@ == s,
                pos0 <= self.position() <= s.len(),
                line_comment_end(s, pos0) == line_comment_end(s, self.position()),
            decreases s.len() - self.position(),
        {
            let ghost p = self.pos as int;
            match self.eat() {
                Some(c) => {
                    if c == '\n' {
                        return ;
                    }
                },
                None => {
                    return ;
                },
            }
        }
    }

    /// Consumes a block comment body: everything through the first `*/`.
    /// Reports an unterminated-comment error if the input ends first.
    fn skip_block_comment(&mut self) -> (r: Option<Error>)
        requires
            old(self).wf(),
            0 < old(self).position(),
        ensures
            final(self).wf(),
            final(self).input() == old(self).input(),
            match block_comment_end(old(self).input(), old(self).position()) {
                Some(k) => r is None && final(self).position() == k,
                None => {
                    &&& final(self).position() == old(self).input().len()
                    &&& match r {
                        Some(e) => {
                            &&& e.kind == ErrorKind::SyntaxError
                            &&& e.message@ == "unterminated comment"@
                            &&& e.location == Some(
                                point_of(old(self).input(), old(self).input().len() - 1),
                            )
                        },
                        None => false,
                    }
                },
            },
    {
        let ghost s = self.src@;
        let ghost pos0 = self.pos as int;
        let mut expect_end: bool = false;
        loop
            invariant
                self.wf(),
                s == old(self).input(),
                pos0 == old(self).position(),
                self.src@ == s,
                0 < pos0 <= self.position() <= s.len(),
                expect_end ==> pos0 < self.position() && s[self.position() - 1] == '*'
                    && block_comment_end(s, pos0) == block_comment_end(s, self.position() - 1),
                !expect_end ==> block_comment_end(s, pos0) == block_comment_end(
                    s,
                    self.position(),
                ),
            decreases s.len() - self.position(),
        {
            let ghost p = self.pos as int;
            match self.eat() {
                Some(c) => {
                    if c == '*' {
                        expect_end = true;
                    } else if c == '/' {
                        if expect_end {
                            return None;
                        }
                        expect_end = false;
                    } else {
                        expect_end = false;
                    }
                },
                None => {
                    return Some(
                        Error {
                            kind: ErrorKind::SyntaxError,
                            location: Some(LocationArea::point(self.current)),
                            message: "unterminated comment".to_owned(),
                        },
                    );
                },
            }
        }
    }

    /// Consumes the identifier-continuation run at the cursor, appending
    /// it to `acc`.
    fn symbol_tail(&mut self, acc: &mut String)
        requires
            old(self).wf(),
        ensures
            final(self).wf(),
            final(self).input() == old(self).input(),
            final(self).position() == sym_end(old(self).input(), old(self).position()),
            final(acc)@ == old(acc)@ + old(self).input().subrange(
                old(self).position(),
                final(self).position(),
            ),
    {
        let ghost s = self.src@;
        let ghost pos0 = self.pos as int;
        loop
            invariant
                self.wf(),
                s == old(self).input(),
                pos0 == old(self).position(),
                self.src@ == s,
                0 <= pos0 <= self.position() <= s.len(),
                sym_end(s, pos0) == sym_end(s, self.position()),
                acc@ == old(acc)@ + s.subrange(pos0, self.position()),
            decreases s.len() - self.position(),
        {
            let ghost p = self.pos as int;
            match self.peek() {
                Some(c) => {
                    if ident_cont(c) {
                        self.eat();
                        push_char(acc, c);
                        proof {
                            assert(sym_end(s, p) == sym_end(s, p + 1));
                            assert(old(acc)@ + s.subrange(pos0, p + 1) =~= (old(acc)@ + s.subrange(
                                pos0,
                                p,
                            )).push(s[p]));
                        }
                    } else {
                        proof {
                            lemma_sym_end(s, p);
                        }
                        return ;
                    }
                },
                None => {
                    proof {
                        lemma_sym_end(s, p);
                    }
                    return ;
                },
            }
        }
    }

    /// Consumes the numeric-continuation run at the cursor, appending it
    /// to `acc`.
    fn number_tail(&mut self, acc: &mut String)
        requires
            old(self).wf(),
        ensures
            final(self).wf(),
            final(self).input() == old(self).input(),
            final(self).position() == num_end(old(self).input(), old(self).position()),
            final(acc)@ == old(acc)@ + old(self).input().subrange(
                old(self).position(),
                final(self).position(),
            ),
    {
        let ghost s = self.src@;
        let ghost pos0 = self.pos as int;
        loop
            invariant
                self.wf(),
                s == old(self).input(),
                pos0 == old(self).position(),
                self.src@ == s,
                0 <= pos0 <= self.position() <= s.len(),
                num_end(s, pos0) == num_end(s, self.position()),
                acc@ == old(acc)@ + s.subrange(pos0, self.position()),
            decreases s.len() - self.position(),
        {
            let ghost p = self.pos as int;
            match self.peek() {
                Some(c) => {
                    if num_cont(c) {
                        self.eat();
                        push_char(acc, c);
                        proof {
                            assert(num_end(s, p) == num_end(s, p + 1));
                            assert(old(acc)@ + s.subrange(pos0, p + 1) =~= (old(acc)@ + s.subrange(
                                pos0,
                                p,
                            )).push(s[p]));
                        }
                    } else {
                        proof {
                            lemma_num_end(s, p);
                        }
                        return ;
                    }
                },
                None => {
                    proof {
                        lemma_num_end(s, p);
                    }
                    return ;
                },
            }
        }
    }

    /// Scans a symbol whose first character `first` has just been
    /// consumed, mapping the reserved words to their literal kinds.
    fn scan_symbol(&mut self, first: char) -> (kind: TokenKind)
        requires
            old(self).wf(),
            0 < old(self).position() <= old(self).input().len(),
            first == old(self).input()[old(self).position() - 1],
            crate::classes::is_ident_start(first),
        ensures
            final(self).wf(),
            final(self).input() == old(self).input(),
            final(self).position() == sym_end(old(self).input(), old(self).position()),
            kind@ == crate::scan::symbol_kind(
                old(self).input().subrange(old(self).position() - 1, final(self).position()),
            ),
    {
        let ghost s = self.src@;
        let ghost pos0 = self.pos as int;
        let mut acc = String::new();
        push_char(&mut acc, first);
        self.symbol_tail(&mut acc);
        let ghost e = self.pos as int;
        let ghost t = s.subrange(pos0 - 1, e);
        proof {
            lemma_sym_end(s, pos0);
            assert(acc@ =~= t);
        }
        if acc == "true".to_owned() {
            TokenKind::Boolean(true)
        } else if acc == "false".to_owned() {
            TokenKind::Boolean(false)
        } else if acc == "nil".to_owned() {
            TokenKind::Nil
        } else {
            proof {
                assert forall|k: int| 1 <= k < t.len() implies crate::classes::is_ident_cont(
                    #[trigger] t[k],
                ) by {
                    assert(t[k] == s[pos0 - 1 + k]);
                }
                assert(t[0] == first);
                assert(crate::token::is_symbol_text(acc@));
            }
            let sym = Symbol::new(acc);
            TokenKind::Symbol(sym.unwrap())
        }
    }

    /// Scans the numeric run whose first character `first` has just been
    /// consumed, returning its text.
    fn scan_number_run(&mut self, first: char) -> (text: String)
        requires
            old(self).wf(),
            0 < old(self).position() <= old(self).input().len(),
            first == old(self).input()[old(self).position() - 1],
        ensures
            final(self).wf(),
            final(self).input() == old(self).input(),
            final(self).position() == num_end(old(self).input(), old(self).position()),
            text@ == old(self).input().subrange(old(self).position() - 1, final(self).position()),
    {
        let ghost s = self.src@;
        let ghost pos0 = self.pos as int;
        let mut acc = String::new();
        push_char(&mut acc, first);
        self.number_tail(&mut acc);
        proof {
            lemma_num_end(s, pos0);
            assert(acc@ =~= s.subrange(pos0 - 1, self.pos as int));
        }
        acc
    }

    /// Scans a quoted string body whose opening quote has just been
    /// consumed, decoding escapes, until the matching quote.
    fn scan_string(&mut self, quote: char) -> (r: Result<String, Error>)
        requires
            old(self).wf(),
            0 < old(self).position(),
        ensures
            final(self).wf(),
            final(self).input() == old(self).input(),
            match scan_string_body(old(self).input(), old(self).position(), quote) {
                StrScan::Fine { text, end } => {
                    &&& final(self).position() == end
                    &&& match r {
                        Ok(st) => st@ == text,
                        Err(_) => false,
                    }
                },
                StrScan::Bad { msg, from, to, next } => {
                    &&& final(self).position() == next
                    &&& match r {
                        Err(e) => {
                            &&& e.kind == ErrorKind::SyntaxError
                            &&& e.message@ == msg
                            &&& e.location == Some(span_of(old(self).input(), from, to))
                        },
                        Ok(_) => false,
                    }
                },
            },
    {
        let ghost s = self.src@;
        let ghost pos0 = self.pos as int;
        let mut acc = String::new();
        loop
            invariant
                self.wf(),
                s == old(self).input(),
                pos0 == old(self).position(),
                self.src@ == s,
                0 < pos0 <= self.position() <= s.len(),
                crate::scan::str_prefix(acc@, scan_string_body(s, self.position(), quote))
                    == scan_string_body(s, pos0, quote),
            decreases s.len() - self.position(),
        {
            let ghost p = self.pos as int;
            match self.eat() {
                None => {
                    return Err(
                        Error {
                            kind: ErrorKind::SyntaxError,
                            location: Some(LocationArea::point(self.current)),
                            message: "unterminated string".to_owned(),
                        },
                    );
                },
                Some(nch) => {
                    if nch == quote {
                        proof {
                            assert(scan_string_body(s, p, quote) == (StrScan::Fine {
                                text: Seq::<char>::empty(),
                                end: p + 1,
                            }));
                            assert(acc@ + Seq::<char>::empty() =~= acc@);
                        }
                        return Ok(acc);
                    } else if nch == '\\' {
                        let before = self.current;
                        match self.eat() {
                            None => {
                                return Err(
                                    Error {
                                        kind: ErrorKind::SyntaxError,
                                        location: Some(LocationArea::point(self.current)),
                                        message: "unexpected end whilst parsing escape".to_owned(),
                                    },
                                );
                            },
                            Some(ech) => {
                                if ech == 'x' || ech == 'u' || ech == 'U' {
                                    let w: usize = if ech == 'x' {
                                        2
                                    } else if ech == 'u' {
                                        4
                                    } else {
                                        8
                                    };
                                    proof {
                                        assert(nch == s[p] && ech == s[p + 1]);
                                        assert(scan_string_body(s, p, quote) == scan_hex_escape(
                                            s,
                                            p,
                                            quote,
                                            w as int,
                                        ));
                                    }
                                    let hex_lo = self.pos;
                                    match self.eat_n(w) {
                                        None => {
                                            proof {
                                                assert(p + 2 + w > s.len());
                                                assert(scan_hex_escape(s, p, quote, w as int)
                                                    == (StrScan::Bad {
                                                    msg: "unexpected end whilst parsing escape"@,
                                                    from: s.len() - 1,
                                                    to: s.len() - 1,
                                                    next: s.len() as int,
                                                }));
                                            }
                                            return Err(
                                                Error {
                                                    kind: ErrorKind::SyntaxError,
                                                    location: Some(LocationArea::point(self.current)),
                                                    message: "unexpected end whilst parsing escape".to_owned(),
                                                },
                                            );
                                        },
                                        Some(_) => {
                                            let hex_hi = self.pos;
                                            proof {
                                                assert(hex_lo as int == p + 2);
                                                assert(hex_hi as int == p + 2 + w);
                                            }
                                            match parse_hex_range(&self.src, hex_lo, hex_hi) {
                                                None => {
                                                    return Err(
                                                        Error {
                                                            kind: ErrorKind::SyntaxError,
                                                            location: Some(
                                                                LocationArea {
                                                                    start: before,
                                                                    end: self.current,
                                                                },
                                                            ),
                                                            message: "invalid hex".to_owned(),
                                                        },
                                                    );
                                                },
                                                Some(v) => {
                                                    proof {
                                                        assert(crate::classes::hex_field_val(
                                                            s.subrange(p + 2, p + 2 + w),
                                                        ) == Some(v as nat));
                                                    }
                                                    if scalar_value(v) {
                                                        let c = char_of_u32(v).unwrap();
                                                        let ghost accp = acc@;
                                                        push_char(&mut acc, c);
                                                        proof {
                                                            assert(c as u32 == v);
                                                            vstd::utf8::char_u32_cast(c, v);
                                                            assert(c == v as char);
                                                            assert(scan_hex_escape(s, p, quote, w as int)
                                                                == str_prepend(
                                                                v as char,
                                                                scan_string_body(s, p + 2 + w, quote),
                                                            ));
                                                            crate::scan::lemma_str_prefix_push(
                                                                accp,
                                                                c,
                                                                scan_string_body(
                                                                    s,
                                                                    self.pos as int,
                                                                    quote,
                                                                ),
                                                            );
                                                        }
                                                    } else {
                                                        return Err(
                                                            Error {
                                                                kind: ErrorKind::SyntaxError,
                                                                location: Some(
                                                                    LocationArea {
                                                                        start: before,
                                                                        end: self.current,
                                                                    },
                                                                ),
                                                                message: "is not a valid character".to_owned(),
                                                            },
                                                        );
                                                    }
                                                },
                                            }
                                        },
                                    }
                                } else if ech == 'n' || ech == 'r' || ech == 't' || ech == '0'
                                    || ech == '\\' {
                                    let c: char = if ech == 'n' {
                                        '\n'
                                    } else if ech == 'r' {
                                        '\r'
                                    } else if ech == 't' {
                                        '\t'
                                    } else if ech == '0' {
                                        '\0'
                                    } else {
                                        '\\'
                                    };
                                    let ghost accp = acc@;
                                    push_char(&mut acc, c);
                                    proof {
                                        assert(scan_string_body(s, p, quote) == str_prepend(
                                            c,
                                            scan_string_body(s, p + 2, quote),
                                        ));
                                        crate::scan::lemma_str_prefix_push(
                                            accp,
                                            c,
                                            scan_string_body(s, self.pos as int, quote),
                                        );
                                    }
                                } else {
                                    return Err(
                                        Error {
                                            kind: ErrorKind::SyntaxError,
                                            location: Some(
                                                LocationArea { start: before, end: self.current },
                                            ),
                                            message: "is not a valid escape".to_owned(),
                                        },
                                    );
                                }
                            },
                        }
                    } else {
                        let ghost accp = acc@;
                        push_char(&mut acc, nch);
                        proof {
                            assert(scan_string_body(s, p, quote) == str_prepend(
                                nch,
                                scan_string_body(s, p + 1, quote),
                            ));
                            crate::scan::lemma_str_prefix_push(
                                accp,
                                nch,
                                scan_string_body(s, self.pos as int, quote),
                            );
                        }
                    }
                },
            }
        }
    }

    /// Validates the delimiter after a scanned token covering the
    /// characters up to the cursor, and builds the token.
    fn deliver_token(
        &mut self,
        kind: TokenKind,
        start_pt: LocationPoint,
        Ghost(start_idx): Ghost<int>,
    ) -> (r: Result<Token, Error>)
        requires
            old(self).wf(),
            0 < old(self).position() <= old(self).input().len(),
            0 <= start_idx < old(self).position(),
            start_pt == loc_at(old(self).input(), start_idx),
        ensures
            final(self).wf(),
            final(self).input() == old(self).input(),
            final(self).position() == old(self).position(),
            ({
                let s = old(self).input();
                let end = old(self).position() - 1;
                match crate::scan::deliver(s, kind@, start_idx, end) {
                    LexSpec::Token { kind: kv, start, end: e } => match r {
                        Ok(t) => t.kind@ == kv && t.location == span_of(s, start, e),
                        Err(_) => false,
                    },
                    LexSpec::Fail { msg, from, to, next } => {
                        &&& next == old(self).position()
                        &&& match r {
                            Err(e) => {
                                &&& e.kind == ErrorKind::SyntaxError
                                &&& e.message@ == msg
                                &&& e.location == Some(span_of(s, from, to))
                            },
                            Ok(_) => false,
                        }
                    },
                    LexSpec::End => false,
                }
            }),
    {
        let kind_is_open = matches!(
            kind,
            TokenKind::LeftParen | TokenKind::LeftBracket | TokenKind::LeftBrace | TokenKind::Dot
        );
        proof {
            assert(kind_is_open == crate::scan::is_opening_or_dot(kind@));
        }
        if !kind_is_open {
            match self.peek() {
                Some(c) => {
                    let exempt = matches!(kind, TokenKind::Symbol(_)) && c == '.';
                    proof {
                        assert(matches!(kind, TokenKind::Symbol(_)) == (kind@ is Symbol));
                    }
                    if !exempt && !crate::classes::ws_char(c) && !closer(c) {
                        return Err(
                            Error {
                                kind: ErrorKind::SyntaxError,
                                location: Some(LocationArea::point(self.location)),
                                message: "expected delimeter".to_owned(),
                            },
                        );
                    }
                },
                None => {},
            }
        }
        Ok(Token { kind, location: LocationArea { start: start_pt, end: self.current } })
    }

    /// Produces the next token.
    ///
    /// Skips whitespace and comments, scans one token, validates the
    /// delimiter after it, and returns `Some(Ok(token))`; returns
    /// `Some(Err(error))` on a syntax error and `None` when the input is
    /// exhausted.
    #[verifier::rlimit(100)]
    pub fn next(&mut self) -> (r: Option<Result<Token, Error>>)
        requires
            old(self).wf(),
        ensures
            final(self).wf(),
            final(self).input() == old(self).input(),
            lex_matches(old(self).input(), old(self).position(), r, final(self).position()),
    {
        let ghost s = self.src@;
        let ghost i0 = self.pos as int;
        loop
            invariant
                self.wf(),
                s == old(self).input(),
                i0 == old(self).position(),
                self.src@ == s,
                i0 <= self.position() <= s.len(),
                lex(s, i0) == lex(s, self.position()),
            decreases s.len() - self.position(),
        {
            let ghost it = self.pos as int;
            self.skip_whitespace();
            let ghost j = self.pos as int;
            proof {
                lemma_ws_end(s, it);
                lemma_ws_end(s, j);
                assert(ws_end(s, j) == j);
                assert(lex(s, it) == lex(s, j));
            }
            let jx = self.pos;
            let ch = match self.peek() {
                None => {
                    proof {
                        assert(lex(s, j) == LexSpec::End);
                    }
                    return None;
                },
                Some(c) => c,
            };
            self.eat();
            let start = self.current;
            if ch == '(' {
                return Some(self.deliver_token(TokenKind::LeftParen, start, Ghost(j)));
            } else if ch == ')' {
                return Some(self.deliver_token(TokenKind::RightParen, start, Ghost(j)));
            } else if ch == '[' {
                return Some(self.deliver_token(TokenKind::LeftBracket, start, Ghost(j)));
            } else if ch == ']' {
                return Some(self.deliver_token(TokenKind::RightBracket, start, Ghost(j)));
            } else if ch == '{' {
                return Some(self.deliver_token(TokenKind::LeftBrace, start, Ghost(j)));
            } else if ch == '}' {
                return Some(self.deliver_token(TokenKind::RightBrace, start, Ghost(j)));
            } else if ch == '.' {
                return Some(self.deliver_token(TokenKind::Dot, start, Ghost(j)));
            } else if ident_start(ch) {
                let kind = self.scan_symbol(ch);
                proof {
                    lemma_sym_end(s, j + 1);
                }
                return Some(self.deliver_token(kind, start, Ghost(j)));
            } else if num_start(ch) {
                let text = self.scan_number_run(ch);
                proof {
                    lemma_num_end(s, j + 1);
                }
                if check_float_literal(&self.src, jx, self.pos) {
                    return Some(self.deliver_token(TokenKind::Number(text), start, Ghost(j)));
                } else {
                    return Some(
                        Err(
                            Error {
                                kind: ErrorKind::SyntaxError,
                                location: Some(LocationArea { start, end: self.current }),
                                message: "invalid number literal".to_owned(),
                            },
                        ),
                    );
                }
            } else if ch == '"' || ch == '\'' {
                match self.scan_string(ch) {
                    Ok(st) => {
                        proof {
                            crate::scan::lemma_scan_string_fine(s, j + 1, ch);
                        }
                        return Some(self.deliver_token(TokenKind::String(st), start, Ghost(j)));
                    },
                    Err(e) => {
                        return Some(Err(e));
                    },
                }
            } else if ch == '/' {
                let nx = self.peek();
                let is_line = match nx {
                    Some(c2) => c2 == '/',
                    None => false,
                };
                let is_block = match nx {
                    Some(c2) => c2 == '*',
                    None => false,
                };
                if is_line || is_block {
                    self.eat();
                    if is_line {
                        self.skip_line_comment();
                        proof {
                            lemma_line_comment_end(s, j + 2);
                            assert(lex(s, j) == lex(s, line_comment_end(s, j + 2)));
                        }
                    } else {
                        match self.skip_block_comment() {
                            None => {
                                proof {
                                    lemma_block_comment_end(s, j + 2);
                                    assert(lex(s, j) == lex(
                                        s,
                                        block_comment_end(s, j + 2)->0,
                                    ));
                                }
                            },
                            Some(e) => {
                                proof {
                                    assert(lex(s, j) == (LexSpec::Fail {
                                        msg: "unterminated comment"@,
                                        from: s.len() - 1,
                                        to: s.len() - 1,
                                        next: s.len() as int,
                                    }));
                                }
                                return Some(Err(e));
                            },
                        }
                    }
                } else {
                    return Some(
                        Err(
                            Error {
                                kind: ErrorKind::SyntaxError,
                                location: Some(LocationArea::point(self.current)),
                                message: "unexpected character".to_owned(),
                            },
                        ),
                    );
                }
            } else {
                return Some(
                    Err(
                        Error {
                            kind: ErrorKind::SyntaxError,
                            location: Some(LocationArea::point(self.current)),
                            message: "unexpected character".to_owned(),
                        },
                    ),
                );
            }
        }
    }
}

} // verus!
