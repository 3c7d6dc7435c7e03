//! The textual wire grammar, with one verified parser and one verified
//! printer.
//!
//! The grammar is the structured-object grammar of the wire: objects,
//! arrays, strings, numbers, `true`, `false` and `null`, with whitespace
//! allowed between tokens. Strings know the short escapes
//! `\" \\ \/ \b \f \n \r \t` and `\uXXXX` escapes, surrogate pairs
//! included; non-ASCII text may also travel as itself. A message is one
//! value with nothing but whitespace around it.
//!
//! `parse_text` (spec) defines exactly which texts are accepted and what
//! value each one denotes; `parse_text_chars` (exec) is proved to return
//! precisely that. `enc_value` in [`crate::value`] defines the canonical
//! text of a value; `to_text` is proved to print precisely that.

use vstd::prelude::*;
use vstd::string::{StrSliceExecFns, StringExecFns};

use crate::value::{
    digits_end, enc_items, enc_members, enc_value, esc_char, esc_string, hex_digit, is_digit,
    is_number_lexeme, membs_view, number_end, vals_view, wf_value, GValue, Member, Value,
};

verus! {

broadcast use vstd::std_specs::vec::axiom_vec_index_decreases, vstd::seq::axiom_seq_index_decreases, vstd::string::next_postcondition, vstd::string::axiom_spec_iter, vstd::utf8::char_u32_cast;

pub open spec fn is_ws(c: char) -> bool {
    c == ' ' || c == '\t' || c == '\n' || c == '\r'
}

/// Index of the first non-whitespace character at or after `i`.
pub open spec fn ws_end(s: Seq<char>, i: int) -> int
    decreases s.len() - i when 0 <= i <= s.len()
{
    if i < s.len() && is_ws(s[i]) {
        ws_end(s, i + 1)
    } else {
        i
    }
}

/// What the character after a backslash stands for, if anything.
pub open spec fn unesc(c: char) -> Option<char> {
    if c == '"' {
        Some('"')
    } else if c == '\\' {
        Some('\\')
    } else if c == '/' {
        Some('/')
    } else if c == 'n' {
        Some('\n')
    } else if c == 'r' {
        Some('\r')
    } else if c == 't' {
        Some('\t')
    } else if c == 'b' {
        Some('\u{8}')
    } else if c == 'f' {
        Some('\u{c}')
    } else {
        None
    }
}

/// Value of one hexadecimal digit, either case, or -1.
pub open spec fn hex_val(c: char) -> int {
    if '0' <= c && c <= '9' {
        c as int - '0' as int
    } else if 'a' <= c && c <= 'f' {
        10 + (c as int - 'a' as int)
    } else if 'A' <= c && c <= 'F' {
        10 + (c as int - 'A' as int)
    } else {
        -1
    }
}

/// The code unit named by the four hex digits at `i`, or -1.
pub open spec fn hex4(s: Seq<char>, i: int) -> int {
    if 0 <= i && i + 4 <= s.len() && hex_val(s[i]) >= 0 && hex_val(s[i + 1]) >= 0 && hex_val(
        s[i + 2],
    ) >= 0 && hex_val(s[i + 3]) >= 0 {
        hex_val(s[i]) * 0x1000 + hex_val(s[i + 1]) * 0x100 + hex_val(s[i + 2]) * 16 + hex_val(
            s[i + 3],
        )
    } else {
        -1
    }
}

/// Reads a string body starting just after the opening quote, with `acc`
/// the characters already read; yields the content and the index just
/// after the closing quote. Escapes are the eight short ones and
/// `\uXXXX` (a high surrogate must be followed by a low one, and the
/// pair names one character). Raw control characters, unknown escapes
/// and lone surrogates are refused.
pub open spec fn str_body(s: Seq<char>, i: int, acc: Seq<char>) -> Option<(Seq<char>, int)>
    decreases s.len() - i when 0 <= i <= s.len()
{
    if i >= s.len() {
        None
    } else if s[i] == '"' {
        Some((acc, i + 1))
    } else if s[i] == '\\' {
        if i + 1 < s.len() {
            if s[i + 1] == 'u' {
                let cu = hex4(s, i + 2);
                if cu < 0 {
                    None
                } else if 0xD800 <= cu < 0xDC00 {
                    if i + 12 <= s.len() && s[i + 6] == '\\' && s[i + 7] == 'u' {
                        let lo = hex4(s, i + 8);
                        if 0xDC00 <= lo < 0xE000 {
                            let cp = 0x10000 + (cu - 0xD800) * 0x400 + (lo - 0xDC00);
                            str_body(s, i + 12, acc.push((cp as u32) as char))
                        } else {
                            None
                        }
                    } else {
                        None
                    }
                } else if 0xDC00 <= cu < 0xE000 {
                    None
                } else {
                    str_body(s, i + 6, acc.push((cu as u32) as char))
                }
            } else {
                match unesc(s[i + 1]) {
                    Some(c) => str_body(s, i + 2, acc.push(c)),
                    None => None,
                }
            }
        } else {
            None
        }
    } else if (s[i] as u32) < 0x20 {
        None
    } else {
        str_body(s, i + 1, acc.push(s[i]))
    }
}

/// Reads one value starting exactly at `i` (no leading whitespace);
/// yields the value and the index just after it.
pub open spec fn g_value(s: Seq<char>, i: int) -> Option<(GValue, int)>
    decreases s.len() - i, 0int when 0 <= i <= s.len()
{
    if i >= s.len() {
        None
    } else if s[i] == 'n' {
        if i + 4 <= s.len() && s[i + 1] == 'u' && s[i + 2] == 'l' && s[i + 3] == 'l' {
            Some((GValue::Null, i + 4))
        } else {
            None
        }
    } else if s[i] == 't' {
        if i + 4 <= s.len() && s[i + 1] == 'r' && s[i + 2] == 'u' && s[i + 3] == 'e' {
            Some((GValue::Bool(true), i + 4))
        } else {
            None
        }
    } else if s[i] == 'f' {
        if i + 5 <= s.len() && s[i + 1] == 'a' && s[i + 2] == 'l' && s[i + 3] == 's' && s[i + 4]
            == 'e' {
            Some((GValue::Bool(false), i + 5))
        } else {
            None
        }
    } else if s[i] == '"' {
        match str_body(s, i + 1, Seq::empty()) {
            Some((t, j)) => Some((GValue::Text(t), j)),
            None => None,
        }
    } else if s[i] == '-' || is_digit(s[i]) {
        match number_end(s, i) {
            Some(e) => Some((GValue::Num(s.subrange(i, e)), e)),
            None => None,
        }
    } else if s[i] == '[' {
        match g_elements(s, i + 1, Seq::empty()) {
            Some((items, j)) => Some((GValue::Arr(items), j)),
            None => None,
        }
    } else if s[i] == '{' {
        match g_members(s, i + 1, Seq::empty()) {
            Some((members, j)) => Some((GValue::Obj(members), j)),
            None => None,
        }
    } else {
        None
    }
}

/// Reads the elements of an array from just after `[` or just after a
/// comma; `acc` holds the elements already read.
pub open spec fn g_elements(s: Seq<char>, i: int, acc: Seq<GValue>) -> Option<(Seq<GValue>, int)>
    decreases s.len() - i, 1int when 0 <= i <= s.len()
{
    let k = ws_end(s, i);
    if !(i <= k <= s.len()) {
        None
    } else if k < s.len() && s[k] == ']' && acc.len() == 0 {
        Some((acc, k + 1))
    } else {
        match g_value(s, k) {
            Some((v, j)) => {
                let m = ws_end(s, j);
                if m < s.len() && s[m] == ',' {
                    if i < m + 1 <= s.len() {
                        g_elements(s, m + 1, acc.push(v))
                    } else {
                        None
                    }
                } else if m < s.len() && s[m] == ']' {
                    Some((acc.push(v), m + 1))
                } else {
                    None
                }
            },
            None => None,
        }
    }
}

/// Reads the members of an object from just after `{` or just after a
/// comma; `acc` holds the members already read.
pub open spec fn g_members(s: Seq<char>, i: int, acc: Seq<(Seq<char>, GValue)>) -> Option<
    (Seq<(Seq<char>, GValue)>, int),
>
    decreases s.len() - i, 1int when 0 <= i <= s.len()
{
    let k = ws_end(s, i);
    if !(i <= k <= s.len()) {
        None
    } else if k < s.len() && s[k] == '}' && acc.len() == 0 {
        Some((acc, k + 1))
    } else if k < s.len() && s[k] == '"' {
        match str_body(s, k + 1, Seq::empty()) {
            Some((key, a)) => {
                let b = ws_end(s, a);
                if b < s.len() && s[b] == ':' {
                    let c = ws_end(s, b + 1);
                    if i < c <= s.len() {
                        match g_value(s, c) {
                            Some((v, j)) => {
                                let m = ws_end(s, j);
                                if m < s.len() && s[m] == ',' {
                                    if i < m + 1 <= s.len() {
                                        g_members(s, m + 1, acc.push((key, v)))
                                    } else {
                                        None
                                    }
                                } else if m < s.len() && s[m] == '}' {
                                    Some((acc.push((key, v)), m + 1))
                                } else {
                                    None
                                }
                            },
                            None => None,
                        }
                    } else {
                        None
                    }
                } else {
                    None
                }
            },
            None => None,
        }
    } else {
        None
    }
}

/// Which texts the codec accepts, and what value each denotes: one value
/// with nothing but whitespace around it.
pub open spec fn parse_text(s: Seq<char>) -> Option<GValue> {
    let i = ws_end(s, 0);
    if 0 <= i <= s.len() {
        match g_value(s, i) {
            Some((v, j)) => if 0 <= j <= s.len() && ws_end(s, j) == s.len() {
                Some(v)
            } else {
                None
            },
            None => None,
        }
    } else {
        None
    }
}

/// Relies on String::push: appends the given character to the end of the
/// string.
#[verifier::external_body]
pub(crate) fn push_char(out: &mut String, c: char)
    ensures
        final(out)@ == old(out)@.push(c),
{
    out.push(c);
}

/// The characters of a text, in order.
pub fn chars_of(s: &str) -> (r: Vec<char>)
    ensures
        r@ == s@,
{
    let mut it = s.chars();
    let mut out: Vec<char> = Vec::new();
    loop
        invariant
            out@ + vstd::std_specs::iter::IteratorSpec::remaining(&it) == s@,
        decreases s@.len() - out@.len(),
    {
        match it.next() {
            Some(c) => out.push(c),
            None => {
                proof {
                    assert(out@ =~= s@);
                }
                return out;
            },
        }
    }
}

fn skip_ws(s: &Vec<char>, i: usize) -> (r: usize)
    requires
        i <= s@.len(),
    ensures
        i <= r <= s@.len(),
        r as int == ws_end(s@, i as int),
{
    let mut cur = i;
    loop
        invariant
            i <= cur <= s@.len(),
            ws_end(s@, i as int) == ws_end(s@, cur as int),
        decreases s@.len() - cur,
    {
        if cur < s.len() {
            let c = s[cur];
            if c == ' ' || c == '\t' || c == '\n' || c == '\r' {
                cur = cur + 1;
                continue ;
            }
        }
        return cur;
    }
}

fn digits_to(s: &Vec<char>, i: usize) -> (r: usize)
    requires
        i <= s@.len(),
    ensures
        i <= r <= s@.len(),
        r as int == digits_end(s@, i as int),
{
    let mut cur = i;
    loop
        invariant
            i <= cur <= s@.len(),
            digits_end(s@, i as int) == digits_end(s@, cur as int),
        decreases s@.len() - cur,
    {
        if cur < s.len() {
            let c = s[cur];
            if '0' <= c && c <= '9' {
                cur = cur + 1;
                continue ;
            }
        }
        return cur;
    }
}

pub proof fn lemma_digits_ge(s: Seq<char>, i: int)
    requires
        0 <= i <= s.len(),
    ensures
        i <= digits_end(s, i) <= s.len(),
    decreases s.len() - i,
{
    if i < s.len() && is_digit(s[i]) {
        lemma_digits_ge(s, i + 1);
    }
}

proof fn lemma_digits_sub(s: Seq<char>, lo: int, hi: int, x: int)
    requires
        0 <= lo <= x <= hi <= s.len(),
        digits_end(s, x) <= hi,
    ensures
        digits_end(s.subrange(lo, hi), x - lo) == digits_end(s, x) - lo,
    decreases hi - x,
{
    lemma_digits_ge(s, x);
    let t = s.subrange(lo, hi);
    if x < hi && is_digit(s[x]) {
        assert(t[x - lo] == s[x]);
        lemma_digits_ge(s, x + 1);
        lemma_digits_sub(s, lo, hi, x + 1);
    } else if x == hi {
        assert(digits_end(s, x) == hi);
        assert(digits_end(t, x - lo) == x - lo);
    } else {
        assert(t[x - lo] == s[x]);
    }
}

/// A number read out of its surrounding text is itself a well-shaped
/// number lexeme.
proof fn lemma_number_sub(s: Seq<char>, lo: int, e: int)
    requires
        0 <= lo < e <= s.len(),
        number_end(s, lo) == Some(e),
    ensures
        is_number_lexeme(s.subrange(lo, e)),
{
    let t = s.subrange(lo, e);
    let a = if lo < s.len() && s[lo] == '-' {
        lo + 1
    } else {
        lo
    };
    assert(a < s.len() && is_digit(s[a]));
    let b = if s[a] == '0' {
        a + 1
    } else {
        digits_end(s, a)
    };
    lemma_digits_ge(s, a);
    lemma_digits_ge(s, a + 1);
    assert(a + 1 <= b <= s.len());
    let c = if b < s.len() && s[b] == '.' {
        if b + 1 < s.len() && is_digit(s[b + 1]) {
            digits_end(s, b + 1)
        } else {
            -1
        }
    } else {
        b
    };
    assert(c >= 0);
    if b < s.len() && s[b] == '.' {
        lemma_digits_ge(s, b + 1);
        if b + 1 < s.len() && is_digit(s[b + 1]) {
            lemma_digits_ge(s, b + 2);
            assert(digits_end(s, b + 1) == digits_end(s, b + 2));
        }
    }
    assert(b <= c <= s.len());
    let d = if c < s.len() && (s[c] == 'e' || s[c] == 'E') {
        let e0 = if c + 1 < s.len() && (s[c + 1] == '+' || s[c + 1] == '-') {
            c + 2
        } else {
            c + 1
        };
        if e0 < s.len() && is_digit(s[e0]) {
            lemma_digits_ge(s, e0);
            lemma_digits_ge(s, e0 + 1);
            assert(digits_end(s, e0) == digits_end(s, e0 + 1));
            digits_end(s, e0)
        } else {
            -1
        }
    } else {
        c
    };
    assert(d == e);
    assert(c <= d);
    // mirror every scan on the extracted lexeme
    if s[a] != '0' {
        lemma_digits_sub(s, lo, e, a);
    }
    if b < s.len() && s[b] == '.' {
        lemma_digits_sub(s, lo, e, b + 1);
    }
    if c < s.len() && (s[c] == 'e' || s[c] == 'E') {
        let e0 = if c + 1 < s.len() && (s[c + 1] == '+' || s[c + 1] == '-') {
            c + 2
        } else {
            c + 1
        };
        assert(e0 < s.len() && is_digit(s[e0]) && digits_end(s, e0) == e);
        lemma_digits_ge(s, e0);
        lemma_digits_sub(s, lo, e, e0);
    }
    assert(number_end(t, 0) == Some(e - lo));
}

fn number_span(s: &Vec<char>, i: usize) -> (r: Option<usize>)
    requires
        i < s@.len(),
        s@[i as int] == '-' || is_digit(s@[i as int]),
    ensures
        match r {
            Some(e) => number_end(s@, i as int) == Some(e as int) && i < e <= s@.len(),
            None => number_end(s@, i as int) is None,
        },
{
    let n = s.len();
    let a = if s[i] == '-' {
        i + 1
    } else {
        i
    };
    if !(a < n && '0' <= s[a] && s[a] <= '9') {
        return None;
    }
    let b = if s[a] == '0' {
        a + 1
    } else {
        digits_to(s, a)
    };
    proof {
        lemma_digits_ge(s@, a as int);
        lemma_digits_ge(s@, a as int + 1);
        if s@[a as int] != '0' {
            assert(digits_end(s@, a as int) == digits_end(s@, a as int + 1));
        }
        assert(a + 1 <= b <= s@.len());
    }
    let c: usize;
    if b < s.len() && s[b] == '.' {
        if b + 1 < s.len() && '0' <= s[b + 1] && s[b + 1] <= '9' {
            c = digits_to(s, b + 1);
        } else {
            return None;
        }
    } else {
        c = b;
    }
    let d: usize;
    if c < s.len() && (s[c] == 'e' || s[c] == 'E') {
        let e0 = if c + 1 < s.len() && (s[c + 1] == '+' || s[c + 1] == '-') {
            c + 2
        } else {
            c + 1
        };
        if e0 < s.len() && '0' <= s[e0] && s[e0] <= '9' {
            d = digits_to(s, e0);
            proof {
                assert(digits_end(s@, e0 as int) == digits_end(s@, e0 as int + 1));
            }
        } else {
            return None;
        }
    } else {
        d = c;
    }
    Some(d)
}

/// Relies on char::from_u32: every Unicode scalar value (below the
/// surrogate range, or above it and at most 0x10FFFF) names exactly one
/// character, the one with that value.
#[verifier::external_body]
fn char_of_scalar(cp: u32) -> (c: char)
    requires
        cp < 0xD800 || (0xE000 <= cp && cp <= 0x10FFFF),
    ensures
        c as u32 == cp,
{
    match char::from_u32(cp) {
        Some(c) => c,
        None => ' ',
    }
}

fn hex_digit_val(c: char) -> (r: Option<u32>)
    ensures
        match r {
            Some(v) => hex_val(c) == v as int && v < 16,
            None => hex_val(c) < 0,
        },
{
    if '0' <= c && c <= '9' {
        Some(c as u32 - '0' as u32)
    } else if 'a' <= c && c <= 'f' {
        Some(10 + (c as u32 - 'a' as u32))
    } else if 'A' <= c && c <= 'F' {
        Some(10 + (c as u32 - 'A' as u32))
    } else {
        None
    }
}

/// The code unit named by the four hex digits at `i`, executably.
fn hex4_at(s: &Vec<char>, i: usize) -> (r: Option<u32>)
    requires
        i <= s@.len(),
    ensures
        match r {
            Some(v) => hex4(s@, i as int) == v as int && v <= 0xFFFF && i + 4 <= s@.len(),
            None => hex4(s@, i as int) < 0,
        },
{
    if s.len() - i < 4 {
        return None;
    }
    let a = match hex_digit_val(s[i]) {
        Some(v) => v,
        None => {
            return None;
        },
    };
    let b = match hex_digit_val(s[i + 1]) {
        Some(v) => v,
        None => {
            return None;
        },
    };
    let c = match hex_digit_val(s[i + 2]) {
        Some(v) => v,
        None => {
            return None;
        },
    };
    let d = match hex_digit_val(s[i + 3]) {
        Some(v) => v,
        None => {
            return None;
        },
    };
    Some(a * 0x1000 + b * 0x100 + c * 16 + d)
}

fn parse_string(s: &Vec<char>, i: usize) -> (r: Option<(String, usize)>)
    requires
        i <= s@.len(),
    ensures
        match r {
            Some(p) => str_body(s@, i as int, Seq::empty()) == Some((p.0@, p.1 as int)) && i < p.1
                <= s@.len(),
            None => str_body(s@, i as int, Seq::empty()) is None,
        },
{
    let mut out = String::new();
    let mut cur = i;
    loop
        invariant
            i <= cur <= s@.len(),
            str_body(s@, i as int, Seq::empty()) == str_body(s@, cur as int, out@),
        decreases s@.len() - cur,
    {
        if cur >= s.len() {
            return None;
        }
        let c = s[cur];
        if c == '"' {
            return Some((out, cur + 1));
        } else if c == '\\' {
            if cur + 1 >= s.len() {
                return None;
            }
            let e = s[cur + 1];
            if e == 'u' {
                let cu = match hex4_at(s, cur + 2) {
                    Some(v) => v,
                    None => {
                        return None;
                    },
                };
                if 0xD800 <= cu && cu < 0xDC00 {
                    if s.len() - cur >= 12 && s[cur + 6] == '\\' && s[cur + 7] == 'u' {
                        let lo = match hex4_at(s, cur + 8) {
                            Some(v) => v,
                            None => {
                                return None;
                            },
                        };
                        if 0xDC00 <= lo && lo < 0xE000 {
                            let cp = 0x10000 + (cu - 0xD800) * 0x400 + (lo - 0xDC00);
                            push_char(&mut out, char_of_scalar(cp));
                            cur = cur + 12;
                        } else {
                            return None;
                        }
                    } else {
                        return None;
                    }
                } else if 0xDC00 <= cu && cu < 0xE000 {
                    return None;
                } else {
                    push_char(&mut out, char_of_scalar(cu));
                    cur = cur + 6;
                }
            } else {
                let u: char;
                if e == '"' {
                    u = '"';
                } else if e == '\\' {
                    u = '\\';
                } else if e == '/' {
                    u = '/';
                } else if e == 'n' {
                    u = '\n';
                } else if e == 'r' {
                    u = '\r';
                } else if e == 't' {
                    u = '\t';
                } else if e == 'b' {
                    u = '\u{8}';
                } else if e == 'f' {
                    u = '\u{c}';
                } else {
                    return None;
                }
                push_char(&mut out, u);
                cur = cur + 2;
            }
        } else if (c as u32) < 0x20 {
            return None;
        } else {
            push_char(&mut out, c);
            cur = cur + 1;
        }
    }
}

/// Reads one value starting exactly at `i`; the workhorse of the parser.
fn parse_value(s: &Vec<char>, i: usize) -> (r: Option<(Value, usize)>)
    requires
        i <= s@.len(),
    ensures
        match r {
            Some(p) => g_value(s@, i as int) == Some((p.0@, p.1 as int)) && i < p.1 <= s@.len()
                && wf_value(p.0@),
            None => g_value(s@, i as int) is None,
        },
    decreases s@.len() - i,
{
    if i >= s.len() {
        return None;
    }
    let c = s[i];
    if c == 'n' {
        if s.len() - i >= 4 && s[i + 1] == 'u' && s[i + 2] == 'l' && s[i + 3] == 'l' {
            Some((Value::Null, i + 4))
        } else {
            None
        }
    } else if c == 't' {
        if s.len() - i >= 4 && s[i + 1] == 'r' && s[i + 2] == 'u' && s[i + 3] == 'e' {
            Some((Value::Bool(true), i + 4))
        } else {
            None
        }
    } else if c == 'f' {
        if s.len() - i >= 5 && s[i + 1] == 'a' && s[i + 2] == 'l' && s[i + 3] == 's' && s[i + 4]
            == 'e' {
            Some((Value::Bool(false), i + 5))
        } else {
            None
        }
    } else if c == '"' {
        match parse_string(s, i + 1) {
            Some((t, j)) => Some((Value::Text(t), j)),
            None => None,
        }
    } else if c == '-' || ('0' <= c && c <= '9') {
        match number_span(s, i) {
            Some(e) => {
                let mut lex = String::new();
                let mut k = i;
                while k < e
                    invariant
                        i <= k <= e <= s@.len(),
                        lex@ == s@.subrange(i as int, k as int),
                    decreases e - k,
                {
                    push_char(&mut lex, s[k]);
                    k = k + 1;
                    proof {
                        assert(lex@ =~= s@.subrange(i as int, k as int));
                    }
                }
                proof {
                    lemma_number_sub(s@, i as int, e as int);
                }
                Some((Value::Num(lex), e))
            },
            None => None,
        }
    } else if c == '[' {
        let mut items: Vec<Value> = Vec::new();
        let mut cur = i + 1;
        proof {
            assert(vals_view(items) =~= Seq::<GValue>::empty());
        }
        loop
            invariant
                i < cur <= s@.len(),
                i < s@.len() && s@[i as int] == '[',
                g_elements(s@, i as int + 1, Seq::empty()) == g_elements(
                    s@,
                    cur as int,
                    vals_view(items),
                ),
                forall|t: int| 0 <= t < vals_view(items).len() ==> wf_value(
                    #[trigger] vals_view(items)[t],
                ),
            decreases s@.len() - cur,
        {
            let k = skip_ws(s, cur);
            if items.len() == 0 && k < s.len() && s[k] == ']' {
                proof {
                    assert(vals_view(items).len() == 0);
                }
                proof {
                    assert(wf_value(GValue::Arr(vals_view(items))));
                }
                return Some((Value::Arr(items), k + 1));
            }
            match parse_value(s, k) {
                Some((v, j)) => {
                    let m = skip_ws(s, j);
                    if m < s.len() && s[m] == ',' {
                        let ghost prev = items;
                        let ghost gv = v@;
                        items.push(v);
                        proof {
                            assert(vals_view(items) =~= vals_view(prev).push(gv));
                            assert forall|t: int| 0 <= t < vals_view(items).len() implies wf_value(
                                #[trigger] vals_view(items)[t],
                            ) by {
                                if t < vals_view(prev).len() {
                                    assert(vals_view(items)[t] == vals_view(prev)[t]);
                                    assert(wf_value(vals_view(prev)[t]));
                                } else {
                                    assert(vals_view(items)[t] == gv);
                                }
                            }
                        }
                        cur = m + 1;
                    } else if m < s.len() && s[m] == ']' {
                        let ghost prev = items;
                        let ghost gv = v@;
                        items.push(v);
                        proof {
                            assert(vals_view(items) =~= vals_view(prev).push(gv));
                            assert forall|t: int| 0 <= t < vals_view(items).len() implies wf_value(
                                #[trigger] vals_view(items)[t],
                            ) by {
                                if t < vals_view(prev).len() {
                                    assert(vals_view(items)[t] == vals_view(prev)[t]);
                                    assert(wf_value(vals_view(prev)[t]));
                                } else {
                                    assert(vals_view(items)[t] == gv);
                                }
                            }
                        }
                        proof {
                            assert(wf_value(GValue::Arr(vals_view(items))));
                        }
                        return Some((Value::Arr(items), m + 1));
                    } else {
                        return None;
                    }
                },
                None => {
                    return None;
                },
            }
        }
    } else if c == '{' {
        let mut members: Vec<Member> = Vec::new();
        let mut cur = i + 1;
        proof {
            assert(membs_view(members) =~= Seq::<(Seq<char>, GValue)>::empty());
        }
        loop
            invariant
                i < cur <= s@.len(),
                i < s@.len() && s@[i as int] == '{',
                g_members(s@, i as int + 1, Seq::empty()) == g_members(
                    s@,
                    cur as int,
                    membs_view(members),
                ),
                forall|t: int|
                    0 <= t < membs_view(members).len() ==> wf_value(
                        (#[trigger] membs_view(members)[t]).1,
                    ),
            decreases s@.len() - cur,
        {
            let k = skip_ws(s, cur);
            if members.len() == 0 && k < s.len() && s[k] == '}' {
                proof {
                    assert(membs_view(members).len() == 0);
                }
                proof {
                    assert(wf_value(GValue::Obj(membs_view(members))));
                }
                return Some((Value::Obj(members), k + 1));
            }
            if !(k < s.len() && s[k] == '"') {
                return None;
            }
            match parse_string(s, k + 1) {
                Some((key, a)) => {
                    let b = skip_ws(s, a);
                    if !(b < s.len() && s[b] == ':') {
                        return None;
                    }
                    let c2 = skip_ws(s, b + 1);
                    match parse_value(s, c2) {
                        Some((v, j)) => {
                            let m = skip_ws(s, j);
                            if m < s.len() && s[m] == ',' {
                                let ghost prev = members;
                                let ghost gk = key@;
                                let ghost gv = v@;
                                members.push(Member { key, val: v });
                                proof {
                                    assert(membs_view(members) =~= membs_view(prev).push(
                                        (gk, gv),
                                    ));
                                    assert forall|t: int|
                                        0 <= t < membs_view(members).len() implies wf_value(
                                        (#[trigger] membs_view(members)[t]).1,
                                    ) by {
                                        if t < membs_view(prev).len() {
                                            assert(membs_view(members)[t] == membs_view(prev)[t]);
                                            assert(wf_value(membs_view(prev)[t].1));
                                        } else {
                                            assert(membs_view(members)[t] == (gk, gv));
                                        }
                                    }
                                }
                                cur = m + 1;
                            } else if m < s.len() && s[m] == '}' {
                                let ghost prev = members;
                                let ghost gk = key@;
                                let ghost gv = v@;
                                members.push(Member { key, val: v });
                                proof {
                                    assert(membs_view(members) =~= membs_view(prev).push(
                                        (gk, gv),
                                    ));
                                    assert forall|t: int|
                                        0 <= t < membs_view(members).len() implies wf_value(
                                        (#[trigger] membs_view(members)[t]).1,
                                    ) by {
                                        if t < membs_view(prev).len() {
                                            assert(membs_view(members)[t] == membs_view(prev)[t]);
                                            assert(wf_value(membs_view(prev)[t].1));
                                        } else {
                                            assert(membs_view(members)[t] == (gk, gv));
                                        }
                                    }
                                }
                                proof {
                                    assert(wf_value(GValue::Obj(membs_view(members))));
                                }
                                return Some((Value::Obj(members), m + 1));
                            } else {
                                return None;
                            }
                        },
                        None => {
                            return None;
                        },
                    }
                },
                None => {
                    return None;
                },
            }
        }
    } else {
        None
    }
}

/// Parses one whole message: one value with nothing but whitespace around
/// it. Returns exactly what the grammar `parse_text` denotes.
pub fn parse_text_chars(s: &Vec<char>) -> (r: Option<Value>)
    ensures
        match r {
            Some(v) => parse_text(s@) == Some(v@) && wf_value(v@),
            None => parse_text(s@) is None,
        },
{
    let i = skip_ws(s, 0);
    match parse_value(s, i) {
        Some((v, j)) => {
            let k = skip_ws(s, j);
            if k == s.len() {
                Some(v)
            } else {
                None
            }
        },
        None => None,
    }
}

fn hex_char(d: u32) -> (r: char)
    requires
        d < 16,
    ensures
        r == hex_digit(d as int),
{
    if d == 0 {
        '0'
    } else if d == 1 {
        '1'
    } else if d == 2 {
        '2'
    } else if d == 3 {
        '3'
    } else if d == 4 {
        '4'
    } else if d == 5 {
        '5'
    } else if d == 6 {
        '6'
    } else if d == 7 {
        '7'
    } else if d == 8 {
        '8'
    } else if d == 9 {
        '9'
    } else if d == 10 {
        'a'
    } else if d == 11 {
        'b'
    } else if d == 12 {
        'c'
    } else if d == 13 {
        'd'
    } else if d == 14 {
        'e'
    } else {
        'f'
    }
}

/// Writes a text onto `out`, each character escaped as the canonical
/// form asks.
fn write_escaped(s: &str, out: &mut String)
    ensures
        final(out)@ == old(out)@ + esc_string(s@),
{
    let ghost base = out@;
    let n = s.unicode_len();
    let mut idx: usize = 0;
    proof {
        assert(s@.subrange(0, s@.len() as int) =~= s@);
    }
    while idx < n
        invariant
            idx <= n == s@.len(),
            base + esc_string(s@) == out@ + esc_string(s@.subrange(idx as int, s@.len() as int)),
        decreases n - idx,
    {
        let c = s.get_char(idx);
        let ghost before = out@;
        let ghost rest = s@.subrange(idx as int, s@.len() as int);
        if c == '"' {
            push_char(out, '\\');
            push_char(out, '"');
        } else if c == '\\' {
            push_char(out, '\\');
            push_char(out, '\\');
        } else if c == '\n' {
            push_char(out, '\\');
            push_char(out, 'n');
        } else if c == '\r' {
            push_char(out, '\\');
            push_char(out, 'r');
        } else if c == '\t' {
            push_char(out, '\\');
            push_char(out, 't');
        } else if c == '\u{8}' {
            push_char(out, '\\');
            push_char(out, 'b');
        } else if c == '\u{c}' {
            push_char(out, '\\');
            push_char(out, 'f');
        } else if (c as u32) < 0x20 {
            let v = c as u32;
            push_char(out, '\\');
            push_char(out, 'u');
            push_char(out, '0');
            push_char(out, '0');
            push_char(out, hex_char(v / 16));
            push_char(out, hex_char(v % 16));
        } else {
            push_char(out, c);
        }
        proof {
            assert(out@ =~= before + esc_char(c));
            assert(rest[0] == c);
            assert(rest.subrange(1, rest.len() as int) =~= s@.subrange(
                idx + 1,
                s@.len() as int,
            ));
            assert(esc_string(rest) == esc_char(c) + esc_string(
                s@.subrange(idx + 1, s@.len() as int),
            ));
            assert(before + esc_string(rest) =~= out@ + esc_string(
                s@.subrange(idx + 1, s@.len() as int),
            ));
        }
        idx = idx + 1;
    }
    proof {
        assert(s@.subrange(idx as int, s@.len() as int) =~= Seq::<char>::empty());
        assert(esc_string(Seq::<char>::empty()) == Seq::<char>::empty());
        assert(base + esc_string(s@) =~= out@);
    }
}

/// Writes the canonical text of one value onto `out`.
fn write_value(v: &Value, out: &mut String)
    ensures
        final(out)@ == old(out)@ + enc_value(v@),
    decreases v, 1int, 0int,
{
    let ghost base = out@;
    match v {
        Value::Null => {
            out.append("null");
            proof {
                reveal_strlit("null");
                assert(out@ =~= base + enc_value(GValue::Null));
            }
        },
        Value::Bool(b) => {
            if *b {
                out.append("true");
                proof {
                    reveal_strlit("true");
                    assert(out@ =~= base + enc_value(GValue::Bool(true)));
                }
            } else {
                out.append("false");
                proof {
                    reveal_strlit("false");
                    assert(out@ =~= base + enc_value(GValue::Bool(false)));
                }
            }
        },
        Value::Num(lex) => {
            out.append(lex.as_str());
        },
        Value::Text(t) => {
            push_char(out, '"');
            write_escaped(t.as_str(), out);
            push_char(out, '"');
            proof {
                assert(out@ =~= base + (seq!['"'] + esc_string(t@) + seq!['"']));
            }
        },
        Value::Arr(items) => {
            push_char(out, '[');
            write_items(items, 0, out);
            push_char(out, ']');
            proof {
                assert(out@ =~= base + (seq!['['] + enc_items(vals_view(*items), 0) + seq![
                    ']',
                ]));
            }
        },
        Value::Obj(members) => {
            push_char(out, '{');
            write_members(members, 0, out);
            push_char(out, '}');
            proof {
                assert(out@ =~= base + (seq!['{'] + enc_members(membs_view(*members), 0) + seq![
                    '}',
                ]));
            }
        },
    }
}

fn write_items(items: &Vec<Value>, i: usize, out: &mut String)
    requires
        i <= items@.len(),
    ensures
        final(out)@ == old(out)@ + enc_items(vals_view(*items), i as int),
    decreases items, 0int, items@.len() - i,
{
    let ghost base = out@;
    if i < items.len() {
        write_value(&items[i], out);
        proof {
            assert(vals_view(*items)[i as int] == items@[i as int]@);
        }
        if i + 1 < items.len() {
            push_char(out, ',');
            let ghost mid = out@;
            write_items(items, i + 1, out);
            proof {
                assert(out@ =~= base + (enc_value(vals_view(*items)[i as int]) + seq![',']
                    + enc_items(vals_view(*items), i as int + 1)));
            }
        }
    } else {
        proof {
            assert(out@ =~= base + enc_items(vals_view(*items), i as int));
        }
    }
}

fn write_members(members: &Vec<Member>, i: usize, out: &mut String)
    requires
        i <= members@.len(),
    ensures
        final(out)@ == old(out)@ + enc_members(membs_view(*members), i as int),
    decreases members, 0int, members@.len() - i,
{
    let ghost base = out@;
    if i < members.len() {
        push_char(out, '"');
        write_escaped(members[i].key.as_str(), out);
        push_char(out, '"');
        push_char(out, ':');
        write_value(&members[i].val, out);
        proof {
            assert(membs_view(*members)[i as int] == (
                members@[i as int].key@,
                members@[i as int].val@,
            ));
            assert(out@ =~= base + (seq!['"'] + esc_string(membs_view(*members)[i as int].0)
                + seq!['"', ':'] + enc_value(membs_view(*members)[i as int].1)));
        }
        if i + 1 < members.len() {
            push_char(out, ',');
            let ghost mid = out@;
            write_members(members, i + 1, out);
            proof {
                assert(out@ =~= base + ((seq!['"'] + esc_string(
                    membs_view(*members)[i as int].0,
                ) + seq!['"', ':'] + enc_value(membs_view(*members)[i as int].1)) + seq![',']
                    + enc_members(membs_view(*members), i as int + 1)));
            }
        }
    } else {
        proof {
            assert(out@ =~= base + enc_members(membs_view(*members), i as int));
        }
    }
}

/// The canonical text of a value: exactly what `enc_value` denotes.
pub fn to_text(v: &Value) -> (r: String)
    ensures
        r@ == enc_value(v@),
{
    let mut out = String::new();
    write_value(v, &mut out);
    proof {
        assert(out@ =~= enc_value(v@));
    }
    out
}

} // verus!
