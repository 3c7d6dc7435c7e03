//! Structured wire values.
//!
//! Payloads and streamed items are trees of structured values: null,
//! booleans, numbers, text, arrays and ordered key/value objects. Numbers
//! are carried as their wire lexeme, so any number a client sends travels
//! through the protocol unchanged.
//!
//! `Value` is the executable tree; `GValue` is its mathematical shadow,
//! used by every contract in the crate. `enc_value` is the canonical text
//! of a value: exactly the fields given, no extra whitespace.

use vstd::prelude::*;

verus! {

broadcast use vstd::std_specs::vec::axiom_vec_index_decreases, vstd::seq::axiom_seq_index_decreases;

/// One member of a structured object: a key and the value under it.
#[derive(Debug, PartialEq)]
pub struct Member {
    pub key: String,
    pub val: Value,
}

/// A structured wire value. Objects keep their members in wire order;
/// duplicate keys are kept, and lookups take the first occurrence.
#[derive(Debug, PartialEq)]
pub enum Value {
    Null,
    Bool(bool),
    /// A number, carried as its wire lexeme (for example `-12.5e3`).
    Num(String),
    Text(String),
    Arr(Vec<Value>),
    Obj(Vec<Member>),
}

/// The mathematical shadow of `Value`: the same tree over `Seq<char>`.
#[verifier::ext_equal]
pub enum GValue {
    Null,
    Bool(bool),
    Num(Seq<char>),
    Text(Seq<char>),
    Arr(Seq<GValue>),
    Obj(Seq<(Seq<char>, GValue)>),
}

/// The view of a list of values, element by element.
pub open spec fn vals_view(items: Vec<Value>) -> Seq<GValue>
    decreases items, 0int,
{
    Seq::new(
        items@.len(),
        |i: int|
            if 0 <= i < items@.len() {
                items@[i]@
            } else {
                GValue::Null
            },
    )
}

/// The view of a list of members, member by member.
pub open spec fn membs_view(members: Vec<Member>) -> Seq<(Seq<char>, GValue)>
    decreases members, 0int,
{
    Seq::new(
        members@.len(),
        |i: int|
            if 0 <= i < members@.len() {
                (members@[i].key@, members@[i].val@)
            } else {
                (Seq::empty(), GValue::Null)
            },
    )
}

impl View for Value {
    type V = GValue;

    open spec fn view(&self) -> GValue
        decreases self, 1int,
    {
        match self {
            Value::Null => GValue::Null,
            Value::Bool(b) => GValue::Bool(*b),
            Value::Num(s) => GValue::Num(s@),
            Value::Text(s) => GValue::Text(s@),
            Value::Arr(items) => GValue::Arr(vals_view(*items)),
            Value::Obj(members) => GValue::Obj(membs_view(*members)),
        }
    }
}

pub open spec fn is_digit(c: char) -> bool {
    '0' <= c && c <= '9'
}

/// Index of the first non-digit at or after `i`.
pub open spec fn digits_end(s: Seq<char>, i: int) -> int
    decreases s.len() - i when 0 <= i <= s.len()
{
    if i < s.len() && is_digit(s[i]) {
        digits_end(s, i + 1)
    } else {
        i
    }
}

/// Where the number starting at `i` ends, if a number starts there.
/// The shape is `-? (0 | [1-9][0-9]*) (. [0-9]+)? ([eE] [+-]? [0-9]+)?`.
pub open spec fn number_end(s: Seq<char>, i: int) -> Option<int> {
    let a = if i < s.len() && s[i] == '-' {
        i + 1
    } else {
        i
    };
    if a < s.len() && is_digit(s[a]) {
        let b = if s[a] == '0' {
            a + 1
        } else {
            digits_end(s, a)
        };
        let c = if b < s.len() && s[b] == '.' {
            if b + 1 < s.len() && is_digit(s[b + 1]) {
                digits_end(s, b + 1)
            } else {
                -1
            }
        } else {
            b
        };
        if c < 0 {
            None
        } else {
            let d = if c < s.len() && (s[c] == 'e' || s[c] == 'E') {
                let e = if c + 1 < s.len() && (s[c + 1] == '+' || s[c + 1] == '-') {
                    c + 2
                } else {
                    c + 1
                };
                if e < s.len() && is_digit(s[e]) {
                    digits_end(s, e)
                } else {
                    -1
                }
            } else {
                c
            };
            if d < 0 {
                None
            } else {
                Some(d)
            }
        }
    } else {
        None
    }
}

/// A number lexeme is exactly one number, nothing before or after it.
pub open spec fn is_number_lexeme(s: Seq<char>) -> bool {
    number_end(s, 0) == Some(s.len() as int)
}

/// A well-formed value: number lexemes follow the number shape,
/// throughout the tree.
pub open spec fn wf_value(v: GValue) -> bool
    decreases v,
{
    match v {
        GValue::Null => true,
        GValue::Bool(_) => true,
        GValue::Num(lex) => is_number_lexeme(lex),
        GValue::Text(_) => true,
        GValue::Arr(items) => forall|i: int|
            0 <= i < items.len() ==> wf_value(#[trigger] items[i]),
        GValue::Obj(members) => forall|i: int|
            0 <= i < members.len() ==> wf_value((#[trigger] members[i]).1),
    }
}

/// One hexadecimal digit, lower case.
pub open spec fn hex_digit(d: int) -> char {
    if d == 0 {
        '0'
    } else if d == 1 {
        '1'
    } else if d == 2 {
        '2'
    } else if d == 3 {
        '3'
    } else if d == 4 {
        '4'
    } else if d == 5 {
        '5'
    } else if d == 6 {
        '6'
    } else if d == 7 {
        '7'
    } else if d == 8 {
        '8'
    } else if d == 9 {
        '9'
    } else if d == 10 {
        'a'
    } else if d == 11 {
        'b'
    } else if d == 12 {
        'c'
    } else if d == 13 {
        'd'
    } else if d == 14 {
        'e'
    } else {
        'f'
    }
}

/// How one character of text is written: the quote, the backslash and
/// five control characters get their short escapes, every other control
/// character a `\u00..` escape, and everything else is written as
/// itself.
pub open spec fn esc_char(c: char) -> Seq<char> {
    if c == '"' {
        seq!['\\', '"']
    } else if c == '\\' {
        seq!['\\', '\\']
    } else if c == '\n' {
        seq!['\\', 'n']
    } else if c == '\r' {
        seq!['\\', 'r']
    } else if c == '\t' {
        seq!['\\', 't']
    } else if c == '\u{8}' {
        seq!['\\', 'b']
    } else if c == '\u{c}' {
        seq!['\\', 'f']
    } else if (c as u32) < 0x20 {
        seq!['\\', 'u', '0', '0', hex_digit(c as u32 as int / 16), hex_digit(
            c as u32 as int % 16,
        )]
    } else {
        seq![c]
    }
}

pub open spec fn esc_string(s: Seq<char>) -> Seq<char>
    decreases s.len(),
{
    if s.len() == 0 {
        Seq::empty()
    } else {
        esc_char(s[0]) + esc_string(s.subrange(1, s.len() as int))
    }
}

/// The canonical text of a value: exactly the given members in order, no
/// whitespace.
pub open spec fn enc_value(v: GValue) -> Seq<char>
    decreases v, 0int,
{
    match v {
        GValue::Null => seq!['n', 'u', 'l', 'l'],
        GValue::Bool(b) => if b {
            seq!['t', 'r', 'u', 'e']
        } else {
            seq!['f', 'a', 'l', 's', 'e']
        },
        GValue::Num(lex) => lex,
        GValue::Text(s) => seq!['"'] + esc_string(s) + seq!['"'],
        GValue::Arr(items) => seq!['['] + enc_items(items, 0) + seq![']'],
        GValue::Obj(members) => seq!['{'] + enc_members(members, 0) + seq!['}'],
    }
}

pub open spec fn enc_items(items: Seq<GValue>, i: int) -> Seq<char>
    decreases items, items.len() - i when 0 <= i
{
    if i >= items.len() {
        Seq::empty()
    } else if i == items.len() - 1 {
        enc_value(items[i])
    } else {
        enc_value(items[i]) + seq![','] + enc_items(items, i + 1)
    }
}

pub open spec fn enc_members(members: Seq<(Seq<char>, GValue)>, i: int) -> Seq<char>
    decreases members, members.len() - i when 0 <= i
{
    if i >= members.len() {
        Seq::empty()
    } else {
        let one = seq!['"'] + esc_string(members[i].0) + seq!['"', ':'] + enc_value(
            members[i].1,
        );
        if i == members.len() - 1 {
            one
        } else {
            one + seq![','] + enc_members(members, i + 1)
        }
    }
}

} // verus!
