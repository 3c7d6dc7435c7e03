//! The round-trip law: the canonical text of a well-formed value parses
//! back to that value, and an encoded request decodes to the request it
//! was built from.

use vstd::prelude::*;

use crate::codec::{spec_decode, GError, GInput, GRequest, request_tree};
use crate::json::{
    g_elements, g_members, g_value, hex4, hex_val, is_ws, lemma_digits_ge, parse_text, str_body,
    unesc, ws_end,
};
use crate::value::{
    digits_end, enc_items, enc_members, enc_value, esc_char, esc_string, hex_digit, is_digit,
    is_number_lexeme, number_end, wf_value, GValue,
};

verus! {

broadcast use vstd::seq::axiom_seq_index_decreases, vstd::utf8::char_u32_cast;

/// A character that may follow a complete value in a message: a
/// separator, a closer, or the end of the text.
pub open spec fn safe_after(s: Seq<char>, j: int) -> bool {
    j == s.len() || s[j] == ',' || s[j] == ']' || s[j] == '}'
}

/// The canonical text of a well-formed value is never empty, and its
/// first character opens a value: no whitespace, no closer, no colon.
proof fn lemma_enc_head(v: GValue)
    requires
        wf_value(v),
    ensures
        enc_value(v).len() > 0,
        !is_ws(enc_value(v)[0]),
        enc_value(v)[0] != ']',
        enc_value(v)[0] != '}',
        enc_value(v)[0] != ',',
        enc_value(v)[0] != ':',
{
    match v {
        GValue::Num(lex) => {
            assert(number_end(lex, 0) == Some(lex.len() as int));
            assert(lex.len() > 0);
            if lex[0] != '-' {
                assert(is_digit(lex[0]));
            }
        },
        _ => {},
    }
}

proof fn lemma_digits_lift(s: Seq<char>, lo: int, hi: int, x: int)
    requires
        0 <= lo <= x <= hi <= s.len(),
        hi == s.len() || !is_digit(s[hi]),
    ensures
        digits_end(s, x) == lo + digits_end(s.subrange(lo, hi), x - lo),
    decreases hi - x,
{
    let t = s.subrange(lo, hi);
    if x < hi {
        assert(t[x - lo] == s[x]);
    }
    if x < hi && is_digit(s[x]) {
        lemma_digits_lift(s, lo, hi, x + 1);
    } else if x == hi {
        assert(digits_end(t, x - lo) == x - lo);
    }
}

/// A number lexeme embedded in a longer text, with no number-continuing
/// character after it, scans to exactly its own end.
proof fn lemma_number_lift(s: Seq<char>, i: int, lex: Seq<char>)
    requires
        0 <= i,
        i + lex.len() <= s.len(),
        is_number_lexeme(lex),
        s.subrange(i, i + lex.len() as int) == lex,
        i + lex.len() == s.len() || !(is_digit(s[i + lex.len()]) || s[i + lex.len()] == '.' || s[
            i + lex.len()
        ] == 'e' || s[i + lex.len()] == 'E'),
    ensures
        number_end(s, i) == Some(i + lex.len()),
{
    let n = lex.len() as int;
    let hi = i + n;
    assert(number_end(lex, 0) == Some(n));
    assert(forall|k: int| 0 <= k < n ==> s[i + k] == #[trigger] lex[k]) by {
        assert(forall|k: int| 0 <= k < n ==> #[trigger] lex[k] == s.subrange(i, hi)[k]);
    }
    assert(hi == s.len() || !is_digit(s[hi]));
    let a_l = if 0 < n && lex[0] == '-' {
        1int
    } else {
        0int
    };
    assert(a_l < n && is_digit(lex[a_l]));
    assert(s[i + a_l] == lex[a_l]);
    let b_l = if lex[a_l] == '0' {
        a_l + 1
    } else {
        digits_end(lex, a_l)
    };
    lemma_digits_ge(lex, a_l);
    if lex[a_l] != '0' {
        lemma_digits_lift(s, i, hi, i + a_l);
    }
    if b_l < n {
        assert(s[i + b_l] == lex[b_l]);
    }
    let c_l = if b_l < n && lex[b_l] == '.' {
        if b_l + 1 < n && is_digit(lex[b_l + 1]) {
            digits_end(lex, b_l + 1)
        } else {
            -1
        }
    } else {
        b_l
    };
    assert(c_l >= 0);
    if b_l < n && lex[b_l] == '.' {
        assert(s[i + b_l + 1] == lex[b_l + 1]);
        lemma_digits_lift(s, i, hi, i + b_l + 1);
        lemma_digits_ge(lex, b_l + 1);
    }
    if c_l < n {
        assert(s[i + c_l] == lex[c_l]);
    }
    if c_l < n && (lex[c_l] == 'e' || lex[c_l] == 'E') {
        let e_l = if c_l + 1 < n && (lex[c_l + 1] == '+' || lex[c_l + 1] == '-') {
            c_l + 2
        } else {
            c_l + 1
        };
        if c_l + 1 < n {
            assert(s[i + c_l + 1] == lex[c_l + 1]);
        }
        assert(e_l < n && is_digit(lex[e_l]));
        assert(s[i + e_l] == lex[e_l]);
        lemma_digits_lift(s, i, hi, i + e_l);
        lemma_digits_ge(lex, e_l);
    }
    assert(number_end(s, i) == Some(hi));
}

proof fn lemma_hex_of_digit(d: int)
    requires
        0 <= d < 16,
    ensures
        hex_val(hex_digit(d)) == d,
{
}

/// Escaped text embedded in a longer message, closed by a quote, reads
/// back as the text it encodes.
#[verifier::rlimit(30)]
proof fn lemma_str_body_lift(s: Seq<char>, i: int, t: Seq<char>, acc: Seq<char>)
    requires
        0 <= i,
        i + esc_string(t).len() + 1 <= s.len(),
        s.subrange(i, i + esc_string(t).len() as int) == esc_string(t),
        s[i + esc_string(t).len()] == '"',
    ensures
        str_body(s, i, acc) == Some((acc + t, i + esc_string(t).len() + 1)),
    decreases t.len(),
{
    let esc = esc_string(t);
    let hi = i + esc.len() as int;
    if t.len() == 0 {
        assert(s[i] == '"');
        assert(acc + t =~= acc);
    } else {
        let c = t[0];
        let rest = t.subrange(1, t.len() as int);
        let ec = esc_char(c);
        let er = esc_string(rest);
        assert(esc == ec + er);
        let ci = i + ec.len() as int;
        assert(s.subrange(ci, hi) == er) by {
            assert forall|x: int| 0 <= x < er.len() implies #[trigger] s.subrange(ci, hi)[x]
                == er[x] by {
                assert(s.subrange(ci, hi)[x] == s[ci + x]);
                assert(s.subrange(i, hi)[ec.len() + x] == s[i + (ec.len() + x)]);
                assert((ec + er)[ec.len() + x] == er[x]);
            }
            assert(s.subrange(ci, hi) =~= er);
        }
        assert(s[hi] == '"');
        assert(s[i] == ec[0]) by {
            assert(s.subrange(i, hi)[0] == s[i]);
            assert((ec + er)[0] == ec[0]);
        }
        if c == '"' || c == '\\' || c == '\n' || c == '\r' || c == '\t' || c == '\u{8}' || c
            == '\u{c}' {
            assert(ec.len() == 2 && ec[0] == '\\');
            assert(s[i + 1] == ec[1]) by {
                assert(s.subrange(i, hi)[1] == s[i + 1]);
                assert((ec + er)[1] == ec[1]);
            }
            assert(ec[1] != 'u');
            assert(unesc(ec[1]) == Some(c));
            lemma_str_body_lift(s, i + 2, rest, acc.push(c));
            assert(acc.push(c) + rest =~= acc + t);
        } else if (c as u32) < 0x20 {
            let v = c as u32 as int;
            assert(ec == seq!['\\', 'u', '0', '0', hex_digit(v / 16), hex_digit(v % 16)]);
            assert forall|k: int| 0 <= k < 6 implies s[i + k] == #[trigger] ec[k] by {
                assert(s.subrange(i, hi)[k] == s[i + k]);
                assert((ec + er)[k] == ec[k]);
            }
            assert(s[i + 1] == 'u');
            assert(0 <= v / 16 < 2 && 0 <= v % 16 < 16);
            assert(hex_val(s[i + 2]) == 0 && hex_val(s[i + 3]) == 0);
            lemma_hex_of_digit(v / 16);
            lemma_hex_of_digit(v % 16);
            assert(i + 2 + 4 <= s.len());
            assert(hex4(s, i + 2) == (v / 16) * 16 + v % 16);
            assert(hex4(s, i + 2) == v);
            assert(0 <= v < 0x20);
            assert(((v as u32) as char) == c) by {
                vstd::utf8::char_u32_cast(c, v as u32);
            }
            lemma_str_body_lift(s, i + 6, rest, acc.push(c));
            assert(acc.push(c) + rest =~= acc + t);
        } else {
            assert(ec =~= seq![c]);
            assert(s[i] == c);
            assert((c as u32) >= 0x20);
            assert(s[i] != '"' && s[i] != '\\');
            lemma_str_body_lift(s, i + 1, rest, acc.push(c));
            assert(acc.push(c) + rest =~= acc + t);
        }
    }
}

/// The canonical text of a well-formed value, embedded in a message and
/// followed by a separator, a closer or the end, parses back to exactly
/// that value.
pub proof fn lemma_parse_enc(v: GValue, s: Seq<char>, i: int)
    requires
        wf_value(v),
        0 <= i,
        i + enc_value(v).len() <= s.len(),
        s.subrange(i, i + enc_value(v).len() as int) == enc_value(v),
        safe_after(s, i + enc_value(v).len()),
    ensures
        g_value(s, i) == Some((v, i + enc_value(v).len())),
    decreases v, 0int,
{
    lemma_enc_head(v);
    let e = enc_value(v);
    let hi = i + e.len() as int;
    assert(forall|k: int| 0 <= k < e.len() ==> s[i + k] == #[trigger] e[k]) by {
        assert(forall|k: int| 0 <= k < e.len() ==> #[trigger] e[k] == s.subrange(i, hi)[k]);
    }
    match v {
        GValue::Null => {
            assert(e[0] == 'n' && e[1] == 'u' && e[2] == 'l' && e[3] == 'l');
            assert(s[i] == 'n' && s[i + 1] == 'u' && s[i + 2] == 'l' && s[i + 3] == 'l');
        },
        GValue::Bool(b) => {
            if b {
                assert(e[0] == 't' && e[1] == 'r' && e[2] == 'u' && e[3] == 'e');
                assert(s[i] == 't' && s[i + 1] == 'r' && s[i + 2] == 'u' && s[i + 3] == 'e');
            } else {
                assert(e[0] == 'f' && e[1] == 'a' && e[2] == 'l' && e[3] == 's' && e[4] == 'e');
                assert(s[i] == 'f' && s[i + 1] == 'a' && s[i + 2] == 'l' && s[i + 3] == 's' && s[
                    i + 4
                ] == 'e');
            }
        },
        GValue::Num(lex) => {
            assert(e[0] == lex[0]);
            assert(s[i] == lex[0]);
            assert(lex[0] == '-' || is_digit(lex[0]));
            assert(s[i] != 'n' && s[i] != 't' && s[i] != 'f' && s[i] != '"');
            lemma_number_lift(s, i, lex);
            assert(s.subrange(i, i + lex.len() as int) =~= lex);
        },
        GValue::Text(t) => {
            assert(e[0] == '"');
            assert(s[i] == '"');
            let esc = esc_string(t);
            assert(s.subrange(i + 1, i + 1 + esc.len() as int) == esc) by {
                assert forall|x: int| 0 <= x < esc.len() implies #[trigger] s.subrange(
                    i + 1,
                    i + 1 + esc.len() as int,
                )[x] == esc[x] by {
                    assert(s.subrange(i + 1, i + 1 + esc.len() as int)[x] == s[i + 1 + x]);
                    assert(s[i + (1 + x)] == e[1 + x]);
                    assert((seq!['"'] + esc + seq!['"'])[1 + x] == esc[x]);
                }
                assert(s.subrange(i + 1, i + 1 + esc.len() as int) =~= esc);
            }
            assert(s[i + 1 + esc.len()] == '"') by {
                assert((seq!['"'] + esc + seq!['"'])[1 + esc.len() as int] == '"');
            }
            lemma_str_body_lift(s, i + 1, t, Seq::empty());
            assert(Seq::empty() + t =~= t);
        },
        GValue::Arr(items) => {
            assert(e[0] == '[');
            assert(s[i] == '[');
            let body = enc_items(items, 0);
            assert(e == seq!['['] + body + seq![']']);
            assert(s[i + 1 + body.len()] == ']') by {
                assert((seq!['['] + body + seq![']'])[1 + body.len() as int] == ']');
            }
            if items.len() == 0 {
                assert(body.len() == 0);
                assert(s[i + 1] == ']');
                assert(ws_end(s, i + 1) == i + 1);
                assert(g_elements(s, i + 1, Seq::empty()) == Some((
                    Seq::<GValue>::empty(),
                    i + 2,
                )));
                assert(items =~= Seq::<GValue>::empty());
            } else {
                assert(s.subrange(i + 1, i + 1 + body.len() as int) == body) by {
                    assert forall|x: int| 0 <= x < body.len() implies #[trigger] s.subrange(
                        i + 1,
                        i + 1 + body.len() as int,
                    )[x] == body[x] by {
                        assert(s.subrange(i + 1, i + 1 + body.len() as int)[x] == s[i + 1 + x]);
                        assert(s[i + (1 + x)] == e[1 + x]);
                        assert((seq!['['] + body + seq![']'])[1 + x] == body[x]);
                    }
                    assert(s.subrange(i + 1, i + 1 + body.len() as int) =~= body);
                }
                lemma_parse_enc_items(items, 0, s, i + 1, Seq::empty());
                assert(Seq::empty() + items.subrange(0, items.len() as int) =~= items);
            }
            assert(g_value(s, i) == Some((v, i + e.len())));
        },
        GValue::Obj(members) => {
            assert(e[0] == '{');
            assert(s[i] == '{');
            let body = enc_members(members, 0);
            assert(e == seq!['{'] + body + seq!['}']);
            assert(s[i + 1 + body.len()] == '}') by {
                assert((seq!['{'] + body + seq!['}'])[1 + body.len() as int] == '}');
            }
            if members.len() == 0 {
                assert(body.len() == 0);
                assert(s[i + 1] == '}');
                assert(ws_end(s, i + 1) == i + 1);
                assert(g_members(s, i + 1, Seq::empty()) == Some((
                    Seq::<(Seq<char>, GValue)>::empty(),
                    i + 2,
                )));
                assert(members =~= Seq::<(Seq<char>, GValue)>::empty());
            } else {
                assert(s.subrange(i + 1, i + 1 + body.len() as int) == body) by {
                    assert forall|x: int| 0 <= x < body.len() implies #[trigger] s.subrange(
                        i + 1,
                        i + 1 + body.len() as int,
                    )[x] == body[x] by {
                        assert(s.subrange(i + 1, i + 1 + body.len() as int)[x] == s[i + 1 + x]);
                        assert(s[i + (1 + x)] == e[1 + x]);
                        assert((seq!['{'] + body + seq!['}'])[1 + x] == body[x]);
                    }
                    assert(s.subrange(i + 1, i + 1 + body.len() as int) =~= body);
                }
                lemma_parse_enc_members(members, 0, s, i + 1, Seq::empty());
                assert(Seq::empty() + members.subrange(0, members.len() as int) =~= members);
            }
            assert(g_value(s, i) == Some((v, i + e.len())));
        },
    }
}

/// One step of the array law: the remaining elements, written from `k`
/// on and closed by `]`, are read onto what was already read.
proof fn lemma_parse_enc_items(
    items: Seq<GValue>,
    k: int,
    s: Seq<char>,
    i: int,
    acc: Seq<GValue>,
)
    requires
        0 <= k < items.len(),
        forall|t: int| 0 <= t < items.len() ==> wf_value(#[trigger] items[t]),
        0 <= i,
        i + enc_items(items, k).len() + 1 <= s.len(),
        s.subrange(i, i + enc_items(items, k).len() as int) == enc_items(items, k),
        s[i + enc_items(items, k).len()] == ']',
        safe_after(s, i + enc_items(items, k).len() + 1),
    ensures
        g_elements(s, i, acc) == Some((
            acc + items.subrange(k, items.len() as int),
            i + enc_items(items, k).len() + 1,
        )),
    decreases items, items.len() - k,
{
    let eik = enc_items(items, k);
    let hi = i + eik.len() as int;
    let ev = enc_value(items[k]);
    lemma_enc_head(items[k]);
    assert(s.subrange(i, i + ev.len() as int) == ev) by {
        assert forall|x: int| 0 <= x < ev.len() implies #[trigger] s.subrange(
            i,
            i + ev.len() as int,
        )[x] == ev[x] by {
            assert(s.subrange(i, i + ev.len() as int)[x] == s[i + x]);
            assert(s.subrange(i, hi)[x] == s[i + x]);
            if k < items.len() - 1 {
                assert((ev + seq![','] + enc_items(items, k + 1))[x] == ev[x]);
            }
        }
        assert(s.subrange(i, i + ev.len() as int) =~= ev);
    }
    assert(s[i] == ev[0]) by {
        assert(s.subrange(i, i + ev.len() as int)[0] == s[i]);
    }
    assert(ws_end(s, i) == i);
    assert(s[i] != ']');
    let j = i + ev.len() as int;
    if k == items.len() - 1 {
        assert(eik == ev);
        lemma_parse_enc(items[k], s, i);
        assert(s[j] == ']');
        assert(ws_end(s, j) == j);
        assert(s[j] != ',');
        assert(acc.push(items[k]) =~= acc + items.subrange(k, items.len() as int));
    } else {
        let rest = enc_items(items, k + 1);
        assert(eik == ev + seq![','] + rest);
        assert(s[j] == ',') by {
            assert(s.subrange(i, hi)[ev.len() as int] == s[i + ev.len()]);
            assert((ev + seq![','] + rest)[ev.len() as int] == ',');
        }
        lemma_parse_enc(items[k], s, i);
        assert(ws_end(s, j) == j);
        assert(s.subrange(j + 1, j + 1 + rest.len() as int) == rest) by {
            assert forall|x: int| 0 <= x < rest.len() implies #[trigger] s.subrange(
                j + 1,
                j + 1 + rest.len() as int,
            )[x] == rest[x] by {
                assert(s.subrange(j + 1, j + 1 + rest.len() as int)[x] == s[j + 1 + x]);
                assert(s.subrange(i, hi)[ev.len() + 1 + x] == s[i + (ev.len() + 1 + x)]);
                assert((ev + seq![','] + rest)[ev.len() + 1 + x] == rest[x]);
            }
            assert(s.subrange(j + 1, j + 1 + rest.len() as int) =~= rest);
        }
        assert(s[j + 1 + rest.len()] == ']');
        lemma_parse_enc_items(items, k + 1, s, j + 1, acc.push(items[k]));
        assert(acc.push(items[k]) + items.subrange(k + 1, items.len() as int) =~= acc
            + items.subrange(k, items.len() as int));
    }
}

/// One step of the object law: the remaining members, written from `k`
/// on and closed by `}`, are read onto what was already read.
proof fn lemma_parse_enc_members(
    members: Seq<(Seq<char>, GValue)>,
    k: int,
    s: Seq<char>,
    i: int,
    acc: Seq<(Seq<char>, GValue)>,
)
    requires
        0 <= k < members.len(),
        forall|t: int| 0 <= t < members.len() ==> wf_value((#[trigger] members[t]).1),
        0 <= i,
        i + enc_members(members, k).len() + 1 <= s.len(),
        s.subrange(i, i + enc_members(members, k).len() as int) == enc_members(members, k),
        s[i + enc_members(members, k).len()] == '}',
        safe_after(s, i + enc_members(members, k).len() + 1),
    ensures
        g_members(s, i, acc) == Some((
            acc + members.subrange(k, members.len() as int),
            i + enc_members(members, k).len() + 1,
        )),
    decreases members, members.len() - k,
{
    let emk = enc_members(members, k);
    let hi = i + emk.len() as int;
    let key = members[k].0;
    let ev = enc_value(members[k].1);
    let esc = esc_string(key);
    let one = seq!['"'] + esc + seq!['"', ':'] + ev;
    lemma_enc_head(members[k].1);
    if k == members.len() - 1 {
        assert(emk == one);
    } else {
        assert(emk == one + seq![','] + enc_members(members, k + 1));
    }
    assert(forall|x: int| 0 <= x < one.len() ==> s[i + x] == #[trigger] one[x]) by {
        assert forall|x: int| 0 <= x < one.len() implies s[i + x] == #[trigger] one[x] by {
            assert(s.subrange(i, hi)[x] == s[i + x]);
            if k < members.len() - 1 {
                assert((one + seq![','] + enc_members(members, k + 1))[x] == one[x]);
            }
        }
    }
    assert(s[i] == '"') by {
        assert(one[0] == '"');
    }
    assert(ws_end(s, i) == i);
    let kq = i + 1 + esc.len() as int;
    assert(s.subrange(i + 1, kq) == esc) by {
        assert forall|x: int| 0 <= x < esc.len() implies #[trigger] s.subrange(i + 1, kq)[x]
            == esc[x] by {
            assert(s.subrange(i + 1, kq)[x] == s[i + 1 + x]);
            assert(s[i + (1 + x)] == one[1 + x]);
            assert((seq!['"'] + esc + seq!['"', ':'] + ev)[1 + x] == esc[x]);
        }
        assert(s.subrange(i + 1, kq) =~= esc);
    }
    assert(s[kq] == '"') by {
        assert(s[i + (1 + esc.len())] == one[1 + esc.len() as int]);
        assert((seq!['"'] + esc + seq!['"', ':'] + ev)[1 + esc.len() as int] == '"');
    }
    lemma_str_body_lift(s, i + 1, key, Seq::empty());
    assert(Seq::empty() + key =~= key);
    assert(s[kq + 1] == ':') by {
        assert(s[i + (2 + esc.len())] == one[2 + esc.len() as int]);
        assert((seq!['"'] + esc + seq!['"', ':'] + ev)[2 + esc.len() as int] == ':');
    }
    let vi = kq + 2;
    assert(s[vi] == ev[0]) by {
        assert(s[i + (3 + esc.len())] == one[3 + esc.len() as int]);
        assert((seq!['"'] + esc + seq!['"', ':'] + ev)[3 + esc.len() as int] == ev[0]);
    }
    assert(ws_end(s, kq + 2) == kq + 2);
    assert(s.subrange(vi, vi + ev.len() as int) == ev) by {
        assert forall|x: int| 0 <= x < ev.len() implies #[trigger] s.subrange(
            vi,
            vi + ev.len() as int,
        )[x] == ev[x] by {
            assert(s.subrange(vi, vi + ev.len() as int)[x] == s[vi + x]);
            assert(s[i + (3 + esc.len() + x)] == one[3 + esc.len() + x]);
            assert((seq!['"'] + esc + seq!['"', ':'] + ev)[3 + esc.len() + x] == ev[x]);
        }
        assert(s.subrange(vi, vi + ev.len() as int) =~= ev);
    }
    let j = vi + ev.len() as int;
    assert(j == i + one.len());
    if k == members.len() - 1 {
        assert(s[j] == '}');
        lemma_parse_enc(members[k].1, s, vi);
        assert(ws_end(s, j) == j);
        assert(s[j] != ',');
        assert(acc.push((key, members[k].1)) == acc.push(members[k]));
        assert(acc.push(members[k]) =~= acc + members.subrange(k, members.len() as int));
    } else {
        let rest = enc_members(members, k + 1);
        assert(s[j] == ',') by {
            assert(s.subrange(i, hi)[one.len() as int] == s[i + one.len()]);
            assert((one + seq![','] + rest)[one.len() as int] == ',');
        }
        lemma_parse_enc(members[k].1, s, vi);
        assert(ws_end(s, j) == j);
        assert(s.subrange(j + 1, j + 1 + rest.len() as int) == rest) by {
            assert forall|x: int| 0 <= x < rest.len() implies #[trigger] s.subrange(
                j + 1,
                j + 1 + rest.len() as int,
            )[x] == rest[x] by {
                assert(s.subrange(j + 1, j + 1 + rest.len() as int)[x] == s[j + 1 + x]);
                assert(s.subrange(i, hi)[one.len() + 1 + x] == s[i + (one.len() + 1 + x)]);
                assert((one + seq![','] + rest)[one.len() + 1 + x] == rest[x]);
            }
            assert(s.subrange(j + 1, j + 1 + rest.len() as int) =~= rest);
        }
        assert(s[j + 1 + rest.len()] == '}');
        lemma_parse_enc_members(members, k + 1, s, j + 1, acc.push(members[k]));
        assert(acc.push((key, members[k].1)) == acc.push(members[k]));
        assert(acc.push(members[k]) + members.subrange(k + 1, members.len() as int) =~= acc
            + members.subrange(k, members.len() as int));
    }
}

/// The canonical text of a well-formed value parses back to that value.
pub proof fn lemma_text_round_trip(v: GValue)
    requires
        wf_value(v),
    ensures
        parse_text(enc_value(v)) == Some(v),
{
    let s = enc_value(v);
    lemma_enc_head(v);
    assert(ws_end(s, 0) == 0);
    assert(s.subrange(0, s.len() as int) =~= s);
    lemma_parse_enc(v, s, 0);
    assert(ws_end(s, s.len() as int) == s.len());
}

/// The whole wire round trip: encoding a well-formed request and
/// decoding the text gives back `Input::Request` with the same service,
/// action and payload.
pub proof fn lemma_request_round_trip(service: Seq<char>, q: GRequest)
    requires
        service.len() > 0,
        q.action.len() > 0,
        q.payload is Obj,
        wf_value(q.payload),
    ensures
        spec_decode(enc_value(request_tree(service, q))) == Ok::<GInput, GError>(
            GInput::Request(service, q),
        ),
{
    let tree = request_tree(service, q);
    let m = tree->Obj_0;
    let d = m[1].1->Obj_0;
    assert(wf_value(m[1].1)) by {
        assert(forall|t: int| 0 <= t < d.len() ==> wf_value((#[trigger] d[t]).1));
    }
    assert(wf_value(tree)) by {
        assert(forall|t: int| 0 <= t < m.len() ==> wf_value((#[trigger] m[t]).1));
    }
    lemma_text_round_trip(tree);
    crate::laws::lemma_request_tree_round_trip(service, q);
}

} // verus!
