//! JSON serialization.
//!
//! Canonical keys, the replay cache handed to the second pass, and caller
//! inputs injected into a sandbox all travel as JSON text. The spec
//! functions here define that text exactly — including string escaping and
//! decimal rendering — and the executable serializer is proved to produce
//! it character for character.

use vstd::prelude::*;

use crate::json::{JsonValue, JsonView};

verus! {

/// Hexadecimal digit character, lower case.
pub open spec fn hex_digit(n: int) -> char {
    if n < 10 {
        (('0' as int) + n) as char
    } else {
        (('a' as int) + (n - 10)) as char
    }
}

/// The escape of one character inside a JSON string: quote, backslash and
/// the named control characters get two-character escapes, the remaining
/// control characters a `\u00..` escape, everything else stands as itself.
pub open spec fn esc_char(c: char) -> Seq<char> {
    if c == '"' {
        seq!['\\', '"']
    } else if c == '\\' {
        seq!['\\', '\\']
    } else if c == '\u{08}' {
        seq!['\\', 'b']
    } else if c == '\u{09}' {
        seq!['\\', 't']
    } else if c == '\u{0A}' {
        seq!['\\', 'n']
    } else if c == '\u{0C}' {
        seq!['\\', 'f']
    } else if c == '\u{0D}' {
        seq!['\\', 'r']
    } else if (c as int) < 0x20 {
        seq!['\\', 'u', '0', '0', hex_digit((c as int) / 16), hex_digit((c as int) % 16)]
    } else {
        seq![c]
    }
}

/// The body of a JSON string: each character escaped.
pub open spec fn esc(s: Seq<char>) -> Seq<char>
    decreases s.len(),
{
    if s.len() == 0 {
        Seq::empty()
    } else {
        esc_char(s[0]) + esc(s.drop_first())
    }
}

/// Decimal digits of a natural number, most significant first.
pub open spec fn dec_digits(n: nat) -> Seq<char>
    decreases n,
{
    if n < 10 {
        seq![(('0' as int) + n) as char]
    } else {
        dec_digits(n / 10) + seq![(('0' as int) + (n % 10)) as char]
    }
}

/// Decimal rendering of an integer.
pub open spec fn ser_int(i: int) -> Seq<char> {
    if i < 0 {
        seq!['-'] + dec_digits((-i) as nat)
    } else {
        dec_digits(i as nat)
    }
}

/// The JSON text of a value, in the order its containers store: object
/// fields appear exactly as ordered in the value, and a number carried as
/// text is emitted verbatim. Serializing the canonical form of a descriptor
/// yields its canonical key.
pub open spec fn ser(v: JsonView) -> Seq<char>
    decreases v,
{
    match v {
        JsonView::Null => seq!['n', 'u', 'l', 'l'],
        JsonView::Bool(b) => if b {
            seq!['t', 'r', 'u', 'e']
        } else {
            seq!['f', 'a', 'l', 's', 'e']
        },
        JsonView::Int(i) => ser_int(i),
        JsonView::Num(t) => t,
        JsonView::Str(s) => seq!['"'] + esc(s) + seq!['"'],
        JsonView::Arr(items) => seq!['['] + ser_items(items) + seq![']'],
        JsonView::Obj(pairs) => seq!['{'] + ser_fields(pairs) + seq!['}'],
    }
}

/// Array elements, comma separated.
pub open spec fn ser_items(items: Seq<JsonView>) -> Seq<char>
    decreases items,
{
    if items.len() == 0 {
        Seq::empty()
    } else if items.len() == 1 {
        ser(items[0])
    } else {
        ser_items(items.drop_last()) + seq![','] + ser(items.last())
    }
}

/// One `"key":value` object field.
pub open spec fn ser_field(p: (Seq<char>, JsonView)) -> Seq<char>
    decreases p,
{
    seq!['"'] + esc(p.0) + seq!['"', ':'] + ser(p.1)
}

/// Object fields, comma separated.
pub open spec fn ser_fields(pairs: Seq<(Seq<char>, JsonView)>) -> Seq<char>
    decreases pairs,
{
    if pairs.len() == 0 {
        Seq::empty()
    } else if pairs.len() == 1 {
        ser_field(pairs[0])
    } else {
        ser_fields(pairs.drop_last()) + seq![','] + ser_field(pairs.last())
    }
}

/// Appending one character to a string extends its escaped form by that
/// character's escape.
pub proof fn lemma_esc_snoc(t: Seq<char>, c: char)
    ensures
        esc(t.push(c)) == esc(t) + esc_char(c),
    decreases t.len(),
{
    if t.len() == 0 {
        assert(t.push(c)[0] == c);
        assert(t.push(c).drop_first() =~= Seq::<char>::empty());
        assert(esc(Seq::<char>::empty()) == Seq::<char>::empty());
        assert(esc(t.push(c)) == esc_char(c) + Seq::<char>::empty());
        assert(esc_char(c) + Seq::<char>::empty() =~= esc_char(c));
        assert(esc(t) + esc_char(c) =~= esc_char(c));
    } else {
        assert(t.push(c).drop_first() =~= t.drop_first().push(c));
        lemma_esc_snoc(t.drop_first(), c);
        assert(t.push(c)[0] == t[0]);
        assert(esc_char(t[0]) + (esc(t.drop_first()) + esc_char(c)) =~= (esc_char(t[0]) + esc(
            t.drop_first(),
        )) + esc_char(c));
    }
}

/// Append the escape of one character.
fn push_char_escaped(c: char, out: &mut Vec<char>)
    ensures
        final(out)@ == old(out)@ + esc_char(c),
{
    let n: u32 = c as u32;
    if c == '"' {
        out.push('\\');
        out.push('"');
    } else if c == '\\' {
        out.push('\\');
        out.push('\\');
    } else if c == '\u{08}' {
        out.push('\\');
        out.push('b');
    } else if c == '\u{09}' {
        out.push('\\');
        out.push('t');
    } else if c == '\u{0A}' {
        out.push('\\');
        out.push('n');
    } else if c == '\u{0C}' {
        out.push('\\');
        out.push('f');
    } else if c == '\u{0D}' {
        out.push('\\');
        out.push('r');
    } else if n < 0x20 {
        out.push('\\');
        out.push('u');
        out.push('0');
        out.push('0');
        out.push(hex_digit_ch(n / 16));
        out.push(hex_digit_ch(n % 16));
    } else {
        out.push(c);
    }
    proof {
        assert(out@ =~= old(out)@ + esc_char(c));
    }
}

/// The character for one hexadecimal digit, lower case.
fn hex_digit_ch(n: u32) -> (c: char)
    requires
        n < 16,
    ensures
        c == hex_digit(n as int),
{
    let d: u8 = if n < 10 {
        48 + (n as u8)  // '0' is code point 48
    } else {
        97 + ((n as u8) - 10)  // 'a' is code point 97
    };
    d as char
}

/// Append the escaped body of a string.
fn push_escaped(s: &str, out: &mut Vec<char>)
    ensures
        final(out)@ == old(out)@ + esc(s@),
{
    let len = s.unicode_len();
    let mut i: usize = 0;
    proof {
        assert(s@.take(0) =~= Seq::<char>::empty());
        assert(esc(s@.take(0)) =~= Seq::<char>::empty());
        assert(out@ =~= out@ + esc(s@.take(0)));
    }
    while i < len
        invariant
            len == s@.len(),
            0 <= i <= len,
            out@ == old(out)@ + esc(s@.take(i as int)),
        decreases len - i,
    {
        let c = s.get_char(i);
        push_char_escaped(c, out);
        proof {
            assert(s@.take(i + 1) =~= s@.take(i as int).push(s@[i as int]));
            lemma_esc_snoc(s@.take(i as int), s@[i as int]);
            assert((old(out)@ + esc(s@.take(i as int))) + esc_char(s@[i as int]) =~= old(out)@
                + esc(s@.take(i + 1)));
        }
        i += 1;
    }
    proof {
        assert(s@.take(len as int) =~= s@);
    }
}

/// Append the decimal digits of a number.
fn push_dec(n: u64, out: &mut Vec<char>)
    ensures
        final(out)@ == old(out)@ + dec_digits(n as nat),
    decreases n,
{
    if n < 10 {
        out.push((48 + (n as u8)) as char);  // '0' is code point 48
        proof {
            assert(out@ =~= old(out)@ + dec_digits(n as nat));
        }
    } else {
        push_dec(n / 10, out);
        out.push((48 + ((n % 10) as u8)) as char);
        proof {
            assert((old(out)@ + dec_digits((n / 10) as nat)).push(
                ((('0' as int) + ((n as int) % 10)) as char),
            ) =~= old(out)@ + dec_digits(n as nat));
        }
    }
}

/// Append the decimal rendering of an integer.
fn push_int(i: i64, out: &mut Vec<char>)
    ensures
        final(out)@ == old(out)@ + ser_int(i as int),
{
    if i < 0 {
        out.push('-');
        let mag: u64 = (-(i as i128)) as u64;
        push_dec(mag, out);
        proof {
            assert(mag as nat == (-(i as int)) as nat);
            assert(old(out)@ + (seq!['-'] + dec_digits((-(i as int)) as nat)) =~= (old(
                out,
            )@.push('-')) + dec_digits((-(i as int)) as nat));
        }
    } else {
        push_dec(i as u64, out);
    }
}

/// Append the JSON text of a value.
fn serialize_into(v: &JsonValue, out: &mut Vec<char>)
    ensures
        final(out)@ == old(out)@ + ser(v.view()),
    decreases *v,
{
    match v {
        JsonValue::Null => {
            out.push('n');
            out.push('u');
            out.push('l');
            out.push('l');
            proof {
                assert(out@ =~= old(out)@ + ser(v.view()));
            }
        },
        JsonValue::Bool(b) => {
            if *b {
                out.push('t');
                out.push('r');
                out.push('u');
                out.push('e');
            } else {
                out.push('f');
                out.push('a');
                out.push('l');
                out.push('s');
                out.push('e');
            }
            proof {
                assert(out@ =~= old(out)@ + ser(v.view()));
            }
        },
        JsonValue::Int(i) => {
            push_int(*i, out);
        },
        JsonValue::Num(t) => {
            push_chars(t.as_str(), out);
        },
        JsonValue::Str(s) => {
            out.push('"');
            push_escaped(s.as_str(), out);
            out.push('"');
            proof {
                assert(out@ =~= old(out)@ + ser(v.view()));
            }
        },
        JsonValue::Arr(items) => {
            let ghost iv = JsonValue::items_view(*items);
            out.push('[');
            let mut i: usize = 0;
            proof {
                assert(out@ =~= old(out)@ + seq!['['] + ser_items(iv.take(0)));
            }
            while i < items.len()
                invariant
                    *v == JsonValue::Arr(*items),
                    iv == JsonValue::items_view(*items),
                    iv.len() == items@.len(),
                    0 <= i <= items@.len(),
                    out@ == old(out)@ + seq!['['] + ser_items(iv.take(i as int)),
                decreases items@.len() - i,
            {
                if i > 0 {
                    out.push(',');
                }
                proof {
                    assert(*items == v->Arr_0);
                    assert(decreases_to!(*v => v->Arr_0));
                    assert(decreases_to!(*items => items@[i as int]));
                    assert(decreases_to!(*v => items@[i as int]));
                }
                serialize_into(&items[i], out);
                proof {
                    assert(iv.take(i + 1).drop_last() =~= iv.take(i as int));
                    assert(iv.take(i + 1).last() == iv[i as int]);
                    assert(iv[i as int] == items@[i as int].view());
                    if i == 0 {
                        assert(out@ =~= old(out)@ + seq!['['] + ser_items(iv.take(1)));
                    } else {
                        assert(ser_items(iv.take(i + 1)) == ser_items(iv.take(i as int)) + seq![',']
                            + ser(iv[i as int]));
                        assert(out@ =~= old(out)@ + seq!['['] + ser_items(iv.take(i + 1)));
                    }
                }
                i += 1;
            }
            out.push(']');
            proof {
                assert(iv.take(items@.len() as int) =~= iv);
                assert(out@ =~= old(out)@ + ser(v.view()));
            }
        },
        JsonValue::Obj(pairs) => {
            let ghost pv = JsonValue::pairs_view(*pairs);
            out.push('{');
            let mut i: usize = 0;
            proof {
                assert(out@ =~= old(out)@ + seq!['{'] + ser_fields(pv.take(0)));
            }
            while i < pairs.len()
                invariant
                    *v == JsonValue::Obj(*pairs),
                    pv == JsonValue::pairs_view(*pairs),
                    pv.len() == pairs@.len(),
                    0 <= i <= pairs@.len(),
                    out@ == old(out)@ + seq!['{'] + ser_fields(pv.take(i as int)),
                decreases pairs@.len() - i,
            {
                if i > 0 {
                    out.push(',');
                }
                out.push('"');
                push_escaped(pairs[i].0.as_str(), out);
                out.push('"');
                out.push(':');
                proof {
                    assert(*pairs == v->Obj_0);
                    assert(decreases_to!(*v => v->Obj_0));
                    assert(decreases_to!(*pairs => pairs@[i as int]));
                    assert(decreases_to!(*v => pairs@[i as int].1));
                }
                serialize_into(&pairs[i].1, out);
                proof {
                    assert(pv.take(i + 1).drop_last() =~= pv.take(i as int));
                    assert(pv.take(i + 1).last() == pv[i as int]);
                    assert(pv[i as int] == (pairs@[i as int].0@, pairs@[i as int].1.view()));
                    if i == 0 {
                        assert(ser_fields(pv.take(1)) == ser_field(pv[0]));
                        assert(out@ =~= old(out)@ + seq!['{'] + ser_fields(pv.take(1)));
                    } else {
                        assert(ser_fields(pv.take(i + 1)) == ser_fields(pv.take(i as int))
                            + seq![','] + ser_field(pv[i as int]));
                        assert(out@ =~= old(out)@ + seq!['{'] + ser_fields(pv.take(i + 1)));
                    }
                }
                i += 1;
            }
            out.push('}');
            proof {
                assert(pv.take(pairs@.len() as int) =~= pv);
                assert(out@ =~= old(out)@ + ser(v.view()));
            }
        },
    }
}

/// Append the characters of a string slice.
pub fn push_chars(s: &str, out: &mut Vec<char>)
    ensures
        final(out)@ == old(out)@ + s@,
{
    let len = s.unicode_len();
    let mut i: usize = 0;
    proof {
        assert(out@ =~= out@ + s@.take(0));
    }
    while i < len
        invariant
            len == s@.len(),
            0 <= i <= len,
            out@ == old(out)@ + s@.take(i as int),
        decreases len - i,
    {
        let c = s.get_char(i);
        out.push(c);
        proof {
            assert(s@.take(i + 1) =~= s@.take(i as int).push(s@[i as int]));
            assert(out@ =~= old(out)@ + s@.take(i + 1));
        }
        i += 1;
    }
    proof {
        assert(s@.take(len as int) =~= s@);
    }
}

/// Relies on String implementing FromIterator over chars: collecting a
/// character sequence yields the string of exactly those characters.
#[verifier::external_body]
pub fn chars_to_string(v: &Vec<char>) -> (r: String)
    ensures
        r@ == v@,
{
    v.iter().collect()
}

/// The JSON text of a value, as a character vector.
pub fn serialize(v: &JsonValue) -> (r: Vec<char>)
    ensures
        r@ == ser(v.view()),
{
    let mut out: Vec<char> = Vec::new();
    serialize_into(v, &mut out);
    proof {
        assert(out@ =~= ser(v.view()));
    }
    out
}

} // verus!
