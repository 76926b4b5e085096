//! Serialization of JSON documents: the mathematical form of the text and
//! a writer proved to produce exactly that text.
//!
//! The form is fixed: no whitespace, object fields in their stored order,
//! strings with the five short escapes `\"`, `\\`, `\n`, `\r`, `\t` and
//! the `\u00XX` form for the other control characters.

use vstd::prelude::*;

use crate::json::{view_of, Json, JsonVal};
use crate::trusted_str::{chars_to_string, str_to_chars};

verus! {

broadcast use vstd::seq::group_seq_axioms, vstd::std_specs::vec::group_vec_axioms, vstd::utf8::char_is_scalar, vstd::utf8::char_u32_cast;

/// The decimal digit character for `d`.
pub open spec fn digit_char(d: int) -> char {
    if d == 0 {
        '0'
    } else if d == 1 {
        '1'
    } else if d == 2 {
        '2'
    } else if d == 3 {
        '3'
    } else if d == 4 {
        '4'
    } else if d == 5 {
        '5'
    } else if d == 6 {
        '6'
    } else if d == 7 {
        '7'
    } else if d == 8 {
        '8'
    } else {
        '9'
    }
}

/// The decimal text of a nonnegative integer, most significant digit first.
pub open spec fn ser_nat(n: int) -> Seq<char>
    decreases n,
{
    if n < 10 {
        seq![digit_char(n)]
    } else {
        ser_nat(n / 10).push(digit_char(n % 10))
    }
}

/// The decimal text of an integer.
pub open spec fn ser_int(i: int) -> Seq<char> {
    if i < 0 {
        seq!['-'] + ser_nat(-i)
    } else {
        ser_nat(i)
    }
}

/// The hexadecimal digit character for `d`.
pub open spec fn hex_char(d: int) -> char {
    if d < 10 {
        digit_char(d)
    } else if d == 10 {
        'a'
    } else if d == 11 {
        'b'
    } else if d == 12 {
        'c'
    } else if d == 13 {
        'd'
    } else if d == 14 {
        'e'
    } else {
        'f'
    }
}

/// The escaped form of one character inside a string literal: the five
/// short escapes, the `\u00XX` form for the other control characters,
/// everything else as itself.
pub open spec fn esc_char(c: char) -> Seq<char> {
    if c == '"' {
        seq!['\\', '"']
    } else if c == '\\' {
        seq!['\\', '\\']
    } else if c == '\n' {
        seq!['\\', 'n']
    } else if c == '\r' {
        seq!['\\', 'r']
    } else if c == '\t' {
        seq!['\\', 't']
    } else if (c as u32) < 32 {
        seq!['\\', 'u', '0', '0', hex_char(((c as u32) / 16) as int), hex_char(
            ((c as u32) % 16) as int,
        )]
    } else {
        seq![c]
    }
}

/// The escaped body of a string literal.
pub open spec fn esc(s: Seq<char>) -> Seq<char>
    decreases s.len(),
{
    if s.len() == 0 {
        Seq::empty()
    } else {
        esc_char(s[0]) + esc(s.drop_first())
    }
}

/// A quoted, escaped string literal.
pub open spec fn ser_str(s: Seq<char>) -> Seq<char> {
    seq!['"'] + esc(s) + seq!['"']
}

/// The text of a JSON value.
pub open spec fn ser_val(v: JsonVal) -> Seq<char>
    decreases v,
{
    match v {
        JsonVal::Null => seq!['n', 'u', 'l', 'l'],
        JsonVal::Bool(b) => if b {
            seq!['t', 'r', 'u', 'e']
        } else {
            seq!['f', 'a', 'l', 's', 'e']
        },
        JsonVal::Int(i) => ser_int(i),
        JsonVal::Str(s) => ser_str(s),
        JsonVal::Arr(a) => seq!['['] + ser_elems(a) + seq![']'],
        JsonVal::Obj(o) => seq!['{'] + ser_fields(o) + seq!['}'],
    }
}

/// The comma-separated texts of array elements.
pub open spec fn ser_elems(a: Seq<JsonVal>) -> Seq<char>
    decreases a,
{
    if a.len() == 0 {
        Seq::empty()
    } else if a.len() == 1 {
        ser_val(a[0])
    } else {
        ser_val(a[0]) + seq![','] + ser_elems(a.drop_first())
    }
}

/// The comma-separated texts of object fields, each `"name":value`.
pub open spec fn ser_fields(o: Seq<(Seq<char>, JsonVal)>) -> Seq<char>
    decreases o,
{
    if o.len() == 0 {
        Seq::empty()
    } else if o.len() == 1 {
        ser_str(o[0].0) + seq![':'] + ser_val(o[0].1)
    } else {
        ser_str(o[0].0) + seq![':'] + ser_val(o[0].1) + seq![','] + ser_fields(o.drop_first())
    }
}

/// Escaping distributes over concatenation.
pub proof fn lemma_esc_app(a: Seq<char>, b: Seq<char>)
    ensures
        esc(a + b) == esc(a) + esc(b),
    decreases a.len(),
{
    if a.len() == 0 {
        assert(a + b =~= b);
        assert(esc(a) + esc(b) =~= esc(b));
    } else {
        assert((a + b).drop_first() =~= a.drop_first() + b);
        lemma_esc_app(a.drop_first(), b);
        assert(esc(a + b) =~= esc(a) + esc(b));
    }
}

/// Taking one more character extends the escaped body by that character's
/// escaped form.
pub proof fn lemma_esc_take_one(s: Seq<char>, k: int)
    requires
        0 <= k < s.len(),
    ensures
        esc(s.take(k + 1)) == esc(s.take(k)) + esc_char(s[k]),
{
    assert(s.take(k + 1) =~= s.take(k) + seq![s[k]]);
    lemma_esc_app(s.take(k), seq![s[k]]);
    let single = seq![s[k]];
    assert(single.drop_first() =~= Seq::<char>::empty());
    assert(single[0] == s[k]);
    assert(esc(single) == esc_char(s[k]) + esc(single.drop_first()));
    assert(esc(single) =~= esc_char(s[k]));
}

/// A nonempty element list serializes as its front, a comma, and its last
/// element; a singleton as its element alone.
pub proof fn lemma_ser_elems_snoc(a: Seq<JsonVal>)
    requires
        a.len() >= 1,
    ensures
        a.len() == 1 ==> ser_elems(a) == ser_val(a[0]),
        a.len() > 1 ==> ser_elems(a) == ser_elems(a.drop_last()) + seq![','] + ser_val(a.last()),
    decreases a.len(),
{
    if a.len() > 1 {
        lemma_ser_elems_snoc(a.drop_first());
        assert(a.drop_first().drop_last() =~= a.drop_last().drop_first());
        assert(a.drop_last().len() >= 1);
        assert(a.drop_last()[0] == a[0]);
        if a.len() == 2 {
            assert(ser_elems(a.drop_first()) == ser_val(a.drop_first()[0]));
            assert(a.drop_first()[0] == a.last());
            assert(ser_elems(a.drop_last()) == ser_val(a[0]));
            assert(ser_elems(a) =~= ser_elems(a.drop_last()) + seq![','] + ser_val(a.last()));
        } else {
            assert(a.drop_first().last() == a.last());
            assert(ser_elems(a) =~= ser_elems(a.drop_last()) + seq![','] + ser_val(a.last()));
        }
    }
}

/// The field-list analogue of `lemma_ser_elems_snoc`.
pub proof fn lemma_ser_fields_snoc(o: Seq<(Seq<char>, JsonVal)>)
    requires
        o.len() >= 1,
    ensures
        o.len() == 1 ==> ser_fields(o) == ser_str(o[0].0) + seq![':'] + ser_val(o[0].1),
        o.len() > 1 ==> ser_fields(o) == ser_fields(o.drop_last()) + seq![','] + ser_str(
            o.last().0,
        ) + seq![':'] + ser_val(o.last().1),
    decreases o.len(),
{
    if o.len() > 1 {
        lemma_ser_fields_snoc(o.drop_first());
        assert(o.drop_first().drop_last() =~= o.drop_last().drop_first());
        assert(o.drop_last().len() >= 1);
        assert(o.drop_last()[0] == o[0]);
        if o.len() == 2 {
            assert(o.drop_first()[0] == o.last());
            assert(ser_fields(o) =~= ser_fields(o.drop_last()) + seq![','] + ser_str(o.last().0)
                + seq![':'] + ser_val(o.last().1));
        } else {
            assert(o.drop_first().last() == o.last());
            assert(ser_fields(o) =~= ser_fields(o.drop_last()) + seq![','] + ser_str(o.last().0)
                + seq![':'] + ser_val(o.last().1));
        }
    }
}

/// Appends the decimal digits of `n`.
fn write_nat(n: u64, out: &mut Vec<char>)
    ensures
        final(out)@ == old(out)@ + ser_nat(n as int),
    decreases n,
{
    if n < 10 {
        out.push(digit_of(n));
        assert(out@ =~= old(out)@ + ser_nat(n as int));
    } else {
        write_nat(n / 10, out);
        out.push(digit_of(n % 10));
        assert(out@ =~= old(out)@ + ser_nat(n as int));
    }
}

/// The hexadecimal digit character for a value below sixteen.
fn hex_digit_of(d: u32) -> (c: char)
    requires
        d < 16,
    ensures
        c == hex_char(d as int),
{
    if d == 0 {
        '0'
    } else if d == 1 {
        '1'
    } else if d == 2 {
        '2'
    } else if d == 3 {
        '3'
    } else if d == 4 {
        '4'
    } else if d == 5 {
        '5'
    } else if d == 6 {
        '6'
    } else if d == 7 {
        '7'
    } else if d == 8 {
        '8'
    } else if d == 9 {
        '9'
    } else if d == 10 {
        'a'
    } else if d == 11 {
        'b'
    } else if d == 12 {
        'c'
    } else if d == 13 {
        'd'
    } else if d == 14 {
        'e'
    } else {
        'f'
    }
}

/// The digit character for a value below ten.
fn digit_of(d: u64) -> (c: char)
    requires
        d < 10,
    ensures
        c == digit_char(d as int),
{
    if d == 0 {
        '0'
    } else if d == 1 {
        '1'
    } else if d == 2 {
        '2'
    } else if d == 3 {
        '3'
    } else if d == 4 {
        '4'
    } else if d == 5 {
        '5'
    } else if d == 6 {
        '6'
    } else if d == 7 {
        '7'
    } else if d == 8 {
        '8'
    } else {
        '9'
    }
}

/// Appends the decimal text of `i`.
fn write_int(i: i64, out: &mut Vec<char>)
    ensures
        final(out)@ == old(out)@ + ser_int(i as int),
{
    if i >= 0 {
        write_nat(i as u64, out);
    } else {
        out.push('-');
        let m: u64 = ((-(i + 1)) as u64) + 1;
        assert(m as int == -(i as int));
        write_nat(m, out);
        assert(out@ =~= old(out)@ + ser_int(i as int));
    }
}

/// Appends a quoted, escaped string literal holding the text of `s`.
fn write_str(s: &str, out: &mut Vec<char>)
    ensures
        final(out)@ == old(out)@ + ser_str(s@),
{
    let chars = str_to_chars(s);
    out.push('"');
    let n = chars.len();
    assert(chars@.take(0) =~= Seq::<char>::empty());
    for k in 0..n
        invariant
            n == chars@.len(),
            chars@ == s@,
            out@ == old(out)@ + seq!['"'] + esc(s@.take(k as int)),
    {
        let c = chars[k];
        if c == '"' {
            out.push('\\');
            out.push('"');
        } else if c == '\\' {
            out.push('\\');
            out.push('\\');
        } else if c == '\n' {
            out.push('\\');
            out.push('n');
        } else if c == '\r' {
            out.push('\\');
            out.push('r');
        } else if c == '\t' {
            out.push('\\');
            out.push('t');
        } else if (c as u32) < 32 {
            out.push('\\');
            out.push('u');
            out.push('0');
            out.push('0');
            out.push(hex_digit_of((c as u32) / 16));
            out.push(hex_digit_of((c as u32) % 16));
        } else {
            out.push(c);
        }
        proof {
            lemma_esc_take_one(s@, k as int);
            assert(out@ =~= old(out)@ + seq!['"'] + esc(s@.take(k as int + 1)));
        }
    }
    out.push('"');
    proof {
        assert(s@.take(n as int) =~= s@);
        assert(out@ =~= old(out)@ + ser_str(s@));
    }
}

/// Appends the text of a JSON document.
pub fn write_val(v: &Json, out: &mut Vec<char>)
    ensures
        final(out)@ == old(out)@ + ser_val(v@),
    decreases v,
{
    match v {
        Json::Null => {
            out.push('n');
            out.push('u');
            out.push('l');
            out.push('l');
            assert(out@ =~= old(out)@ + ser_val(v@));
        }
        Json::Bool(b) => {
            if *b {
                out.push('t');
                out.push('r');
                out.push('u');
                out.push('e');
            } else {
                out.push('f');
                out.push('a');
                out.push('l');
                out.push('s');
                out.push('e');
            }
            assert(out@ =~= old(out)@ + ser_val(v@));
        }
        Json::Int(i) => {
            write_int(*i, out);
        }
        Json::Str(s) => {
            write_str(s.as_str(), out);
        }
        Json::Arr(a) => {
            let ghost av = v@->Arr_0;
            proof {
                assert(av.len() == a@.len());
                assert(forall|i: int| 0 <= i < av.len() ==> #[trigger] av[i] == view_of(a@[i]));
            }
            out.push('[');
            let n = a.len();
            assert(av.take(0) =~= Seq::<JsonVal>::empty());
            for i in 0..n
                invariant
                    n == a@.len(),
                    *v == Json::Arr(*a),
                    av == v@->Arr_0,
                    v@ is Arr,
                    av.len() == a@.len(),
                    forall|j: int| 0 <= j < av.len() ==> #[trigger] av[j] == view_of(a@[j]),
                    out@ == old(out)@ + seq!['['] + ser_elems(av.take(i as int)),
                decreases n - i,
            {
                if i > 0 {
                    out.push(',');
                }
                proof {
                    assert(decreases_to!(*v => *a));
                    assert(decreases_to!(*a => a@));
                    assert(decreases_to!(a@ => a@[i as int]));
                }
                write_val(&a[i], out);
                proof {
                    lemma_ser_elems_snoc(av.take(i as int + 1));
                    assert(av.take(i as int + 1).drop_last() =~= av.take(i as int));
                    assert(av.take(i as int + 1).last() == av[i as int]);
                    if i == 0 {
                        assert(av.take(1)[0] == av[0]);
                        assert(ser_elems(av.take(1)) == ser_val(av[0]));
                    }
                    assert(out@ =~= old(out)@ + seq!['['] + ser_elems(av.take(i as int + 1)));
                }
            }
            out.push(']');
            proof {
                assert(av.take(n as int) =~= av);
                assert(out@ =~= old(out)@ + ser_val(v@));
            }
        }
        Json::Obj(o) => {
            let ghost ov = v@->Obj_0;
            proof {
                assert(ov.len() == o@.len());
                assert(forall|i: int|
                    0 <= i < ov.len() ==> #[trigger] ov[i] == (o@[i].0@, view_of(o@[i].1)));
            }
            out.push('{');
            let n = o.len();
            assert(ov.take(0) =~= Seq::<(Seq<char>, JsonVal)>::empty());
            for i in 0..n
                invariant
                    n == o@.len(),
                    *v == Json::Obj(*o),
                    ov == v@->Obj_0,
                    v@ is Obj,
                    ov.len() == o@.len(),
                    forall|j: int|
                        0 <= j < ov.len() ==> #[trigger] ov[j] == (o@[j].0@, view_of(o@[j].1)),
                    out@ == old(out)@ + seq!['{'] + ser_fields(ov.take(i as int)),
                decreases n - i,
            {
                if i > 0 {
                    out.push(',');
                }
                write_str(o[i].0.as_str(), out);
                out.push(':');
                proof {
                    assert(decreases_to!(*v => *o));
                    assert(decreases_to!(*o => o@));
                    assert(decreases_to!(o@ => o@[i as int]));
                    assert(decreases_to!(o@[i as int] => o@[i as int].1));
                }
                write_val(&o[i].1, out);
                proof {
                    lemma_ser_fields_snoc(ov.take(i as int + 1));
                    assert(ov.take(i as int + 1).drop_last() =~= ov.take(i as int));
                    assert(ov.take(i as int + 1).last() == ov[i as int]);
                    if i == 0 {
                        assert(ov.take(1)[0] == ov[0]);
                    }
                    assert(out@ =~= old(out)@ + seq!['{'] + ser_fields(ov.take(i as int + 1)));
                }
            }
            out.push('}');
            proof {
                assert(ov.take(n as int) =~= ov);
                assert(out@ =~= old(out)@ + ser_val(v@));
            }
        }
    }
}

/// The text of a JSON document, as a string.
pub fn to_text(v: &Json) -> (r: String)
    ensures
        r@ == ser_val(v@),
{
    let mut out: Vec<char> = Vec::new();
    write_val(v, &mut out);
    chars_to_string(&out)
}

} // verus!
