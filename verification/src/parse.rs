//! Parsing of JSON text.
//!
//! Each parsing function carries, besides bounds, a completeness contract:
//! on any text that is the serialized form of a value (with a suitable
//! continuation), it returns exactly that value and consumes exactly its
//! text. Together with the writer's contract this yields the round trip:
//! parsing a serialized document gives the document back.
//!
//! The contracts say nothing about other inputs. The code also accepts
//! whitespace between tokens, the short escapes `\/`, `\b` and `\f`, the
//! `\uXXXX` form outside the surrogate range, and redundant leading
//! zeros, and it rejects everything else; but only the serialized forms
//! are pinned.

use vstd::prelude::*;

use crate::codec::{digit_char, esc, esc_char, hex_char, lemma_esc_app, lemma_esc_take_one, ser_elems, ser_fields, ser_int, ser_nat, ser_str, ser_val};
use crate::json::{view_of, Json, JsonVal};
use crate::{is_digit_char, is_ws_char};

verus! {

broadcast use vstd::seq::group_seq_axioms, vstd::std_specs::vec::group_vec_axioms, vstd::utf8::char_is_scalar, vstd::utf8::char_u32_cast;

/// A continuation after which an integer literal can still be recognized:
/// nothing, or anything that does not begin with a digit.
pub open spec fn val_sep(rest: Seq<char>) -> bool {
    rest.len() == 0 || !is_digit_char(rest[0])
}

/// The numeric value of a digit character.
pub open spec fn digit_val(c: char) -> int {
    if c == '0' {
        0
    } else if c == '1' {
        1
    } else if c == '2' {
        2
    } else if c == '3' {
        3
    } else if c == '4' {
        4
    } else if c == '5' {
        5
    } else if c == '6' {
        6
    } else if c == '7' {
        7
    } else if c == '8' {
        8
    } else {
        9
    }
}

/// The value of a digit string, most significant digit first.
pub open spec fn dec_val(ds: Seq<char>) -> int
    decreases ds.len(),
{
    if ds.len() == 0 {
        0
    } else {
        dec_val(ds.drop_last()) * 10 + digit_val(ds.last())
    }
}

/// The decimal text of a nonnegative integer is nonempty and all digits.
pub proof fn lemma_ser_nat_digits(n: int)
    requires
        n >= 0,
    ensures
        ser_nat(n).len() >= 1,
        forall|k: int| 0 <= k < ser_nat(n).len() ==> is_digit_char(#[trigger] ser_nat(n)[k]),
    decreases n,
{
    if n >= 10 {
        lemma_ser_nat_digits(n / 10);
        assert(forall|k: int|
            0 <= k < ser_nat(n / 10).len() ==> is_digit_char(#[trigger] ser_nat(n)[k]));
        assert(is_digit_char(ser_nat(n)[ser_nat(n).len() - 1]));
    }
}

/// Reading the decimal text of a nonnegative integer gives it back.
pub proof fn lemma_dec_val_ser_nat(n: int)
    requires
        n >= 0,
    ensures
        dec_val(ser_nat(n)) == n,
    decreases n,
{
    if n < 10 {
        let ds = ser_nat(n);
        assert(ds == seq![digit_char(n)]);
        assert(ds.len() == 1);
        assert(ds.drop_last() =~= Seq::<char>::empty());
        assert(dec_val(ds.drop_last()) == 0);
        assert(ds.last() == digit_char(n));
        assert(digit_val(digit_char(n)) == n);
        assert(dec_val(ds) == 0 * 10 + digit_val(digit_char(n)));
    } else {
        lemma_dec_val_ser_nat(n / 10);
        let ds = ser_nat(n);
        assert(ds == ser_nat(n / 10).push(digit_char(n % 10)));
        assert(ds.len() == ser_nat(n / 10).len() + 1);
        assert(ds.drop_last() =~= ser_nat(n / 10));
        assert(ds.last() == digit_char(n % 10));
        assert(0 <= n % 10 < 10);
        assert(digit_val(digit_char(n % 10)) == n % 10);
        assert(dec_val(ds) == (n / 10) * 10 + n % 10);
        vstd::arithmetic::div_mod::lemma_fundamental_div_mod(n, 10);
        assert(n == 10 * (n / 10) + n % 10);
    }
}

/// The value of a digit string is nonnegative.
pub proof fn lemma_dec_val_nonneg(ds: Seq<char>)
    requires
        forall|k: int| 0 <= k < ds.len() ==> is_digit_char(#[trigger] ds[k]),
    ensures
        dec_val(ds) >= 0,
    decreases ds.len(),
{
    if ds.len() > 0 {
        lemma_dec_val_nonneg(ds.drop_last());
        assert(digit_val(ds.last()) >= 0);
        assert(dec_val(ds.drop_last()) * 10 >= 0) by (nonlinear_arith)
            requires
                dec_val(ds.drop_last()) >= 0,
        ;
    }
}

/// Every prefix of a digit string reads as at most the whole string.
pub proof fn lemma_dec_val_take_le(ds: Seq<char>, k: int)
    requires
        forall|j: int| 0 <= j < ds.len() ==> is_digit_char(#[trigger] ds[j]),
        0 <= k <= ds.len(),
    ensures
        dec_val(ds.take(k)) <= dec_val(ds),
    decreases ds.len() - k,
{
    if k == ds.len() {
        assert(ds.take(k) =~= ds);
    } else {
        lemma_dec_val_take_le(ds, k + 1);
        let p = ds.take(k + 1);
        assert(p.drop_last() =~= ds.take(k));
        assert(p.last() == ds[k]);
        assert(dec_val(p) == dec_val(ds.take(k)) * 10 + digit_val(ds[k]));
        lemma_dec_val_nonneg(ds.take(k));
        assert(dec_val(ds.take(k)) <= dec_val(ds.take(k)) * 10) by (nonlinear_arith)
            requires
                dec_val(ds.take(k)) >= 0,
        ;
        assert(digit_val(ds[k]) >= 0);
    }
}

/// One more digit multiplies the prefix value by ten and adds the digit.
pub proof fn lemma_dec_val_take_one(ds: Seq<char>, k: int)
    requires
        0 <= k < ds.len(),
    ensures
        dec_val(ds.take(k + 1)) == dec_val(ds.take(k)) * 10 + digit_val(ds[k]),
{
    let p = ds.take(k + 1);
    assert(p.drop_last() =~= ds.take(k));
    assert(p.last() == ds[k]);
}

/// What the first character of a serialized value tells about the value.
pub proof fn lemma_ser_first(v: JsonVal)
    ensures
        ser_val(v).len() >= 1,
        !is_ws_char(ser_val(v)[0]),
        ser_val(v)[0] != ',' && ser_val(v)[0] != ']' && ser_val(v)[0] != '}' && ser_val(v)[0]
            != ':',
        (v is Null) <==> ser_val(v)[0] == 'n',
        (v matches JsonVal::Bool(b) && b) <==> ser_val(v)[0] == 't',
        (v matches JsonVal::Bool(b) && !b) <==> ser_val(v)[0] == 'f',
        (v is Str) <==> ser_val(v)[0] == '"',
        (v is Arr) <==> ser_val(v)[0] == '[',
        (v is Obj) <==> ser_val(v)[0] == '{',
        (v is Int) <==> (ser_val(v)[0] == '-' || is_digit_char(ser_val(v)[0])),
        v matches JsonVal::Int(i) && i < 0 ==> ser_val(v)[0] == '-',
        v matches JsonVal::Int(i) && i >= 0 ==> is_digit_char(ser_val(v)[0]),
{
    match v {
        JsonVal::Int(i) => {
            if i < 0 {
                assert(ser_val(v)[0] == '-');
            } else {
                lemma_ser_nat_digits(i);
                assert(ser_val(v)[0] == ser_nat(i)[0]);
            }
        }
        JsonVal::Str(s) => {
            assert(ser_val(v)[0] == '"');
        }
        JsonVal::Arr(a) => {
            assert(ser_val(v)[0] == '[');
        }
        JsonVal::Obj(o) => {
            assert(ser_val(v)[0] == '{');
        }
        _ => {}
    }
}

/// A nonempty escaped body starts with a backslash or a plain character;
/// never with a quote. When it starts with a backslash, its second
/// character names the escaped character.
pub proof fn lemma_esc_head(t: Seq<char>)
    requires
        t.len() > 0,
    ensures
        esc(t).len() >= 1,
        esc(t) == esc_char(t[0]) + esc(t.drop_first()),
        esc(t)[0] != '"',
        esc(t)[0] == '\\' <==> (t[0] == '"' || t[0] == '\\' || (t[0] as u32) < 32),
        esc(t)[0] == '\\' ==> esc(t).len() >= 2,
        t[0] == '"' ==> esc(t)[1] == '"',
        t[0] == '\\' ==> esc(t)[1] == '\\',
        t[0] == '\n' ==> esc(t)[1] == 'n',
        t[0] == '\r' ==> esc(t)[1] == 'r',
        t[0] == '\t' ==> esc(t)[1] == 't',
        (t[0] as u32) < 32 && t[0] != '\n' && t[0] != '\r' && t[0] != '\t' ==> esc(t)[1] == 'u'
            && esc(t).len() >= 6 && esc(t)[2] == '0' && esc(t)[3] == '0' && esc(t)[4] == hex_char(
            ((t[0] as u32) / 16) as int,
        ) && esc(t)[5] == hex_char(((t[0] as u32) % 16) as int),
        esc(t)[0] != '\\' ==> esc(t)[0] == t[0],
{
}

/// The text from position `i` on is the serialized form of a well-formed
/// value, followed by a continuation after which a value can still be
/// recognized.
pub open spec fn canon_at(s: Seq<char>, i: int, v: JsonVal, rest: Seq<char>) -> bool {
    crate::json::wf_val(v) && s.skip(i) == ser_val(v) + rest && val_sep(rest)
}

/// Splits a known prefix off the text from position `i` on: the prefix's
/// characters stand there, and the continuation follows it.
proof fn lemma_skip_prefix(s: Seq<char>, i: int, p: Seq<char>, tail: Seq<char>)
    requires
        0 <= i <= s.len(),
        s.skip(i) == p + tail,
    ensures
        i + p.len() + tail.len() == s.len(),
        forall|k: int| 0 <= k < p.len() ==> s[i + k] == p[k],
        s.skip(i + p.len()) == tail,
{
    assert(s.skip(i).len() == p.len() + tail.len());
    assert forall|k: int| 0 <= k < p.len() implies s[i + k] == p[k] by {
        assert(s.skip(i)[k] == s[i + k]);
        assert((p + tail)[k] == p[k]);
    }
    assert(s.skip(i + p.len()).len() == tail.len());
    assert forall|k: int| 0 <= k < tail.len() implies s.skip(i + p.len())[k] == tail[k] by {
        assert(s.skip(i + p.len())[k] == s[i + p.len() + k]);
        assert(s[i + p.len() + k] == s.skip(i)[p.len() + k]);
        assert((p + tail)[p.len() + k] == tail[k]);
    }
    assert(s.skip(i + p.len()) =~= tail);
}

/// The element list from position `k` starts with element `k`, followed by
/// a comma and the remaining elements unless it is the last.
proof fn lemma_ser_elems_unfold(a: Seq<JsonVal>, k: int)
    requires
        0 <= k < a.len(),
    ensures
        k + 1 < a.len() ==> ser_elems(a.skip(k)) == ser_val(a[k]) + seq![','] + ser_elems(
            a.skip(k + 1),
        ),
        k + 1 == a.len() ==> ser_elems(a.skip(k)) == ser_val(a[k]),
{
    let t = a.skip(k);
    assert(t.len() == a.len() - k);
    assert(t[0] == a[k]);
    if k + 1 < a.len() {
        assert(t.drop_first() =~= a.skip(k + 1));
    }
}

/// The field list from position `k` starts with field `k`'s name, a colon
/// and its value, followed by a comma and the remaining fields unless it
/// is the last.
proof fn lemma_ser_fields_unfold(o: Seq<(Seq<char>, JsonVal)>, k: int)
    requires
        0 <= k < o.len(),
    ensures
        k + 1 < o.len() ==> ser_fields(o.skip(k)) == ser_str(o[k].0) + seq![':'] + ser_val(o[k].1)
            + seq![','] + ser_fields(o.skip(k + 1)),
        k + 1 == o.len() ==> ser_fields(o.skip(k)) == ser_str(o[k].0) + seq![':'] + ser_val(
            o[k].1,
        ),
{
    let t = o.skip(k);
    assert(t.len() == o.len() - k);
    assert(t[0] == o[k]);
    if k + 1 < o.len() {
        assert(t.drop_first() =~= o.skip(k + 1));
    }
}

/// A maximal digit run that begins with the decimal text of `m` and is
/// followed by a non-digit covers exactly that text.
proof fn lemma_digit_run(s: Seq<char>, start: int, j: int, m: int, rest: Seq<char>)
    requires
        0 <= start <= j <= s.len(),
        m >= 0,
        s.skip(start) == ser_nat(m) + rest,
        val_sep(rest),
        forall|k: int| start <= k < j ==> is_digit_char(#[trigger] s[k]),
        j == s.len() || !is_digit_char(s[j]),
    ensures
        j == start + ser_nat(m).len(),
        s.subrange(start, j) == ser_nat(m),
{
    lemma_ser_nat_digits(m);
    let d = ser_nat(m);
    assert(s.skip(start).len() == d.len() + rest.len());
    if j < start + d.len() {
        assert(s[j] == s.skip(start)[j - start]);
        assert(s.skip(start)[j - start] == d[j - start]);
        assert(is_digit_char(d[j - start]));
        assert(j < s.len());
        assert(false);
    }
    if j > start + d.len() {
        let p = start + d.len();
        assert(is_digit_char(s[p]));
        assert(p - start >= d.len());
        assert(rest.len() > 0);
        assert(s[p] == s.skip(start)[p - start]);
        assert(s.skip(start)[d.len() as int] == rest[0]);
        assert(false);
    }
    assert(s.subrange(start, j) =~= d);
}

/// A digit run that begins where the decimal text of `m` begins stays
/// within that text, and reads as at most `m`.
proof fn lemma_digit_prefix(s: Seq<char>, start: int, e: int, m: int, rest: Seq<char>)
    requires
        0 <= start <= e <= s.len(),
        m >= 0,
        s.skip(start) == ser_nat(m) + rest,
        val_sep(rest),
        forall|k: int| start <= k < e ==> is_digit_char(#[trigger] s[k]),
    ensures
        e - start <= ser_nat(m).len(),
        s.subrange(start, e) == ser_nat(m).take(e - start),
        dec_val(s.subrange(start, e)) <= m,
{
    lemma_ser_nat_digits(m);
    let d = ser_nat(m);
    assert(s.skip(start).len() == d.len() + rest.len());
    if e - start > d.len() {
        let p = start + d.len();
        assert(is_digit_char(s[p]));
        assert(rest.len() > 0);
        assert(s[p] == s.skip(start)[p - start]);
        assert(s.skip(start)[d.len() as int] == rest[0]);
        assert(false);
    }
    assert(s.subrange(start, e) =~= d.take(e - start));
    lemma_dec_val_take_le(d, e - start);
    lemma_dec_val_ser_nat(m);
}

/// What a run of digits, read after the optional sign of a serialized
/// integer, tells when the run is maximal: it covers exactly the decimal
/// text, and reads as the integer's magnitude.
proof fn lemma_int_exit(
    s: Seq<char>,
    i: int,
    start: int,
    j: int,
    n: int,
    rest: Seq<char>,
    neg: bool,
)
    requires
        0 <= i < s.len(),
        i64::MIN <= n <= i64::MAX,
        s.skip(i) == ser_int(n) + rest,
        val_sep(rest),
        neg == (s[i] == '-'),
        start == if neg {
            i + 1
        } else {
            i
        },
        start <= j <= s.len(),
        forall|k: int| start <= k < j ==> is_digit_char(#[trigger] s[k]),
        j == s.len() || !is_digit_char(s[j]),
    ensures
        neg == (n < 0),
        j > start,
        j == i + ser_int(n).len(),
        dec_val(s.subrange(start, j)) == if n < 0 {
            -n
        } else {
            n
        },
        (if n < 0 {
            -n
        } else {
            n
        }) <= 0x8000_0000_0000_0000,
{
    let m = if n < 0 {
        -n
    } else {
        n
    };
    let d = ser_nat(m);
    lemma_ser_nat_digits(m);
    assert(s[i] == s.skip(i)[0]);
    if n < 0 {
        assert(s.skip(i)[0] == (ser_int(n) + rest)[0]);
        assert(ser_int(n)[0] == '-');
        assert(s[i] == '-');
        assert(ser_int(n) == seq!['-'] + d);
        assert(ser_int(n).len() == 1 + d.len());
        assert(s.skip(i).len() == s.len() - i);
        assert(s.skip(i).len() == ser_int(n).len() + rest.len());
        assert(s.skip(i + 1).len() == s.len() - (i + 1));
        assert(s.skip(i + 1).len() == d.len() + rest.len());
        assert forall|k: int| 0 <= k < s.len() - (i + 1) implies s.skip(i + 1)[k] == (d
            + rest)[k] by {
            assert(s.skip(i + 1)[k] == s[i + 1 + k]);
            assert(s[i + 1 + k] == s.skip(i)[k + 1]);
            assert(s.skip(i)[k + 1] == (ser_int(n) + rest)[k + 1]);
            assert(ser_int(n) == seq!['-'] + d);
            assert((ser_int(n) + rest)[k + 1] == (d + rest)[k]);
        }
        assert(s.skip(i + 1) =~= d + rest);
    } else {
        assert(ser_int(n) == d);
        assert(s[i] == d[0]);
        assert(is_digit_char(s[i]));
        assert(!is_digit_char('-'));
        assert(s.skip(i) =~= d + rest);
    }
    lemma_digit_run(s, start, j, m, rest);
    lemma_dec_val_ser_nat(m);
    assert(dec_val(s.subrange(start, j)) == m);
}

/// Like `lemma_int_exit`, for a digit run that may not be maximal yet.
proof fn lemma_int_partial(
    s: Seq<char>,
    i: int,
    start: int,
    e: int,
    n: int,
    rest: Seq<char>,
    neg: bool,
)
    requires
        0 <= i < s.len(),
        i64::MIN <= n <= i64::MAX,
        s.skip(i) == ser_int(n) + rest,
        val_sep(rest),
        neg == (s[i] == '-'),
        start == if neg {
            i + 1
        } else {
            i
        },
        start <= e <= s.len(),
        forall|k: int| start <= k < e ==> is_digit_char(#[trigger] s[k]),
    ensures
        dec_val(s.subrange(start, e)) <= 0x8000_0000_0000_0000,
{
    let m = if n < 0 {
        -n
    } else {
        n
    };
    let d = ser_nat(m);
    lemma_ser_nat_digits(m);
    assert(s[i] == s.skip(i)[0]);
    if n < 0 {
        assert(s.skip(i)[0] == (ser_int(n) + rest)[0]);
        assert(ser_int(n)[0] == '-');
        assert(ser_int(n) == seq!['-'] + d);
        assert(ser_int(n).len() == 1 + d.len());
        assert(s.skip(i).len() == s.len() - i);
        assert(s.skip(i).len() == ser_int(n).len() + rest.len());
        assert(s.skip(i + 1).len() == s.len() - (i + 1));
        assert(s.skip(i + 1).len() == d.len() + rest.len());
        assert forall|k: int| 0 <= k < s.len() - (i + 1) implies s.skip(i + 1)[k] == (d
            + rest)[k] by {
            assert(s.skip(i + 1)[k] == s[i + 1 + k]);
            assert(s[i + 1 + k] == s.skip(i)[k + 1]);
            assert(s.skip(i)[k + 1] == (ser_int(n) + rest)[k + 1]);
            assert(ser_int(n) == seq!['-'] + d);
            assert((ser_int(n) + rest)[k + 1] == (d + rest)[k]);
        }
        assert(s.skip(i + 1) =~= d + rest);
    } else {
        assert(ser_int(n) == d);
        assert(s[i] == d[0]);
        assert(is_digit_char(s[i]));
        assert(!is_digit_char('-'));
        assert(s.skip(i) =~= d + rest);
    }
    lemma_digit_prefix(s, start, e, m, rest);
}

/// Whether a character is a hexadecimal digit.
pub open spec fn is_hex_digit(c: char) -> bool {
    ('0' <= c && c <= '9') || ('a' <= c && c <= 'f') || ('A' <= c && c <= 'F')
}

/// The numeric value of a hexadecimal digit character.
pub open spec fn hex_val(c: char) -> int {
    if '0' <= c && c <= '9' {
        digit_val(c)
    } else if c == 'a' || c == 'A' {
        10
    } else if c == 'b' || c == 'B' {
        11
    } else if c == 'c' || c == 'C' {
        12
    } else if c == 'd' || c == 'D' {
        13
    } else if c == 'e' || c == 'E' {
        14
    } else {
        15
    }
}

/// Reads one hexadecimal digit.
fn hex_value(c: char) -> (r: Option<u32>)
    ensures
        match r {
            Some(d) => is_hex_digit(c) && d < 16 && d as int == hex_val(c),
            None => !is_hex_digit(c),
        },
{
    if c == '0' {
        Some(0)
    } else if c == '1' {
        Some(1)
    } else if c == '2' {
        Some(2)
    } else if c == '3' {
        Some(3)
    } else if c == '4' {
        Some(4)
    } else if c == '5' {
        Some(5)
    } else if c == '6' {
        Some(6)
    } else if c == '7' {
        Some(7)
    } else if c == '8' {
        Some(8)
    } else if c == '9' {
        Some(9)
    } else if c == 'a' || c == 'A' {
        Some(10)
    } else if c == 'b' || c == 'B' {
        Some(11)
    } else if c == 'c' || c == 'C' {
        Some(12)
    } else if c == 'd' || c == 'D' {
        Some(13)
    } else if c == 'e' || c == 'E' {
        Some(14)
    } else if c == 'f' || c == 'F' {
        Some(15)
    } else {
        None
    }
}

/// Whether a character is JSON whitespace.
fn is_ws(c: char) -> (b: bool)
    ensures
        b == is_ws_char(c),
{
    c == ' ' || c == '\t' || c == '\n' || c == '\r'
}

/// Whether a character is a decimal digit.
fn is_digit(c: char) -> (b: bool)
    ensures
        b == is_digit_char(c),
{
    '0' <= c && c <= '9'
}

/// The numeric value of a digit character.
fn digit_value(c: char) -> (d: u64)
    requires
        is_digit_char(c),
    ensures
        d as int == digit_val(c),
        d < 10,
{
    if c == '0' {
        0
    } else if c == '1' {
        1
    } else if c == '2' {
        2
    } else if c == '3' {
        3
    } else if c == '4' {
        4
    } else if c == '5' {
        5
    } else if c == '6' {
        6
    } else if c == '7' {
        7
    } else if c == '8' {
        8
    } else {
        9
    }
}

/// The first position at or after `i` holding a non-whitespace character.
fn skip_ws(s: &Vec<char>, i: usize) -> (j: usize)
    requires
        i <= s@.len(),
    ensures
        i <= j <= s@.len(),
        forall|k: int| i <= k < j ==> is_ws_char(#[trigger] s@[k]),
        j < s@.len() ==> !is_ws_char(s@[j as int]),
{
    let mut j = i;
    loop
        invariant
            i <= j <= s@.len(),
            forall|k: int| i <= k < j ==> is_ws_char(#[trigger] s@[k]),
        decreases s@.len() - j,
    {
        if j >= s.len() {
            return j;
        }
        if !is_ws(s[j]) {
            return j;
        }
        j = j + 1;
    }
}

/// Aligns a position inside a serialized string literal: after the opening
/// quote and the escaped form of the first `m` characters, the text goes on
/// with the escaped form of the remaining characters, the closing quote,
/// and the continuation.
proof fn lemma_str_align(s: Seq<char>, i: int, t: Seq<char>, rest: Seq<char>, m: int)
    requires
        0 <= i <= s.len(),
        s.skip(i) == ser_str(t) + rest,
        0 <= m <= t.len(),
    ensures
        s.len() - i == 2 + esc(t).len() + rest.len(),
        esc(t) == esc(t.take(m)) + esc(t.skip(m)),
        esc(t.take(m)).len() <= esc(t).len(),
        s.skip(i + 1 + esc(t.take(m)).len()) == esc(t.skip(m)) + seq!['"'] + rest,
{
    assert(t.take(m) + t.skip(m) =~= t);
    lemma_esc_app(t.take(m), t.skip(m));
    assert(s.skip(i).len() == s.len() - i);
    assert((ser_str(t) + rest).len() == 2 + esc(t).len() + rest.len());
    let j = i + 1 + esc(t.take(m)).len();
    assert(s.skip(j) =~= esc(t.skip(m)) + seq!['"'] + rest) by {
        assert forall|k: int| 0 <= k < s.len() - j implies s.skip(j)[k] == (esc(t.skip(m))
            + seq!['"'] + rest)[k] by {
            assert(s.skip(j)[k] == s[j + k]);
            assert(s[j + k] == s.skip(i)[j - i + k]);
            assert(s.skip(i)[j - i + k] == (ser_str(t) + rest)[j - i + k]);
        }
    }
}

/// The two hexadecimal digits of a control character's code read back as
/// the code.
proof fn lemma_hex_pair(c: char)
    requires
        (c as u32) < 32,
    ensures
        hex_val(hex_char(((c as u32) / 16) as int)) == ((c as u32) / 16) as int,
        hex_val(hex_char(((c as u32) % 16) as int)) == ((c as u32) % 16) as int,
        ((c as u32) / 16) * 16 + ((c as u32) % 16) == c as u32,
        (((c as u32) / 16) as int) >= 0 && (((c as u32) / 16) as int) < 2,
        (((c as u32) % 16) as int) >= 0 && (((c as u32) % 16) as int) < 16,
{
    let x = (c as u32) as int;
    vstd::arithmetic::div_mod::lemma_fundamental_div_mod(x, 16);
}

/// Under the string-literal alignment, a `\u` escape in the text means
/// the corresponding character is a control character without a short
/// form, and the four following characters are `00` and its two
/// hexadecimal digits.
proof fn lemma_u_escape_facts(s: Seq<char>, i: int, j: int, t: Seq<char>, rest: Seq<char>, m: int)
    requires
        0 <= i <= s.len(),
        s.skip(i) == ser_str(t) + rest,
        0 <= m <= t.len(),
        j == i + 1 + esc(t.take(m)).len(),
        j < s.len(),
        s[j] == '\\',
        j + 1 < s.len(),
        s[j + 1] == 'u',
    ensures
        m < t.len(),
        (t[m] as u32) < 32,
        t[m] != '\n' && t[m] != '\r' && t[m] != '\t',
        j + 6 < s.len(),
        s[j + 2] == '0',
        s[j + 3] == '0',
        s[j + 4] == hex_char(((t[m] as u32) / 16) as int),
        s[j + 5] == hex_char(((t[m] as u32) % 16) as int),
        esc_char(t[m]).len() == 6,
{
    lemma_str_align(s, i, t, rest, m);
    if m == t.len() {
        assert(s.skip(j)[0] == '"');
        assert(false);
    }
    lemma_esc_head(t.skip(m));
    assert(s.skip(j)[0] == esc(t.skip(m))[0]);
    assert(s.skip(j)[1] == esc(t.skip(m))[1]);
    assert(t.skip(m)[0] == t[m]);
    assert((t[m] as u32) < 32 && t[m] != '\n' && t[m] != '\r' && t[m] != '\t');
    assert(esc(t.skip(m)).len() >= 6);
    assert(s.skip(j).len() == esc(t.skip(m)).len() + 1 + rest.len());
    assert(s.skip(j)[2] == esc(t.skip(m))[2]);
    assert(s.skip(j)[3] == esc(t.skip(m))[3]);
    assert(s.skip(j)[4] == esc(t.skip(m))[4]);
    assert(s.skip(j)[5] == esc(t.skip(m))[5]);
    assert(s[j + 2] == '0');
    assert(s[j + 3] == '0');
}

/// Reads a string literal beginning at `i`. On the serialized form of any
/// text, returns exactly that text.
pub(crate) fn parse_str_at(s: &Vec<char>, i: usize) -> (r: Option<(String, usize)>)
    requires
        i <= s@.len(),
    ensures
        r matches Some((st, j)) ==> i < j <= s@.len(),
        forall|t: Seq<char>, rest: Seq<char>|
            s@.skip(i as int) == ser_str(t) + rest ==> match r {
                Some((st, j)) => st@ == t && j == i + ser_str(t).len(),
                None => false,
            },
{
    if i >= s.len() {
        proof {
            assert forall|t: Seq<char>, rest: Seq<char>|
                s@.skip(i as int) == ser_str(t) + rest implies false by {
                assert(s@.skip(i as int).len() == 0);
                assert((ser_str(t) + rest).len() >= 2);
            }
        }
        return None;
    }
    if s[i] != '"' {
        proof {
            assert forall|t: Seq<char>, rest: Seq<char>|
                s@.skip(i as int) == ser_str(t) + rest implies false by {
                assert(s@.skip(i as int)[0] == s@[i as int]);
                assert((ser_str(t) + rest)[0] == '"');
            }
        }
        return None;
    }
    let mut acc: Vec<char> = Vec::new();
    let mut j = i + 1;
    proof {
        assert forall|t: Seq<char>, rest: Seq<char>|
            s@.skip(i as int) == ser_str(t) + rest implies acc@.len() <= t.len() && acc@ == t.take(
            acc@.len() as int,
        ) && j == i + 1 + esc(t.take(acc@.len() as int)).len() by {
            assert(t.take(0) =~= Seq::<char>::empty());
            assert(acc@ =~= t.take(0));
        }
    }
    loop
        invariant
            i + 1 <= j <= s@.len(),
            i < s@.len(),
            s@[i as int] == '"',
            forall|t: Seq<char>, rest: Seq<char>|
                s@.skip(i as int) == ser_str(t) + rest ==> acc@.len() <= t.len() && acc@ == t.take(
                    acc@.len() as int,
                ) && j == i + 1 + esc(t.take(acc@.len() as int)).len(),
        decreases s@.len() - j,
    {
        let ghost m = acc@.len() as int;
        if j >= s.len() {
            proof {
                assert forall|t: Seq<char>, rest: Seq<char>|
                    s@.skip(i as int) == ser_str(t) + rest implies false by {
                    lemma_str_align(s@, i as int, t, rest, m);
                    assert(s@.skip(j as int).len() >= 1);
                }
            }
            return None;
        }
        let c = s[j];
        if c == '"' {
            proof {
                assert forall|t: Seq<char>, rest: Seq<char>|
                    s@.skip(i as int) == ser_str(t) + rest implies acc@ == t && j + 1 == i
                    + ser_str(t).len() by {
                    lemma_str_align(s@, i as int, t, rest, m);
                    if m < t.len() {
                        lemma_esc_head(t.skip(m));
                        assert(s@.skip(j as int)[0] == esc(t.skip(m))[0]);
                        assert(false);
                    }
                    assert(t.take(m) =~= t);
                    assert(esc(t.take(m)) == esc(t));
                }
            }
            let st = crate::trusted_str::chars_to_string(&acc);
            return Some((st, j + 1));
        } else if c == '\\' {
            if j + 1 >= s.len() {
                proof {
                    assert forall|t: Seq<char>, rest: Seq<char>|
                        s@.skip(i as int) == ser_str(t) + rest implies false by {
                        lemma_str_align(s@, i as int, t, rest, m);
                        if m < t.len() {
                            lemma_esc_head(t.skip(m));
                            assert(s@.skip(j as int)[0] == esc(t.skip(m))[0]);
                            assert(esc(t.skip(m)).len() >= 2);
                            assert(s@.skip(j as int).len() >= 3);
                        } else {
                            assert(s@.skip(j as int)[0] == '"');
                        }
                    }
                }
                return None;
            }
            let e = s[j + 1];
            if e == 'u' {
                if s.len() - j < 6 {
                    proof {
                        assert forall|t: Seq<char>, rest: Seq<char>|
                            s@.skip(i as int) == ser_str(t) + rest implies false by {
                            lemma_u_escape_facts(s@, i as int, j as int, t, rest, m);
                        }
                    }
                    return None;
                }
                let v1 = match hex_value(s[j + 2]) {
                    Some(v) => v,
                    None => {
                        proof {
                            assert forall|t: Seq<char>, rest: Seq<char>|
                                s@.skip(i as int) == ser_str(t) + rest implies false by {
                                lemma_u_escape_facts(s@, i as int, j as int, t, rest, m);
                                assert(is_hex_digit('0'));
                                assert(is_hex_digit(hex_char(((t[m] as u32) / 16) as int)));
                                assert(is_hex_digit(hex_char(((t[m] as u32) % 16) as int)));
                            }
                        }
                        return None;
                    },
                };
                let v2 = match hex_value(s[j + 3]) {
                    Some(v) => v,
                    None => {
                        proof {
                            assert forall|t: Seq<char>, rest: Seq<char>|
                                s@.skip(i as int) == ser_str(t) + rest implies false by {
                                lemma_u_escape_facts(s@, i as int, j as int, t, rest, m);
                                assert(is_hex_digit('0'));
                                assert(is_hex_digit(hex_char(((t[m] as u32) / 16) as int)));
                                assert(is_hex_digit(hex_char(((t[m] as u32) % 16) as int)));
                            }
                        }
                        return None;
                    },
                };
                let v3 = match hex_value(s[j + 4]) {
                    Some(v) => v,
                    None => {
                        proof {
                            assert forall|t: Seq<char>, rest: Seq<char>|
                                s@.skip(i as int) == ser_str(t) + rest implies false by {
                                lemma_u_escape_facts(s@, i as int, j as int, t, rest, m);
                                assert(is_hex_digit('0'));
                                assert(is_hex_digit(hex_char(((t[m] as u32) / 16) as int)));
                                assert(is_hex_digit(hex_char(((t[m] as u32) % 16) as int)));
                            }
                        }
                        return None;
                    },
                };
                let v4 = match hex_value(s[j + 5]) {
                    Some(v) => v,
                    None => {
                        proof {
                            assert forall|t: Seq<char>, rest: Seq<char>|
                                s@.skip(i as int) == ser_str(t) + rest implies false by {
                                lemma_u_escape_facts(s@, i as int, j as int, t, rest, m);
                                assert(is_hex_digit('0'));
                                assert(is_hex_digit(hex_char(((t[m] as u32) / 16) as int)));
                                assert(is_hex_digit(hex_char(((t[m] as u32) % 16) as int)));
                            }
                        }
                        return None;
                    },
                };
                let code: u32 = ((v1 * 16 + v2) * 16 + v3) * 16 + v4;
                if 0xD800 <= code && code <= 0xDFFF {
                    proof {
                        assert forall|t: Seq<char>, rest: Seq<char>|
                            s@.skip(i as int) == ser_str(t) + rest implies false by {
                            lemma_u_escape_facts(s@, i as int, j as int, t, rest, m);
                            lemma_hex_pair(t[m]);
                            assert(code < 32);
                        }
                    }
                    return None;
                }
                let mapped = crate::trusted_str::char_from_code(code);
                proof {
                    let old_acc = acc@;
                    assert forall|t: Seq<char>, rest: Seq<char>|
                        s@.skip(i as int) == ser_str(t) + rest implies old_acc.push(mapped).len()
                        <= t.len() && old_acc.push(mapped) == t.take(
                        old_acc.push(mapped).len() as int,
                    ) && j + 6 == i + 1 + esc(t.take(old_acc.push(mapped).len() as int)).len() by {
                        lemma_u_escape_facts(s@, i as int, j as int, t, rest, m);
                        lemma_hex_pair(t[m]);
                        assert(code == t[m] as u32);
                        vstd::utf8::char_u32_cast(mapped, mapped as u32);
                        vstd::utf8::char_u32_cast(t[m], t[m] as u32);
                        assert(mapped == t[m]);
                        lemma_esc_take_one(t, m);
                        assert(old_acc.push(mapped) =~= t.take(m + 1));
                        assert(esc_char(t[m]).len() == 6);
                    }
                }
                acc.push(mapped);
                j = j + 6;
                continue;
            }
            let mapped: char;
            if e == '"' {
                mapped = '"';
            } else if e == '\\' {
                mapped = '\\';
            } else if e == '/' {
                mapped = '/';
            } else if e == 'n' {
                mapped = '\n';
            } else if e == 'r' {
                mapped = '\r';
            } else if e == 't' {
                mapped = '\t';
            } else if e == 'b' {
                mapped = '\u{0008}';
            } else if e == 'f' {
                mapped = '\u{000C}';
            } else {
                proof {
                    assert forall|t: Seq<char>, rest: Seq<char>|
                        s@.skip(i as int) == ser_str(t) + rest implies false by {
                        lemma_str_align(s@, i as int, t, rest, m);
                        if m < t.len() {
                            lemma_esc_head(t.skip(m));
                            assert(s@.skip(j as int)[0] == esc(t.skip(m))[0]);
                            assert(s@.skip(j as int)[1] == esc(t.skip(m))[1]);
                        } else {
                            assert(s@.skip(j as int)[0] == '"');
                        }
                    }
                }
                return None;
            }
            proof {
                let old_acc = acc@;
                assert forall|t: Seq<char>, rest: Seq<char>|
                    s@.skip(i as int) == ser_str(t) + rest implies old_acc.push(mapped).len()
                    <= t.len() && old_acc.push(mapped) == t.take(old_acc.push(mapped).len() as int)
                    && j + 2 == i + 1 + esc(t.take(old_acc.push(mapped).len() as int)).len() by {
                    lemma_str_align(s@, i as int, t, rest, m);
                    if m == t.len() {
                        assert(s@.skip(j as int)[0] == '"');
                        assert(false);
                    }
                    lemma_esc_head(t.skip(m));
                    assert(s@.skip(j as int)[0] == esc(t.skip(m))[0]);
                    assert(s@.skip(j as int)[1] == esc(t.skip(m))[1]);
                    assert(t.skip(m)[0] == t[m]);
                    assert(t[m] == mapped);
                    lemma_esc_take_one(t, m);
                    assert(old_acc.push(mapped) =~= t.take(m + 1));
                    assert(esc_char(t[m]).len() == 2);
                }
            }
            acc.push(mapped);
            j = j + 2;
        } else {
            proof {
                let old_acc = acc@;
                assert forall|t: Seq<char>, rest: Seq<char>|
                    s@.skip(i as int) == ser_str(t) + rest implies old_acc.push(c).len() <= t.len()
                    && old_acc.push(c) == t.take(old_acc.push(c).len() as int) && j + 1 == i + 1
                    + esc(t.take(old_acc.push(c).len() as int)).len() by {
                    lemma_str_align(s@, i as int, t, rest, m);
                    if m == t.len() {
                        assert(s@.skip(j as int)[0] == '"');
                        assert(false);
                    }
                    lemma_esc_head(t.skip(m));
                    assert(s@.skip(j as int)[0] == esc(t.skip(m))[0]);
                    assert(t.skip(m)[0] == t[m]);
                    assert(t[m] == c);
                    lemma_esc_take_one(t, m);
                    assert(old_acc.push(c) =~= t.take(m + 1));
                    assert(esc_char(t[m]).len() == 1);
                }
            }
            acc.push(c);
            j = j + 1;
        }
    }
}

/// Reads an integer literal beginning at `i`, maximal munch, rejecting
/// values outside `i64`. On the serialized form of any integer that fits
/// `i64`, followed by anything but a digit, returns exactly that integer.
pub(crate) fn parse_int_at(s: &Vec<char>, i: usize) -> (r: Option<(i64, usize)>)
    requires
        i <= s@.len(),
    ensures
        r matches Some((x, j)) ==> i < j <= s@.len(),
        forall|n: int, rest: Seq<char>|
            i64::MIN <= n <= i64::MAX && s@.skip(i as int) == ser_int(n) + rest && val_sep(rest)
                ==> match r {
                Some((x, j)) => x as int == n && j == i + ser_int(n).len(),
                None => false,
            },
{
    if i >= s.len() {
        proof {
            assert forall|n: int, rest: Seq<char>|
                i64::MIN <= n <= i64::MAX && s@.skip(i as int) == ser_int(n) + rest && val_sep(
                    rest,
                ) implies false by {
                lemma_ser_nat_digits(if n < 0 { -n } else { n });
                assert(s@.skip(i as int).len() == 0);
                assert((ser_int(n) + rest).len() >= 1);
            }
        }
        return None;
    }
    let neg = s[i] == '-';
    let start = if neg {
        i + 1
    } else {
        i
    };
    let mut j = start;
    let mut acc: u64 = 0;
    proof {
        assert(s@.subrange(start as int, j as int) =~= Seq::<char>::empty());
    }
    loop
        invariant
            i < s@.len(),
            i <= start <= j <= s@.len(),
            neg == (s@[i as int] == '-'),
            start == if neg {
                i + 1
            } else {
                i as int
            },
            forall|k: int| start <= k < j ==> is_digit_char(#[trigger] s@[k]),
            acc as int == dec_val(s@.subrange(start as int, j as int)),
        ensures
            i < s@.len(),
            i <= start <= j <= s@.len(),
            neg == (s@[i as int] == '-'),
            start == if neg {
                i + 1
            } else {
                i as int
            },
            forall|k: int| start <= k < j ==> is_digit_char(#[trigger] s@[k]),
            acc as int == dec_val(s@.subrange(start as int, j as int)),
            j == s@.len() || !is_digit_char(s@[j as int]),
        decreases s@.len() - j,
    {
        if j >= s.len() {
            break;
        }
        let c = s[j];
        if !is_digit(c) {
            break;
        }
        let d = digit_value(c);
        let wide: u128 = (acc as u128) * 10 + (d as u128);
        if wide > u64::MAX as u128 {
            proof {
                assert forall|n: int, rest: Seq<char>|
                    i64::MIN <= n <= i64::MAX && s@.skip(i as int) == ser_int(n) + rest && val_sep(
                        rest,
                    ) implies false by {
                    lemma_int_partial(s@, i as int, start as int, j + 1, n, rest, neg);
                    lemma_dec_val_take_one(s@.subrange(start as int, j + 1), j - start);
                    assert(s@.subrange(start as int, j + 1).take(j - start) =~= s@.subrange(
                        start as int,
                        j as int,
                    ));
                    assert(s@.subrange(start as int, j + 1)[j - start] == s@[j as int]);
                    assert(dec_val(s@.subrange(start as int, j + 1)) == acc as int * 10
                        + digit_val(c));
                    assert(wide <= 0x8000_0000_0000_0000u128);
                }
            }
            return None;
        }
        acc = wide as u64;
        j = j + 1;
        proof {
            lemma_dec_val_take_one(s@.subrange(start as int, j as int), j - 1 - start);
            assert(s@.subrange(start as int, j as int).take(j - 1 - start) =~= s@.subrange(
                start as int,
                j - 1,
            ));
            assert(s@.subrange(start as int, j as int)[j - 1 - start] == s@[j - 1]);
        }
    }
    if j == start {
        proof {
            assert forall|n: int, rest: Seq<char>|
                i64::MIN <= n <= i64::MAX && s@.skip(i as int) == ser_int(n) + rest && val_sep(
                    rest,
                ) implies false by {
                lemma_int_exit(s@, i as int, start as int, j as int, n, rest, neg);
            }
        }
        return None;
    }
    if neg {
        if acc > 0x8000_0000_0000_0000u64 {
            proof {
                assert forall|n: int, rest: Seq<char>|
                    i64::MIN <= n <= i64::MAX && s@.skip(i as int) == ser_int(n) + rest && val_sep(
                        rest,
                    ) implies false by {
                    lemma_int_exit(s@, i as int, start as int, j as int, n, rest, neg);
                }
            }
            return None;
        }
        let x: i64 = if acc == 0x8000_0000_0000_0000u64 {
            i64::MIN
        } else {
            -(acc as i64)
        };
        proof {
            assert forall|n: int, rest: Seq<char>|
                i64::MIN <= n <= i64::MAX && s@.skip(i as int) == ser_int(n) + rest && val_sep(
                    rest,
                ) implies x as int == n && j == i + ser_int(n).len() by {
                lemma_int_exit(s@, i as int, start as int, j as int, n, rest, neg);
            }
        }
        return Some((x, j));
    } else {
        if acc > 0x7FFF_FFFF_FFFF_FFFFu64 {
            proof {
                assert forall|n: int, rest: Seq<char>|
                    i64::MIN <= n <= i64::MAX && s@.skip(i as int) == ser_int(n) + rest && val_sep(
                        rest,
                    ) implies false by {
                    lemma_int_exit(s@, i as int, start as int, j as int, n, rest, neg);
                }
            }
            return None;
        }
        let x: i64 = acc as i64;
        proof {
            assert forall|n: int, rest: Seq<char>|
                i64::MIN <= n <= i64::MAX && s@.skip(i as int) == ser_int(n) + rest && val_sep(
                    rest,
                ) implies x as int == n && j == i + ser_int(n).len() by {
                lemma_int_exit(s@, i as int, start as int, j as int, n, rest, neg);
            }
        }
        return Some((x, j));
    }
}

/// Reads one JSON value beginning at `i`. On the serialized form of any
/// well-formed value, followed by a continuation after which a value can
/// still be recognized, returns exactly that value and consumes exactly
/// its text.
#[verifier::rlimit(100)]
pub(crate) fn parse_val_at(s: &Vec<char>, i: usize) -> (r: Option<(Json, usize)>)
    requires
        i <= s@.len(),
    ensures
        r matches Some((jv, j)) ==> i < j <= s@.len(),
        forall|v: JsonVal, rest: Seq<char>| #[trigger]
            canon_at(s@, i as int, v, rest) ==> match r {
                Some((jv, j)) => jv@ == v && j == i + ser_val(v).len(),
                None => false,
            },
    decreases s@.len() - i,
{
    if i >= s.len() {
        proof {
            assert forall|v: JsonVal, rest: Seq<char>| #[trigger]
                canon_at(s@, i as int, v, rest) implies false by {
                lemma_ser_first(v);
                assert(s@.skip(i as int).len() == 0);
            }
        }
        return None;
    }
    let c = s[i];
    if c == 'n' {
        if s.len() - i >= 4 && s[i + 1] == 'u' && s[i + 2] == 'l' && s[i + 3] == 'l' {
            proof {
                assert forall|v: JsonVal, rest: Seq<char>| #[trigger]
                    canon_at(s@, i as int, v, rest) implies view_of(Json::Null) == v && i + 4 == i
                    + ser_val(v).len() by {
                    lemma_ser_first(v);
                    assert(s@.skip(i as int)[0] == s@[i as int]);
                    assert(v is Null);
                }
            }
            return Some((Json::Null, i + 4));
        } else {
            proof {
                assert forall|v: JsonVal, rest: Seq<char>| #[trigger]
                    canon_at(s@, i as int, v, rest) implies false by {
                    lemma_ser_first(v);
                    assert(s@.skip(i as int)[0] == s@[i as int]);
                    assert(v is Null);
                    lemma_skip_prefix(s@, i as int, ser_val(v), rest);
                    assert(s@[i as int + 1] == 'u');
                    assert(s@[i as int + 2] == 'l');
                    assert(s@[i as int + 3] == 'l');
                }
            }
            return None;
        }
    } else if c == 't' {
        if s.len() - i >= 4 && s[i + 1] == 'r' && s[i + 2] == 'u' && s[i + 3] == 'e' {
            proof {
                assert forall|v: JsonVal, rest: Seq<char>| #[trigger]
                    canon_at(s@, i as int, v, rest) implies view_of(Json::Bool(true)) == v && i + 4
                    == i + ser_val(v).len() by {
                    lemma_ser_first(v);
                    assert(s@.skip(i as int)[0] == s@[i as int]);
                    assert(v == JsonVal::Bool(true));
                }
            }
            return Some((Json::Bool(true), i + 4));
        } else {
            proof {
                assert forall|v: JsonVal, rest: Seq<char>| #[trigger]
                    canon_at(s@, i as int, v, rest) implies false by {
                    lemma_ser_first(v);
                    assert(s@.skip(i as int)[0] == s@[i as int]);
                    assert(v == JsonVal::Bool(true));
                    lemma_skip_prefix(s@, i as int, ser_val(v), rest);
                    assert(s@[i as int + 1] == 'r');
                    assert(s@[i as int + 2] == 'u');
                    assert(s@[i as int + 3] == 'e');
                }
            }
            return None;
        }
    } else if c == 'f' {
        if s.len() - i >= 5 && s[i + 1] == 'a' && s[i + 2] == 'l' && s[i + 3] == 's' && s[i + 4]
            == 'e' {
            proof {
                assert forall|v: JsonVal, rest: Seq<char>| #[trigger]
                    canon_at(s@, i as int, v, rest) implies view_of(Json::Bool(false)) == v && i + 5
                    == i + ser_val(v).len() by {
                    lemma_ser_first(v);
                    assert(s@.skip(i as int)[0] == s@[i as int]);
                    assert(v == JsonVal::Bool(false));
                }
            }
            return Some((Json::Bool(false), i + 5));
        } else {
            proof {
                assert forall|v: JsonVal, rest: Seq<char>| #[trigger]
                    canon_at(s@, i as int, v, rest) implies false by {
                    lemma_ser_first(v);
                    assert(s@.skip(i as int)[0] == s@[i as int]);
                    assert(v == JsonVal::Bool(false));
                    lemma_skip_prefix(s@, i as int, ser_val(v), rest);
                    assert(s@[i as int + 1] == 'a');
                    assert(s@[i as int + 2] == 'l');
                    assert(s@[i as int + 3] == 's');
                    assert(s@[i as int + 4] == 'e');
                }
            }
            return None;
        }
    } else if c == '"' {
        let sr = parse_str_at(s, i);
        match sr {
            Some((st, j)) => {
                proof {
                    assert forall|v: JsonVal, rest: Seq<char>| #[trigger]
                        canon_at(s@, i as int, v, rest) implies view_of(Json::Str(st)) == v && j
                        == i + ser_val(v).len() by {
                        lemma_ser_first(v);
                        assert(s@.skip(i as int)[0] == s@[i as int]);
                        assert(v is Str);
                        let t = v->Str_0;
                        assert(s@.skip(i as int) == ser_str(t) + rest);
                    }
                }
                return Some((Json::Str(st), j));
            }
            None => {
                proof {
                    assert forall|v: JsonVal, rest: Seq<char>| #[trigger]
                        canon_at(s@, i as int, v, rest) implies false by {
                        lemma_ser_first(v);
                        assert(s@.skip(i as int)[0] == s@[i as int]);
                        assert(v is Str);
                        let t = v->Str_0;
                        assert(s@.skip(i as int) == ser_str(t) + rest);
                    }
                }
                return None;
            }
        }
    } else if c == '-' || is_digit(c) {
        let ir = parse_int_at(s, i);
        match ir {
            Some((x, j)) => {
                proof {
                    assert forall|v: JsonVal, rest: Seq<char>| #[trigger]
                        canon_at(s@, i as int, v, rest) implies view_of(Json::Int(x)) == v && j == i
                        + ser_val(v).len() by {
                        lemma_ser_first(v);
                        assert(s@.skip(i as int)[0] == s@[i as int]);
                        assert(v is Int);
                        let n = v->Int_0;
                        assert(i64::MIN <= n <= i64::MAX);
                        assert(s@.skip(i as int) == ser_int(n) + rest);
                    }
                }
                return Some((Json::Int(x), j));
            }
            None => {
                proof {
                    assert forall|v: JsonVal, rest: Seq<char>| #[trigger]
                        canon_at(s@, i as int, v, rest) implies false by {
                        lemma_ser_first(v);
                        assert(s@.skip(i as int)[0] == s@[i as int]);
                        assert(v is Int);
                        let n = v->Int_0;
                        assert(i64::MIN <= n <= i64::MAX);
                        assert(s@.skip(i as int) == ser_int(n) + rest);
                    }
                }
                return None;
            }
        }
    } else if c == '[' {
        let mut elems: Vec<Json> = Vec::new();
        let mut pos = skip_ws(s, i + 1);
        proof {
            assert forall|v: JsonVal, rest: Seq<char>| #[trigger]
                canon_at(s@, i as int, v, rest) implies v is Arr && s@.skip(i + 1) == ser_elems(
                v->Arr_0,
            ) + seq![']'] + rest && (v->Arr_0.len() > 0 ==> pos == i + 1) && (v->Arr_0.len() == 0
                ==> pos == i + 1 && s@[pos as int] == ']') by {
                lemma_ser_first(v);
                assert(s@.skip(i as int)[0] == s@[i as int]);
                assert(v is Arr);
                let a = v->Arr_0;
                assert(s@.skip(i as int) =~= seq!['['] + (ser_elems(a) + seq![']'] + rest));
                lemma_skip_prefix(s@, i as int, seq!['['], ser_elems(a) + seq![']'] + rest);
                if a.len() > 0 {
                    lemma_ser_elems_unfold(a, 0);
                    assert(a.skip(0) =~= a);
                    lemma_ser_first(a[0]);
                    assert(s@.skip(i + 1)[0] == ser_val(a[0])[0]);
                    assert(s@[i + 1] == ser_val(a[0])[0]);
                    assert(!is_ws_char(s@[i + 1]));
                } else {
                    assert(ser_elems(a).len() == 0);
                    assert(s@.skip(i + 1)[0] == ']');
                    assert(s@[i + 1] == ']');
                    assert(!is_ws_char(']'));
                }
            }
        }
        if pos < s.len() && s[pos] == ']' {
            proof {
                assert forall|v: JsonVal, rest: Seq<char>| #[trigger]
                    canon_at(s@, i as int, v, rest) implies view_of(Json::Arr(elems)) == v && pos
                    + 1 == i + ser_val(v).len() by {
                    let a = v->Arr_0;
                    if a.len() > 0 {
                        lemma_ser_elems_unfold(a, 0);
                        assert(a.skip(0) =~= a);
                        lemma_ser_first(a[0]);
                        assert(s@.skip(i + 1)[0] == ser_val(a[0])[0]);
                        assert(false);
                    }
                    assert(a =~= Seq::<JsonVal>::empty());
                    assert(view_of(Json::Arr(elems))->Arr_0 =~= a);
                    assert(ser_elems(a).len() == 0);
                    assert(ser_val(v).len() == 2);
                }
            }
            return Some((Json::Arr(elems), pos + 1));
        }
        proof {
            assert forall|v: JsonVal, rest: Seq<char>| #[trigger]
                canon_at(s@, i as int, v, rest) implies v is Arr && elems@.len() < v->Arr_0.len()
                && (forall|q: int|
                0 <= q < elems@.len() ==> view_of(#[trigger] elems@[q]) == v->Arr_0[q]) && s@.skip(
                pos as int,
            ) == ser_elems(v->Arr_0.skip(elems@.len() as int)) + seq![']'] + rest by {
                let a = v->Arr_0;
                if a.len() == 0 {
                    assert(s@[i + 1] == ']');
                    assert(pos == i + 1);
                    assert(s@.skip(i + 1).len() == 1 + rest.len());
                    assert(pos < s@.len());
                    assert(false);
                }
                assert(pos == i + 1);
                assert(a.skip(0) =~= a);
            }
        }
        loop
            invariant
                i < pos <= s@.len(),
                forall|v: JsonVal, rest: Seq<char>| #[trigger]
                    canon_at(s@, i as int, v, rest) ==> v is Arr && elems@.len()
                        < v->Arr_0.len() && (forall|q: int|
                        0 <= q < elems@.len() ==> view_of(#[trigger] elems@[q]) == v->Arr_0[q])
                        && s@.skip(pos as int) == ser_elems(v->Arr_0.skip(elems@.len() as int))
                        + seq![']'] + rest,
            decreases s@.len() - pos,
        {
            let ghost k = elems@.len() as int;
            proof {
                assert forall|v: JsonVal, rest: Seq<char>| #[trigger]
                    canon_at(s@, i as int, v, rest) implies canon_at(
                    s@,
                    pos as int,
                    v->Arr_0[k],
                    arr_tail(v->Arr_0, k, rest),
                ) by {
                    let a = v->Arr_0;
                    let tail = arr_tail(a, k, rest);
                    lemma_ser_elems_unfold(a, k);
                    assert(crate::json::wf_val(a[k]));
                    assert(s@.skip(pos as int) =~= ser_val(a[k]) + tail);
                    assert(tail[0] == ',' || tail[0] == ']');
                }
            }
            let er = parse_val_at(s, pos);
            match er {
                None => {
                    proof {
                        assert forall|v: JsonVal, rest: Seq<char>| #[trigger]
                            canon_at(s@, i as int, v, rest) implies false by {
                            assert(canon_at(s@, pos as int, v->Arr_0[k], arr_tail(v->Arr_0, k, rest)));
                        }
                    }
                    return None;
                }
                Some((jv, p2)) => {
                    let pos3 = skip_ws(s, p2);
                    proof {
                        assert forall|v: JsonVal, rest: Seq<char>| #[trigger]
                            canon_at(s@, i as int, v, rest) implies jv@ == v->Arr_0[k] && s@.skip(
                            p2 as int,
                        ) == arr_tail(v->Arr_0, k, rest) && pos3 == p2 && pos3 < s@.len() by {
                            let a = v->Arr_0;
                            let tail = arr_tail(a, k, rest);
                            assert(canon_at(s@, pos as int, a[k], tail));
                            lemma_skip_prefix(s@, pos as int, ser_val(a[k]), tail);
                            assert(tail[0] == ',' || tail[0] == ']');
                            assert(s@.skip(p2 as int)[0] == s@[p2 as int]);
                            assert(!is_ws_char(s@[p2 as int]));
                        }
                    }
                    elems.push(jv);
                    pos = p2;
                    if pos3 >= s.len() {
                        proof {
                            assert forall|v: JsonVal, rest: Seq<char>| #[trigger]
                                canon_at(s@, i as int, v, rest) implies false by {
                                assert(pos3 < s@.len());
                            }
                        }
                        return None;
                    }
                    let c2 = s[pos3];
                    if c2 == ']' {
                        proof {
                            assert forall|v: JsonVal, rest: Seq<char>| #[trigger]
                                canon_at(s@, i as int, v, rest) implies view_of(Json::Arr(elems))
                                == v && pos3 + 1 == i + ser_val(v).len() by {
                                let a = v->Arr_0;
                                let tail = arr_tail(a, k, rest);
                                lemma_ser_elems_unfold(a, k);
                                if k + 1 < a.len() {
                                    assert(s@[p2 as int] == tail[0]);
                                    assert(tail[0] == ',');
                                    assert(false);
                                }
                                assert(k + 1 == a.len());
                                assert(view_of(Json::Arr(elems))->Arr_0 =~= a);
                                assert(s@.skip(p2 as int).len() == 1 + rest.len());
                                assert(s@.skip(i as int).len() == ser_val(v).len() + rest.len());
                            }
                        }
                        return Some((Json::Arr(elems), pos3 + 1));
                    } else if c2 == ',' {
                        let pos4 = skip_ws(s, pos3 + 1);
                        proof {
                            assert forall|v: JsonVal, rest: Seq<char>| #[trigger]
                                canon_at(s@, i as int, v, rest) implies v is Arr && elems@.len()
                                < v->Arr_0.len() && (forall|q: int|
                                0 <= q < elems@.len() ==> view_of(#[trigger] elems@[q])
                                    == v->Arr_0[q]) && s@.skip(pos4 as int) == ser_elems(
                                v->Arr_0.skip(elems@.len() as int),
                            ) + seq![']'] + rest by {
                                let a = v->Arr_0;
                                let tail = arr_tail(a, k, rest);
                                lemma_ser_elems_unfold(a, k);
                                if k + 1 == a.len() {
                                    assert(s@[p2 as int] == tail[0]);
                                    assert(tail[0] == ']');
                                    assert(false);
                                }
                                assert(k + 1 < a.len());
                                assert(s@.skip(p2 as int) =~= seq![','] + (ser_elems(a.skip(k + 1))
                                    + seq![']'] + rest));
                                lemma_skip_prefix(
                                    s@,
                                    p2 as int,
                                    seq![','],
                                    ser_elems(a.skip(k + 1)) + seq![']'] + rest,
                                );
                                lemma_ser_elems_unfold(a, k + 1);
                                lemma_ser_first(a[k + 1]);
                                assert(s@.skip(p2 + 1)[0] == ser_val(a[k + 1])[0]);
                                assert(s@[p2 + 1] == ser_val(a[k + 1])[0]);
                                assert(!is_ws_char(s@[p2 + 1]));
                                assert(pos4 == p2 + 1);
                                assert(elems@.len() == k + 1);
                            }
                        }
                        pos = pos4;
                    } else {
                        proof {
                            assert forall|v: JsonVal, rest: Seq<char>| #[trigger]
                                canon_at(s@, i as int, v, rest) implies false by {
                                let a = v->Arr_0;
                                let tail = arr_tail(a, k, rest);
                                assert(s@[p2 as int] == tail[0]);
                                assert(tail[0] == ',' || tail[0] == ']');
                            }
                        }
                        return None;
                    }
                }
            }
        }
    } else if c == '{' {
        let mut fields: Vec<(String, Json)> = Vec::new();
        let mut pos = skip_ws(s, i + 1);
        proof {
            assert forall|v: JsonVal, rest: Seq<char>| #[trigger]
                canon_at(s@, i as int, v, rest) implies v is Obj && s@.skip(i + 1) == ser_fields(
                v->Obj_0,
            ) + seq!['}'] + rest && pos == i + 1 && (v->Obj_0.len() == 0 ==> s@[pos as int]
                == '}') by {
                lemma_ser_first(v);
                assert(s@.skip(i as int)[0] == s@[i as int]);
                assert(v is Obj);
                let o = v->Obj_0;
                assert(s@.skip(i as int) =~= seq!['{'] + (ser_fields(o) + seq!['}'] + rest));
                lemma_skip_prefix(s@, i as int, seq!['{'], ser_fields(o) + seq!['}'] + rest);
                if o.len() > 0 {
                    lemma_ser_fields_unfold(o, 0);
                    assert(o.skip(0) =~= o);
                    assert(ser_str(o[0].0)[0] == '"');
                    assert(s@.skip(i + 1)[0] == '"');
                    assert(s@[i + 1] == '"');
                    assert(!is_ws_char('"'));
                } else {
                    assert(ser_fields(o).len() == 0);
                    assert(s@.skip(i + 1)[0] == '}');
                    assert(s@[i + 1] == '}');
                    assert(!is_ws_char('}'));
                }
            }
        }
        if pos < s.len() && s[pos] == '}' {
            proof {
                assert forall|v: JsonVal, rest: Seq<char>| #[trigger]
                    canon_at(s@, i as int, v, rest) implies view_of(Json::Obj(fields)) == v && pos
                    + 1 == i + ser_val(v).len() by {
                    let o = v->Obj_0;
                    if o.len() > 0 {
                        lemma_ser_fields_unfold(o, 0);
                        assert(o.skip(0) =~= o);
                        assert(ser_str(o[0].0)[0] == '"');
                        assert(s@.skip(i + 1)[0] == '"');
                        assert(false);
                    }
                    assert(o =~= Seq::<(Seq<char>, JsonVal)>::empty());
                    assert(view_of(Json::Obj(fields))->Obj_0 =~= o);
                    assert(ser_fields(o).len() == 0);
                    assert(ser_val(v).len() == 2);
                }
            }
            return Some((Json::Obj(fields), pos + 1));
        }
        proof {
            assert forall|v: JsonVal, rest: Seq<char>| #[trigger]
                canon_at(s@, i as int, v, rest) implies v is Obj && fields@.len()
                < v->Obj_0.len() && (forall|q: int|
                0 <= q < fields@.len() ==> (#[trigger] fields@[q]).0@ == v->Obj_0[q].0 && view_of(
                    fields@[q].1,
                ) == v->Obj_0[q].1) && s@.skip(pos as int) == ser_fields(
                v->Obj_0.skip(fields@.len() as int),
            ) + seq!['}'] + rest by {
                let o = v->Obj_0;
                if o.len() == 0 {
                    assert(s@[i + 1] == '}');
                    assert(s@.skip(i + 1).len() == 1 + rest.len());
                    assert(pos < s@.len());
                    assert(false);
                }
                assert(o.skip(0) =~= o);
            }
        }
        loop
            invariant
                i < pos <= s@.len(),
                forall|v: JsonVal, rest: Seq<char>| #[trigger]
                    canon_at(s@, i as int, v, rest) ==> v is Obj && fields@.len()
                        < v->Obj_0.len() && (forall|q: int|
                        0 <= q < fields@.len() ==> (#[trigger] fields@[q]).0@ == v->Obj_0[q].0
                            && view_of(fields@[q].1) == v->Obj_0[q].1) && s@.skip(pos as int)
                        == ser_fields(v->Obj_0.skip(fields@.len() as int)) + seq!['}'] + rest,
            decreases s@.len() - pos,
        {
            let ghost k = fields@.len() as int;
            proof {
                assert forall|v: JsonVal, rest: Seq<char>| #[trigger]
                    canon_at(s@, i as int, v, rest) implies s@.skip(pos as int) == ser_str(
                    v->Obj_0[k].0,
                ) + key_tail(v->Obj_0, k, rest) by {
                    let o = v->Obj_0;
                    lemma_ser_fields_unfold(o, k);
                    assert(s@.skip(pos as int) =~= ser_str(o[k].0) + key_tail(o, k, rest));
                }
            }
            let sr = parse_str_at(s, pos);
            match sr {
                None => {
                    proof {
                        assert forall|v: JsonVal, rest: Seq<char>| #[trigger]
                            canon_at(s@, i as int, v, rest) implies false by {
                            assert(s@.skip(pos as int) == ser_str(v->Obj_0[k].0) + key_tail(
                                v->Obj_0,
                                k,
                                rest,
                            ));
                        }
                    }
                    return None;
                }
                Some((key, p2)) => {
                    let p2c = skip_ws(s, p2);
                    proof {
                        assert forall|v: JsonVal, rest: Seq<char>| #[trigger]
                            canon_at(s@, i as int, v, rest) implies key@ == v->Obj_0[k].0
                            && s@.skip(p2 as int) == key_tail(v->Obj_0, k, rest) && p2 < s@.len()
                            && s@[p2 as int] == ':' && p2c == p2 by {
                            let o = v->Obj_0;
                            let tail = key_tail(o, k, rest);
                            assert(s@.skip(pos as int) == ser_str(o[k].0) + tail);
                            lemma_skip_prefix(s@, pos as int, ser_str(o[k].0), tail);
                            assert(s@.skip(p2 as int)[0] == tail[0]);
                            assert(tail[0] == ':');
                            assert(s@[p2 as int] == ':');
                            assert(!is_ws_char(':'));
                        }
                    }
                    if p2c >= s.len() || s[p2c] != ':' {
                        proof {
                            assert forall|v: JsonVal, rest: Seq<char>| #[trigger]
                                canon_at(s@, i as int, v, rest) implies false by {
                                assert(p2c == p2 && p2 < s@.len() && s@[p2 as int] == ':');
                            }
                        }
                        return None;
                    }
                    let vpos = p2c + 1;
                    let vpos2 = skip_ws(s, vpos);
                    proof {
                        assert forall|v: JsonVal, rest: Seq<char>| #[trigger]
                            canon_at(s@, i as int, v, rest) implies canon_at(
                            s@,
                            vpos2 as int,
                            v->Obj_0[k].1,
                            arr_tail_obj(v->Obj_0, k, rest),
                        ) && vpos2 == p2 + 1 by {
                            let o = v->Obj_0;
                            let tail = arr_tail_obj(o, k, rest);
                            assert(s@.skip(p2 as int) == key_tail(o, k, rest));
                            assert(s@.skip(p2 as int) =~= seq![':'] + (ser_val(o[k].1) + tail));
                            lemma_skip_prefix(s@, p2 as int, seq![':'], ser_val(o[k].1) + tail);
                            assert(crate::json::wf_val(o[k].1));
                            assert(tail[0] == ',' || tail[0] == '}');
                            lemma_ser_first(o[k].1);
                            assert(s@.skip(p2 + 1)[0] == ser_val(o[k].1)[0]);
                            assert(s@[p2 + 1] == ser_val(o[k].1)[0]);
                            assert(!is_ws_char(s@[p2 + 1]));
                            assert(vpos == p2 + 1);
                            assert(vpos2 == vpos);
                        }
                    }
                    let er = parse_val_at(s, vpos2);
                    match er {
                        None => {
                            proof {
                                assert forall|v: JsonVal, rest: Seq<char>| #[trigger]
                                    canon_at(s@, i as int, v, rest) implies false by {
                                    assert(canon_at(
                                        s@,
                                        vpos2 as int,
                                        v->Obj_0[k].1,
                                        arr_tail_obj(v->Obj_0, k, rest),
                                    ));
                                }
                            }
                            return None;
                        }
                        Some((jv, p3)) => {
                            let pos3 = skip_ws(s, p3);
                            proof {
                                assert forall|v: JsonVal, rest: Seq<char>| #[trigger]
                                    canon_at(s@, i as int, v, rest) implies jv@ == v->Obj_0[k].1
                                    && s@.skip(p3 as int) == arr_tail_obj(v->Obj_0, k, rest) && pos3
                                    == p3 && pos3 < s@.len() by {
                                    let o = v->Obj_0;
                                    let tail = arr_tail_obj(o, k, rest);
                                    assert(canon_at(s@, vpos2 as int, o[k].1, tail));
                                    lemma_skip_prefix(s@, vpos2 as int, ser_val(o[k].1), tail);
                                    assert(s@.skip(p3 as int)[0] == tail[0]);
                                    assert(tail[0] == ',' || tail[0] == '}');
                                    assert(!is_ws_char(s@[p3 as int]));
                                }
                            }
                            fields.push((key, jv));
                            pos = p3;
                            if pos3 >= s.len() {
                                proof {
                                    assert forall|v: JsonVal, rest: Seq<char>| #[trigger]
                                        canon_at(s@, i as int, v, rest) implies false by {
                                        assert(pos3 < s@.len());
                                    }
                                }
                                return None;
                            }
                            let c2 = s[pos3];
                            if c2 == '}' {
                                proof {
                                    assert forall|v: JsonVal, rest: Seq<char>| #[trigger]
                                        canon_at(s@, i as int, v, rest) implies view_of(
                                        Json::Obj(fields),
                                    ) == v && pos3 + 1 == i + ser_val(v).len() by {
                                        let o = v->Obj_0;
                                        let tail = arr_tail_obj(o, k, rest);
                                        if k + 1 < o.len() {
                                            assert(s@[p3 as int] == tail[0]);
                                            assert(tail[0] == ',');
                                            assert(false);
                                        }
                                        assert(k + 1 == o.len());
                                        assert(view_of(Json::Obj(fields))->Obj_0 =~= o);
                                        assert(s@.skip(p3 as int).len() == 1 + rest.len());
                                        assert(s@.skip(i as int).len() == ser_val(v).len()
                                            + rest.len());
                                    }
                                }
                                return Some((Json::Obj(fields), pos3 + 1));
                            } else if c2 == ',' {
                                let pos4 = skip_ws(s, pos3 + 1);
                                proof {
                                    assert forall|v: JsonVal, rest: Seq<char>| #[trigger]
                                        canon_at(s@, i as int, v, rest) implies v is Obj
                                        && fields@.len() < v->Obj_0.len() && (forall|q: int|
                                        0 <= q < fields@.len() ==> (#[trigger] fields@[q]).0@
                                            == v->Obj_0[q].0 && view_of(fields@[q].1)
                                            == v->Obj_0[q].1) && s@.skip(pos4 as int) == ser_fields(
                                        v->Obj_0.skip(fields@.len() as int),
                                    ) + seq!['}'] + rest by {
                                        let o = v->Obj_0;
                                        let tail = arr_tail_obj(o, k, rest);
                                        if k + 1 == o.len() {
                                            assert(s@[p3 as int] == tail[0]);
                                            assert(tail[0] == '}');
                                            assert(false);
                                        }
                                        assert(k + 1 < o.len());
                                        assert(s@.skip(p3 as int) =~= seq![','] + (ser_fields(
                                            o.skip(k + 1),
                                        ) + seq!['}'] + rest));
                                        lemma_skip_prefix(
                                            s@,
                                            p3 as int,
                                            seq![','],
                                            ser_fields(o.skip(k + 1)) + seq!['}'] + rest,
                                        );
                                        lemma_ser_fields_unfold(o, k + 1);
                                        assert(ser_str(o[k + 1].0)[0] == '"');
                                        assert(s@.skip(p3 + 1)[0] == '"');
                                        assert(s@[p3 + 1] == '"');
                                        assert(!is_ws_char('"'));
                                        assert(pos4 == p3 + 1);
                                        assert(fields@.len() == k + 1);
                                    }
                                }
                                pos = pos4;
                            } else {
                                proof {
                                    assert forall|v: JsonVal, rest: Seq<char>| #[trigger]
                                        canon_at(s@, i as int, v, rest) implies false by {
                                        let o = v->Obj_0;
                                        let tail = arr_tail_obj(o, k, rest);
                                        assert(s@[p3 as int] == tail[0]);
                                        assert(tail[0] == ',' || tail[0] == '}');
                                    }
                                }
                                return None;
                            }
                        }
                    }
                }
            }
        }
    } else {
        proof {
            assert forall|v: JsonVal, rest: Seq<char>| #[trigger]
                canon_at(s@, i as int, v, rest) implies false by {
                lemma_ser_first(v);
                assert(s@.skip(i as int)[0] == s@[i as int]);
            }
        }
        return None;
    }
}

/// The text that follows element `k` inside a serialized array: a comma
/// and the remaining elements when more follow, then the closing bracket
/// and the continuation.
pub open spec fn arr_tail(a: Seq<JsonVal>, k: int, rest: Seq<char>) -> Seq<char> {
    if k + 1 < a.len() {
        seq![','] + ser_elems(a.skip(k + 1)) + seq![']'] + rest
    } else {
        seq![']'] + rest
    }
}

/// The text that follows field `k`'s name inside a serialized object: the
/// colon, the field's value, and what follows the value.
pub open spec fn key_tail(o: Seq<(Seq<char>, JsonVal)>, k: int, rest: Seq<char>) -> Seq<char> {
    seq![':'] + ser_val(o[k].1) + arr_tail_obj(o, k, rest)
}

/// The text that follows field `k`'s value inside a serialized object.
pub open spec fn arr_tail_obj(o: Seq<(Seq<char>, JsonVal)>, k: int, rest: Seq<char>) -> Seq<char> {
    if k + 1 < o.len() {
        seq![','] + ser_fields(o.skip(k + 1)) + seq!['}'] + rest
    } else {
        seq!['}'] + rest
    }
}

/// Parses a complete JSON document: optional surrounding whitespace, one
/// value, nothing else. On the exact text of any well-formed value,
/// returns exactly that value.
pub fn parse_text(text: &str) -> (r: Option<Json>)
    ensures
        forall|v: JsonVal| #[trigger]
            crate::json::wf_val(v) && text@ == ser_val(v) ==> match r {
                Some(jv) => jv@ == v,
                None => false,
            },
{
    let chars = crate::trusted_str::str_to_chars(text);
    let start = skip_ws(&chars, 0);
    proof {
        assert forall|v: JsonVal|
            crate::json::wf_val(v) && text@ == ser_val(v) implies canon_at(
            chars@,
            start as int,
            v,
            Seq::<char>::empty(),
        ) && start == 0 by {
            lemma_ser_first(v);
            assert(chars@.skip(0) =~= ser_val(v) + Seq::<char>::empty());
            assert(chars@.skip(0)[0] == chars@[0]);
            assert(!is_ws_char(chars@[0]));
            assert(start == 0);
        }
    }
    match parse_val_at(&chars, start) {
        None => {
            proof {
                assert forall|v: JsonVal|
                    crate::json::wf_val(v) && text@ == ser_val(v) implies false by {
                    assert(canon_at(chars@, start as int, v, Seq::<char>::empty()));
                }
            }
            None
        }
        Some((jv, j)) => {
            let end = skip_ws(&chars, j);
            if end == chars.len() {
                Some(jv)
            } else {
                proof {
                    assert forall|v: JsonVal|
                        crate::json::wf_val(v) && text@ == ser_val(v) implies false by {
                        assert(canon_at(chars@, start as int, v, Seq::<char>::empty()));
                        assert(j == ser_val(v).len());
                        assert(j == chars@.len());
                        assert(end == j);
                    }
                }
                None
            }
        }
    }
}

} // verus!
