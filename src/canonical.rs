//! The canonical serialization of a record: a compact JSON object whose keys
//! follow the declaration order of the fields. It is the sole input of the
//! content hash.

use vstd::prelude::*;
use crate::naming::{camel_of, to_camel_case};
use crate::record::{FieldDecl, FieldValue, RecordView, ValueView};
use crate::text::{decimal, digit_char};

verus! {

/// The JSON string literal, as serde_json writes it, of a text that needs
/// escapes.
pub uninterp spec fn json_escaped(s: Seq<char>) -> Seq<u8>;

/// A text that JSON writes without escapes: printable ASCII, no quote and
/// no backslash.
pub open spec fn plain_text(s: Seq<char>) -> bool {
    forall|i: int|
        0 <= i < s.len() ==> {
            let c = #[trigger] s[i];
            ' ' <= c && c <= '~' && c != '"' && c != '\\'
        }
}

/// The bytes of an ASCII text.
pub open spec fn ascii_bytes(s: Seq<char>) -> Seq<u8> {
    Seq::new(s.len(), |i: int| s[i] as u8)
}

/// The JSON string literal of a text: a plain text between two quotes, and
/// serde_json's escaped form of any other.
pub open spec fn json_string(s: Seq<char>) -> Seq<u8> {
    if plain_text(s) {
        seq![34u8] + ascii_bytes(s) + seq![34u8]
    } else {
        json_escaped(s)
    }
}

/// Relies on `serde_json::to_vec` on a `str`: the JSON string literal of the
/// text. serde_json escapes only control characters, the quote and the
/// backslash, so a plain text is written between two quotes as it is.
/// Writing into a `Vec` cannot fail.
#[verifier::external_body]
fn quote_json(s: &str) -> (r: Vec<u8>)
    ensures
        r@ == json_string(s@),
        !plain_text(s@) ==> r@ == json_escaped(s@),
{
    match serde_json::to_vec(s) {
        Ok(v) => v,
        Err(_) => Vec::new(),
    }
}

/// The JSON key of a field: its override, or its camel-case name.
pub open spec fn key_of(f: FieldDecl) -> Seq<char> {
    match f.json_name {
        Some(n) => n@,
        None => camel_of(f.name@),
    }
}

/// The decimal text of an integer, with a leading minus when negative.
pub open spec fn int_text(i: int) -> Seq<char> {
    if i < 0 {
        seq!['-'] + decimal((-i) as nat)
    } else {
        decimal(i as nat)
    }
}

pub open spec fn true_bytes() -> Seq<u8> {
    seq![116u8, 114u8, 117u8, 101u8]
}

pub open spec fn false_bytes() -> Seq<u8> {
    seq![102u8, 97u8, 108u8, 115u8, 101u8]
}

pub open spec fn null_bytes() -> Seq<u8> {
    seq![110u8, 117u8, 108u8, 108u8]
}

/// The JSON text of a value.
pub open spec fn value_json(v: ValueView) -> Seq<u8> {
    match v {
        ValueView::Text(s) => json_string(s),
        ValueView::Int(i) => ascii_bytes(int_text(i)),
        ValueView::UInt(n) => ascii_bytes(decimal(n)),
        ValueView::Bool(b) => if b {
            true_bytes()
        } else {
            false_bytes()
        },
        ValueView::Datetime(_, t) => json_string(t),
        ValueView::Null => null_bytes(),
    }
}

/// The JSON text of one member: the key, a colon, the value.
pub open spec fn member_json(f: FieldDecl, v: ValueView) -> Seq<u8> {
    json_string(key_of(f)) + seq![58u8] + value_json(v)
}

/// The first `n` members, separated by commas.
pub open spec fn members_json(fields: Seq<FieldDecl>, values: Seq<ValueView>, n: nat) -> Seq<u8>
    decreases n,
{
    if n == 0 {
        Seq::empty()
    } else if n == 1 {
        member_json(fields[0], values[0])
    } else {
        members_json(fields, values, (n - 1) as nat) + seq![44u8] + member_json(
            fields[n - 1],
            values[n - 1],
        )
    }
}

/// The canonical serialization of a record.
pub open spec fn canonical_json(r: RecordView) -> Seq<u8> {
    seq![123u8] + members_json(r.fields, r.values, r.fields.len()) + seq![125u8]
}

proof fn lemma_ascii_push(s: Seq<char>, c: char)
    ensures
        ascii_bytes(s.push(c)) == ascii_bytes(s).push(c as u8),
{
    assert(ascii_bytes(s.push(c)) =~= ascii_bytes(s).push(c as u8));
}

proof fn lemma_ascii_concat(a: Seq<char>, b: Seq<char>)
    ensures
        ascii_bytes(a + b) == ascii_bytes(a) + ascii_bytes(b),
{
    assert(ascii_bytes(a + b) =~= ascii_bytes(a) + ascii_bytes(b));
}

/// Appends the decimal digits of `n` to `out`.
fn push_decimal_bytes(out: &mut Vec<u8>, n: u64)
    ensures
        final(out)@ == old(out)@ + ascii_bytes(decimal(n as nat)),
    decreases n,
{
    if n >= 10 {
        push_decimal_bytes(out, n / 10);
    }
    let d: u8 = (n % 10) as u8;
    out.push(48u8 + d);
    proof {
        let dc = digit_char((n % 10) as nat);
        assert(dc as u8 == 48u8 + d);
        if n >= 10 {
            lemma_ascii_push(decimal((n / 10) as nat), dc);
        } else {
            assert(ascii_bytes(seq![dc]) =~= seq![dc as u8]);
        }
    }
    assert(final(out)@ =~= old(out)@ + ascii_bytes(decimal(n as nat)));
}

/// Appends all of `src` to `out`.
fn push_all(out: &mut Vec<u8>, src: &Vec<u8>)
    ensures
        final(out)@ == old(out)@ + src@,
{
    let mut i: usize = 0;
    while i < src.len()
        invariant
            i <= src@.len(),
            out@ == old(out)@ + src@.subrange(0, i as int),
        decreases src@.len() - i,
    {
        out.push(src[i]);
        assert(src@.subrange(0, i + 1) =~= src@.subrange(0, i as int).push(src@[i as int]));
        i = i + 1;
    }
    assert(src@.subrange(0, src@.len() as int) =~= src@);
}

/// Appends the JSON text of `v` to `out`.
fn push_value_json(out: &mut Vec<u8>, v: &FieldValue)
    ensures
        final(out)@ == old(out)@ + value_json(v@),
{
    match v {
        FieldValue::Text(s) => {
            let q = quote_json(s.as_str());
            push_all(out, &q);
        },
        FieldValue::Int(i) => {
            if *i < 0 {
                out.push(45u8);
                let mag: u64 = if *i == i64::MIN {
                    9223372036854775808u64
                } else {
                    (-*i) as u64
                };
                push_decimal_bytes(out, mag);
                proof {
                    lemma_ascii_concat(seq!['-'], decimal(mag as nat));
                    assert(ascii_bytes(seq!['-']) =~= seq![45u8]);
                }
            } else {
                push_decimal_bytes(out, *i as u64);
            }
        },
        FieldValue::UInt(n) => {
            push_decimal_bytes(out, *n);
        },
        FieldValue::Bool(b) => {
            if *b {
                out.push(116u8);
                out.push(114u8);
                out.push(117u8);
                out.push(101u8);
            } else {
                out.push(102u8);
                out.push(97u8);
                out.push(108u8);
                out.push(115u8);
                out.push(101u8);
            }
        },
        FieldValue::Datetime(d) => {
            let t = d.text();
            let q = quote_json(t.as_str());
            push_all(out, &q);
        },
        FieldValue::Null => {
            out.push(110u8);
            out.push(117u8);
            out.push(108u8);
            out.push(108u8);
        },
    }
    assert(final(out)@ =~= old(out)@ + value_json(v@));
}

/// The JSON key of a field.
pub fn json_key(f: &FieldDecl) -> (r: String)
    ensures
        r@ == key_of(*f),
{
    match &f.json_name {
        Some(n) => n.clone(),
        None => to_camel_case(f.name.as_str()),
    }
}

/// The canonical serialization of the values `values` of fields `fields`.
pub fn canonical_bytes(fields: &Vec<FieldDecl>, values: &Vec<FieldValue>) -> (r: Vec<u8>)
    requires
        values@.len() == fields@.len(),
    ensures
        r@ == canonical_json(
            RecordView { fields: fields@, values: values@.map_values(|v: FieldValue| v@) },
        ),
{
    let ghost vs = values@.map_values(|v: FieldValue| v@);
    let mut out: Vec<u8> = Vec::new();
    out.push(123u8);
    let mut i: usize = 0;
    while i < fields.len()
        invariant
            values@.len() == fields@.len(),
            vs == values@.map_values(|v: FieldValue| v@),
            i <= fields@.len(),
            out@ == seq![123u8] + members_json(fields@, vs, i as nat),
        decreases fields@.len() - i,
    {
        let ghost before = out@;
        if i > 0 {
            out.push(44u8);
        }
        let key = json_key(&fields[i]);
        let k = quote_json(key.as_str());
        push_all(&mut out, &k);
        out.push(58u8);
        push_value_json(&mut out, &values[i]);
        assert(vs[i as int] == values@[i as int]@);
        if i > 0 {
            assert(out@ =~= before + seq![44u8] + member_json(fields@[i as int], vs[i as int]));
        } else {
            assert(out@ =~= before + member_json(fields@[i as int], vs[i as int]));
        }
        i = i + 1;
    }
    out.push(125u8);
    out
}

/// Replacing one value by another of the same JSON length keeps the length
/// of the members' text.
pub proof fn lemma_members_len(
    fields: Seq<FieldDecl>,
    a: Seq<ValueView>,
    b: Seq<ValueView>,
    n: nat,
    k: int,
)
    requires
        a.len() == fields.len(),
        b.len() == fields.len(),
        n <= fields.len(),
        forall|i: int| 0 <= i < a.len() && i != k ==> a[i] == b[i],
        0 <= k < a.len() ==> value_json(a[k]).len() == value_json(b[k]).len(),
    ensures
        members_json(fields, a, n).len() == members_json(fields, b, n).len(),
    decreases n,
{
    if n > 1 {
        lemma_members_len(fields, a, b, (n - 1) as nat, k);
    }
}

/// Two value lists that agree below `n` give the same members' text.
proof fn lemma_members_eq(fields: Seq<FieldDecl>, a: Seq<ValueView>, b: Seq<ValueView>, n: nat)
    requires
        n <= a.len(),
        n <= b.len(),
        forall|i: int| 0 <= i < n ==> a[i] == b[i],
    ensures
        members_json(fields, a, n) == members_json(fields, b, n),
    decreases n,
{
    if n > 1 {
        lemma_members_eq(fields, a, b, (n - 1) as nat);
    }
}

proof fn lemma_concat_left_cancel(x: Seq<u8>, v: Seq<u8>, w: Seq<u8>)
    requires
        x + v == x + w,
    ensures
        v == w,
{
    assert(v =~= (x + v).subrange(x.len() as int, (x + v).len() as int));
    assert(w =~= (x + w).subrange(x.len() as int, (x + w).len() as int));
}

proof fn lemma_concat_right_cancel(p: Seq<u8>, q: Seq<u8>, t: Seq<u8>)
    requires
        p + t == q + t,
    ensures
        p == q,
{
    assert((p + t).len() == p.len() + t.len());
    assert((q + t).len() == q.len() + t.len());
    assert(p.len() == q.len());
    assert(p =~= (p + t).subrange(0, p.len() as int));
    assert(q =~= (q + t).subrange(0, q.len() as int));
}

/// Replacing one value by another whose JSON text differs changes the
/// members' text that covers it.
pub proof fn lemma_members_differ(
    fields: Seq<FieldDecl>,
    a: Seq<ValueView>,
    b: Seq<ValueView>,
    n: nat,
    k: int,
)
    requires
        a.len() == fields.len(),
        b.len() == fields.len(),
        0 <= k < n <= fields.len(),
        forall|i: int| 0 <= i < a.len() && i != k ==> a[i] == b[i],
        value_json(a[k]) != value_json(b[k]),
    ensures
        members_json(fields, a, n) != members_json(fields, b, n),
    decreases n,
{
    let ma = members_json(fields, a, n);
    let mb = members_json(fields, b, n);
    if n == k + 1 {
        lemma_members_eq(fields, a, b, k as nat);
        let x = if k == 0 {
            json_string(key_of(fields[k])) + seq![58u8]
        } else {
            members_json(fields, a, k as nat) + seq![44u8] + json_string(key_of(fields[k])) + seq![58u8]
        };
        assert(ma =~= x + value_json(a[k]));
        assert(mb =~= x + value_json(b[k]));
        if ma == mb {
            lemma_concat_left_cancel(x, value_json(a[k]), value_json(b[k]));
        }
    } else {
        lemma_members_differ(fields, a, b, (n - 1) as nat, k);
        let t = seq![44u8] + member_json(fields[n - 1], a[n - 1]);
        assert(a[n - 1] == b[n - 1]);
        assert(ma =~= members_json(fields, a, (n - 1) as nat) + t);
        assert(mb =~= members_json(fields, b, (n - 1) as nat) + t);
        if ma == mb {
            lemma_concat_right_cancel(
                members_json(fields, a, (n - 1) as nat),
                members_json(fields, b, (n - 1) as nat),
                t,
            );
        }
    }
}

/// Replacing one value by another whose JSON text differs changes the
/// canonical serialization.
pub proof fn lemma_canonical_differs(r: RecordView, k: int, v: ValueView)
    requires
        r.values.len() == r.fields.len(),
        0 <= k < r.fields.len(),
        value_json(r.values[k]) != value_json(v),
    ensures
        canonical_json(r) != canonical_json(RecordView { fields: r.fields, values: r.values.update(k, v) }),
{
    let b = r.values.update(k, v);
    lemma_members_differ(r.fields, r.values, b, r.fields.len(), k);
    let ma = members_json(r.fields, r.values, r.fields.len());
    let mb = members_json(r.fields, b, r.fields.len());
    let ca = canonical_json(r);
    let cb = canonical_json(RecordView { fields: r.fields, values: b });
    assert(ca =~= seq![123u8] + (ma + seq![125u8]));
    assert(cb =~= seq![123u8] + (mb + seq![125u8]));
    if ca == cb {
        lemma_concat_left_cancel(seq![123u8], ma + seq![125u8], mb + seq![125u8]);
        lemma_concat_right_cancel(ma, mb, seq![125u8]);
    }
}

/// Two different plain texts have different JSON texts.
pub proof fn lemma_plain_json_injective(s: Seq<char>, t: Seq<char>)
    requires
        plain_text(s),
        plain_text(t),
        s != t,
    ensures
        json_string(s) != json_string(t),
{
    if json_string(s) == json_string(t) {
        let x = seq![34u8];
        lemma_concat_right_cancel(x + ascii_bytes(s), x + ascii_bytes(t), seq![34u8]);
        lemma_concat_left_cancel(x, ascii_bytes(s), ascii_bytes(t));
        assert(s.len() == t.len());
        assert forall|i: int| 0 <= i < s.len() implies s[i] == t[i] by {
            assert(ascii_bytes(s)[i] == ascii_bytes(t)[i]);
            let c = s[i];
            let d = t[i];
            assert(' ' <= c && c <= '~');
            assert(' ' <= d && d <= '~');
            assert((c as u8) == (d as u8));
        }
        assert(s =~= t);
    }
}

} // verus!
