//! The canonical text of a Blake3-256 digest: the code `E` followed by the
//! last 43 characters of the base64url text of one zero byte and the 32
//! digest bytes.

use vstd::prelude::*;
use crate::canonical::plain_text;
use crate::said::{well_encoded, SaidEncoding};

verus! {

/// The base64url character of a sextet.
pub open spec fn b64_char(v: int) -> char {
    if v < 26 {
        ((65 + v) as u8) as char
    } else if v < 52 {
        ((97 + v - 26) as u8) as char
    } else if v < 62 {
        ((48 + v - 52) as u8) as char
    } else if v == 62 {
        '-'
    } else {
        '_'
    }
}

/// The four characters of a group of three bytes.
pub open spec fn b64_group(b0: u8, b1: u8, b2: u8) -> Seq<char> {
    let n = b0 as int * 65536 + b1 as int * 256 + b2 as int;
    seq![b64_char(n / 262144), b64_char((n / 4096) % 64), b64_char((n / 64) % 64), b64_char(n % 64)]
}

/// The base64url text of bytes whose count is a multiple of three.
pub open spec fn b64_groups(b: Seq<u8>) -> Seq<char>
    decreases b.len(),
{
    if b.len() < 3 {
        Seq::empty()
    } else {
        b64_group(b[0], b[1], b[2]) + b64_groups(b.subrange(3, b.len() as int))
    }
}

/// The canonical text of a Blake3-256 digest.
pub open spec fn qb64_blake3(d: Seq<u8>) -> Seq<char> {
    seq!['E'] + b64_groups(seq![0u8] + d).drop_first()
}

/// The base64url character of a sextet.
fn b64_char_of(v: u32) -> (r: char)
    requires
        v < 64,
    ensures
        r == b64_char(v as int),
{
    if v < 26 {
        ((65 + v) as u8) as char
    } else if v < 52 {
        ((97 + v - 26) as u8) as char
    } else if v < 62 {
        ((48 + v - 52) as u8) as char
    } else if v == 62 {
        '-'
    } else {
        '_'
    }
}

/// The canonical text of a Blake3-256 digest.
pub fn encode_blake3(d: &Vec<u8>) -> (r: String)
    requires
        d@.len() == 32,
    ensures
        r@ == qb64_blake3(d@),
        r@.len() == 44,
{
    let mut b: Vec<u8> = Vec::new();
    b.push(0u8);
    let mut k: usize = 0;
    while k < d.len()
        invariant
            k <= d@.len(),
            b@ == seq![0u8] + d@.subrange(0, k as int),
        decreases d@.len() - k,
    {
        b.push(d[k]);
        assert(d@.subrange(0, k + 1) =~= d@.subrange(0, k as int).push(d@[k as int]));
        k = k + 1;
    }
    assert(d@.subrange(0, 32) =~= d@);
    let ghost all = b@;
    let mut chars: Vec<char> = Vec::new();
    let mut i: usize = 0;
    assert(all.subrange(0, 33) =~= all);
    assert(chars@ + b64_groups(all) =~= b64_groups(all));
    while i < 11
        invariant
            b@ == all,
            all.len() == 33,
            i <= 11,
            chars@ + b64_groups(all.subrange(3 * i as int, 33)) == b64_groups(all),
            chars@.len() == 4 * i,
        decreases 11 - i,
    {
        let b0 = b[3 * i];
        let b1 = b[3 * i + 1];
        let b2 = b[3 * i + 2];
        let n: u32 = (b0 as u32) * 65536 + (b1 as u32) * 256 + (b2 as u32);
        let ghost rest = all.subrange(3 * i as int, 33);
        assert(rest[0] == b0 && rest[1] == b1 && rest[2] == b2);
        assert(rest.subrange(3, rest.len() as int) =~= all.subrange(3 * (i + 1) as int, 33));
        assert(n / 262144 < 64) by (nonlinear_arith)
            requires n == (b0 as u32) * 65536 + (b1 as u32) * 256 + (b2 as u32), b0 < 256, b1 < 256, b2 < 256;
        let c0 = b64_char_of(n / 262144);
        let c1 = b64_char_of((n / 4096) % 64);
        let c2 = b64_char_of((n / 64) % 64);
        let c3 = b64_char_of(n % 64);
        let ghost before = chars@;
        chars.push(c0);
        chars.push(c1);
        chars.push(c2);
        chars.push(c3);
        assert(b64_group(b0, b1, b2) == seq![c0, c1, c2, c3]);
        assert(chars@ =~= before + b64_group(b0, b1, b2));
        assert(b64_groups(rest) == b64_group(b0, b1, b2) + b64_groups(rest.subrange(3, rest.len() as int)));
        assert(chars@ + b64_groups(all.subrange(3 * (i + 1) as int, 33)) =~= before + b64_groups(rest));
        i = i + 1;
    }
    assert(all.subrange(33, 33) =~= Seq::<u8>::empty());
    assert(chars@ =~= b64_groups(all));
    let mut out = String::new();
    out.push('E');
    let mut j: usize = 1;
    while j < 44
        invariant
            chars@.len() == 44,
            1 <= j <= 44,
            out@ == seq!['E'] + chars@.subrange(1, j as int),
        decreases 44 - j,
    {
        out.push(chars[j]);
        assert(chars@.subrange(1, j + 1) =~= chars@.subrange(1, j as int).push(chars@[j as int]));
        j = j + 1;
    }
    assert(chars@.subrange(1, 44) =~= chars@.drop_first());
    out
}

impl SaidEncoding {
    /// A Blake3-256 digest with its canonical text.
    pub fn of_blake3(digest: Vec<u8>) -> (r: SaidEncoding)
        requires
            digest@.len() == 32,
        ensures
            r.digest@ == digest@,
            r.qb64@ == qb64_blake3(digest@),
    {
        let qb64 = encode_blake3(&digest);
        SaidEncoding { digest, qb64 }
    }
}

proof fn lemma_b64_char_plain(v: int)
    requires
        0 <= v < 64,
    ensures
        plain_text(seq![b64_char(v)]),
{
}

proof fn lemma_b64_groups_plain(b: Seq<u8>)
    ensures
        plain_text(b64_groups(b)),
        b64_groups(b).len() == 4 * (b.len() / 3),
    decreases b.len(),
{
    if b.len() >= 3 {
        let n = b[0] as int * 65536 + b[1] as int * 256 + b[2] as int;
        assert(0 <= n / 262144 < 64) by (nonlinear_arith)
            requires
                n == b[0] as int * 65536 + b[1] as int * 256 + b[2] as int,
                0 <= b[0] < 256,
                0 <= b[1] < 256,
                0 <= b[2] < 256,
        ;
        lemma_b64_char_plain(n / 262144);
        lemma_b64_char_plain((n / 4096) % 64);
        lemma_b64_char_plain((n / 64) % 64);
        lemma_b64_char_plain(n % 64);
        let rest = b.subrange(3, b.len() as int);
        lemma_b64_groups_plain(rest);
        let g = b64_group(b[0], b[1], b[2]);
        let all = g + b64_groups(rest);
        assert forall|i: int| 0 <= i < all.len() implies {
            let c = #[trigger] all[i];
            ' ' <= c && c <= '~' && c != '"' && c != '\\'
        } by {
            if i == 0 {
                assert(seq![b64_char(n / 262144)][0] == all[i]);
            } else if i == 1 {
                assert(seq![b64_char((n / 4096) % 64)][0] == all[i]);
            } else if i == 2 {
                assert(seq![b64_char((n / 64) % 64)][0] == all[i]);
            } else if i == 3 {
                assert(seq![b64_char(n % 64)][0] == all[i]);
            } else {
                assert(all[i] == b64_groups(rest)[i - 4]);
            }
        }
    }
}

/// The canonical text of a Blake3-256 digest has the shape of an
/// identifier: 44 characters that JSON writes as they are.
pub proof fn lemma_qb64_well_encoded(d: Seq<u8>)
    requires
        d.len() == 32,
    ensures
        well_encoded(qb64_blake3(d)),
{
    lemma_b64_groups_plain(seq![0u8] + d);
    let g = b64_groups(seq![0u8] + d);
    let q = qb64_blake3(d);
    assert forall|i: int| 0 <= i < q.len() implies {
        let c = #[trigger] q[i];
        ' ' <= c && c <= '~' && c != '"' && c != '\\'
    } by {
        if i > 0 {
            assert(q[i] == g[i]);
        }
    }
}

proof fn lemma_b64_char_injective(v: int, w: int)
    requires
        0 <= v < 64,
        0 <= w < 64,
        b64_char(v) == b64_char(w),
    ensures
        v == w,
{
}

proof fn lemma_b64_group_injective(a0: u8, a1: u8, a2: u8, b0: u8, b1: u8, b2: u8)
    requires
        b64_group(a0, a1, a2) == b64_group(b0, b1, b2),
    ensures
        a0 == b0 && a1 == b1 && a2 == b2,
{
    let n = a0 as int * 65536 + a1 as int * 256 + a2 as int;
    let m = b0 as int * 65536 + b1 as int * 256 + b2 as int;
    assert(0 <= n < 16777216 && 0 <= m < 16777216) by (nonlinear_arith)
        requires
            n == a0 as int * 65536 + a1 as int * 256 + a2 as int,
            m == b0 as int * 65536 + b1 as int * 256 + b2 as int,
            0 <= a0 < 256, 0 <= a1 < 256, 0 <= a2 < 256,
            0 <= b0 < 256, 0 <= b1 < 256, 0 <= b2 < 256,
    ;
    let ga = b64_group(a0, a1, a2);
    let gb = b64_group(b0, b1, b2);
    assert(ga[0] == gb[0] && ga[1] == gb[1] && ga[2] == gb[2] && ga[3] == gb[3]);
    lemma_b64_char_injective(n / 262144, m / 262144);
    lemma_b64_char_injective((n / 4096) % 64, (m / 4096) % 64);
    lemma_b64_char_injective((n / 64) % 64, (m / 64) % 64);
    lemma_b64_char_injective(n % 64, m % 64);
    assert(n == m) by (nonlinear_arith)
        requires
            0 <= n < 16777216,
            0 <= m < 16777216,
            n / 262144 == m / 262144,
            (n / 4096) % 64 == (m / 4096) % 64,
            (n / 64) % 64 == (m / 64) % 64,
            n % 64 == m % 64,
    ;
    assert(a0 == b0 && a1 == b1 && a2 == b2) by (nonlinear_arith)
        requires
            n == a0 as int * 65536 + a1 as int * 256 + a2 as int,
            m == b0 as int * 65536 + b1 as int * 256 + b2 as int,
            n == m,
            0 <= a0 < 256, 0 <= a1 < 256, 0 <= a2 < 256,
            0 <= b0 < 256, 0 <= b1 < 256, 0 <= b2 < 256,
    ;
}

proof fn lemma_b64_groups_injective(a: Seq<u8>, b: Seq<u8>)
    requires
        a.len() == b.len(),
        a.len() % 3 == 0,
        b64_groups(a) == b64_groups(b),
    ensures
        a == b,
    decreases a.len(),
{
    if a.len() >= 3 {
        let ra = a.subrange(3, a.len() as int);
        let rb = b.subrange(3, b.len() as int);
        lemma_b64_groups_plain(ra);
        lemma_b64_groups_plain(rb);
        let ga = b64_group(a[0], a[1], a[2]);
        let gb = b64_group(b[0], b[1], b[2]);
        assert(ga =~= b64_groups(a).subrange(0, 4));
        assert(gb =~= b64_groups(b).subrange(0, 4));
        lemma_b64_group_injective(a[0], a[1], a[2], b[0], b[1], b[2]);
        assert(b64_groups(ra) =~= b64_groups(a).subrange(4, b64_groups(a).len() as int));
        assert(b64_groups(rb) =~= b64_groups(b).subrange(4, b64_groups(b).len() as int));
        lemma_b64_groups_injective(ra, rb);
        assert(a =~= seq![a[0], a[1], a[2]] + ra);
        assert(b =~= seq![b[0], b[1], b[2]] + rb);
    } else {
        assert(a =~= b);
    }
}

/// Two different digests have different canonical texts.
pub proof fn lemma_qb64_injective(d: Seq<u8>, e: Seq<u8>)
    requires
        d.len() == 32,
        e.len() == 32,
        d != e,
    ensures
        qb64_blake3(d) != qb64_blake3(e),
{
    let pd = seq![0u8] + d;
    let pe = seq![0u8] + e;
    if qb64_blake3(d) == qb64_blake3(e) {
        let gd = b64_groups(pd);
        let ge = b64_groups(pe);
        lemma_b64_groups_plain(pd);
        lemma_b64_groups_plain(pe);
        assert(gd.drop_first() =~= qb64_blake3(d).drop_first());
        assert(ge.drop_first() =~= qb64_blake3(e).drop_first());
        let nd = 0int * 65536 + d[0] as int * 256 + d[1] as int;
        let ne = 0int * 65536 + e[0] as int * 256 + e[1] as int;
        assert(nd / 262144 == 0 && ne / 262144 == 0) by (nonlinear_arith)
            requires
                nd == 0int * 65536 + d[0] as int * 256 + d[1] as int,
                ne == 0int * 65536 + e[0] as int * 256 + e[1] as int,
                0 <= d[0] < 256, 0 <= d[1] < 256, 0 <= e[0] < 256, 0 <= e[1] < 256,
        ;
        assert(pd[0] == 0 && pd[1] == d[0] && pd[2] == d[1]);
        assert(pe[0] == 0 && pe[1] == e[0] && pe[2] == e[1]);
        assert(gd[0] == b64_group(pd[0], pd[1], pd[2])[0]);
        assert(ge[0] == b64_group(pe[0], pe[1], pe[2])[0]);
        assert(gd[0] == b64_char(0));
        assert(ge[0] == b64_char(0));
        assert(gd.len() == ge.len());
        assert forall|i: int| 0 <= i < gd.len() implies gd[i] == ge[i] by {
            if i > 0 {
                assert(gd[i] == gd.drop_first()[i - 1]);
                assert(ge[i] == ge.drop_first()[i - 1]);
            }
        }
        assert(gd =~= ge);
        lemma_b64_groups_injective(pd, pe);
        assert(d =~= pd.drop_first());
        assert(e =~= pe.drop_first());
    }
}

} // verus!
