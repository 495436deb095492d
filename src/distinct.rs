//! Distinct-on over an ordered result: one row per combination of the
//! distinct-on columns, the first of each in the result's order. This is
//! what the relational engine's `DISTINCT ON` does with a result ordered by
//! the query's order keys.

use vstd::prelude::*;
use crate::record::{FieldDecl, FieldValue, Record, RecordView, ValueView};
use crate::storable::column_of;
use crate::text::views;

verus! {

/// The value of the last field stored in column `col`, if any.
pub open spec fn column_value(fields: Seq<FieldDecl>, values: Seq<ValueView>, col: Seq<char>, n: nat) -> Option<ValueView>
    decreases n,
{
    if n == 0 {
        None
    } else if !fields[n - 1].skip && column_of(fields[n - 1]) == col {
        Some(values[n - 1])
    } else {
        column_value(fields, values, col, (n - 1) as nat)
    }
}

/// The values of a row in the columns `cols`.
pub open spec fn key_tuple(r: RecordView, cols: Seq<Seq<char>>) -> Seq<Option<ValueView>> {
    Seq::new(cols.len(), |k: int| column_value(r.fields, r.values, cols[k], r.fields.len()))
}

/// Whether row `i` is the first of `rows` with its key.
pub open spec fn first_of_key(rows: Seq<RecordView>, cols: Seq<Seq<char>>, i: int) -> bool {
    forall|j: int| 0 <= j < i ==> key_tuple(#[trigger] rows[j], cols) != key_tuple(rows[i], cols)
}

/// The views of a list of records.
pub open spec fn record_views(rs: Seq<Record>) -> Seq<RecordView> {
    rs.map_values(|r: Record| r@)
}

/// No two rows of `out` have the same key.
pub open spec fn keys_distinct(out: Seq<RecordView>, cols: Seq<Seq<char>>) -> bool {
    forall|a: int, b: int|
        0 <= a < b < out.len() ==> key_tuple(#[trigger] out[a], cols) != key_tuple(#[trigger] out[b], cols)
}

/// Whether some row of `out` has the key `t`.
pub open spec fn key_among(out: Seq<RecordView>, t: Seq<Option<ValueView>>, cols: Seq<Seq<char>>) -> bool {
    exists|k: int| 0 <= k < out.len() && key_tuple(#[trigger] out[k], cols) == t
}

/// Every key of `rows` is the key of a row of `out`.
pub open spec fn keys_covered(rows: Seq<RecordView>, out: Seq<RecordView>, cols: Seq<Seq<char>>) -> bool {
    forall|i: int| 0 <= i < rows.len() ==> key_among(out, key_tuple(#[trigger] rows[i], cols), cols)
}

/// Whether `r` is a row of `rows` that is the first with its key.
pub open spec fn is_first_row(rows: Seq<RecordView>, r: RecordView, cols: Seq<Seq<char>>) -> bool {
    exists|i: int| 0 <= i < rows.len() && #[trigger] rows[i] == r && first_of_key(rows, cols, i)
}

/// Every row of `out` is a row of `rows` that is the first with its key.
pub open spec fn firsts_only(rows: Seq<RecordView>, out: Seq<RecordView>, cols: Seq<Seq<char>>) -> bool {
    forall|k: int| 0 <= k < out.len() ==> is_first_row(rows, #[trigger] out[k], cols)
}

/// Whether the row of `rows` at one of the positions `idx` has the key `t`.
pub open spec fn key_at_positions(rows: Seq<Record>, idx: Seq<usize>, t: Seq<Option<ValueView>>, cols: Seq<Seq<char>>) -> bool {
    exists|m: int| 0 <= m < idx.len() && key_tuple(rows[#[trigger] idx[m] as int]@, cols) == t
}

/// Whether one of `keys` is `t`.
pub open spec fn key_in(keys: Seq<Vec<Option<FieldValue>>>, t: Seq<Option<ValueView>>) -> bool {
    exists|m: int| 0 <= m < keys.len() && key_views(#[trigger] keys[m]@) == t
}

/// The positions among the first `n` rows that are the first with their
/// key, in order.
pub open spec fn firsts(rows: Seq<RecordView>, cols: Seq<Seq<char>>, n: nat) -> Seq<int>
    decreases n,
{
    if n == 0 {
        Seq::empty()
    } else if first_of_key(rows, cols, n - 1) {
        firsts(rows, cols, (n - 1) as nat).push(n - 1)
    } else {
        firsts(rows, cols, (n - 1) as nat)
    }
}

/// The positions come in increasing order, each below `n`.
pub proof fn lemma_firsts_ordered(rows: Seq<RecordView>, cols: Seq<Seq<char>>, n: nat)
    ensures
        forall|k: int| 0 <= k < firsts(rows, cols, n).len() ==> 0 <= #[trigger] firsts(rows, cols, n)[k] < n,
        forall|a: int, b: int|
            0 <= a < b < firsts(rows, cols, n).len() ==> #[trigger] firsts(rows, cols, n)[a]
                < #[trigger] firsts(rows, cols, n)[b],
    decreases n,
{
    if n > 0 {
        lemma_firsts_ordered(rows, cols, (n - 1) as nat);
        let p = firsts(rows, cols, (n - 1) as nat);
        let f = firsts(rows, cols, n);
        if first_of_key(rows, cols, n - 1) {
            assert(f == p.push(n - 1));
            assert forall|k: int| 0 <= k < p.len() implies f[k] == p[k] by {}
            assert forall|k: int| 0 <= k < f.len() implies 0 <= #[trigger] f[k] < n by {
                if k < p.len() {
                    assert(f[k] == p[k]);
                }
            }
            assert forall|a: int, b: int| 0 <= a < b < f.len() implies #[trigger] f[a] < #[trigger] f[b] by {
                assert(f[a] == p[a]);
                if b < p.len() {
                    assert(f[b] == p[b]);
                }
            }
        }
    }
}

/// A list of positions as integers.
pub open spec fn as_ints(s: Seq<usize>) -> Seq<int> {
    Seq::new(s.len(), |i: int| s[i] as int)
}

/// Whether two field values are the same.
pub fn same_value(a: &FieldValue, b: &FieldValue) -> (r: bool)
    ensures
        r == (a@ == b@),
{
    match (a, b) {
        (FieldValue::Text(x), FieldValue::Text(y)) => {
            let x: &String = x;
            let y: &String = y;
            x.eq(y)
        },
        (FieldValue::Int(x), FieldValue::Int(y)) => *x == *y,
        (FieldValue::UInt(x), FieldValue::UInt(y)) => *x == *y,
        (FieldValue::Bool(x), FieldValue::Bool(y)) => *x == *y,
        (FieldValue::Datetime(x), FieldValue::Datetime(y)) => {
            let tx = x.text();
            let ty = y.text();
            x.micros() == y.micros() && tx.eq(&ty)
        },
        (FieldValue::Null, FieldValue::Null) => true,
        _ => false,
    }
}

/// The view of a key as `key_of_row` computes it.
pub open spec fn key_views(k: Seq<Option<FieldValue>>) -> Seq<Option<ValueView>> {
    Seq::new(
        k.len(),
        |c: int|
            match k[c] {
                Some(v) => Some(v@),
                None => None,
            },
    )
}

/// The value of `r` in column `col`.
fn column_value_of(r: &Record, col: &String) -> (out: Option<FieldValue>)
    requires
        r.values@.len() == r.schema.fields@.len(),
    ensures
        out matches Some(v) ==> column_value(r@.fields, r@.values, col@, r@.fields.len()) == Some(v@),
        out is None ==> column_value(r@.fields, r@.values, col@, r@.fields.len()) is None,
{
    let n = r.schema.fields.len();
    let mut i: usize = n;
    while i > 0
        invariant
            i <= n,
            n == r@.fields.len(),
            r.values@.len() == n,
            column_value(r@.fields, r@.values, col@, n as nat) == column_value(
                r@.fields,
                r@.values,
                col@,
                i as nat,
            ),
        decreases i,
    {
        let f = &r.schema.fields[i - 1];
        if !f.skip {
            let matches = match &f.column {
                Some(c) => c.eq(col),
                None => f.name.eq(col),
            };
            if matches {
                return Some(r.values[i - 1].duplicate());
            }
        }
        i = i - 1;
    }
    None
}

/// The key of `r` in the columns `cols`.
fn key_of_row(r: &Record, cols: &Vec<String>) -> (out: Vec<Option<FieldValue>>)
    requires
        r.values@.len() == r.schema.fields@.len(),
    ensures
        key_views(out@) == key_tuple(r@, views(cols@)),
{
    let mut out: Vec<Option<FieldValue>> = Vec::new();
    let mut k: usize = 0;
    while k < cols.len()
        invariant
            r.values@.len() == r.schema.fields@.len(),
            k <= cols@.len(),
            out@.len() == k,
            forall|j: int| 0 <= j < k ==> #[trigger] key_views(out@)[j] == key_tuple(r@, views(cols@))[j],
        decreases cols@.len() - k,
    {
        let ghost before = out@;
        out.push(column_value_of(r, &cols[k]));
        assert forall|j: int| 0 <= j < k + 1 implies #[trigger] key_views(out@)[j] == key_tuple(r@, views(cols@))[j] by {
            if j < k {
                assert(out@[j] == before[j]);
                assert(key_views(out@)[j] == key_views(before)[j]);
            } else {
                assert(views(cols@)[j] == cols@[j]@);
            }
        }
        k = k + 1;
    }
    assert(key_views(out@) =~= key_tuple(r@, views(cols@)));
    out
}

/// Whether two keys are the same.
fn same_key(a: &Vec<Option<FieldValue>>, b: &Vec<Option<FieldValue>>) -> (r: bool)
    ensures
        r == (key_views(a@) == key_views(b@)),
{
    if a.len() != b.len() {
        assert(key_views(a@).len() != key_views(b@).len());
        return false;
    }
    let mut k: usize = 0;
    while k < a.len()
        invariant
            a@.len() == b@.len(),
            k <= a@.len(),
            forall|j: int| 0 <= j < k ==> key_views(a@)[j] == key_views(b@)[j],
        decreases a@.len() - k,
    {
        let eq = match (&a[k], &b[k]) {
            (Some(x), Some(y)) => same_value(x, y),
            (None, None) => true,
            _ => false,
        };
        if !eq {
            assert(key_views(a@)[k as int] != key_views(b@)[k as int]);
            return false;
        }
        k = k + 1;
    }
    assert(key_views(a@) =~= key_views(b@));
    true
}

/// Whether `key` is among `keys`.
fn has_key(keys: &Vec<Vec<Option<FieldValue>>>, key: &Vec<Option<FieldValue>>) -> (r: bool)
    ensures
        r == exists|m: int| 0 <= m < keys@.len() && key_views(#[trigger] keys@[m]@) == key_views(key@),
{
    let mut k: usize = 0;
    while k < keys.len()
        invariant
            k <= keys@.len(),
            forall|m: int| 0 <= m < k ==> key_views(#[trigger] keys@[m]@) != key_views(key@),
        decreases keys@.len() - k,
    {
        if same_key(&keys[k], key) {
            return true;
        }
        k = k + 1;
    }
    false
}

/// The positions of the rows of `rows` that are the first with their
/// values in the columns `cols`, in order.
fn first_positions(rows: &Vec<Record>, cols: &Vec<String>) -> (idx: Vec<usize>)
    requires
        forall|i: int| 0 <= i < rows@.len() ==> (#[trigger] rows@[i]).values@.len() == rows@[i].schema.fields@.len(),
    ensures
        as_ints(idx@) == firsts(record_views(rows@), views(cols@), rows@.len()),
        forall|m: int|
            0 <= m < idx@.len() ==> #[trigger] idx@[m] < rows@.len() && first_of_key(
                record_views(rows@),
                views(cols@),
                idx@[m] as int,
            ),
        forall|a: int, b: int|
            0 <= a < b < idx@.len() ==> key_tuple(rows@[#[trigger] idx@[a] as int]@, views(cols@))
                != key_tuple(rows@[#[trigger] idx@[b] as int]@, views(cols@)),
        forall|j: int|
            0 <= j < rows@.len() ==> key_at_positions(
                rows@,
                idx@,
                key_tuple((#[trigger] rows@[j])@, views(cols@)),
                views(cols@),
            ),
{
    let ghost cs = views(cols@);
    let ghost rv = record_views(rows@);
    let mut idx: Vec<usize> = Vec::new();
    let mut keys: Vec<Vec<Option<FieldValue>>> = Vec::new();
    let mut i: usize = 0;
    while i < rows.len()
        invariant
            cs == views(cols@),
            rv == record_views(rows@),
            forall|j: int| 0 <= j < rows@.len() ==> (#[trigger] rows@[j]).values@.len() == rows@[j].schema.fields@.len(),
            i <= rows@.len(),
            as_ints(idx@) == firsts(rv, cs, i as nat),
            keys@.len() == idx@.len(),
            forall|m: int|
                0 <= m < idx@.len() ==> #[trigger] idx@[m] < i && key_views(keys@[m]@) == key_tuple(
                    rv[idx@[m] as int],
                    cs,
                ) && first_of_key(rv, cs, idx@[m] as int),
            forall|a: int, b: int|
                0 <= a < b < keys@.len() ==> key_views((#[trigger] keys@[a])@) != key_views(
                    (#[trigger] keys@[b])@,
                ),
            forall|j: int| 0 <= j < i ==> key_in(keys@, key_tuple(#[trigger] rv[j], cs)),
        decreases rows@.len() - i,
    {
        let key = key_of_row(&rows[i], cols);
        assert(rv[i as int] == rows@[i as int]@);
        let seen = has_key(&keys, &key);
        if !seen {
            assert forall|j: int| 0 <= j < i implies key_tuple(#[trigger] rv[j], cs) != key_tuple(
                rv[i as int],
                cs,
            ) by {
                assert(key_in(keys@, key_tuple(rv[j], cs)));
                let m = choose|m: int|
                    0 <= m < keys@.len() && key_views(#[trigger] keys@[m]@) == key_tuple(rv[j], cs);
                assert(key_views(keys@[m]@) != key_views(key@));
            }
            let ghost old_keys = keys@;
            let ghost old_idx = idx@;
            idx.push(i);
            keys.push(key);
            assert forall|m: int| 0 <= m < idx@.len() implies #[trigger] idx@[m] < i + 1 && key_views(
                keys@[m]@,
            ) == key_tuple(rv[idx@[m] as int], cs) && first_of_key(rv, cs, idx@[m] as int) by {
                if m < old_idx.len() {
                    assert(idx@[m] == old_idx[m]);
                    assert(keys@[m] == old_keys[m]);
                }
            }
            assert forall|a: int, b: int| 0 <= a < b < keys@.len() implies key_views(
                (#[trigger] keys@[a])@,
            ) != key_views((#[trigger] keys@[b])@) by {
                assert(keys@[a] == old_keys[a]);
                if b < old_keys.len() {
                    assert(keys@[b] == old_keys[b]);
                }
            }
            assert forall|j: int| 0 <= j < i + 1 implies key_in(keys@, key_tuple(#[trigger] rv[j], cs)) by {
                if j < i {
                    assert(key_in(old_keys, key_tuple(rv[j], cs)));
                    let m = choose|m: int|
                        0 <= m < old_keys.len() && key_views(#[trigger] old_keys[m]@) == key_tuple(rv[j], cs);
                    assert(keys@[m] == old_keys[m]);
                } else {
                    let m = keys@.len() - 1;
                    assert(keys@[m] == key);
                }
            }
            assert(as_ints(idx@) =~= firsts(rv, cs, (i + 1) as nat));
        } else {
            assert forall|j: int| 0 <= j < i + 1 implies key_in(keys@, key_tuple(#[trigger] rv[j], cs)) by {
                if j == i {
                    let m = choose|m: int| 0 <= m < keys@.len() && key_views(#[trigger] keys@[m]@) == key_views(key@);
                    assert(key_views(keys@[m]@) == key_tuple(rv[j], cs));
                }
            }
            proof {
                let m = choose|m: int| 0 <= m < keys@.len() && key_views(#[trigger] keys@[m]@) == key_views(key@);
                let j = idx@[m] as int;
                assert(j < i);
                assert(key_tuple(rv[j], cs) == key_tuple(rv[i as int], cs));
                assert(!first_of_key(rv, cs, i as int));
                assert(as_ints(idx@) =~= firsts(rv, cs, (i + 1) as nat));
            }
        }
        i = i + 1;
    }
    assert forall|a: int, b: int| 0 <= a < b < idx@.len() implies key_tuple(
        rows@[#[trigger] idx@[a] as int]@,
        cs,
    ) != key_tuple(rows@[#[trigger] idx@[b] as int]@, cs) by {
        assert(rv[idx@[a] as int] == rows@[idx@[a] as int]@);
        assert(rv[idx@[b] as int] == rows@[idx@[b] as int]@);
        assert(key_views(keys@[a]@) != key_views(keys@[b]@));
    }
    assert forall|j: int| 0 <= j < rows@.len() implies key_at_positions(
        rows@,
        idx@,
        key_tuple((#[trigger] rows@[j])@, views(cols@)),
        views(cols@),
    ) by {
        assert(rv[j] == rows@[j]@);
        assert(key_in(keys@, key_tuple(rv[j], cs)));
        let m = choose|m: int| 0 <= m < keys@.len() && key_views(#[trigger] keys@[m]@) == key_tuple(rv[j], cs);
        assert(idx@[m] < i);
        assert(rv[idx@[m] as int] == rows@[idx@[m] as int]@);
        assert(key_tuple(rows@[idx@[m] as int]@, views(cols@)) == key_tuple(rows@[j]@, views(cols@)));
    }
    idx
}

/// The rows of `rows`, in order, that are the first with their values in
/// the columns `cols`: exactly one row for each combination of those values
/// that occurs, and that row the first of its combination.
pub fn distinct_rows(rows: &Vec<Record>, cols: &Vec<String>) -> (out: Vec<Record>)
    requires
        forall|i: int| 0 <= i < rows@.len() ==> (#[trigger] rows@[i]).values@.len() == rows@[i].schema.fields@.len(),
    ensures
        out@.len() == firsts(record_views(rows@), views(cols@), rows@.len()).len(),
        forall|k: int|
            0 <= k < out@.len() ==> (#[trigger] out@[k])@ == rows@[firsts(
                record_views(rows@),
                views(cols@),
                rows@.len(),
            )[k]]@,
        forall|a: int, b: int|
            0 <= a < b < out@.len() ==> #[trigger] firsts(record_views(rows@), views(cols@), rows@.len())[a]
                < #[trigger] firsts(record_views(rows@), views(cols@), rows@.len())[b],
        keys_distinct(record_views(out@), views(cols@)),
        keys_covered(record_views(rows@), record_views(out@), views(cols@)),
        firsts_only(record_views(rows@), record_views(out@), views(cols@)),
{
    let idx = first_positions(rows, cols);
    let mut out: Vec<Record> = Vec::new();
    let mut m: usize = 0;
    while m < idx.len()
        invariant
            m <= idx@.len(),
            out@.len() == m,
            forall|k: int| 0 <= k < idx@.len() ==> #[trigger] idx@[k] < rows@.len(),
            forall|k: int| 0 <= k < m ==> (#[trigger] out@[k])@ == rows@[idx@[k] as int]@,
        decreases idx@.len() - m,
    {
        out.push(rows[idx[m]].duplicate());
        m = m + 1;
    }
    let ghost rv = record_views(rows@);
    let ghost ov = record_views(out@);
    let ghost cs = views(cols@);
    proof {
        lemma_firsts_ordered(rv, cs, rows@.len());
        assert forall|k: int| 0 <= k < out@.len() implies (#[trigger] out@[k])@ == rows@[firsts(
            rv,
            cs,
            rows@.len(),
        )[k]]@ by {
            assert(as_ints(idx@)[k] == idx@[k] as int);
        }
    }
    assert forall|a: int, b: int| 0 <= a < b < ov.len() implies key_tuple(#[trigger] ov[a], cs)
        != key_tuple(#[trigger] ov[b], cs) by {
        assert(ov[a] == out@[a]@);
        assert(ov[b] == out@[b]@);
        assert(key_tuple(rows@[idx@[a] as int]@, cs) != key_tuple(rows@[idx@[b] as int]@, cs));
    }
    assert forall|i: int| 0 <= i < rv.len() implies key_among(ov, key_tuple(#[trigger] rv[i], cs), cs) by {
        assert(rv[i] == rows@[i]@);
        assert(0 <= i < rows@.len());
        assert(key_at_positions(rows@, idx@, key_tuple(rows@[i]@, views(cols@)), views(cols@)));
        let k = choose|k: int|
            0 <= k < idx@.len() && key_tuple(rows@[#[trigger] idx@[k] as int]@, cs) == key_tuple(rows@[i]@, cs);
        assert(ov[k] == out@[k]@);
        assert(out@[k]@ == rows@[idx@[k] as int]@);
        assert(0 <= k < ov.len() && key_tuple(ov[k], cs) == key_tuple(rv[i], cs));
    }
    assert forall|k: int| 0 <= k < ov.len() implies is_first_row(rv, #[trigger] ov[k], cs) by {
        let i = idx@[k] as int;
        assert(ov[k] == out@[k]@);
        assert(out@[k]@ == rows@[i]@);
        assert(rv[i] == rows@[i]@);
        assert(first_of_key(rv, cs, i));
    }
    out
}

/// Where the rows come ordered so that, among rows with the same key, later
/// rows have no higher version (an order by the key, then by version
/// descending), each row distinct-on picks has the highest version of its
/// key: it is the latest revision of its lineage.
pub proof fn lemma_distinct_picks_latest(
    rows: Seq<RecordView>,
    out: Seq<RecordView>,
    cols: Seq<Seq<char>>,
)
    requires
        firsts_only(rows, out, cols),
        forall|i: int, j: int|
            0 <= i < j < rows.len() && key_tuple(#[trigger] rows[i], cols) == key_tuple(
                #[trigger] rows[j],
                cols,
            ) ==> crate::record::version_of(rows[i]) >= crate::record::version_of(rows[j]),
    ensures
        forall|k: int, j: int|
            0 <= k < out.len() && 0 <= j < rows.len() && key_tuple(#[trigger] rows[j], cols)
                == key_tuple(#[trigger] out[k], cols) ==> crate::record::version_of(out[k])
                >= crate::record::version_of(rows[j]),
{
    assert forall|k: int, j: int|
        0 <= k < out.len() && 0 <= j < rows.len() && key_tuple(#[trigger] rows[j], cols) == key_tuple(
            #[trigger] out[k],
            cols,
        ) implies crate::record::version_of(out[k]) >= crate::record::version_of(rows[j]) by {
        assert(is_first_row(rows, out[k], cols));
        let i = choose|i: int| 0 <= i < rows.len() && #[trigger] rows[i] == out[k] && first_of_key(rows, cols, i);
        if j < i {
            assert(key_tuple(rows[j], cols) != key_tuple(rows[i], cols));
        } else if j > i {
            assert(crate::record::version_of(rows[i]) >= crate::record::version_of(rows[j]));
        }
    }
}

} // verus!
