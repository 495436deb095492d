//! Pieces shared by the dialects: counting bound parameters, order keys,
//! and the values that filters bind.

use vstd::prelude::*;
use crate::query::{binds_value, Filter, Order, Value};
use crate::text::{joined, push_joined, push_str, views};

verus! {

/// The number of filters among `fs` that bind a value.
pub open spec fn bind_count(fs: Seq<Filter>) -> nat
    decreases fs.len(),
{
    if fs.len() == 0 {
        0
    } else {
        bind_count(fs.drop_last()) + if binds_value(fs.last()) {
            1nat
        } else {
            0nat
        }
    }
}

/// The value a filter binds, where it binds one.
pub open spec fn bound_value(f: Filter) -> Option<Value> {
    match f {
        Filter::Eq(_, v) => Some(v),
        Filter::Ne(_, v) => Some(v),
        Filter::Gt(_, v) => Some(v),
        Filter::Gte(_, v) => Some(v),
        Filter::Lt(_, v) => Some(v),
        Filter::Lte(_, v) => Some(v),
        Filter::In(_, v) => Some(v),
        Filter::IsNull(_) => None,
        Filter::IsNotNull(_) => None,
    }
}

/// The values the filters bind, in filter order.
pub open spec fn bound_values(fs: Seq<Filter>) -> Seq<Value>
    decreases fs.len(),
{
    if fs.len() == 0 {
        Seq::empty()
    } else {
        match bound_value(fs.last()) {
            Some(v) => bound_values(fs.drop_last()).push(v),
            None => bound_values(fs.drop_last()),
        }
    }
}

/// The text of one order key.
pub open spec fn order_key_text(key: (String, Order)) -> Seq<char> {
    key.0@ + match key.1 {
        Order::Asc => " ASC"@,
        Order::Desc => " DESC"@,
    }
}

/// ` ORDER BY k1 ASC, k2 DESC`, or nothing without order keys.
pub open spec fn order_clause_text(keys: Seq<(String, Order)>) -> Seq<char> {
    if keys.len() == 0 {
        Seq::empty()
    } else {
        " ORDER BY "@ + joined(keys.map_values(|k: (String, Order)| order_key_text(k)), ", "@)
    }
}

/// ` LIMIT n` where a limit is set.
pub open spec fn number_clause_text(word: Seq<char>, n: Option<u64>) -> Seq<char> {
    match n {
        Some(v) => word + crate::text::decimal(v as nat),
        None => Seq::empty(),
    }
}

/// The values the filters bind, in filter order: the parameters of the
/// compiled statement.
pub fn bind_filters<'a>(filters: &'a Vec<Filter>) -> (r: Vec<&'a Value>)
    ensures
        r@.map_values(|v: &Value| *v) == bound_values(filters@),
        r@.len() == bind_count(filters@),
{
    let mut out: Vec<&'a Value> = Vec::new();
    let mut i: usize = 0;
    while i < filters.len()
        invariant
            i <= filters@.len(),
            out@.map_values(|v: &Value| *v) == bound_values(filters@.subrange(0, i as int)),
            out@.len() == bind_count(filters@.subrange(0, i as int)),
        decreases filters@.len() - i,
    {
        assert(filters@.subrange(0, i + 1).drop_last() =~= filters@.subrange(0, i as int));
        assert(filters@.subrange(0, i + 1).last() == filters@[i as int]);
        match &filters[i] {
            Filter::Eq(_, v) | Filter::Ne(_, v) | Filter::Gt(_, v) | Filter::Gte(_, v)
            | Filter::Lt(_, v) | Filter::Lte(_, v) | Filter::In(_, v) => {
                out.push(v);
            },
            Filter::IsNull(_) | Filter::IsNotNull(_) => {},
        }
        assert(out@.map_values(|v: &Value| *v) =~= bound_values(filters@.subrange(0, i + 1)));
        i = i + 1;
    }
    assert(filters@.subrange(0, filters@.len() as int) =~= filters@);
    out
}

/// Appends the order clause of `keys` to `out`.
pub fn push_order_clause(out: &mut String, keys: &Vec<(String, Order)>)
    ensures
        final(out)@ == old(out)@ + order_clause_text(keys@),
{
    if keys.len() == 0 {
        assert(old(out)@ + order_clause_text(keys@) =~= old(out)@);
        return;
    }
    let mut texts: Vec<String> = Vec::new();
    let mut i: usize = 0;
    while i < keys.len()
        invariant
            i <= keys@.len(),
            texts@.len() == i,
            forall|k: int| 0 <= k < i ==> #[trigger] texts@[k]@ == order_key_text(keys@[k]),
        decreases keys@.len() - i,
    {
        let mut t = keys[i].0.clone();
        match keys[i].1 {
            Order::Asc => push_str(&mut t, " ASC"),
            Order::Desc => push_str(&mut t, " DESC"),
        }
        texts.push(t);
        i = i + 1;
    }
    assert(views(texts@) =~= keys@.map_values(|k: (String, Order)| order_key_text(k)));
    push_str(out, " ORDER BY ");
    push_joined(out, &texts, ", ");
    assert(final(out)@ =~= old(out)@ + order_clause_text(keys@));
}

/// Appends `word` and the number `n`, where one is set, to `out`.
pub fn push_number_clause(out: &mut String, word: &str, n: Option<u64>)
    ensures
        final(out)@ == old(out)@ + number_clause_text(word@, n),
{
    match n {
        Some(v) => {
            push_str(out, word);
            crate::text::push_decimal(out, v);
            assert(final(out)@ =~= old(out)@ + number_clause_text(word@, n));
        },
        None => {
            assert(old(out)@ + number_clause_text(word@, n) =~= old(out)@);
        },
    }
}

proof fn lemma_bound_values_len(fs: Seq<Filter>)
    ensures
        bound_values(fs).len() == bind_count(fs),
    decreases fs.len(),
{
    if fs.len() > 0 {
        lemma_bound_values_len(fs.drop_last());
    }
}

proof fn lemma_bind_count_grows(fs: Seq<Filter>, i: int)
    requires
        0 <= i < fs.len(),
    ensures
        bind_count(fs.subrange(0, i)) + (if binds_value(fs[i]) {
            1int
        } else {
            0int
        }) <= bind_count(fs),
    decreases fs.len(),
{
    if i < fs.len() - 1 {
        lemma_bind_count_grows(fs.drop_last(), i);
        assert(fs.drop_last().subrange(0, i) =~= fs.subrange(0, i));
    } else {
        assert(fs.subrange(0, i) =~= fs.drop_last());
    }
}

/// The parameters line up with the filters: the value bound at position
/// `bind_count` of the filters before `i` (the parameter that filter `i`
/// names) is the value of filter `i`.
pub proof fn lemma_parameters_align(fs: Seq<Filter>, i: int)
    requires
        0 <= i < fs.len(),
        binds_value(fs[i]),
    ensures
        bind_count(fs.subrange(0, i)) < bound_values(fs).len(),
        Some(bound_values(fs)[bind_count(fs.subrange(0, i)) as int]) == bound_value(fs[i]),
    decreases fs.len(),
{
    lemma_bound_values_len(fs);
    lemma_bind_count_grows(fs, i);
    if i < fs.len() - 1 {
        lemma_parameters_align(fs.drop_last(), i);
        assert(fs.drop_last().subrange(0, i) =~= fs.subrange(0, i));
        assert(fs.drop_last()[i] == fs[i]);
    } else {
        assert(fs.subrange(0, i) =~= fs.drop_last());
        lemma_bound_values_len(fs.drop_last());
    }
}

} // verus!
