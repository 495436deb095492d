//! The relational dialect: queries compiled to SQL with positional
//! parameters `$1, $2, ...` assigned in filter order.

use vstd::prelude::*;
use crate::query::{Delete, Filter, Join, Order, Query};
use crate::sql::{bind_count, number_clause_text, order_clause_text, push_number_clause, push_order_clause};
use crate::text::{decimal, joined, push_decimal, push_joined, push_str, views};

verus! {

/// The condition of one filter whose parameter, where it binds one, is `$p`.
pub open spec fn filter_text(f: Filter, p: nat) -> Seq<char> {
    match f {
        Filter::Eq(n, _) => n@ + " = $"@ + decimal(p),
        Filter::Ne(n, _) => n@ + " != $"@ + decimal(p),
        Filter::Gt(n, _) => n@ + " > $"@ + decimal(p),
        Filter::Gte(n, _) => n@ + " >= $"@ + decimal(p),
        Filter::Lt(n, _) => n@ + " < $"@ + decimal(p),
        Filter::Lte(n, _) => n@ + " <= $"@ + decimal(p),
        Filter::In(n, _) => n@ + " = ANY($"@ + decimal(p) + ")"@,
        Filter::IsNull(n) => n@ + " IS NULL"@,
        Filter::IsNotNull(n) => n@ + " IS NOT NULL"@,
    }
}

/// The conditions of the filters, numbering parameters from `start`.
pub open spec fn filter_texts(fs: Seq<Filter>, start: nat) -> Seq<Seq<char>> {
    Seq::new(fs.len(), |i: int| filter_text(fs[i], (start + bind_count(fs.subrange(0, i))) as nat))
}

/// ` WHERE c1 AND c2 ...`, or nothing without filters.
pub open spec fn where_text(fs: Seq<Filter>, start: nat) -> Seq<char> {
    if fs.len() == 0 {
        Seq::empty()
    } else {
        " WHERE "@ + joined(filter_texts(fs, start), " AND "@)
    }
}

/// The text of one join.
pub open spec fn join_text(main: Seq<char>, j: Join) -> Seq<char> {
    " JOIN "@ + j.table@ + " ON "@ + main + "."@ + j.left_field@ + " = "@ + j.table@ + "."@
        + j.right_field@
}

/// The joins one after the other.
pub open spec fn joins_text(main: Seq<char>, js: Seq<Join>) -> Seq<char>
    decreases js.len(),
{
    if js.len() == 0 {
        Seq::empty()
    } else {
        joins_text(main, js.drop_last()) + join_text(main, js.last())
    }
}

/// `DISTINCT ON (f1, f2) `, or nothing without distinct-on fields.
pub open spec fn distinct_text(fields: Seq<String>) -> Seq<char> {
    if fields.len() == 0 {
        Seq::empty()
    } else {
        "DISTINCT ON ("@ + joined(views(fields), ", "@) + ") "@
    }
}

/// `*`, or `table.*` where the query joins other tables.
pub open spec fn projection_text(q: Query) -> Seq<char> {
    if q.joins@.len() == 0 {
        "*"@
    } else {
        q.table@ + ".*"@
    }
}

/// The statement of a select: distinct-on, projection, table, joins, filters,
/// order, limit and offset, in that order.
pub open spec fn select_text(q: Query) -> Seq<char> {
    "SELECT "@ + distinct_text(q.distinct_on@) + projection_text(q) + " FROM "@ + q.table@
        + joins_text(q.table@, q.joins@) + where_text(q.filters@, 1) + order_clause_text(
        q.order_by@,
    ) + number_clause_text(" LIMIT "@, q.limit) + number_clause_text(" OFFSET "@, q.offset)
}

/// The condition of one filter.
fn build_filter(f: &Filter, p: usize) -> (r: String)
    ensures
        r@ == filter_text(*f, p as nat),
{
    let mut out = String::new();
    match f {
        Filter::Eq(n, _) => {
            push_str(&mut out, n.as_str());
            push_str(&mut out, " = $");
            push_decimal(&mut out, p as u64);
        },
        Filter::Ne(n, _) => {
            push_str(&mut out, n.as_str());
            push_str(&mut out, " != $");
            push_decimal(&mut out, p as u64);
        },
        Filter::Gt(n, _) => {
            push_str(&mut out, n.as_str());
            push_str(&mut out, " > $");
            push_decimal(&mut out, p as u64);
        },
        Filter::Gte(n, _) => {
            push_str(&mut out, n.as_str());
            push_str(&mut out, " >= $");
            push_decimal(&mut out, p as u64);
        },
        Filter::Lt(n, _) => {
            push_str(&mut out, n.as_str());
            push_str(&mut out, " < $");
            push_decimal(&mut out, p as u64);
        },
        Filter::Lte(n, _) => {
            push_str(&mut out, n.as_str());
            push_str(&mut out, " <= $");
            push_decimal(&mut out, p as u64);
        },
        Filter::In(n, _) => {
            push_str(&mut out, n.as_str());
            push_str(&mut out, " = ANY($");
            push_decimal(&mut out, p as u64);
            push_str(&mut out, ")");
        },
        Filter::IsNull(n) => {
            push_str(&mut out, n.as_str());
            push_str(&mut out, " IS NULL");
        },
        Filter::IsNotNull(n) => {
            push_str(&mut out, n.as_str());
            push_str(&mut out, " IS NOT NULL");
        },
    }
    assert(out@ =~= filter_text(*f, p as nat));
    out
}

/// The where clause of `filters`, numbering parameters from `start_param`,
/// and the number of parameters it uses.
pub fn build_where_clause(filters: &Vec<Filter>, start_param: usize) -> (r: (String, usize))
    requires
        start_param + filters@.len() <= usize::MAX,
    ensures
        r.0@ == where_text(filters@, start_param as nat),
        r.1 == bind_count(filters@),
{
    if filters.len() == 0 {
        return (String::new(), 0);
    }
    let mut clauses: Vec<String> = Vec::new();
    let mut param_idx: usize = start_param;
    let mut i: usize = 0;
    while i < filters.len()
        invariant
            i <= filters@.len(),
            start_param + filters@.len() <= usize::MAX,
            param_idx == start_param + bind_count(filters@.subrange(0, i as int)),
            bind_count(filters@.subrange(0, i as int)) <= i,
            clauses@.len() == i,
            forall|k: int|
                0 <= k < i ==> #[trigger] clauses@[k]@ == filter_text(
                    filters@[k],
                    (start_param + bind_count(filters@.subrange(0, k))) as nat,
                ),
        decreases filters@.len() - i,
    {
        assert(filters@.subrange(0, i + 1).drop_last() =~= filters@.subrange(0, i as int));
        assert(filters@.subrange(0, i + 1).last() == filters@[i as int]);
        let c = build_filter(&filters[i], param_idx);
        clauses.push(c);
        match &filters[i] {
            Filter::IsNull(_) | Filter::IsNotNull(_) => {},
            _ => {
                param_idx = param_idx + 1;
            },
        }
        i = i + 1;
    }
    assert(views(clauses@) =~= filter_texts(filters@, start_param as nat));
    let mut out = String::new();
    push_str(&mut out, " WHERE ");
    push_joined(&mut out, &clauses, " AND ");
    proof {
        assert(filters@.subrange(0, filters@.len() as int) =~= filters@);
    }
    (out, param_idx - start_param)
}

/// ` ORDER BY ...` of the order keys, or nothing.
pub fn build_order_clause(order_by: &Vec<(String, Order)>) -> (r: String)
    ensures
        r@ == order_clause_text(order_by@),
{
    let mut out = String::new();
    push_order_clause(&mut out, order_by);
    out
}

/// The joins of `joins` onto `main_table`.
pub fn build_join_clause(main_table: &str, joins: &Vec<Join>) -> (r: String)
    ensures
        r@ == joins_text(main_table@, joins@),
{
    let mut out = String::new();
    let mut i: usize = 0;
    while i < joins.len()
        invariant
            i <= joins@.len(),
            out@ == joins_text(main_table@, joins@.subrange(0, i as int)),
        decreases joins@.len() - i,
    {
        assert(joins@.subrange(0, i + 1).drop_last() =~= joins@.subrange(0, i as int));
        let j = &joins[i];
        push_str(&mut out, " JOIN ");
        push_str(&mut out, j.table.as_str());
        push_str(&mut out, " ON ");
        push_str(&mut out, main_table);
        push_str(&mut out, ".");
        push_str(&mut out, j.left_field.as_str());
        push_str(&mut out, " = ");
        push_str(&mut out, j.table.as_str());
        push_str(&mut out, ".");
        push_str(&mut out, j.right_field.as_str());
        assert(out@ =~= joins_text(main_table@, joins@.subrange(0, i + 1)));
        i = i + 1;
    }
    assert(joins@.subrange(0, joins@.len() as int) =~= joins@);
    out
}

/// The statement of a select.
pub fn build_select(q: &Query) -> (r: String)
    requires
        1 + q.filters@.len() <= usize::MAX,
    ensures
        r@ == select_text(*q),
{
    let mut out = String::new();
    push_str(&mut out, "SELECT ");
    if q.distinct_on.len() > 0 {
        push_str(&mut out, "DISTINCT ON (");
        push_joined(&mut out, &q.distinct_on, ", ");
        push_str(&mut out, ") ");
    }
    if q.joins.len() == 0 {
        push_str(&mut out, "*");
    } else {
        push_str(&mut out, q.table.as_str());
        push_str(&mut out, ".*");
    }
    push_str(&mut out, " FROM ");
    push_str(&mut out, q.table.as_str());
    let joins = build_join_clause(q.table.as_str(), &q.joins);
    push_str(&mut out, joins.as_str());
    let (wh, _) = build_where_clause(&q.filters, 1);
    push_str(&mut out, wh.as_str());
    push_order_clause(&mut out, &q.order_by);
    push_number_clause(&mut out, " LIMIT ", q.limit);
    push_number_clause(&mut out, " OFFSET ", q.offset);
    assert(out@ =~= select_text(*q));
    out
}

/// `SELECT EXISTS(SELECT 1 FROM t WHERE ...)`.
pub open spec fn exists_text(q: Query) -> Seq<char> {
    "SELECT EXISTS(SELECT 1 FROM "@ + q.table@ + where_text(q.filters@, 1) + ")"@
}

/// The statement asking whether any row matches the query's filters.
pub fn build_exists(q: &Query) -> (r: String)
    requires
        1 + q.filters@.len() <= usize::MAX,
    ensures
        r@ == exists_text(*q),
{
    let mut out = String::new();
    push_str(&mut out, "SELECT EXISTS(SELECT 1 FROM ");
    push_str(&mut out, q.table.as_str());
    let (wh, _) = build_where_clause(&q.filters, 1);
    push_str(&mut out, wh.as_str());
    push_str(&mut out, ")");
    assert(out@ =~= exists_text(*q));
    out
}

/// `DELETE FROM t WHERE ...`.
pub open spec fn delete_text(d: Delete) -> Seq<char> {
    "DELETE FROM "@ + d.table@ + where_text(d.filters@, 1)
}

/// The statement of a delete.
pub fn build_delete(d: &Delete) -> (r: String)
    requires
        1 + d.filters@.len() <= usize::MAX,
    ensures
        r@ == delete_text(*d),
{
    let mut out = String::new();
    push_str(&mut out, "DELETE FROM ");
    push_str(&mut out, d.table.as_str());
    let (wh, _) = build_where_clause(&d.filters, 1);
    push_str(&mut out, wh.as_str());
    assert(out@ =~= delete_text(*d));
    out
}

} // verus!
