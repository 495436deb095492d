//! The document dialect: queries compiled to the document engine's query
//! language, with parameters bound by name (`$p0, $p1, ...`, one per filter
//! position) and distinct-on expressed as grouping.

use vstd::prelude::*;
use crate::error::StorageError;
use crate::query::{Delete, Filter, Join, Order, Query};
use crate::sql::{number_clause_text, order_clause_text, push_number_clause, push_order_clause};
use crate::text::{decimal, joined, push_decimal, push_joined, push_str, views};

verus! {

/// The parameter of the filter at position `i`: `$p` and the position.
pub open spec fn param_text(i: nat) -> Seq<char> {
    "$p"@ + decimal(i)
}

/// The condition of the filter at position `i`.
pub open spec fn filter_text(f: Filter, i: nat) -> Seq<char> {
    match f {
        Filter::Eq(n, _) => n@ + " = "@ + param_text(i),
        Filter::Ne(n, _) => n@ + " != "@ + param_text(i),
        Filter::Gt(n, _) => n@ + " > "@ + param_text(i),
        Filter::Gte(n, _) => n@ + " >= "@ + param_text(i),
        Filter::Lt(n, _) => n@ + " < "@ + param_text(i),
        Filter::Lte(n, _) => n@ + " <= "@ + param_text(i),
        Filter::In(n, _) => param_text(i) + " CONTAINS "@ + n@,
        Filter::IsNull(n) => n@ + " IS NULL"@,
        Filter::IsNotNull(n) => n@ + " IS NOT NULL"@,
    }
}

/// ` WHERE c1 AND c2 ...`, or nothing without filters.
pub open spec fn where_text(fs: Seq<Filter>) -> Seq<char> {
    if fs.len() == 0 {
        Seq::empty()
    } else {
        " WHERE "@ + joined(Seq::new(fs.len(), |i: int| filter_text(fs[i], i as nat)), " AND "@)
    }
}

/// The text of one join.
pub open spec fn join_text(main: Seq<char>, j: Join) -> Seq<char> {
    " INNER JOIN "@ + j.table@ + " ON "@ + main + "."@ + j.left_field@ + " = "@ + j.table@ + "."@
        + j.right_field@
}

/// The joins one after the other.
pub open spec fn joins_text(main: Seq<char>, js: Seq<Join>) -> Seq<char>
    decreases js.len(),
{
    if js.len() == 0 {
        Seq::empty()
    } else {
        joins_text(main, js.drop_last()) + join_text(main, js.last())
    }
}

/// ` GROUP BY f1, f2`, or nothing without distinct-on fields.
pub open spec fn group_text(fields: Seq<String>) -> Seq<char> {
    if fields.len() == 0 {
        Seq::empty()
    } else {
        " GROUP BY "@ + joined(views(fields), ", "@)
    }
}

/// The statement of a select: projection, table, joins, filters, grouping,
/// order, limit and start, in that order.
pub open spec fn select_text(q: Query) -> Seq<char> {
    "SELECT "@ + (if q.joins@.len() == 0 {
        "*"@
    } else {
        q.table@ + ".*"@
    }) + " FROM "@ + q.table@ + joins_text(q.table@, q.joins@) + where_text(q.filters@)
        + group_text(q.distinct_on@) + order_clause_text(q.order_by@) + number_clause_text(
        " LIMIT "@,
        q.limit,
    ) + number_clause_text(" START "@, q.offset)
}

/// The condition of the filter at position `i`.
fn build_filter(f: &Filter, i: usize) -> (r: String)
    ensures
        r@ == filter_text(*f, i as nat),
{
    let mut p = String::new();
    push_str(&mut p, "$p");
    push_decimal(&mut p, i as u64);
    let mut out = String::new();
    match f {
        Filter::Eq(n, _) => {
            push_str(&mut out, n.as_str());
            push_str(&mut out, " = ");
            push_str(&mut out, p.as_str());
        },
        Filter::Ne(n, _) => {
            push_str(&mut out, n.as_str());
            push_str(&mut out, " != ");
            push_str(&mut out, p.as_str());
        },
        Filter::Gt(n, _) => {
            push_str(&mut out, n.as_str());
            push_str(&mut out, " > ");
            push_str(&mut out, p.as_str());
        },
        Filter::Gte(n, _) => {
            push_str(&mut out, n.as_str());
            push_str(&mut out, " >= ");
            push_str(&mut out, p.as_str());
        },
        Filter::Lt(n, _) => {
            push_str(&mut out, n.as_str());
            push_str(&mut out, " < ");
            push_str(&mut out, p.as_str());
        },
        Filter::Lte(n, _) => {
            push_str(&mut out, n.as_str());
            push_str(&mut out, " <= ");
            push_str(&mut out, p.as_str());
        },
        Filter::In(n, _) => {
            push_str(&mut out, p.as_str());
            push_str(&mut out, " CONTAINS ");
            push_str(&mut out, n.as_str());
        },
        Filter::IsNull(n) => {
            push_str(&mut out, n.as_str());
            push_str(&mut out, " IS NULL");
        },
        Filter::IsNotNull(n) => {
            push_str(&mut out, n.as_str());
            push_str(&mut out, " IS NOT NULL");
        },
    }
    assert(out@ =~= filter_text(*f, i as nat));
    out
}

/// The where clause of `filters`.
pub fn build_where_clause(filters: &Vec<Filter>) -> (r: String)
    ensures
        r@ == where_text(filters@),
{
    if filters.len() == 0 {
        return String::new();
    }
    let mut clauses: Vec<String> = Vec::new();
    let mut i: usize = 0;
    while i < filters.len()
        invariant
            i <= filters@.len(),
            clauses@.len() == i,
            forall|k: int| 0 <= k < i ==> #[trigger] clauses@[k]@ == filter_text(filters@[k], k as nat),
        decreases filters@.len() - i,
    {
        let c = build_filter(&filters[i], i);
        clauses.push(c);
        i = i + 1;
    }
    assert(views(clauses@) =~= Seq::new(
        filters@.len(),
        |k: int| filter_text(filters@[k], k as nat),
    ));
    let mut out = String::new();
    push_str(&mut out, " WHERE ");
    push_joined(&mut out, &clauses, " AND ");
    out
}

/// The names of the parameters the filters bind, with the filters' values:
/// `p` and the filter's position.
pub fn param_names(filters: &Vec<Filter>) -> (r: Vec<String>)
    ensures
        r@.len() == filters@.len(),
        forall|i: int| 0 <= i < r@.len() ==> #[trigger] r@[i]@ == "p"@ + decimal(i as nat),
{
    let mut out: Vec<String> = Vec::new();
    let mut i: usize = 0;
    while i < filters.len()
        invariant
            i <= filters@.len(),
            out@.len() == i,
            forall|k: int| 0 <= k < i ==> #[trigger] out@[k]@ == "p"@ + decimal(k as nat),
        decreases filters@.len() - i,
    {
        let mut t = String::new();
        push_str(&mut t, "p");
        push_decimal(&mut t, i as u64);
        out.push(t);
        i = i + 1;
    }
    out
}

/// ` ORDER BY ...` of the order keys, or nothing.
pub fn build_order_clause(order_by: &Vec<(String, Order)>) -> (r: String)
    ensures
        r@ == order_clause_text(order_by@),
{
    let mut out = String::new();
    push_order_clause(&mut out, order_by);
    out
}

/// The joins of `joins` onto `main_table`.
pub fn build_join_clause(main_table: &str, joins: &Vec<Join>) -> (r: String)
    ensures
        r@ == joins_text(main_table@, joins@),
{
    let mut out = String::new();
    let mut i: usize = 0;
    while i < joins.len()
        invariant
            i <= joins@.len(),
            out@ == joins_text(main_table@, joins@.subrange(0, i as int)),
        decreases joins@.len() - i,
    {
        assert(joins@.subrange(0, i + 1).drop_last() =~= joins@.subrange(0, i as int));
        let j = &joins[i];
        push_str(&mut out, " INNER JOIN ");
        push_str(&mut out, j.table.as_str());
        push_str(&mut out, " ON ");
        push_str(&mut out, main_table);
        push_str(&mut out, ".");
        push_str(&mut out, j.left_field.as_str());
        push_str(&mut out, " = ");
        push_str(&mut out, j.table.as_str());
        push_str(&mut out, ".");
        push_str(&mut out, j.right_field.as_str());
        assert(out@ =~= joins_text(main_table@, joins@.subrange(0, i + 1)));
        i = i + 1;
    }
    assert(joins@.subrange(0, joins@.len() as int) =~= joins@);
    out
}

/// The statement of a select.
pub fn build_select(q: &Query) -> (r: String)
    ensures
        r@ == select_text(*q),
{
    let mut out = String::new();
    push_str(&mut out, "SELECT ");
    if q.joins.len() == 0 {
        push_str(&mut out, "*");
    } else {
        push_str(&mut out, q.table.as_str());
        push_str(&mut out, ".*");
    }
    push_str(&mut out, " FROM ");
    push_str(&mut out, q.table.as_str());
    let joins = build_join_clause(q.table.as_str(), &q.joins);
    push_str(&mut out, joins.as_str());
    let wh = build_where_clause(&q.filters);
    push_str(&mut out, wh.as_str());
    if q.distinct_on.len() > 0 {
        push_str(&mut out, " GROUP BY ");
        push_joined(&mut out, &q.distinct_on, ", ");
    }
    push_order_clause(&mut out, &q.order_by);
    push_number_clause(&mut out, " LIMIT ", q.limit);
    push_number_clause(&mut out, " START ", q.offset);
    assert(out@ =~= select_text(*q));
    out
}

/// `SELECT count() FROM t WHERE ... GROUP ALL`.
pub open spec fn exists_text(q: Query) -> Seq<char> {
    "SELECT count() FROM "@ + q.table@ + where_text(q.filters@) + " GROUP ALL"@
}

/// The statement counting the rows that match the query's filters.
pub fn build_exists(q: &Query) -> (r: String)
    ensures
        r@ == exists_text(*q),
{
    let mut out = String::new();
    push_str(&mut out, "SELECT count() FROM ");
    push_str(&mut out, q.table.as_str());
    let wh = build_where_clause(&q.filters);
    push_str(&mut out, wh.as_str());
    push_str(&mut out, " GROUP ALL");
    assert(out@ =~= exists_text(*q));
    out
}

/// `DELETE FROM t WHERE ...`.
pub open spec fn delete_text(d: Delete) -> Seq<char> {
    "DELETE FROM "@ + d.table@ + where_text(d.filters@)
}

/// The statement of a delete.
pub fn build_delete(d: &Delete) -> (r: String)
    ensures
        r@ == delete_text(*d),
{
    let mut out = String::new();
    push_str(&mut out, "DELETE FROM ");
    push_str(&mut out, d.table.as_str());
    let wh = build_where_clause(&d.filters);
    push_str(&mut out, wh.as_str());
    assert(out@ =~= delete_text(*d));
    out
}

/// `INSERT INTO t $item`: the statement of an insert, with the record's
/// serialization bound as `item`.
pub fn build_insert(table: &str) -> (r: String)
    ensures
        r@ == "INSERT INTO "@ + table@ + " $item"@,
{
    let mut out = String::new();
    push_str(&mut out, "INSERT INTO ");
    push_str(&mut out, table);
    push_str(&mut out, " $item");
    out
}

/// The document engine's stand-in for a transaction: each operation runs at
/// once, so there is nothing to commit or to roll back. A rollback after a
/// commit is refused.
#[derive(Debug, Clone, PartialEq, Eq)]
pub struct SurrealTransaction {
    pub committed: bool,
}

impl SurrealTransaction {
    /// A transaction that has not been committed.
    pub fn begin() -> (r: SurrealTransaction)
        ensures
            !r.committed,
    {
        SurrealTransaction { committed: false }
    }

    /// Marks the transaction committed; nothing else happens.
    pub fn commit(&mut self) -> (r: Result<(), StorageError>)
        ensures
            r is Ok,
            final(self).committed,
    {
        self.committed = true;
        Ok(())
    }

    /// Rolls back: refused once committed, and otherwise nothing happens.
    pub fn rollback(self) -> (r: Result<(), StorageError>)
        ensures
            r is Err <==> self.committed,
            r matches Err(e) ==> e matches StorageError::StorageError(m) && m@
                == "Cannot rollback committed transaction"@,
    {
        if self.committed {
            let mut m = String::new();
            push_str(&mut m, "Cannot rollback committed transaction");
            return Err(StorageError::StorageError(m));
        }
        Ok(())
    }
}

} // verus!
