//! The backend-neutral query algebra: values, filters, joins, ordering,
//! pagination and distinct-on, with builders for selects and deletes.

use vstd::prelude::*;
use crate::storable::Storable;
use crate::time::StorageDatetime;

verus! {

/// A value bound to a query parameter.
#[derive(Debug, Clone, PartialEq, Eq)]
pub enum Value {
    String(String),
    Int(i64),
    UInt(u64),
    Bool(bool),
    /// A list of texts, matched by `In`.
    Strings(Vec<String>),
    Datetime(StorageDatetime),
    Null,
}

/// A condition on one field; the conditions of a query all hold together.
#[derive(Debug, Clone, PartialEq, Eq)]
pub enum Filter {
    Eq(String, Value),
    Ne(String, Value),
    Gt(String, Value),
    Gte(String, Value),
    Lt(String, Value),
    Lte(String, Value),
    /// The field is one of a list of texts.
    In(String, Value),
    IsNull(String),
    IsNotNull(String),
}

/// Sort direction.
#[derive(Debug, Clone, Copy, PartialEq, Eq, Structural)]
pub enum Order {
    Asc,
    Desc,
}

/// An inner join of `table` on `main.left_field = table.right_field`.
#[derive(Debug, Clone, PartialEq, Eq)]
pub struct Join {
    pub table: String,
    pub left_field: String,
    pub right_field: String,
}

/// A select: table, joins, filters, order keys, limit, offset and the
/// fields of which each combination yields one row.
#[derive(Debug, Clone, PartialEq, Eq)]
pub struct Query {
    pub table: String,
    pub joins: Vec<Join>,
    pub filters: Vec<Filter>,
    pub order_by: Vec<(String, Order)>,
    pub limit: Option<u64>,
    pub offset: Option<u64>,
    pub distinct_on: Vec<String>,
}

/// A delete: table and filters.
#[derive(Debug, Clone, PartialEq, Eq)]
pub struct Delete {
    pub table: String,
    pub filters: Vec<Filter>,
}

/// The field a filter is about.
pub open spec fn filter_field(f: Filter) -> Seq<char> {
    match f {
        Filter::Eq(n, _) => n@,
        Filter::Ne(n, _) => n@,
        Filter::Gt(n, _) => n@,
        Filter::Gte(n, _) => n@,
        Filter::Lt(n, _) => n@,
        Filter::Lte(n, _) => n@,
        Filter::In(n, _) => n@,
        Filter::IsNull(n) => n@,
        Filter::IsNotNull(n) => n@,
    }
}

/// Whether a filter binds a value.
pub open spec fn binds_value(f: Filter) -> bool {
    !(f is IsNull) && !(f is IsNotNull)
}

/// Whether `q` differs from `old` only in its filters, by `f` at the end.
pub open spec fn adds_filter(q: Query, old: Query, f: Filter) -> bool {
    &&& q.filters@ == old.filters@.push(f)
    &&& q.table == old.table
    &&& q.joins == old.joins
    &&& q.order_by == old.order_by
    &&& q.limit == old.limit
    &&& q.offset == old.offset
    &&& q.distinct_on == old.distinct_on
}

impl Query {
    /// A query on the table of a storable type.
    pub fn new(st: &Storable) -> (r: Query)
        ensures
            r.table@ == st.table_name@,
            r.joins@.len() == 0,
            r.filters@.len() == 0,
            r.order_by@.len() == 0,
            r.limit is None,
            r.offset is None,
            r.distinct_on@.len() == 0,
    {
        Query::for_table(st.table_name.clone())
    }

    /// A query on `table`.
    pub fn for_table(table: String) -> (r: Query)
        ensures
            r.table == table,
            r.joins@.len() == 0,
            r.filters@.len() == 0,
            r.order_by@.len() == 0,
            r.limit is None,
            r.offset is None,
            r.distinct_on@.len() == 0,
    {
        Query {
            table,
            joins: Vec::new(),
            filters: Vec::new(),
            order_by: Vec::new(),
            limit: None,
            offset: None,
            distinct_on: Vec::new(),
        }
    }

    /// Adds an inner join of `join_table` on `left_field = right_field`.
    pub fn join(self, join_table: String, left_field: String, right_field: String) -> (r: Query)
        ensures
            r.joins@ == self.joins@.push(
                Join { table: join_table, left_field: left_field, right_field: right_field },
            ),
            r.table == self.table,
            r.filters == self.filters,
            r.order_by == self.order_by,
            r.limit == self.limit,
            r.offset == self.offset,
            r.distinct_on == self.distinct_on,
    {
        let mut q = self;
        q.joins.push(Join { table: join_table, left_field, right_field });
        q
    }

    /// Adds a filter.
    pub fn filter(self, filter: Filter) -> (r: Query)
        ensures
            adds_filter(r, self, filter),
    {
        let mut q = self;
        q.filters.push(filter);
        q
    }

    /// Adds `field = value`.
    pub fn eq(self, field: String, value: Value) -> (r: Query)
        ensures
            adds_filter(r, self, Filter::Eq(field, value)),
    {
        self.filter(Filter::Eq(field, value))
    }

    /// Adds `field != value`.
    pub fn ne(self, field: String, value: Value) -> (r: Query)
        ensures
            adds_filter(r, self, Filter::Ne(field, value)),
    {
        self.filter(Filter::Ne(field, value))
    }

    /// Adds: `field` is one of `values`.
    pub fn in_values(self, field: String, values: Value) -> (r: Query)
        ensures
            adds_filter(r, self, Filter::In(field, values)),
    {
        self.filter(Filter::In(field, values))
    }

    /// Adds `field > value`.
    pub fn gt(self, field: String, value: Value) -> (r: Query)
        ensures
            adds_filter(r, self, Filter::Gt(field, value)),
    {
        self.filter(Filter::Gt(field, value))
    }

    /// Adds `field >= value`.
    pub fn gte(self, field: String, value: Value) -> (r: Query)
        ensures
            adds_filter(r, self, Filter::Gte(field, value)),
    {
        self.filter(Filter::Gte(field, value))
    }

    /// Adds `field < value`.
    pub fn lt(self, field: String, value: Value) -> (r: Query)
        ensures
            adds_filter(r, self, Filter::Lt(field, value)),
    {
        self.filter(Filter::Lt(field, value))
    }

    /// Adds `field <= value`.
    pub fn lte(self, field: String, value: Value) -> (r: Query)
        ensures
            adds_filter(r, self, Filter::Lte(field, value)),
    {
        self.filter(Filter::Lte(field, value))
    }

    /// Adds an order key.
    pub fn order_by(self, field: String, order: Order) -> (r: Query)
        ensures
            r.order_by@ == self.order_by@.push((field, order)),
            r.table == self.table,
            r.joins == self.joins,
            r.filters == self.filters,
            r.limit == self.limit,
            r.offset == self.offset,
            r.distinct_on == self.distinct_on,
    {
        let mut q = self;
        q.order_by.push((field, order));
        q
    }

    /// Caps the number of rows.
    pub fn limit(self, limit: u64) -> (r: Query)
        ensures
            r.limit == Some(limit),
            r.table == self.table,
            r.joins == self.joins,
            r.filters == self.filters,
            r.order_by == self.order_by,
            r.offset == self.offset,
            r.distinct_on == self.distinct_on,
    {
        let mut q = self;
        q.limit = Some(limit);
        q
    }

    /// Skips rows.
    pub fn offset(self, offset: u64) -> (r: Query)
        ensures
            r.offset == Some(offset),
            r.table == self.table,
            r.joins == self.joins,
            r.filters == self.filters,
            r.order_by == self.order_by,
            r.limit == self.limit,
            r.distinct_on == self.distinct_on,
    {
        let mut q = self;
        q.offset = Some(offset);
        q
    }

    /// Asks for one row per combination of the distinct-on fields, to which
    /// `field` is added.
    pub fn distinct_on(self, field: String) -> (r: Query)
        ensures
            r.distinct_on@ == self.distinct_on@.push(field),
            r.table == self.table,
            r.joins == self.joins,
            r.filters == self.filters,
            r.order_by == self.order_by,
            r.limit == self.limit,
            r.offset == self.offset,
    {
        let mut q = self;
        q.distinct_on.push(field);
        q
    }
}

impl Delete {
    /// A delete on the table of a storable type.
    pub fn new(st: &Storable) -> (r: Delete)
        ensures
            r.table@ == st.table_name@,
            r.filters@.len() == 0,
    {
        Delete::for_table(st.table_name.clone())
    }

    /// A delete on `table`.
    pub fn for_table(table: String) -> (r: Delete)
        ensures
            r.table == table,
            r.filters@.len() == 0,
    {
        Delete { table, filters: Vec::new() }
    }

    /// Adds a filter.
    pub fn filter(self, filter: Filter) -> (r: Delete)
        ensures
            r.filters@ == self.filters@.push(filter),
            r.table == self.table,
    {
        let mut d = self;
        d.filters.push(filter);
        d
    }

    /// Adds `field = value`.
    pub fn eq(self, field: String, value: Value) -> (r: Delete)
        ensures
            r.filters@ == self.filters@.push(Filter::Eq(field, value)),
            r.table == self.table,
    {
        self.filter(Filter::Eq(field, value))
    }

    /// Adds `field >= value`.
    pub fn gte(self, field: String, value: Value) -> (r: Delete)
        ensures
            r.filters@ == self.filters@.push(Filter::Gte(field, value)),
            r.table == self.table,
    {
        self.filter(Filter::Gte(field, value))
    }

    /// Adds: `field` is one of `values`.
    pub fn in_values(self, field: String, values: Value) -> (r: Delete)
        ensures
            r.filters@ == self.filters@.push(Filter::In(field, values)),
            r.table == self.table,
    {
        self.filter(Filter::In(field, values))
    }
}

} // verus!
