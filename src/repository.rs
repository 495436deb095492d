//! Repository contracts: how a versioned or unversioned repository prepares
//! the records it writes and the queries it reads with. Executing those
//! statements against a backend is the caller's part.

use vstd::prelude::*;
use crate::error::StorageError;
use crate::query::{Filter, Order, Query, Value};
use crate::record::{record_wf, FieldValue, Record};
use crate::said::{
    advanced, prefix_digest_of, said_digest_of, versioned, encodes, with_prefix, with_said,
    SaidEncoding,
};
use crate::text::push_str;
use crate::time::StorageDatetime;

verus! {

/// How to reach a backend.
#[derive(Debug, Clone, PartialEq, Eq)]
pub enum ConnectionConfig {
    /// A URL whose scheme selects the backend.
    Url(String),
}

impl ConnectionConfig {
    /// The configuration for `url`.
    pub fn from_url(url: &str) -> (r: ConnectionConfig)
        ensures
            r matches ConnectionConfig::Url(u) && u@ == url@,
    {
        let mut u = String::new();
        push_str(&mut u, url);
        ConnectionConfig::Url(u)
    }

    /// The URL.
    pub fn url(&self) -> (r: &String)
        ensures
            self matches ConnectionConfig::Url(u) && *r == u,
    {
        match self {
            ConnectionConfig::Url(u) => u,
        }
    }
}

impl From<String> for ConnectionConfig {
    fn from(url: String) -> (r: ConnectionConfig)
        ensures
            r == ConnectionConfig::Url(url),
    {
        ConnectionConfig::Url(url)
    }
}

impl vstd::std_specs::convert::FromSpecImpl<String> for ConnectionConfig {
    open spec fn obeys_from_spec() -> bool {
        true
    }

    open spec fn from_spec(url: String) -> ConnectionConfig {
        ConnectionConfig::Url(url)
    }
}

/// A text of the given characters.
fn text(s: &str) -> (r: String)
    ensures
        r@ == s@,
{
    let mut out = String::new();
    push_str(&mut out, s);
    out
}

/// A query on `table` for rows whose `field` equals `value`.
pub open spec fn eq_query(q: Query, table: String, field: String, value: String) -> bool {
    &&& q.table == table
    &&& q.joins@.len() == 0
    &&& q.filters@ == seq![Filter::Eq(field, Value::String(value))]
    &&& q.offset is None
    &&& q.distinct_on@.len() == 0
}

/// A query on `table` for rows whose `field` equals `value`, with no other
/// conditions, order keys or bounds.
fn eq_on(table: &String, field: &String, value: String) -> (r: Query)
    ensures
        eq_query(r, *table, *field, value),
        r.order_by@.len() == 0,
        r.limit is None,
{
    let q0 = Query::for_table(table.clone());
    let ghost f = Filter::Eq(*field, Value::String(value));
    let q = q0.eq(field.clone(), Value::String(value));
    assert(q.filters@ =~= seq![f]);
    q
}

/// A repository of versioned records in one table.
#[derive(Debug, Clone, PartialEq, Eq)]
pub struct VersionedRepository {
    pub table: String,
    /// The column holding the identifier.
    pub id_field: String,
    /// The column holding the lineage prefix.
    pub prefix_field: String,
}

impl VersionedRepository {
    /// A repository on `table` with the identifier in `said` and the prefix
    /// in `prefix`.
    pub fn new(table: String) -> (r: VersionedRepository)
        ensures
            r.table == table,
            r.id_field@ == "said"@,
            r.prefix_field@ == "prefix"@,
    {
        VersionedRepository { table, id_field: text("said"), prefix_field: text("prefix") }
    }

    /// The first version of a lineage, ready to insert: its identifier and
    /// prefix derived from `enc`, the encoding of its prefix digest.
    pub fn create(&self, item: Record, enc: &SaidEncoding) -> (r: Result<Record, StorageError>)
        requires
            record_wf(item@),
            versioned(item@),
        ensures
            r is Ok <==> encodes(*enc) && enc.digest@ == prefix_digest_of(item@),
            r matches Ok(rec) ==> rec@ == with_prefix(with_said(item@, enc.qb64@), enc.qb64@)
                && record_wf(rec@),
            r matches Err(e) ==> e is CesrError,
    {
        let mut item = item;
        match item.derive_prefix(enc) {
            Ok(()) => Ok(item),
            Err(e) => Err(e),
        }
    }

    /// The next version of `item`, made at `created_at`, ready to insert:
    /// its identifier derived from `enc`, the encoding of its digest.
    pub fn update(&self, item: Record, created_at: StorageDatetime, enc: &SaidEncoding) -> (r: Result<Record, StorageError>)
        requires
            record_wf(item@),
            versioned(item@),
            crate::record::version_of(item@) < u64::MAX,
        ensures
            r is Ok <==> encodes(*enc) && enc.digest@ == said_digest_of(
                advanced(item@, Some(FieldValue::Datetime(created_at)@)),
            ),
            r matches Ok(rec) ==> rec@ == with_said(
                advanced(item@, Some(FieldValue::Datetime(created_at)@)),
                enc.qb64@,
            ) && record_wf(rec@),
            r matches Err(e) ==> e is CesrError,
    {
        let mut item = item;
        match item.increment(created_at, enc) {
            Ok(()) => Ok(item),
            Err(e) => Err(e),
        }
    }

    /// The query for the record with identifier `said`: at most one row.
    pub fn get_by_said_query(&self, said: String) -> (r: Query)
        ensures
            eq_query(r, self.table, self.id_field, said),
            r.order_by@.len() == 0,
            r.limit == Some(1u64),
    {
        eq_on(&self.table, &self.id_field, said).limit(1)
    }

    /// The query for the latest version of a lineage: the row of highest
    /// version.
    pub fn get_latest_query(&self, prefix: String) -> (r: Query)
        ensures
            eq_query(r, self.table, self.prefix_field, prefix),
            r.order_by@.len() == 1,
            r.order_by@[0].0@ == "version"@,
            r.order_by@[0].1 == Order::Desc,
            r.limit == Some(1u64),
    {
        eq_on(&self.table, &self.prefix_field, prefix).order_by(text("version"), Order::Desc).limit(1)
    }

    /// The query for the whole history of a lineage, by ascending version.
    pub fn get_history_query(&self, prefix: String) -> (r: Query)
        ensures
            eq_query(r, self.table, self.prefix_field, prefix),
            r.order_by@.len() == 1,
            r.order_by@[0].0@ == "version"@,
            r.order_by@[0].1 == Order::Asc,
            r.limit is None,
    {
        eq_on(&self.table, &self.prefix_field, prefix).order_by(text("version"), Order::Asc)
    }

    /// The query telling whether a lineage has any version: at most one row.
    pub fn exists_query(&self, prefix: String) -> (r: Query)
        ensures
            eq_query(r, self.table, self.prefix_field, prefix),
            r.order_by@.len() == 0,
            r.limit == Some(1u64),
    {
        eq_on(&self.table, &self.prefix_field, prefix).limit(1)
    }
}

/// A repository of unversioned records in one table.
#[derive(Debug, Clone, PartialEq, Eq)]
pub struct UnversionedRepository {
    pub table: String,
    /// The column holding the identifier.
    pub id_field: String,
}

impl UnversionedRepository {
    /// A repository on `table` with the identifier in `said`.
    pub fn new(table: String) -> (r: UnversionedRepository)
        ensures
            r.table == table,
            r.id_field@ == "said"@,
    {
        UnversionedRepository { table, id_field: text("said") }
    }

    /// A record ready to insert: its identifier derived from `enc`, the
    /// encoding of its digest.
    pub fn create(&self, item: Record, enc: &SaidEncoding) -> (r: Result<Record, StorageError>)
        requires
            record_wf(item@),
        ensures
            r is Ok <==> encodes(*enc) && enc.digest@ == said_digest_of(item@),
            r matches Ok(rec) ==> rec@ == with_said(item@, enc.qb64@) && record_wf(rec@),
            r matches Err(e) ==> e is CesrError,
    {
        let mut item = item;
        match item.derive_said(enc) {
            Ok(()) => Ok(item),
            Err(e) => Err(e),
        }
    }

    /// The query for the record with identifier `said`: at most one row.
    pub fn get_by_said_query(&self, said: String) -> (r: Query)
        ensures
            eq_query(r, self.table, self.id_field, said),
            r.order_by@.len() == 0,
            r.limit == Some(1u64),
    {
        eq_on(&self.table, &self.id_field, said).limit(1)
    }
}

} // verus!
