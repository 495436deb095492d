//! Storable descriptors: the table, the ordered columns with their types and
//! JSON keys, and the statements derived from them. Backends consult only
//! these and the record's serialized values.

use vstd::prelude::*;
use crate::canonical::{json_key, key_of};
use crate::naming::{column_type_of, rust_type_to_sql_type, ColumnType};
use crate::record::{FieldDecl, FieldRole, Record, RecordSchema, find_role, record_wf};
use crate::said::lemma_role_index;
use crate::text::{joined, numbered, numbered_texts, push_joined, push_str, views};

verus! {

/// The fields that are stored: those not marked to be skipped.
pub open spec fn stored_fields(fields: Seq<FieldDecl>) -> Seq<FieldDecl>
    decreases fields.len(),
{
    if fields.len() == 0 {
        Seq::empty()
    } else if fields.last().skip {
        stored_fields(fields.drop_last())
    } else {
        stored_fields(fields.drop_last()).push(fields.last())
    }
}

/// The column name of a field: its override, or the field name.
pub open spec fn column_of(f: FieldDecl) -> Seq<char> {
    match f.column {
        Some(c) => c@,
        None => f.name@,
    }
}

/// `INSERT INTO t (c1, ..., cn) VALUES ($1, ..., $n)`.
pub open spec fn insert_sql_text(table: Seq<char>, columns: Seq<Seq<char>>) -> Seq<char> {
    "INSERT INTO "@ + table + " ("@ + joined(columns, ", "@) + ") VALUES ("@ + joined(
        numbered("$"@, 1, columns.len()),
        ", "@,
    ) + ")"@
}

/// `SELECT * FROM t`.
pub open spec fn select_all_text(table: Seq<char>) -> Seq<char> {
    "SELECT * FROM "@ + table
}

/// `SELECT * FROM t WHERE said = $1`.
pub open spec fn select_by_id_text(table: Seq<char>) -> Seq<char> {
    "SELECT * FROM "@ + table + " WHERE said = $1"@
}

/// The descriptors of a storable record type.
#[derive(Debug, Clone, PartialEq, Eq)]
pub struct Storable {
    pub table_name: String,
    pub columns: Vec<String>,
    pub column_types: Vec<ColumnType>,
    pub json_keys: Vec<String>,
    pub insert_sql: String,
    pub select_all_sql: String,
    pub select_by_id_sql: String,
    pub is_versioned: bool,
}

/// Whether `st` describes the stored fields of `fields` in table `table`:
/// entry `i` of the columns, of the column types and of the JSON keys all
/// come from the `i`-th stored field.
pub open spec fn describes(st: Storable, fields: Seq<FieldDecl>, table: Seq<char>) -> bool {
    let sf = stored_fields(fields);
    &&& st.table_name@ == table
    &&& st.columns@.len() == sf.len()
    &&& st.column_types@.len() == sf.len()
    &&& st.json_keys@.len() == sf.len()
    &&& forall|i: int|
        0 <= i < sf.len() ==> {
            &&& #[trigger] st.columns@[i]@ == column_of(sf[i])
            &&& st.column_types@[i] == column_type_of(sf[i].declared@)
            &&& st.json_keys@[i]@ == key_of(sf[i])
        }
    &&& st.insert_sql@ == insert_sql_text(table, views(st.columns@))
    &&& st.select_all_sql@ == select_all_text(table)
    &&& st.select_by_id_sql@ == select_by_id_text(table)
    &&& st.is_versioned == crate::record::is_versioned_fields(fields)
}

/// Builds `INSERT INTO table (columns) VALUES ($1, ...)`.
pub fn build_insert_sql(table: &str, columns: &Vec<String>) -> (r: String)
    ensures
        r@ == insert_sql_text(table@, views(columns@)),
{
    let mut out = String::new();
    push_str(&mut out, "INSERT INTO ");
    push_str(&mut out, table);
    push_str(&mut out, " (");
    push_joined(&mut out, columns, ", ");
    push_str(&mut out, ") VALUES (");
    let params = numbered_texts("$", 1, columns.len());
    push_joined(&mut out, &params, ", ");
    push_str(&mut out, ")");
    assert(views(columns@).len() == columns@.len());
    out
}

impl Storable {
    /// The descriptors of `schema`, which is storable when it names a table.
    pub fn for_schema(schema: &RecordSchema) -> (r: Option<Storable>)
        ensures
            r is Some <==> schema.table is Some,
            r matches Some(st) ==> describes(st, schema.fields@, schema.table->Some_0@),
    {
        let table = match &schema.table {
            Some(t) => t.clone(),
            None => {
                return None;
            },
        };
        let fields = &schema.fields;
        let mut columns: Vec<String> = Vec::new();
        let mut column_types: Vec<ColumnType> = Vec::new();
        let mut json_keys: Vec<String> = Vec::new();
        let mut i: usize = 0;
        while i < fields.len()
            invariant
                i <= fields@.len(),
                columns@.len() == stored_fields(fields@.subrange(0, i as int)).len(),
                column_types@.len() == columns@.len(),
                json_keys@.len() == columns@.len(),
                forall|k: int|
                    0 <= k < columns@.len() ==> #[trigger] columns@[k]@ == column_of(
                        stored_fields(fields@.subrange(0, i as int))[k],
                    ),
                forall|k: int|
                    0 <= k < columns@.len() ==> #[trigger] column_types@[k] == column_type_of(
                        stored_fields(fields@.subrange(0, i as int))[k].declared@,
                    ),
                forall|k: int|
                    0 <= k < columns@.len() ==> #[trigger] json_keys@[k]@ == key_of(
                        stored_fields(fields@.subrange(0, i as int))[k],
                    ),
            decreases fields@.len() - i,
        {
            let f = &fields[i];
            assert(fields@.subrange(0, i + 1).drop_last() =~= fields@.subrange(0, i as int));
            assert(fields@.subrange(0, i + 1).last() == fields@[i as int]);
            let ghost before = stored_fields(fields@.subrange(0, i as int));
            let ghost c0 = columns@;
            let ghost t0 = column_types@;
            let ghost j0 = json_keys@;
            if !f.skip {
                assert(stored_fields(fields@.subrange(0, i + 1)) == before.push(*f));
                let col = match &f.column {
                    Some(c) => c.clone(),
                    None => f.name.clone(),
                };
                columns.push(col);
                column_types.push(rust_type_to_sql_type(f.declared.as_str()));
                json_keys.push(json_key(f));
                assert forall|k: int| 0 <= k < columns@.len() implies {
                    let g = stored_fields(fields@.subrange(0, i + 1))[k];
                    &&& #[trigger] columns@[k]@ == column_of(g)
                    &&& column_types@[k] == column_type_of(g.declared@)
                    &&& json_keys@[k]@ == key_of(g)
                } by {
                    if k < c0.len() {
                        assert(before.push(*f)[k] == before[k]);
                        assert(columns@[k] == c0[k]);
                        assert(column_types@[k] == t0[k]);
                        assert(json_keys@[k] == j0[k]);
                        assert(c0[k]@ == column_of(before[k]));
                        assert(t0[k] == column_type_of(before[k].declared@));
                        assert(j0[k]@ == key_of(before[k]));
                    } else {
                        assert(before.push(*f)[k] == *f);
                    }
                }
            } else {
                assert(stored_fields(fields@.subrange(0, i + 1)) == before);
                assert forall|k: int| 0 <= k < columns@.len() implies {
                    let g = stored_fields(fields@.subrange(0, i + 1))[k];
                    &&& #[trigger] columns@[k]@ == column_of(g)
                    &&& column_types@[k] == column_type_of(g.declared@)
                    &&& json_keys@[k]@ == key_of(g)
                } by {
                    assert(c0[k]@ == column_of(before[k]));
                    assert(t0[k] == column_type_of(before[k].declared@));
                    assert(j0[k]@ == key_of(before[k]));
                }
            }
            i = i + 1;
        }
        assert(fields@.subrange(0, fields@.len() as int) =~= fields@);
        let insert_sql = build_insert_sql(table.as_str(), &columns);
        assert forall|k: int| 0 <= k < stored_fields(fields@).len() implies {
            let g = stored_fields(fields@)[k];
            &&& #[trigger] columns@[k]@ == column_of(g)
            &&& column_types@[k] == column_type_of(g.declared@)
            &&& json_keys@[k]@ == key_of(g)
        } by {
            assert(columns@[k]@ == column_of(stored_fields(fields@.subrange(0, fields@.len() as int))[k]));
            assert(column_types@[k] == column_type_of(stored_fields(fields@.subrange(0, fields@.len() as int))[k].declared@));
            assert(json_keys@[k]@ == key_of(stored_fields(fields@.subrange(0, fields@.len() as int))[k]));
        }
        let mut select_all_sql = String::new();
        push_str(&mut select_all_sql, "SELECT * FROM ");
        push_str(&mut select_all_sql, table.as_str());
        let mut select_by_id_sql = String::new();
        push_str(&mut select_by_id_sql, "SELECT * FROM ");
        push_str(&mut select_by_id_sql, table.as_str());
        push_str(&mut select_by_id_sql, " WHERE said = $1");
        let is_versioned = schema.is_versioned();
        Some(Storable {
            table_name: table,
            columns,
            column_types,
            json_keys,
            insert_sql,
            select_all_sql,
            select_by_id_sql,
            is_versioned,
        })
    }

    /// The number of columns.
    pub fn column_count(&self) -> (r: usize)
        ensures
            r == self.columns@.len(),
    {
        self.columns.len()
    }

    /// The primary key of a record: its identifier.
    pub fn id(&self, item: &Record) -> (r: String)
        requires
            record_wf(item@),
        ensures
            r@ == crate::record::said_of(item@),
    {
        item.get_said()
    }
}

/// The three per-column lists of a storable type have one entry per stored
/// field, and entry `i` of each describes the same field, the `i`-th of
/// those not skipped.
pub proof fn lemma_column_alignment(st: Storable, fields: Seq<FieldDecl>, table: Seq<char>)
    requires
        describes(st, fields, table),
    ensures
        st.columns@.len() == st.column_types@.len(),
        st.column_types@.len() == st.json_keys@.len(),
        st.columns@.len() == stored_fields(fields).len(),
        forall|i: int|
            0 <= i < st.columns@.len() ==> {
                let f = #[trigger] stored_fields(fields)[i];
                &&& !f.skip
                &&& column_of(f) == st.columns@[i]@
                &&& column_type_of(f.declared@) == st.column_types@[i]
                &&& key_of(f) == st.json_keys@[i]@
            },
{
    lemma_stored_not_skipped(fields);
    assert forall|i: int| 0 <= i < st.columns@.len() implies {
        let f = #[trigger] stored_fields(fields)[i];
        &&& !f.skip
        &&& column_of(f) == st.columns@[i]@
        &&& column_type_of(f.declared@) == st.column_types@[i]
        &&& key_of(f) == st.json_keys@[i]@
    } by {
        assert(st.columns@[i]@ == column_of(stored_fields(fields)[i]));
    }
}

/// No stored field is marked to be skipped.
proof fn lemma_stored_not_skipped(fields: Seq<FieldDecl>)
    ensures
        forall|i: int| 0 <= i < stored_fields(fields).len() ==> !(#[trigger] stored_fields(fields)[i]).skip,
    decreases fields.len(),
{
    if fields.len() > 0 {
        lemma_stored_not_skipped(fields.drop_last());
    }
}

} // verus!
