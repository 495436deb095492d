//! Binding a record's values to the columns of an insert, and rebuilding a
//! record from the cells of a stored row. Both go by the storable
//! descriptors alone: column `i` carries the value of the field whose JSON
//! key is `json_keys[i]`.

use vstd::prelude::*;
use crate::canonical::{json_key, key_of};
use crate::error::StorageError;
use crate::naming::{
    column_type_of, is_unsigned_type, rust_type_to_sql_type, unsigned_declared, ColumnType,
};
use crate::time::{rfc3339_instant, rfc3339_micros, StorageDatetime, MAX_MICROS, MIN_MICROS};
use crate::record::{
    FieldRole, texts_distinct, fits_role, record_wf, schema_wf, FieldDecl, FieldValue, Record, RecordSchema, RecordView,
    ValueView,
};
use crate::storable::{column_of, describes, stored_fields, Storable};
use crate::text::{push_str, views};

verus! {

/// What is bound to one column: a value, or a null of the column's type.
#[derive(Debug, Clone, PartialEq, Eq)]
pub enum Bind {
    Value(FieldValue),
    Null(ColumnType),
}

/// What a bind holds, as mathematical values.
pub enum BindView {
    Value(ValueView),
    Null(ColumnType),
}

impl View for Bind {
    type V = BindView;

    open spec fn view(&self) -> BindView {
        match self {
            Bind::Value(v) => BindView::Value(v@),
            Bind::Null(t) => BindView::Null(*t),
        }
    }
}

/// The value under `key` in a record's JSON object: that of the last field
/// among the first `n` with that key.
pub open spec fn value_under(fields: Seq<FieldDecl>, values: Seq<ValueView>, key: Seq<char>, n: nat) -> Option<ValueView>
    decreases n,
{
    if n == 0 {
        None
    } else if key_of(fields[n - 1]) == key {
        Some(values[n - 1])
    } else {
        value_under(fields, values, key, (n - 1) as nat)
    }
}

/// What column `i` of an insert binds: the value under its JSON key, or a
/// null of its type where there is none or it is null.
pub open spec fn column_bind(st: Storable, r: RecordView, i: int) -> BindView {
    let t = if i < st.column_types@.len() {
        st.column_types@[i]
    } else {
        ColumnType::Text
    };
    match value_under(r.fields, r.values, st.json_keys@[i]@, r.fields.len()) {
        Some(v) => if v is Null {
            BindView::Null(t)
        } else {
            BindView::Value(instant_of_text(t, v))
        },
        None => BindView::Null(t),
    }
}

/// A value as a column of type `t` takes it: an RFC 3339 text in a column
/// of instants is that instant.
pub open spec fn instant_of_text(t: ColumnType, v: ValueView) -> ValueView {
    match v {
        ValueView::Text(s) => if t == ColumnType::Datetime {
            match rfc3339_instant(s) {
                Some(m) => if MIN_MICROS <= m <= MAX_MICROS {
                    ValueView::Datetime(m, rfc3339_micros(m))
                } else {
                    v
                },
                None => v,
            }
        } else {
            v
        },
        _ => v,
    }
}

/// A value as a column of type `t` takes it.
fn column_value(t: ColumnType, v: FieldValue) -> (r: FieldValue)
    ensures
        r@ == instant_of_text(t, v@),
{
    match v {
        FieldValue::Text(s) => {
            if t == ColumnType::Datetime {
                match StorageDatetime::parse(s.as_str()) {
                    Some(d) => FieldValue::Datetime(d),
                    None => FieldValue::Text(s),
                }
            } else {
                FieldValue::Text(s)
            }
        },
        other => other,
    }
}

/// The value of `r` under `key`.
fn find_value(r: &Record, key: &String) -> (out: Option<FieldValue>)
    requires
        r.values@.len() == r.schema.fields@.len(),
    ensures
        out matches Some(v) ==> value_under(r@.fields, r@.values, key@, r@.fields.len()) == Some(v@),
        out is None ==> value_under(r@.fields, r@.values, key@, r@.fields.len()) is None,
{
    let n = r.schema.fields.len();
    let mut i: usize = n;
    while i > 0
        invariant
            i <= n,
            n == r@.fields.len(),
            r.values@.len() == n,
            value_under(r@.fields, r@.values, key@, n as nat) == value_under(
                r@.fields,
                r@.values,
                key@,
                i as nat,
            ),
        decreases i,
    {
        let k = json_key(&r.schema.fields[i - 1]);
        if k == *key {
            return Some(r.values[i - 1].duplicate());
        }
        i = i - 1;
    }
    None
}

/// Whether column `i` of an insert is a column of instants that would get
/// a text that names no instant in range.
pub open spec fn bad_instant(st: Storable, r: RecordView, i: int) -> bool {
    &&& i < st.column_types@.len()
    &&& st.column_types@[i] == ColumnType::Datetime
    &&& column_bind(st, r, i) is Value
    &&& column_bind(st, r, i)->Value_0 is Text
}

/// Whether some column of an insert would get a text that names no instant.
pub open spec fn has_bad_instant(st: Storable, r: RecordView) -> bool {
    exists|i: int| 0 <= i < st.json_keys@.len() && #[trigger] bad_instant(st, r, i)
}

/// The binds of an insert of `item`, one per column, in column order. Fails
/// with `StorageError` where a column of instants would get a text that
/// names no instant in range.
pub fn bind_insert_values(st: &Storable, item: &Record) -> (r: Result<Vec<Bind>, StorageError>)
    requires
        record_wf(item@),
    ensures
        r is Err <==> has_bad_instant(*st, item@),
        r matches Err(e) ==> e is StorageError,
        r matches Ok(binds) ==> binds@.len() == st.json_keys@.len() && forall|i: int|
            0 <= i < binds@.len() ==> #[trigger] binds@[i]@ == column_bind(*st, item@, i),
{
    let mut out: Vec<Bind> = Vec::new();
    let mut i: usize = 0;
    while i < st.json_keys.len()
        invariant
            record_wf(item@),
            item.values@.len() == item.schema.fields@.len(),
            i <= st.json_keys@.len(),
            out@.len() == i,
            forall|k: int| 0 <= k < i ==> #[trigger] out@[k]@ == column_bind(*st, item@, k),
            forall|k: int| 0 <= k < i ==> !#[trigger] bad_instant(*st, item@, k),
        decreases st.json_keys@.len() - i,
    {
        let t = if i < st.column_types.len() {
            st.column_types[i]
        } else {
            ColumnType::Text
        };
        let b = match find_value(item, &st.json_keys[i]) {
            Some(v) => match v {
                FieldValue::Null => Bind::Null(t),
                other => Bind::Value(column_value(t, other)),
            },
            None => Bind::Null(t),
        };
        if i < st.column_types.len() && t == ColumnType::Datetime {
            if let Bind::Value(FieldValue::Text(s)) = &b {
                assert(bad_instant(*st, item@, i as int));
                let mut m = String::new();
                push_str(&mut m, "Invalid datetime: ");
                push_str(&mut m, s.as_str());
                return Err(StorageError::StorageError(m));
            }
        }
        out.push(b);
        i = i + 1;
    }
    Ok(out)
}

/// The value a stored row holds under `key`: that of the last of the first
/// `n` columns with that key whose cell is not null. Null cells are left out,
/// as absent values are.
pub open spec fn cell_under(keys: Seq<Seq<char>>, cells: Seq<Option<ValueView>>, key: Seq<char>, n: nat) -> Option<ValueView>
    decreases n,
{
    if n == 0 {
        None
    } else if keys[n - 1] == key && cells[n - 1] is Some {
        cells[n - 1]
    } else {
        cell_under(keys, cells, key, (n - 1) as nat)
    }
}

/// The views of a row's cells.
pub open spec fn cell_views(cells: Seq<Option<FieldValue>>) -> Seq<Option<ValueView>> {
    cells.map_values(|c: Option<FieldValue>| match c {
        Some(v) => Some(v@),
        None => None,
    })
}

/// Whether a field holds instants.
pub open spec fn instant_field(f: FieldDecl) -> bool {
    f.role == FieldRole::CreatedAt || column_type_of(f.declared@) == ColumnType::Datetime
}

/// A cell's value as the field takes it: a non-negative integer in a field
/// of unsigned type is read as unsigned, and an RFC 3339 text in a field of
/// instants as that instant.
pub open spec fn conformed(f: FieldDecl, v: ValueView) -> ValueView {
    match v {
        ValueView::Int(n) => if n >= 0 && unsigned_declared(f.declared@) {
            ValueView::UInt(n as nat)
        } else {
            v
        },
        ValueView::Text(t) => if instant_field(f) {
            match rfc3339_instant(t) {
                Some(m) => if MIN_MICROS <= m <= MAX_MICROS {
                    ValueView::Datetime(m, rfc3339_micros(m))
                } else {
                    v
                },
                None => v,
            }
        } else {
            v
        },
        _ => v,
    }
}

/// The value field `i` takes when a record is read back from `cells`: the
/// cell under its key, or the absent value.
pub open spec fn read_value(st: Storable, fields: Seq<FieldDecl>, cells: Seq<Option<ValueView>>, i: int) -> ValueView {
    match cell_under(views(st.json_keys@), cells, key_of(fields[i]), st.json_keys@.len()) {
        Some(v) => conformed(fields[i], v),
        None => ValueView::Null,
    }
}

/// A cell's value as field `f` takes it.
fn conform(f: &FieldDecl, v: FieldValue) -> (r: FieldValue)
    ensures
        r@ == conformed(*f, v@),
{
    match v {
        FieldValue::Int(n) => {
            if n >= 0 && is_unsigned_type(f.declared.as_str()) {
                FieldValue::UInt(n as u64)
            } else {
                FieldValue::Int(n)
            }
        },
        FieldValue::Text(t) => {
            let instants = f.role == FieldRole::CreatedAt || rust_type_to_sql_type(f.declared.as_str())
                == ColumnType::Datetime;
            if instants {
                match StorageDatetime::parse(t.as_str()) {
                    Some(d) => FieldValue::Datetime(d),
                    None => FieldValue::Text(t),
                }
            } else {
                FieldValue::Text(t)
            }
        },
        other => other,
    }
}

/// The cell of `cells` under `key`.
fn find_cell(st: &Storable, cells: &Vec<Option<FieldValue>>, key: &String) -> (out: Option<FieldValue>)
    requires
        cells@.len() == st.json_keys@.len(),
    ensures
        out matches Some(v) ==> cell_under(views(st.json_keys@), cell_views(cells@), key@, st.json_keys@.len()) == Some(v@),
        out is None ==> cell_under(views(st.json_keys@), cell_views(cells@), key@, st.json_keys@.len()) is None,
{
    let n = st.json_keys.len();
    let mut i: usize = n;
    while i > 0
        invariant
            i <= n,
            n == st.json_keys@.len(),
            cells@.len() == n,
            cell_under(views(st.json_keys@), cell_views(cells@), key@, n as nat) == cell_under(
                views(st.json_keys@),
                cell_views(cells@),
                key@,
                i as nat,
            ),
        decreases i,
    {
        if st.json_keys[i - 1] == *key {
            match &cells[i - 1] {
                Some(v) => {
                    return Some(v.duplicate());
                },
                None => {},
            }
        }
        i = i - 1;
    }
    None
}

fn row_error() -> (r: StorageError)
    ensures
        r is SerializationError,
{
    let mut m = String::new();
    push_str(&mut m, "the row does not fit the record's schema");
    StorageError::SerializationError(m)
}

/// Rebuilds a record of `schema` from the cells of a stored row, one per
/// column of `st` in column order (`None` for a null cell). A field takes
/// the cell under its JSON key, and the absent value where that cell is null
/// or missing. Fails with `SerializationError` where the cells do not match
/// the columns or a managed field gets a value not of its kind.
pub fn deserialize_row(schema: RecordSchema, st: &Storable, cells: &Vec<Option<FieldValue>>) -> (r: Result<Record, StorageError>)
    ensures
        r is Ok <==> schema_wf(schema.fields@) && cells@.len() == st.json_keys@.len() && forall|i: int|
            0 <= i < schema.fields@.len() ==> fits_role(
                #[trigger] schema.fields@[i].role,
                read_value(*st, schema.fields@, cell_views(cells@), i),
            ),
        r matches Err(e) ==> e is SerializationError,
        r matches Ok(rec) ==> {
            &&& rec.schema == schema
            &&& record_wf(rec@)
            &&& forall|i: int|
                0 <= i < schema.fields@.len() ==> #[trigger] rec@.values[i] == read_value(
                    *st,
                    schema.fields@,
                    cell_views(cells@),
                    i,
                )
        },
{
    if cells.len() != st.json_keys.len() || !schema.is_well_formed() {
        return Err(row_error());
    }
    let ghost cv = cell_views(cells@);
    let mut values: Vec<FieldValue> = Vec::new();
    let mut i: usize = 0;
    while i < schema.fields.len()
        invariant
            cells@.len() == st.json_keys@.len(),
            cv == cell_views(cells@),
            i <= schema.fields@.len(),
            values@.len() == i,
            forall|k: int| 0 <= k < i ==> #[trigger] values@[k]@ == read_value(*st, schema.fields@, cv, k),
            forall|k: int| 0 <= k < i ==> fits_role(#[trigger] schema.fields@[k].role, read_value(*st, schema.fields@, cv, k)),
        decreases schema.fields@.len() - i,
    {
        let key = json_key(&schema.fields[i]);
        let v = match find_cell(st, cells, &key) {
            Some(v) => conform(&schema.fields[i], v),
            None => FieldValue::Null,
        };
        let ok = match schema.fields[i].role {
            crate::record::FieldRole::Said => matches!(v, FieldValue::Text(_)),
            crate::record::FieldRole::Prefix => matches!(v, FieldValue::Text(_)),
            crate::record::FieldRole::Previous => matches!(v, FieldValue::Text(_) | FieldValue::Null),
            crate::record::FieldRole::Version => matches!(v, FieldValue::UInt(_)),
            crate::record::FieldRole::CreatedAt => matches!(v, FieldValue::Datetime(_)),
            crate::record::FieldRole::Plain => true,
        };
        if !ok {
            assert(!fits_role(schema.fields@[i as int].role, read_value(*st, schema.fields@, cv, i as int)));
            return Err(row_error());
        }
        values.push(v);
        i = i + 1;
    }
    let rec = Record { schema, values };
    assert forall|k: int| 0 <= k < rec@.fields.len() implies fits_role(
        #[trigger] rec@.fields[k].role,
        rec@.values[k],
    ) by {
        assert(rec@.values[k] == values@[k]@);
    }
    Ok(rec)
}

/// Every stored field is one of the fields.
proof fn lemma_stored_member(fields: Seq<FieldDecl>, k: int)
    requires
        0 <= k < stored_fields(fields).len(),
    ensures
        exists|j: int| 0 <= j < fields.len() && #[trigger] fields[j] == stored_fields(fields)[k],
    decreases fields.len(),
{
    let p = stored_fields(fields.drop_last());
    if k < p.len() {
        lemma_stored_member(fields.drop_last(), k);
        let j = choose|j: int| 0 <= j < fields.drop_last().len() && #[trigger] fields.drop_last()[j] == p[k];
        assert(fields[j] == fields.drop_last()[j]);
    } else {
        assert(fields[fields.len() - 1] == stored_fields(fields)[k]);
    }
}

/// The stored fields of a type whose JSON keys are distinct have distinct
/// JSON keys.
proof fn lemma_stored_keys_distinct(fields: Seq<FieldDecl>)
    requires
        texts_distinct(Seq::new(fields.len(), |k: int| key_of(fields[k]))),
    ensures
        forall|a: int, b: int|
            0 <= a < b < stored_fields(fields).len() ==> key_of(#[trigger] stored_fields(fields)[a])
                != key_of(#[trigger] stored_fields(fields)[b]),
    decreases fields.len(),
{
    if fields.len() > 0 {
        let d = fields.drop_last();
        let kd = Seq::new(d.len(), |k: int| key_of(d[k]));
        let kf = Seq::new(fields.len(), |k: int| key_of(fields[k]));
        assert forall|a: int, b: int| 0 <= a < b < kd.len() implies #[trigger] kd[a] != #[trigger] kd[b] by {
            assert(kd[a] == kf[a]);
            assert(kd[b] == kf[b]);
        }
        lemma_stored_keys_distinct(d);
        let sf = stored_fields(fields);
        let p = stored_fields(d);
        if !fields.last().skip {
            assert forall|a: int, b: int| 0 <= a < b < sf.len() implies key_of(#[trigger] sf[a]) != key_of(
                #[trigger] sf[b],
            ) by {
                assert(sf[a] == p[a]);
                if b < p.len() {
                    assert(sf[b] == p[b]);
                } else {
                    lemma_stored_member(d, a);
                    let j = choose|j: int| 0 <= j < d.len() && #[trigger] d[j] == p[a];
                    assert(kf[j] == key_of(p[a]));
                    assert(kf[fields.len() - 1] == key_of(sf[b]));
                }
            }
        }
    }
}

/// Reading a row never yields a present null: a field whose column holds a
/// null cell takes the absent value, exactly as a field missing from a
/// serialized record does. Since a well-formed type has distinct JSON keys,
/// that one null cell decides.
pub proof fn lemma_null_omission(
    st: Storable,
    fields: Seq<FieldDecl>,
    table: Seq<char>,
    cells: Seq<Option<ValueView>>,
    i: int,
    c: int,
)
    requires
        describes(st, fields, table),
        schema_wf(fields),
        cells.len() == st.json_keys@.len(),
        0 <= i < fields.len(),
        0 <= c < cells.len(),
        st.json_keys@[c]@ == key_of(fields[i]),
        cells[c] is None,
    ensures
        read_value(st, fields, cells, i) == ValueView::Null,
{
    lemma_stored_keys_distinct(fields);
    let sf = stored_fields(fields);
    assert forall|k: int|
        0 <= k < cells.len() && #[trigger] views(st.json_keys@)[k] == key_of(fields[i]) implies cells[k]
        is None by {
        assert(views(st.json_keys@)[k] == st.json_keys@[k]@);
        assert(st.columns@[k]@ == crate::storable::column_of(sf[k]));
        assert(st.columns@[c]@ == crate::storable::column_of(sf[c]));
        assert(st.json_keys@[k]@ == key_of(sf[k]));
        assert(st.json_keys@[c]@ == key_of(sf[c]));
        if k < c {
            assert(key_of(sf[k]) != key_of(sf[c]));
        } else if k > c {
            assert(key_of(sf[c]) != key_of(sf[k]));
        }
    }
    lemma_no_cell(views(st.json_keys@), cells, key_of(fields[i]), st.json_keys@.len());
}

proof fn lemma_no_cell(keys: Seq<Seq<char>>, cells: Seq<Option<ValueView>>, key: Seq<char>, n: nat)
    requires
        n <= keys.len(),
        n <= cells.len(),
        forall|k: int| 0 <= k < n && #[trigger] keys[k] == key ==> cells[k] is None,
    ensures
        cell_under(keys, cells, key, n) is None,
    decreases n,
{
    if n > 0 {
        lemma_no_cell(keys, cells, key, (n - 1) as nat);
    }
}

/// The cells a row holds after an insert with `binds`: the bound value, or a
/// null cell.
pub open spec fn cells_of_binds(binds: Seq<BindView>) -> Seq<Option<ValueView>> {
    Seq::new(
        binds.len(),
        |i: int|
            match binds[i] {
                BindView::Value(v) => Some(v),
                BindView::Null(_) => None,
            },
    )
}

proof fn lemma_all_stored(fields: Seq<FieldDecl>)
    requires
        forall|i: int| 0 <= i < fields.len() ==> !(#[trigger] fields[i]).skip,
    ensures
        stored_fields(fields) == fields,
    decreases fields.len(),
{
    if fields.len() > 0 {
        lemma_all_stored(fields.drop_last());
        assert(!fields[fields.len() - 1].skip);
        assert(fields.drop_last().push(fields.last()) =~= fields);
    }
}

proof fn lemma_value_under_unique(fields: Seq<FieldDecl>, values: Seq<ValueView>, i: int, n: nat)
    requires
        n <= fields.len(),
        0 <= i < n,
        texts_distinct(Seq::new(fields.len(), |k: int| key_of(fields[k]))),
    ensures
        value_under(fields, values, key_of(fields[i]), n) == Some(values[i]),
    decreases n,
{
    if n - 1 != i {
        let ks = Seq::new(fields.len(), |k: int| key_of(fields[k]));
        assert(ks[i] != ks[n - 1]);
        lemma_value_under_unique(fields, values, i, (n - 1) as nat);
    }
}

proof fn lemma_cell_under_unique(keys: Seq<Seq<char>>, cells: Seq<Option<ValueView>>, i: int, n: nat)
    requires
        n <= keys.len(),
        n <= cells.len(),
        0 <= i < n,
        texts_distinct(keys),
    ensures
        cell_under(keys, cells, keys[i], n) == cells[i],
    decreases n,
{
    if n - 1 != i {
        assert(keys[i] != keys[n - 1]);
        lemma_cell_under_unique(keys, cells, i, (n - 1) as nat);
    } else if cells[i] is None {
        lemma_no_cell(keys, cells, keys[i], (n - 1) as nat);
    }
}

/// Writing a record and reading its row back gives the record again, where
/// every field is stored and every value is already in the form a read
/// gives it (an unsigned field holds no signed integer, a field of instants
/// no text). Reading recomputes nothing: the identifier comes back as it
/// was written.
pub proof fn lemma_write_read_roundtrip(st: Storable, table: Seq<char>, r: RecordView, binds: Seq<BindView>)
    requires
        describes(st, r.fields, table),
        record_wf(r),
        forall|i: int| 0 <= i < r.fields.len() ==> !(#[trigger] r.fields[i]).skip,
        forall|i: int|
            0 <= i < r.fields.len() ==> conformed(r.fields[i], #[trigger] r.values[i]) == r.values[i]
                && instant_of_text(column_type_of(r.fields[i].declared@), r.values[i]) == r.values[i],
        binds.len() == st.json_keys@.len(),
        forall|i: int| 0 <= i < binds.len() ==> #[trigger] binds[i] == column_bind(st, r, i),
    ensures
        forall|i: int|
            0 <= i < r.fields.len() ==> read_value(st, r.fields, cells_of_binds(binds), i)
                == #[trigger] r.values[i],
{
    let f = r.fields;
    lemma_all_stored(f);
    let keys = views(st.json_keys@);
    let cells = cells_of_binds(binds);
    assert forall|a: int, b: int| 0 <= a < b < keys.len() implies #[trigger] keys[a] != #[trigger] keys[b] by {
        assert(st.columns@[a]@ == column_of(stored_fields(f)[a]));
        assert(st.columns@[b]@ == column_of(stored_fields(f)[b]));
        let ks = Seq::new(f.len(), |k: int| key_of(f[k]));
        assert(ks[a] != ks[b]);
    }
    assert forall|i: int| 0 <= i < r.fields.len() implies read_value(st, r.fields, cells, i)
        == #[trigger] r.values[i] by {
        assert(st.columns@[i]@ == column_of(stored_fields(f)[i]));
        assert(keys[i] == key_of(f[i]));
        lemma_value_under_unique(f, r.values, i, f.len());
        lemma_cell_under_unique(keys, cells, i, keys.len());
        assert(binds[i] == column_bind(st, r, i));
        assert(cells[i] == match binds[i] {
            BindView::Value(v) => Some(v),
            BindView::Null(_) => None,
        });
    }
}

} // verus!
