//! The record model: a declared schema of fields with roles, and records
//! holding one value per declared field.

use vstd::prelude::*;
use crate::time::StorageDatetime;

verus! {

/// The role a field plays in the self-addressing scheme.
#[derive(Debug, Clone, Copy, PartialEq, Eq, Structural)]
pub enum FieldRole {
    /// The content hash of this revision.
    Said,
    /// The lineage identifier: the identifier of the first revision.
    Prefix,
    /// The identifier of the revision before this one.
    Previous,
    /// The revision number, 0 at creation.
    Version,
    /// The instant this revision was made.
    CreatedAt,
    /// Application data.
    Plain,
}

/// One declared field of a record type.
#[derive(Debug, Clone, PartialEq, Eq)]
pub struct FieldDecl {
    /// The field's underscore-separated name.
    pub name: String,
    /// The name of the field's declared type, from which its column type follows.
    pub declared: String,
    pub role: FieldRole,
    /// Whether the field is kept out of storage.
    pub skip: bool,
    /// A column name that replaces the field name in storage.
    pub column: Option<String>,
    /// A JSON key that replaces the camel-case form of the field name.
    pub json_name: Option<String>,
}

/// A declared record type: its fields in declaration order, and the table
/// that makes it storable.
#[derive(Debug, Clone, PartialEq, Eq)]
pub struct RecordSchema {
    pub fields: Vec<FieldDecl>,
    pub table: Option<String>,
}

/// The value of one field.
#[derive(Debug, Clone, PartialEq, Eq)]
pub enum FieldValue {
    Text(String),
    Int(i64),
    UInt(u64),
    Bool(bool),
    Datetime(StorageDatetime),
    /// An absent optional value.
    Null,
}

/// What a field value holds, as mathematical values.
pub enum ValueView {
    Text(Seq<char>),
    Int(int),
    UInt(nat),
    Bool(bool),
    Datetime(int, Seq<char>),
    Null,
}

impl View for FieldValue {
    type V = ValueView;

    open spec fn view(&self) -> ValueView {
        match self {
            FieldValue::Text(s) => ValueView::Text(s@),
            FieldValue::Int(i) => ValueView::Int(*i as int),
            FieldValue::UInt(u) => ValueView::UInt(*u as nat),
            FieldValue::Bool(b) => ValueView::Bool(*b),
            FieldValue::Datetime(d) => ValueView::Datetime(d.spec_micros(), d.spec_text()),
            FieldValue::Null => ValueView::Null,
        }
    }
}

/// A record: a schema and one value per declared field.
#[derive(Debug, Clone)]
pub struct Record {
    pub schema: RecordSchema,
    pub values: Vec<FieldValue>,
}

/// What a record holds: its fields and the views of its values.
pub struct RecordView {
    pub fields: Seq<FieldDecl>,
    pub values: Seq<ValueView>,
}

impl View for Record {
    type V = RecordView;

    open spec fn view(&self) -> RecordView {
        RecordView {
            fields: self.schema.fields@,
            values: self.values@.map_values(|v: FieldValue| v@),
        }
    }
}

/// The index of the last field of `fields` with `role`, or -1.
pub open spec fn role_index(fields: Seq<FieldDecl>, role: FieldRole) -> int
    decreases fields.len(),
{
    if fields.len() == 0 {
        -1
    } else if fields.last().role == role {
        fields.len() - 1
    } else {
        role_index(fields.drop_last(), role)
    }
}

/// The number of fields of `fields` with `role`.
pub open spec fn role_count(fields: Seq<FieldDecl>, role: FieldRole) -> nat
    decreases fields.len(),
{
    if fields.len() == 0 {
        0
    } else {
        role_count(fields.drop_last(), role) + if fields.last().role == role {
            1nat
        } else {
            0nat
        }
    }
}

/// A declared type is well formed when it has exactly one identifier field
/// and at most one field of each other managed role.
pub open spec fn schema_wf(fields: Seq<FieldDecl>) -> bool {
    &&& role_count(fields, FieldRole::Said) == 1
    &&& role_count(fields, FieldRole::Prefix) <= 1
    &&& role_count(fields, FieldRole::Previous) <= 1
    &&& role_count(fields, FieldRole::Version) <= 1
    &&& role_count(fields, FieldRole::CreatedAt) <= 1
    &&& texts_distinct(Seq::new(fields.len(), |k: int| crate::canonical::key_of(fields[k])))
    &&& texts_distinct(Seq::new(fields.len(), |k: int| crate::storable::column_of(fields[k])))
}

/// Whether no two of the texts are equal.
pub open spec fn texts_distinct(ts: Seq<Seq<char>>) -> bool {
    forall|a: int, b: int| 0 <= a < b < ts.len() ==> #[trigger] ts[a] != #[trigger] ts[b]
}

/// Whether no two of the texts are equal.
pub fn all_distinct(ts: &Vec<String>) -> (r: bool)
    ensures
        r == texts_distinct(crate::text::views(ts@)),
{
    let n = ts.len();
    let mut a: usize = 0;
    while a < n
        invariant
            n == ts@.len(),
            a <= n,
            forall|x: int, y: int| 0 <= x < a && x < y < n ==> #[trigger] ts@[x]@ != #[trigger] ts@[y]@,
        decreases n - a,
    {
        let mut b: usize = a + 1;
        while b < n
            invariant
                n == ts@.len(),
                a < n,
                a + 1 <= b <= n,
                forall|x: int, y: int| 0 <= x < a && x < y < n ==> #[trigger] ts@[x]@ != #[trigger] ts@[y]@,
                forall|y: int| a < y < b ==> ts@[a as int]@ != #[trigger] ts@[y]@,
            decreases n - b,
        {
            if ts[a] == ts[b] {
                assert(crate::text::views(ts@)[a as int] == crate::text::views(ts@)[b as int]);
                return false;
            }
            b = b + 1;
        }
        a = a + 1;
    }
    assert forall|x: int, y: int| 0 <= x < y < crate::text::views(ts@).len() implies #[trigger] crate::text::views(ts@)[x]
        != #[trigger] crate::text::views(ts@)[y] by {
        assert(ts@[x]@ != ts@[y]@);
    }
    true
}

/// A type is versioned when it has a prefix, a previous and a version field.
pub open spec fn is_versioned_fields(fields: Seq<FieldDecl>) -> bool {
    &&& role_index(fields, FieldRole::Prefix) >= 0
    &&& role_index(fields, FieldRole::Previous) >= 0
    &&& role_index(fields, FieldRole::Version) >= 0
}

/// Whether a value fits a field of the given role.
pub open spec fn fits_role(role: FieldRole, v: ValueView) -> bool {
    match role {
        FieldRole::Said => v is Text,
        FieldRole::Prefix => v is Text,
        FieldRole::Previous => v is Text || v is Null,
        FieldRole::Version => v is UInt,
        FieldRole::CreatedAt => v is Datetime,
        FieldRole::Plain => true,
    }
}

/// A record is well formed when its schema is, it holds one value per field,
/// and each managed field holds a value of its kind.
pub open spec fn record_wf(r: RecordView) -> bool {
    &&& schema_wf(r.fields)
    &&& r.values.len() == r.fields.len()
    &&& forall|i: int| 0 <= i < r.fields.len() ==> fits_role(#[trigger] r.fields[i].role, r.values[i])
}

/// The text held by the field at `idx`, or the empty text.
pub open spec fn text_at(r: RecordView, idx: int) -> Seq<char> {
    if 0 <= idx < r.values.len() {
        match r.values[idx] {
            ValueView::Text(s) => s,
            _ => Seq::empty(),
        }
    } else {
        Seq::empty()
    }
}

/// The identifier of a record.
pub open spec fn said_of(r: RecordView) -> Seq<char> {
    text_at(r, role_index(r.fields, FieldRole::Said))
}

/// The lineage identifier of a record.
pub open spec fn prefix_of(r: RecordView) -> Seq<char> {
    text_at(r, role_index(r.fields, FieldRole::Prefix))
}

/// The previous identifier of a record, if it holds one.
pub open spec fn previous_of(r: RecordView) -> Option<Seq<char>> {
    let idx = role_index(r.fields, FieldRole::Previous);
    if 0 <= idx < r.values.len() {
        match r.values[idx] {
            ValueView::Text(s) => Some(s),
            _ => None,
        }
    } else {
        None
    }
}

/// The version of a record, 0 where it has none.
pub open spec fn version_of(r: RecordView) -> nat {
    let idx = role_index(r.fields, FieldRole::Version);
    if 0 <= idx < r.values.len() {
        match r.values[idx] {
            ValueView::UInt(n) => n,
            _ => 0,
        }
    } else {
        0
    }
}

/// The record with the value at `idx` replaced.
pub open spec fn with_value(r: RecordView, idx: int, v: ValueView) -> RecordView {
    if 0 <= idx < r.values.len() {
        RecordView { fields: r.fields, values: r.values.update(idx, v) }
    } else {
        r
    }
}

/// The index of the last field with `role`, if any.
pub fn find_role(fields: &Vec<FieldDecl>, role: FieldRole) -> (r: Option<usize>)
    ensures
        r is None <==> role_index(fields@, role) == -1,
        r matches Some(i) ==> i as int == role_index(fields@, role),
        -1 <= role_index(fields@, role) < fields@.len(),
{
    let mut found: Option<usize> = None;
    let mut i: usize = 0;
    while i < fields.len()
        invariant
            i <= fields@.len(),
            found is None <==> role_index(fields@.subrange(0, i as int), role) == -1,
            found matches Some(k) ==> k as int == role_index(fields@.subrange(0, i as int), role),
            -1 <= role_index(fields@.subrange(0, i as int), role) < i,
        decreases fields@.len() - i,
    {
        assert(fields@.subrange(0, i + 1).drop_last() =~= fields@.subrange(0, i as int));
        if fields[i].role == role {
            found = Some(i);
        }
        i = i + 1;
    }
    assert(fields@.subrange(0, fields@.len() as int) =~= fields@);
    found
}

impl FieldValue {
    /// A copy of this value.
    pub fn duplicate(&self) -> (r: FieldValue)
        ensures
            r@ == self@,
    {
        match self {
            FieldValue::Text(s) => FieldValue::Text(s.clone()),
            FieldValue::Int(i) => FieldValue::Int(*i),
            FieldValue::UInt(u) => FieldValue::UInt(*u),
            FieldValue::Bool(b) => FieldValue::Bool(*b),
            FieldValue::Datetime(d) => FieldValue::Datetime(d.duplicate()),
            FieldValue::Null => FieldValue::Null,
        }
    }
}

/// A copy of an optional text.
pub fn duplicate_opt(s: &Option<String>) -> (r: Option<String>)
    ensures
        r == *s,
{
    match s {
        Some(t) => Some(t.clone()),
        None => None,
    }
}

impl FieldDecl {
    /// A copy of this declaration.
    pub fn duplicate(&self) -> (r: FieldDecl)
        ensures
            r == *self,
    {
        FieldDecl {
            name: self.name.clone(),
            declared: self.declared.clone(),
            role: self.role,
            skip: self.skip,
            column: duplicate_opt(&self.column),
            json_name: duplicate_opt(&self.json_name),
        }
    }
}

impl RecordSchema {
    /// A copy of this schema.
    pub fn duplicate(&self) -> (r: RecordSchema)
        ensures
            r.fields@ == self.fields@,
            r.table == self.table,
    {
        let mut fields: Vec<FieldDecl> = Vec::new();
        let mut i: usize = 0;
        while i < self.fields.len()
            invariant
                i <= self.fields@.len(),
                fields@ == self.fields@.subrange(0, i as int),
            decreases self.fields@.len() - i,
        {
            fields.push(self.fields[i].duplicate());
            assert(self.fields@.subrange(0, i + 1) =~= self.fields@.subrange(0, i as int).push(self.fields@[i as int]));
            i = i + 1;
        }
        assert(self.fields@.subrange(0, self.fields@.len() as int) =~= self.fields@);
        RecordSchema { fields, table: duplicate_opt(&self.table) }
    }
}

/// A copy of a list of values.
pub fn duplicate_values(vs: &Vec<FieldValue>) -> (r: Vec<FieldValue>)
    ensures
        r@.len() == vs@.len(),
        r@.map_values(|v: FieldValue| v@) == vs@.map_values(|v: FieldValue| v@),
{
    let mut out: Vec<FieldValue> = Vec::new();
    let mut i: usize = 0;
    while i < vs.len()
        invariant
            i <= vs@.len(),
            out@.len() == i,
            forall|k: int| 0 <= k < i ==> out@[k]@ == vs@[k]@,
        decreases vs@.len() - i,
    {
        out.push(vs[i].duplicate());
        i = i + 1;
    }
    assert(out@.map_values(|v: FieldValue| v@) =~= vs@.map_values(|v: FieldValue| v@));
    out
}

impl Record {
    /// A copy of this record.
    pub fn duplicate(&self) -> (r: Record)
        ensures
            r@ == self@,
            r.schema.table == self.schema.table,
    {
        Record { schema: self.schema.duplicate(), values: duplicate_values(&self.values) }
    }
}

/// The value a field starts with: empty identifiers, no previous identifier,
/// version 0, the creation instant `created`, and the next of the caller's
/// plain values.
pub open spec fn initial_value(
    fields: Seq<FieldDecl>,
    plain: Seq<ValueView>,
    created: ValueView,
    i: int,
) -> ValueView {
    match fields[i].role {
        FieldRole::Said => ValueView::Text(Seq::empty()),
        FieldRole::Prefix => ValueView::Text(Seq::empty()),
        FieldRole::Previous => ValueView::Null,
        FieldRole::Version => ValueView::UInt(0),
        FieldRole::CreatedAt => created,
        FieldRole::Plain => plain[role_count(fields.subrange(0, i), FieldRole::Plain) as int],
    }
}

/// The record a schema starts with: each field at its initial value.
pub open spec fn initial_record(fields: Seq<FieldDecl>, plain: Seq<ValueView>, created: ValueView) -> RecordView {
    RecordView {
        fields: fields,
        values: Seq::new(fields.len(), |i: int| initial_value(fields, plain, created, i)),
    }
}

proof fn lemma_role_count_le(fields: Seq<FieldDecl>, role: FieldRole, i: int)
    requires
        0 <= i <= fields.len(),
    ensures
        role_count(fields.subrange(0, i), role) <= role_count(fields, role),
    decreases fields.len() - i,
{
    if i < fields.len() {
        lemma_role_count_le(fields, role, i + 1);
        assert(fields.subrange(0, i + 1).drop_last() =~= fields.subrange(0, i));
    } else {
        assert(fields.subrange(0, i) =~= fields);
    }
}

impl RecordSchema {
    /// The number of fields with `role`.
    pub fn count_role(&self, role: FieldRole) -> (r: usize)
        ensures
            r == role_count(self.fields@, role),
    {
        let mut n: usize = 0;
        let mut i: usize = 0;
        while i < self.fields.len()
            invariant
                i <= self.fields@.len(),
                n == role_count(self.fields@.subrange(0, i as int), role),
                n <= i,
            decreases self.fields@.len() - i,
        {
            assert(self.fields@.subrange(0, i + 1).drop_last() =~= self.fields@.subrange(0, i as int));
            if self.fields[i].role == role {
                n = n + 1;
            }
            i = i + 1;
        }
        assert(self.fields@.subrange(0, self.fields@.len() as int) =~= self.fields@);
        n
    }

    /// Whether the schema is well formed: one identifier field, and at most
    /// one field of each other managed role.
    pub fn is_well_formed(&self) -> (r: bool)
        ensures
            r == schema_wf(self.fields@),
    {
        let roles = self.count_role(FieldRole::Said) == 1 && self.count_role(FieldRole::Prefix) <= 1
            && self.count_role(FieldRole::Previous) <= 1 && self.count_role(FieldRole::Version) <= 1
            && self.count_role(FieldRole::CreatedAt) <= 1;
        if !roles {
            return false;
        }
        let mut keys: Vec<String> = Vec::new();
        let mut columns: Vec<String> = Vec::new();
        let mut i: usize = 0;
        while i < self.fields.len()
            invariant
                i <= self.fields@.len(),
                keys@.len() == i,
                columns@.len() == i,
                forall|k: int| 0 <= k < i ==> #[trigger] keys@[k]@ == crate::canonical::key_of(self.fields@[k]),
                forall|k: int| 0 <= k < i ==> #[trigger] columns@[k]@ == crate::storable::column_of(self.fields@[k]),
            decreases self.fields@.len() - i,
        {
            let f = &self.fields[i];
            keys.push(crate::canonical::json_key(f));
            columns.push(match &f.column {
                Some(c) => c.clone(),
                None => f.name.clone(),
            });
            i = i + 1;
        }
        let ghost fs = self.fields@;
        assert(crate::text::views(keys@) =~= Seq::new(fs.len(), |k: int| crate::canonical::key_of(fs[k])));
        assert(crate::text::views(columns@) =~= Seq::new(fs.len(), |k: int| crate::storable::column_of(fs[k])));
        all_distinct(&keys) && all_distinct(&columns)
    }

    /// Whether records of this schema are versioned.
    pub fn is_versioned(&self) -> (r: bool)
        ensures
            r == is_versioned_fields(self.fields@),
    {
        find_role(&self.fields, FieldRole::Prefix).is_some() && find_role(
            &self.fields,
            FieldRole::Previous,
        ).is_some() && find_role(&self.fields, FieldRole::Version).is_some()
    }
}

impl Record {
    /// A record of `schema` with the managed fields at their defaults, the
    /// creation instant `created_at`, and the plain fields taking `plain` in
    /// order. `None` where the schema is not well formed or `plain` does not
    /// hold one value per plain field.
    pub fn new_at(schema: RecordSchema, plain: Vec<FieldValue>, created_at: StorageDatetime) -> (r: Option<Record>)
        ensures
            r is Some <==> schema_wf(schema.fields@) && plain@.len() == role_count(
                schema.fields@,
                FieldRole::Plain,
            ),
            r matches Some(rec) ==> {
                &&& rec.schema == schema
                &&& record_wf(rec@)
                &&& rec@ == initial_record(
                    schema.fields@,
                    plain@.map_values(|v: FieldValue| v@),
                    FieldValue::Datetime(created_at)@,
                )
                &&& rec@.values.len() == schema.fields@.len()
                &&& forall|i: int|
                    0 <= i < schema.fields@.len() ==> #[trigger] rec@.values[i] == initial_value(
                        schema.fields@,
                        plain@.map_values(|v: FieldValue| v@),
                        FieldValue::Datetime(created_at)@,
                        i,
                    )
            },
    {
        if !schema.is_well_formed() || plain.len() != schema.count_role(FieldRole::Plain) {
            return None;
        }
        let ghost pv = plain@.map_values(|v: FieldValue| v@);
        let ghost cv = FieldValue::Datetime(created_at)@;
        let mut values: Vec<FieldValue> = Vec::new();
        let mut k: usize = 0;
        let mut i: usize = 0;
        while i < schema.fields.len()
            invariant
                i <= schema.fields@.len(),
                plain@.len() == role_count(schema.fields@, FieldRole::Plain),
                pv == plain@.map_values(|v: FieldValue| v@),
                cv == FieldValue::Datetime(created_at)@,
                k == role_count(schema.fields@.subrange(0, i as int), FieldRole::Plain),
                values@.len() == i,
                forall|j: int| 0 <= j < i ==> #[trigger] values@[j]@ == initial_value(schema.fields@, pv, cv, j),
            decreases schema.fields@.len() - i,
        {
            proof {
                lemma_role_count_le(schema.fields@, FieldRole::Plain, i + 1);
                assert(schema.fields@.subrange(0, i + 1).drop_last() =~= schema.fields@.subrange(0, i as int));
                assert(schema.fields@.subrange(0, i + 1).last() == schema.fields@[i as int]);
                assert(role_count(schema.fields@.subrange(0, i + 1), FieldRole::Plain) == k + if schema.fields@[i as int].role == FieldRole::Plain {
                    1nat
                } else {
                    0nat
                });
            }
            let v = match schema.fields[i].role {
                FieldRole::Said => FieldValue::Text(String::new()),
                FieldRole::Prefix => FieldValue::Text(String::new()),
                FieldRole::Previous => FieldValue::Null,
                FieldRole::Version => FieldValue::UInt(0),
                FieldRole::CreatedAt => FieldValue::Datetime(created_at.duplicate()),
                FieldRole::Plain => {
                    assert(k < plain.len());
                    let p = plain[k].duplicate();
                    k = k + 1;
                    p
                },
            };
            values.push(v);
            i = i + 1;
        }
        let rec = Record { schema, values };
        assert forall|j: int| 0 <= j < rec@.fields.len() implies fits_role(
            #[trigger] rec@.fields[j].role,
            rec@.values[j],
        ) by {
            assert(rec@.values[j] == values@[j]@);
        }
        assert(rec@.values =~= initial_record(schema.fields@, pv, cv).values);
        Some(rec)
    }

    /// Whether the record is well formed: its schema is, it holds one value
    /// per field, and each managed field holds a value of its kind.
    pub fn is_well_formed(&self) -> (r: bool)
        ensures
            r == record_wf(self@),
    {
        if !self.schema.is_well_formed() || self.values.len() != self.schema.fields.len() {
            return false;
        }
        let mut i: usize = 0;
        while i < self.values.len()
            invariant
                self.values@.len() == self.schema.fields@.len(),
                i <= self.values@.len(),
                forall|k: int| 0 <= k < i ==> fits_role(#[trigger] self@.fields[k].role, self@.values[k]),
            decreases self.values@.len() - i,
        {
            let ok = match self.schema.fields[i].role {
                FieldRole::Said => matches!(self.values[i], FieldValue::Text(_)),
                FieldRole::Prefix => matches!(self.values[i], FieldValue::Text(_)),
                FieldRole::Previous => matches!(self.values[i], FieldValue::Text(_) | FieldValue::Null),
                FieldRole::Version => matches!(self.values[i], FieldValue::UInt(_)),
                FieldRole::CreatedAt => matches!(self.values[i], FieldValue::Datetime(_)),
                FieldRole::Plain => true,
            };
            if !ok {
                assert(!fits_role(self@.fields[i as int].role, self@.values[i as int]));
                return false;
            }
            i = i + 1;
        }
        true
    }

    /// A record of `schema` made now; see `new_at`.
    pub fn new(schema: RecordSchema, plain: Vec<FieldValue>) -> (r: Option<Record>)
        ensures
            r is Some <==> schema_wf(schema.fields@) && plain@.len() == role_count(
                schema.fields@,
                FieldRole::Plain,
            ),
            r matches Some(rec) ==> {
                &&& rec.schema == schema
                &&& record_wf(rec@)
                &&& forall|i: int|
                    0 <= i < schema.fields@.len() && schema.fields@[i].role != FieldRole::CreatedAt
                        ==> #[trigger] rec@.values[i] == initial_value(
                        schema.fields@,
                        plain@.map_values(|v: FieldValue| v@),
                        ValueView::Null,
                        i,
                    )
            },
    {
        Record::new_at(schema, plain, StorageDatetime::now())
    }
}

} // verus!
