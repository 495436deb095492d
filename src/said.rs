//! The self-addressing engine: identifiers computed over a record's own
//! canonical serialization, lineage prefixes, and the chaining of versions.
//!
//! An identifier is the canonical encoding of the Blake3 digest of the
//! record's serialization in which the identifier field (and, for a first
//! version, the prefix field) holds a placeholder of the encoding's length.
//! The operations take the digest they need with its canonical text as a
//! [`SaidEncoding`] (`SaidEncoding::of_blake3` makes one), and check that it
//! holds exactly that digest and that digest's canonical text.

use vstd::prelude::*;
use crate::canonical::{canonical_bytes, canonical_json, plain_text};
use crate::error::StorageError;
use crate::record::{
    initial_record, role_count, schema_wf, RecordSchema, duplicate_values, find_role, record_wf, role_index, said_of, prefix_of, previous_of,
    text_at, version_of, with_value, FieldRole, FieldValue, Record, RecordView, ValueView,
};
use crate::text::push_str;
use crate::time::StorageDatetime;

verus! {

/// The length of an encoded identifier.
pub const SAID_LEN: usize = 44;

/// The Blake3 digest of a byte string.
pub uninterp spec fn blake3_of(b: Seq<u8>) -> Seq<u8>;

/// Relies on `blake3::hash`: the 32-byte Blake3 digest of the input.
#[verifier::external_body]
fn blake3_digest(b: &Vec<u8>) -> (r: Vec<u8>)
    ensures
        r@ == blake3_of(b@),
        r@.len() == 32,
{
    blake3::hash(b.as_slice()).as_bytes().to_vec()
}

/// The placeholder: the encoded length of `#` characters.
pub open spec fn placeholder() -> Seq<char> {
    Seq::new(44, |i: int| '#')
}

/// An identifier as the encoding produces it: 44 characters that JSON
/// writes as they are.
pub open spec fn well_encoded(q: Seq<char>) -> bool {
    q.len() == 44 && plain_text(q)
}

/// Whether `enc` holds a digest and that digest's canonical text.
pub open spec fn encodes(enc: SaidEncoding) -> bool {
    enc.qb64@ == crate::cesr::qb64_blake3(enc.digest@)
}

/// A digest and its canonical encoding.
#[derive(Debug, Clone, PartialEq, Eq)]
pub struct SaidEncoding {
    pub digest: Vec<u8>,
    pub qb64: String,
}

/// The record with its identifier replaced by `q`.
pub open spec fn with_said(r: RecordView, q: Seq<char>) -> RecordView {
    with_value(r, role_index(r.fields, FieldRole::Said), ValueView::Text(q))
}

/// The record with its prefix replaced by `q`.
pub open spec fn with_prefix(r: RecordView, q: Seq<char>) -> RecordView {
    with_value(r, role_index(r.fields, FieldRole::Prefix), ValueView::Text(q))
}

/// The digest an identifier is computed from.
pub open spec fn said_digest_of(r: RecordView) -> Seq<u8> {
    blake3_of(canonical_json(with_said(r, placeholder())))
}

/// The digest a first version's identifier and prefix are computed from.
pub open spec fn prefix_digest_of(r: RecordView) -> Seq<u8> {
    blake3_of(canonical_json(with_prefix(with_said(r, placeholder()), placeholder())))
}

/// The creation instant of a record, if its type has one.
pub open spec fn created_of(r: RecordView) -> Option<ValueView> {
    let idx = role_index(r.fields, FieldRole::CreatedAt);
    if 0 <= idx < r.values.len() {
        Some(r.values[idx])
    } else {
        None
    }
}

/// The record before rehashing for its next version: the previous identifier
/// is the current one, the version is one more, and the creation instant is
/// `created` where given.
pub open spec fn advanced(r: RecordView, created: Option<ValueView>) -> RecordView {
    let r1 = with_value(
        r,
        role_index(r.fields, FieldRole::Previous),
        ValueView::Text(said_of(r)),
    );
    let r2 = with_value(
        r1,
        role_index(r.fields, FieldRole::Version),
        ValueView::UInt(version_of(r) + 1),
    );
    match created {
        Some(v) => with_value(r2, role_index(r.fields, FieldRole::CreatedAt), v),
        None => r2,
    }
}

/// The view of an optional creation instant as a field value.
pub open spec fn created_view(c: Option<StorageDatetime>) -> Option<ValueView> {
    match c {
        Some(d) => Some(FieldValue::Datetime(d)@),
        None => None,
    }
}

/// The digest that the identifiers of a new record are the encoding of:
/// the prefix digest for a versioned type, the identifier digest otherwise.
pub open spec fn creation_digest_of(r: RecordView) -> Seq<u8> {
    if versioned(r) {
        prefix_digest_of(r)
    } else {
        said_digest_of(r)
    }
}

/// A new record with its identifiers derived from the encoding `q`: the
/// identifier and the prefix for a versioned type, the identifier otherwise.
pub open spec fn created_with(r: RecordView, q: Seq<char>) -> RecordView {
    if versioned(r) {
        with_prefix(with_said(r, q), q)
    } else {
        with_said(r, q)
    }
}

/// Whether a record type is versioned.
pub open spec fn versioned(r: RecordView) -> bool {
    crate::record::is_versioned_fields(r.fields)
}

/// A field found by its role has that role.
pub proof fn lemma_role_index(fields: Seq<crate::record::FieldDecl>, role: FieldRole)
    ensures
        -1 <= role_index(fields, role) < fields.len(),
        role_index(fields, role) >= 0 ==> fields[role_index(fields, role)].role == role,
        crate::record::role_count(fields, role) > 0 ==> role_index(fields, role) >= 0,
    decreases fields.len(),
{
    if fields.len() > 0 && fields.last().role != role {
        lemma_role_index(fields.drop_last(), role);
    }
}

/// A record stays well formed when a field gets a value of its kind.
proof fn lemma_with_value_wf(r: RecordView, idx: int, v: ValueView)
    requires
        record_wf(r),
        0 <= idx < r.fields.len() ==> crate::record::fits_role(r.fields[idx].role, v),
    ensures
        record_wf(with_value(r, idx, v)),
        with_value(r, idx, v).fields == r.fields,
{
    let w = with_value(r, idx, v);
    assert forall|i: int| 0 <= i < w.fields.len() implies crate::record::fits_role(
        #[trigger] w.fields[i].role,
        w.values[i],
    ) by {
        if 0 <= idx < r.values.len() && i == idx {
        } else {
            assert(w.values[i] == r.values[i]);
        }
    }
}

/// A text of 44 `#` characters.
fn placeholder_string() -> (r: String)
    ensures
        r@ == placeholder(),
{
    let mut s = String::new();
    let mut i: usize = 0;
    while i < SAID_LEN
        invariant
            i <= 44,
            s@ == Seq::new(i as nat, |k: int| '#'),
        decreases 44 - i,
    {
        s.push('#');
        assert(s@ =~= Seq::new((i + 1) as nat, |k: int| '#'));
        i = i + 1;
    }
    s
}

/// Whether two byte strings are equal.
pub fn bytes_eq(a: &Vec<u8>, b: &Vec<u8>) -> (r: bool)
    ensures
        r == (a@ == b@),
{
    if a.len() != b.len() {
        return false;
    }
    let mut i: usize = 0;
    while i < a.len()
        invariant
            a@.len() == b@.len(),
            i <= a@.len(),
            forall|k: int| 0 <= k < i ==> a@[k] == b@[k],
        decreases a@.len() - i,
    {
        if a[i] != b[i] {
            return false;
        }
        i = i + 1;
    }
    assert(a@ =~= b@);
    true
}

/// Whether an encoding belongs to `digest` and is that digest's canonical
/// text.
fn encoding_fits(enc: &SaidEncoding, digest: &Vec<u8>) -> (r: bool)
    requires
        digest@.len() == 32,
    ensures
        r == (encodes(*enc) && enc.digest@ == digest@),
{
    if !bytes_eq(&enc.digest, digest) {
        return false;
    }
    let text = crate::cesr::encode_blake3(&enc.digest);
    text == enc.qb64
}

fn encoding_error() -> (r: StorageError)
    ensures
        r is CesrError,
{
    let mut m = String::new();
    push_str(&mut m, "the encoding does not belong to the record's digest");
    StorageError::CesrError(m)
}

impl Record {
    /// The position of the field with `role`, which the record has.
    fn position(&self, role: FieldRole) -> (r: usize)
        requires
            record_wf(self@),
            role_index(self@.fields, role) >= 0 || role == FieldRole::Said,
        ensures
            r as int == role_index(self@.fields, role),
            r < self.values@.len(),
            self.values@.len() == self@.values.len(),
            self@.fields[r as int].role == role,
    {
        proof {
            lemma_role_index(self@.fields, role);
        }
        let found = find_role(&self.schema.fields, role);
        match found {
            Some(i) => i,
            None => 0,
        }
    }

    /// The values with the field at `idx` replaced by `v`.
    fn values_with(&self, idx: usize, v: FieldValue) -> (r: Vec<FieldValue>)
        requires
            idx < self.values@.len(),
        ensures
            r@.len() == self.values@.len(),
            r@.map_values(|x: FieldValue| x@) == self@.values.update(idx as int, v@),
    {
        let mut vals = duplicate_values(&self.values);
        vals.set(idx, v);
        assert(vals@.map_values(|x: FieldValue| x@) =~= self@.values.update(idx as int, v@));
        vals
    }

    /// The digest that the identifier of this record is the encoding of.
    pub fn said_digest(&self) -> (r: Vec<u8>)
        requires
            record_wf(self@),
        ensures
            r@ == said_digest_of(self@),
            r@.len() == 32,
    {
        let idx = self.position(FieldRole::Said);
        let vals = self.values_with(idx, FieldValue::Text(placeholder_string()));
        let bytes = canonical_bytes(&self.schema.fields, &vals);
        blake3_digest(&bytes)
    }

    /// The digest that the identifier and prefix of a first version are the
    /// encoding of.
    pub fn prefix_digest(&self) -> (r: Vec<u8>)
        requires
            record_wf(self@),
            versioned(self@),
        ensures
            r@ == prefix_digest_of(self@),
            r@.len() == 32,
    {
        let si = self.position(FieldRole::Said);
        let pi = self.position(FieldRole::Prefix);
        let mut vals = self.values_with(si, FieldValue::Text(placeholder_string()));
        vals.set(pi, FieldValue::Text(placeholder_string()));
        assert(vals@.map_values(|x: FieldValue| x@) =~= with_prefix(
            with_said(self@, placeholder()),
            placeholder(),
        ).values);
        let bytes = canonical_bytes(&self.schema.fields, &vals);
        blake3_digest(&bytes)
    }

    /// Sets the identifier to the encoding `enc` of this record's digest.
    /// Fails, leaving the record as it was, where `enc` is not the encoding
    /// of that digest or has not the shape of an identifier.
    pub fn derive_said(&mut self, enc: &SaidEncoding) -> (r: Result<(), StorageError>)
        requires
            record_wf(old(self)@),
        ensures
            r is Ok <==> encodes(*enc) && enc.digest@ == said_digest_of(old(self)@),
            r is Ok ==> final(self)@ == with_said(old(self)@, enc.qb64@),
            r matches Err(e) ==> e is CesrError && final(self)@ == old(self)@,
            record_wf(final(self)@),
            final(self).schema.table == old(self).schema.table,
    {
        let digest = self.said_digest();
        if !encoding_fits(enc, &digest) {
            return Err(encoding_error());
        }
        let idx = self.position(FieldRole::Said);
        proof {
            lemma_with_value_wf(self@, idx as int, ValueView::Text(enc.qb64@));
        }
        self.values.set(idx, FieldValue::Text(enc.qb64.clone()));
        assert(self@.values =~= with_said(old(self)@, enc.qb64@).values);
        Ok(())
    }

    /// Checks that the identifier is the encoding `enc` of this record's
    /// digest: fails with `InvalidSaid`, carrying the stored and the computed
    /// identifier, where it is not, and with `CesrError` where `enc` is not
    /// the encoding of the digest.
    pub fn verify_said(&self, enc: &SaidEncoding) -> (r: Result<(), StorageError>)
        requires
            record_wf(self@),
        ensures
            r is Ok <==> encodes(*enc) && enc.digest@ == said_digest_of(self@)
                && said_of(self@) == enc.qb64@,
            (encodes(*enc) && enc.digest@ == said_digest_of(self@)) <==> !(r matches Err(
                StorageError::CesrError(_),
            )),
            r matches Err(StorageError::InvalidSaid { expected, actual }) ==> expected@ == said_of(
                self@,
            ) && actual@ == enc.qb64@ && expected@ != actual@,
            r matches Err(e) ==> e is CesrError || e is InvalidSaid,
    {
        let digest = self.said_digest();
        if !encoding_fits(enc, &digest) {
            return Err(encoding_error());
        }
        let said = self.get_said();
        if said != enc.qb64 {
            return Err(StorageError::InvalidSaid { expected: said, actual: enc.qb64.clone() });
        }
        Ok(())
    }

    /// The identifier.
    pub fn get_said(&self) -> (r: String)
        requires
            record_wf(self@),
        ensures
            r@ == said_of(self@),
    {
        let idx = self.position(FieldRole::Said);
        self.text_of(idx)
    }

    /// The text held at `idx`, or the empty text.
    fn text_of(&self, idx: usize) -> (r: String)
        requires
            idx < self.values@.len(),
        ensures
            r@ == text_at(self@, idx as int),
    {
        match &self.values[idx] {
            FieldValue::Text(s) => s.clone(),
            _ => String::new(),
        }
    }

    /// The lineage prefix.
    pub fn get_prefix(&self) -> (r: String)
        requires
            record_wf(self@),
            versioned(self@),
        ensures
            r@ == prefix_of(self@),
    {
        let idx = self.position(FieldRole::Prefix);
        self.text_of(idx)
    }

    /// Sets the identifier and the prefix of a first version to the encoding
    /// `enc` of its prefix digest. Fails, leaving the record as it was, where
    /// `enc` is not the encoding of that digest or has not the shape of an
    /// identifier.
    pub fn derive_prefix(&mut self, enc: &SaidEncoding) -> (r: Result<(), StorageError>)
        requires
            record_wf(old(self)@),
            versioned(old(self)@),
        ensures
            r is Ok <==> encodes(*enc) && enc.digest@ == prefix_digest_of(old(self)@),
            r is Ok ==> final(self)@ == with_prefix(with_said(old(self)@, enc.qb64@), enc.qb64@),
            r matches Err(e) ==> e is CesrError && final(self)@ == old(self)@,
            record_wf(final(self)@),
            final(self).schema.table == old(self).schema.table,
    {
        let digest = self.prefix_digest();
        if !encoding_fits(enc, &digest) {
            return Err(encoding_error());
        }
        let si = self.position(FieldRole::Said);
        let pi = self.position(FieldRole::Prefix);
        proof {
            lemma_with_value_wf(self@, si as int, ValueView::Text(enc.qb64@));
            lemma_with_value_wf(with_said(self@, enc.qb64@), pi as int, ValueView::Text(enc.qb64@));
        }
        self.values.set(si, FieldValue::Text(enc.qb64.clone()));
        self.values.set(pi, FieldValue::Text(enc.qb64.clone()));
        assert(self@.values =~= with_prefix(with_said(old(self)@, enc.qb64@), enc.qb64@).values);
        Ok(())
    }

    /// Checks that the identifier and the prefix of a first version are both
    /// the encoding `enc` of its prefix digest: fails with `InvalidSaid`
    /// where one is not, and with `CesrError` where `enc` is not the encoding
    /// of the digest.
    pub fn verify_prefix(&self, enc: &SaidEncoding) -> (r: Result<(), StorageError>)
        requires
            record_wf(self@),
            versioned(self@),
        ensures
            r is Ok <==> encodes(*enc) && enc.digest@ == prefix_digest_of(self@)
                && said_of(self@) == enc.qb64@ && prefix_of(self@) == enc.qb64@,
            (encodes(*enc) && enc.digest@ == prefix_digest_of(self@)) <==> !(r matches Err(
                StorageError::CesrError(_),
            )),
            r matches Err(StorageError::InvalidSaid { expected, actual }) ==> actual@ == enc.qb64@ && (
            expected@ == said_of(self@) || expected@ == prefix_of(self@)) && expected@ != actual@,
            r matches Err(e) ==> e is CesrError || e is InvalidSaid,
    {
        let digest = self.prefix_digest();
        if !encoding_fits(enc, &digest) {
            return Err(encoding_error());
        }
        let said = self.get_said();
        if said != enc.qb64 {
            return Err(StorageError::InvalidSaid { expected: said, actual: enc.qb64.clone() });
        }
        let prefix = self.get_prefix();
        if prefix != enc.qb64 {
            return Err(StorageError::InvalidSaid { expected: prefix, actual: enc.qb64.clone() });
        }
        Ok(())
    }

    /// The previous identifier, absent for a first version.
    pub fn get_previous(&self) -> (r: Option<String>)
        requires
            record_wf(self@),
            versioned(self@),
        ensures
            r matches Some(p) ==> previous_of(self@) == Some(p@),
            r is None ==> previous_of(self@) is None,
    {
        let idx = self.position(FieldRole::Previous);
        match &self.values[idx] {
            FieldValue::Text(s) => Some(s.clone()),
            _ => None,
        }
    }

    /// The version.
    pub fn get_version(&self) -> (r: u64)
        requires
            record_wf(self@),
            versioned(self@),
        ensures
            r as nat == version_of(self@),
    {
        let idx = self.position(FieldRole::Version);
        match &self.values[idx] {
            FieldValue::UInt(n) => *n,
            _ => 0,
        }
    }

    /// The creation instant, where the type has one.
    pub fn get_created_at(&self) -> (r: Option<StorageDatetime>)
        requires
            record_wf(self@),
        ensures
            r matches Some(d) ==> created_of(self@) == Some(FieldValue::Datetime(d)@),
            r is None ==> created_of(self@) is None,
    {
        proof {
            lemma_role_index(self@.fields, FieldRole::CreatedAt);
        }
        match find_role(&self.schema.fields, FieldRole::CreatedAt) {
            Some(idx) => match &self.values[idx] {
                FieldValue::Datetime(d) => Some(d.duplicate()),
                _ => None,
            },
            None => None,
        }
    }

    /// Sets the creation instant, where the type has one.
    pub fn set_created_at(&mut self, created_at: StorageDatetime)
        requires
            record_wf(old(self)@),
        ensures
            final(self)@ == with_value(
                old(self)@,
                role_index(old(self)@.fields, FieldRole::CreatedAt),
                FieldValue::Datetime(created_at)@,
            ),
            record_wf(final(self)@),
            final(self).schema.table == old(self).schema.table,
    {
        proof {
            lemma_role_index(self@.fields, FieldRole::CreatedAt);
            lemma_with_value_wf(
                self@,
                role_index(self@.fields, FieldRole::CreatedAt),
                FieldValue::Datetime(created_at)@,
            );
        }
        match find_role(&self.schema.fields, FieldRole::CreatedAt) {
            Some(idx) => {
                self.values.set(idx, FieldValue::Datetime(created_at));
                assert(self@.values =~= with_value(
                    old(self)@,
                    idx as int,
                    FieldValue::Datetime(created_at)@,
                ).values);
            },
            None => {},
        }
    }

    /// Moves the record on to its next version before rehashing: the
    /// previous identifier becomes the current one, the version grows by one,
    /// and the creation instant becomes `created_at` where one is given.
    pub fn advance(&mut self, created_at: Option<StorageDatetime>)
        requires
            record_wf(old(self)@),
            versioned(old(self)@),
            version_of(old(self)@) < u64::MAX,
        ensures
            final(self)@ == advanced(old(self)@, created_view(created_at)),
            record_wf(final(self)@),
            final(self).schema.table == old(self).schema.table,
    {
        let ghost r0 = self@;
        let said = self.get_said();
        let version = self.get_version();
        let pi = self.position(FieldRole::Previous);
        let vi = self.position(FieldRole::Version);
        proof {
            lemma_with_value_wf(r0, pi as int, ValueView::Text(said@));
            lemma_with_value_wf(
                with_value(r0, pi as int, ValueView::Text(said@)),
                vi as int,
                ValueView::UInt((version + 1) as nat),
            );
        }
        self.values.set(pi, FieldValue::Text(said));
        self.values.set(vi, FieldValue::UInt(version + 1));
        let ghost r2 = self@;
        assert(r2.values =~= with_value(
            with_value(r0, pi as int, ValueView::Text(said_of(r0))),
            vi as int,
            ValueView::UInt(version_of(r0) + 1),
        ).values);
        match created_at {
            Some(d) => {
                self.set_created_at(d);
            },
            None => {},
        }
    }

    /// The digest that the identifier of the next version is the encoding
    /// of, where that version is made at `created_at`.
    pub fn increment_digest(&self, created_at: Option<StorageDatetime>) -> (r: Vec<u8>)
        requires
            record_wf(self@),
            versioned(self@),
            version_of(self@) < u64::MAX,
        ensures
            r@ == said_digest_of(advanced(self@, created_view(created_at))),
    {
        let mut next = self.duplicate();
        next.advance(created_at);
        next.said_digest()
    }

    /// Turns the record into its next version, made at `created_at`, whose
    /// identifier is the encoding `enc` of its digest. Fails, leaving the
    /// record as it was, where `enc` is not the encoding of that digest.
    pub fn increment(&mut self, created_at: StorageDatetime, enc: &SaidEncoding) -> (r: Result<(), StorageError>)
        requires
            record_wf(old(self)@),
            versioned(old(self)@),
            version_of(old(self)@) < u64::MAX,
        ensures
            r is Ok <==> encodes(*enc) && enc.digest@ == said_digest_of(
                advanced(old(self)@, Some(FieldValue::Datetime(created_at)@)),
            ),
            r is Ok ==> final(self)@ == with_said(
                advanced(old(self)@, Some(FieldValue::Datetime(created_at)@)),
                enc.qb64@,
            ),
            r matches Err(e) ==> e is CesrError && final(self)@ == old(self)@,
            record_wf(final(self)@),
            final(self).schema.table == old(self).schema.table,
    {
        let mut next = self.duplicate();
        next.advance(Some(created_at));
        match next.derive_said(enc) {
            Ok(()) => {
                *self = next;
                Ok(())
            },
            Err(e) => Err(e),
        }
    }

    /// Whether `proposed` carries no change beyond what a new version brings:
    /// true exactly when the identifier of this record's next version, made
    /// at the instant of `proposed`, is the identifier of `proposed`. `enc`
    /// is the encoding of that next version's digest; where it is not, the
    /// check fails with `CesrError`. Where `proposed` has no creation instant
    /// and this record has one, the next version is made now.
    pub fn verify_unchanged(&self, proposed: &Record, enc: &SaidEncoding) -> (r: Result<bool, StorageError>)
        requires
            record_wf(self@),
            record_wf(proposed@),
            versioned(self@),
            version_of(self@) < u64::MAX,
        ensures
            created_of(proposed@) is Some || created_of(self@) is None ==> {
                let next = advanced(self@, created_of(proposed@));
                &&& r is Ok <==> encodes(*enc) && enc.digest@ == said_digest_of(next)
                &&& r matches Ok(b) ==> b == (enc.qb64@ == said_of(proposed@))
            },
            r matches Ok(b) ==> b == (enc.qb64@ == said_of(proposed@)),
            r matches Err(e) ==> e is CesrError,
    {
        let mut next = self.duplicate();
        let created = match proposed.get_created_at() {
            Some(d) => Some(d),
            None => {
                if find_role(&self.schema.fields, FieldRole::CreatedAt).is_some() {
                    Some(StorageDatetime::now())
                } else {
                    None
                }
            },
        };
        next.advance(created);
        proof {
            lemma_role_index(next@.fields, FieldRole::Said);
            lemma_role_index(self@.fields, FieldRole::CreatedAt);
        }
        match next.derive_said(enc) {
            Ok(()) => {
                assert(said_of(next@) == enc.qb64@);
                let said = next.get_said();
                let other = proposed.get_said();
                Ok(said == other)
            },
            Err(e) => Err(e),
        }
    }

    /// Verifies a versioned record: a first version by its prefix digest, a
    /// later one by its identifier digest; `enc` is the encoding of the
    /// digest that applies.
    pub fn verify(&self, enc: &SaidEncoding) -> (r: Result<(), StorageError>)
        requires
            record_wf(self@),
            versioned(self@),
        ensures
            version_of(self@) == 0 ==> (r is Ok <==> encodes(*enc) && enc.digest@
                == prefix_digest_of(self@) && said_of(self@) == enc.qb64@ && prefix_of(self@)
                == enc.qb64@),
            version_of(self@) > 0 ==> (r is Ok <==> encodes(*enc) && enc.digest@
                == said_digest_of(self@) && said_of(self@) == enc.qb64@),
            version_of(self@) == 0 ==> ((encodes(*enc) && enc.digest@ == prefix_digest_of(
                self@,
            )) <==> !(r matches Err(StorageError::CesrError(_)))),
            version_of(self@) > 0 ==> ((encodes(*enc) && enc.digest@ == said_digest_of(
                self@,
            )) <==> !(r matches Err(StorageError::CesrError(_)))),
            r matches Err(StorageError::InvalidSaid { expected, actual }) ==> {
                &&& actual@ == enc.qb64@
                &&& expected@ != actual@
                &&& version_of(self@) > 0 ==> expected@ == said_of(self@)
                &&& version_of(self@) == 0 ==> expected@ == said_of(self@) || expected@
                    == prefix_of(self@)
            },
            r matches Err(e) ==> e is CesrError || e is InvalidSaid,
    {
        if self.get_version() == 0 {
            self.verify_prefix(enc)
        } else {
            self.verify_said(enc)
        }
    }

    /// The digest that the identifiers of a new record are the encoding of:
    /// the prefix digest for a versioned type, the identifier digest otherwise.
    pub fn creation_digest(&self) -> (r: Vec<u8>)
        requires
            record_wf(self@),
        ensures
            versioned(self@) ==> r@ == prefix_digest_of(self@),
            !versioned(self@) ==> r@ == said_digest_of(self@),
    {
        if self.schema.is_versioned() {
            self.prefix_digest()
        } else {
            self.said_digest()
        }
    }

    /// Derives the identifiers of a new record from the encoding `enc` of
    /// its creation digest: identifier and prefix for a versioned type, the
    /// identifier otherwise.
    pub fn initialize(&mut self, enc: &SaidEncoding) -> (r: Result<(), StorageError>)
        requires
            record_wf(old(self)@),
        ensures
            versioned(old(self)@) ==> (r is Ok <==> encodes(*enc) && enc.digest@
                == prefix_digest_of(old(self)@)),
            versioned(old(self)@) && r is Ok ==> final(self)@ == with_prefix(
                with_said(old(self)@, enc.qb64@),
                enc.qb64@,
            ),
            !versioned(old(self)@) ==> (r is Ok <==> encodes(*enc) && enc.digest@
                == said_digest_of(old(self)@)),
            !versioned(old(self)@) && r is Ok ==> final(self)@ == with_said(old(self)@, enc.qb64@),
            r matches Err(e) ==> e is CesrError && final(self)@ == old(self)@,
            record_wf(final(self)@),
            final(self).schema.table == old(self).schema.table,
    {
        if self.schema.is_versioned() {
            self.derive_prefix(enc)
        } else {
            self.derive_said(enc)
        }
    }

    /// A new record of `schema`, made at `created_at` with the plain values
    /// `plain`, whose identifiers are derived from `enc`, the encoding of its
    /// creation digest. Fails with `SerializationError` where the values do
    /// not fit the schema, and with `CesrError` where `enc` is not the
    /// encoding of the digest.
    pub fn create(
        schema: RecordSchema,
        plain: Vec<FieldValue>,
        created_at: StorageDatetime,
        enc: &SaidEncoding,
    ) -> (r: Result<Record, StorageError>)
        ensures
            schema_wf(schema.fields@) && plain@.len() == role_count(schema.fields@, FieldRole::Plain)
                ==> (r is Ok <==> encodes(*enc) && enc.digest@ == creation_digest_of(
                initial_record(
                    schema.fields@,
                    plain@.map_values(|v: FieldValue| v@),
                    FieldValue::Datetime(created_at)@,
                ),
            )),
            r matches Ok(rec) ==> rec@ == created_with(
                initial_record(
                    schema.fields@,
                    plain@.map_values(|v: FieldValue| v@),
                    FieldValue::Datetime(created_at)@,
                ),
                enc.qb64@,
            ),
            r matches Err(e) ==> (e is SerializationError <==> !(schema_wf(schema.fields@)
                && plain@.len() == role_count(schema.fields@, FieldRole::Plain))),
            r matches Err(e) ==> e is SerializationError || e is CesrError,
            r matches Ok(rec) ==> record_wf(rec@) && rec.schema.fields@ == schema.fields@
                && said_of(rec@) == enc.qb64@,
            r matches Ok(rec) ==> (versioned(rec@) ==> prefix_of(rec@) == enc.qb64@ && version_of(
                rec@,
            ) == 0 && previous_of(rec@) is None),
    {
        match Record::new_at(schema, plain, created_at) {
            None => {
                let mut m = String::new();
                push_str(&mut m, "the values do not fit the record's schema");
                Err(StorageError::SerializationError(m))
            },
            Some(mut rec) => {
                let ghost r0 = rec@;
                proof {
                    lemma_role_index(r0.fields, FieldRole::Said);
                    lemma_role_index(r0.fields, FieldRole::Prefix);
                    lemma_role_index(r0.fields, FieldRole::Previous);
                    lemma_role_index(r0.fields, FieldRole::Version);
                    lemma_roles_apart(r0.fields, FieldRole::Said, FieldRole::Prefix);
                    lemma_roles_apart(r0.fields, FieldRole::Version, FieldRole::Said);
                    lemma_roles_apart(r0.fields, FieldRole::Version, FieldRole::Prefix);
                    lemma_roles_apart(r0.fields, FieldRole::Previous, FieldRole::Said);
                    lemma_roles_apart(r0.fields, FieldRole::Previous, FieldRole::Prefix);
                }
                match rec.initialize(enc) {
                    Ok(()) => {
                        proof {
                            if versioned(r0) {
                                lemma_prefix_equality(r0, enc.qb64@);
                                let vi = role_index(r0.fields, FieldRole::Version);
                                let pi = role_index(r0.fields, FieldRole::Previous);
                                assert(rec@.values[vi] == r0.values[vi]);
                                assert(rec@.values[pi] == r0.values[pi]);
                            } else {
                                lemma_said_roundtrip(r0, enc.qb64@);
                            }
                        }
                        Ok(rec)
                    },
                    Err(e) => Err(e),
                }
            },
        }
    }

    /// The digest that `verify` checks the identifier against.
    pub fn verify_digest(&self) -> (r: Vec<u8>)
        requires
            record_wf(self@),
            versioned(self@),
        ensures
            version_of(self@) == 0 ==> r@ == prefix_digest_of(self@),
            version_of(self@) > 0 ==> r@ == said_digest_of(self@),
    {
        if self.get_version() == 0 {
            self.prefix_digest()
        } else {
            self.said_digest()
        }
    }
}

/// A field found by one role is not the field found by another.
proof fn lemma_roles_apart(fields: Seq<crate::record::FieldDecl>, a: FieldRole, b: FieldRole)
    requires
        a != b,
    ensures
        role_index(fields, a) >= 0 ==> role_index(fields, a) != role_index(fields, b),
{
    lemma_role_index(fields, a);
    lemma_role_index(fields, b);
}

/// Deriving an identifier and then verifying it with the same encoding
/// succeeds: the identifier field holds the placeholder while the digest is
/// computed, so the digest does not depend on what that field held, and
/// after the derivation the field holds the encoding.
pub proof fn lemma_said_roundtrip(r: RecordView, q: Seq<char>)
    requires
        record_wf(r),
    ensures
        record_wf(with_said(r, q)),
        said_digest_of(with_said(r, q)) == said_digest_of(r),
        said_of(with_said(r, q)) == q,
{
    let idx = role_index(r.fields, FieldRole::Said);
    lemma_role_index(r.fields, FieldRole::Said);
    lemma_with_value_wf(r, idx, ValueView::Text(q));
    assert(with_said(with_said(r, q), placeholder()).values =~= with_said(r, placeholder()).values);
}

/// After a first version's prefix is derived, its identifier equals its
/// prefix.
pub proof fn lemma_prefix_equality(r: RecordView, q: Seq<char>)
    requires
        record_wf(r),
        versioned(r),
    ensures
        said_of(with_prefix(with_said(r, q), q)) == q,
        prefix_of(with_prefix(with_said(r, q), q)) == q,
        said_of(with_prefix(with_said(r, q), q)) == prefix_of(with_prefix(with_said(r, q), q)),
{
    lemma_roles_apart(r.fields, FieldRole::Said, FieldRole::Prefix);
    lemma_role_index(r.fields, FieldRole::Said);
    lemma_role_index(r.fields, FieldRole::Prefix);
}

/// One step of a lineage: the next version of `prev`, made with creation
/// value `c` and identifier `q`, points back at `prev`'s identifier, keeps
/// its prefix and has the next version number.
pub proof fn lemma_increment_links(prev: RecordView, c: Option<ValueView>, q: Seq<char>)
    requires
        record_wf(prev),
        versioned(prev),
        c matches Some(v) ==> v is Datetime,
    ensures
        record_wf(with_said(advanced(prev, c), q)),
        with_said(advanced(prev, c), q).fields == prev.fields,
        previous_of(with_said(advanced(prev, c), q)) == Some(said_of(prev)),
        prefix_of(with_said(advanced(prev, c), q)) == prefix_of(prev),
        version_of(with_said(advanced(prev, c), q)) == version_of(prev) + 1,
        said_of(with_said(advanced(prev, c), q)) == q,
{
    let f = prev.fields;
    lemma_role_index(f, FieldRole::Said);
    lemma_role_index(f, FieldRole::Prefix);
    lemma_role_index(f, FieldRole::Previous);
    lemma_role_index(f, FieldRole::Version);
    lemma_role_index(f, FieldRole::CreatedAt);
    lemma_roles_apart(f, FieldRole::Previous, FieldRole::Said);
    lemma_roles_apart(f, FieldRole::Previous, FieldRole::Prefix);
    lemma_roles_apart(f, FieldRole::Previous, FieldRole::Version);
    lemma_roles_apart(f, FieldRole::Version, FieldRole::Said);
    lemma_roles_apart(f, FieldRole::Version, FieldRole::Prefix);
    lemma_roles_apart(f, FieldRole::CreatedAt, FieldRole::Said);
    lemma_roles_apart(f, FieldRole::CreatedAt, FieldRole::Prefix);
    lemma_roles_apart(f, FieldRole::CreatedAt, FieldRole::Previous);
    lemma_roles_apart(f, FieldRole::CreatedAt, FieldRole::Version);
    lemma_roles_apart(f, FieldRole::Prefix, FieldRole::Said);
    let pi = role_index(f, FieldRole::Previous);
    let vi = role_index(f, FieldRole::Version);
    let ci = role_index(f, FieldRole::CreatedAt);
    let si = role_index(f, FieldRole::Said);
    let r1 = with_value(prev, pi, ValueView::Text(said_of(prev)));
    let r2 = with_value(r1, vi, ValueView::UInt(version_of(prev) + 1));
    lemma_with_value_wf(prev, pi, ValueView::Text(said_of(prev)));
    lemma_with_value_wf(r1, vi, ValueView::UInt(version_of(prev) + 1));
    let r3 = advanced(prev, c);
    match c {
        Some(v) => {
            lemma_with_value_wf(r2, ci, v);
        },
        None => {},
    }
    lemma_with_value_wf(r3, si, ValueView::Text(q));
}

/// Along a lineage made by successive increments from a first version, each
/// version points back at the identifier of the one before, keeps the first
/// version's prefix, and has the next version number.
pub proof fn lemma_lineage(
    rs: Seq<RecordView>,
    created: Seq<Option<ValueView>>,
    qs: Seq<Seq<char>>,
)
    requires
        rs.len() >= 1,
        created.len() == rs.len(),
        qs.len() == rs.len(),
        record_wf(rs[0]),
        versioned(rs[0]),
        forall|i: int| 0 < i < rs.len() ==> (#[trigger] created[i] matches Some(v) ==> v is Datetime),
        forall|i: int|
            0 < i < rs.len() ==> #[trigger] rs[i] == with_said(advanced(rs[i - 1], created[i]), qs[i]),
    ensures
        forall|i: int|
            0 < i < rs.len() ==> {
                &&& previous_of(#[trigger] rs[i]) == Some(said_of(rs[i - 1]))
                &&& prefix_of(rs[i]) == prefix_of(rs[0])
                &&& version_of(rs[i]) == version_of(rs[i - 1]) + 1
            },
    decreases rs.len(),
{
    if rs.len() > 1 {
        let n = rs.len() - 1;
        lemma_lineage(rs.drop_last(), created.drop_last(), qs.drop_last());
        assert forall|i: int| 0 < i < rs.len() implies {
            &&& previous_of(#[trigger] rs[i]) == Some(said_of(rs[i - 1]))
            &&& prefix_of(rs[i]) == prefix_of(rs[0])
            &&& version_of(rs[i]) == version_of(rs[i - 1]) + 1
        } by {
            lemma_lineage_wf(rs, created, qs, i - 1);
            assert(created[i] matches Some(v) ==> v is Datetime);
            lemma_increment_links(rs[i - 1], created[i], qs[i]);
            let d = rs.drop_last();
            assert(d[0] == rs[0]);
            if i < n {
                assert(d[i] == rs[i]);
                assert(d[i - 1] == rs[i - 1]);
            } else if i - 1 > 0 {
                assert(d[i - 1] == rs[i - 1]);
                assert(prefix_of(d[i - 1]) == prefix_of(d[0]));
            }
        }
    }
}

/// Every version of such a lineage is well formed and versioned, with the
/// fields of the first.
proof fn lemma_lineage_wf(
    rs: Seq<RecordView>,
    created: Seq<Option<ValueView>>,
    qs: Seq<Seq<char>>,
    k: int,
)
    requires
        rs.len() >= 1,
        created.len() == rs.len(),
        qs.len() == rs.len(),
        record_wf(rs[0]),
        versioned(rs[0]),
        forall|i: int| 0 < i < rs.len() ==> (#[trigger] created[i] matches Some(v) ==> v is Datetime),
        forall|i: int|
            0 < i < rs.len() ==> #[trigger] rs[i] == with_said(advanced(rs[i - 1], created[i]), qs[i]),
        0 <= k < rs.len(),
    ensures
        record_wf(rs[k]),
        rs[k].fields == rs[0].fields,
    decreases k,
{
    if k > 0 {
        lemma_lineage_wf(rs, created, qs, k - 1);
        assert(created[k] matches Some(v) ==> v is Datetime);
        lemma_increment_links(rs[k - 1], created[k], qs[k]);
    }
}

/// The canonical serialization has the same length whether the identifier
/// holds the placeholder or an encoded identifier: hashes never embed their
/// own length.
pub proof fn lemma_placeholder_length(r: RecordView)
    requires
        record_wf(r),
        well_encoded(said_of(r)),
    ensures
        canonical_json(with_said(r, placeholder())).len() == canonical_json(r).len(),
{
    let idx = role_index(r.fields, FieldRole::Said);
    lemma_role_index(r.fields, FieldRole::Said);
    let p = with_said(r, placeholder());
    assert(plain_text(placeholder()));
    assert(r.values[idx] == ValueView::Text(said_of(r)));
    crate::canonical::lemma_members_len(r.fields, p.values, r.values, r.fields.len(), idx);
}

/// Changing a plain text field of a record to another plain text changes
/// the bytes its identifier digest is computed from; the stored identifier
/// then verifies against the new content only where Blake3 collides on them.
pub proof fn lemma_tamper_changes_preimage(r: RecordView, k: int, s: Seq<char>)
    requires
        record_wf(r),
        0 <= k < r.fields.len(),
        r.fields[k].role == FieldRole::Plain,
        r.values[k] matches ValueView::Text(t) && plain_text(t) && t != s,
        plain_text(s),
    ensures
        canonical_json(with_said(r, placeholder())) != canonical_json(
            with_said(with_value(r, k, ValueView::Text(s)), placeholder()),
        ),
{
    let si = role_index(r.fields, FieldRole::Said);
    lemma_role_index(r.fields, FieldRole::Said);
    let p = with_said(r, placeholder());
    let t = match r.values[k] {
        ValueView::Text(t) => t,
        _ => Seq::empty(),
    };
    crate::canonical::lemma_plain_json_injective(t, s);
    assert(p.values[k] == r.values[k]);
    crate::canonical::lemma_canonical_differs(p, k, ValueView::Text(s));
    assert(with_said(with_value(r, k, ValueView::Text(s)), placeholder()).values =~= p.values.update(
        k,
        ValueView::Text(s),
    ));
}

/// The order of two texts, character by character.
pub open spec fn text_order(a: Seq<char>, b: Seq<char>) -> std::cmp::Ordering
    decreases a.len(),
{
    if a.len() == 0 {
        if b.len() == 0 {
            std::cmp::Ordering::Equal
        } else {
            std::cmp::Ordering::Less
        }
    } else if b.len() == 0 {
        std::cmp::Ordering::Greater
    } else if (a[0] as u32) < (b[0] as u32) {
        std::cmp::Ordering::Less
    } else if (a[0] as u32) > (b[0] as u32) {
        std::cmp::Ordering::Greater
    } else {
        text_order(a.drop_first(), b.drop_first())
    }
}

/// The order of two revisions: by prefix, then by version.
pub open spec fn revision_order(a: RecordView, b: RecordView) -> std::cmp::Ordering {
    match text_order(prefix_of(a), prefix_of(b)) {
        std::cmp::Ordering::Equal => if version_of(a) < version_of(b) {
            std::cmp::Ordering::Less
        } else if version_of(a) > version_of(b) {
            std::cmp::Ordering::Greater
        } else {
            std::cmp::Ordering::Equal
        },
        o => o,
    }
}

/// The order of two texts.
fn compare_text(a: &String, b: &String) -> (r: std::cmp::Ordering)
    ensures
        r == text_order(a@, b@),
{
    let sa = a.as_str();
    let sb = b.as_str();
    let na = sa.unicode_len();
    let nb = sb.unicode_len();
    let mut i: usize = 0;
    assert(a@.skip(0) =~= a@);
    assert(b@.skip(0) =~= b@);
    while i < na && i < nb
        invariant
            sa@ == a@,
            sb@ == b@,
            na == a@.len(),
            nb == b@.len(),
            i <= na,
            i <= nb,
            text_order(a@, b@) == text_order(a@.skip(i as int), b@.skip(i as int)),
        decreases na - i,
    {
        let ca = sa.get_char(i);
        let cb = sb.get_char(i);
        assert(a@.skip(i as int)[0] == ca);
        assert(b@.skip(i as int)[0] == cb);
        assert(a@.skip(i as int).drop_first() =~= a@.skip(i + 1));
        assert(b@.skip(i as int).drop_first() =~= b@.skip(i + 1));
        if (ca as u32) < (cb as u32) {
            return std::cmp::Ordering::Less;
        }
        if (ca as u32) > (cb as u32) {
            return std::cmp::Ordering::Greater;
        }
        i = i + 1;
    }
    if i < na {
        std::cmp::Ordering::Greater
    } else if i < nb {
        std::cmp::Ordering::Less
    } else {
        std::cmp::Ordering::Equal
    }
}

impl Record {
    /// Whether two versioned records are the same revision: the same prefix
    /// and the same version, whatever their identifiers.
    pub fn same_revision(&self, other: &Record) -> (r: bool)
        requires
            record_wf(self@),
            versioned(self@),
            record_wf(other@),
            versioned(other@),
        ensures
            r == (prefix_of(self@) == prefix_of(other@) && version_of(self@) == version_of(other@)),
    {
        let a = self.get_prefix();
        let b = other.get_prefix();
        a == b && self.get_version() == other.get_version()
    }

    /// The order of two versioned records: by prefix, then by version, so a
    /// lineage's history is in the order it was written.
    pub fn compare_revision(&self, other: &Record) -> (r: std::cmp::Ordering)
        requires
            record_wf(self@),
            versioned(self@),
            record_wf(other@),
            versioned(other@),
        ensures
            r == revision_order(self@, other@),
    {
        let a = self.get_prefix();
        let b = other.get_prefix();
        match compare_text(&a, &b) {
            std::cmp::Ordering::Equal => {
                let va = self.get_version();
                let vb = other.get_version();
                if va < vb {
                    std::cmp::Ordering::Less
                } else if va > vb {
                    std::cmp::Ordering::Greater
                } else {
                    std::cmp::Ordering::Equal
                }
            },
            o => o,
        }
    }
}

/// Tampering is detected. After a record's identifier is derived with the
/// canonical encoding, changing a plain text field to another plain text
/// leaves an identifier that is not the canonical encoding of the new
/// content's digest, so `verify_said` with that encoding fails with
/// `InvalidSaid`; the one exception is Blake3 giving the two different
/// serializations the same digest, which the last requirement rules out.
pub proof fn lemma_tamper_detected(r: RecordView, k: int, s: Seq<char>)
    requires
        record_wf(r),
        0 <= k < r.fields.len(),
        r.fields[k].role == FieldRole::Plain,
        r.values[k] matches ValueView::Text(t) && plain_text(t) && t != s,
        plain_text(s),
        said_digest_of(r).len() == 32,
        said_digest_of(with_value(r, k, ValueView::Text(s))).len() == 32,
        canonical_json(with_said(r, placeholder())) != canonical_json(
            with_said(with_value(r, k, ValueView::Text(s)), placeholder()),
        ) ==> said_digest_of(r) != said_digest_of(with_value(r, k, ValueView::Text(s))),
    ensures
        ({
            let derived = with_said(r, crate::cesr::qb64_blake3(said_digest_of(r)));
            let tampered = with_value(derived, k, ValueView::Text(s));
            said_of(tampered) != crate::cesr::qb64_blake3(said_digest_of(tampered))
        }),
{
    let q = crate::cesr::qb64_blake3(said_digest_of(r));
    let derived = with_said(r, q);
    let tampered = with_value(derived, k, ValueView::Text(s));
    let changed = with_value(r, k, ValueView::Text(s));
    let si = role_index(r.fields, FieldRole::Said);
    lemma_role_index(r.fields, FieldRole::Said);
    assert(si != k);
    lemma_tamper_changes_preimage(r, k, s);
    assert(with_said(tampered, placeholder()).values =~= with_said(changed, placeholder()).values);
    assert(said_digest_of(tampered) == said_digest_of(changed));
    assert(said_of(tampered) == q);
    crate::cesr::lemma_qb64_injective(said_digest_of(r), said_digest_of(changed));
}

} // verus!
