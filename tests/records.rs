use verifiable_storage::binding::{bind_insert_values, deserialize_row, Bind};
use verifiable_storage::canonical::canonical_bytes;
use verifiable_storage::surreal::SurrealTransaction;
use verifiable_storage::{
    FieldDecl, FieldRole, FieldValue, Record, RecordSchema, SaidEncoding, Storable,
    StorageDatetime, StorageError, UnversionedRepository, VersionedRepository,
};

fn field(name: &str, declared: &str, role: FieldRole) -> FieldDecl {
    FieldDecl {
        name: name.to_string(),
        declared: declared.to_string(),
        role,
        skip: false,
        column: None,
        json_name: None,
    }
}

fn domain_schema() -> RecordSchema {
    RecordSchema {
        fields: vec![
            field("said", "String", FieldRole::Said),
            field("prefix", "String", FieldRole::Prefix),
            field("previous", "Option<String>", FieldRole::Previous),
            field("version", "u64", FieldRole::Version),
            field("created_at", "StorageDatetime", FieldRole::CreatedAt),
            field("name", "String", FieldRole::Plain),
        ],
        table: Some("adns_domains".to_string()),
    }
}

fn audit_schema() -> RecordSchema {
    RecordSchema {
        fields: vec![
            field("said", "String", FieldRole::Said),
            field("recorded_at", "StorageDatetime", FieldRole::CreatedAt),
            field("data", "String", FieldRole::Plain),
        ],
        table: Some("audit_records".to_string()),
    }
}

fn at(micros: i64) -> StorageDatetime {
    StorageDatetime::from_micros(micros).unwrap()
}

fn encode(digest: Vec<u8>) -> SaidEncoding {
    SaidEncoding::of_blake3(digest)
}

fn text(s: &str) -> FieldValue {
    FieldValue::Text(s.to_string())
}

fn said_text(r: &Record) -> String {
    r.get_said()
}

fn create_domain(name: &str, t: i64) -> Record {
    let r = Record::new_at(domain_schema(), vec![text(name)], at(t)).unwrap();
    let enc = encode(r.creation_digest());
    Record::create(domain_schema(), vec![text(name)], at(t), &enc).unwrap()
}

fn update(r: &Record, t: i64) -> Record {
    let enc = encode(r.increment_digest(Some(at(t))));
    let mut next = r.clone();
    next.increment(at(t), &enc).unwrap();
    next
}

fn row_of(binds: Vec<Bind>) -> Vec<Option<FieldValue>> {
    binds
        .into_iter()
        .map(|b| match b {
            Bind::Value(v) => Some(v),
            Bind::Null(_) => None,
        })
        .collect()
}

#[test]
fn datetime_text_has_six_fraction_digits_and_z() {
    assert_eq!(at(1704067200000000).text(), "2024-01-01T00:00:00.000000Z");
    assert_eq!(at(1704067200123456).text(), "2024-01-01T00:00:00.123456Z");
    assert_eq!(StorageDatetime::from_micros(-1).unwrap().text(), "1969-12-31T23:59:59.999999Z");
}

#[test]
fn canonical_serialization_follows_declaration_order() {
    let r = Record::new_at(domain_schema(), vec![text("example")], at(1704067200000000)).unwrap();
    let bytes = canonical_bytes(&r.schema.fields, &r.values);
    assert_eq!(
        String::from_utf8(bytes).unwrap(),
        "{\"said\":\"\",\"prefix\":\"\",\"previous\":null,\"version\":0,\"createdAt\":\"2024-01-01T00:00:00.000000Z\",\"name\":\"example\"}"
    );
}

#[test]
fn canonical_serialization_escapes_text() {
    let r = Record::new_at(audit_schema(), vec![text("a\"b\\c\n")], at(0)).unwrap();
    let bytes = canonical_bytes(&r.schema.fields, &r.values);
    assert_eq!(
        String::from_utf8(bytes).unwrap(),
        "{\"said\":\"\",\"recordedAt\":\"1970-01-01T00:00:00.000000Z\",\"data\":\"a\\\"b\\\\c\\n\"}"
    );
}

#[test]
fn canonical_serialization_of_numbers_and_flags() {
    let schema = RecordSchema {
        fields: vec![
            field("said", "String", FieldRole::Said),
            field("delta", "i64", FieldRole::Plain),
            field("big", "u64", FieldRole::Plain),
            field("on", "bool", FieldRole::Plain),
        ],
        table: None,
    };
    let r = Record::new_at(
        schema,
        vec![FieldValue::Int(i64::MIN), FieldValue::UInt(u64::MAX), FieldValue::Bool(false)],
        at(0),
    )
    .unwrap();
    let bytes = canonical_bytes(&r.schema.fields, &r.values);
    assert_eq!(
        String::from_utf8(bytes).unwrap(),
        "{\"said\":\"\",\"delta\":-9223372036854775808,\"big\":18446744073709551615,\"on\":false}"
    );
}

#[test]
fn said_digest_depends_on_content_not_on_said() {
    let a = Record::new_at(audit_schema(), vec![text("hello")], at(5)).unwrap();
    let b = Record::new_at(audit_schema(), vec![text("hellO")], at(5)).unwrap();
    let da = a.said_digest();
    assert_eq!(da.len(), 32);
    assert_ne!(da, b.said_digest());
    let mut c = a.clone();
    c.values[0] = text("anything");
    assert_eq!(c.said_digest(), da);
}

#[test]
fn said_roundtrip_and_tamper_detection() {
    let mut r = Record::new_at(audit_schema(), vec![text("hello")], at(7)).unwrap();
    let enc = encode(r.said_digest());
    r.derive_said(&enc).unwrap();
    assert_eq!(said_text(&r), enc.qb64);
    let check = encode(r.said_digest());
    assert_eq!(check, enc);
    assert!(r.verify_said(&check).is_ok());

    let mut tampered = r.clone();
    tampered.values[2] = text("hellO");
    let check = encode(tampered.said_digest());
    match tampered.verify_said(&check) {
        Err(StorageError::InvalidSaid { expected, actual }) => {
            assert_eq!(expected, enc.qb64);
            assert_eq!(actual, check.qb64);
        }
        other => panic!("unexpected {:?}", other),
    }
}

#[test]
fn encoding_of_another_digest_is_refused() {
    let mut r = Record::new_at(audit_schema(), vec![text("hello")], at(7)).unwrap();
    let before = r.clone();
    let other = Record::new_at(audit_schema(), vec![text("bye")], at(7)).unwrap();
    let enc = encode(other.said_digest());
    assert!(matches!(r.derive_said(&enc), Err(StorageError::CesrError(_))));
    assert_eq!(r.values, before.values);
    let short = SaidEncoding { digest: r.said_digest(), qb64: "Eabc".to_string() };
    assert!(matches!(r.derive_said(&short), Err(StorageError::CesrError(_))));
    let mut forged = encode(r.said_digest());
    forged.qb64 = format!("F{}", &forged.qb64[1..]);
    assert!(matches!(r.derive_said(&forged), Err(StorageError::CesrError(_))));
}

#[test]
fn placeholder_length_equals_final_length() {
    let mut r = Record::new_at(audit_schema(), vec![text("hello")], at(7)).unwrap();
    let enc = encode(r.said_digest());
    let mut p = r.clone();
    p.values[0] = text(&"#".repeat(44));
    r.derive_said(&enc).unwrap();
    assert_eq!(
        canonical_bytes(&p.schema.fields, &p.values).len(),
        canonical_bytes(&r.schema.fields, &r.values).len()
    );
}

#[test]
fn prefix_equals_said_at_creation() {
    let r0 = create_domain("a", 100);
    assert_eq!(r0.get_prefix(), r0.get_said());
    assert_eq!(r0.get_version(), 0);
    assert_eq!(r0.get_previous(), None);
    assert!(r0.verify(&encode(r0.verify_digest())).is_ok());
}

#[test]
fn versioned_lineage_of_three() {
    let r0 = create_domain("a", 100);
    let r1 = update(&r0, 200);
    let mut r1b = r1.clone();
    r1b.values[5] = text("b");
    let r2 = update(&r1b, 300);
    assert_eq!(r0.get_prefix(), r0.get_said());
    assert_eq!(r1.get_previous(), Some(r0.get_said()));
    assert_eq!(r2.get_previous(), Some(r1b.get_said()));
    assert_eq!(r2.get_version(), 2);
    assert_eq!(r1.get_prefix(), r0.get_prefix());
    assert_eq!(r2.get_prefix(), r0.get_prefix());
    assert_eq!(r2.get_created_at(), Some(at(300)));
    for r in [&r0, &r1, &r2] {
        assert!(r.verify(&encode(r.verify_digest())).is_ok());
    }
    let mut history = vec![r2.clone(), r0.clone(), r1.clone()];
    history.sort_by(|a, b| a.compare_revision(b));
    let saids: Vec<String> = history.iter().map(|r| r.get_said()).collect();
    assert_eq!(saids, vec![r0.get_said(), r1.get_said(), r2.get_said()]);
    let latest = history.iter().max_by(|a, b| a.compare_revision(b)).unwrap();
    assert_eq!(latest.get_said(), r2.get_said());
}

#[test]
fn verify_unchanged_detects_no_op_update() {
    let r0 = create_domain("a", 100);
    let same = update(&r0, 200);
    let enc = encode(r0.increment_digest(same.get_created_at()));
    assert_eq!(r0.verify_unchanged(&same, &enc).unwrap(), true);

    let mut changed = r0.clone();
    changed.values[5] = text("b");
    let changed = update(&changed, 200);
    let enc = encode(r0.increment_digest(changed.get_created_at()));
    assert_eq!(r0.verify_unchanged(&changed, &enc).unwrap(), false);
}

#[test]
fn unversioned_create_and_read_back() {
    let repo = UnversionedRepository::new("audit_records".to_string());
    let item = Record::new_at(audit_schema(), vec![text("hello")], at(1704067200000000)).unwrap();
    let enc = encode(item.said_digest());
    let r = repo.create(item, &enc).unwrap();
    let st = Storable::for_schema(&r.schema).unwrap();
    let row = row_of(bind_insert_values(&st, &r).unwrap());
    let back = deserialize_row(audit_schema(), &st, &row).unwrap();
    assert_eq!(back.values, r.values);
    assert!(back.verify_said(&encode(back.said_digest())).is_ok());
}

#[test]
fn versioned_repository_prepares_writes() {
    let repo = VersionedRepository::new("adns_domains".to_string());
    let item = Record::new_at(domain_schema(), vec![text("a")], at(1)).unwrap();
    let enc = encode(item.prefix_digest());
    let r0 = repo.create(item, &enc).unwrap();
    assert_eq!(r0.get_said(), enc.qb64);
    assert_eq!(r0.get_prefix(), enc.qb64);
    let enc1 = encode(r0.increment_digest(Some(at(2))));
    let r1 = repo.update(r0.clone(), at(2), &enc1).unwrap();
    assert_eq!(r1.get_previous(), Some(r0.get_said()));
    assert_eq!(r1.get_version(), 1);
}

#[test]
fn corruption_is_detected_after_reading() {
    let st = Storable::for_schema(&domain_schema()).unwrap();
    let row = vec![
        Some(text("X")),
        Some(text("X")),
        None,
        Some(FieldValue::UInt(3)),
        Some(FieldValue::Datetime(at(9))),
        Some(text("a")),
    ];
    let r = deserialize_row(domain_schema(), &st, &row).unwrap();
    let enc = encode(r.said_digest());
    match r.verify_said(&enc) {
        Err(StorageError::InvalidSaid { expected, actual }) => {
            assert_eq!(expected, "X");
            assert_eq!(actual, enc.qb64);
        }
        other => panic!("unexpected {:?}", other),
    }
}

#[test]
fn null_cells_read_as_absent_values() {
    let st = Storable::for_schema(&domain_schema()).unwrap();
    let row = vec![
        Some(text("s")),
        Some(text("p")),
        None,
        Some(FieldValue::UInt(0)),
        Some(FieldValue::Datetime(at(9))),
        None,
    ];
    let r = deserialize_row(domain_schema(), &st, &row).unwrap();
    assert_eq!(r.values[2], FieldValue::Null);
    assert_eq!(r.values[5], FieldValue::Null);
    assert_eq!(r.get_previous(), None);
}

#[test]
fn rows_that_do_not_fit_are_refused() {
    let st = Storable::for_schema(&domain_schema()).unwrap();
    let missing_said = vec![None, Some(text("p")), None, Some(FieldValue::UInt(0)), Some(FieldValue::Datetime(at(9))), None];
    assert!(matches!(
        deserialize_row(domain_schema(), &st, &missing_said),
        Err(StorageError::SerializationError(_))
    ));
    let short = vec![Some(text("s"))];
    assert!(matches!(
        deserialize_row(domain_schema(), &st, &short),
        Err(StorageError::SerializationError(_))
    ));
}

#[test]
fn create_refuses_values_that_do_not_fit() {
    let enc = SaidEncoding { digest: vec![0; 32], qb64: "E".repeat(44) };
    let r = Record::create(domain_schema(), vec![], at(1), &enc);
    assert!(matches!(r, Err(StorageError::SerializationError(_))));
    let mut bad = domain_schema();
    bad.fields.push(field("said2", "String", FieldRole::Said));
    assert!(!bad.is_well_formed());
    assert!(Record::new_at(bad, vec![text("a")], at(1)).is_none());
}

#[test]
fn binds_use_typed_nulls() {
    let st = Storable::for_schema(&domain_schema()).unwrap();
    let r = create_domain("a", 100);
    let binds = bind_insert_values(&st, &r).unwrap();
    assert_eq!(binds.len(), 6);
    assert_eq!(binds[2], Bind::Null(verifiable_storage::ColumnType::Text));
    assert_eq!(binds[3], Bind::Value(FieldValue::UInt(0)));
    assert_eq!(binds[5], Bind::Value(text("a")));
}


#[test]
fn distinct_on_keeps_latest_version_per_prefix() {
    let a0 = create_domain("a", 1);
    let a1 = update(&a0, 2);
    let a2 = update(&a1, 3);
    let b0 = create_domain("b", 4);
    let c0 = create_domain("c", 5);
    let mut rows = vec![a2.clone(), a1.clone(), a0.clone(), b0.clone(), c0.clone()];
    rows.sort_by(|x, y| {
        x.get_prefix()
            .cmp(&y.get_prefix())
            .then(y.get_version().cmp(&x.get_version()))
    });
    let picked = verifiable_storage::distinct::distinct_rows(&rows, &vec!["prefix".to_string()]);
    assert_eq!(picked.len(), 3);
    for r in &picked {
        let latest = [&a2, &b0, &c0]
            .into_iter()
            .find(|x| x.get_prefix() == r.get_prefix())
            .unwrap();
        assert_eq!(r.values, latest.values);
    }
    let none = verifiable_storage::distinct::distinct_rows(&vec![], &vec!["prefix".to_string()]);
    assert!(none.is_empty());
    let all = verifiable_storage::distinct::distinct_rows(&rows, &vec!["said".to_string()]);
    assert_eq!(all.len(), 5);
}

#[test]
fn unsigned_fields_read_back_unsigned() {
    let st = Storable::for_schema(&domain_schema()).unwrap();
    let row = vec![
        Some(text("s")),
        Some(text("p")),
        Some(text("q")),
        Some(FieldValue::Int(4)),
        Some(FieldValue::Datetime(at(9))),
        Some(text("n")),
    ];
    let r = deserialize_row(domain_schema(), &st, &row).unwrap();
    assert_eq!(r.values[3], FieldValue::UInt(4));
    assert_eq!(r.get_version(), 4);
    let mut negative = row.clone();
    negative[3] = Some(FieldValue::Int(-1));
    assert!(matches!(
        deserialize_row(domain_schema(), &st, &negative),
        Err(StorageError::SerializationError(_))
    ));
}

#[test]
fn document_transaction_refuses_rollback_after_commit() {
    let tx = SurrealTransaction::begin();
    assert!(tx.rollback().is_ok());
    let mut tx = SurrealTransaction::begin();
    assert!(tx.commit().is_ok());
    assert!(matches!(tx.rollback(), Err(StorageError::StorageError(_))));
}

#[test]
fn instants_move_within_range() {
    let t = at(1_000_000);
    assert_eq!(t.plus_micros(500).unwrap().micros(), 1_000_500);
    assert_eq!(t.plus_micros(-1_000_000).unwrap().text(), "1970-01-01T00:00:00.000000Z");
    assert_eq!(t.plus_micros(-1_000_001).unwrap().micros(), -1);
    assert!(t.plus_micros(i64::MAX).is_none());
    assert!(t.is_after(&at(999_999)));
    assert!(!t.is_after(&t.clone()));
    let now = StorageDatetime::now();
    assert!(now.micros() > 1_600_000_000_000_000);
    assert!(!now.is_from_future());
    assert!(now.plus_micros(3_600_000_000).unwrap().is_from_future());
}

#[test]
fn rows_of_both_backends_read_back_alike() {
    let st = Storable::for_schema(&domain_schema()).unwrap();
    let r0 = create_domain("a", 1704067200000001);
    let r1 = update(&r0, 1704067200000002);
    for r in [&r0, &r1] {
        let relational = row_of(bind_insert_values(&st, r).unwrap());
        let document: Vec<Option<FieldValue>> = relational
            .iter()
            .map(|c| match c {
                Some(FieldValue::Datetime(d)) => Some(FieldValue::Text(d.text())),
                Some(FieldValue::UInt(n)) => Some(FieldValue::Int(*n as i64)),
                other => other.clone(),
            })
            .collect();
        let a = deserialize_row(domain_schema(), &st, &relational).unwrap();
        let b = deserialize_row(domain_schema(), &st, &document).unwrap();
        assert_eq!(a.values, r.values);
        assert_eq!(b.values, r.values);
        assert!(b.verify(&encode(b.verify_digest())).is_ok());
    }
}

#[test]
fn revisions_compare_by_prefix_then_version() {
    let a0 = create_domain("a", 1);
    let a1 = update(&a0, 2);
    let b0 = create_domain("b", 3);
    assert!(a0.same_revision(&a0.clone()));
    assert!(!a0.same_revision(&a1));
    assert_eq!(a0.compare_revision(&a1), std::cmp::Ordering::Less);
    assert_eq!(a1.compare_revision(&a0), std::cmp::Ordering::Greater);
    let expected = a0.get_prefix().cmp(&b0.get_prefix());
    assert_eq!(a1.compare_revision(&b0), expected);
    assert_eq!(a1.compare_revision(&a1.clone()), std::cmp::Ordering::Equal);
}

#[test]
fn instants_parse_from_rfc3339() {
    let d = StorageDatetime::parse("2024-01-01T00:00:00.000001Z").unwrap();
    assert_eq!(d.micros(), 1704067200000001);
    assert_eq!(d.text(), "2024-01-01T00:00:00.000001Z");
    let z = StorageDatetime::parse("2024-01-01T01:00:00+01:00").unwrap();
    assert_eq!(z.text(), "2024-01-01T00:00:00.000000Z");
    assert!(StorageDatetime::parse("yesterday").is_none());
    assert_eq!(StorageDatetime::parse("1969-12-31T23:59:59Z").unwrap().micros(), -1_000_000);
    assert!(StorageDatetime::parse("+10000-01-01T00:00:00Z").is_none());
}

#[test]
fn record_well_formedness_checks_value_kinds() {
    let r = create_domain("a", 1);
    assert!(r.is_well_formed());
    let mut bad = r.clone();
    bad.values[3] = text("zero");
    assert!(!bad.is_well_formed());
    let mut short = r.clone();
    short.values.pop();
    assert!(!short.is_well_formed());
}

#[test]
fn clock_readings_outside_the_range_become_the_epoch() {
    assert_eq!(StorageDatetime::from_clock(Some(1704067200000000)).text(), "2024-01-01T00:00:00.000000Z");
    assert_eq!(StorageDatetime::from_clock(None).micros(), 0);
    assert_eq!(StorageDatetime::from_clock(Some(u128::MAX)).text(), "1970-01-01T00:00:00.000000Z");
}

#[test]
fn digests_get_their_canonical_text() {
    let e = SaidEncoding::of_blake3((0u8..32).collect());
    assert_eq!(e.qb64, "EAABAgMEBQYHCAkKCwwNDg8QERITFBUWFxgZGhscHR4f");
    assert_eq!(SaidEncoding::of_blake3(vec![0; 32]).qb64, format!("E{}", "A".repeat(43)));
    assert_eq!(SaidEncoding::of_blake3(vec![255; 32]).qb64, format!("EP{}", "_".repeat(42)));
}

#[test]
fn instants_before_1970_bind_and_read() {
    let schema = RecordSchema {
        fields: vec![
            field("said", "String", FieldRole::Said),
            field("born_at", "StorageDatetime", FieldRole::Plain),
        ],
        table: Some("people".to_string()),
    };
    let st = Storable::for_schema(&schema).unwrap();
    let r = Record::new_at(schema.clone(), vec![text("1969-12-31T23:59:59.999999Z")], at(0)).unwrap();
    let binds = bind_insert_values(&st, &r).unwrap();
    assert_eq!(binds[1], Bind::Value(FieldValue::Datetime(at(-1))));
    assert_eq!(at(-1).text(), "1969-12-31T23:59:59.999999Z");
    assert_eq!(StorageDatetime::from_micros(-62167219200000000).unwrap().text(), "0000-01-01T00:00:00.000000Z");
    assert!(StorageDatetime::from_micros(-62167219200000001).is_none());
    let back = deserialize_row(schema.clone(), &st, &row_of(binds)).unwrap();
    assert_eq!(back.values[1], FieldValue::Datetime(at(-1)));
    let bad = Record::new_at(schema, vec![text("not a date")], at(0)).unwrap();
    assert!(matches!(bind_insert_values(&st, &bad), Err(StorageError::StorageError(_))));
}

#[test]
fn verify_reports_the_stored_and_recomputed_identifier() {
    let r0 = create_domain("a", 1);
    let mut r1 = update(&r0, 2);
    r1.values[0] = text("X");
    let enc = encode(r1.verify_digest());
    match r1.verify(&enc) {
        Err(StorageError::InvalidSaid { expected, actual }) => {
            assert_eq!(expected, "X");
            assert_eq!(actual, enc.qb64);
        }
        other => panic!("unexpected {:?}", other),
    }
}

#[test]
fn text_in_a_datetime_column_binds_as_an_instant() {
    let schema = RecordSchema {
        fields: vec![
            field("said", "String", FieldRole::Said),
            field("seen_at", "Option<StorageDatetime>", FieldRole::Plain),
        ],
        table: Some("seen".to_string()),
    };
    let st = Storable::for_schema(&schema).unwrap();
    let r = Record::new_at(schema, vec![text("2024-01-01T00:00:00.5Z")], at(0)).unwrap();
    let binds = bind_insert_values(&st, &r).unwrap();
    assert_eq!(binds[1], Bind::Value(FieldValue::Datetime(at(1704067200500000))));
}

#[test]
fn schemas_with_clashing_keys_are_refused() {
    let mut s = audit_schema();
    s.fields.push(field("data_two", "String", FieldRole::Plain));
    assert!(s.is_well_formed());
    let mut camel_clash = audit_schema();
    camel_clash.fields.push(field("data_", "String", FieldRole::Plain));
    assert!(!camel_clash.is_well_formed());
    let mut clash = audit_schema();
    let mut f = field("payload", "String", FieldRole::Plain);
    f.json_name = Some("data".to_string());
    clash.fields.push(f);
    assert!(!clash.is_well_formed());
    let mut column_clash = audit_schema();
    let mut g = field("payload", "String", FieldRole::Plain);
    g.column = Some("data".to_string());
    column_clash.fields.push(g);
    assert!(!column_clash.is_well_formed());
}

#[test]
fn rollback_message_after_commit() {
    let mut tx = SurrealTransaction::begin();
    tx.commit().unwrap();
    assert_eq!(
        tx.rollback(),
        Err(StorageError::StorageError("Cannot rollback committed transaction".to_string()))
    );
}

#[test]
fn distinct_on_keeps_input_order() {
    let a = create_domain("a", 1);
    let b = create_domain("b", 2);
    let a1 = update(&a, 3);
    let rows = vec![b.clone(), a1.clone(), a.clone()];
    let picked = verifiable_storage::distinct::distinct_rows(&rows, &vec!["prefix".to_string()]);
    assert_eq!(picked.len(), 2);
    assert_eq!(picked[0].values, b.values);
    assert_eq!(picked[1].values, a1.values);
}
