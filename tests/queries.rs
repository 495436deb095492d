use verifiable_storage::naming::rust_type_to_sql_type;
use verifiable_storage::sql::bind_filters;
use verifiable_storage::{
    build_insert_sql, postgres, surreal, to_camel_case, ColumnType, ConnectionConfig, Delete,
    FieldDecl, FieldRole, Filter, Order, Query, RecordSchema, Storable, Value, VersionedRepository,
};

fn field(name: &str, declared: &str, role: FieldRole) -> FieldDecl {
    FieldDecl {
        name: name.to_string(),
        declared: declared.to_string(),
        role,
        skip: false,
        column: None,
        json_name: None,
    }
}

fn s(x: &str) -> String {
    x.to_string()
}

#[test]
fn camel_case_of_field_names() {
    assert_eq!(to_camel_case("created_at"), "createdAt");
    assert_eq!(to_camel_case("said"), "said");
    assert_eq!(to_camel_case("a_b_c"), "aBC");
    assert_eq!(to_camel_case("trailing_"), "trailing");
    assert_eq!(to_camel_case(""), "");
}

#[test]
fn column_types_from_declared_types() {
    assert_eq!(rust_type_to_sql_type("u64"), ColumnType::Bigint);
    assert_eq!(rust_type_to_sql_type("i64"), ColumnType::Bigint);
    assert_eq!(rust_type_to_sql_type("u32"), ColumnType::Integer);
    assert_eq!(rust_type_to_sql_type("usize"), ColumnType::Integer);
    assert_eq!(rust_type_to_sql_type("bool"), ColumnType::Boolean);
    assert_eq!(rust_type_to_sql_type("StorageDatetime"), ColumnType::Datetime);
    assert_eq!(rust_type_to_sql_type("Option < StorageDatetime >"), ColumnType::Datetime);
    assert_eq!(rust_type_to_sql_type("DateTime<Utc>"), ColumnType::Datetime);
    assert_eq!(rust_type_to_sql_type("Option<u64>"), ColumnType::Bigint);
    assert_eq!(rust_type_to_sql_type("String"), ColumnType::Text);
    assert_eq!(rust_type_to_sql_type("Vec<u64>"), ColumnType::Text);
    assert_eq!(ColumnType::Datetime.name(), "datetime");
    assert_eq!(ColumnType::Json.name(), "json");
}

#[test]
fn storable_descriptors_are_aligned() {
    let mut skipped = field("cache", "String", FieldRole::Plain);
    skipped.skip = true;
    let mut renamed = field("name", "String", FieldRole::Plain);
    renamed.column = Some(s("domain_name"));
    let schema = RecordSchema {
        fields: vec![
            field("said", "String", FieldRole::Said),
            field("prefix", "String", FieldRole::Prefix),
            field("previous", "Option<String>", FieldRole::Previous),
            field("version", "u64", FieldRole::Version),
            field("created_at", "StorageDatetime", FieldRole::CreatedAt),
            skipped,
            renamed,
        ],
        table: Some(s("adns_domains")),
    };
    let st = Storable::for_schema(&schema).unwrap();
    assert_eq!(st.columns, vec!["said", "prefix", "previous", "version", "created_at", "domain_name"]);
    assert_eq!(st.json_keys, vec!["said", "prefix", "previous", "version", "createdAt", "name"]);
    assert_eq!(
        st.column_types,
        vec![
            ColumnType::Text,
            ColumnType::Text,
            ColumnType::Text,
            ColumnType::Bigint,
            ColumnType::Datetime,
            ColumnType::Text
        ]
    );
    assert_eq!(st.column_count(), 6);
    assert_eq!(
        st.insert_sql,
        "INSERT INTO adns_domains (said, prefix, previous, version, created_at, domain_name) VALUES ($1, $2, $3, $4, $5, $6)"
    );
    assert_eq!(st.select_all_sql, "SELECT * FROM adns_domains");
    assert_eq!(st.select_by_id_sql, "SELECT * FROM adns_domains WHERE said = $1");
    assert!(st.is_versioned);
    let mut unstored = schema.clone();
    unstored.table = None;
    assert!(Storable::for_schema(&unstored).is_none());
}

#[test]
fn insert_sql_of_no_columns() {
    assert_eq!(build_insert_sql("t", &vec![]), "INSERT INTO t () VALUES ()");
    assert_eq!(build_insert_sql("t", &vec![s("a")]), "INSERT INTO t (a) VALUES ($1)");
}

#[test]
fn relational_where_numbers_parameters_in_filter_order() {
    let filters = vec![
        Filter::Eq(s("a"), Value::Int(1)),
        Filter::IsNull(s("b")),
        Filter::In(s("c"), Value::Strings(vec![s("x"), s("y")])),
        Filter::Lte(s("d"), Value::UInt(3)),
        Filter::IsNotNull(s("e")),
        Filter::Ne(s("f"), Value::Bool(true)),
    ];
    let (sql, n) = postgres::build_where_clause(&filters, 1);
    assert_eq!(sql, " WHERE a = $1 AND b IS NULL AND c = ANY($2) AND d <= $3 AND e IS NOT NULL AND f != $4");
    assert_eq!(n, 4);
    let (sql, n) = postgres::build_where_clause(&vec![], 1);
    assert_eq!(sql, "");
    assert_eq!(n, 0);
    let binds = bind_filters(&filters);
    assert_eq!(binds.len(), 4);
    assert_eq!(*binds[1], Value::Strings(vec![s("x"), s("y")]));
}

#[test]
fn document_where_names_parameters_by_position() {
    let filters = vec![
        Filter::Eq(s("a"), Value::Int(1)),
        Filter::IsNull(s("b")),
        Filter::In(s("c"), Value::Strings(vec![s("x")])),
        Filter::Gt(s("d"), Value::UInt(3)),
    ];
    assert_eq!(
        surreal::build_where_clause(&filters),
        " WHERE a = $p0 AND b IS NULL AND $p2 CONTAINS c AND d > $p3"
    );
    assert_eq!(surreal::param_names(&filters), vec!["p0", "p1", "p2", "p3"]);
}

#[test]
fn order_and_join_clauses() {
    let keys = vec![(s("prefix"), Order::Asc), (s("version"), Order::Desc)];
    assert_eq!(postgres::build_order_clause(&keys), " ORDER BY prefix ASC, version DESC");
    assert_eq!(surreal::build_order_clause(&keys), " ORDER BY prefix ASC, version DESC");
    assert_eq!(postgres::build_order_clause(&vec![]), "");
    let q = Query::for_table(s("records")).join(s("domains"), s("domain"), s("said"));
    assert_eq!(
        postgres::build_join_clause("records", &q.joins),
        " JOIN domains ON records.domain = domains.said"
    );
    assert_eq!(
        surreal::build_join_clause("records", &q.joins),
        " INNER JOIN domains ON records.domain = domains.said"
    );
}

#[test]
fn distinct_on_query_in_both_dialects() {
    let q = Query::for_table(s("adns_domains"))
        .distinct_on(s("prefix"))
        .order_by(s("prefix"), Order::Asc)
        .order_by(s("version"), Order::Desc);
    assert_eq!(
        postgres::build_select(&q),
        "SELECT DISTINCT ON (prefix) * FROM adns_domains ORDER BY prefix ASC, version DESC"
    );
    assert_eq!(
        surreal::build_select(&q),
        "SELECT * FROM adns_domains GROUP BY prefix ORDER BY prefix ASC, version DESC"
    );
}

#[test]
fn full_select_in_both_dialects() {
    let q = Query::for_table(s("records"))
        .join(s("domains"), s("domain"), s("said"))
        .eq(s("records.kind"), Value::String(s("A")))
        .gte(s("records.version"), Value::UInt(2))
        .order_by(s("records.version"), Order::Asc)
        .limit(10)
        .offset(20);
    assert_eq!(
        postgres::build_select(&q),
        "SELECT records.* FROM records JOIN domains ON records.domain = domains.said WHERE records.kind = $1 AND records.version >= $2 ORDER BY records.version ASC LIMIT 10 OFFSET 20"
    );
    assert_eq!(
        surreal::build_select(&q),
        "SELECT records.* FROM records INNER JOIN domains ON records.domain = domains.said WHERE records.kind = $p0 AND records.version >= $p1 ORDER BY records.version ASC LIMIT 10 START 20"
    );
}

#[test]
fn exists_delete_and_insert_statements() {
    let q = Query::for_table(s("t")).eq(s("prefix"), Value::String(s("p")));
    assert_eq!(postgres::build_exists(&q), "SELECT EXISTS(SELECT 1 FROM t WHERE prefix = $1)");
    assert_eq!(surreal::build_exists(&q), "SELECT count() FROM t WHERE prefix = $p0 GROUP ALL");
    let d = Delete::for_table(s("t"))
        .eq(s("a"), Value::Null)
        .gte(s("b"), Value::Int(-2))
        .in_values(s("c"), Value::Strings(vec![]));
    assert_eq!(postgres::build_delete(&d), "DELETE FROM t WHERE a = $1 AND b >= $2 AND c = ANY($3)");
    assert_eq!(surreal::build_delete(&d), "DELETE FROM t WHERE a = $p0 AND b >= $p1 AND $p2 CONTAINS c");
    assert_eq!(surreal::build_insert("t"), "INSERT INTO t $item");
}

#[test]
fn query_builders_record_every_clause() {
    let q = Query::for_table(s("t"))
        .filter(Filter::IsNull(s("x")))
        .ne(s("a"), Value::Bool(false))
        .gt(s("b"), Value::Int(1))
        .lt(s("c"), Value::Int(2))
        .lte(s("d"), Value::Int(3))
        .in_values(s("e"), Value::Strings(vec![s("v")]));
    assert_eq!(q.filters.len(), 6);
    assert_eq!(q.filters[0], Filter::IsNull(s("x")));
    assert_eq!(q.filters[5], Filter::In(s("e"), Value::Strings(vec![s("v")])));
    assert_eq!(q.limit, None);
    assert_eq!(q.offset, None);
}

#[test]
fn repository_queries() {
    let repo = VersionedRepository::new(s("adns_domains"));
    let latest = repo.get_latest_query(s("Eabc"));
    assert_eq!(
        postgres::build_select(&latest),
        "SELECT * FROM adns_domains WHERE prefix = $1 ORDER BY version DESC LIMIT 1"
    );
    let history = repo.get_history_query(s("Eabc"));
    assert_eq!(
        postgres::build_select(&history),
        "SELECT * FROM adns_domains WHERE prefix = $1 ORDER BY version ASC"
    );
    let by_said = repo.get_by_said_query(s("Exyz"));
    assert_eq!(surreal::build_select(&by_said), "SELECT * FROM adns_domains WHERE said = $p0 LIMIT 1");
    let exists = repo.exists_query(s("Eabc"));
    assert_eq!(exists.limit, Some(1));
    assert_eq!(exists.filters, vec![Filter::Eq(s("prefix"), Value::String(s("Eabc")))]);
}

#[test]
fn connection_config_holds_its_url() {
    let c = ConnectionConfig::from_url("postgres://localhost/db");
    assert_eq!(c.url(), "postgres://localhost/db");
    assert_eq!(c, ConnectionConfig::Url(s("postgres://localhost/db")));
}

#[test]
fn connection_config_from_string() {
    let c: ConnectionConfig = s("ws://localhost:8000").into();
    assert_eq!(c.url(), "ws://localhost:8000");
}

#[test]
fn error_messages_name_the_failure() {
    let e = verifiable_storage::StorageError::InvalidSaid { expected: s("X"), actual: s("Eabc") };
    assert_eq!(e.message(), "Invalid SAID: expected X, got Eabc");
    assert_eq!(
        verifiable_storage::StorageError::NotFound(s("domain")).message(),
        "Not found: domain"
    );
    assert_eq!(
        verifiable_storage::StorageError::StorageError(s("down")).message(),
        "Storage error: down"
    );
}
