use shika::config::{Config, DatabaseConfig, DeserializedConfig, DeserializedDatabaseConfig, TemplateConfig};
use shika::error::ExtractionError;
use shika::extract::{build_schema, catalog_queries, ColumnRow, ForeignKeyRow, TableRow};
use shika::language::{Language, TypeEntry};
use shika::render::{exclude_keys, project_schema, render_plan, substitute};
use shika::schema::{Column, Database, DatabaseKind, Reference, Table};
use shika::snapshot::{load, save};

fn col(name: &str, kind: &str, pk: bool) -> Column {
    Column {
        name: name.to_string(),
        kind: kind.to_string(),
        is_primary_key: pk,
        optional: false,
        referenced_by: Vec::new(),
        references: None,
    }
}

fn column_row(table: &str, name: &str, kind: &str, pk: bool) -> ColumnRow {
    ColumnRow {
        table: table.to_string(),
        name: name.to_string(),
        kind: kind.to_string(),
        is_primary_key: pk,
        optional: false,
    }
}

fn fk(table: &str, column: &str, target_table: &str, target_column: &str) -> ForeignKeyRow {
    ForeignKeyRow {
        table: table.to_string(),
        column: column.to_string(),
        target_table: target_table.to_string(),
        target_column: target_column.to_string(),
    }
}

fn table_rows(names: &[&str]) -> Vec<TableRow> {
    names.iter().map(|n| TableRow { name: n.to_string() }).collect()
}

fn sample_schema() -> Database {
    // users.id is referenced by orders.user_id and by users.sponsor_id;
    // users.sponsor_id makes the schema self-referential.
    let tables = table_rows(&["users", "orders"]);
    let columns = vec![
        column_row("users", "id", "int4", true),
        column_row("users", "sponsor_id", "int4", false),
        column_row("orders", "id", "int4", true),
        column_row("orders", "user_id", "int4", false),
    ];
    let fks = vec![
        fk("orders", "user_id", "users", "id"),
        fk("users", "sponsor_id", "users", "id"),
    ];
    build_schema(
        DatabaseKind::Postgres,
        "public".to_string(),
        &tables,
        &columns,
        &fks,
        &Vec::new(),
    )
    .unwrap()
}

#[test]
fn round_trip_empty_schema() {
    let db = Database { kind: DatabaseKind::Postgres, name: String::new(), tables: Vec::new() };
    let text = save(&db);
    assert_eq!(text, "P0:0:");
    assert_eq!(load(&text).unwrap(), db);
}

#[test]
fn round_trip_schema_without_links() {
    let db = Database {
        kind: DatabaseKind::MySql,
        name: "shop".to_string(),
        tables: vec![Table {
            name: "users".to_string(),
            columns: vec![col("id", "int4", true), col("email", "varchar", false)],
        }],
    };
    let loaded = load(&save(&db)).unwrap();
    assert_eq!(loaded, db);
}

#[test]
fn round_trip_self_referential_schema() {
    let db = sample_schema();
    let loaded = load(&save(&db)).unwrap();
    assert_eq!(loaded, db);
    assert_eq!(save(&loaded), save(&db));
}

#[test]
fn round_trip_keeps_odd_names() {
    let db = Database {
        kind: DatabaseKind::SqLite,
        name: "we:ird 7:names".to_string(),
        tables: vec![Table {
            name: "42:T".to_string(),
            columns: vec![col("a:b", "text", false)],
        }],
    };
    assert_eq!(load(&save(&db)).unwrap(), db);
}

#[test]
fn round_trip_each_engine_kind() {
    for kind in [
        DatabaseKind::Postgres,
        DatabaseKind::MySql,
        DatabaseKind::MariaDb,
        DatabaseKind::SqLite,
    ] {
        let db = Database { kind, name: "db".to_string(), tables: Vec::new() };
        assert_eq!(load(&save(&db)).unwrap(), db);
    }
}

#[test]
fn load_rejects_malformed_text() {
    assert!(load("").is_err());
    assert!(load("garbage").is_err());
    assert!(load("P0:").is_err());
    let mut text = save(&sample_schema());
    text.push('x');
    assert!(load(&text).is_err());
    let truncated: String = {
        let full = save(&sample_schema());
        full[..full.len() - 1].to_string()
    };
    assert!(load(&truncated).is_err());
}

#[test]
fn extractor_builds_symmetric_references() {
    let db = sample_schema();
    let users = &db.tables[0];
    assert_eq!(users.name, "users");
    let id = &users.columns[0];
    assert_eq!(id.name, "id");
    assert_eq!(id.references, None);
    assert_eq!(
        id.referenced_by,
        vec![
            Reference { table: "orders".to_string(), column: "user_id".to_string() },
            Reference { table: "users".to_string(), column: "sponsor_id".to_string() },
        ]
    );
    let sponsor = &users.columns[1];
    assert_eq!(
        sponsor.references,
        Some(Reference { table: "users".to_string(), column: "id".to_string() })
    );
    let orders = &db.tables[1];
    let user_id = &orders.columns[1];
    assert_eq!(
        user_id.references,
        Some(Reference { table: "users".to_string(), column: "id".to_string() })
    );
    assert!(user_id.referenced_by.is_empty());
}

#[test]
fn extractor_drops_excluded_tables() {
    let tables = table_rows(&["secrets", "users", "migrations"]);
    let columns = vec![
        column_row("secrets", "id", "int4", true),
        column_row("users", "id", "int4", true),
        column_row("migrations", "id", "int4", true),
    ];
    let exclude = vec!["secrets".to_string(), "migrations".to_string()];
    let db = build_schema(
        DatabaseKind::Postgres,
        "public".to_string(),
        &tables,
        &columns,
        &Vec::new(),
        &exclude,
    )
    .unwrap();
    let names: Vec<&str> = db.tables.iter().map(|t| t.name.as_str()).collect();
    assert_eq!(names, vec!["users"]);
}

#[test]
fn extractor_drops_links_to_missing_or_excluded_columns() {
    let tables = table_rows(&["users", "audit"]);
    let columns = vec![
        column_row("users", "id", "int4", true),
        column_row("users", "audit_id", "int4", false),
        column_row("audit", "id", "int4", true),
    ];
    let fks = vec![
        fk("users", "audit_id", "audit", "id"),
        fk("users", "id", "ghosts", "id"),
    ];
    let exclude = vec!["audit".to_string()];
    let db = build_schema(
        DatabaseKind::Postgres,
        "public".to_string(),
        &tables,
        &columns,
        &fks,
        &exclude,
    )
    .unwrap();
    // Both constraint pairs point outside the kept schema, so no link stays.
    let users = &db.tables[0];
    assert_eq!(users.columns[1].references, None);
    assert_eq!(users.columns[0].references, None);
    assert!(users.columns[0].referenced_by.is_empty());
}

#[test]
fn extractor_keeps_first_link_per_source_column() {
    let tables = table_rows(&["a", "b"]);
    let columns = vec![
        column_row("a", "x", "int4", false),
        column_row("b", "id", "int4", true),
        column_row("b", "alt", "int4", false),
    ];
    let fks = vec![fk("a", "x", "b", "id"), fk("a", "x", "b", "alt")];
    let db = build_schema(
        DatabaseKind::Postgres,
        "public".to_string(),
        &tables,
        &columns,
        &fks,
        &Vec::new(),
    )
    .unwrap();
    let a = &db.tables[0];
    assert_eq!(
        a.columns[0].references,
        Some(Reference { table: "b".to_string(), column: "id".to_string() })
    );
    let b = &db.tables[1];
    assert_eq!(
        b.columns[0].referenced_by,
        vec![Reference { table: "a".to_string(), column: "x".to_string() }]
    );
    assert!(b.columns[1].referenced_by.is_empty());
}

#[test]
fn extractor_rejects_duplicate_names() {
    let columns = vec![column_row("users", "id", "int4", true)];
    let dup_tables = table_rows(&["users", "users"]);
    let r = build_schema(
        DatabaseKind::Postgres,
        "public".to_string(),
        &dup_tables,
        &columns,
        &Vec::new(),
        &Vec::new(),
    );
    assert_eq!(r.unwrap_err(), ExtractionError::Query);

    let tables = table_rows(&["users"]);
    let dup_columns = vec![
        column_row("users", "id", "int4", true),
        column_row("users", "id", "text", false),
    ];
    let r = build_schema(
        DatabaseKind::Postgres,
        "public".to_string(),
        &tables,
        &dup_columns,
        &Vec::new(),
        &Vec::new(),
    );
    assert_eq!(r.unwrap_err(), ExtractionError::Query);
}

#[test]
fn catalog_queries_dispatch_by_engine() {
    assert!(catalog_queries(DatabaseKind::Postgres).is_ok());
    assert_eq!(
        catalog_queries(DatabaseKind::MySql).unwrap_err(),
        ExtractionError::UnsupportedEngine
    );
    assert_eq!(
        catalog_queries(DatabaseKind::MariaDb).unwrap_err(),
        ExtractionError::UnsupportedEngine
    );
    assert_eq!(
        catalog_queries(DatabaseKind::SqLite).unwrap_err(),
        ExtractionError::UnsupportedEngine
    );
}

#[test]
fn catalog_queries_carry_the_postgres_texts() {
    let q = catalog_queries(DatabaseKind::Postgres).unwrap();
    assert!(q.table_query.contains("ORDER BY \"table_name\""));
    assert!(q.column_query.contains("ORDER BY C.\"ordinal_position\""));
    assert!(q.reference_query.contains("\"referential_constraints\""));
}

fn sample_language() -> Language {
    Language {
        name: "Rust".to_string(),
        types: vec![
            TypeEntry {
                name: "string".to_string(),
                raw_types: vec!["varchar".to_string(), "text".to_string()],
            },
            TypeEntry { name: "int".to_string(), raw_types: vec!["int4".to_string()] },
        ],
    }
}

#[test]
fn type_resolution_is_deterministic() {
    let lang = sample_language();
    assert_eq!(lang.resolve(&"text".to_string()), "string");
    assert_eq!(lang.resolve(&"varchar".to_string()), "string");
    assert_eq!(lang.resolve(&"int4".to_string()), "int");
    assert_eq!(lang.resolve(&"uuid".to_string()), "uuid");
}

#[test]
fn first_matching_entry_wins() {
    let lang = Language {
        name: "X".to_string(),
        types: vec![
            TypeEntry { name: "first".to_string(), raw_types: vec!["t".to_string()] },
            TypeEntry { name: "second".to_string(), raw_types: vec!["t".to_string()] },
        ],
    };
    assert_eq!(lang.resolve(&"t".to_string()), "first");
}

fn template(single: bool, output: &str) -> TemplateConfig {
    TemplateConfig {
        name: "My Template".to_string(),
        input: "example".to_string(),
        output_dir: "generated".to_string(),
        output: output.to_string(),
        single,
        language: "rust".to_string(),
    }
}

#[test]
fn per_table_plan_substitutes_each_table_name() {
    let db = sample_schema();
    let jobs = render_plan(&template(false, "{table}_model.gen"), &db);
    let paths: Vec<&str> = jobs.iter().map(|j| j.path.as_str()).collect();
    assert_eq!(paths, vec!["generated/users_model.gen", "generated/orders_model.gen"]);
    assert_eq!(jobs[0].table, Some(0));
    assert_eq!(jobs[1].table, Some(1));
}

#[test]
fn per_table_plan_on_empty_schema_produces_no_files() {
    let db = Database { kind: DatabaseKind::Postgres, name: "public".to_string(), tables: Vec::new() };
    let jobs = render_plan(&template(false, "{table}_model.gen"), &db);
    assert!(jobs.is_empty());
}

#[test]
fn single_plan_leaves_placeholder_untouched() {
    let db = sample_schema();
    let jobs = render_plan(&template(true, "schema_{table}.gen"), &db);
    assert_eq!(jobs.len(), 1);
    assert_eq!(jobs[0].path, "generated/schema_{table}.gen");
    assert_eq!(jobs[0].table, None);
    assert_eq!(jobs[0].input, "example");
}

#[test]
fn substitute_replaces_every_occurrence() {
    assert_eq!(substitute("{table}/{table}.rs", "users"), "users/users.rs");
    assert_eq!(substitute("model.rs", "users"), "model.rs");
    assert_eq!(substitute("{table", "users"), "{table");
    assert_eq!(substitute("{{table}}", "users"), "{users}");
}

#[test]
fn projection_rewrites_types_and_keeps_the_original() {
    let db = Database {
        kind: DatabaseKind::Postgres,
        name: "public".to_string(),
        tables: vec![Table {
            name: "users".to_string(),
            columns: vec![col("id", "int4", true), col("bio", "uuid", false)],
        }],
    };
    let lang = sample_language();
    let projected = project_schema(&db, &lang);
    assert_eq!(projected.tables[0].columns[0].kind, "int");
    assert_eq!(projected.tables[0].columns[1].kind, "uuid");
    // The input schema is untouched, ready for the next template.
    assert_eq!(db.tables[0].columns[0].kind, "int4");
    assert_eq!(projected.tables[0].name, "users");
}

#[test]
fn exclude_keys_drops_primary_keys_in_order() {
    let columns = vec![col("id", "int4", true), col("email", "varchar", false)];
    let filtered = exclude_keys(&columns);
    assert_eq!(filtered.len(), 1);
    assert_eq!(filtered[0].name, "email");
    assert!(!filtered[0].is_primary_key);
}

#[test]
fn exclude_keys_keeps_relative_order() {
    let columns = vec![
        col("a", "t", false),
        col("k1", "t", true),
        col("b", "t", false),
        col("k2", "t", true),
        col("c", "t", false),
    ];
    let names: Vec<String> = exclude_keys(&columns).into_iter().map(|c| c.name).collect();
    assert_eq!(names, vec!["a", "b", "c"]);
}

#[test]
fn config_normalization_defaults_exclusions_to_empty() {
    let d = DeserializedConfig {
        database: DeserializedDatabaseConfig {
            kind: DatabaseKind::Postgres,
            env_key: None,
            exclude_tables: None,
        },
        templates: vec![template(true, "example.rs")],
    };
    let c = Config::from_deserialized(d);
    assert!(c.database.exclude_tables.is_empty());
    assert_eq!(c.database.env_key, "DATABASE_URL");
    assert_eq!(c.templates.len(), 1);

    let d = DeserializedConfig {
        database: DeserializedDatabaseConfig {
            kind: DatabaseKind::MariaDb,
            env_key: Some("PROD_DSN".to_string()),
            exclude_tables: Some(vec!["secrets".to_string()]),
        },
        templates: Vec::new(),
    };
    let c = Config::from_deserialized(d);
    assert_eq!(c.database.exclude_tables, vec!["secrets".to_string()]);
    assert_eq!(c.database, DatabaseConfig {
        kind: DatabaseKind::MariaDb,
        env_key: "PROD_DSN".to_string(),
        exclude_tables: vec!["secrets".to_string()],
    });
}

#[test]
fn cloned_schema_is_equal() {
    let db = sample_schema();
    let copy = db.clone();
    assert_eq!(copy, db);
}
