//! End-to-end checks of the type mapper, the serializer, the parser, and the
//! round trip between them.

use mysql_translate::database::Database;
use mysql_translate::session::Session;
use mysql_translate::sql::{Description, ForeignKeyInformation, Table, TableKeys, group_unique_constraints};
use mysql_translate::translators::error::ParseError;
use mysql_translate::translators::json_translator::{JsonTranslator, json_escape};
use mysql_translate::structure::AcceptedFormat;
use mysql_translate::translators::field::Field;
use mysql_translate::translators::model::Model;
use mysql_translate::translators::prisma_translator::PrismaTranslator;
use mysql_translate::translators::relation::Relation;
use mysql_translate::translators::schema::PrismaSchema;
use mysql_translate::translators::unique_flag::UniqueFlag;

fn desc(field: &str, type_: &str, null: &str, key: &str, default: Option<&str>, extra: &str) -> Description {
    Description {
        field: field.to_string(),
        type_: type_.to_string(),
        null: null.to_string(),
        key: key.to_string(),
        default: default.map(|d| d.to_string()),
        extra: extra.to_string(),
    }
}

fn users_table() -> Table {
    Table {
        name: "users".to_string(),
        description: vec![
            desc("id", "int", "NO", "PRI", None, "auto_increment"),
            desc("email", "varchar(191)", "NO", "UNI", None, ""),
            desc("created_at", "timestamp", "YES", "", Some("CURRENT_TIMESTAMP"), ""),
        ],
        keys: TableKeys { keys: vec![] },
    }
}

#[test]
fn type_mapping_table() {
    let f = Field::new();
    assert_eq!(f.get_field_type_from_db_type("tinyint(1)"), "Boolean?");
    let mut req = Field::new();
    req.set_is_required(true);
    assert_eq!(req.get_field_type_from_db_type("tinyint(1)"), "Boolean");
    assert_eq!(req.get_field_type_from_db_type("varchar(191)"), "String");
    assert_eq!(req.get_field_type_from_db_type("int unsigned"), "Int");
    assert_eq!(req.get_field_type_from_db_type("bigint"), "Int");
    assert_eq!(req.get_field_type_from_db_type("decimal(10,2)"), "Decimal");
    assert_eq!(req.get_field_type_from_db_type("datetime"), "DateTime");
}

#[test]
fn db_annotation_table() {
    let mut f = Field::new();
    f.set_db_type_annotation("varchar(191)".to_string());
    assert_eq!(f.format_db_annotation(), Some("@db.VarChar(191)".to_string()));
    f.set_db_type_annotation("int unsigned".to_string());
    assert_eq!(f.format_db_annotation(), Some("@db.UnsignedInt".to_string()));
    f.set_db_type_annotation("mediumtext".to_string());
    assert_eq!(f.format_db_annotation(), Some("@db.MediumText".to_string()));
    f.set_db_type_annotation("timestamp".to_string());
    assert_eq!(f.format_db_annotation(), Some("@db.Timestamp".to_string()));
    f.set_db_type_annotation("enum('a','b')".to_string());
    assert_eq!(f.format_db_annotation(), None);
}

#[test]
fn current_timestamp_default_becomes_now() {
    let d = desc("created_at", "timestamp", "YES", "", Some("CURRENT_TIMESTAMP"), "");
    let f = Field::from_description(&d);
    assert_eq!(f.default, Some("now()".to_string()));
    assert_eq!(f.field_type, "DateTime?");
}

#[test]
fn users_model_lines() {
    let model = Model::from_table(&users_table());
    // widths are one past the longest name and type
    assert_eq!(model.name_column_width, "created_at".len() + 1);
    assert_eq!(model.field_type_column_width, "DateTime?".len() + 1);
    let text = model.as_text();
    let lines: Vec<&str> = text.lines().collect();
    assert_eq!(lines[0], "model users {");
    assert_eq!(lines[1], "  id          Int        @id @unique @db.Int");
    assert_eq!(lines[2], "  email       String     @unique @db.VarChar(191)");
    assert_eq!(lines[3], "  created_at  DateTime?  @default(now()) @db.Timestamp");
    assert_eq!(lines[4], "}");
}

#[test]
fn attribute_columns_align() {
    let model = Model::from_table(&users_table());
    let text = model.as_text();
    let col = 2 + model.name_column_width + 1 + model.field_type_column_width + 1;
    for line in text.lines() {
        if let Some(at) = line.find('@') {
            assert_eq!(at, col);
        }
    }
}

#[test]
fn composite_primary_key_uses_block_directive() {
    let t = Table {
        name: "pairs".to_string(),
        description: vec![
            desc("a", "int", "NO", "PRI", None, ""),
            desc("b", "int", "NO", "PRI", None, ""),
        ],
        keys: TableKeys { keys: vec![] },
    };
    let model = Model::from_table(&t);
    let text = model.as_text();
    assert!(!text.contains("@id "));
    assert_eq!(text.matches("@@id").count(), 1);
    assert!(text.contains("  @@id([a, b])"));
}

#[test]
fn relation_round_trips_byte_identically() {
    let rendered = "@relation(fields: [userId], references: [id], onDelete: Cascade)";
    // the field tokenizer hands the relation parser a buffer without the
    // spaces after the key colons
    let normalized = "@relation(fields:[userId], references:[id], onDelete:Cascade)";
    let rel = Relation::from_string(normalized).expect("relation to parse");
    assert_eq!(rel.as_text(), rendered);
}

#[test]
fn unknown_relation_key_aborts() {
    let r = Relation::from_string("@relation(banana:[x])");
    assert_eq!(r, Err(ParseError::UnknownRelationKey));
    let r2 = Relation::from_string("@relation(fields:x)");
    assert_eq!(r2, Err(ParseError::MalformedRelation));
}

#[test]
fn unique_flag_forms() {
    let bare = UniqueFlag::from_string("@unique").expect("bare unique");
    assert_eq!(bare.map, None);
    let mapped = UniqueFlag::from_string("@unique(map: \"users_email_key\")").expect("mapped");
    assert_eq!(mapped.map, Some("users_email_key".to_string()));
    assert_eq!(mapped.as_text(), "@unique(map: \"users_email_key\")");
}

#[test]
fn schema_round_trips_through_parse() {
    let schema = PrismaSchema::from_tables(&vec![users_table()]);
    let text = schema.as_text();
    let translator = PrismaTranslator {
        path: "unused".to_string(),
        disk_schema: None,
        db_schema: None,
    };
    // the text round-trips exactly, and a parsed schema is a fixed point of
    // parse-then-serialize
    let parsed = translator.parse_from_disk(&text).expect("schema to parse");
    assert_eq!(parsed.as_text(), text);
    let reparsed = translator.parse_from_disk(&parsed.as_text()).expect("schema to reparse");
    assert_eq!(reparsed, parsed);
}

#[test]
fn loading_twice_keeps_first_schema() {
    let schema_a = PrismaSchema::from_tables(&vec![users_table()]).as_text();
    let schema_b = PrismaSchema::from_tables(&vec![Table {
        name: "other".to_string(),
        description: vec![desc("x", "int", "NO", "", None, "")],
        keys: TableKeys { keys: vec![] },
    }]).as_text();
    let mut translator = PrismaTranslator {
        path: "unused".to_string(),
        disk_schema: None,
        db_schema: None,
    };
    translator.load_from_disk(&schema_a).expect("first load");
    let first = translator.disk_schema.as_ref().unwrap().as_text();
    translator.load_from_disk(&schema_b).expect("second load");
    let second = translator.disk_schema.as_ref().unwrap().as_text();
    assert_eq!(first, second);
    assert_eq!(first, schema_a);
}

#[test]
fn json_rendering() {
    let translator = JsonTranslator { path: "unused".to_string(), json: None };
    let t = Table {
        name: "users".to_string(),
        description: vec![desc("id", "int", "NO", "PRI", None, "auto_increment")],
        keys: TableKeys { keys: vec![] },
    };
    let text = translator.get_translation(&vec![t]);
    assert!(text.contains("\"tables\""));
    assert!(text.contains("\"users\""));
    assert!(text.contains("\"id\": \"int PRI NOT NULL AUTO_INCREMENT\""));
}

#[test]
fn format_tags() {
    assert_eq!(AcceptedFormat::from_string("json"), Some(AcceptedFormat::Json));
    assert_eq!(AcceptedFormat::from_string("prisma"), Some(AcceptedFormat::Prisma));
    assert_eq!(AcceptedFormat::from_string("yaml"), None);
    assert_eq!(AcceptedFormat::Json.as_string(), "json");
    assert_eq!(AcceptedFormat::all_as_string_array(), vec!["json", "prisma"]);
}

#[test]
fn grouping_collapses_composite_constraints() {
    let row = |name: &str, col: &str| ForeignKeyInformation {
        constraint_name: Some(name.to_string()),
        constraint_type: Some("UNIQUE".to_string()),
        column_name: Some(col.to_string()),
        ordinal_position: None,
        referenced_table_name: None,
        referenced_column_name: None,
        index_name: None,
        seq_in_index: None,
        cardinality: None,
        index_type: None,
    };
    let groups = group_unique_constraints(&vec![row("u1", "a"), row("u1", "b"), row("u2", "c")]);
    assert_eq!(groups.len(), 2);
    assert_eq!(groups[0].constraint_name, "u1");
    assert_eq!(groups[0].column_names, vec!["a", "b"]);
    assert_eq!(groups[1].column_names, vec!["c"]);
}

#[test]
fn bad_generator_block_is_a_hard_error() {
    let translator = PrismaTranslator {
        path: "unused".to_string(),
        disk_schema: None,
        db_schema: None,
    };
    let r = translator.parse_from_disk("generator client {\n}\n");
    assert_eq!(r.unwrap_err(), ParseError::MalformedGenerator);
    let no_ds = "generator client {\n  provider = \"prisma-client-js\"\n}\ndatasource db x\n";
    let r2 = translator.parse_from_disk(no_ds);
    assert_eq!(r2.unwrap_err(), ParseError::MalformedDatasource);
}

#[test]
fn unbalanced_field_line_is_dropped() {
    let r = Field::parse_from_disk("broken Int @default(now(");
    assert_eq!(r, Ok(None));
    let brace = Field::parse_from_disk("}");
    assert_eq!(brace, Ok(None));
}

#[test]
fn composite_id_directive_round_trips() {
    let t = Table {
        name: "pairs".to_string(),
        description: vec![
            desc("a", "int", "NO", "PRI", None, ""),
            desc("b", "int", "NO", "PRI", None, ""),
        ],
        keys: TableKeys { keys: vec![] },
    };
    let schema = PrismaSchema::from_tables(&vec![t]);
    let text = schema.as_text();
    let translator = PrismaTranslator {
        path: "unused".to_string(),
        disk_schema: None,
        db_schema: None,
    };
    let parsed = translator.parse_from_disk(&text).expect("schema to parse");
    assert_eq!(parsed.models[0].directives, vec!["  @@id([a, b])".to_string()]);
    assert_eq!(parsed.as_text(), text);
}

#[test]
fn sort_orders_databases_by_name() {
    let mut session = Session::new_bare_session(&"reg.json".to_string()).unwrap();
    for (name, url) in [("zeta", "mysql://z"), ("alpha", "mysql://a"), ("mid", "mysql://m")] {
        session.add_database(Database {
            name: name.to_string(),
            db_url: url.to_string(),
            disk_mappings: vec![],
        });
    }
    session.sort();
    let names: Vec<&str> = session.databases.iter().map(|d| d.name.as_str()).collect();
    assert_eq!(names, vec!["alpha", "mid", "zeta"]);
}

#[test]
fn registry_entries_deduplicate_by_url() {
    let entries = vec![
        Database {
            name: "first".to_string(),
            db_url: "mysql://u@localhost/one".to_string(),
            disk_mappings: vec![],
        },
        Database {
            name: "second".to_string(),
            db_url: "mysql://u@localhost/two".to_string(),
            disk_mappings: vec![],
        },
        Database {
            name: "shadow".to_string(),
            db_url: "mysql://u@localhost/one".to_string(),
            disk_mappings: vec![],
        },
    ];
    let session = Session::new(&"reg.json".to_string(), entries).expect("session to exist");
    let names: Vec<&str> = session.databases.iter().map(|d| d.name.as_str()).collect();
    assert_eq!(names, vec!["first", "second"]);
}

#[test]
fn sort_is_stable_for_equal_names() {
    let mut session = Session::new_bare_session(&"reg.json".to_string()).unwrap();
    for (name, url) in [
        ("same", "mysql://u@localhost/1"),
        ("aaa", "mysql://u@localhost/2"),
        ("same", "mysql://u@localhost/3"),
    ] {
        session.add_database(Database {
            name: name.to_string(),
            db_url: url.to_string(),
            disk_mappings: vec![],
        });
    }
    session.sort();
    let pairs: Vec<(&str, &str)> = session
        .databases
        .iter()
        .map(|d| (d.name.as_str(), d.db_url.as_str()))
        .collect();
    assert_eq!(
        pairs,
        vec![
            ("aaa", "mysql://u@localhost/2"),
            ("same", "mysql://u@localhost/1"),
            ("same", "mysql://u@localhost/3"),
        ]
    );
}

#[test]
fn json_escaping_covers_control_characters() {
    assert_eq!(json_escape("plain"), "plain");
    assert_eq!(json_escape("a\"b"), "a\\\"b");
    assert_eq!(json_escape("a\\b"), "a\\\\b");
    assert_eq!(json_escape("a\nb\tc\rd"), "a\\nb\\tc\\rd");
    assert_eq!(json_escape("a\u{1}b\u{1f}c"), "a\\u0001b\\u001fc");
}

#[test]
fn session_add_database_is_idempotent_per_url() {
    let mut session = Session::new_bare_session(&"reg.json".to_string()).unwrap();
    let db = Database {
        name: "one".to_string(),
        db_url: "mysql://u@localhost/one".to_string(),
        disk_mappings: vec![],
    };
    assert!(session.add_database(db));
    let dup = Database {
        name: "two".to_string(),
        db_url: "mysql://u@localhost/one".to_string(),
        disk_mappings: vec![],
    };
    assert!(!session.add_database(dup));
    assert_eq!(session.databases.len(), 1);
}
