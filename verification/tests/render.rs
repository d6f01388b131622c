use ross_db::fields::{
    CommonFieldOptions, CommonTableOptions, Field, IntoSql, Pg, TableDefn, TableField, TableKind,
};
use ross_db::sink::{BoundedSink, RenderError};
use ross_db::Foo;

fn render<T: IntoSql<Pg>>(entity: &T) -> (String, usize) {
    entity.into_sql_str().unwrap()
}

fn field(name: &str, kind: Field, primary_key: bool, unique: bool, null: Option<bool>) -> TableField {
    TableField {
        options: CommonFieldOptions {
            name: name.to_string(),
            primary_key,
            unique,
            null,
        },
        kind,
    }
}

fn posts_table() -> TableDefn {
    TableDefn {
        options: CommonTableOptions {
            name: "posts".to_string(),
            if_not_exists: true,
            kind: Some(TableKind::Global),
        },
        fields: vec![
            field("id", Field::Serial, true, false, None),
            field("title", Field::Char { max_length: 10 }, false, false, Some(false)),
            field("body", Field::Text, false, false, Some(false)),
            field("published", Field::Boolean, false, false, Some(false)),
        ],
    }
}

#[test]
fn table() {
    let posts = posts_table();
    let (observed, _) = posts.into_sql_str().unwrap();
    let expected = "CREATE GLOBAL posts IF NOT EXISTS (\n\tid SERIAL PRIMARY KEY ,\n\ttitle CHAR(10) NOT NULL ,\n\tbody TEXT NOT NULL ,\n\tpublished BOOLEAN NOT NULL \n)";
    assert_eq!(observed, expected);
}

#[test]
fn test_foo_generate_table() {
    let f = Foo { a: "aa".to_string() };
    let _ = f;
}

#[test]
fn rendering_is_deterministic() {
    let table = posts_table();
    let (first, n1) = render(&table);
    let (second, n2) = render(&table);
    assert_eq!(first, second);
    assert_eq!(n1, n2);
}

#[test]
fn null_unspecified_omits_clause() {
    let f = field("flag", Field::Boolean, false, false, None);
    let (clause, _) = render(&f);
    assert_eq!(clause.matches("NULL").count(), 0);
    assert_eq!(clause, "flag BOOLEAN ");
}

#[test]
fn null_true_single_token() {
    let f = field("flag", Field::Boolean, false, false, Some(true));
    let (clause, _) = render(&f);
    assert_eq!(clause.matches("NULL").count(), 1);
    assert_eq!(clause.matches("NOT NULL").count(), 0);
    assert_eq!(clause, "flag BOOLEAN NULL ");
}

#[test]
fn null_false_single_token() {
    let f = field("flag", Field::Boolean, false, false, Some(false));
    let (clause, _) = render(&f);
    assert_eq!(clause.matches("NOT NULL").count(), 1);
    assert_eq!(clause, "flag BOOLEAN NOT NULL ");
}

#[test]
fn separator_count_between_fields() {
    let table = posts_table();
    let (statement, _) = render(&table);
    assert_eq!(statement.matches(",\n\t").count(), table.fields.len() - 1);
    assert!(!statement.contains(",\n\t\n)"));
    assert!(statement.ends_with("BOOLEAN NOT NULL \n)"));
}

#[test]
fn kind_none_omitted() {
    let table = TableDefn {
        options: CommonTableOptions {
            name: "posts".to_string(),
            if_not_exists: false,
            kind: None,
        },
        fields: vec![field("id", Field::Serial, true, false, None)],
    };
    let (statement, _) = render(&table);
    assert!(statement.starts_with("CREATE posts ("));
    assert_eq!(statement, "CREATE posts (\n\tid SERIAL PRIMARY KEY \n)");
}

#[test]
fn local_kind_renders_uppercase() {
    let (tag, n) = render(&TableKind::Local);
    assert_eq!(tag, "LOCAL");
    assert_eq!(n, 5);
}

#[test]
fn byte_count_matches_text_len() {
    let table = posts_table();
    let (statement, count) = render(&table);
    assert_eq!(count, statement.len());

    let f = field("title", Field::Char { max_length: 10 }, false, true, Some(true));
    let (clause, count) = render(&f);
    assert_eq!(count, clause.len());
}

#[test]
fn single_field_no_comma() {
    let table = TableDefn {
        options: CommonTableOptions {
            name: "notes".to_string(),
            if_not_exists: false,
            kind: None,
        },
        fields: vec![field("text", Field::Text, false, false, None)],
    };
    let (statement, _) = render(&table);
    assert_eq!(statement.matches(',').count(), 0);
    assert_eq!(statement, "CREATE notes (\n\ttext TEXT \n)");
}

#[test]
fn fixed_bit_one() {
    let (token, n) = render(&Field::Bit { length: 1 });
    assert_eq!(token, "BIT(1)");
    assert_eq!(n, 6);
}

#[test]
fn type_tokens_are_canonical() {
    assert_eq!(render(&Field::VarChar).0, "VARCHAR");
    assert_eq!(render(&Field::Text).0, "TEXT");
    assert_eq!(render(&Field::Serial).0, "SERIAL");
    assert_eq!(render(&Field::BigInt).0, "BIGINT");
    assert_eq!(render(&Field::BigSerial).0, "BIGSERIAL");
    assert_eq!(render(&Field::Boolean).0, "BOOLEAN");
    assert_eq!(render(&Field::Char { max_length: 120 }).0, "CHAR(120)");
}

#[test]
fn zero_widths_render_literally() {
    assert_eq!(render(&Field::Char { max_length: 0 }).0, "CHAR(0)");
    assert_eq!(render(&Field::Bit { length: 0 }).0, "BIT(0)");
}

#[test]
fn unique_and_primary_key_clauses() {
    let f = field("id", Field::BigSerial, true, true, Some(false));
    let (clause, _) = render(&f);
    assert_eq!(clause, "id BIGSERIAL NOT NULL PRIMARY KEY UNIQUE ");
}

#[test]
fn empty_table_body() {
    let table = TableDefn {
        options: CommonTableOptions {
            name: "bare".to_string(),
            if_not_exists: false,
            kind: None,
        },
        fields: vec![],
    };
    let (statement, _) = render(&table);
    assert_eq!(statement, "CREATE bare (\n\t\n)");
}

#[test]
fn render_into_vec_sink() {
    let mut sink: Vec<u8> = Vec::new();
    let n = Field::Boolean.into_sql(&mut sink).unwrap();
    assert_eq!(n, 7);
    assert_eq!(sink, b"BOOLEAN".to_vec());
}

#[test]
fn bounded_sink_rejects_overflow() {
    let mut sink = BoundedSink::new(4);
    let err = posts_table().into_sql(&mut sink).unwrap_err();
    assert_eq!(err, RenderError::SinkWrite);

    let mut roomy = BoundedSink::new(4096);
    let n = posts_table().into_sql(&mut roomy).unwrap();
    let bytes = roomy.into_bytes();
    assert_eq!(n, bytes.len());
}

#[test]
fn sink_failure_keeps_partial_prefix() {
    let mut sink = BoundedSink::new(8);
    assert!(posts_table().into_sql(&mut sink).is_err());
    let bytes = sink.into_bytes();
    assert_eq!(bytes, b"CREATE ".to_vec());
}

#[test]
fn string_token_renders_uppercase() {
    let token = "global".to_string();
    let (text, n) = render(&token);
    assert_eq!(text, "GLOBAL");
    assert_eq!(n, 6);
}
