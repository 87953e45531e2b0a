use config::json::{from_json_value, parse, Json};
use config::error::ConfigError;
use config::value::{ConfigValue, Table, ValueKind};

fn origin() -> Option<String> {
    Some("file.json".to_string())
}

fn val(kind: ValueKind) -> ConfigValue {
    ConfigValue { origin: origin(), kind }
}

#[test]
fn parse_object_document_mirrors_structure() {
    let uri = "file.json".to_string();
    let text = "{\"a\":1,\"b\":1.5,\"c\":\"x\",\"d\":[true,null],\"e\":{\"f\":2}}";
    let table = parse(Some(&uri), text).unwrap();
    let expected = Table::from_entries(vec![
        ("a".to_string(), val(ValueKind::Integer(1))),
        ("b".to_string(), val(ValueKind::Float(1.5f64.to_bits()))),
        ("c".to_string(), val(ValueKind::Text("x".to_string()))),
        (
            "d".to_string(),
            val(ValueKind::Array(vec![
                val(ValueKind::Boolean(true)),
                val(ValueKind::Nil),
            ])),
        ),
        (
            "e".to_string(),
            val(ValueKind::Table(Table::from_entries(vec![(
                "f".to_string(),
                val(ValueKind::Integer(2)),
            )]))),
        ),
    ]);
    assert_eq!(table, expected);
}

#[test]
fn whole_number_is_integer_fractional_is_float() {
    let table = parse(None, "{\"a\":1,\"b\":1.5}").unwrap();
    let none: Option<String> = None;
    assert_eq!(
        *table.entry_at(0),
        (
            "a".to_string(),
            ConfigValue { origin: none.clone(), kind: ValueKind::Integer(1) }
        )
    );
    assert_eq!(
        *table.entry_at(1),
        (
            "b".to_string(),
            ConfigValue { origin: none, kind: ValueKind::Float(1.5f64.to_bits()) }
        )
    );
}

#[test]
fn whole_float_literal_stays_float() {
    let table = parse(None, "{\"x\":1.0}").unwrap();
    assert_eq!(table.entry_at(0).1.kind, ValueKind::Float(1.0f64.to_bits()));
}

#[test]
fn exponent_literal_is_float() {
    let table = parse(None, "{\"x\":1e2}").unwrap();
    assert_eq!(table.entry_at(0).1.kind, ValueKind::Float(100.0f64.to_bits()));
}

#[test]
fn negative_whole_number_is_integer() {
    let table = parse(None, "{\"n\":-3}").unwrap();
    assert_eq!(table.entry_at(0).1.kind, ValueKind::Integer(-3));
}

#[test]
fn number_beyond_i64_is_float() {
    let table = parse(None, "{\"big\":18446744073709551615}").unwrap();
    assert_eq!(
        table.entry_at(0).1.kind,
        ValueKind::Float((18446744073709551615u64 as f64).to_bits())
    );
}

#[test]
fn array_root_yields_empty_table() {
    let table = parse(None, "[1,2,3]").unwrap();
    assert_eq!(table.len(), 0);
}

#[test]
fn string_root_yields_empty_table() {
    let table = parse(None, "\"hello\"").unwrap();
    assert_eq!(table.len(), 0);
}

#[test]
fn number_root_yields_empty_table() {
    let table = parse(None, "42").unwrap();
    assert_eq!(table.len(), 0);
}

#[test]
fn malformed_text_is_parse_error() {
    let r = parse(None, "{nope");
    assert!(matches!(r, Err(ConfigError::Parse(_))));
}

#[test]
fn parse_failure_is_deterministic() {
    // The whole result, diagnostic included, is a function of the text.
    let a = parse(None, "{nope");
    let b = parse(None, "{nope");
    assert!(matches!(a, Err(ConfigError::Parse(_))));
    assert_eq!(a, b);
}

#[test]
fn conversion_tags_every_node_with_origin() {
    let uri = "here".to_string();
    let table = parse(Some(&uri), "{\"a\":{\"b\":[null]}}").unwrap();
    let a = &table.entry_at(0).1;
    assert_eq!(a.origin, Some("here".to_string()));
    match &a.kind {
        ValueKind::Table(inner) => {
            let b = &inner.entry_at(0).1;
            assert_eq!(b.origin, Some("here".to_string()));
            match &b.kind {
                ValueKind::Array(items) => {
                    assert_eq!(items[0].origin, Some("here".to_string()));
                    assert_eq!(items[0].kind, ValueKind::Nil);
                }
                other => panic!("expected array, got {:?}", other),
            }
        }
        other => panic!("expected table, got {:?}", other),
    }
}

#[test]
fn repeated_keys_collapse_to_one_entry() {
    // The underlying parser keeps one member per key, so the table keeps
    // its unique-key invariant even for such input.
    let table = parse(None, "{\"a\":1,\"a\":2}").unwrap();
    assert_eq!(table.len(), 1);
    assert_eq!(table.get("a").unwrap().kind, ValueKind::Integer(2));
}

#[test]
fn table_lookup_by_key() {
    let table = parse(None, "{\"a\":1,\"b\":true}").unwrap();
    assert_eq!(table.get("a").unwrap().kind, ValueKind::Integer(1));
    assert_eq!(table.get("b").unwrap().kind, ValueKind::Boolean(true));
    assert!(table.get("missing").is_none());
}

#[test]
fn from_json_value_disambiguates_numbers() {
    let none: Option<String> = None;
    let n = from_json_value(&none, &Json::Num { whole: Some(5), bits: 0 });
    assert_eq!(n.kind, ValueKind::Integer(5));
    let f = from_json_value(&none, &Json::Num { whole: None, bits: 2.5f64.to_bits() });
    assert_eq!(f.kind, ValueKind::Float(2.5f64.to_bits()));
}
