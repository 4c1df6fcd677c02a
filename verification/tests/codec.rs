use invman::notation::{
    typed_entry_from_raw, InvManDbHelper, InvManNotationHelper, InvManNotationHelperVec,
    InvManSerialization, InvManToSql, KeyValueCollection, KeyValueTypeEntry,
    SchemaDeclarationVerify,
};
use invman::schema::{ColumnType, SchemaAlterArgs, SchemaCollection, SchemaDeclaration};
use invman::text::{parse_decimal, parse_i64, split_at_char, u32_to_string, u64_to_string};
use invman::InvManError;

fn decl(
    name: &str,
    column_type: ColumnType,
    max_length: Option<u32>,
    min_length: Option<u32>,
    max: Option<u32>,
    min: Option<u32>,
) -> SchemaDeclaration {
    SchemaDeclaration::new(&SchemaAlterArgs {
        name: name.to_string(),
        display_name: None,
        unique: false,
        max_length,
        min_length,
        max,
        min,
        nullable: None,
        column_type,
        default: None,
        hint: None,
        layout: None,
    })
    .unwrap()
}

#[test]
fn int_value_within_bounds_is_accepted() {
    let decls = vec![decl("qty", ColumnType::INT, None, None, Some(100), Some(0))];
    let r = "qty=5".to_string().check_against_declaration(&decls).unwrap();
    assert_eq!(r.0, "qty");
    assert_eq!(r.1, "5");
}

#[test]
fn int_value_above_max_is_rejected() {
    let decls = vec![decl("qty", ColumnType::INT, None, None, Some(100), Some(0))];
    let r = "qty=200".to_string().check_against_declaration(&decls);
    assert!(matches!(r, Err(InvManError::Validation(_))));
}

#[test]
fn int_value_below_positive_min_is_rejected() {
    let decls = vec![decl("qty", ColumnType::INT, None, None, Some(100), Some(10))];
    let r = "qty=5".to_string().check_against_declaration(&decls);
    assert!(matches!(r, Err(InvManError::Validation(_))));
}

#[test]
fn int_without_configured_bounds_accepts_any_i64() {
    let decls = vec![decl("qty", ColumnType::INT, None, None, None, None)];
    assert!("qty=-9223372036854775808".to_string().check_against_declaration(&decls).is_ok());
    assert!("qty=+42".to_string().check_against_declaration(&decls).is_ok());
    assert!("qty=007".to_string().check_against_declaration(&decls).is_ok());
    assert!("qty=9223372036854775808".to_string().check_against_declaration(&decls).is_err());
    assert!("qty=5x".to_string().check_against_declaration(&decls).is_err());
}

#[test]
fn varchar_value_over_max_length_is_rejected() {
    let decls = vec![decl("sku", ColumnType::VARCHAR, Some(10), None, None, None)];
    let r = "sku=ABCDEFGHIJK".to_string().check_against_declaration(&decls);
    assert!(matches!(r, Err(InvManError::Validation(_))));
}

#[test]
fn varchar_value_within_length_is_quoted() {
    let decls = vec![decl("sku", ColumnType::VARCHAR, Some(10), None, None, None)];
    let r = "sku=ABC".to_string().check_against_declaration(&decls).unwrap();
    assert_eq!(r.1, "\"ABC\"");
}

#[test]
fn text_value_below_min_length_is_rejected() {
    let decls = vec![decl("note", ColumnType::TEXT, Some(20), Some(3), None, None)];
    assert!("note=ab".to_string().check_against_declaration(&decls).is_err());
    assert!("note=abc".to_string().check_against_declaration(&decls).is_ok());
}

#[test]
fn bool_literals_are_normalized() {
    let decls = vec![decl("flag", ColumnType::BOOL, None, None, None, None)];
    let r = "flag=TRUE".to_string().check_against_declaration(&decls).unwrap();
    assert_eq!(r.1, "true");
    let r = "flag=False".to_string().check_against_declaration(&decls).unwrap();
    assert_eq!(r.1, "false");
    assert!("flag=1".to_string().check_against_declaration(&decls).is_err());
}

#[test]
fn real_bounds_are_exact() {
    let decls = vec![decl("price", ColumnType::REAL, None, None, Some(5), Some(0))];
    assert!("price=4.99".to_string().check_against_declaration(&decls).is_ok());
    assert!("price=5.0".to_string().check_against_declaration(&decls).is_ok());
    assert!("price=5.01".to_string().check_against_declaration(&decls).is_err());
    assert!("price=-0.5".to_string().check_against_declaration(&decls).is_err());
    assert!("price=abc".to_string().check_against_declaration(&decls).is_err());
}

#[test]
fn unknown_field_and_missing_separator_are_rejected() {
    let decls = vec![decl("qty", ColumnType::INT, None, None, None, None)];
    assert!(matches!(
        "other=5".to_string().check_against_declaration(&decls),
        Err(InvManError::Validation(_))
    ));
    assert!(matches!(
        "qty5".to_string().check_against_declaration(&decls),
        Err(InvManError::Validation(_))
    ));
}

#[test]
fn notation_entry_takes_declared_type() {
    let schema = SchemaCollection::new(vec![decl("qty", ColumnType::INT, None, None, None, None)]);
    let e = "qty=5".to_string().to_typed_key_value_entry(&schema).unwrap();
    assert_eq!(e.key(), "qty");
    assert_eq!(e.value().clone(), Some("5".to_string()));
    assert!(matches!(e.column_type(), ColumnType::INT));
    assert!("other=1".to_string().to_typed_key_value_entry(&schema).is_err());
    assert!("qty5".to_string().to_typed_key_value_entry(&schema).is_err());
}

#[test]
fn notation_vec_collects_in_order() {
    let schema = SchemaCollection::new(vec![
        decl("qty", ColumnType::INT, None, None, None, None),
        decl("name", ColumnType::TEXT, None, None, None, None),
    ]);
    let c = vec!["name=box".to_string(), "qty=2".to_string()]
        .to_key_value_collection(&schema)
        .unwrap();
    assert_eq!(c.collection.len(), 2);
    assert_eq!(c.sql_names(), "name,qty");
    assert_eq!(c.sql_values(), vec![Some("box".to_string()), Some("2".to_string())]);
    assert!(vec!["name=box".to_string(), "bad".to_string()]
        .to_key_value_collection(&schema)
        .is_err());
}

#[test]
fn json_notation_follows_the_declared_type() {
    let quoted = KeyValueTypeEntry::new("name".to_string(), Some("box".to_string()), ColumnType::TEXT);
    assert_eq!(quoted.to_json_notation(), "\"name\":\"box\"");
    let bool_true = KeyValueTypeEntry::new("f".to_string(), Some("1".to_string()), ColumnType::BOOL);
    assert_eq!(bool_true.to_json_notation(), "\"f\":true");
    let bool_false = KeyValueTypeEntry::new("f".to_string(), Some("no".to_string()), ColumnType::BOOL);
    assert_eq!(bool_false.to_json_notation(), "\"f\":false");
    let number = KeyValueTypeEntry::new("qty".to_string(), Some("5".to_string()), ColumnType::INT);
    assert_eq!(number.to_json_notation(), "\"qty\":5");
    let absent = KeyValueTypeEntry::new("qty".to_string(), None, ColumnType::INT);
    assert_eq!(absent.to_json_notation(), "\"qty\":null");
}

#[test]
fn collection_to_json_wraps_an_object() {
    let c = KeyValueCollection::new(vec![
        KeyValueTypeEntry::new("id".to_string(), Some("1".to_string()), ColumnType::INT),
        KeyValueTypeEntry::new("name".to_string(), Some("box".to_string()), ColumnType::TEXT),
    ]);
    assert_eq!(c.to_json(), "{\"id\":1,\"name\":\"box\"}");
    let rows = vec![c];
    assert_eq!(rows.to_json(), "[{\"id\":1,\"name\":\"box\"}]");
}

#[test]
fn update_fields_number_from_the_offset() {
    let c = KeyValueCollection::new(vec![
        KeyValueTypeEntry::new("a".to_string(), Some("1".to_string()), ColumnType::INT),
        KeyValueTypeEntry::new("b".to_string(), Some("2".to_string()), ColumnType::INT),
    ]);
    assert_eq!(c.sql_prepare_update_fields(1), "a=?2,b=?3");
    assert_eq!(c.sql_prepare_update_fields(0), "a=?1,b=?2");
}

#[test]
fn get_id_returns_the_first_id_value() {
    let c = KeyValueCollection::new(vec![
        KeyValueTypeEntry::new("id".to_string(), Some("7".to_string()), ColumnType::INT),
    ]);
    assert_eq!(c.get_id().unwrap(), "7");
    let no_id = KeyValueCollection::new(vec![
        KeyValueTypeEntry::new("x".to_string(), Some("7".to_string()), ColumnType::INT),
    ]);
    assert!(matches!(no_id.get_id(), Err(InvManError::Validation(_))));
    let null_id = KeyValueCollection::new(vec![
        KeyValueTypeEntry::new("id".to_string(), None, ColumnType::INT),
    ]);
    assert!(matches!(null_id.get_id(), Err(InvManError::Validation(_))));
}

#[test]
fn raw_entries_type_bookkeeping_and_declared_columns() {
    let schema = SchemaCollection::new(vec![decl("price", ColumnType::REAL, None, None, None, None)]);
    let id = typed_entry_from_raw("id", Some("3".to_string()), &schema).unwrap();
    assert!(matches!(id.column_type(), ColumnType::INT));
    let stamp = typed_entry_from_raw("deleted_at", None, &schema).unwrap();
    assert!(matches!(stamp.column_type(), ColumnType::TEXT));
    let declared = typed_entry_from_raw("price", Some("1.5".to_string()), &schema).unwrap();
    assert!(matches!(declared.column_type(), ColumnType::REAL));
    assert!(matches!(
        typed_entry_from_raw("ghost", None, &schema),
        Err(InvManError::Storage(_))
    ));
}

#[test]
fn declaration_vec_helpers_join_names() {
    let decls = vec![
        decl("qty", ColumnType::INT, None, None, None, None),
        decl("name", ColumnType::TEXT, None, None, None, None),
    ];
    assert_eq!(decls.to_sql_names(), "qty,name");
    let json = decls.to_json();
    assert!(json.starts_with("[{\"name\":\"qty\""));
    assert!(json.ends_with("}]"));
}

#[test]
fn number_rendering_and_parsing_round_trip() {
    assert_eq!(u32_to_string(0), "0");
    assert_eq!(u32_to_string(4294967295), "4294967295");
    assert_eq!(u64_to_string(120), "120");
    assert_eq!(parse_i64("-42"), Some(-42));
    assert_eq!(parse_i64("+42"), Some(42));
    assert_eq!(parse_i64("9223372036854775807"), Some(i64::MAX));
    assert_eq!(parse_i64("-9223372036854775808"), Some(i64::MIN));
    assert_eq!(parse_i64("9223372036854775808"), None);
    assert_eq!(parse_i64(""), None);
    assert_eq!(parse_i64("-"), None);
    assert_eq!(parse_i64("1.5"), None);
}

#[test]
fn decimal_literals_are_recognized_exactly() {
    let p = parse_decimal("10.25").unwrap();
    assert!(!p.sign_negative);
    assert_eq!(p.int_capped, 10);
    assert!(!p.frac_zero);
    let z = parse_decimal("-0.0").unwrap();
    assert!(z.sign_negative);
    assert!(z.frac_zero);
    assert!(parse_decimal("5.").is_none());
    assert!(parse_decimal(".5").is_none());
    assert!(parse_decimal("1e3").is_none());
    assert!(parse_decimal("").is_none());
}

#[test]
fn split_at_char_splits_at_the_first_separator() {
    let (a, b) = split_at_char("key=val=ue", '=').unwrap();
    assert_eq!(a, "key");
    assert_eq!(b, "val=ue");
    assert!(split_at_char("nosep", '=').is_none());
}
