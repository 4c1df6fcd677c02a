use invman::schema::{ColumnType, SchemaAlterArgs, SchemaCollection, SchemaDeclaration};
use invman::InvManError;

fn base_args(name: &str, column_type: ColumnType) -> SchemaAlterArgs {
    SchemaAlterArgs {
        name: name.to_string(),
        display_name: None,
        unique: false,
        max_length: None,
        min_length: None,
        max: None,
        min: None,
        nullable: None,
        column_type,
        default: None,
        hint: None,
        layout: None,
    }
}

#[test]
fn min_length_above_max_length_is_rejected() {
    let mut args = base_args("sku", ColumnType::VARCHAR);
    args.min_length = Some(5);
    args.max_length = Some(3);
    let r = SchemaDeclaration::new(&args);
    assert!(matches!(r, Err(InvManError::Validation(_))));
}

#[test]
fn min_above_max_is_rejected() {
    let mut args = base_args("qty", ColumnType::INT);
    args.min = Some(10);
    args.max = Some(1);
    let r = SchemaDeclaration::new(&args);
    assert!(matches!(r, Err(InvManError::Validation(_))));
}

#[test]
fn varchar_with_zero_max_length_is_rejected() {
    let args = base_args("sku", ColumnType::VARCHAR);
    let r = SchemaDeclaration::new(&args);
    assert!(matches!(r, Err(InvManError::Validation(_))));
}

#[test]
fn default_longer_than_max_length_is_rejected() {
    let mut args = base_args("sku", ColumnType::VARCHAR);
    args.max_length = Some(3);
    args.default = Some("ABCD".to_string());
    let r = SchemaDeclaration::new(&args);
    assert!(matches!(r, Err(InvManError::Validation(_))));
}

#[test]
fn default_shorter_than_min_length_is_rejected() {
    let mut args = base_args("sku", ColumnType::VARCHAR);
    args.max_length = Some(10);
    args.min_length = Some(3);
    args.default = Some("AB".to_string());
    let r = SchemaDeclaration::new(&args);
    assert!(matches!(r, Err(InvManError::Validation(_))));
}

#[test]
fn null_sentinel_default_skips_length_checks() {
    let mut args = base_args("sku", ColumnType::VARCHAR);
    args.max_length = Some(10);
    args.min_length = Some(5);
    let r = SchemaDeclaration::new(&args).unwrap();
    assert_eq!(r.default, "NULL");
}

#[test]
fn valid_declaration_fills_documented_defaults() {
    let args = base_args("unit-price_x", ColumnType::INT);
    let d = SchemaDeclaration::new(&args).unwrap();
    assert_eq!(d.name, "unit-price_x");
    assert_eq!(d.display_name, "Unit price x");
    assert!(!d.unique);
    assert_eq!(d.max_length, 0);
    assert_eq!(d.min_length, 0);
    assert_eq!(d.max, 0);
    assert_eq!(d.min, 0);
    assert!(!d.nullable);
    assert_eq!(d.default, "NULL");
    assert_eq!(d.hint, "");
    assert_eq!(d.layout, "");
}

#[test]
fn explicit_display_name_is_kept() {
    let mut args = base_args("qty", ColumnType::INT);
    args.display_name = Some("Quantity On Hand".to_string());
    let d = SchemaDeclaration::new(&args).unwrap();
    assert_eq!(d.display_name, "Quantity On Hand");
}

#[test]
fn display_name_of_empty_name_is_empty() {
    let args = base_args("", ColumnType::TEXT);
    let d = SchemaDeclaration::new(&args).unwrap();
    assert_eq!(d.display_name, "");
}

#[test]
fn declarations_compare_by_name_only() {
    let a = SchemaDeclaration::new(&base_args("qty", ColumnType::INT)).unwrap();
    let mut args = base_args("qty", ColumnType::TEXT);
    args.display_name = Some("Other".to_string());
    let b = SchemaDeclaration::new(&args).unwrap();
    let c = SchemaDeclaration::new(&base_args("sku", ColumnType::INT)).unwrap();
    assert!(a.is_equal(&b));
    assert!(!a.is_equal(&c));
}

#[test]
fn declaration_to_json_is_the_persisted_object() {
    let mut args = base_args("qty", ColumnType::INT);
    args.max = Some(100);
    let d = SchemaDeclaration::new(&args).unwrap();
    assert_eq!(
        d.to_json(),
        "{\"name\":\"qty\",\"display_name\":\"Qty\",\"unique\":false,\"max_length\":0,\"min_length\":0,\"max\":100,\"min\":0,\"nullable\":false,\"column_type\":\"int\",\"default\":\"NULL\",\"hint\":\"\",\"layout\":\"\"}"
    );
}

#[test]
fn collection_sql_names_lists_bookkeeping_then_columns() {
    let a = SchemaDeclaration::new(&base_args("qty", ColumnType::INT)).unwrap();
    let mut bargs = base_args("sku", ColumnType::VARCHAR);
    bargs.max_length = Some(10);
    let b = SchemaDeclaration::new(&bargs).unwrap();
    let empty = SchemaCollection::new(vec![]);
    assert_eq!(empty.sql_names(), "id,created_at,updated_at,deleted_at");
    let c = SchemaCollection::new(vec![a, b]);
    assert_eq!(c.sql_names(), "id,created_at,updated_at,deleted_at,qty,sku");
}

#[test]
fn collection_contains_finds_by_name() {
    let a = SchemaDeclaration::new(&base_args("qty", ColumnType::INT)).unwrap();
    let b = SchemaDeclaration::new(&base_args("name", ColumnType::TEXT)).unwrap();
    let c = SchemaCollection::new(vec![a, b]);
    let probe = SchemaDeclaration::new(&base_args("name", ColumnType::INT)).unwrap();
    assert_eq!(c.contains(&probe), Some(1));
    let missing = SchemaDeclaration::new(&base_args("other", ColumnType::INT)).unwrap();
    assert_eq!(c.contains(&missing), None);
}
