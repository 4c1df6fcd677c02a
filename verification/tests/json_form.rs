use invman::notation::{InvManToSql, KeyValueCollection, KeyValueTypeEntry};
use invman::schema::{ColumnType, SchemaAlterArgs, SchemaCollection, SchemaDeclaration};
use invman::schema_json::parse_schema_collection;
use invman::sqlgen::{
    make_copy_statement, make_insert_statement, make_list_statement, make_row_statement,
    make_select_item_statement, make_temp_inventory_table, make_update_statement,
};

fn decl(name: &str, column_type: ColumnType) -> SchemaDeclaration {
    SchemaDeclaration::new(&SchemaAlterArgs {
        name: name.to_string(),
        display_name: None,
        unique: false,
        max_length: match column_type {
            ColumnType::VARCHAR => Some(10),
            _ => None,
        },
        min_length: None,
        max: None,
        min: None,
        nullable: None,
        column_type,
        default: None,
        hint: None,
        layout: None,
    })
    .unwrap()
}

#[test]
fn schema_collection_round_trips_through_its_json_form() {
    let mut sku = decl("sku", ColumnType::VARCHAR);
    sku.default = "ABC".to_string();
    sku.unique = true;
    let c = SchemaCollection::new(vec![decl("qty", ColumnType::INT), sku]);
    let json = c.to_json();
    let back = parse_schema_collection(json.as_str()).expect("canonical form parses");
    assert_eq!(back.collection.len(), 2);
    assert_eq!(back.collection[0].name, "qty");
    assert_eq!(back.collection[0].display_name, "Qty");
    assert!(matches!(back.collection[0].column_type, ColumnType::INT));
    assert_eq!(back.collection[1].name, "sku");
    assert_eq!(back.collection[1].max_length, 10);
    assert_eq!(back.collection[1].default, "ABC");
    assert!(back.collection[1].unique);
    assert_eq!(back.to_json(), json);
}

#[test]
fn empty_schema_collection_round_trips() {
    let c = SchemaCollection::new(vec![]);
    assert_eq!(c.to_json(), "[]");
    let back = parse_schema_collection("[]").unwrap();
    assert_eq!(back.collection.len(), 0);
}

#[test]
fn malformed_snapshots_are_rejected() {
    assert!(parse_schema_collection("").is_none());
    assert!(parse_schema_collection("nonsense").is_none());
    assert!(parse_schema_collection("[").is_none());
    assert!(parse_schema_collection("[]]").is_none());
    assert!(parse_schema_collection("[{\"name\":\"a\"}]").is_none());
}

#[test]
fn row_statements_spell_each_type() {
    assert_eq!(make_row_statement(&decl("note", ColumnType::TEXT)), "note TEXT NOT NULL");
    assert_eq!(make_row_statement(&decl("qty", ColumnType::INT)), "qty INTEGER NOT NULL");
    assert_eq!(make_row_statement(&decl("price", ColumnType::REAL)), "price REAL NOT NULL");
    assert_eq!(make_row_statement(&decl("flag", ColumnType::BOOL)), "flag VARCHAR(5) NOT NULL");
    assert_eq!(make_row_statement(&decl("sku", ColumnType::VARCHAR)), "sku VARCHAR(10) NOT NULL");
}

#[test]
fn row_statements_spell_defaults_nullability_and_uniqueness() {
    let mut d = decl("sku", ColumnType::VARCHAR);
    d.nullable = true;
    d.unique = true;
    d.default = "ABC".to_string();
    assert_eq!(make_row_statement(&d), "sku VARCHAR(10) DEFAULT 'ABC' UNIQUE");
    let mut ts = decl("stamp", ColumnType::TEXT);
    ts.nullable = true;
    ts.default = "CURRENT_TIMESTAMP".to_string();
    assert_eq!(
        make_row_statement(&ts),
        "stamp TEXT DEFAULT (STRFTIME('%Y-%m-%d %H:%M:%f', 'NOW'))"
    );
    let mut n = decl("qty", ColumnType::INT);
    n.default = "5".to_string();
    assert_eq!(make_row_statement(&n), "qty INTEGER NOT NULL DEFAULT 5");
}

#[test]
fn temp_table_statement_mirrors_the_schema() {
    let empty = SchemaCollection::new(vec![]);
    let head = "\nCREATE TABLE invman_temp_inventory(\n    id INTEGER PRIMARY KEY AUTOINCREMENT,\n    created_at TEXT DEFAULT(STRFTIME('%Y-%m-%d %H:%M:%f', 'NOW')),\n    updated_at TEXT DEFAULT(STRFTIME('%Y-%m-%d %H:%M:%f', 'NOW')),\n    deleted_at TEXT DEFAULT NULL";
    assert_eq!(make_temp_inventory_table(&empty), format!("{}\n);", head));
    let one = SchemaCollection::new(vec![decl("qty", ColumnType::INT)]);
    assert_eq!(
        make_temp_inventory_table(&one),
        format!("{},\nqty INTEGER NOT NULL);", head)
    );
}

#[test]
fn copy_insert_select_update_and_list_statements() {
    let schema = SchemaCollection::new(vec![decl("qty", ColumnType::INT)]);
    assert_eq!(
        make_copy_statement(schema.sql_names().as_str()),
        "INSERT INTO invman_temp_inventory(id,created_at,updated_at,deleted_at,qty) SELECT id,created_at,updated_at,deleted_at,qty FROM invman_inventory"
    );
    let params = KeyValueCollection::new(vec![
        KeyValueTypeEntry::new("qty".to_string(), Some("5".to_string()), ColumnType::INT),
        KeyValueTypeEntry::new("sku".to_string(), Some("A".to_string()), ColumnType::VARCHAR),
    ]);
    assert_eq!(
        make_insert_statement(&params),
        "INSERT INTO invman_inventory (qty,sku) VALUES (?,?)"
    );
    assert_eq!(params.sql_names(), "qty,sku");
    assert_eq!(
        make_select_item_statement(&schema),
        "SELECT id,created_at,updated_at,deleted_at,qty FROM invman_inventory WHERE id=?1"
    );
    assert_eq!(
        make_update_statement(&params),
        "UPDATE invman_inventory SET qty=?2,sku=?3 WHERE id=?1"
    );
    assert_eq!(
        make_list_statement(&schema, &None, -1),
        "SELECT id,created_at,updated_at,deleted_at,qty FROM invman_inventory"
    );
    assert_eq!(
        make_list_statement(&schema, &None, 5),
        "SELECT id,created_at,updated_at,deleted_at,qty FROM invman_inventory LIMIT 5"
    );
    assert_eq!(
        make_list_statement(&schema, &Some("WHERE qty > ?1".to_string()), -1),
        "SELECT id,created_at,updated_at,deleted_at,qty FROM invman_inventory WHERE qty > ?1"
    );
}
