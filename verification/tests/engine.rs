use invman::commands::{
    CommandContext, InventoryAddArgs, InventoryEditArgs, InventoryListArgs, InventoryRemoveArgs,
    NoParams, OutputType, SchemaRemoveArgs, UserArgs,
};
use invman::schema::{ColumnType, SchemaAlterArgs};
use invman::store::{DBUser, InvManDBPool, InvManMemory};
use invman::InvManError;

fn alter_args(
    name: &str,
    column_type: ColumnType,
    max: Option<u32>,
    min: Option<u32>,
    max_length: Option<u32>,
    nullable: Option<bool>,
    default: Option<String>,
) -> SchemaAlterArgs {
    SchemaAlterArgs {
        name: name.to_string(),
        display_name: None,
        unique: false,
        max_length,
        min_length: None,
        max,
        min,
        nullable,
        column_type,
        default,
        hint: None,
        layout: None,
    }
}

fn fresh() -> (InvManMemory, CommandContext) {
    let mut db = InvManMemory::new(true);
    db.user_register("admin", "secret").unwrap();
    let config = db.get_config();
    let ctx = CommandContext {
        config,
        auth: Some("admin:secret".to_string()),
        output: OutputType::Json,
    };
    (db, ctx)
}

fn list_json(ctx: &CommandContext, db: &InvManMemory) -> String {
    let args = InventoryListArgs {
        limit: None,
        sort: vec![],
        raw: None,
        params: vec![],
        condition: vec![],
    };
    args.list(ctx, db).unwrap()
}

#[test]
fn alter_with_new_column_defaults_existing_records() {
    let (mut db, mut ctx) = fresh();
    let name_col = alter_args("name", ColumnType::TEXT, None, None, None, Some(true), None);
    name_col.alter(&mut ctx, &mut db).unwrap();
    let add = InventoryAddArgs { params: vec!["name=box".to_string()] };
    add.add(&ctx, &mut db).unwrap();
    let qty_col = alter_args("qty", ColumnType::INT, None, None, None, Some(true), None);
    qty_col.alter(&mut ctx, &mut db).unwrap();
    let json = list_json(&ctx, &db);
    assert!(json.contains("\"name\":\"box\""));
    assert!(json.contains("\"qty\":null"));
    let priced = alter_args("price", ColumnType::INT, None, None, None, Some(true), Some("7".to_string()));
    priced.alter(&mut ctx, &mut db).unwrap();
    let json = list_json(&ctx, &db);
    assert!(json.contains("\"price\":7"));
}

#[test]
fn remove_drops_the_column_and_logs_one_ledger_row_per_change() {
    let (mut db, mut ctx) = fresh();
    let name_col = alter_args("name", ColumnType::TEXT, None, None, None, Some(true), None);
    name_col.alter(&mut ctx, &mut db).unwrap();
    assert_eq!(db.schema_tx.len(), 1);
    let qty_col = alter_args("qty", ColumnType::INT, None, None, None, Some(true), None);
    qty_col.alter(&mut ctx, &mut db).unwrap();
    assert_eq!(db.schema_tx.len(), 2);
    let add = InventoryAddArgs { params: vec!["name=box".to_string(), "qty=3".to_string()] };
    add.add(&ctx, &mut db).unwrap();
    let remove = SchemaRemoveArgs { name: "name".to_string() };
    remove.remove(&mut ctx, &mut db).unwrap();
    assert_eq!(db.schema_tx.len(), 3);
    let json = list_json(&ctx, &db);
    assert!(!json.contains("\"name\""));
    assert!(json.contains("\"qty\":3"));
}

#[test]
fn every_record_mutation_logs_one_record_row_and_one_event_row() {
    let (mut db, mut ctx) = fresh();
    let qty_col = alter_args("qty", ColumnType::INT, Some(100), Some(0), None, Some(true), None);
    qty_col.alter(&mut ctx, &mut db).unwrap();
    assert_eq!(db.inventory_tx.len(), 0);
    assert_eq!(db.event_tx.len(), 0);
    let add = InventoryAddArgs { params: vec!["qty=5".to_string()] };
    add.add(&ctx, &mut db).unwrap();
    assert_eq!(db.inventory_tx.len(), 1);
    assert_eq!(db.event_tx.len(), 1);
    let edit = InventoryEditArgs { identifier: "1".to_string(), set: vec!["qty=6".to_string()] };
    edit.edit(&ctx, &mut db).unwrap();
    assert_eq!(db.inventory_tx.len(), 2);
    assert_eq!(db.event_tx.len(), 2);
    let remove = InventoryRemoveArgs { identifier: "1".to_string() };
    remove.remove(&ctx, &mut db).unwrap();
    assert_eq!(db.inventory_tx.len(), 3);
    assert_eq!(db.event_tx.len(), 3);
    let _ = list_json(&ctx, &db);
    assert_eq!(db.inventory_tx.len(), 3);
    assert_eq!(db.event_tx.len(), 3);
    assert_eq!(db.schema_tx.len(), 1);
}

#[test]
fn int_bound_scenario_rejects_an_out_of_range_edit() {
    let (mut db, mut ctx) = fresh();
    let qty_col = alter_args("qty", ColumnType::INT, Some(100), Some(0), None, Some(true), None);
    qty_col.alter(&mut ctx, &mut db).unwrap();
    let add = InventoryAddArgs { params: vec!["qty=5".to_string()] };
    add.add(&ctx, &mut db).unwrap();
    let json = list_json(&ctx, &db);
    assert!(json.contains("\"qty\":5"));
    let ledger_before = db.inventory_tx.len();
    let edit = InventoryEditArgs { identifier: "1".to_string(), set: vec!["qty=200".to_string()] };
    let r = edit.edit(&ctx, &mut db);
    assert!(matches!(r, Err(InvManError::Validation(_))));
    let json = list_json(&ctx, &db);
    assert!(json.contains("\"qty\":5"));
    assert_eq!(db.inventory_tx.len(), ledger_before);
}

#[test]
fn varchar_length_scenario_rejects_before_any_write() {
    let (mut db, mut ctx) = fresh();
    let sku_col = alter_args("sku", ColumnType::VARCHAR, None, None, Some(10), Some(true), None);
    sku_col.alter(&mut ctx, &mut db).unwrap();
    let add = InventoryAddArgs { params: vec!["sku=ABCDEFGHIJK".to_string()] };
    let r = add.add(&ctx, &mut db);
    assert!(matches!(r, Err(InvManError::Validation(_))));
    assert_eq!(db.records.len(), 0);
    assert_eq!(db.inventory_tx.len(), 0);
    assert_eq!(db.event_tx.len(), 0);
}

#[test]
fn removing_an_unknown_schema_column_is_not_found_and_changes_nothing() {
    let (mut db, mut ctx) = fresh();
    let qty_col = alter_args("qty", ColumnType::INT, None, None, None, Some(true), None);
    qty_col.alter(&mut ctx, &mut db).unwrap();
    let ledger = db.schema_tx.len();
    let columns = db.schema.collection.len();
    let remove = SchemaRemoveArgs { name: "ghost".to_string() };
    let r = remove.remove(&mut ctx, &mut db);
    assert!(matches!(r, Err(InvManError::NotFound(_))));
    assert_eq!(db.schema_tx.len(), ledger);
    assert_eq!(db.schema.collection.len(), columns);
}

#[test]
fn altering_an_existing_column_moves_it_to_the_tail() {
    let (mut db, mut ctx) = fresh();
    let a = alter_args("a", ColumnType::INT, None, None, None, Some(true), None);
    a.alter(&mut ctx, &mut db).unwrap();
    let b = alter_args("b", ColumnType::INT, None, None, None, Some(true), None);
    b.alter(&mut ctx, &mut db).unwrap();
    let a_again = alter_args("a", ColumnType::TEXT, None, None, None, Some(true), None);
    a_again.alter(&mut ctx, &mut db).unwrap();
    assert_eq!(db.schema.sql_names(), "id,created_at,updated_at,deleted_at,b,a");
    assert_eq!(db.schema.collection.len(), 2);
}

#[test]
fn record_mutations_fail_before_the_first_schema_version() {
    let (mut db, ctx) = fresh();
    let add = InventoryAddArgs { params: vec![] };
    let r = add.add(&ctx, &mut db);
    assert!(matches!(r, Err(InvManError::Storage(_))));
}

#[test]
fn soft_delete_is_final_and_repeatable() {
    let (mut db, mut ctx) = fresh();
    let qty_col = alter_args("qty", ColumnType::INT, None, None, None, Some(true), None);
    qty_col.alter(&mut ctx, &mut db).unwrap();
    let add = InventoryAddArgs { params: vec!["qty=1".to_string()] };
    add.add(&ctx, &mut db).unwrap();
    let remove = InventoryRemoveArgs { identifier: "1".to_string() };
    remove.remove(&ctx, &mut db).unwrap();
    let stamp = db.records[0].deleted_at.clone().unwrap();
    let remove_again = InventoryRemoveArgs { identifier: "1".to_string() };
    remove_again.remove(&ctx, &mut db).unwrap();
    assert_eq!(db.records[0].deleted_at.clone().unwrap(), stamp);
    assert_eq!(db.inventory_tx.len(), 3);
}

#[test]
fn editing_an_unknown_record_is_not_found() {
    let (mut db, mut ctx) = fresh();
    let qty_col = alter_args("qty", ColumnType::INT, None, None, None, Some(true), None);
    qty_col.alter(&mut ctx, &mut db).unwrap();
    let edit = InventoryEditArgs { identifier: "9".to_string(), set: vec!["qty=1".to_string()] };
    assert!(matches!(edit.edit(&ctx, &mut db), Err(InvManError::NotFound(_))));
    let edit = InventoryEditArgs { identifier: "zzz".to_string(), set: vec!["qty=1".to_string()] };
    assert!(matches!(edit.edit(&ctx, &mut db), Err(InvManError::NotFound(_))));
}

#[test]
fn adding_without_a_value_for_a_non_nullable_column_fails() {
    let (mut db, mut ctx) = fresh();
    let strict = alter_args("req", ColumnType::TEXT, None, None, None, Some(false), None);
    strict.alter(&mut ctx, &mut db).unwrap();
    let add = InventoryAddArgs { params: vec![] };
    let r = add.add(&ctx, &mut db);
    assert!(matches!(r, Err(InvManError::Storage(_))));
    assert_eq!(db.records.len(), 0);
}

#[test]
fn authentication_failures_are_reported_before_any_work() {
    let (mut db, ctx_ok) = fresh();
    let mut ctx = ctx_ok;
    ctx.auth = None;
    let add = InventoryAddArgs { params: vec![] };
    assert!(matches!(add.add(&ctx, &mut db), Err(InvManError::Authentication(_))));
    ctx.auth = Some("nocolon".to_string());
    let add = InventoryAddArgs { params: vec![] };
    assert!(matches!(add.add(&ctx, &mut db), Err(InvManError::Authentication(_))));
    ctx.auth = Some("admin:wrong".to_string());
    let add = InventoryAddArgs { params: vec![] };
    assert!(matches!(add.add(&ctx, &mut db), Err(InvManError::Authentication(_))));
}

#[test]
fn registration_is_refused_when_disabled() {
    let mut db = InvManMemory::new(false);
    let config = db.get_config();
    let ctx = CommandContext { config, auth: None, output: OutputType::Plain };
    let args = UserArgs { name: "admin".to_string(), password: "pw".to_string() };
    let r = args.register(&ctx, &mut db);
    assert!(matches!(r, Err(InvManError::Validation(_))));
    assert_eq!(db.users.len(), 0);
}

#[test]
fn duplicate_usernames_are_refused() {
    let (mut db, ctx) = fresh();
    let args = UserArgs { name: "admin".to_string(), password: "pw2".to_string() };
    let r = args.register(&ctx, &mut db);
    assert!(matches!(r, Err(InvManError::Validation(_))));
    assert_eq!(db.users.len(), 1);
}

#[test]
fn schema_list_prints_the_registry_snapshot() {
    let (mut db, mut ctx) = fresh();
    let qty_col = alter_args("qty", ColumnType::INT, None, None, None, Some(true), None);
    qty_col.alter(&mut ctx, &mut db).unwrap();
    let listing = NoParams.schema_list(&ctx, &db).unwrap();
    assert!(listing.starts_with("[{\"name\":\"qty\""));
    assert_eq!(listing, ctx.config.inventory_schema_declaration.to_json());
}

#[test]
fn list_respects_a_positive_limit() {
    let (mut db, mut ctx) = fresh();
    let qty_col = alter_args("qty", ColumnType::INT, None, None, None, Some(true), None);
    qty_col.alter(&mut ctx, &mut db).unwrap();
    for v in ["qty=1", "qty=2", "qty=3"] {
        let add = InventoryAddArgs { params: vec![v.to_string()] };
        add.add(&ctx, &mut db).unwrap();
    }
    let args = InventoryListArgs {
        limit: Some(2),
        sort: vec![],
        raw: None,
        params: vec![],
        condition: vec![],
    };
    let json = args.list(&ctx, &db).unwrap();
    assert!(json.contains("\"qty\":1"));
    assert!(json.contains("\"qty\":2"));
    assert!(!json.contains("\"qty\":3"));
}

#[test]
fn record_ledger_rows_reference_the_latest_schema_version() {
    let (mut db, mut ctx) = fresh();
    let a = alter_args("a", ColumnType::INT, None, None, None, Some(true), None);
    a.alter(&mut ctx, &mut db).unwrap();
    let b = alter_args("b", ColumnType::INT, None, None, None, Some(true), None);
    b.alter(&mut ctx, &mut db).unwrap();
    let add = InventoryAddArgs { params: vec!["a=1".to_string()] };
    add.add(&ctx, &mut db).unwrap();
    assert_eq!(db.inventory_tx[0].schema_id, 2);
    assert_eq!(db.event_tx[0].target, db.inventory_tx[0].id);
    assert!(db.inventory_tx[0].from_val.is_none());
    assert!(db.inventory_tx[0].to_val.contains("\"a\":1"));
}

#[test]
fn direct_backend_authentication_fills_the_user() {
    let (db, _ctx) = fresh();
    let mut user = DBUser::new();
    assert!(db.user_auth("admin", "secret", &mut user).is_ok());
    assert_eq!(user.id, 1);
    let mut other = DBUser::new();
    assert!(matches!(
        db.user_auth("admin", "bad", &mut other),
        Err(InvManError::Authentication(_))
    ));
    assert_eq!(other.id, 0);
}
