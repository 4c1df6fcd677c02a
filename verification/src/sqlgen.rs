//! SQL statement builders for the record table: the column clause of one
//! declaration, the rebuilt table of a whole schema, and the copy, insert,
//! select, update and list statements the store issues.
use crate::notation::{update_fields_model, InvManToSql, KeyValueCollection};
use crate::schema::{sql_names_model, DeclModel, SchemaCollection, SchemaDeclaration};
use crate::text::{dec_digits, u32_to_string, u64_to_string};
use vstd::prelude::*;

verus! {

/// The native column type of a declaration: booleans are stored as short
/// text, VARCHAR carries its declared size.
pub open spec fn type_sql(d: DeclModel) -> Seq<char> {
    match d.column_type {
        crate::schema::ColumnType::BOOL => " VARCHAR(5)"@,
        crate::schema::ColumnType::INT => " INTEGER"@,
        crate::schema::ColumnType::REAL => " REAL"@,
        crate::schema::ColumnType::TEXT => " TEXT"@,
        crate::schema::ColumnType::VARCHAR => " VARCHAR("@ + dec_digits(d.max_length as nat)
            + ")"@,
    }
}

/// The default clause's value: the timestamp pseudo-default becomes a call
/// evaluated by the engine at write time, string literals are quoted.
pub open spec fn default_value_sql(d: DeclModel) -> Seq<char> {
    if d.default == "CURRENT_TIMESTAMP"@ {
        "(STRFTIME('%Y-%m-%d %H:%M:%f', 'NOW'))"@
    } else {
        match d.column_type {
            crate::schema::ColumnType::TEXT | crate::schema::ColumnType::VARCHAR => "'"@ + d.default
                + "'"@,
            _ => d.default,
        }
    }
}

/// The full column clause of one declaration.
pub open spec fn row_statement_model(d: DeclModel) -> Seq<char> {
    d.name + type_sql(d) + (if !d.nullable {
        " NOT NULL"@
    } else {
        Seq::<char>::empty()
    }) + (if d.default != "NULL"@ {
        " DEFAULT "@ + default_value_sql(d)
    } else {
        Seq::<char>::empty()
    }) + (if d.unique {
        " UNIQUE"@
    } else {
        Seq::<char>::empty()
    })
}

/// Builds the column clause of one declaration.
pub fn make_row_statement(decl: &SchemaDeclaration) -> (r: String)
    ensures
        r@ == row_statement_model(decl@),
{
    let mut query = decl.name.clone();
    match decl.column_type {
        crate::schema::ColumnType::BOOL => query.append(" VARCHAR(5)"),
        crate::schema::ColumnType::INT => query.append(" INTEGER"),
        crate::schema::ColumnType::REAL => query.append(" REAL"),
        crate::schema::ColumnType::TEXT => query.append(" TEXT"),
        crate::schema::ColumnType::VARCHAR => {
            query.append(" VARCHAR(");
            query.append(u32_to_string(decl.max_length).as_str());
            query.append(")");
        },
    }
    if !decl.nullable {
        query.append(" NOT NULL");
    }
    if !crate::text::str_eq(decl.default.as_str(), "NULL") {
        query.append(" DEFAULT ");
        if crate::text::str_eq(decl.default.as_str(), "CURRENT_TIMESTAMP") {
            query.append("(STRFTIME('%Y-%m-%d %H:%M:%f', 'NOW'))");
        } else {
            match decl.column_type {
                crate::schema::ColumnType::TEXT | crate::schema::ColumnType::VARCHAR => {
                    query.append("'");
                    query.append(decl.default.as_str());
                    query.append("'");
                },
                _ => query.append(decl.default.as_str()),
            }
        }
    }
    if decl.unique {
        query.append(" UNIQUE");
    }
    proof {
        assert(query@ =~= row_statement_model(decl@));
    }
    query
}

/// The shared head of the rebuilt record table: surrogate identifier and
/// the three bookkeeping stamps.
pub open spec fn temp_table_head() -> Seq<char> {
    "\nCREATE TABLE invman_temp_inventory(\n    id INTEGER PRIMARY KEY AUTOINCREMENT,\n    created_at TEXT DEFAULT(STRFTIME('%Y-%m-%d %H:%M:%f', 'NOW')),\n    updated_at TEXT DEFAULT(STRFTIME('%Y-%m-%d %H:%M:%f', 'NOW')),\n    deleted_at TEXT DEFAULT NULL"@
}

/// The comma-joined column clauses of the declared columns.
pub open spec fn rows_joined(s: Seq<DeclModel>) -> Seq<char>
    decreases s.len(),
{
    if s.len() == 0 {
        Seq::<char>::empty()
    } else if s.len() == 1 {
        row_statement_model(s[0])
    } else {
        rows_joined(s.drop_last()) + ","@ + row_statement_model(s.last())
    }
}

/// The statement that builds the fresh record table mirroring a schema.
pub open spec fn temp_table_sql(s: Seq<DeclModel>) -> Seq<char> {
    if s.len() == 0 {
        temp_table_head() + "\n);"@
    } else {
        temp_table_head() + ",\n"@ + rows_joined(s) + ");"@
    }
}

/// Builds the statement creating a fresh record table whose structure
/// mirrors `declarations`.
pub fn make_temp_inventory_table(declarations: &SchemaCollection) -> (r: String)
    ensures
        r@ == temp_table_sql(declarations@),
{
    let mut query =
        "\nCREATE TABLE invman_temp_inventory(\n    id INTEGER PRIMARY KEY AUTOINCREMENT,\n    created_at TEXT DEFAULT(STRFTIME('%Y-%m-%d %H:%M:%f', 'NOW')),\n    updated_at TEXT DEFAULT(STRFTIME('%Y-%m-%d %H:%M:%f', 'NOW')),\n    deleted_at TEXT DEFAULT NULL".to_owned();
    if declarations.collection.len() == 0 {
        query.append("\n);");
        return query;
    }
    query.append(",\n");
    let mut i: usize = 0;
    while i < declarations.collection.len()
        invariant
            0 <= i <= declarations.collection.len(),
            declarations@.len() == declarations.collection.len(),
            query@ == temp_table_head() + ",\n"@ + rows_joined(declarations@.subrange(0, i as int)),
        decreases declarations.collection.len() - i,
    {
        if i > 0 {
            query.append(",");
        }
        let row = make_row_statement(&declarations.collection[i]);
        query.append(row.as_str());
        proof {
            let pre = declarations@.subrange(0, i as int);
            let cur = declarations@.subrange(0, i + 1 as int);
            assert(cur.drop_last() =~= pre);
            assert(cur.last() == declarations@[i as int]);
            assert(query@ =~= temp_table_head() + ",\n"@ + rows_joined(cur));
        }
        i = i + 1;
    }
    query.append(");");
    proof {
        assert(declarations@.subrange(0, declarations@.len() as int) == declarations@);
        assert(query@ =~= temp_table_sql(declarations@));
    }
    query
}

/// The statement copying the retained columns from the old record table
/// into the fresh one.
pub open spec fn copy_table_sql(cols: Seq<char>) -> Seq<char> {
    "INSERT INTO invman_temp_inventory("@ + cols + ") SELECT "@ + cols + " FROM invman_inventory"@
}

/// Builds the copy statement over the given projection column list.
pub fn make_copy_statement(cols: &str) -> (r: String)
    ensures
        r@ == copy_table_sql(cols@),
{
    let mut out = "INSERT INTO invman_temp_inventory(".to_owned();
    out.append(cols);
    out.append(") SELECT ");
    out.append(cols);
    out.append(" FROM invman_inventory");
    proof {
        assert(out@ =~= copy_table_sql(cols@));
    }
    out
}

/// `n` comma-joined placeholders.
pub open spec fn placeholders(n: nat) -> Seq<char>
    decreases n,
{
    if n == 0 {
        Seq::<char>::empty()
    } else if n == 1 {
        "?"@
    } else {
        placeholders((n - 1) as nat) + ",?"@
    }
}

/// The insert statement for a row of typed fields.
pub open spec fn insert_sql(s: Seq<crate::notation::EntryModel>) -> Seq<char> {
    "INSERT INTO invman_inventory ("@ + crate::notation::keys_joined(s) + ") VALUES ("@
        + placeholders(s.len()) + ")"@
}

/// Builds the insert statement for the given typed fields.
pub fn make_insert_statement(params: &KeyValueCollection) -> (r: String)
    ensures
        r@ == insert_sql(params@),
{
    let mut out = "INSERT INTO invman_inventory (".to_owned();
    let names = params.sql_names();
    out.append(names.as_str());
    out.append(") VALUES (");
    let n = params.collection.len();
    let mut i: usize = 0;
    while i < n
        invariant
            0 <= i <= n,
            out@ == "INSERT INTO invman_inventory ("@ + crate::notation::keys_joined(params@)
                + ") VALUES ("@ + placeholders(i as nat),
        decreases n - i,
    {
        if i > 0 {
            out.append(",?");
        } else {
            out.append("?");
        }
        proof {
            assert(out@ =~= "INSERT INTO invman_inventory ("@ + crate::notation::keys_joined(
                params@,
            ) + ") VALUES ("@ + placeholders((i + 1) as nat));
        }
        i = i + 1;
    }
    out.append(")");
    proof {
        assert(params@.len() == n);
        assert(out@ =~= insert_sql(params@));
    }
    out
}

/// The projection of one record by its identifier.
pub open spec fn select_item_sql(s: Seq<DeclModel>) -> Seq<char> {
    "SELECT "@ + sql_names_model(s) + " FROM invman_inventory WHERE id=?1"@
}

/// Builds the statement reading one record back, fully typed, under the
/// current schema.
pub fn make_select_item_statement(declarations: &SchemaCollection) -> (r: String)
    ensures
        r@ == select_item_sql(declarations@),
{
    let mut out = "SELECT ".to_owned();
    let names = declarations.sql_names();
    out.append(names.as_str());
    out.append(" FROM invman_inventory WHERE id=?1");
    proof {
        assert(out@ =~= select_item_sql(declarations@));
    }
    out
}

/// The update statement for a row of typed fields; placeholder 1 is the
/// identifier, the fields count from 2.
pub open spec fn update_sql(s: Seq<crate::notation::EntryModel>) -> Seq<char> {
    "UPDATE invman_inventory SET "@ + update_fields_model(s, 1) + " WHERE id=?1"@
}

/// Builds the update statement for the given typed fields.
pub fn make_update_statement(params: &KeyValueCollection) -> (r: String)
    requires
        params@.len() + 2 <= u64::MAX,
    ensures
        r@ == update_sql(params@),
{
    let mut out = "UPDATE invman_inventory SET ".to_owned();
    let fields = params.sql_prepare_update_fields(1);
    out.append(fields.as_str());
    out.append(" WHERE id=?1");
    proof {
        assert(out@ =~= update_sql(params@));
    }
    out
}

/// The list statement: the full projection, a verbatim raw tail when one is
/// given, else a limit clause when the limit is positive.
pub open spec fn list_sql(s: Seq<DeclModel>, raw: Option<Seq<char>>, limit: i32) -> Seq<char> {
    let base = "SELECT "@ + sql_names_model(s) + " FROM invman_inventory"@;
    match raw {
        Some(r) => base + " "@ + r,
        None => if limit > 0 {
            base + " LIMIT "@ + dec_digits(limit as nat)
        } else {
            base
        },
    }
}

/// Builds the list statement under the current schema.
pub fn make_list_statement(declarations: &SchemaCollection, raw: &Option<String>, limit: i32) -> (r:
    String)
    ensures
        r@ == list_sql(
            declarations@,
            match raw {
                Some(s) => Some(s@),
                None => None,
            },
            limit,
        ),
{
    let mut out = "SELECT ".to_owned();
    let names = declarations.sql_names();
    out.append(names.as_str());
    out.append(" FROM invman_inventory");
    match raw {
        Some(r) => {
            out.append(" ");
            out.append(r.as_str());
        },
        None => {
            if limit > 0 {
                out.append(" LIMIT ");
                out.append(u64_to_string(limit as u64).as_str());
            }
        },
    }
    out
}

} // verus!
