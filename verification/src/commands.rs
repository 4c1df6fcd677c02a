//! The command layer: authentication of the caller's token, parsing and
//! validation of `name=value` parameters, and dispatch into the storage
//! contract. Nothing reaches the store before its inputs are checked.
use crate::notation::{
    decl_at, notation_name, notation_ok, notation_value, value_ok_for, InvManNotationHelperVec,
    InvManSerialization, KeyValueCollection, SchemaDeclarationVerify,
};
use crate::schema::{
    decl_of_args, decl_valid, decls_of, schema_json, DeclModel, SchemaAlterArgs, SchemaDeclaration,
};
use crate::store::{AppConfig, DBUser, InvManDBPool, InventoryListProps};
use crate::text::find_char;
use crate::InvManError;
use vstd::prelude::*;

verus! {

/// How command output is rendered; opaque to the core.
#[derive(Debug, Copy, Clone, PartialEq, Eq, Structural)]
pub enum OutputType {
    Plain,
    Json,
}

/// What a command runs under: the loaded configuration, the caller's
/// `username:password` token, and the output choice. The storage backend
/// is handed to each command beside it.
pub struct CommandContext {
    pub config: AppConfig,
    pub auth: Option<String>,
    pub output: OutputType,
}

/// Whether the caller supplied a non-empty token that splits at a colon.
pub open spec fn auth_token_ok(auth: Option<String>) -> bool {
    match auth {
        Some(s) => s@.len() > 0 && find_char(s@, ':') >= 0,
        None => false,
    }
}

impl CommandContext {
    /// Splits the caller's token and asks the backend to verify the
    /// credentials; every mutating command runs this first.
    pub fn authenticate<P: InvManDBPool>(&self, db: &P) -> (r: Result<DBUser, InvManError>)
        requires
            db.inv(),
        ensures
            match r {
                Ok(_) => auth_token_ok(self.auth),
                Err(e) => e is Authentication,
            },
    {
        let auth = match &self.auth {
            Some(s) => s.clone(),
            None => String::new(),
        };
        if auth.as_str().unicode_len() == 0 {
            return Err(
                InvManError::Authentication(
                    "User authentication failure (No auth token was provided)".to_owned(),
                ),
            );
        }
        match crate::text::split_at_char(auth.as_str(), ':') {
            None => Err(
                InvManError::Authentication(
                    "User authentication failure (Failed to split the token)".to_owned(),
                ),
            ),
            Some((name, password)) => {
                let mut user = DBUser::new();
                match db.user_auth(name.as_str(), password.as_str(), &mut user) {
                    Ok(_) => Ok(user),
                    Err(e) => {
                        let mut msg = "User authentication failure (".to_owned();
                        msg.append(e.message());
                        msg.append(")");
                        Err(InvManError::Authentication(msg))
                    },
                }
            },
        }
    }
}

/// Splits the caller's token and verifies the credentials, filling `user`;
/// kept beside the method form for callers that hold the user themselves.
pub fn auth_valid<P: InvManDBPool>(context: &CommandContext, db: &P, user: &mut DBUser) -> (r:
    Result<bool, InvManError>)
    requires
        db.inv(),
    ensures
        match r {
            Ok(_) => auth_token_ok(context.auth),
            Err(e) => e is Authentication,
        },
{
    let auth = match &context.auth {
        Some(s) => s.clone(),
        None => String::new(),
    };
    if auth.as_str().unicode_len() == 0 {
        return Err(
            InvManError::Authentication(
                "User authentication failure (No auth token was provided)".to_owned(),
            ),
        );
    }
    match crate::text::split_at_char(auth.as_str(), ':') {
        None => Err(
            InvManError::Authentication(
                "User authentication failure (Failed to split the token)".to_owned(),
            ),
        ),
        Some((name, password)) => match db.user_auth(name.as_str(), password.as_str(), user) {
            Ok(_) => Ok(true),
            Err(e) => {
                let mut msg = "User authentication failure (".to_owned();
                msg.append(e.message());
                msg.append(")");
                Err(InvManError::Authentication(msg))
            },
        },
    }
}

/// Every `name=value` string names a declared column and carries a value
/// within that column's declared bounds.
pub open spec fn params_valid(set: Seq<String>, decls: Seq<DeclModel>) -> bool {
    forall|i: int|
        0 <= i < set.len() ==> notation_ok((#[trigger] set[i])@, decls) && value_ok_for(
            decl_at(decls, notation_name(set[i]@)),
            notation_value(set[i]@),
        )
}

/// Checks every `name=value` string against the schema's declared bounds;
/// the first violation is reported and nothing is written.
pub fn validate_params(set: &Vec<String>, declarations: &Vec<SchemaDeclaration>) -> (r: Result<
    (),
    InvManError,
>)
    ensures
        match r {
            Ok(_) => params_valid(set@, decls_of(declarations@)),
            Err(e) => e is Validation && !params_valid(set@, decls_of(declarations@)),
        },
{
    let mut i: usize = 0;
    while i < set.len()
        invariant
            0 <= i <= set@.len(),
            forall|j: int|
                0 <= j < i ==> notation_ok((#[trigger] set@[j])@, decls_of(declarations@))
                    && value_ok_for(
                    decl_at(decls_of(declarations@), notation_name(set@[j]@)),
                    notation_value(set@[j]@),
                ),
        decreases set@.len() - i,
    {
        if let Err(e) = set[i].check_against_declaration(declarations) {
            return Err(e);
        }
        i = i + 1;
    }
    Ok(())
}

/// Copies a list of strings.
fn clone_strings(v: &Vec<String>) -> (r: Vec<String>)
    ensures
        r@.len() == v@.len(),
        forall|i: int| 0 <= i < v@.len() ==> (#[trigger] r@[i])@ == v@[i]@,
{
    let mut out: Vec<String> = Vec::new();
    let mut i: usize = 0;
    while i < v.len()
        invariant
            0 <= i <= v@.len(),
            out@.len() == i,
            forall|j: int| 0 <= j < i ==> (#[trigger] out@[j])@ == v@[j]@,
        decreases v@.len() - i,
    {
        out.push(v[i].clone());
        i = i + 1;
    }
    out
}

/// Targets one record for soft deletion.
pub struct InventoryRemoveArgs {
    pub identifier: String,
}

impl InventoryRemoveArgs {
    /// Soft-deletes the targeted record after authentication.
    pub fn remove<P: InvManDBPool>(&self, ctx: &CommandContext, db: &mut P) -> (r: Result<
        String,
        InvManError,
    >)
        requires
            old(db).inv(),
            old(db).can_grow(),
            old(db).schema_matches(&ctx.config),
        ensures
            final(db).inv(),
            final(db).schema_matches(&ctx.config),
            !auth_token_ok(ctx.auth) ==> *final(db) == *old(db),
            match r {
                Ok(_) => auth_token_ok(ctx.auth),
                Err(e) => !auth_token_ok(ctx.auth) ==> e is Authentication,
            },
    {
        let user = ctx.authenticate(db)?;
        db.inventory_remove(&self.identifier, &ctx.config, &user)
    }
}

/// Targets one record and carries its `name=value` updates.
pub struct InventoryEditArgs {
    pub identifier: String,
    pub set: Vec<String>,
}

impl InventoryEditArgs {
    /// Edits the targeted record after authentication; every update is
    /// parsed and bounds-checked against the schema before any write.
    pub fn edit<P: InvManDBPool>(&self, ctx: &CommandContext, db: &mut P) -> (r: Result<
        String,
        InvManError,
    >)
        requires
            old(db).inv(),
            old(db).can_grow(),
            old(db).schema_matches(&ctx.config),
        ensures
            final(db).inv(),
            final(db).schema_matches(&ctx.config),
            !auth_token_ok(ctx.auth) || !params_valid(
                self.set@,
                ctx.config.inventory_schema_declaration@,
            ) ==> *final(db) == *old(db),
            match r {
                Ok(_) => auth_token_ok(ctx.auth) && params_valid(
                    self.set@,
                    ctx.config.inventory_schema_declaration@,
                ),
                Err(e) => {
                    &&& (!auth_token_ok(ctx.auth) ==> e is Authentication)
                    &&& (!params_valid(self.set@, ctx.config.inventory_schema_declaration@)
                        ==> (e is Authentication || e is Validation))
                },
            },
    {
        let user = ctx.authenticate(db)?;
        let entries = self.set.to_key_value_collection(&ctx.config.inventory_schema_declaration)?;
        validate_params(&self.set, &ctx.config.inventory_schema_declaration.collection)?;
        db.inventory_edit(&self.identifier, &entries, &ctx.config, &user)
    }
}

/// Carries the `name=value` fields of a fresh record.
pub struct InventoryAddArgs {
    pub params: Vec<String>,
}

impl InventoryAddArgs {
    /// Adds a record after authentication; every field is parsed and
    /// bounds-checked against the schema before any write.
    pub fn add<P: InvManDBPool>(&self, ctx: &CommandContext, db: &mut P) -> (r: Result<
        String,
        InvManError,
    >)
        requires
            old(db).inv(),
            old(db).can_grow(),
            old(db).schema_matches(&ctx.config),
        ensures
            final(db).inv(),
            final(db).schema_matches(&ctx.config),
            !auth_token_ok(ctx.auth) || !params_valid(
                self.params@,
                ctx.config.inventory_schema_declaration@,
            ) ==> *final(db) == *old(db),
            match r {
                Ok(_) => auth_token_ok(ctx.auth) && params_valid(
                    self.params@,
                    ctx.config.inventory_schema_declaration@,
                ),
                Err(e) => {
                    &&& (!auth_token_ok(ctx.auth) ==> e is Authentication)
                    &&& (!params_valid(self.params@, ctx.config.inventory_schema_declaration@)
                        ==> (e is Authentication || e is Validation))
                },
            },
    {
        let user = ctx.authenticate(db)?;
        let entries = self.params.to_key_value_collection(
            &ctx.config.inventory_schema_declaration,
        )?;
        validate_params(&self.params, &ctx.config.inventory_schema_declaration.collection)?;
        db.inventory_add(&entries, &ctx.config, &user)
    }
}

/// Parameters of a listing: a row limit, orderings, and the raw filter
/// escape hatch with its separately-bound parameters.
pub struct InventoryListArgs {
    pub limit: Option<i32>,
    pub sort: Vec<String>,
    pub raw: Option<String>,
    pub params: Vec<String>,
    pub condition: Vec<String>,
}

impl InventoryListArgs {
    /// Lists records as a JSON array after authentication; read-only.
    pub fn list<P: InvManDBPool>(&self, ctx: &CommandContext, db: &P) -> (r: Result<
        String,
        InvManError,
    >)
        requires
            db.inv(),
            db.schema_matches(&ctx.config),
        ensures
            match r {
                Ok(_) => auth_token_ok(ctx.auth),
                Err(e) => !auth_token_ok(ctx.auth) ==> e is Authentication,
            },
    {
        let _ = ctx.authenticate(db)?;
        let limit: i32 = match self.limit {
            Some(v) => v,
            None => -1,
        };
        let props = InventoryListProps {
            limit,
            raw: match &self.raw {
                Some(s) => Some(s.clone()),
                None => None,
            },
            params: clone_strings(&self.params),
        };
        let data = db.inventory_list(&props, &ctx.config)?;
        Ok(data.to_json())
    }
}

/// Names the schema column to remove.
pub struct SchemaRemoveArgs {
    pub name: String,
}

pub type InventorySchemaRemoveArgs = SchemaRemoveArgs;

impl SchemaRemoveArgs {
    /// Removes the named schema column after authentication; the table is
    /// rebuilt without it and one schema-ledger row is appended.
    pub fn remove<P: InvManDBPool>(&self, context: &mut CommandContext, db: &mut P) -> (r: Result<
        String,
        InvManError,
    >)
        requires
            old(db).inv(),
            old(db).can_grow(),
            old(db).schema_matches(&old(context).config),
        ensures
            final(db).inv(),
            final(db).schema_matches(&final(context).config),
            !auth_token_ok(old(context).auth) ==> *final(db) == *old(db) && final(context).config
                == old(context).config,
            match r {
                Ok(_) => auth_token_ok(old(context).auth),
                Err(e) => !auth_token_ok(old(context).auth) ==> e is Authentication,
            },
    {
        let mut user = DBUser::new();
        auth_valid(context, db, &mut user)?;
        db.schema_remove(&mut context.config, self.name.as_str(), &user)
    }
}

/// A command without parameters.
pub struct NoParams;

pub type InventorySchemaListArgs = NoParams;

impl NoParams {
    /// Prints the current schema registry snapshot after authentication.
    pub fn schema_list<P: InvManDBPool>(&self, context: &CommandContext, db: &P) -> (r: Result<
        String,
        InvManError,
    >)
        requires
            db.inv(),
        ensures
            match r {
                Ok(s) => auth_token_ok(context.auth) && s@ == schema_json(
                    context.config.inventory_schema_declaration@,
                ),
                Err(e) => e is Authentication,
            },
    {
        let mut user = DBUser::new();
        auth_valid(context, db, &mut user)?;
        Ok(context.config.inventory_schema_declaration.to_json())
    }
}

/// Credentials of an account to register.
pub struct UserArgs {
    pub name: String,
    pub password: String,
}

impl UserArgs {
    /// Registers an account, if the administrator allows registration.
    pub fn register<P: InvManDBPool>(&self, param: &CommandContext, db: &mut P) -> (r: Result<
        String,
        InvManError,
    >)
        requires
            old(db).inv(),
            old(db).can_grow(),
        ensures
            final(db).inv(),
            !param.config.allow_registration ==> *final(db) == *old(db),
            match r {
                Ok(_) => param.config.allow_registration,
                Err(e) => !param.config.allow_registration ==> e is Validation,
            },
    {
        if !param.config.allow_registration {
            return Err(
                InvManError::Validation(
                    "User registration failed (Registration is disabled by inventory administrator)".to_owned(),
                ),
            );
        }
        match db.user_register(self.name.as_str(), self.password.as_str()) {
            Ok(s) => Ok(s),
            Err(e) => {
                let mut msg = "User registration failed (".to_owned();
                msg.append(e.message());
                msg.append(")");
                Err(InvManError::Validation(msg))
            },
        }
    }
}

/// The `option=value` changes of an account edit.
pub struct UserEditArgs {
    pub options: Vec<String>,
}

impl UserEditArgs {
    /// Authenticates and acknowledges; account editing carries no further
    /// effect in this version.
    pub fn edit<P: InvManDBPool>(&self, context: &CommandContext, db: &P) -> (r: Result<
        String,
        InvManError,
    >)
        requires
            db.inv(),
        ensures
            match r {
                Ok(s) => auth_token_ok(context.auth) && s@ == Seq::<char>::empty(),
                Err(e) => e is Authentication,
            },
    {
        let mut user = DBUser::new();
        auth_valid(context, db, &mut user)?;
        Ok(String::new())
    }
}

pub type InventorySchemaAlterArgs = SchemaAlterArgs;

impl SchemaAlterArgs {
    /// Declares or replaces a schema column after authentication: the
    /// declaration is validated, the table rebuilt, the registry snapshot
    /// persisted and one schema-ledger row appended — atomically.
    pub fn alter<P: InvManDBPool>(&self, context: &mut CommandContext, db: &mut P) -> (r: Result<
        String,
        InvManError,
    >)
        requires
            old(db).inv(),
            old(db).can_grow(),
            old(db).schema_matches(&old(context).config),
        ensures
            final(db).inv(),
            final(db).schema_matches(&final(context).config),
            !auth_token_ok(old(context).auth) || !decl_valid(decl_of_args(self@)) ==> *final(db)
                == *old(db) && final(context).config == old(context).config,
            match r {
                Ok(_) => auth_token_ok(old(context).auth) && decl_valid(decl_of_args(self@)),
                Err(e) => {
                    &&& (!auth_token_ok(old(context).auth) ==> e is Authentication)
                    &&& (!decl_valid(decl_of_args(self@)) ==> (e is Authentication
                        || e is Validation))
                },
            },
    {
        let mut user = DBUser::new();
        auth_valid(context, db, &mut user)?;
        let decl = SchemaDeclaration::new(self)?;
        db.schema_alter(&mut context.config, decl, &user)
    }
}

/// The account subcommands.
pub enum UserCommands {
    Register(UserArgs),
    Edit(UserEditArgs),
}

/// The schema subcommands.
pub enum InventorySchemaCommands {
    Alter(SchemaAlterArgs),
    Remove(SchemaRemoveArgs),
    List(NoParams),
}

/// The record subcommands.
pub enum InventoryCommands {
    Add(InventoryAddArgs),
    List(InventoryListArgs),
    Schema(InventorySchemaCommands),
    Edit(InventoryEditArgs),
    Remove(InventoryRemoveArgs),
}

} // verus!
