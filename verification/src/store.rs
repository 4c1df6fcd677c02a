//! The storage contract and its verified in-memory reference backend: a
//! schema-shaped record table, soft deletion, and three append-only audit
//! ledgers, every mutation paired with its ledger rows atomically.
use crate::notation::{
    find_key, kvc_json, lemma_find_key_at, opt_text, EntryModel, InvManSerialization,
    KeyValueCollection, KeyValueTypeEntry,
};
use crate::schema::{
    alter_decls, contains_name, decl_valid, find_name, schema_json, ColumnType, DeclModel,
    SchemaCollection, SchemaDeclaration,
};
use crate::text::{dec_digits, int_literal_value, is_int_literal, parse_i64, str_eq, u64_to_string};
use crate::InvManError;
use vstd::pervasive::VecAdditionalExecFns;
use vstd::prelude::*;

verus! {

/// The authenticated identity a mutation is attributed to; 0 until an
/// authentication succeeds.
pub struct DBUser {
    pub id: u32,
}

impl DBUser {
    pub fn new() -> (r: DBUser)
        ensures
            r.id == 0,
    {
        DBUser { id: 0 }
    }
}

/// Application configuration: the registration switch and the current
/// schema registry snapshot.
pub struct AppConfig {
    pub allow_registration: bool,
    pub inventory_schema_declaration: SchemaCollection,
}

impl AppConfig {
    /// An empty configuration: registration closed, no declared columns.
    pub fn new() -> (r: AppConfig)
        ensures
            !r.allow_registration,
            r.inventory_schema_declaration@ == Seq::<DeclModel>::empty(),
    {
        let r = AppConfig {
            allow_registration: false,
            inventory_schema_declaration: SchemaCollection { collection: Vec::new() },
        };
        proof {
            assert(r.inventory_schema_declaration@ =~= Seq::<DeclModel>::empty());
        }
        r
    }
}

/// Caller-supplied parameters of a list operation.
pub struct InventoryListProps {
    pub limit: i32,
    pub raw: Option<String>,
    pub params: Vec<String>,
}

/// Schema-ledger actions, with their stable persisted encodings.
#[derive(Debug, Copy, Clone, PartialEq, Eq, Structural)]
pub enum SchemaActionNo {
    Alter,
    Remove,
}

impl SchemaActionNo {
    /// The integer this action persists as.
    pub open spec fn code(self) -> u32 {
        match self {
            SchemaActionNo::Alter => 1,
            SchemaActionNo::Remove => 2,
        }
    }

    pub fn encoding(&self) -> (r: u32)
        ensures
            r == self.code(),
    {
        match self {
            SchemaActionNo::Alter => 1,
            SchemaActionNo::Remove => 2,
        }
    }
}

/// Record-ledger actions, with their stable persisted encodings.
#[derive(Debug, Copy, Clone, PartialEq, Eq, Structural)]
pub enum DBOpNo {
    Add,
    Edit,
    Delete,
}

impl DBOpNo {
    /// The integer this action persists as.
    pub open spec fn code(self) -> u32 {
        match self {
            DBOpNo::Add => 1,
            DBOpNo::Edit => 2,
            DBOpNo::Delete => 3,
        }
    }

    pub fn encoding(&self) -> (r: u32)
        ensures
            r == self.code(),
    {
        match self {
            DBOpNo::Add => 1,
            DBOpNo::Edit => 2,
            DBOpNo::Delete => 3,
        }
    }
}

/// Event-ledger actions, with their stable persisted encodings.
#[derive(Debug, Copy, Clone, PartialEq, Eq, Structural)]
pub enum EventActionNo {
    UserRegister,
    InventoryAdd,
    InventoryEdit,
    InventoryRemove,
}

impl EventActionNo {
    /// The integer this action persists as.
    pub open spec fn code(self) -> u32 {
        match self {
            EventActionNo::UserRegister => 100,
            EventActionNo::InventoryAdd => 200,
            EventActionNo::InventoryEdit => 201,
            EventActionNo::InventoryRemove => 202,
        }
    }

    pub fn encoding(&self) -> (r: u32)
        ensures
            r == self.code(),
    {
        match self {
            EventActionNo::UserRegister => 100,
            EventActionNo::InventoryAdd => 200,
            EventActionNo::InventoryEdit => 201,
            EventActionNo::InventoryRemove => 202,
        }
    }
}

/// One schema-ledger row: who changed the schema, how, and the serialized
/// collections before and after. The row's id is the schema version.
pub struct SchemaTxRow {
    pub id: u64,
    pub dispatcher: u32,
    pub action: SchemaActionNo,
    pub from_val: String,
    pub to_val: String,
}

/// The mathematical shape of a schema-ledger row.
#[verifier::ext_equal]
pub struct SchemaTxModel {
    pub id: u64,
    pub dispatcher: u32,
    pub action: SchemaActionNo,
    pub from_val: Seq<char>,
    pub to_val: Seq<char>,
}

impl View for SchemaTxRow {
    type V = SchemaTxModel;

    open spec fn view(&self) -> SchemaTxModel {
        SchemaTxModel {
            id: self.id,
            dispatcher: self.dispatcher,
            action: self.action,
            from_val: self.from_val@,
            to_val: self.to_val@,
        }
    }
}

/// One record-ledger row: who mutated which record under which schema
/// version, and the record's serialized snapshots before and after.
pub struct InventoryTxRow {
    pub id: u64,
    pub dispatcher: u32,
    pub schema_id: u64,
    pub inventory_id: u64,
    pub action: DBOpNo,
    pub from_val: Option<String>,
    pub to_val: String,
}

/// The mathematical shape of a record-ledger row.
#[verifier::ext_equal]
pub struct InventoryTxModel {
    pub id: u64,
    pub dispatcher: u32,
    pub schema_id: u64,
    pub inventory_id: u64,
    pub action: DBOpNo,
    pub from_val: Option<Seq<char>>,
    pub to_val: Seq<char>,
}

impl View for InventoryTxRow {
    type V = InventoryTxModel;

    open spec fn view(&self) -> InventoryTxModel {
        InventoryTxModel {
            id: self.id,
            dispatcher: self.dispatcher,
            schema_id: self.schema_id,
            inventory_id: self.inventory_id,
            action: self.action,
            from_val: opt_text(self.from_val),
            to_val: self.to_val@,
        }
    }
}

/// One event-ledger row: a generic pointer to a record-ledger row for
/// downstream consumers.
#[derive(Copy, Clone, PartialEq, Eq, Structural)]
pub struct EventTxRow {
    pub id: u64,
    pub action: EventActionNo,
    pub dispatcher: u32,
    pub target: u64,
}

/// One stored record: its surrogate identifier, the three bookkeeping
/// stamps, and one value per declared column, in schema order.
pub struct Record {
    pub id: u64,
    pub created_at: String,
    pub updated_at: String,
    pub deleted_at: Option<String>,
    pub values: Vec<Option<String>>,
}

/// The mathematical shape of a record.
#[verifier::ext_equal]
pub struct RecordModel {
    pub id: u64,
    pub created_at: Seq<char>,
    pub updated_at: Seq<char>,
    pub deleted_at: Option<Seq<char>>,
    pub values: Seq<Option<Seq<char>>>,
}

impl View for Record {
    type V = RecordModel;

    open spec fn view(&self) -> RecordModel {
        RecordModel {
            id: self.id,
            created_at: self.created_at@,
            updated_at: self.updated_at@,
            deleted_at: opt_text(self.deleted_at),
            values: self.values@.map_values(|v: Option<String>| opt_text(v)),
        }
    }
}

/// One registered account of the in-memory backend.
pub struct StoredUser {
    pub id: u32,
    pub username: String,
    pub password: String,
}

/// The mathematical shape of an account.
#[verifier::ext_equal]
pub struct UserModel {
    pub id: u32,
    pub username: Seq<char>,
    pub password: Seq<char>,
}

impl View for StoredUser {
    type V = UserModel;

    open spec fn view(&self) -> UserModel {
        UserModel { id: self.id, username: self.username@, password: self.password@ }
    }
}

/// The mathematical shape of the whole in-memory backend.
#[verifier::ext_equal]
pub struct StoreModel {
    pub allow_registration: bool,
    pub schema: Seq<DeclModel>,
    pub records: Seq<RecordModel>,
    pub next_record_id: u64,
    pub schema_tx: Seq<SchemaTxModel>,
    pub inventory_tx: Seq<InventoryTxModel>,
    pub event_tx: Seq<EventTxRow>,
    pub users: Seq<UserModel>,
    pub clock: u64,
}

/// The textual timestamp the backend stamps writes with at logical time
/// `clock`.
pub open spec fn now_text(clock: u64) -> Seq<char> {
    dec_digits(clock as nat)
}

/// The value a column starts with when none is supplied: nothing for the
/// `NULL` sentinel, the current timestamp for the pseudo-default, else the
/// literal default.
pub open spec fn default_opt(d: DeclModel, now: Seq<char>) -> Option<Seq<char>> {
    if d.default == "NULL"@ {
        None
    } else if d.default == "CURRENT_TIMESTAMP"@ {
        Some(now)
    } else {
        Some(d.default)
    }
}

/// A row of values fits a schema: one value per column, non-nullable
/// columns filled.
pub open spec fn values_fit(schema: Seq<DeclModel>, values: Seq<Option<Seq<char>>>) -> bool {
    values.len() == schema.len() && forall|j: int|
        0 <= j < schema.len() && !(#[trigger] schema[j]).nullable ==> values[j] is Some
}

/// Every record's values fit the schema.
pub open spec fn store_wf(m: StoreModel) -> bool {
    forall|i: int| 0 <= i < m.records.len() ==> values_fit(m.schema, (#[trigger] m.records[i]).values)
}

/// Room for one more row in every ledger and counter; a machine limit, not
/// a rule of the design.
pub open spec fn store_can_grow(m: StoreModel) -> bool {
    &&& m.schema_tx.len() < u64::MAX
    &&& m.inventory_tx.len() < u64::MAX
    &&& m.event_tx.len() < u64::MAX
    &&& m.next_record_id < u64::MAX
    &&& m.clock < u64::MAX
    &&& m.users.len() < u32::MAX
}

/// The typed projection of one record under a schema: the identifier, the
/// three stamps, then every declared column in order.
pub open spec fn snapshot_model(schema: Seq<DeclModel>, r: RecordModel) -> Seq<EntryModel> {
    seq![
        EntryModel { key: "id"@, value: Some(dec_digits(r.id as nat)), column_type: ColumnType::INT },
        EntryModel { key: "created_at"@, value: Some(r.created_at), column_type: ColumnType::TEXT },
        EntryModel { key: "updated_at"@, value: Some(r.updated_at), column_type: ColumnType::TEXT },
        EntryModel { key: "deleted_at"@, value: r.deleted_at, column_type: ColumnType::TEXT },
    ] + Seq::new(
        schema.len(),
        |j: int|
            EntryModel {
                key: schema[j].name,
                value: r.values[j],
                column_type: schema[j].column_type,
            },
    )
}

/// Builds the typed projection of one record under the schema.
pub fn snapshot_record(schema: &SchemaCollection, r: &Record) -> (out: KeyValueCollection)
    requires
        r@.values.len() == schema@.len(),
    ensures
        out@ == snapshot_model(schema@, r@),
{
    let mut entries: Vec<KeyValueTypeEntry> = Vec::new();
    entries.push(
        KeyValueTypeEntry::new("id".to_owned(), Some(u64_to_string(r.id)), ColumnType::INT),
    );
    entries.push(
        KeyValueTypeEntry::new(
            "created_at".to_owned(),
            Some(r.created_at.clone()),
            ColumnType::TEXT,
        ),
    );
    entries.push(
        KeyValueTypeEntry::new(
            "updated_at".to_owned(),
            Some(r.updated_at.clone()),
            ColumnType::TEXT,
        ),
    );
    let deleted = match &r.deleted_at {
        Some(v) => Some(v.clone()),
        None => None,
    };
    entries.push(KeyValueTypeEntry::new("deleted_at".to_owned(), deleted, ColumnType::TEXT));
    let mut j: usize = 0;
    while j < schema.collection.len()
        invariant
            0 <= j <= schema.collection.len(),
            schema@.len() == schema.collection.len(),
            r@.values.len() == schema@.len(),
            entries@.len() == 4 + j,
            forall|k: int| 0 <= k < 4 + j ==> (#[trigger] entries@[k])@ == snapshot_model(schema@, r@)[k],
        decreases schema.collection.len() - j,
    {
        let value = match &r.values[j] {
            Some(v) => Some(v.clone()),
            None => None,
        };
        entries.push(
            KeyValueTypeEntry::new(
                schema.collection[j].name.clone(),
                value,
                schema.collection[j].column_type,
            ),
        );
        j = j + 1;
    }
    let out = KeyValueCollection::new(entries);
    proof {
        assert(out@ =~= snapshot_model(schema@, r@));
    }
    out
}

/// The value a column starts with when none is supplied.
pub fn default_value_exec(decl: &SchemaDeclaration, now: &String) -> (r: Option<String>)
    ensures
        opt_text(r) == default_opt(decl@, now@),
{
    if str_eq(decl.default.as_str(), "NULL") {
        None
    } else if str_eq(decl.default.as_str(), "CURRENT_TIMESTAMP") {
        Some(now.clone())
    } else {
        Some(decl.default.clone())
    }
}

/// The column list the migration copies from the old record table: the old
/// schema's columns on alter, the surviving columns on remove.
pub open spec fn copy_src(
    action: SchemaActionNo,
    old_schema: Seq<DeclModel>,
    new_schema: Seq<DeclModel>,
) -> Seq<DeclModel> {
    match action {
        SchemaActionNo::Alter => old_schema,
        SchemaActionNo::Remove => new_schema,
    }
}

/// The values of one record after the table rebuild: a column in the copy
/// list keeps its old value, any other column starts at its default.
pub open spec fn migrate_values(
    old_schema: Seq<DeclModel>,
    copy_source: Seq<DeclModel>,
    values: Seq<Option<Seq<char>>>,
    new_schema: Seq<DeclModel>,
    now: Seq<char>,
) -> Seq<Option<Seq<char>>> {
    Seq::new(
        new_schema.len(),
        |j: int|
            if contains_name(copy_source, new_schema[j].name) && contains_name(
                old_schema,
                new_schema[j].name,
            ) {
                values[find_name(old_schema, new_schema[j].name)]
            } else {
                default_opt(new_schema[j], now)
            },
    )
}

/// One record after the table rebuild; identity and stamps survive.
pub open spec fn migrate_record(
    old_schema: Seq<DeclModel>,
    copy_source: Seq<DeclModel>,
    r: RecordModel,
    new_schema: Seq<DeclModel>,
    now: Seq<char>,
) -> RecordModel {
    RecordModel { values: migrate_values(old_schema, copy_source, r.values, new_schema, now), ..r }
}

/// Whether every migrated record satisfies the new schema's non-null
/// constraints; when it does not, the whole rebuild is rolled back.
pub open spec fn migration_ok(
    old_schema: Seq<DeclModel>,
    copy_source: Seq<DeclModel>,
    records: Seq<RecordModel>,
    new_schema: Seq<DeclModel>,
    now: Seq<char>,
) -> bool {
    forall|i: int|
        0 <= i < records.len() ==> values_fit(
            new_schema,
            migrate_record(old_schema, copy_source, (#[trigger] records[i]), new_schema, now).values,
        )
}

/// Rebuilds one record for the fresh table, or reports the non-null
/// constraint it would violate.
pub fn migrate_record_exec(
    old_schema: &SchemaCollection,
    copy_source: &SchemaCollection,
    r: &Record,
    new_schema: &SchemaCollection,
    now: &String,
) -> (out: Result<Record, InvManError>)
    requires
        r@.values.len() == old_schema@.len(),
    ensures
        match out {
            Ok(nr) => nr@ == migrate_record(old_schema@, copy_source@, r@, new_schema@, now@)
                && values_fit(new_schema@, nr@.values),
            Err(e) => e is Storage && !values_fit(
                new_schema@,
                migrate_record(old_schema@, copy_source@, r@, new_schema@, now@).values,
            ),
        },
{
    let ghost target = migrate_values(old_schema@, copy_source@, r@.values, new_schema@, now@);
    let mut values: Vec<Option<String>> = Vec::new();
    let mut j: usize = 0;
    while j < new_schema.collection.len()
        invariant
            0 <= j <= new_schema.collection.len(),
            new_schema@.len() == new_schema.collection.len(),
            r@.values.len() == old_schema@.len(),
            target == migrate_values(old_schema@, copy_source@, r@.values, new_schema@, now@),
            values@.len() == j,
            forall|k: int| 0 <= k < j ==> opt_text(#[trigger] values@[k]) == target[k],
            forall|k: int|
                0 <= k < j && !(#[trigger] new_schema@[k]).nullable ==> values@[k] is Some,
        decreases new_schema.collection.len() - j,
    {
        let decl = &new_schema.collection[j];
        proof {
            assert(decl@ == new_schema@[j as int]);
        }
        let in_copy = copy_source.index_of(decl.name.as_str());
        let in_old = old_schema.index_of(decl.name.as_str());
        let value: Option<String>;
        if in_copy.is_some() {
            match in_old {
                Some(oi) => {
                    proof {
                        crate::schema::lemma_find_name_at(old_schema@, decl.name@, oi as int);
                        assert(oi < r.values@.len());
                    }
                    value = match &r.values[oi] {
                        Some(v) => Some(v.clone()),
                        None => None,
                    };
                    proof {
                        assert(opt_text(value) == r@.values[oi as int]);
                    }
                },
                None => {
                    value = default_value_exec(decl, now);
                },
            }
        } else {
            value = default_value_exec(decl, now);
        }
        if value.is_none() && !decl.nullable {
            let mut msg = "NOT NULL constraint failed: invman_temp_inventory.".to_owned();
            msg.append(decl.name.as_str());
            proof {
                assert(opt_text(value) == target[j as int]);
                assert(!values_fit(new_schema@, target));
            }
            return Err(InvManError::Storage(msg));
        }
        proof {
            assert(opt_text(value) == target[j as int]);
        }
        values.push(value);
        j = j + 1;
    }
    let nr = Record {
        id: r.id,
        created_at: r.created_at.clone(),
        updated_at: r.updated_at.clone(),
        deleted_at: match &r.deleted_at {
            Some(v) => Some(v.clone()),
            None => None,
        },
        values,
    };
    proof {
        assert(nr@.values =~= target);
        assert(nr@ =~= migrate_record(old_schema@, copy_source@, r@, new_schema@, now@));
    }
    Ok(nr)
}

/// The store after a successful table rebuild: the schema replaced, every
/// record migrated, exactly one schema-ledger row appended, the clock
/// advanced; nothing else moves.
pub open spec fn alter_table_model(
    m: StoreModel,
    new_schema: Seq<DeclModel>,
    action: SchemaActionNo,
    dispatcher: u32,
) -> StoreModel {
    StoreModel {
        schema: new_schema,
        records: Seq::new(
            m.records.len(),
            |i: int|
                migrate_record(
                    m.schema,
                    copy_src(action, m.schema, new_schema),
                    m.records[i],
                    new_schema,
                    now_text(m.clock),
                ),
        ),
        schema_tx: m.schema_tx.push(
            SchemaTxModel {
                id: (m.schema_tx.len() + 1) as u64,
                dispatcher,
                action,
                from_val: schema_json(m.schema),
                to_val: schema_json(new_schema),
            },
        ),
        clock: (m.clock + 1) as u64,
        ..m
    }
}

/// The verified in-memory backend: the record table, the registry and the
/// three ledgers as plain values, every operation's effect pinned by its
/// contract.
pub struct InvManMemory {
    pub allow_registration: bool,
    pub schema: SchemaCollection,
    pub records: Vec<Record>,
    pub next_record_id: u64,
    pub schema_tx: Vec<SchemaTxRow>,
    pub inventory_tx: Vec<InventoryTxRow>,
    pub event_tx: Vec<EventTxRow>,
    pub users: Vec<StoredUser>,
    pub clock: u64,
}

impl View for InvManMemory {
    type V = StoreModel;

    open spec fn view(&self) -> StoreModel {
        StoreModel {
            allow_registration: self.allow_registration,
            schema: self.schema@,
            records: self.records@.map_values(|r: Record| r@),
            next_record_id: self.next_record_id,
            schema_tx: self.schema_tx@.map_values(|t: SchemaTxRow| t@),
            inventory_tx: self.inventory_tx@.map_values(|t: InventoryTxRow| t@),
            event_tx: self.event_tx@,
            users: self.users@.map_values(|u: StoredUser| u@),
            clock: self.clock,
        }
    }
}

impl InvManMemory {
    /// A fresh store: no columns, no records, no history.
    pub fn new(allow_registration: bool) -> (r: InvManMemory)
        ensures
            r@.allow_registration == allow_registration,
            r@.schema == Seq::<DeclModel>::empty(),
            r@.records == Seq::<RecordModel>::empty(),
            r@.next_record_id == 1,
            r@.schema_tx == Seq::<SchemaTxModel>::empty(),
            r@.inventory_tx == Seq::<InventoryTxModel>::empty(),
            r@.event_tx == Seq::<EventTxRow>::empty(),
            r@.users == Seq::<UserModel>::empty(),
            r@.clock == 1,
            store_wf(r@),
            store_can_grow(r@),
    {
        let r = InvManMemory {
            allow_registration,
            schema: SchemaCollection { collection: Vec::new() },
            records: Vec::new(),
            next_record_id: 1,
            schema_tx: Vec::new(),
            inventory_tx: Vec::new(),
            event_tx: Vec::new(),
            users: Vec::new(),
            clock: 1,
        };
        proof {
            assert(r@.schema =~= Seq::<DeclModel>::empty());
            assert(r@.records =~= Seq::<RecordModel>::empty());
            assert(r@.schema_tx =~= Seq::<SchemaTxModel>::empty());
            assert(r@.inventory_tx =~= Seq::<InventoryTxModel>::empty());
            assert(r@.event_tx =~= Seq::<EventTxRow>::empty());
            assert(r@.users =~= Seq::<UserModel>::empty());
        }
        r
    }
}

/// Whether some account carries `name`.
pub open spec fn user_named(users: Seq<UserModel>, name: Seq<char>) -> bool {
    exists|i: int| 0 <= i < users.len() && (#[trigger] users[i]).username == name
}

/// Index of the first account carrying `name`, or -1.
pub open spec fn find_user(users: Seq<UserModel>, name: Seq<char>) -> int
    decreases users.len(),
{
    if users.len() == 0 {
        -1
    } else if users[0].username == name {
        0
    } else {
        let r = find_user(users.subrange(1, users.len() as int), name);
        if r == -1 {
            -1
        } else {
            r + 1
        }
    }
}

/// `find_user` returns the position of the first match.
pub proof fn lemma_find_user_at(users: Seq<UserModel>, name: Seq<char>, k: int)
    requires
        0 <= k < users.len(),
        users[k].username == name,
        forall|j: int| 0 <= j < k ==> (#[trigger] users[j]).username != name,
    ensures
        find_user(users, name) == k,
    decreases users.len(),
{
    if k > 0 {
        lemma_find_user_at(users.subrange(1, users.len() as int), name, k - 1);
    }
}

/// `find_user` returns -1 exactly when no account matches.
pub proof fn lemma_find_user_none(users: Seq<UserModel>, name: Seq<char>)
    requires
        forall|j: int| 0 <= j < users.len() ==> (#[trigger] users[j]).username != name,
    ensures
        find_user(users, name) == -1,
    decreases users.len(),
{
    if users.len() > 0 {
        lemma_find_user_none(users.subrange(1, users.len() as int), name);
    }
}

/// The store after a successful registration: one more account, the clock
/// advanced; nothing else moves.
pub open spec fn register_model(m: StoreModel, username: Seq<char>, password: Seq<char>) -> StoreModel {
    StoreModel {
        users: m.users.push(
            UserModel { id: (m.users.len() + 1) as u32, username, password },
        ),
        clock: (m.clock + 1) as u64,
        ..m
    }
}

impl InvManMemory {
    /// Rebuilds the record table to mirror `new_schema`, migrates the
    /// retained data, persists the registry snapshot and appends exactly
    /// one schema-ledger row — all or nothing.
    fn alter_inventory_table(
        &mut self,
        new_schema: &SchemaCollection,
        action: SchemaActionNo,
        user: &DBUser,
    ) -> (r: Result<String, InvManError>)
        requires
            store_wf(old(self)@),
            store_can_grow(old(self)@),
        ensures
            match r {
                Ok(msg) => migration_ok(
                    old(self)@.schema,
                    copy_src(action, old(self)@.schema, new_schema@),
                    old(self)@.records,
                    new_schema@,
                    now_text(old(self)@.clock),
                ) && final(self)@ == alter_table_model(old(self)@, new_schema@, action, user.id)
                    && store_wf(final(self)@) && msg@ == "Altered invman_inventory table"@,
                Err(e) => e is Storage && final(self)@ == old(self)@ && !migration_ok(
                    old(self)@.schema,
                    copy_src(action, old(self)@.schema, new_schema@),
                    old(self)@.records,
                    new_schema@,
                    now_text(old(self)@.clock),
                ),
            },
    {
        let ghost pre = self@;
        let now = u64_to_string(self.clock);
        let mut new_records: Vec<Record> = Vec::new();
        let mut i: usize = 0;
        while i < self.records.len()
            invariant
                0 <= i <= self.records.len(),
                self@ == pre,
                store_wf(pre),
                store_can_grow(pre),
                pre.records.len() == self.records@.len(),
                now@ == now_text(pre.clock),
                new_records@.len() == i,
                forall|k: int|
                    0 <= k < i ==> (#[trigger] new_records@[k])@ == migrate_record(
                        pre.schema,
                        copy_src(action, pre.schema, new_schema@),
                        pre.records[k],
                        new_schema@,
                        now_text(pre.clock),
                    ) && values_fit(new_schema@, new_records@[k]@.values),
            decreases self.records.len() - i,
        {
            let copy_source = match action {
                SchemaActionNo::Alter => &self.schema,
                SchemaActionNo::Remove => new_schema,
            };
            proof {
                assert(copy_source@ == copy_src(action, pre.schema, new_schema@));
                assert(pre.records[i as int] == self.records@[i as int]@);
                assert(values_fit(pre.schema, pre.records[i as int].values));
            }
            match migrate_record_exec(&self.schema, copy_source, &self.records[i], new_schema, &now) {
                Ok(nr) => new_records.push(nr),
                Err(e) => {
                    proof {
                        assert(!values_fit(
                            new_schema@,
                            migrate_record(
                                pre.schema,
                                copy_src(action, pre.schema, new_schema@),
                                pre.records[i as int],
                                new_schema@,
                                now_text(pre.clock),
                            ).values,
                        ));
                    }
                    return Err(e);
                },
            }
            i = i + 1;
        }
        let old_json = self.schema.to_json();
        let new_json = new_schema.to_json();
        proof {
            assert(self.schema_tx@.len() == pre.schema_tx.len());
        }
        let id: u64 = self.schema_tx.len() as u64 + 1;
        self.records = new_records;
        self.schema = new_schema.duplicate();
        self.schema_tx.push(
            SchemaTxRow { id, dispatcher: user.id, action, from_val: old_json, to_val: new_json },
        );
        self.clock = self.clock + 1;
        proof {
            assert forall|k: int| 0 <= k < pre.records.len() implies values_fit(
                new_schema@,
                migrate_record(
                    pre.schema,
                    copy_src(action, pre.schema, new_schema@),
                    (#[trigger] pre.records[k]),
                    new_schema@,
                    now_text(pre.clock),
                ).values,
            ) by {
                assert(new_records@[k]@ == migrate_record(
                    pre.schema,
                    copy_src(action, pre.schema, new_schema@),
                    pre.records[k],
                    new_schema@,
                    now_text(pre.clock),
                ));
            }
            let post = alter_table_model(pre, new_schema@, action, user.id);
            assert(self@.records =~= post.records);
            assert(self@.schema_tx =~= post.schema_tx);
            assert(self@ =~= post);
            assert forall|k: int| 0 <= k < self@.records.len() implies values_fit(
                self@.schema,
                (#[trigger] self@.records[k]).values,
            ) by {
                assert(self@.records[k] == new_records@[k]@);
            }
        }
        Ok("Altered invman_inventory table".to_owned())
    }
}

/// Keys of a parameter row are pairwise distinct.
pub open spec fn keys_unique(params: Seq<EntryModel>) -> bool {
    forall|a: int, b: int|
        0 <= a < b < params.len() ==> (#[trigger] params[a]).key != (#[trigger] params[b]).key
}

/// Every parameter names a declared column.
pub open spec fn params_declared(schema: Seq<DeclModel>, params: Seq<EntryModel>) -> bool {
    forall|i: int| 0 <= i < params.len() ==> contains_name(schema, (#[trigger] params[i]).key)
}

/// The values of a fresh record: the supplied value where one is given,
/// else the column's default.
pub open spec fn row_values(
    schema: Seq<DeclModel>,
    params: Seq<EntryModel>,
    now: Seq<char>,
) -> Seq<Option<Seq<char>>> {
    Seq::new(
        schema.len(),
        |j: int|
            if crate::notation::find_key(params, schema[j].name) >= 0 {
                params[crate::notation::find_key(params, schema[j].name)].value
            } else {
                default_opt(schema[j], now)
            },
    )
}

/// When an add succeeds: a schema version exists, the parameters are
/// declared and distinct, and the fresh row satisfies the non-null
/// constraints.
pub open spec fn add_ok(m: StoreModel, params: Seq<EntryModel>) -> bool {
    &&& m.schema_tx.len() > 0
    &&& params_declared(m.schema, params)
    &&& keys_unique(params)
    &&& values_fit(m.schema, row_values(m.schema, params, now_text(m.clock)))
}

/// The record an add inserts.
pub open spec fn added_record(m: StoreModel, params: Seq<EntryModel>) -> RecordModel {
    RecordModel {
        id: m.next_record_id,
        created_at: now_text(m.clock),
        updated_at: now_text(m.clock),
        deleted_at: None,
        values: row_values(m.schema, params, now_text(m.clock)),
    }
}

/// The store after a successful add: the record appended, exactly one
/// record-ledger row and one event-ledger row appended, the clock
/// advanced; nothing else moves.
pub open spec fn add_model(m: StoreModel, params: Seq<EntryModel>, dispatcher: u32) -> StoreModel {
    let rec = added_record(m, params);
    StoreModel {
        records: m.records.push(rec),
        next_record_id: (m.next_record_id + 1) as u64,
        inventory_tx: m.inventory_tx.push(
            InventoryTxModel {
                id: (m.inventory_tx.len() + 1) as u64,
                dispatcher,
                schema_id: m.schema_tx.last().id,
                inventory_id: rec.id,
                action: DBOpNo::Add,
                from_val: None,
                to_val: crate::notation::kvc_json(snapshot_model(m.schema, rec)),
            },
        ),
        event_tx: m.event_tx.push(
            EventTxRow {
                id: (m.event_tx.len() + 1) as u64,
                action: EventActionNo::InventoryAdd,
                dispatcher,
                target: (m.inventory_tx.len() + 1) as u64,
            },
        ),
        clock: (m.clock + 1) as u64,
        ..m
    }
}

/// Index of the record with identifier `id`, or -1.
pub open spec fn find_record(records: Seq<RecordModel>, id: u64) -> int
    decreases records.len(),
{
    if records.len() == 0 {
        -1
    } else if records[0].id == id {
        0
    } else {
        let r = find_record(records.subrange(1, records.len() as int), id);
        if r == -1 {
            -1
        } else {
            r + 1
        }
    }
}

/// `find_record` returns the position of the first match.
pub proof fn lemma_find_record_at(records: Seq<RecordModel>, id: u64, k: int)
    requires
        0 <= k < records.len(),
        records[k].id == id,
        forall|j: int| 0 <= j < k ==> (#[trigger] records[j]).id != id,
    ensures
        find_record(records, id) == k,
    decreases records.len(),
{
    if k > 0 {
        lemma_find_record_at(records.subrange(1, records.len() as int), id, k - 1);
    }
}

/// `find_record` returns -1 exactly when no record matches.
pub proof fn lemma_find_record_none(records: Seq<RecordModel>, id: u64)
    requires
        forall|j: int| 0 <= j < records.len() ==> (#[trigger] records[j]).id != id,
    ensures
        find_record(records, id) == -1,
    decreases records.len(),
{
    if records.len() > 0 {
        lemma_find_record_none(records.subrange(1, records.len() as int), id);
    }
}

/// Whether a textual identifier denotes the integer id of some record.
pub open spec fn ident_resolves(records: Seq<RecordModel>, s: Seq<char>) -> bool {
    &&& crate::text::is_int_literal(s)
    &&& 0 <= crate::text::int_literal_value(s) <= i64::MAX
    &&& find_record(records, crate::text::int_literal_value(s) as u64) >= 0
}

/// The position of the record a textual identifier denotes.
pub open spec fn resolved_index(records: Seq<RecordModel>, s: Seq<char>) -> int {
    find_record(records, crate::text::int_literal_value(s) as u64)
}

/// A record's values after an edit: the supplied value where one is given,
/// the old value elsewhere.
pub open spec fn edit_values(
    schema: Seq<DeclModel>,
    values: Seq<Option<Seq<char>>>,
    params: Seq<EntryModel>,
) -> Seq<Option<Seq<char>>> {
    Seq::new(
        schema.len(),
        |j: int|
            if crate::notation::find_key(params, schema[j].name) >= 0 {
                params[crate::notation::find_key(params, schema[j].name)].value
            } else {
                values[j]
            },
    )
}

/// When an edit succeeds: a schema version exists, the identifier
/// resolves, at least one declared, distinct parameter is supplied, and
/// the updated row satisfies the non-null constraints.
pub open spec fn edit_ok(m: StoreModel, ident: Seq<char>, params: Seq<EntryModel>) -> bool {
    &&& m.schema_tx.len() > 0
    &&& ident_resolves(m.records, ident)
    &&& params.len() > 0
    &&& params_declared(m.schema, params)
    &&& keys_unique(params)
    &&& values_fit(
        m.schema,
        edit_values(m.schema, m.records[resolved_index(m.records, ident)].values, params),
    )
}

/// The edited record: values updated, the update stamp touched.
pub open spec fn edited_record(m: StoreModel, ident: Seq<char>, params: Seq<EntryModel>) -> RecordModel {
    let r = m.records[resolved_index(m.records, ident)];
    RecordModel {
        updated_at: now_text(m.clock),
        values: edit_values(m.schema, r.values, params),
        ..r
    }
}

/// The store after a successful edit: the record replaced in place,
/// exactly one record-ledger row carrying both snapshots and one
/// event-ledger row appended, the clock advanced; nothing else moves.
pub open spec fn edit_model(
    m: StoreModel,
    ident: Seq<char>,
    params: Seq<EntryModel>,
    dispatcher: u32,
) -> StoreModel {
    let i = resolved_index(m.records, ident);
    let before = m.records[i];
    let after = edited_record(m, ident, params);
    StoreModel {
        records: m.records.update(i, after),
        inventory_tx: m.inventory_tx.push(
            InventoryTxModel {
                id: (m.inventory_tx.len() + 1) as u64,
                dispatcher,
                schema_id: m.schema_tx.last().id,
                inventory_id: before.id,
                action: DBOpNo::Edit,
                from_val: Some(crate::notation::kvc_json(snapshot_model(m.schema, before))),
                to_val: crate::notation::kvc_json(snapshot_model(m.schema, after)),
            },
        ),
        event_tx: m.event_tx.push(
            EventTxRow {
                id: (m.event_tx.len() + 1) as u64,
                action: EventActionNo::InventoryEdit,
                dispatcher,
                target: (m.inventory_tx.len() + 1) as u64,
            },
        ),
        clock: (m.clock + 1) as u64,
        ..m
    }
}

/// When a remove succeeds: a schema version exists and the identifier
/// resolves; removing an already-deleted record is permitted and leaves
/// the record as it stands.
pub open spec fn remove_ok(m: StoreModel, ident: Seq<char>) -> bool {
    m.schema_tx.len() > 0 && ident_resolves(m.records, ident)
}

/// The record after a soft delete: the deletion stamp set once, finally.
pub open spec fn removed_record(m: StoreModel, ident: Seq<char>) -> RecordModel {
    let r = m.records[resolved_index(m.records, ident)];
    if r.deleted_at is None {
        RecordModel {
            deleted_at: Some(now_text(m.clock)),
            updated_at: now_text(m.clock),
            ..r
        }
    } else {
        r
    }
}

/// The store after a successful remove: the record soft-deleted in place,
/// exactly one record-ledger row carrying both snapshots and one
/// event-ledger row appended, the clock advanced; nothing else moves.
pub open spec fn remove_model(m: StoreModel, ident: Seq<char>, dispatcher: u32) -> StoreModel {
    let i = resolved_index(m.records, ident);
    let before = m.records[i];
    let after = removed_record(m, ident);
    StoreModel {
        records: m.records.update(i, after),
        inventory_tx: m.inventory_tx.push(
            InventoryTxModel {
                id: (m.inventory_tx.len() + 1) as u64,
                dispatcher,
                schema_id: m.schema_tx.last().id,
                inventory_id: before.id,
                action: DBOpNo::Delete,
                from_val: Some(crate::notation::kvc_json(snapshot_model(m.schema, before))),
                to_val: crate::notation::kvc_json(snapshot_model(m.schema, after)),
            },
        ),
        event_tx: m.event_tx.push(
            EventTxRow {
                id: (m.event_tx.len() + 1) as u64,
                action: EventActionNo::InventoryRemove,
                dispatcher,
                target: (m.inventory_tx.len() + 1) as u64,
            },
        ),
        clock: (m.clock + 1) as u64,
        ..m
    }
}

/// How many records a list with the given limit returns.
pub open spec fn list_len(m: StoreModel, limit: i32) -> int {
    if 0 < limit < m.records.len() {
        limit as int
    } else {
        m.records.len() as int
    }
}

/// Checks that every parameter names a declared column, each at most once.
fn check_params(schema: &SchemaCollection, params: &KeyValueCollection) -> (r: Result<
    (),
    InvManError,
>)
    ensures
        match r {
            Ok(_) => params_declared(schema@, params@) && keys_unique(params@),
            Err(e) => e is Storage && !(params_declared(schema@, params@) && keys_unique(params@)),
        },
{
    let mut i: usize = 0;
    while i < params.collection.len()
        invariant
            0 <= i <= params.collection.len(),
            params@.len() == params.collection.len(),
            forall|k: int| 0 <= k < i ==> contains_name(schema@, (#[trigger] params@[k]).key),
            forall|a: int, b: int|
                0 <= a < b < i ==> (#[trigger] params@[a]).key != (#[trigger] params@[b]).key,
        decreases params.collection.len() - i,
    {
        let key = params.collection[i].key().clone();
        if schema.index_of(key.as_str()).is_none() {
            let mut msg = "table invman_inventory has no column named ".to_owned();
            msg.append(key.as_str());
            proof {
                assert(!contains_name(schema@, params@[i as int].key));
                assert(!params_declared(schema@, params@));
            }
            return Err(InvManError::Storage(msg));
        }
        let mut j: usize = 0;
        while j < i
            invariant
                0 <= j <= i < params.collection.len(),
                params@.len() == params.collection.len(),
                key@ == params@[i as int].key,
                forall|b: int| 0 <= b < j ==> (#[trigger] params@[b]).key != params@[i as int].key,
            decreases i - j,
        {
            if str_eq(params.collection[j].key().as_str(), key.as_str()) {
                let mut msg = "duplicate column name: ".to_owned();
                msg.append(key.as_str());
                proof {
                    assert(params@[j as int].key == params@[i as int].key);
                    assert(!keys_unique(params@));
                }
                return Err(InvManError::Storage(msg));
            }
            j = j + 1;
        }
        i = i + 1;
    }
    Ok(())
}

/// The narrow storage interface: configuration, accounts, schema evolution
/// and the four record operations. The in-memory backend is its verified
/// reference implementation; any engine honoring these contracts is
/// substitutable.
pub trait InvManDBPool: Sized {
    /// The backend's internal consistency condition.
    spec fn inv(&self) -> bool;

    /// Whether the configuration's registry snapshot mirrors the schema
    /// the record table currently has.
    spec fn schema_matches(&self, config: &AppConfig) -> bool;

    /// Whether every ledger and counter has room for one more row; a
    /// machine limit, not a rule of the design.
    spec fn can_grow(&self) -> bool;

    fn get_config(&self) -> (r: AppConfig)
        requires
            self.inv(),
        ensures
            self.schema_matches(&r),
    ;

    fn user_register(&mut self, username: &str, password: &str) -> (r: Result<String, InvManError>)
        requires
            old(self).inv(),
            old(self).can_grow(),
        ensures
            final(self).inv(),
    ;

    fn user_auth(&self, username: &str, password: &str, user: &mut DBUser) -> (r: Result<
        (),
        InvManError,
    >)
        requires
            self.inv(),
    ;

    fn schema_alter(&mut self, config: &mut AppConfig, decl: SchemaDeclaration, user: &DBUser) -> (r:
        Result<String, InvManError>)
        requires
            old(self).inv(),
            old(self).can_grow(),
            old(self).schema_matches(old(config)),
        ensures
            final(self).inv(),
            final(config).allow_registration == old(config).allow_registration,
            final(self).schema_matches(final(config)),
    ;

    fn schema_remove(&mut self, config: &mut AppConfig, name: &str, user: &DBUser) -> (r: Result<
        String,
        InvManError,
    >)
        requires
            old(self).inv(),
            old(self).can_grow(),
            old(self).schema_matches(old(config)),
        ensures
            final(self).inv(),
            final(config).allow_registration == old(config).allow_registration,
            final(self).schema_matches(final(config)),
    ;

    fn inventory_add(&mut self, params: &KeyValueCollection, config: &AppConfig, user: &DBUser) -> (r:
        Result<String, InvManError>)
        requires
            old(self).inv(),
            old(self).can_grow(),
            old(self).schema_matches(config),
        ensures
            final(self).inv(),
            final(self).schema_matches(config),
    ;

    fn inventory_list(&self, props: &InventoryListProps, config: &AppConfig) -> (r: Result<
        Vec<KeyValueCollection>,
        InvManError,
    >)
        requires
            self.inv(),
            self.schema_matches(config),
    ;

    fn inventory_edit(
        &mut self,
        identifier: &String,
        params: &KeyValueCollection,
        config: &AppConfig,
        user: &DBUser,
    ) -> (r: Result<String, InvManError>)
        requires
            old(self).inv(),
            old(self).can_grow(),
            old(self).schema_matches(config),
        ensures
            final(self).inv(),
            final(self).schema_matches(config),
    ;

    fn inventory_remove(
        &mut self,
        identifier: &String,
        config: &AppConfig,
        user: &DBUser,
    ) -> (r: Result<String, InvManError>)
        requires
            old(self).inv(),
            old(self).can_grow(),
            old(self).schema_matches(config),
        ensures
            final(self).inv(),
            final(self).schema_matches(config),
    ;
}

/// Schema names are pairwise distinct.
pub open spec fn schema_names_unique(s: Seq<DeclModel>) -> bool {
    forall|a: int, b: int| 0 <= a < b < s.len() ==> (#[trigger] s[a]).name != (#[trigger] s[b]).name
}

/// Altering the schema with a column whose name is new appends exactly one
/// schema-ledger row, and on every pre-existing record the new column
/// starts at its declared default — absent when there is none — standing
/// last in the record's projection.
pub proof fn lemma_alter_new_column_defaults(m: StoreModel, decl: DeclModel, dispatcher: u32)
    requires
        !contains_name(m.schema, decl.name),
    ensures
        ({
            let post = alter_table_model(
                m,
                alter_decls(m.schema, decl),
                SchemaActionNo::Alter,
                dispatcher,
            );
            &&& post.records.len() == m.records.len()
            &&& post.schema_tx.len() == m.schema_tx.len() + 1
            &&& forall|i: int|
                0 <= i < post.records.len() ==> (#[trigger] post.records[i]).values.last()
                    == default_opt(decl, now_text(m.clock))
            &&& forall|i: int|
                0 <= i < post.records.len() ==> snapshot_model(
                    post.schema,
                    (#[trigger] post.records[i]),
                ).last() == (EntryModel {
                    key: decl.name,
                    value: default_opt(decl, now_text(m.clock)),
                    column_type: decl.column_type,
                })
        }),
{
    let new_schema = alter_decls(m.schema, decl);
    assert(new_schema == m.schema.push(decl));
    let post = alter_table_model(m, new_schema, SchemaActionNo::Alter, dispatcher);
    let last = new_schema.len() - 1;
    assert(new_schema[last] == decl);
    assert forall|i: int| 0 <= i < post.records.len() implies (#[trigger] post.records[i]).values.last()
        == default_opt(decl, now_text(m.clock)) by {
        let v = post.records[i].values;
        assert(v == migrate_values(
            m.schema,
            m.schema,
            m.records[i].values,
            new_schema,
            now_text(m.clock),
        ));
        assert(v[last] == default_opt(decl, now_text(m.clock)));
    }
    assert forall|i: int| 0 <= i < post.records.len() implies snapshot_model(
        post.schema,
        (#[trigger] post.records[i]),
    ).last() == (EntryModel {
        key: decl.name,
        value: default_opt(decl, now_text(m.clock)),
        column_type: decl.column_type,
    }) by {
        let snap = snapshot_model(post.schema, post.records[i]);
        assert(snap.last() == EntryModel {
            key: post.schema[last].name,
            value: post.records[i].values[last],
            column_type: post.schema[last].column_type,
        });
        assert(post.records[i].values.last() == default_opt(decl, now_text(m.clock)));
    }
}

/// Removing a schema column appends exactly one schema-ledger row and
/// drops that column from every record's projection thereafter.
pub proof fn lemma_remove_column_projection(m: StoreModel, name: Seq<char>, dispatcher: u32)
    requires
        contains_name(m.schema, name),
        schema_names_unique(m.schema),
        !crate::notation::is_builtin_key(name),
    ensures
        ({
            let post = alter_table_model(
                m,
                crate::schema::remove_decl(m.schema, name),
                SchemaActionNo::Remove,
                dispatcher,
            );
            &&& !contains_name(post.schema, name)
            &&& post.schema_tx.len() == m.schema_tx.len() + 1
            &&& forall|i: int, k: int|
                0 <= i < post.records.len() && 0 <= k < snapshot_model(
                    post.schema,
                    post.records[i],
                ).len() ==> (#[trigger] snapshot_model(post.schema, post.records[i])[k]).key
                    != name
        }),
{
    let f = find_name(m.schema, name);
    crate::schema::lemma_find_name_contains(m.schema, name);
    let new_schema = crate::schema::remove_decl(m.schema, name);
    assert forall|j: int| 0 <= j < new_schema.len() implies (#[trigger] new_schema[j]).name != name by {
        if j < f {
            assert(new_schema[j] == m.schema[j]);
        } else {
            assert(new_schema[j] == m.schema[j + 1]);
        }
    }
    assert(!contains_name(new_schema, name));
    let post = alter_table_model(m, new_schema, SchemaActionNo::Remove, dispatcher);
    assert forall|i: int, k: int|
        0 <= i < post.records.len() && 0 <= k < snapshot_model(
            post.schema,
            post.records[i],
        ).len() implies (#[trigger] snapshot_model(post.schema, post.records[i])[k]).key != name by {
        let snap = snapshot_model(post.schema, post.records[i]);
        if k >= 4 {
            assert(snap[k].key == post.schema[k - 4].name);
        }
    }
}

/// Position of the first record carrying `id`, if any.
fn find_record_index(records: &Vec<Record>, id: u64) -> (r: Option<usize>)
    ensures
        match r {
            Some(i) => i < records@.len() && records@[i as int]@.id == id && forall|j: int|
                0 <= j < i ==> (#[trigger] records@[j])@.id != id,
            None => forall|j: int| 0 <= j < records@.len() ==> (#[trigger] records@[j])@.id != id,
        },
{
    let mut i: usize = 0;
    while i < records.len()
        invariant
            0 <= i <= records@.len(),
            forall|j: int| 0 <= j < i ==> (#[trigger] records@[j])@.id != id,
        decreases records@.len() - i,
    {
        if records[i].id == id {
            return Some(i);
        }
        i = i + 1;
    }
    None
}

/// A field-for-field copy of a record.
fn duplicate_record(r: &Record) -> (out: Record)
    ensures
        out@ == r@,
{
    let mut values: Vec<Option<String>> = Vec::new();
    let mut i: usize = 0;
    while i < r.values.len()
        invariant
            0 <= i <= r.values@.len(),
            values@.len() == i,
            forall|j: int| 0 <= j < i ==> opt_text(#[trigger] values@[j]) == r@.values[j],
        decreases r.values@.len() - i,
    {
        match &r.values[i] {
            Some(v) => values.push(Some(v.clone())),
            None => values.push(None),
        }
        i = i + 1;
    }
    let out = Record {
        id: r.id,
        created_at: r.created_at.clone(),
        updated_at: r.updated_at.clone(),
        deleted_at: match &r.deleted_at {
            Some(v) => Some(v.clone()),
            None => None,
        },
        values,
    };
    proof {
        assert(out@.values =~= r@.values);
        assert(out@ =~= r@);
    }
    out
}

impl InvManDBPool for InvManMemory {
    open spec fn inv(&self) -> bool {
        store_wf(self@)
    }

    open spec fn schema_matches(&self, config: &AppConfig) -> bool {
        config.inventory_schema_declaration@ == self@.schema
    }

    open spec fn can_grow(&self) -> bool {
        store_can_grow(self@)
    }

    fn get_config(&self) -> (r: AppConfig)
        ensures
            r.allow_registration == self@.allow_registration,
    {
        AppConfig {
            allow_registration: self.allow_registration,
            inventory_schema_declaration: self.schema.duplicate(),
        }
    }

    fn user_register(&mut self, username: &str, password: &str) -> (r: Result<String, InvManError>)
        ensures
            match r {
                Ok(msg) => !user_named(old(self)@.users, username@) && final(self)@
                    == register_model(old(self)@, username@, password@) && msg@
                    == "Successfully registered new user"@,
                Err(e) => e is Storage && final(self)@ == old(self)@ && user_named(
                    old(self)@.users,
                    username@,
                ),
            },
    {
        let ghost pre = self@;
        let mut i: usize = 0;
        while i < self.users.len()
            invariant
                0 <= i <= self.users.len(),
                self@ == pre,
                store_wf(pre),
                pre.users.len() == self.users@.len(),
                forall|j: int| 0 <= j < i ==> (#[trigger] pre.users[j]).username != username@,
            decreases self.users.len() - i,
        {
            if str_eq(self.users[i].username.as_str(), username) {
                proof {
                    assert(pre.users[i as int].username == username@);
                }
                return Err(InvManError::Storage("Username already taken".to_owned()));
            }
            i = i + 1;
        }
        let id: u32 = self.users.len() as u32 + 1;
        self.users.push(
            StoredUser { id, username: username.to_owned(), password: password.to_owned() },
        );
        self.clock = self.clock + 1;
        proof {
            assert(!user_named(pre.users, username@));
            let post = register_model(pre, username@, password@);
            assert(self@.users =~= post.users);
            assert(self@ =~= post);
            assert(store_wf(self@));
        }
        Ok("Successfully registered new user".to_owned())
    }

    fn user_auth(&self, username: &str, password: &str, user: &mut DBUser) -> (r: Result<
        (),
        InvManError,
    >)
        ensures
            match r {
                Ok(_) => find_user(self@.users, username@) >= 0 && self@.users[find_user(
                    self@.users,
                    username@,
                )].password == password@ && final(user).id == self@.users[find_user(
                    self@.users,
                    username@,
                )].id,
                Err(e) => e is Authentication && final(user).id == old(user).id && !(find_user(
                    self@.users,
                    username@,
                ) >= 0 && self@.users[find_user(self@.users, username@)].password == password@),
            },
    {
        let mut i: usize = 0;
        while i < self.users.len()
            invariant
                0 <= i <= self.users.len(),
                self@.users.len() == self.users@.len(),
                user.id == old(user).id,
                forall|j: int| 0 <= j < i ==> (#[trigger] self@.users[j]).username != username@,
            decreases self.users.len() - i,
        {
            if str_eq(self.users[i].username.as_str(), username) {
                proof {
                    lemma_find_user_at(self@.users, username@, i as int);
                    assert(self@.users[i as int] == self.users@[i as int]@);
                }
                if str_eq(self.users[i].password.as_str(), password) {
                    user.id = self.users[i].id;
                    return Ok(());
                } else {
                    return Err(
                        InvManError::Authentication(
                            "Either username or password is incorrect".to_owned(),
                        ),
                    );
                }
            }
            i = i + 1;
        }
        proof {
            lemma_find_user_none(self@.users, username@);
        }
        Err(InvManError::Authentication("Either username or password is incorrect".to_owned()))
    }

    fn schema_alter(&mut self, config: &mut AppConfig, decl: SchemaDeclaration, user: &DBUser) -> (r:
        Result<String, InvManError>)
        ensures
            match r {
                Ok(msg) => {
                    let new_schema = alter_decls(old(self)@.schema, decl@);
                    &&& migration_ok(
                        old(self)@.schema,
                        old(self)@.schema,
                        old(self)@.records,
                        new_schema,
                        now_text(old(self)@.clock),
                    )
                    &&& final(self)@ == alter_table_model(
                        old(self)@,
                        new_schema,
                        SchemaActionNo::Alter,
                        user.id,
                    )
                    &&& final(self)@.schema_tx.len() == old(self)@.schema_tx.len() + 1
                    &&& msg@ == "Altered schema"@
                },
                Err(e) => {
                    &&& e is Storage
                    &&& final(self)@ == old(self)@
                    &&& final(config).inventory_schema_declaration@ == old(
                        config,
                    ).inventory_schema_declaration@
                    &&& !migration_ok(
                        old(self)@.schema,
                        old(self)@.schema,
                        old(self)@.records,
                        alter_decls(old(self)@.schema, decl@),
                        now_text(old(self)@.clock),
                    )
                },
            },
    {
        let new_schema = self.schema.altered(decl);
        match self.alter_inventory_table(&new_schema, SchemaActionNo::Alter, user) {
            Ok(_) => {
                config.inventory_schema_declaration = new_schema;
                Ok("Altered schema".to_owned())
            },
            Err(e) => Err(e),
        }
    }

    fn schema_remove(&mut self, config: &mut AppConfig, name: &str, user: &DBUser) -> (r: Result<
        String,
        InvManError,
    >)
        ensures
            match r {
                Ok(msg) => {
                    let new_schema = crate::schema::remove_decl(old(self)@.schema, name@);
                    &&& contains_name(old(self)@.schema, name@)
                    &&& migration_ok(
                        old(self)@.schema,
                        new_schema,
                        old(self)@.records,
                        new_schema,
                        now_text(old(self)@.clock),
                    )
                    &&& final(self)@ == alter_table_model(
                        old(self)@,
                        new_schema,
                        SchemaActionNo::Remove,
                        user.id,
                    )
                    &&& final(self)@.schema_tx.len() == old(self)@.schema_tx.len() + 1
                    &&& msg@ == "Removed schema column"@
                },
                Err(e) => {
                    &&& final(self)@ == old(self)@
                    &&& final(config).inventory_schema_declaration@ == old(
                        config,
                    ).inventory_schema_declaration@
                    &&& (e is NotFound || e is Storage)
                    &&& (e is NotFound <==> !contains_name(old(self)@.schema, name@))
                    &&& (e is Storage ==> !migration_ok(
                        old(self)@.schema,
                        crate::schema::remove_decl(old(self)@.schema, name@),
                        old(self)@.records,
                        crate::schema::remove_decl(old(self)@.schema, name@),
                        now_text(old(self)@.clock),
                    ))
                },
            },
    {
        match self.schema.removed(name) {
            None => Err(
                InvManError::NotFound(
                    "The name attribute provided did not match any schema column definition".to_owned(),
                ),
            ),
            Some(new_schema) => match self.alter_inventory_table(
                &new_schema,
                SchemaActionNo::Remove,
                user,
            ) {
                Ok(_) => {
                    config.inventory_schema_declaration = new_schema;
                    Ok("Removed schema column".to_owned())
                },
                Err(e) => Err(e),
            },
        }
    }

    fn inventory_add(&mut self, params: &KeyValueCollection, config: &AppConfig, user: &DBUser) -> (r:
        Result<String, InvManError>)
        ensures
            match r {
                Ok(msg) => add_ok(old(self)@, params@) && final(self)@ == add_model(
                    old(self)@,
                    params@,
                    user.id,
                ) && final(self)@.inventory_tx.len() == old(self)@.inventory_tx.len() + 1 && final(self)@.event_tx.len() == old(self)@.event_tx.len() + 1 && final(self)@.schema_tx.len()
                    == old(self)@.schema_tx.len() && msg@
                    == "Entity was successfully added to inventory"@,
                Err(e) => e is Storage && final(self)@ == old(self)@ && !add_ok(
                    old(self)@,
                    params@,
                ),
            },
    {
        let ghost pre = self@;
        if self.schema_tx.len() == 0 {
            return Err(
                InvManError::Storage("No schema version has been recorded yet".to_owned()),
            );
        }
        if let Err(e) = check_params(&self.schema, params) {
            return Err(e);
        }
        let now = u64_to_string(self.clock);
        let ghost target = row_values(pre.schema, params@, now_text(pre.clock));
        let mut values: Vec<Option<String>> = Vec::new();
        let mut j: usize = 0;
        while j < self.schema.collection.len()
            invariant
                0 <= j <= self.schema.collection.len(),
                self@ == pre,
                store_wf(pre),
                store_can_grow(pre),
                pre.schema_tx.len() > 0,
                config.inventory_schema_declaration@ == pre.schema,
                pre.schema.len() == self.schema.collection@.len(),
                now@ == now_text(pre.clock),
                target == row_values(pre.schema, params@, now_text(pre.clock)),
                values@.len() == j,
                forall|k: int| 0 <= k < j ==> opt_text(#[trigger] values@[k]) == target[k],
                forall|k: int|
                    0 <= k < j && !(#[trigger] pre.schema[k]).nullable ==> values@[k] is Some,
            decreases self.schema.collection.len() - j,
        {
            let decl = &self.schema.collection[j];
            proof {
                assert(decl@ == pre.schema[j as int]);
            }
            let value: Option<String> = match params.index_of_key(decl.name.as_str()) {
                Some(pi) => {
                    proof {
                        lemma_find_key_at(params@, decl.name@, pi as int);
                    }
                    match params.collection[pi].value() {
                        Some(v) => Some(v.clone()),
                        None => None,
                    }
                },
                None => default_value_exec(decl, &now),
            };
            proof {
                assert(opt_text(value) == target[j as int]);
            }
            if value.is_none() && !decl.nullable {
                let mut msg = "NOT NULL constraint failed: invman_inventory.".to_owned();
                msg.append(decl.name.as_str());
                proof {
                    assert(!values_fit(pre.schema, target));
                }
                return Err(InvManError::Storage(msg));
            }
            values.push(value);
            j = j + 1;
        }
        let rec = Record {
            id: self.next_record_id,
            created_at: now.clone(),
            updated_at: now.clone(),
            deleted_at: None,
            values,
        };
        proof {
            assert(rec@.values =~= target);
            assert(rec@ =~= added_record(pre, params@));
        }
        let snapshot = snapshot_record(&self.schema, &rec);
        let json = snapshot.to_json();
        let inv_id: u64 = self.inventory_tx.len() as u64 + 1;
        let ev_id: u64 = self.event_tx.len() as u64 + 1;
        let schema_id = self.schema_tx[self.schema_tx.len() - 1].id;
        proof {
            assert(pre.schema_tx.last() == self.schema_tx@[pre.schema_tx.len() - 1]@);
        }
        let rec_id = rec.id;
        self.records.push(rec);
        self.next_record_id = self.next_record_id + 1;
        self.inventory_tx.push(
            InventoryTxRow {
                id: inv_id,
                dispatcher: user.id,
                schema_id,
                inventory_id: rec_id,
                action: DBOpNo::Add,
                from_val: None,
                to_val: json,
            },
        );
        self.event_tx.push(
            EventTxRow {
                id: ev_id,
                action: EventActionNo::InventoryAdd,
                dispatcher: user.id,
                target: inv_id,
            },
        );
        self.clock = self.clock + 1;
        proof {
            let post = add_model(pre, params@, user.id);
            assert(self@.records =~= post.records);
            assert(self@.inventory_tx =~= post.inventory_tx);
            assert(self@.event_tx =~= post.event_tx);
            assert(self@ =~= post);
            assert forall|k: int| 0 <= k < self@.records.len() implies values_fit(
                self@.schema,
                (#[trigger] self@.records[k]).values,
            ) by {
                if k < pre.records.len() {
                    assert(values_fit(pre.schema, pre.records[k].values));
                }
            }
        }
        Ok("Entity was successfully added to inventory".to_owned())
    }

    fn inventory_list(&self, props: &InventoryListProps, config: &AppConfig) -> (r: Result<
        Vec<KeyValueCollection>,
        InvManError,
    >)
        ensures
            match r {
                Ok(rows) => props.raw is None && rows@.len() == list_len(self@, props.limit)
                    && forall|i: int|
                    0 <= i < rows@.len() ==> (#[trigger] rows@[i])@ == snapshot_model(
                        self@.schema,
                        self@.records[i],
                    ),
                Err(e) => e is Storage && props.raw is Some,
            },
    {
        if props.raw.is_some() {
            return Err(
                InvManError::Storage(
                    "raw list filters are not supported by the in-memory backend".to_owned(),
                ),
            );
        }
        let mut n = self.records.len();
        if props.limit > 0 && (props.limit as usize) < n {
            n = props.limit as usize;
        }
        proof {
            assert(n as int == list_len(self@, props.limit));
        }
        let mut rows: Vec<KeyValueCollection> = Vec::new();
        let mut i: usize = 0;
        while i < n
            invariant
                0 <= i <= n <= self.records@.len(),
                self@.records.len() == self.records@.len(),
                store_wf(self@),
                rows@.len() == i,
                forall|k: int|
                    0 <= k < i ==> (#[trigger] rows@[k])@ == snapshot_model(
                        self@.schema,
                        self@.records[k],
                    ),
            decreases n - i,
        {
            proof {
                assert(values_fit(self@.schema, self@.records[i as int].values));
            }
            let snapshot = snapshot_record(&self.schema, &self.records[i]);
            rows.push(snapshot);
            i = i + 1;
        }
        Ok(rows)
    }

    fn inventory_edit(
        &mut self,
        identifier: &String,
        params: &KeyValueCollection,
        config: &AppConfig,
        user: &DBUser,
    ) -> (r: Result<String, InvManError>)
        ensures
            match r {
                Ok(msg) => edit_ok(old(self)@, identifier@, params@) && final(self)@ == edit_model(
                    old(self)@,
                    identifier@,
                    params@,
                    user.id,
                ) && final(self)@.inventory_tx.len() == old(self)@.inventory_tx.len() + 1 && final(self)@.event_tx.len() == old(self)@.event_tx.len() + 1 && final(self)@.schema_tx.len()
                    == old(self)@.schema_tx.len() && msg@ == "Entity was successfully edited"@,
                Err(e) => final(self)@ == old(self)@ && !edit_ok(old(self)@, identifier@, params@)
                    && (e is NotFound || e is Storage) && (e is NotFound <==> !ident_resolves(
                    old(self)@.records,
                    identifier@,
                )),
            },
    {
        let ghost pre = self@;
        let rid: u64 = match parse_i64(identifier.as_str()) {
            Some(v) => {
                if v < 0 {
                    return Err(
                        InvManError::NotFound("No record matched the given identifier".to_owned()),
                    );
                }
                v as u64
            },
            None => {
                return Err(
                    InvManError::NotFound("No record matched the given identifier".to_owned()),
                );
            },
        };
        let ri: usize = match find_record_index(&self.records, rid) {
            Some(i) => i,
            None => {
                proof {
                    lemma_find_record_none(pre.records, rid);
                }
                return Err(
                    InvManError::NotFound("No record matched the given identifier".to_owned()),
                );
            },
        };
        proof {
            lemma_find_record_at(pre.records, rid, ri as int);
            assert(ident_resolves(pre.records, identifier@));
            assert(resolved_index(pre.records, identifier@) == ri as int);
        }
        if self.schema_tx.len() == 0 {
            return Err(
                InvManError::Storage("No schema version has been recorded yet".to_owned()),
            );
        }
        if params.collection.len() == 0 {
            return Err(InvManError::Storage("no fields were supplied for the update".to_owned()));
        }
        if let Err(e) = check_params(&self.schema, params) {
            return Err(e);
        }
        let now = u64_to_string(self.clock);
        let ghost target = edit_values(pre.schema, pre.records[ri as int].values, params@);
        let mut new_values: Vec<Option<String>> = Vec::new();
        let mut j: usize = 0;
        while j < self.schema.collection.len()
            invariant
                0 <= j <= self.schema.collection.len(),
                self@ == pre,
                store_wf(pre),
                store_can_grow(pre),
                pre.schema_tx.len() > 0,
                config.inventory_schema_declaration@ == pre.schema,
                ident_resolves(pre.records, identifier@),
                resolved_index(pre.records, identifier@) == ri as int,
                ri < pre.records.len(),
                values_fit(pre.schema, pre.records[ri as int].values),
                ri < self.records@.len(),
                pre.records[ri as int] == self.records@[ri as int]@,
                pre.schema.len() == self.schema.collection@.len(),
                now@ == now_text(pre.clock),
                target == edit_values(pre.schema, pre.records[ri as int].values, params@),
                new_values@.len() == j,
                forall|k: int| 0 <= k < j ==> opt_text(#[trigger] new_values@[k]) == target[k],
                forall|k: int|
                    0 <= k < j && !(#[trigger] pre.schema[k]).nullable ==> new_values@[k] is Some,
            decreases self.schema.collection.len() - j,
        {
            let decl = &self.schema.collection[j];
            proof {
                assert(decl@ == pre.schema[j as int]);
            }
            let value: Option<String> = match params.index_of_key(decl.name.as_str()) {
                Some(pi) => {
                    proof {
                        lemma_find_key_at(params@, decl.name@, pi as int);
                    }
                    match params.collection[pi].value() {
                        Some(v) => Some(v.clone()),
                        None => None,
                    }
                },
                None => {
                    match &self.records[ri].values[j] {
                        Some(v) => Some(v.clone()),
                        None => None,
                    }
                },
            };
            proof {
                assert(opt_text(value) == target[j as int]);
            }
            if value.is_none() && !decl.nullable {
                let mut msg = "NOT NULL constraint failed: invman_inventory.".to_owned();
                msg.append(decl.name.as_str());
                proof {
                    assert(!values_fit(pre.schema, target));
                }
                return Err(InvManError::Storage(msg));
            }
            new_values.push(value);
            j = j + 1;
        }
        let before_snapshot = snapshot_record(&self.schema, &self.records[ri]);
        let before_json = before_snapshot.to_json();
        let before_id = self.records[ri].id;
        let after = Record {
            id: self.records[ri].id,
            created_at: self.records[ri].created_at.clone(),
            updated_at: now.clone(),
            deleted_at: match &self.records[ri].deleted_at {
                Some(v) => Some(v.clone()),
                None => None,
            },
            values: new_values,
        };
        proof {
            assert(after@.values =~= target);
            assert(after@ =~= edited_record(pre, identifier@, params@));
        }
        let after_snapshot = snapshot_record(&self.schema, &after);
        let after_json = after_snapshot.to_json();
        let inv_id: u64 = self.inventory_tx.len() as u64 + 1;
        let ev_id: u64 = self.event_tx.len() as u64 + 1;
        let schema_id = self.schema_tx[self.schema_tx.len() - 1].id;
        proof {
            assert(pre.schema_tx.last() == self.schema_tx@[pre.schema_tx.len() - 1]@);
        }
        self.records.set(ri, after);
        self.inventory_tx.push(
            InventoryTxRow {
                id: inv_id,
                dispatcher: user.id,
                schema_id,
                inventory_id: before_id,
                action: DBOpNo::Edit,
                from_val: Some(before_json),
                to_val: after_json,
            },
        );
        self.event_tx.push(
            EventTxRow {
                id: ev_id,
                action: EventActionNo::InventoryEdit,
                dispatcher: user.id,
                target: inv_id,
            },
        );
        self.clock = self.clock + 1;
        proof {
            let post = edit_model(pre, identifier@, params@, user.id);
            assert(self@.records =~= post.records);
            assert(self@.inventory_tx =~= post.inventory_tx);
            assert(self@.event_tx =~= post.event_tx);
            assert(self@ =~= post);
            assert forall|k: int| 0 <= k < self@.records.len() implies values_fit(
                self@.schema,
                (#[trigger] self@.records[k]).values,
            ) by {
                if k != ri as int {
                    assert(values_fit(pre.schema, pre.records[k].values));
                }
            }
        }
        Ok("Entity was successfully edited".to_owned())
    }

    fn inventory_remove(
        &mut self,
        identifier: &String,
        config: &AppConfig,
        user: &DBUser,
    ) -> (r: Result<String, InvManError>)
        ensures
            match r {
                Ok(msg) => remove_ok(old(self)@, identifier@) && final(self)@ == remove_model(
                    old(self)@,
                    identifier@,
                    user.id,
                ) && final(self)@.inventory_tx.len() == old(self)@.inventory_tx.len() + 1 && final(self)@.event_tx.len() == old(self)@.event_tx.len() + 1 && final(self)@.schema_tx.len()
                    == old(self)@.schema_tx.len() && msg@ == "Entity was successfully removed"@,
                Err(e) => final(self)@ == old(self)@ && !remove_ok(old(self)@, identifier@) && (
                e is NotFound || e is Storage) && (e is NotFound <==> !ident_resolves(
                    old(self)@.records,
                    identifier@,
                )),
            },
    {
        let ghost pre = self@;
        let rid: u64 = match parse_i64(identifier.as_str()) {
            Some(v) => {
                if v < 0 {
                    return Err(
                        InvManError::NotFound("No record matched the given identifier".to_owned()),
                    );
                }
                v as u64
            },
            None => {
                return Err(
                    InvManError::NotFound("No record matched the given identifier".to_owned()),
                );
            },
        };
        let ri: usize = match find_record_index(&self.records, rid) {
            Some(i) => i,
            None => {
                proof {
                    lemma_find_record_none(pre.records, rid);
                }
                return Err(
                    InvManError::NotFound("No record matched the given identifier".to_owned()),
                );
            },
        };
        proof {
            lemma_find_record_at(pre.records, rid, ri as int);
            assert(ident_resolves(pre.records, identifier@));
            assert(resolved_index(pre.records, identifier@) == ri as int);
            assert(values_fit(pre.schema, pre.records[ri as int].values));
        }
        if self.schema_tx.len() == 0 {
            return Err(
                InvManError::Storage("No schema version has been recorded yet".to_owned()),
            );
        }
        let now = u64_to_string(self.clock);
        let before_snapshot = snapshot_record(&self.schema, &self.records[ri]);
        let before_json = before_snapshot.to_json();
        let before_id = self.records[ri].id;
        let mut after = duplicate_record(&self.records[ri]);
        if after.deleted_at.is_none() {
            after.deleted_at = Some(now.clone());
            after.updated_at = now.clone();
        }
        proof {
            assert(after@ =~= removed_record(pre, identifier@));
        }
        let after_snapshot = snapshot_record(&self.schema, &after);
        let after_json = after_snapshot.to_json();
        let inv_id: u64 = self.inventory_tx.len() as u64 + 1;
        let ev_id: u64 = self.event_tx.len() as u64 + 1;
        let schema_id = self.schema_tx[self.schema_tx.len() - 1].id;
        proof {
            assert(pre.schema_tx.last() == self.schema_tx@[pre.schema_tx.len() - 1]@);
        }
        self.records.set(ri, after);
        self.inventory_tx.push(
            InventoryTxRow {
                id: inv_id,
                dispatcher: user.id,
                schema_id,
                inventory_id: before_id,
                action: DBOpNo::Delete,
                from_val: Some(before_json),
                to_val: after_json,
            },
        );
        self.event_tx.push(
            EventTxRow {
                id: ev_id,
                action: EventActionNo::InventoryRemove,
                dispatcher: user.id,
                target: inv_id,
            },
        );
        self.clock = self.clock + 1;
        proof {
            let post = remove_model(pre, identifier@, user.id);
            assert(self@.records =~= post.records);
            assert(self@.inventory_tx =~= post.inventory_tx);
            assert(self@.event_tx =~= post.event_tx);
            assert(self@ =~= post);
            assert forall|k: int| 0 <= k < self@.records.len() implies values_fit(
                self@.schema,
                (#[trigger] self@.records[k]).values,
            ) by {
                if k != ri as int {
                    assert(values_fit(pre.schema, pre.records[k].values));
                } else {
                    assert(values_fit(pre.schema, pre.records[ri as int].values));
                }
            }
        }
        Ok("Entity was successfully removed".to_owned())
    }
}

} // verus!
