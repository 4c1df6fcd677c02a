//! The typed value codec: `name=value` notation parsed against the current
//! schema, value checks directed by the declared column type, and the JSON
//! and SQL forms of typed fields.
use crate::schema::{
    contains_name, decls_of, find_name, lemma_find_name_at, schema_json, ColumnType, DeclModel,
    SchemaCollection, SchemaDeclaration,
};
use crate::text::{
    ascii_lower_seq, dec_digits, decimal_frac_nonzero, decimal_int_part, decimal_is_negative,
    find_char, int_literal_value, is_decimal_literal, is_int_literal, min_cap, parse_decimal,
    parse_i64, split_at_char, str_eq, to_ascii_lower, u64_to_string,
};
use crate::InvManError;
use vstd::prelude::*;

verus! {

/// The text of an optional textual value.
pub open spec fn opt_text(o: Option<String>) -> Option<Seq<char>> {
    match o {
        Some(s) => Some(s@),
        None => None,
    }
}

/// The mathematical shape of one typed field.
#[verifier::ext_equal]
pub struct EntryModel {
    pub key: Seq<char>,
    pub value: Option<Seq<char>>,
    pub column_type: ColumnType,
}

/// One typed field: its column name, its optional textual value, and the
/// declared type directing its JSON form.
pub struct KeyValueTypeEntry {
    key: String,
    value: Option<String>,
    column_type: ColumnType,
}

impl View for KeyValueTypeEntry {
    type V = EntryModel;

    closed spec fn view(&self) -> EntryModel {
        EntryModel { key: self.key@, value: opt_text(self.value), column_type: self.column_type }
    }
}

impl KeyValueTypeEntry {
    pub fn new(key: String, value: Option<String>, column_type: ColumnType) -> (r:
        KeyValueTypeEntry)
        ensures
            r@ == (EntryModel { key: key@, value: opt_text(value), column_type }),
    {
        KeyValueTypeEntry { key, value, column_type }
    }

    pub fn key(&self) -> (r: &String)
        ensures
            r@ == self@.key,
    {
        &self.key
    }

    pub fn value(&self) -> (r: &Option<String>)
        ensures
            opt_text(*r) == self@.value,
    {
        &self.value
    }

    pub fn column_type(&self) -> (r: ColumnType)
        ensures
            r == self@.column_type,
    {
        self.column_type
    }

    /// A field-for-field copy.
    pub fn duplicate(&self) -> (r: KeyValueTypeEntry)
        ensures
            r@ == self@,
    {
        KeyValueTypeEntry {
            key: self.key.clone(),
            value: match &self.value {
                Some(v) => Some(v.clone()),
                None => None,
            },
            column_type: self.column_type,
        }
    }

    /// The field's `"key":value` JSON notation.
    pub fn to_json_notation(&self) -> (r: String)
        ensures
            r@ == entry_json_notation(self@),
    {
        let mut out = "\"".to_owned();
        out.append(self.key.as_str());
        out.append("\":");
        match &self.value {
            None => out.append("null"),
            Some(val) => match self.column_type {
                ColumnType::TEXT | ColumnType::VARCHAR => {
                    out.append("\"");
                    out.append(val.as_str());
                    out.append("\"");
                },
                ColumnType::BOOL => {
                    if str_eq(val.as_str(), "true") || str_eq(val.as_str(), "1") {
                        out.append("true");
                    } else {
                        out.append("false");
                    }
                },
                _ => out.append(val.as_str()),
            },
        }
        proof {
            assert(out@ =~= entry_json_notation(self@));
        }
        out
    }
}

/// The JSON notation of a typed value: absent values are `null`, strings
/// are quoted, booleans are normalized, numbers pass through.
pub open spec fn value_json(e: EntryModel) -> Seq<char> {
    match e.value {
        None => "null"@,
        Some(v) => match e.column_type {
            ColumnType::TEXT | ColumnType::VARCHAR => "\""@ + v + "\""@,
            ColumnType::BOOL => if v == "true"@ || v == "1"@ {
                "true"@
            } else {
                "false"@
            },
            _ => v,
        },
    }
}

/// The `"key":value` JSON notation of a typed field.
pub open spec fn entry_json_notation(e: EntryModel) -> Seq<char> {
    "\""@ + e.key + "\":"@ + value_json(e)
}

/// The comma-joined `"key":value` notations, in collection order.
pub open spec fn entries_json(s: Seq<EntryModel>) -> Seq<char>
    decreases s.len(),
{
    if s.len() == 0 {
        Seq::<char>::empty()
    } else if s.len() == 1 {
        entry_json_notation(s[0])
    } else {
        entries_json(s.drop_last()) + ","@ + entry_json_notation(s.last())
    }
}

/// The JSON object a typed row serializes to.
pub open spec fn kvc_json(s: Seq<EntryModel>) -> Seq<char> {
    "{"@ + entries_json(s) + "}"@
}

/// The comma-joined keys, in collection order.
pub open spec fn keys_joined(s: Seq<EntryModel>) -> Seq<char>
    decreases s.len(),
{
    if s.len() == 0 {
        Seq::<char>::empty()
    } else if s.len() == 1 {
        s[0].key
    } else {
        keys_joined(s.drop_last()) + ","@ + s.last().key
    }
}

/// The comma-joined `key=?N` assignments, `N` counting from `off + 1`.
pub open spec fn update_fields_model(s: Seq<EntryModel>, off: int) -> Seq<char>
    decreases s.len(),
{
    if s.len() == 0 {
        Seq::<char>::empty()
    } else if s.len() == 1 {
        s[0].key + "=?"@ + dec_digits((off + 1) as nat)
    } else {
        update_fields_model(s.drop_last(), off) + ","@ + s.last().key + "=?"@ + dec_digits(
            (s.len() + off) as nat,
        )
    }
}

/// Index of the first entry carrying `key`, or -1.
pub open spec fn find_key(s: Seq<EntryModel>, key: Seq<char>) -> int
    decreases s.len(),
{
    if s.len() == 0 {
        -1
    } else if s[0].key == key {
        0
    } else {
        let r = find_key(s.subrange(1, s.len() as int), key);
        if r == -1 {
            -1
        } else {
            r + 1
        }
    }
}

/// `find_key` returns the position of the first match.
pub proof fn lemma_find_key_at(s: Seq<EntryModel>, key: Seq<char>, k: int)
    requires
        0 <= k < s.len(),
        s[k].key == key,
        forall|j: int| 0 <= j < k ==> (#[trigger] s[j]).key != key,
    ensures
        find_key(s, key) == k,
    decreases s.len(),
{
    if k > 0 {
        let t = s.subrange(1, s.len() as int);
        lemma_find_key_at(t, key, k - 1);
    }
}

/// `find_key` returns -1 exactly when no entry matches.
pub proof fn lemma_find_key_none(s: Seq<EntryModel>, key: Seq<char>)
    requires
        forall|j: int| 0 <= j < s.len() ==> (#[trigger] s[j]).key != key,
    ensures
        find_key(s, key) == -1,
    decreases s.len(),
{
    if s.len() > 0 {
        let t = s.subrange(1, s.len() as int);
        lemma_find_key_none(t, key);
    }
}

/// An ordered row of typed fields.
pub struct KeyValueCollection {
    pub collection: Vec<KeyValueTypeEntry>,
}

impl View for KeyValueCollection {
    type V = Seq<EntryModel>;

    open spec fn view(&self) -> Seq<EntryModel> {
        self.collection@.map_values(|e: KeyValueTypeEntry| e@)
    }
}

impl KeyValueCollection {
    pub fn new(collection: Vec<KeyValueTypeEntry>) -> (r: KeyValueCollection)
        ensures
            r@ == collection@.map_values(|e: KeyValueTypeEntry| e@),
    {
        KeyValueCollection { collection }
    }

    /// The comma-joined `key=?N` assignment list for an update statement,
    /// placeholder numbers counting from `idx_offset + 1`.
    pub fn sql_prepare_update_fields(&self, idx_offset: usize) -> (r: String)
        requires
            self@.len() + idx_offset + 1 <= u64::MAX,
        ensures
            r@ == update_fields_model(self@, idx_offset as int),
    {
        let mut out = String::new();
        let mut i: usize = 0;
        while i < self.collection.len()
            invariant
                0 <= i <= self.collection.len(),
                self@.len() == self.collection.len(),
                self@.len() + idx_offset + 1 <= u64::MAX,
                out@ == update_fields_model(self@.subrange(0, i as int), idx_offset as int),
            decreases self.collection.len() - i,
        {
            if i > 0 {
                out.append(",");
            }
            out.append(self.collection[i].key.as_str());
            out.append("=?");
            let number: u64 = i as u64 + idx_offset as u64 + 1;
            let digits = u64_to_string(number);
            out.append(digits.as_str());
            proof {
                let pre = self@.subrange(0, i as int);
                let cur = self@.subrange(0, i + 1 as int);
                assert(cur.drop_last() =~= pre);
                assert(cur.last() == self@[i as int]);
                assert(out@ =~= update_fields_model(cur, idx_offset as int));
            }
            i = i + 1;
        }
        proof {
            assert(self@.subrange(0, self@.len() as int) == self@);
        }
        out
    }

    /// Position of the first field keyed `key`, if any.
    pub fn index_of_key(&self, key: &str) -> (r: Option<usize>)
        ensures
            match r {
                Some(i) => 0 <= i < self@.len() && self@[i as int].key == key@ && forall|j: int|
                    0 <= j < i ==> (#[trigger] self@[j]).key != key@,
                None => find_key(self@, key@) == -1 && forall|j: int|
                    0 <= j < self@.len() ==> (#[trigger] self@[j]).key != key@,
            },
    {
        let mut i: usize = 0;
        while i < self.collection.len()
            invariant
                0 <= i <= self.collection.len(),
                self@.len() == self.collection.len(),
                forall|j: int| 0 <= j < i ==> (#[trigger] self@[j]).key != key@,
            decreases self.collection.len() - i,
        {
            if str_eq(self.collection[i].key.as_str(), key) {
                return Some(i);
            }
            i = i + 1;
        }
        proof {
            lemma_find_key_none(self@, key@);
        }
        None
    }

    /// The value of the first field keyed `id`.
    pub fn get_id(&self) -> (r: Result<String, InvManError>)
        ensures
            match r {
                Ok(v) => find_key(self@, "id"@) >= 0 && self@[find_key(self@, "id"@)].value
                    == Some(v@),
                Err(e) => e is Validation && (find_key(self@, "id"@) == -1 || self@[find_key(
                    self@,
                    "id"@,
                )].value is None),
            },
    {
        let mut i: usize = 0;
        while i < self.collection.len()
            invariant
                0 <= i <= self.collection.len(),
                self@.len() == self.collection.len(),
                forall|j: int| 0 <= j < i ==> (#[trigger] self@[j]).key != "id"@,
            decreases self.collection.len() - i,
        {
            if str_eq(self.collection[i].key.as_str(), "id") {
                proof {
                    lemma_find_key_at(self@, "id"@, i as int);
                }
                match &self.collection[i].value {
                    Some(val) => {
                        return Ok(val.clone());
                    },
                    None => {
                        return Err(
                            InvManError::Validation(
                                "Entry with key 'id' is not available".to_owned(),
                            ),
                        );
                    },
                }
            }
            i = i + 1;
        }
        proof {
            lemma_find_key_none(self@, "id"@);
        }
        Err(InvManError::Validation("No entry with key 'id' found in collection".to_owned()))
    }
}

/// What a typed row offers a SQL statement: its column names and, in the
/// same order, its values.
pub trait InvManToSql {
    fn sql_names(&self) -> String;

    fn sql_values(&self) -> Vec<Option<String>>;
}

impl InvManToSql for KeyValueCollection {
    fn sql_names(&self) -> (r: String)
        ensures
            r@ == keys_joined(self@),
    {
        let mut out = String::new();
        let mut i: usize = 0;
        while i < self.collection.len()
            invariant
                0 <= i <= self.collection.len(),
                self@.len() == self.collection.len(),
                out@ == keys_joined(self@.subrange(0, i as int)),
            decreases self.collection.len() - i,
        {
            if i > 0 {
                out.append(",");
            }
            out.append(self.collection[i].key.as_str());
            proof {
                let pre = self@.subrange(0, i as int);
                let cur = self@.subrange(0, i + 1 as int);
                assert(cur.drop_last() =~= pre);
                assert(cur.last() == self@[i as int]);
                assert(out@ =~= keys_joined(cur));
            }
            i = i + 1;
        }
        proof {
            assert(self@.subrange(0, self@.len() as int) == self@);
        }
        out
    }

    fn sql_values(&self) -> (r: Vec<Option<String>>)
        ensures
            r@.len() == self@.len(),
            forall|i: int| 0 <= i < self@.len() ==> opt_text(#[trigger] r@[i]) == self@[i].value,
    {
        let mut out: Vec<Option<String>> = Vec::new();
        let mut i: usize = 0;
        while i < self.collection.len()
            invariant
                0 <= i <= self.collection.len(),
                self@.len() == self.collection.len(),
                out@.len() == i,
                forall|j: int| 0 <= j < i ==> opt_text(#[trigger] out@[j]) == self@[j].value,
            decreases self.collection.len() - i,
        {
            match &self.collection[i].value {
                Some(v) => out.push(Some(v.clone())),
                None => out.push(None),
            }
            i = i + 1;
        }
        out
    }
}

/// Emission of the persisted JSON form.
pub trait InvManSerialization {
    fn to_json(&self) -> String;
}

impl InvManSerialization for KeyValueCollection {
    /// The row as a JSON object; an empty row serializes to `{}`.
    fn to_json(&self) -> (r: String)
        ensures
            r@ == kvc_json(self@),
    {
        let mut out = "{".to_owned();
        let mut i: usize = 0;
        while i < self.collection.len()
            invariant
                0 <= i <= self.collection.len(),
                self@.len() == self.collection.len(),
                out@ == "{"@ + entries_json(self@.subrange(0, i as int)),
            decreases self.collection.len() - i,
        {
            if i > 0 {
                out.append(",");
            }
            let piece = self.collection[i].to_json_notation();
            out.append(piece.as_str());
            proof {
                let pre = self@.subrange(0, i as int);
                let cur = self@.subrange(0, i + 1 as int);
                assert(cur.drop_last() =~= pre);
                assert(cur.last() == self@[i as int]);
                assert(out@ =~= "{"@ + entries_json(cur));
            }
            i = i + 1;
        }
        out.append("}");
        proof {
            assert(self@.subrange(0, self@.len() as int) == self@);
            assert(out@ =~= kvc_json(self@));
        }
        out
    }
}

impl InvManSerialization for Vec<SchemaDeclaration> {
    /// The declarations as the persisted JSON array.
    fn to_json(&self) -> (r: String)
        ensures
            r@ == schema_json(decls_of(self@)),
    {
        let mut out = "[".to_owned();
        let mut i: usize = 0;
        while i < self.len()
            invariant
                0 <= i <= self@.len(),
                out@ == "["@ + crate::schema::decls_json(decls_of(self@).subrange(0, i as int)),
            decreases self@.len() - i,
        {
            if i > 0 {
                out.append(",");
            }
            let piece = self[i].to_json();
            out.append(piece.as_str());
            proof {
                let pre = decls_of(self@).subrange(0, i as int);
                let cur = decls_of(self@).subrange(0, i + 1 as int);
                assert(cur.drop_last() =~= pre);
                assert(cur.last() == decls_of(self@)[i as int]);
                assert(out@ =~= "["@ + crate::schema::decls_json(cur));
            }
            i = i + 1;
        }
        out.append("]");
        proof {
            assert(decls_of(self@).subrange(0, decls_of(self@).len() as int) == decls_of(self@));
            assert(out@ =~= schema_json(decls_of(self@)));
        }
        out
    }
}

/// The comma-joined rows, each a JSON object, wrapped in an array.
pub open spec fn kvcs_json(s: Seq<Seq<EntryModel>>) -> Seq<char>
    decreases s.len(),
{
    if s.len() == 0 {
        Seq::<char>::empty()
    } else if s.len() == 1 {
        kvc_json(s[0])
    } else {
        kvcs_json(s.drop_last()) + ","@ + kvc_json(s.last())
    }
}

impl InvManSerialization for Vec<KeyValueCollection> {
    /// The rows as a JSON array of objects.
    fn to_json(&self) -> (r: String)
        ensures
            r@ == "["@ + kvcs_json(self@.map_values(|c: KeyValueCollection| c@)) + "]"@,
    {
        let ghost rows = self@.map_values(|c: KeyValueCollection| c@);
        let mut out = "[".to_owned();
        let mut i: usize = 0;
        while i < self.len()
            invariant
                0 <= i <= self@.len(),
                rows == self@.map_values(|c: KeyValueCollection| c@),
                out@ == "["@ + kvcs_json(rows.subrange(0, i as int)),
            decreases self@.len() - i,
        {
            if i > 0 {
                out.append(",");
            }
            let piece = self[i].to_json();
            out.append(piece.as_str());
            proof {
                let pre = rows.subrange(0, i as int);
                let cur = rows.subrange(0, i + 1 as int);
                assert(cur.drop_last() =~= pre);
                assert(cur.last() == rows[i as int]);
                assert(out@ =~= "["@ + kvcs_json(cur));
            }
            i = i + 1;
        }
        out.append("]");
        proof {
            assert(rows.subrange(0, rows.len() as int) == rows);
        }
        out
    }
}

/// The comma-joined declared column names, without the bookkeeping columns.
pub open spec fn names_joined(s: Seq<DeclModel>) -> Seq<char>
    decreases s.len(),
{
    if s.len() == 0 {
        Seq::<char>::empty()
    } else if s.len() == 1 {
        s[0].name
    } else {
        names_joined(s.drop_last()) + ","@ + s.last().name
    }
}

/// The SQL spellings a declaration list offers.
pub trait InvManDbHelper {
    fn to_sql_names(&self) -> String;
}

impl InvManDbHelper for Vec<SchemaDeclaration> {
    fn to_sql_names(&self) -> (r: String)
        ensures
            r@ == names_joined(decls_of(self@)),
    {
        let mut out = String::new();
        let mut i: usize = 0;
        while i < self.len()
            invariant
                0 <= i <= self@.len(),
                out@ == names_joined(decls_of(self@).subrange(0, i as int)),
            decreases self@.len() - i,
        {
            if i > 0 {
                out.append(",");
            }
            out.append(self[i].name.as_str());
            proof {
                let pre = decls_of(self@).subrange(0, i as int);
                let cur = decls_of(self@).subrange(0, i + 1 as int);
                assert(cur.drop_last() =~= pre);
                assert(cur.last() == decls_of(self@)[i as int]);
                assert(out@ =~= names_joined(cur));
            }
            i = i + 1;
        }
        proof {
            assert(decls_of(self@).subrange(0, decls_of(self@).len() as int) == decls_of(self@));
        }
        out
    }
}

/// Whether a projection key is one of the bookkeeping columns every record
/// carries.
pub open spec fn is_builtin_key(key: Seq<char>) -> bool {
    key == "id"@ || key == "created_at"@ || key == "updated_at"@ || key == "deleted_at"@
}

/// Whether a raw projection column can be typed under the schema.
pub open spec fn raw_key_ok(key: Seq<char>, decls: Seq<DeclModel>) -> bool {
    is_builtin_key(key) || contains_name(decls, key)
}

/// The typed field a raw projection column denotes: the identifier is INT,
/// the timestamps are TEXT, and a declared column takes its declared type.
pub open spec fn raw_entry(key: Seq<char>, value: Option<Seq<char>>, decls: Seq<DeclModel>) -> EntryModel {
    EntryModel {
        key,
        value,
        column_type: if key == "id"@ {
            ColumnType::INT
        } else if key == "created_at"@ || key == "updated_at"@ || key == "deleted_at"@ {
            ColumnType::TEXT
        } else {
            decl_at(decls, key).column_type
        },
    }
}

/// Types one raw projection column under the current schema; a key that is
/// neither a bookkeeping column nor declared is refused.
pub fn typed_entry_from_raw(key: &str, value: Option<String>, declarations: &SchemaCollection) -> (r:
    Result<KeyValueTypeEntry, InvManError>)
    ensures
        match r {
            Ok(e) => raw_key_ok(key@, declarations@) && e@ == raw_entry(
                key@,
                opt_text(value),
                declarations@,
            ),
            Err(x) => x is Storage && !raw_key_ok(key@, declarations@),
        },
{
    if str_eq(key, "id") {
        return Ok(KeyValueTypeEntry::new(key.to_owned(), value, ColumnType::INT));
    }
    if str_eq(key, "created_at") || str_eq(key, "updated_at") || str_eq(key, "deleted_at") {
        return Ok(KeyValueTypeEntry::new(key.to_owned(), value, ColumnType::TEXT));
    }
    match declarations.index_of(key) {
        Some(idx) => {
            proof {
                lemma_find_name_at(declarations@, key@, idx as int);
            }
            Ok(KeyValueTypeEntry::new(
                key.to_owned(),
                value,
                declarations.collection[idx].column_type,
            ))
        },
        None => {
            let mut msg = "Declaration was not found for given key '".to_owned();
            msg.append(key);
            msg.append("'");
            Err(InvManError::Storage(msg))
        },
    }
}

/// Types a whole raw projection row under the current schema, in column
/// order; the first untypable key is refused.
pub fn typed_row_from_raw(columns: &Vec<(String, Option<String>)>, declarations: &SchemaCollection)
    -> (r: Result<KeyValueCollection, InvManError>)
    ensures
        match r {
            Ok(c) => c@.len() == columns@.len() && forall|i: int|
                0 <= i < columns@.len() ==> raw_key_ok((#[trigger] columns@[i]).0@, declarations@)
                    && c@[i] == raw_entry(columns@[i].0@, opt_text(columns@[i].1), declarations@),
            Err(e) => e is Storage && exists|i: int|
                0 <= i < columns@.len() && !raw_key_ok((#[trigger] columns@[i]).0@, declarations@),
        },
{
    let mut entries: Vec<KeyValueTypeEntry> = Vec::new();
    let mut i: usize = 0;
    while i < columns.len()
        invariant
            0 <= i <= columns@.len(),
            entries@.len() == i,
            forall|j: int|
                0 <= j < i ==> raw_key_ok((#[trigger] columns@[j]).0@, declarations@)
                    && entries@[j]@ == raw_entry(
                    columns@[j].0@,
                    opt_text(columns@[j].1),
                    declarations@,
                ),
        decreases columns@.len() - i,
    {
        let value = match &columns[i].1 {
            Some(v) => Some(v.clone()),
            None => None,
        };
        match typed_entry_from_raw(columns[i].0.as_str(), value, declarations) {
            Ok(e) => entries.push(e),
            Err(e) => {
                return Err(e);
            },
        }
        i = i + 1;
    }
    let c = KeyValueCollection::new(entries);
    proof {
        assert(forall|j: int|
            0 <= j < columns@.len() ==> #[trigger] c@[j] == raw_entry(
                columns@[j].0@,
                opt_text(columns@[j].1),
                declarations@,
            ));
    }
    Ok(c)
}

/// Whether the decimal literal denotes a value strictly below `min`.
pub open spec fn real_lt_min(v: Seq<char>, min: u32) -> bool {
    decimal_is_negative(v) || decimal_int_part(v) < min
}

/// Whether the decimal literal denotes a value strictly above `max`.
pub open spec fn real_gt_max(v: Seq<char>, max: u32) -> bool {
    !decimal_is_negative(v) && (decimal_int_part(v) > max || (decimal_int_part(v) == max
        && decimal_frac_nonzero(v)))
}

/// Whether a textual value satisfies its declaration: a boolean literal for
/// BOOL, the length bounds for string types (a zero maximum length means
/// unbounded), and the numeric bounds for INT and REAL.
pub open spec fn value_ok_for(d: DeclModel, v: Seq<char>) -> bool {
    match d.column_type {
        ColumnType::BOOL => ascii_lower_seq(v) == "true"@ || ascii_lower_seq(v) == "false"@,
        ColumnType::TEXT | ColumnType::VARCHAR => v.len() >= d.min_length && (d.max_length > 0
            ==> v.len() <= d.max_length),
        ColumnType::INT => is_int_literal(v) && i64::MIN <= int_literal_value(v) <= i64::MAX && (
        d.min > 0 ==> int_literal_value(v) >= d.min) && (d.max > 0 ==> int_literal_value(v)
            <= d.max),
        ColumnType::REAL => is_decimal_literal(v) && !real_lt_min(v, d.min) && !real_gt_max(
            v,
            d.max,
        ),
    }
}

/// The normalized value the check hands back: booleans lower-cased, string
/// values quoted, numbers passed through.
pub open spec fn checked_value(d: DeclModel, v: Seq<char>) -> Seq<char> {
    match d.column_type {
        ColumnType::BOOL => ascii_lower_seq(v),
        ColumnType::TEXT | ColumnType::VARCHAR => "\""@ + v + "\""@,
        _ => v,
    }
}

/// Whether `name=value` notation splits and names a declared column.
pub open spec fn notation_ok(s: Seq<char>, decls: Seq<DeclModel>) -> bool {
    find_char(s, '=') >= 0 && contains_name(decls, s.subrange(0, find_char(s, '=')))
}

/// The name before the first `=`.
pub open spec fn notation_name(s: Seq<char>) -> Seq<char> {
    s.subrange(0, find_char(s, '='))
}

/// The value after the first `=`.
pub open spec fn notation_value(s: Seq<char>) -> Seq<char> {
    s.subrange(find_char(s, '=') + 1, s.len() as int)
}

/// The declaration carrying `name`.
pub open spec fn decl_at(decls: Seq<DeclModel>, name: Seq<char>) -> DeclModel {
    decls[find_name(decls, name)]
}

/// The typed field that `name=value` notation denotes under the schema.
pub open spec fn notation_entry(s: Seq<char>, decls: Seq<DeclModel>) -> EntryModel
    recommends
        notation_ok(s, decls),
{
    EntryModel {
        key: notation_name(s),
        value: Some(notation_value(s)),
        column_type: decl_at(decls, notation_name(s)).column_type,
    }
}

/// Parsing of one `name=value` string into a typed field.
pub trait InvManNotationHelper {
    fn to_typed_key_value_entry(&self, declarations: &SchemaCollection) -> Result<
        KeyValueTypeEntry,
        InvManError,
    >;
}

impl InvManNotationHelper for String {
    /// Splits at the first `=` and types the field by the declared column;
    /// an unsplittable string or an undeclared name is refused.
    fn to_typed_key_value_entry(&self, declarations: &SchemaCollection) -> (r: Result<
        KeyValueTypeEntry,
        InvManError,
    >)
        ensures
            match r {
                Ok(e) => notation_ok(self@, declarations@) && e@ == notation_entry(
                    self@,
                    declarations@,
                ),
                Err(x) => x is Validation && !notation_ok(self@, declarations@),
            },
    {
        match split_at_char(self.as_str(), '=') {
            None => Err(InvManError::Validation("Could not split parsed parameter".to_owned())),
            Some((name, value)) => match declarations.index_of(name.as_str()) {
                Some(idx) => {
                    proof {
                        lemma_find_name_at(declarations@, name@, idx as int);
                    }
                    let entry = KeyValueTypeEntry::new(
                        name,
                        Some(value),
                        declarations.collection[idx].column_type,
                    );
                    proof {
                        assert(entry@ =~= notation_entry(self@, declarations@));
                    }
                    Ok(entry)
                },
                None => {
                    let mut msg = "Could not find '".to_owned();
                    msg.append(name.as_str());
                    msg.append("' in table schema");
                    Err(InvManError::Validation(msg))
                },
            },
        }
    }
}

/// Parsing of several `name=value` strings into a typed row.
pub trait InvManNotationHelperVec {
    fn to_key_value_collection(&self, declarations: &SchemaCollection) -> Result<
        KeyValueCollection,
        InvManError,
    >;
}

impl InvManNotationHelperVec for Vec<String> {
    /// Parses every string; the first failure is reported and nothing is
    /// returned.
    fn to_key_value_collection(&self, declarations: &SchemaCollection) -> (r: Result<
        KeyValueCollection,
        InvManError,
    >)
        ensures
            match r {
                Ok(c) => (forall|i: int|
                    0 <= i < self@.len() ==> notation_ok((#[trigger] self@[i])@, declarations@))
                    && c@.len() == self@.len() && (forall|i: int|
                    0 <= i < self@.len() ==> #[trigger] c@[i] == notation_entry(
                        self@[i]@,
                        declarations@,
                    )),
                Err(e) => e is Validation && exists|i: int|
                    0 <= i < self@.len() && !notation_ok((#[trigger] self@[i])@, declarations@),
            },
    {
        let mut entries: Vec<KeyValueTypeEntry> = Vec::new();
        let mut i: usize = 0;
        while i < self.len()
            invariant
                0 <= i <= self@.len(),
                entries@.len() == i,
                forall|j: int| 0 <= j < i ==> notation_ok((#[trigger] self@[j])@, declarations@),
                forall|j: int|
                    0 <= j < i ==> (#[trigger] entries@[j])@ == notation_entry(
                        self@[j]@,
                        declarations@,
                    ),
            decreases self@.len() - i,
        {
            match self[i].to_typed_key_value_entry(declarations) {
                Ok(e) => entries.push(e),
                Err(e) => {
                    return Err(e);
                },
            }
            i = i + 1;
        }
        let c = KeyValueCollection::new(entries);
        proof {
            assert(forall|j: int|
                0 <= j < self@.len() ==> #[trigger] c@[j] == notation_entry(
                    self@[j]@,
                    declarations@,
                ));
        }
        Ok(c)
    }
}

/// Position of the first declaration named `name` in a declaration list.
fn index_in_decls(v: &Vec<SchemaDeclaration>, name: &str) -> (r: Option<usize>)
    ensures
        match r {
            Some(i) => 0 <= i < v@.len() && decls_of(v@)[i as int].name == name@ && forall|j: int|
                0 <= j < i ==> (#[trigger] decls_of(v@)[j]).name != name@,
            None => !contains_name(decls_of(v@), name@),
        },
{
    let mut i: usize = 0;
    while i < v.len()
        invariant
            0 <= i <= v@.len(),
            forall|j: int| 0 <= j < i ==> (#[trigger] decls_of(v@)[j]).name != name@,
        decreases v@.len() - i,
    {
        if str_eq(v[i].name.as_str(), name) {
            return Some(i);
        }
        i = i + 1;
    }
    None
}

/// The value checks run when `name=value` notation is parsed against the
/// schema, before any write reaches the record store.
pub trait SchemaDeclarationVerify {
    fn check_against_declaration(&self, declarations: &Vec<SchemaDeclaration>) -> Result<
        (String, String),
        InvManError,
    >;
}

impl SchemaDeclarationVerify for String {
    /// Splits `name=value`, resolves the declaration, and checks the value
    /// against it: boolean literals for BOOL, length bounds for string
    /// types (a zero maximum length means unbounded), numeric bounds for
    /// INT and REAL. On success the pair is the name and the normalized
    /// value.
    fn check_against_declaration(&self, declarations: &Vec<SchemaDeclaration>) -> (r: Result<
        (String, String),
        InvManError,
    >)
        ensures
            match r {
                Ok(p) => {
                    let decls = decls_of(declarations@);
                    &&& notation_ok(self@, decls)
                    &&& value_ok_for(decl_at(decls, notation_name(self@)), notation_value(self@))
                    &&& p.0@ == notation_name(self@)
                    &&& p.1@ == checked_value(
                        decl_at(decls, notation_name(self@)),
                        notation_value(self@),
                    )
                },
                Err(e) => {
                    let decls = decls_of(declarations@);
                    e is Validation && !(notation_ok(self@, decls) && value_ok_for(
                        decl_at(decls, notation_name(self@)),
                        notation_value(self@),
                    ))
                },
            },
    {
        let split = match split_at_char(self.as_str(), '=') {
            Some(p) => p,
            None => {
                let mut msg = "Given string ".to_owned();
                msg.append(self.as_str());
                msg.append(" is not in valid schema notation");
                return Err(InvManError::Validation(msg));
            },
        };
        let (name, value) = split;
        let ghost decls = decls_of(declarations@);
        let idx = match index_in_decls(declarations, name.as_str()) {
            Some(i) => i,
            None => {
                let mut msg = "Field ".to_owned();
                msg.append(name.as_str());
                msg.append(" could not be found in schema declaration");
                proof {
                    assert(!contains_name(decls, name@));
                }
                return Err(InvManError::Validation(msg));
            },
        };
        proof {
            lemma_find_name_at(decls, name@, idx as int);
        }
        let schema = &declarations[idx];
        let ghost d = decl_at(decls, notation_name(self@));
        proof {
            assert(d == decls[idx as int]);
        }
        match schema.column_type {
            ColumnType::BOOL => {
                let lower = to_ascii_lower(value.as_str());
                if str_eq(lower.as_str(), "true") || str_eq(lower.as_str(), "false") {
                    Ok((name, lower))
                } else {
                    Err(InvManError::Validation("Value not of boolean type".to_owned()))
                }
            },
            ColumnType::VARCHAR | ColumnType::TEXT => {
                let value_len = value.as_str().unicode_len();
                if value_len < schema.min_length as usize {
                    let mut msg = "Field's ".to_owned();
                    msg.append(name.as_str());
                    msg.append(" length is less than schema's min length");
                    Err(InvManError::Validation(msg))
                } else if schema.max_length > 0 && value_len > schema.max_length as usize {
                    let mut msg = "Field's ".to_owned();
                    msg.append(name.as_str());
                    msg.append(" length is more than schema's max length");
                    Err(InvManError::Validation(msg))
                } else {
                    let mut quoted = "\"".to_owned();
                    quoted.append(value.as_str());
                    quoted.append("\"");
                    Ok((name, quoted))
                }
            },
            ColumnType::INT => match parse_i64(value.as_str()) {
                Some(s) => {
                    if schema.min > 0 && s < schema.min as i64 {
                        let mut msg = "Field ".to_owned();
                        msg.append(name.as_str());
                        msg.append(" is smaller than schema's min");
                        Err(InvManError::Validation(msg))
                    } else if schema.max > 0 && s > schema.max as i64 {
                        let mut msg = "Field ".to_owned();
                        msg.append(name.as_str());
                        msg.append(" is larger than schema's max");
                        Err(InvManError::Validation(msg))
                    } else {
                        Ok((name, value))
                    }
                },
                None => {
                    let mut msg = "Field ".to_owned();
                    msg.append(name.as_str());
                    msg.append(" is not a valid integer type");
                    Err(InvManError::Validation(msg))
                },
            },
            ColumnType::REAL => match parse_decimal(value.as_str()) {
                Some(p) => {
                    let negative = p.sign_negative && !(p.int_capped == 0 && p.frac_zero);
                    proof {
                        assert(negative == decimal_is_negative(value@));
                        assert((p.int_capped < schema.min as u64) == (decimal_int_part(value@)
                            < schema.min));
                        assert((p.int_capped > schema.max as u64) == (decimal_int_part(value@)
                            > schema.max));
                        assert((p.int_capped == schema.max as u64 && !p.frac_zero) == (
                        decimal_int_part(value@) == schema.max && decimal_frac_nonzero(value@)));
                    }
                    if negative || p.int_capped < schema.min as u64 {
                        let mut msg = "Field ".to_owned();
                        msg.append(name.as_str());
                        msg.append(" is smaller than schema's min");
                        Err(InvManError::Validation(msg))
                    } else if p.int_capped > schema.max as u64 || (p.int_capped
                        == schema.max as u64 && !p.frac_zero) {
                        let mut msg = "Field ".to_owned();
                        msg.append(name.as_str());
                        msg.append(" is larger than schema's max");
                        Err(InvManError::Validation(msg))
                    } else {
                        Ok((name, value))
                    }
                },
                None => {
                    let mut msg = "Field ".to_owned();
                    msg.append(name.as_str());
                    msg.append(" is not a valid real type");
                    Err(InvManError::Validation(msg))
                },
            },
        }
    }
}

} // verus!
