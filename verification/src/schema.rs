//! Column declarations: their validation rules, their ordered name-unique
//! collection, and their persisted JSON form.
use crate::text::{ascii_lower, ascii_upper, dec_digits, space_subst, str_eq, u32_to_string};
use crate::InvManError;
use vstd::prelude::*;

verus! {

/// The closed set of column types a schema declaration can carry.
#[derive(Debug, Copy, Clone, PartialEq, Eq, Structural)]
pub enum ColumnType {
    TEXT,
    VARCHAR,
    INT,
    REAL,
    BOOL,
}

impl ColumnType {
    /// Lower-case type tag used in the persisted JSON form.
    pub fn as_text(&self) -> (r: &'static str)
        ensures
            r@ == self.text(),
    {
        match self {
            ColumnType::BOOL => "bool",
            ColumnType::INT => "int",
            ColumnType::REAL => "real",
            ColumnType::TEXT => "text",
            ColumnType::VARCHAR => "varchar",
        }
    }

    /// The characters of the lower-case type tag.
    pub open spec fn text(self) -> Seq<char> {
        match self {
            ColumnType::BOOL => "bool"@,
            ColumnType::INT => "int"@,
            ColumnType::REAL => "real"@,
            ColumnType::TEXT => "text"@,
            ColumnType::VARCHAR => "varchar"@,
        }
    }
}

/// One column's full contract: name, label, type, bounds, flags, default
/// and opaque display metadata.
pub struct SchemaDeclaration {
    pub name: String,
    pub display_name: String,
    pub unique: bool,
    pub max_length: u32,
    pub min_length: u32,
    pub max: u32,
    pub min: u32,
    pub nullable: bool,
    pub column_type: ColumnType,
    pub default: String,
    pub hint: String,
    pub layout: String,
}

/// The mathematical shape of a declaration: every text field as characters.
#[verifier::ext_equal]
pub struct DeclModel {
    pub name: Seq<char>,
    pub display_name: Seq<char>,
    pub unique: bool,
    pub max_length: u32,
    pub min_length: u32,
    pub max: u32,
    pub min: u32,
    pub nullable: bool,
    pub column_type: ColumnType,
    pub default: Seq<char>,
    pub hint: Seq<char>,
    pub layout: Seq<char>,
}

impl View for SchemaDeclaration {
    type V = DeclModel;

    open spec fn view(&self) -> DeclModel {
        DeclModel {
            name: self.name@,
            display_name: self.display_name@,
            unique: self.unique,
            max_length: self.max_length,
            min_length: self.min_length,
            max: self.max,
            min: self.min,
            nullable: self.nullable,
            column_type: self.column_type,
            default: self.default@,
            hint: self.hint@,
            layout: self.layout@,
        }
    }
}

/// Raw parameters for declaring or altering one schema column; unset options
/// fall back to the documented defaults.
pub struct SchemaAlterArgs {
    pub name: String,
    pub display_name: Option<String>,
    pub unique: bool,
    pub max_length: Option<u32>,
    pub min_length: Option<u32>,
    pub max: Option<u32>,
    pub min: Option<u32>,
    pub nullable: Option<bool>,
    pub column_type: ColumnType,
    pub default: Option<String>,
    pub hint: Option<String>,
    pub layout: Option<String>,
}

/// The mathematical shape of the raw parameters.
#[verifier::ext_equal]
pub struct AlterArgsModel {
    pub name: Seq<char>,
    pub display_name: Option<Seq<char>>,
    pub unique: bool,
    pub max_length: Option<u32>,
    pub min_length: Option<u32>,
    pub max: Option<u32>,
    pub min: Option<u32>,
    pub nullable: Option<bool>,
    pub column_type: ColumnType,
    pub default: Option<Seq<char>>,
    pub hint: Option<Seq<char>>,
    pub layout: Option<Seq<char>>,
}

impl View for SchemaAlterArgs {
    type V = AlterArgsModel;

    open spec fn view(&self) -> AlterArgsModel {
        AlterArgsModel {
            name: self.name@,
            display_name: match self.display_name {
                Some(s) => Some(s@),
                None => None,
            },
            unique: self.unique,
            max_length: self.max_length,
            min_length: self.min_length,
            max: self.max,
            min: self.min,
            nullable: self.nullable,
            column_type: self.column_type,
            default: match self.default {
                Some(s) => Some(s@),
                None => None,
            },
            hint: match self.hint {
                Some(s) => Some(s@),
                None => None,
            },
            layout: match self.layout {
                Some(s) => Some(s@),
                None => None,
            },
        }
    }
}

/// The label derived from a column name: dashes and underscores become
/// spaces, the first character is upper-cased, the rest lower-cased.
pub open spec fn display_name_of(name: Seq<char>) -> Seq<char> {
    if name.len() == 0 {
        Seq::<char>::empty()
    } else {
        seq![ascii_upper(space_subst(name[0]))] + name.subrange(1, name.len() as int).map(
            |_i: int, c: char| ascii_lower(space_subst(c)),
        )
    }
}

/// Computes the label derived from a column name.
pub fn derive_display_name(name: &str) -> (r: String)
    ensures
        r@ == display_name_of(name@),
{
    let n = name.unicode_len();
    let mut out = String::new();
    let mut i: usize = 0;
    while i < n
        invariant
            0 <= i <= n == name@.len(),
            i == 0 ==> out@ == Seq::<char>::empty(),
            i > 0 ==> out@ == display_name_of(name@.subrange(0, i as int)),
        decreases n - i,
    {
        let c0 = name.get_char(i);
        let c1 = if c0 == '-' || c0 == '_' {
            ' '
        } else {
            c0
        };
        let c2 = if i == 0 {
            if c1 >= 'a' && c1 <= 'z' {
                (c1 as u8 - 32) as char
            } else {
                c1
            }
        } else {
            if c1 >= 'A' && c1 <= 'Z' {
                (c1 as u8 + 32) as char
            } else {
                c1
            }
        };
        let ghost out0 = out@;
        out.push(c2);
        proof {
            assert(c1 == space_subst(name@[i as int]));
            let pre = name@.subrange(0, i as int);
            let cur = name@.subrange(0, i + 1 as int);
            if i == 0 {
                assert(c2 == ascii_upper(c1));
                assert(cur =~= seq![name@[0]]);
                assert(cur.subrange(1, cur.len() as int) =~= Seq::<char>::empty());
                assert(cur.subrange(1, cur.len() as int).map(
                    |_i: int, c: char| ascii_lower(space_subst(c)),
                ) =~= Seq::<char>::empty());
                assert(out@ =~= display_name_of(cur));
            } else {
                assert(c2 == ascii_lower(c1));
                assert(display_name_of(cur) =~= display_name_of(pre).push(
                    ascii_lower(space_subst(name@[i as int])),
                )) by {
                    assert(cur[0] == pre[0]);
                    assert(cur.subrange(1, cur.len() as int) =~= pre.subrange(
                        1,
                        pre.len() as int,
                    ).push(name@[i as int]));
                    assert(cur.subrange(1, cur.len() as int).map(
                        |_i: int, c: char| ascii_lower(space_subst(c)),
                    ) =~= pre.subrange(1, pre.len() as int).map(
                        |_i: int, c: char| ascii_lower(space_subst(c)),
                    ).push(ascii_lower(space_subst(name@[i as int]))));
                }
                assert(out@ == out0.push(c2));
                assert(out@ =~= display_name_of(cur));
            }
        }
        i = i + 1;
    }
    proof {
        assert(name@.subrange(0, name@.len() as int) == name@);
    }
    out
}

/// The declaration that a set of raw parameters denotes, before validation:
/// unset options replaced by their documented defaults.
pub open spec fn decl_of_args(a: AlterArgsModel) -> DeclModel {
    DeclModel {
        name: a.name,
        display_name: match a.display_name {
            Some(d) => d,
            None => display_name_of(a.name),
        },
        unique: a.unique,
        max_length: match a.max_length {
            Some(v) => v,
            None => 0,
        },
        min_length: match a.min_length {
            Some(v) => v,
            None => 0,
        },
        max: match a.max {
            Some(v) => v,
            None => 0,
        },
        min: match a.min {
            Some(v) => v,
            None => 0,
        },
        nullable: match a.nullable {
            Some(v) => v,
            None => false,
        },
        column_type: a.column_type,
        default: match a.default {
            Some(d) => d,
            None => "NULL"@,
        },
        hint: match a.hint {
            Some(d) => d,
            None => Seq::<char>::empty(),
        },
        layout: match a.layout {
            Some(d) => d,
            None => Seq::<char>::empty(),
        },
    }
}

/// The declaration validation rules: length bounds ordered, numeric bounds
/// ordered, VARCHAR sized, and a literal default within the length bounds.
pub open spec fn decl_valid(d: DeclModel) -> bool {
    &&& d.min_length <= d.max_length
    &&& d.min <= d.max
    &&& (d.column_type == ColumnType::VARCHAR ==> d.max_length > 0)
    &&& (d.default != "NULL"@ ==> {
        &&& (d.max_length > 0 ==> d.default.len() <= d.max_length)
        &&& (d.min_length > 0 ==> d.default.len() >= d.min_length)
    })
}

impl SchemaDeclaration {
    /// Validates raw column parameters and produces the declaration they
    /// denote, or the rule they violate.
    pub fn new(args: &SchemaAlterArgs) -> (r: Result<SchemaDeclaration, InvManError>)
        ensures
            match r {
                Ok(d) => d@ == decl_of_args(args@) && decl_valid(d@),
                Err(e) => e is Validation && !decl_valid(decl_of_args(args@)),
            },
    {
        let display_name = match &args.display_name {
            Some(name) => name.clone(),
            None => derive_display_name(args.name.as_str()),
        };
        let decl = SchemaDeclaration {
            name: args.name.clone(),
            display_name,
            unique: args.unique,
            max_length: match args.max_length {
                Some(v) => v,
                None => 0,
            },
            min_length: match args.min_length {
                Some(v) => v,
                None => 0,
            },
            max: match args.max {
                Some(v) => v,
                None => 0,
            },
            min: match args.min {
                Some(v) => v,
                None => 0,
            },
            nullable: match args.nullable {
                Some(v) => v,
                None => false,
            },
            column_type: args.column_type,
            default: match &args.default {
                Some(v) => v.clone(),
                None => "NULL".to_owned(),
            },
            hint: match &args.hint {
                Some(v) => v.clone(),
                None => String::new(),
            },
            layout: match &args.layout {
                Some(v) => v.clone(),
                None => String::new(),
            },
        };
        proof {
            assert(decl@ =~= decl_of_args(args@));
        }
        if decl.min_length > decl.max_length {
            return Err(
                InvManError::Validation(
                    "Schema min-length parameter cannot be larger than max-length!".to_owned(),
                ),
            );
        }
        if decl.min > decl.max {
            return Err(
                InvManError::Validation("Schema min parameter cannot be larger than max!".to_owned()),
            );
        }
        let is_varchar = match decl.column_type {
            ColumnType::VARCHAR => true,
            _ => false,
        };
        if is_varchar && decl.max_length == 0 {
            return Err(
                InvManError::Validation(
                    "Schema cannot have column type varchar with max-length being 0!".to_owned(),
                ),
            );
        }
        if !str_eq(decl.default.as_str(), "NULL") {
            let default_len = decl.default.as_str().unicode_len();
            if decl.max_length > 0 && default_len > decl.max_length as usize {
                return Err(
                    InvManError::Validation(
                        "Schema default value cannot be longer than max-length!".to_owned(),
                    ),
                );
            }
            if decl.min_length > 0 && default_len < decl.min_length as usize {
                return Err(
                    InvManError::Validation(
                        "Schema default value cannot be shorter than min-length!".to_owned(),
                    ),
                );
            }
        }
        Ok(decl)
    }

    /// Declarations are identified by name alone.
    pub fn is_equal(&self, other: &SchemaDeclaration) -> (r: bool)
        ensures
            r == (self@.name == other@.name),
    {
        str_eq(self.name.as_str(), other.name.as_str())
    }

    /// A field-for-field copy.
    pub fn duplicate(&self) -> (r: SchemaDeclaration)
        ensures
            r@ == self@,
    {
        SchemaDeclaration {
            name: self.name.clone(),
            display_name: self.display_name.clone(),
            unique: self.unique,
            max_length: self.max_length,
            min_length: self.min_length,
            max: self.max,
            min: self.min,
            nullable: self.nullable,
            column_type: self.column_type,
            default: self.default.clone(),
            hint: self.hint.clone(),
            layout: self.layout.clone(),
        }
    }

    /// The display metadata segment of the persisted object.
    fn json_meta_part(&self) -> (r: String)
        ensures
            r@ == decl_json_meta(self@),
    {
        let mut meta = ",\"hint\":\"".to_owned();
        meta.append(self.hint.as_str());
        meta.append("\"");
        meta.append(",\"layout\":\"");
        meta.append(self.layout.as_str());
        meta.append("\"");
        meta.append("}");
        proof {
            reveal(decl_json_meta);
            assert(meta@ =~= decl_json_meta(self@));
        }
        meta
    }

    /// The nullability, type and default segment of the persisted object.
    fn json_typing_part(&self) -> (r: String)
        ensures
            r@ == decl_json_typing(self@),
    {
        let mut typing = ",\"nullable\":".to_owned();
        typing.append(bool_str(self.nullable));
        typing.append(",\"column_type\":\"");
        typing.append(self.column_type.as_text());
        typing.append("\"");
        typing.append(",\"default\":\"");
        typing.append(self.default.as_str());
        typing.append("\"");
        let meta = self.json_meta_part();
        typing.append(meta.as_str());
        proof {
            reveal(decl_json_typing);
            assert(typing@ =~= decl_json_typing(self@));
        }
        typing
    }

    /// The bounds segment of the persisted object.
    fn json_bounds_part(&self) -> (r: String)
        ensures
            r@ == decl_json_bounds(self@),
    {
        let mut bounds = ",\"max_length\":".to_owned();
        bounds.append(u32_to_string(self.max_length).as_str());
        bounds.append(",\"min_length\":");
        bounds.append(u32_to_string(self.min_length).as_str());
        bounds.append(",\"max\":");
        bounds.append(u32_to_string(self.max).as_str());
        bounds.append(",\"min\":");
        bounds.append(u32_to_string(self.min).as_str());
        let typing = self.json_typing_part();
        bounds.append(typing.as_str());
        proof {
            reveal(decl_json_bounds);
            assert(bounds@ =~= decl_json_bounds(self@));
        }
        bounds
    }

    /// The characters of the declaration's persisted JSON object, built
    /// back to front along the segments of `decl_json`.
    pub fn to_json(&self) -> (r: String)
        ensures
            r@ == decl_json(self@),
    {
        let mut out = "{\"name\":\"".to_owned();
        out.append(self.name.as_str());
        out.append("\"");
        out.append(",\"display_name\":\"");
        out.append(self.display_name.as_str());
        out.append("\"");
        out.append(",\"unique\":");
        out.append(bool_str(self.unique));
        let bounds = self.json_bounds_part();
        out.append(bounds.as_str());
        proof {
            assert(out@ =~= decl_json(self@));
        }
        out
    }
}

/// The JSON notation of a boolean value.
pub open spec fn bool_text(b: bool) -> Seq<char> {
    if b {
        "true"@
    } else {
        "false"@
    }
}

/// The JSON notation of a boolean value.
pub fn bool_str(b: bool) -> (r: &'static str)
    ensures
        r@ == bool_text(b),
{
    if b {
        "true"
    } else {
        "false"
    }
}

/// The JSON object a declaration persists as: fixed keys in fixed order,
/// text fields between double quotes. The pieces are nested to the right,
/// one field or delimiter each, so that a reader can peel them in order.
pub open spec fn decl_json(d: DeclModel) -> Seq<char> {
    "{\"name\":\""@ + (d.name + ("\""@ + (",\"display_name\":\""@ + (d.display_name + ("\""@ + (
    ",\"unique\":"@ + (bool_text(d.unique) + decl_json_bounds(d))))))))
}

/// The length and value bounds of the persisted object.
#[verifier::opaque]
pub open spec fn decl_json_bounds(d: DeclModel) -> Seq<char> {
    ",\"max_length\":"@ + (dec_digits(d.max_length as nat) + (",\"min_length\":"@ + (dec_digits(
        d.min_length as nat,
    ) + (",\"max\":"@ + (dec_digits(d.max as nat) + (",\"min\":"@ + (dec_digits(d.min as nat)
        + decl_json_typing(d))))))))
}

/// The nullability flag, the type tag and the default of the persisted
/// object.
#[verifier::opaque]
pub open spec fn decl_json_typing(d: DeclModel) -> Seq<char> {
    ",\"nullable\":"@ + (bool_text(d.nullable) + (",\"column_type\":\""@ + (d.column_type.text() + (
    "\""@ + (",\"default\":\""@ + (d.default + ("\""@ + decl_json_meta(d))))))))
}

/// The display metadata closing the persisted object.
#[verifier::opaque]
pub open spec fn decl_json_meta(d: DeclModel) -> Seq<char> {
    ",\"hint\":\""@ + (d.hint + ("\""@ + (",\"layout\":\""@ + (d.layout + ("\""@ + "}"@)))))
}

/// The declarations joined by commas, in collection order.
pub open spec fn decls_json(s: Seq<DeclModel>) -> Seq<char>
    decreases s.len(),
{
    if s.len() == 0 {
        Seq::<char>::empty()
    } else if s.len() == 1 {
        decl_json(s[0])
    } else {
        decls_json(s.drop_last()) + ","@ + decl_json(s.last())
    }
}

/// The JSON array a schema collection persists as.
pub open spec fn schema_json(s: Seq<DeclModel>) -> Seq<char> {
    "["@ + decls_json(s) + "]"@
}

/// The mathematical shape of a declaration sequence.
pub open spec fn decls_of(v: Seq<SchemaDeclaration>) -> Seq<DeclModel> {
    v.map_values(|d: SchemaDeclaration| d@)
}

/// Whether some declaration in `s` carries `name`.
pub open spec fn contains_name(s: Seq<DeclModel>, name: Seq<char>) -> bool {
    exists|i: int| 0 <= i < s.len() && (#[trigger] s[i]).name == name
}

/// Index of the first declaration carrying `name`, or -1.
pub open spec fn find_name(s: Seq<DeclModel>, name: Seq<char>) -> int
    decreases s.len(),
{
    if s.len() == 0 {
        -1
    } else if s[0].name == name {
        0
    } else {
        let r = find_name(s.subrange(1, s.len() as int), name);
        if r == -1 {
            -1
        } else {
            r + 1
        }
    }
}

/// `find_name` returns the position of the first match.
pub proof fn lemma_find_name_at(s: Seq<DeclModel>, name: Seq<char>, k: int)
    requires
        0 <= k < s.len(),
        s[k].name == name,
        forall|j: int| 0 <= j < k ==> (#[trigger] s[j]).name != name,
    ensures
        find_name(s, name) == k,
    decreases s.len(),
{
    if k > 0 {
        let t = s.subrange(1, s.len() as int);
        assert(forall|j: int| 0 <= j < k - 1 ==> (#[trigger] t[j]).name != name);
        lemma_find_name_at(t, name, k - 1);
    }
}

/// A contained name is found: `find_name` points at a declaration
/// carrying it.
pub proof fn lemma_find_name_contains(s: Seq<DeclModel>, name: Seq<char>)
    requires
        contains_name(s, name),
    ensures
        0 <= find_name(s, name) < s.len(),
        s[find_name(s, name)].name == name,
    decreases s.len(),
{
    if s[0].name == name {
    } else {
        let t = s.subrange(1, s.len() as int);
        assert(contains_name(t, name)) by {
            let w = choose|i: int| 0 <= i < s.len() && (#[trigger] s[i]).name == name;
            assert(t[w - 1] == s[w]);
        }
        lemma_find_name_contains(t, name);
    }
}

/// `find_name` returns -1 exactly when no declaration matches.
pub proof fn lemma_find_name_none(s: Seq<DeclModel>, name: Seq<char>)
    requires
        forall|j: int| 0 <= j < s.len() ==> (#[trigger] s[j]).name != name,
    ensures
        find_name(s, name) == -1,
    decreases s.len(),
{
    if s.len() > 0 {
        let t = s.subrange(1, s.len() as int);
        lemma_find_name_none(t, name);
    }
}

/// What altering with `d` does to the declaration sequence: a matching name
/// is removed and `d` is appended at the end either way.
pub open spec fn alter_decls(s: Seq<DeclModel>, d: DeclModel) -> Seq<DeclModel> {
    if contains_name(s, d.name) {
        s.remove(find_name(s, d.name)).push(d)
    } else {
        s.push(d)
    }
}

/// What removing `name` does to the declaration sequence.
pub open spec fn remove_decl(s: Seq<DeclModel>, name: Seq<char>) -> Seq<DeclModel>
    recommends
        contains_name(s, name),
{
    s.remove(find_name(s, name))
}

/// The comma-joined projection column list: the three bookkeeping stamps
/// after the identifier, then every declared column in order.
pub open spec fn sql_names_model(s: Seq<DeclModel>) -> Seq<char>
    decreases s.len(),
{
    if s.len() == 0 {
        "id,created_at,updated_at,deleted_at"@
    } else {
        sql_names_model(s.drop_last()) + ","@ + s.last().name
    }
}

/// The ordered, name-unique set of current column declarations.
pub struct SchemaCollection {
    pub collection: Vec<SchemaDeclaration>,
}

impl View for SchemaCollection {
    type V = Seq<DeclModel>;

    open spec fn view(&self) -> Seq<DeclModel> {
        self.collection@.map_values(|d: SchemaDeclaration| d@)
    }
}

impl SchemaCollection {
    pub fn new(collection: Vec<SchemaDeclaration>) -> (r: SchemaCollection)
        ensures
            r@ == collection@.map_values(|d: SchemaDeclaration| d@),
    {
        SchemaCollection { collection }
    }

    /// A declaration-for-declaration copy.
    pub fn duplicate(&self) -> (r: SchemaCollection)
        ensures
            r@ == self@,
    {
        let mut collection: Vec<SchemaDeclaration> = Vec::new();
        let mut i: usize = 0;
        while i < self.collection.len()
            invariant
                0 <= i <= self.collection.len(),
                collection@.len() == i,
                forall|j: int| 0 <= j < i ==> collection@[j]@ == self@[j],
            decreases self.collection.len() - i,
        {
            collection.push(self.collection[i].duplicate());
            i = i + 1;
        }
        let r = SchemaCollection { collection };
        proof {
            assert(r@ =~= self@);
        }
        r
    }

    /// Position of the declaration with the same name, if any.
    pub fn contains(&self, declaration: &SchemaDeclaration) -> (r: Option<usize>)
        ensures
            match r {
                Some(i) => 0 <= i < self@.len() && self@[i as int].name == declaration@.name
                    && forall|j: int| 0 <= j < i ==> (#[trigger] self@[j]).name != declaration@.name,
                None => !contains_name(self@, declaration@.name),
            },
    {
        self.index_of(declaration.name.as_str())
    }

    /// Position of the declaration named `name`, if any.
    pub fn index_of(&self, name: &str) -> (r: Option<usize>)
        ensures
            match r {
                Some(i) => 0 <= i < self@.len() && self@[i as int].name == name@ && forall|j: int|
                    0 <= j < i ==> (#[trigger] self@[j]).name != name@,
                None => !contains_name(self@, name@),
            },
    {
        let mut i: usize = 0;
        while i < self.collection.len()
            invariant
                0 <= i <= self.collection.len(),
                self@.len() == self.collection.len(),
                forall|j: int| 0 <= j < i ==> (#[trigger] self@[j]).name != name@,
            decreases self.collection.len() - i,
        {
            if str_eq(self.collection[i].name.as_str(), name) {
                return Some(i);
            }
            i = i + 1;
        }
        None
    }

    /// The collection after an alter with `decl`: a declaration of the same
    /// name is dropped, and `decl` is appended at the end either way.
    pub fn altered(&self, decl: SchemaDeclaration) -> (r: SchemaCollection)
        ensures
            r@ == alter_decls(self@, decl@),
    {
        let mut copy = self.duplicate();
        match self.contains(&decl) {
            Some(idx) => {
                proof {
                    lemma_find_name_at(self@, decl@.name, idx as int);
                }
                copy.collection.remove(idx);
                proof {
                    assert(copy@ =~= self@.remove(idx as int));
                }
            },
            None => {},
        }
        copy.collection.push(decl);
        proof {
            assert(copy@ =~= alter_decls(self@, decl@));
        }
        copy
    }

    /// The collection after removing the declaration named `name`, or the
    /// report that no declaration carries that name.
    pub fn removed(&self, name: &str) -> (r: Option<SchemaCollection>)
        ensures
            match r {
                Some(c) => contains_name(self@, name@) && c@ == remove_decl(self@, name@),
                None => !contains_name(self@, name@),
            },
    {
        match self.index_of(name) {
            Some(idx) => {
                proof {
                    lemma_find_name_at(self@, name@, idx as int);
                }
                let mut copy = self.duplicate();
                copy.collection.remove(idx);
                proof {
                    assert(copy@ =~= self@.remove(idx as int));
                }
                Some(copy)
            },
            None => None,
        }
    }

    /// The comma-joined projection column list for the current schema.
    pub fn sql_names(&self) -> (r: String)
        ensures
            r@ == sql_names_model(self@),
    {
        let mut out = "id,created_at,updated_at,deleted_at".to_owned();
        let mut i: usize = 0;
        while i < self.collection.len()
            invariant
                0 <= i <= self.collection.len(),
                self@.len() == self.collection.len(),
                out@ == sql_names_model(self@.subrange(0, i as int)),
            decreases self.collection.len() - i,
        {
            out.append(",");
            out.append(self.collection[i].name.as_str());
            proof {
                let pre = self@.subrange(0, i as int);
                let cur = self@.subrange(0, i + 1 as int);
                assert(cur.drop_last() =~= pre);
                assert(out@ =~= sql_names_model(cur));
            }
            i = i + 1;
        }
        proof {
            assert(self@.subrange(0, self@.len() as int) == self@);
        }
        out
    }

    /// The characters of the persisted JSON array of declarations.
    pub fn to_json(&self) -> (r: String)
        ensures
            r@ == schema_json(self@),
    {
        let mut out = "[".to_owned();
        let mut i: usize = 0;
        while i < self.collection.len()
            invariant
                0 <= i <= self.collection.len(),
                self@.len() == self.collection.len(),
                out@ == "["@ + decls_json(self@.subrange(0, i as int)),
            decreases self.collection.len() - i,
        {
            if i > 0 {
                out.append(",");
            }
            let piece = self.collection[i].to_json();
            out.append(piece.as_str());
            proof {
                let pre = self@.subrange(0, i as int);
                let cur = self@.subrange(0, i + 1 as int);
                assert(cur.drop_last() =~= pre);
                assert(cur.last() == self@[i as int]);
                assert(out@ =~= "["@ + decls_json(cur));
            }
            i = i + 1;
        }
        out.append("]");
        proof {
            assert(self@.subrange(0, self@.len() as int) == self@);
            assert(out@ =~= schema_json(self@));
        }
        out
    }
}

} // verus!
