//! The catalog of a geodatabase: which feature classes, tables and feature datasets it
//! holds, and in which data files.
//!
//! Two system tables make the catalog:
//! - `GDB_SystemCatalog` (file 1) maps internal table names to file numbers (`ID`, `Name`);
//! - `GDB_Items` registers the user's objects (`Name`, `PhysicalName`, `Path`, `Type`,
//!   `DatasetSubtype2`, `Definition`), with `GDB_ItemTypes` naming the type UUIDs.
//!
//! An item is classified by the prefix of its `Definition` XML, else by its type name; its
//! name and parent dataset come from its `Path` (`\Dataset\Class`); its file number from its
//! physical name (or name), matched exactly and then in lower case.
use vstd::prelude::*;
use vstd::string::StrSliceExecFns;
use crate::error::{GdbError, format_error, error_text};
use crate::field::{GeometryType, geometry_type_of, first_named, opt_index};
use crate::table::{Table, rows_view};
use crate::value::{FieldValue, ValueView, row_view, decimal, push_decimal, signed_decimal, push_signed};
use crate::text::{
    chars_of, str_eq, to_lowercase, lowercase, starts_with, starts_with_at, trim_start, ws_prefix,
    is_whitespace, is_ws, lemma_ws_prefix_exact, to_string,
};

verus! {

/// The kind of a catalog item.
#[derive(Debug, Clone, Copy, PartialEq, Eq, Structural)]
pub enum CatalogItemType {
    FeatureClass,
    Table,
    FeatureDataset,
}

/// One catalog item (a feature class, a table or a feature dataset).
#[derive(Debug)]
pub struct CatalogItem {
    /// The item's name (the last part of its path).
    pub name: String,
    /// The full path (`\Dataset\Class`).
    pub path: String,
    /// The kind of item.
    pub item_type: CatalogItemType,
    /// The geometry type (feature classes only).
    pub geometry_type: GeometryType,
    /// The data file number (`a{file_id:08x}.gdbtable`); 0 for a feature dataset without
    /// a file.
    pub file_id: u32,
    /// The feature dataset that holds the item, if any.
    pub parent_dataset: Option<String>,
}

/// The mathematical value of a catalog item.
pub struct CatalogItemView {
    pub name: Seq<char>,
    pub path: Seq<char>,
    pub item_type: CatalogItemType,
    pub geometry_type: GeometryType,
    pub file_id: u32,
    pub parent_dataset: Option<Seq<char>>,
}

impl View for CatalogItem {
    type V = CatalogItemView;

    open spec fn view(&self) -> CatalogItemView {
        CatalogItemView {
            name: self.name@,
            path: self.path@,
            item_type: self.item_type,
            geometry_type: self.geometry_type,
            file_id: self.file_id,
            parent_dataset: match self.parent_dataset {
                Some(p) => Some(p@),
                None => None,
            },
        }
    }
}

/// A copy of an optional text.
fn clone_opt_string(o: &Option<String>) -> (r: Option<String>)
    ensures
        match o {
            Some(s) => r matches Some(t) && t@ == s@,
            None => r is None,
        },
{
    match o {
        Some(s) => Some(s.as_str().to_string()),
        None => None,
    }
}

impl Clone for CatalogItem {
    fn clone(&self) -> (c: Self)
        ensures
            c@ == self@,
    {
        CatalogItem {
            name: self.name.as_str().to_string(),
            path: self.path.as_str().to_string(),
            item_type: self.item_type,
            geometry_type: self.geometry_type,
            file_id: self.file_id,
            parent_dataset: clone_opt_string(&self.parent_dataset),
        }
    }
}

// ---------------------------------------------------------------------------
// Values of the catalog tables
// ---------------------------------------------------------------------------

/// Bytes as a list of decimal numbers separated by `, ` (no brackets).
pub open spec fn byte_list(b: Seq<u8>) -> Seq<char>
    decreases b.len(),
{
    if b.len() == 0 {
        Seq::empty()
    } else if b.len() == 1 {
        decimal(b[0] as nat)
    } else {
        byte_list(b.drop_last()) + seq![',', ' '] + decimal(b.last() as nat)
    }
}

/// `name(inner)`.
pub open spec fn wrapped(name: Seq<char>, inner: Seq<char>) -> Seq<char> {
    name + seq!['('] + inner + seq![')']
}

/// The text of a value of a kind other than text, XML and NULL: the variant's name with
/// the value in brackets, as `Int32(-7)`, `ObjectId(12)`, `Binary([1, 2])` or
/// `Uuid(Uuid([0, 1, ...]))`. Floating-point and date values, which the library holds as
/// IEEE-754 bit patterns, show that pattern in decimal (`Double(bits 4607182418800017408)`);
/// a geometry shows as `Geometry`.
#[verifier::opaque]
pub open spec fn other_value_text(v: ValueView) -> Seq<char> {
    match v {
        ValueView::Int16(x) => wrapped("Int16"@, signed_decimal(x as int)),
        ValueView::Int32(x) => wrapped("Int32"@, signed_decimal(x as int)),
        ValueView::Int64(x) => wrapped("Int64"@, signed_decimal(x as int)),
        ValueView::ObjectId(x) => wrapped("ObjectId"@, decimal(x as nat)),
        ValueView::Float(x) => wrapped("Float"@, "bits "@ + decimal(x as nat)),
        ValueView::Double(x) => wrapped("Double"@, "bits "@ + decimal(x as nat)),
        ValueView::DateTime(x) => wrapped("DateTime"@, "bits "@ + decimal(x as nat)),
        ValueView::Binary(b) => wrapped("Binary"@, seq!['['] + byte_list(b) + seq![']']),
        ValueView::Uuid(b) => wrapped("Uuid"@, wrapped("Uuid"@, seq!['['] + byte_list(b) + seq![']'])),
        ValueView::Geometry(_) => "Geometry"@,
        ValueView::Text(t) => t,
        ValueView::Xml(t) => t,
        ValueView::Null => Seq::empty(),
    }
}

/// A value read as text: text and XML as they are, NULL as empty text, anything else as
/// [`other_value_text`].
pub open spec fn text_of_value(v: ValueView) -> Seq<char> {
    match v {
        ValueView::Text(s) => s,
        ValueView::Xml(s) => s,
        ValueView::Null => Seq::empty(),
        _ => other_value_text(v),
    }
}

/// Appends the bytes as a bracketed list of decimal numbers.
fn push_byte_list(s: &mut String, b: &[u8])
    ensures
        final(s)@ == old(s)@ + seq!['['] + byte_list(b@) + seq![']'],
{
    proof { reveal_strlit("["); reveal_strlit("]"); reveal_strlit(", "); }
    s.append("[");
    let ghost start = s@;
    let mut i: usize = 0;
    while i < b.len()
        invariant
            i <= b@.len(),
            s@ == start + byte_list(b@.take(i as int)),
        decreases b@.len() - i,
    {
        assert(b@.take(i + 1).drop_last() =~= b@.take(i as int));
        proof { reveal_strlit(", "); }
        if i > 0 {
            s.append(", ");
        }
        push_decimal(s, b[i] as u64);
        proof {
            let t = b@.take(i + 1);
            assert(t.last() == b@[i as int]);
            if i == 0 {
                assert(t.len() == 1 && t[0] == b@[0]);
                assert(byte_list(t) == decimal(b@[0] as nat));
            } else {
                assert(byte_list(t) == byte_list(b@.take(i as int)) + seq![',', ' '] + decimal(b@[i as int] as nat));
            }
        }
        assert(s@ =~= start + byte_list(b@.take(i + 1)));
        i = i + 1;
    }
    assert(b@.take(i as int) =~= b@);
    s.append("]");
}

/// A value read as text (see [`text_of_value`]).
fn field_text(v: &FieldValue) -> (s: String)
    ensures
        s@ == text_of_value(v@),
{
    proof {
        reveal_strlit("Int16"); reveal_strlit("Int32"); reveal_strlit("Int64");
        reveal_strlit("ObjectId"); reveal_strlit("Float"); reveal_strlit("Double");
        reveal_strlit("DateTime"); reveal_strlit("Binary"); reveal_strlit("Uuid");
        reveal_strlit("Geometry"); reveal_strlit("("); reveal_strlit(")"); reveal_strlit("bits ");
        reveal_strlit("Int16("); reveal_strlit("Int32("); reveal_strlit("Int64(");
        reveal_strlit("ObjectId("); reveal_strlit("Float(bits "); reveal_strlit("Double(bits ");
        reveal_strlit("DateTime(bits "); reveal_strlit("Binary("); reveal_strlit("Uuid(Uuid(");
        reveal_strlit("))");
    }
    let mut s = String::new();
    match v {
        FieldValue::Text(t) => { return t.as_str().to_string(); }
        FieldValue::Xml(t) => { return t.as_str().to_string(); }
        FieldValue::Null => { return s; }
        FieldValue::Int16(x) => { s.append("Int16("); push_signed(&mut s, *x as i64); s.append(")"); }
        FieldValue::Int32(x) => { s.append("Int32("); push_signed(&mut s, *x as i64); s.append(")"); }
        FieldValue::Int64(x) => { s.append("Int64("); push_signed(&mut s, *x); s.append(")"); }
        FieldValue::ObjectId(x) => { s.append("ObjectId("); push_decimal(&mut s, *x); s.append(")"); }
        FieldValue::Float(x) => { s.append("Float(bits "); push_decimal(&mut s, *x as u64); s.append(")"); }
        FieldValue::Double(x) => { s.append("Double(bits "); push_decimal(&mut s, *x); s.append(")"); }
        FieldValue::DateTime(x) => { s.append("DateTime(bits "); push_decimal(&mut s, *x); s.append(")"); }
        FieldValue::Binary(b) => { s.append("Binary("); push_byte_list(&mut s, b.as_slice()); s.append(")"); }
        FieldValue::Uuid(u) => { s.append("Uuid(Uuid("); push_byte_list(&mut s, &u.0); s.append("))"); }
        FieldValue::Geometry(_) => { s.append("Geometry"); }
    }
    proof { reveal(other_value_text); }
    assert(s@ =~= text_of_value(v@));
    s
}

/// A value read as an integer: integers and object IDs (wrapped to `i64`), 0 for anything
/// else.
pub open spec fn int_of_value(v: ValueView) -> i64 {
    match v {
        ValueView::Int16(x) => x as i64,
        ValueView::Int32(x) => x as i64,
        ValueView::Int64(x) => x,
        ValueView::ObjectId(x) => x as i64,
        _ => 0,
    }
}

/// The text of a value as a diagnostic shows it: text and XML quoted after their kind
/// (`Text("abc")`, with no character escaped), NULL as `Null`, anything else as
/// [`other_value_text`].
pub open spec fn value_debug_text(v: ValueView) -> Seq<char> {
    match v {
        ValueView::Text(t) => wrapped("Text"@, seq!['"'] + t + seq!['"']),
        ValueView::Xml(t) => wrapped("Xml"@, seq!['"'] + t + seq!['"']),
        ValueView::Null => "Null"@,
        _ => other_value_text(v),
    }
}

/// The text of a value as a diagnostic shows it (see [`value_debug_text`]).
pub fn value_debug(v: &FieldValue) -> (s: String)
    ensures
        s@ == value_debug_text(v@),
{
    proof {
        reveal_strlit("Text(\""); reveal_strlit("Xml(\""); reveal_strlit("\")"); reveal_strlit("Null");
        reveal_strlit("Text"); reveal_strlit("Xml");
    }
    match v {
        FieldValue::Text(t) => {
            let mut s = to_string("Text(\"");
            s.append(t.as_str());
            s.append("\")");
            assert(s@ =~= value_debug_text(v@));
            s
        },
        FieldValue::Xml(t) => {
            let mut s = to_string("Xml(\"");
            s.append(t.as_str());
            s.append("\")");
            assert(s@ =~= value_debug_text(v@));
            s
        },
        FieldValue::Null => to_string("Null"),
        _ => field_text(v),
    }
}

/// A value read as an integer.
fn field_int(v: &FieldValue) -> (i: i64)
    ensures
        i == int_of_value(v@),
{
    match v {
        FieldValue::Int16(x) => *x as i64,
        FieldValue::Int32(x) => *x as i64,
        FieldValue::Int64(x) => *x,
        FieldValue::ObjectId(x) => *x as i64,
        _ => 0,
    }
}

// ---------------------------------------------------------------------------
// Association lists
// ---------------------------------------------------------------------------

/// The map of a list of pairs, a later pair replacing an earlier one with the same key.
pub open spec fn to_map<K, V>(v: Seq<(K, V)>) -> Map<K, V>
    decreases v.len(),
{
    if v.len() == 0 { Map::empty() } else { to_map(v.drop_last()).insert(v.last().0, v.last().1) }
}

/// The value of a key, if any.
pub open spec fn map_get<K, V>(m: Map<K, V>, k: K) -> Option<V> {
    if m.contains_key(k) { Some(m[k]) } else { None }
}

/// The map holds the last pair with a key, and no key without a pair.
proof fn lemma_to_map_last<K, V>(v: Seq<(K, V)>, k: K, i: int)
    requires
        -1 <= i < v.len(),
        i >= 0 ==> v[i].0 == k,
        forall|j: int| i < j < v.len() ==> v[j].0 != k,
    ensures
        map_get(to_map(v), k) == (if i >= 0 { Some(v[i].1) } else { None::<V> }),
    decreases v.len(),
{
    if v.len() > 0 {
        if i == v.len() - 1 {
        } else {
            lemma_to_map_last(v.drop_last(), k, i);
        }
    }
}

/// The views of a list of text keys and numbers.
pub open spec fn ids_view(v: Seq<(String, u32)>) -> Seq<(Seq<char>, u32)> {
    v.map_values(|e: (String, u32)| (e.0@, e.1))
}

/// The value of the last pair with key `key`.
fn lookup_id(entries: &Vec<(String, u32)>, key: &str) -> (r: Option<u32>)
    ensures
        r == map_get(to_map(ids_view(entries@)), key@),
{
    let ghost v = ids_view(entries@);
    let mut i: usize = entries.len();
    while i > 0
        invariant
            v == ids_view(entries@),
            i <= entries@.len(),
            forall|j: int| i <= j < v.len() ==> v[j].0 != key@,
        decreases i,
    {
        if str_eq(entries[i - 1].0.as_str(), key) {
            proof {
                lemma_to_map_last(v, key@, i - 1);
            }
            return Some(entries[i - 1].1);
        }
        i = i - 1;
    }
    proof {
        lemma_to_map_last(v, key@, -1);
    }
    None
}

/// The views of a list of UUIDs and texts.
pub open spec fn types_view(v: Seq<([u8; 16], String)>) -> Seq<(Seq<u8>, Seq<char>)> {
    v.map_values(|e: ([u8; 16], String)| (e.0@, e.1@))
}

/// Whether two UUIDs are equal.
fn uuid_eq(a: &[u8; 16], b: &[u8; 16]) -> (r: bool)
    ensures
        r == (a@ == b@),
{
    let mut k: usize = 0;
    while k < 16
        invariant
            k <= 16,
            a@.len() == 16,
            b@.len() == 16,
            forall|j: int| 0 <= j < k ==> a@[j] == b@[j],
        decreases 16 - k,
    {
        if a[k] != b[k] {
            return false;
        }
        k = k + 1;
    }
    assert(a@ =~= b@);
    true
}

/// The name of the last pair with this UUID.
fn lookup_type(entries: &Vec<([u8; 16], String)>, key: &[u8; 16]) -> (r: Option<String>)
    ensures
        match map_get(to_map(types_view(entries@)), key@) {
            Some(t) => r matches Some(s) && s@ == t,
            None => r is None,
        },
{
    let ghost v = types_view(entries@);
    let mut i: usize = entries.len();
    while i > 0
        invariant
            v == types_view(entries@),
            i <= entries@.len(),
            forall|j: int| i <= j < v.len() ==> v[j].0 != key@,
        decreases i,
    {
        if uuid_eq(&entries[i - 1].0, key) {
            proof {
                lemma_to_map_last(v, key@, i - 1);
            }
            return Some(entries[i - 1].1.as_str().to_string());
        }
        i = i - 1;
    }
    proof {
        lemma_to_map_last(v, key@, -1);
    }
    None
}

// ---------------------------------------------------------------------------
// The system catalog
// ---------------------------------------------------------------------------

/// The (name, file number) pairs of the system catalog rows.
fn collect_ids(rows: &Vec<Vec<FieldValue>>, id_i: usize, name_i: usize) -> (ids: Vec<(String, u32)>)
    requires
        forall|r: int| 0 <= r < rows@.len() ==> id_i < #[trigger] rows@[r]@.len() && name_i < rows@[r]@.len(),
    ensures
        ids_view(ids@) == ids_of(rows_view(rows@), id_i as nat, name_i as nat),
{
    let ghost rv = rows_view(rows@);
    let mut ids: Vec<(String, u32)> = Vec::new();
    let mut k: usize = 0;
    while k < rows.len()
        invariant
            rv == rows_view(rows@),
            forall|r: int| 0 <= r < rows@.len() ==> id_i < #[trigger] rows@[r]@.len() && name_i < rows@[r]@.len(),
            k <= rows@.len(),
            ids_view(ids@) == ids_of(rv.take(k as int), id_i as nat, name_i as nat),
        decreases rows@.len() - k,
    {
        let row = &rows[k];
        assert(id_i < row@.len() && name_i < row@.len());
        let name = field_text(&row[name_i]);
        let id = field_int(&row[id_i]) as u32;
        proof {
            assert(rv.take(k + 1).drop_last() =~= rv.take(k as int));
            assert(rv.take(k + 1).last() == row_view(row@));
        }
        let ghost before = ids_view(ids@);
        if name.as_str().unicode_len() > 0 {
            ids.push((name, id));
            assert(ids_view(ids@) =~= before.push((name@, id)));
        }
        k = k + 1;
    }
    assert(rv.take(k as int) =~= rv);
    ids
}

/// The same pairs with their names in lower case.
fn lower_ids(ids: &Vec<(String, u32)>) -> (lower: Vec<(String, u32)>)
    ensures
        ids_view(lower@) == lower_of(ids_view(ids@)),
{
    let ghost v = ids_view(ids@);
    let mut lower: Vec<(String, u32)> = Vec::new();
    let mut j: usize = 0;
    while j < ids.len()
        invariant
            v == ids_view(ids@),
            j <= ids@.len(),
            ids_view(lower@) == lower_of(v).take(j as int),
        decreases ids@.len() - j,
    {
        let key = to_lowercase(ids[j].0.as_str());
        let ghost before = ids_view(lower@);
        lower.push((key, ids[j].1));
        proof {
            assert(v[j as int] == (ids@[j as int].0@, ids@[j as int].1));
            assert(lower_of(v)[j as int] == (lowercase(ids@[j as int].0@), ids@[j as int].1));
            assert(ids_view(lower@) =~= before.push((key@, ids@[j as int].1)));
            assert(lower_of(v).take(j + 1) =~= lower_of(v).take(j as int).push(lower_of(v)[j as int]));
        }
        j = j + 1;
    }
    assert(lower_of(v).take(j as int) =~= lower_of(v));
    lower
}

/// The (name, file number) pairs of the system catalog rows with a non-empty name, in
/// row order.
pub open spec fn ids_of(rows: Seq<Seq<ValueView>>, id_i: nat, name_i: nat) -> Seq<(Seq<char>, u32)>
    decreases rows.len(),
{
    if rows.len() == 0 {
        Seq::empty()
    } else {
        let prev = ids_of(rows.drop_last(), id_i, name_i);
        let name = text_of_value(rows.last()[name_i as int]);
        if name.len() > 0 { prev.push((name, int_of_value(rows.last()[id_i as int]) as u32)) } else { prev }
    }
}

/// The same pairs with their names in lower case.
pub open spec fn lower_of(v: Seq<(Seq<char>, u32)>) -> Seq<(Seq<char>, u32)> {
    v.map_values(|e: (Seq<char>, u32)| (lowercase(e.0), e.1))
}

/// Whether every row has a value at index `i`.
pub open spec fn rows_reach(rows: Seq<Vec<FieldValue>>, i: Option<nat>) -> bool {
    i matches Some(k) ==> forall|r: int| 0 <= r < rows.len() ==> k < #[trigger] rows[r]@.len()
}

/// The system catalog's map from internal table names to file numbers, exactly and in
/// lower case.
pub struct CatalogIndex {
    ids: Vec<(String, u32)>,
    lower: Vec<(String, u32)>,
}

impl CatalogIndex {
    /// The (name, file number) pairs, in catalog order.
    pub closed spec fn entries(&self) -> Seq<(Seq<char>, u32)> {
        ids_view(self.ids@)
    }

    /// The (lower-case name, file number) pairs.
    pub closed spec fn lower_entries(&self) -> Seq<(Seq<char>, u32)> {
        ids_view(self.lower@)
    }

    /// Reads the system catalog table (its `ID` and `Name` fields). Names that occur
    /// twice keep their last file number; of names equal in lower case, the lower-case map
    /// keeps the one registered last.
    #[verifier::spinoff_prover]
    pub fn new(catalog: &Table) -> (res: Result<CatalogIndex, GdbError>)
        requires
            rows_reach(catalog.rows@, first_named(catalog.schema.fields@, "ID"@)),
            rows_reach(catalog.rows@, first_named(catalog.schema.fields@, "Name"@)),
        ensures
            match (first_named(catalog.schema.fields@, "ID"@), first_named(catalog.schema.fields@, "Name"@)) {
                (Some(ii), Some(ni)) => res matches Ok(x)
                    && x.entries() == ids_of(rows_view(catalog.rows@), ii, ni)
                    && x.lower_entries() == lower_of(ids_of(rows_view(catalog.rows@), ii, ni)),
                (None, _) => res matches Err(e) && e is Format && error_text(e) == "系统目录缺少 ID 字段"@,
                (Some(_), None) => res matches Err(e) && e is Format && error_text(e) == "系统目录缺少 Name 字段"@,
            },
    {
        let id_i = match catalog.schema.field_index("ID") {
            Some(i) => i,
            None => return Err(format_error("系统目录缺少 ID 字段")),
        };
        let name_i = match catalog.schema.field_index("Name") {
            Some(i) => i,
            None => return Err(format_error("系统目录缺少 Name 字段")),
        };
        let ids = collect_ids(&catalog.rows, id_i, name_i);
        let lower = lower_ids(&ids);
        Ok(CatalogIndex { ids, lower })
    }

    /// The file number of an internal table name.
    pub fn file_id(&self, name: &str) -> (r: Option<u32>)
        ensures
            r == map_get(to_map(self.entries()), name@),
    {
        lookup_id(&self.ids, name)
    }

    /// The file number of a lower-case name.
    fn lower_file_id(&self, name: &str) -> (r: Option<u32>)
        ensures
            r == map_get(to_map(self.lower_entries()), name@),
    {
        lookup_id(&self.lower, name)
    }

    /// The file number of `GDB_Items` (the item registry), which every geodatabase has.
    pub fn items_file_id(&self) -> (res: Result<u32, GdbError>)
        ensures
            match map_get(to_map(self.entries()), "GDB_Items"@) {
                Some(i) => res == Ok::<u32, GdbError>(i),
                None => res matches Err(e) && e is Format && error_text(e) == "系统目录缺少 GDB_Items 表"@,
            },
    {
        match self.file_id("GDB_Items") {
            Some(i) => Ok(i),
            None => Err(format_error("系统目录缺少 GDB_Items 表")),
        }
    }
}

/// The (UUID, type name) pairs of the item types table.
pub open spec fn types_of(rows: Seq<Seq<ValueView>>, ui: nat, ni: nat) -> Seq<(Seq<u8>, Seq<char>)>
    decreases rows.len(),
{
    if rows.len() == 0 {
        Seq::empty()
    } else {
        let prev = types_of(rows.drop_last(), ui, ni);
        match rows.last()[ui as int] {
            ValueView::Uuid(u) => prev.push((u, text_of_value(rows.last()[ni as int]))),
            _ => prev,
        }
    }
}

/// The type names of the item types table (`UUID`, `Name`), in row order; none when a
/// field is missing.
#[verifier::rlimit(60)]
pub fn item_type_names(t: &Table) -> (r: Vec<([u8; 16], String)>)
    requires
        rows_reach(t.rows@, first_named(t.schema.fields@, "UUID"@)),
        rows_reach(t.rows@, first_named(t.schema.fields@, "Name"@)),
    ensures
        types_view(r@) == match (first_named(t.schema.fields@, "UUID"@), first_named(t.schema.fields@, "Name"@)) {
            (Some(ui), Some(ni)) => types_of(rows_view(t.rows@), ui, ni),
            _ => Seq::empty(),
        },
{
    let ui = t.schema.field_index("UUID");
    let ni = t.schema.field_index("Name");
    if ui.is_none() || ni.is_none() {
        let out: Vec<([u8; 16], String)> = Vec::new();
        assert(types_view(out@) =~= Seq::<(Seq<u8>, Seq<char>)>::empty());
        return out;
    }
    let ui = ui.unwrap();
    let ni = ni.unwrap();
    proof {
        assert(forall|r: int| 0 <= r < t.rows@.len() ==> ui < #[trigger] t.rows@[r]@.len());
        assert(forall|r: int| 0 <= r < t.rows@.len() ==> ni < #[trigger] t.rows@[r]@.len());
    }
    collect_types(&t.rows, ui, ni)
}

/// The (UUID, name) pairs of the item types rows.
fn collect_types(rows: &Vec<Vec<FieldValue>>, ui: usize, ni: usize) -> (out: Vec<([u8; 16], String)>)
    requires
        forall|r: int| 0 <= r < rows@.len() ==> ui < #[trigger] rows@[r]@.len() && ni < rows@[r]@.len(),
    ensures
        types_view(out@) == types_of(rows_view(rows@), ui as nat, ni as nat),
{
    let ghost rv = rows_view(rows@);
    let mut out: Vec<([u8; 16], String)> = Vec::new();
    let mut k: usize = 0;
    while k < rows.len()
        invariant
            rv == rows_view(rows@),
            forall|r: int| 0 <= r < rows@.len() ==> ui < #[trigger] rows@[r]@.len() && ni < rows@[r]@.len(),
            k <= rows@.len(),
            types_view(out@) == types_of(rv.take(k as int), ui as nat, ni as nat),
        decreases rows@.len() - k,
    {
        let row = &rows[k];
        assert(ui < row@.len() && ni < row@.len());
        proof {
            assert(rv.take(k + 1).drop_last() =~= rv.take(k as int));
            assert(rv.take(k + 1).last() == row_view(row@));
        }
        let ghost before = types_view(out@);
        match &row[ui] {
            FieldValue::Uuid(u) => {
                let name = field_text(&row[ni]);
                out.push((u.0, name));
                assert(types_view(out@) =~= before.push((u.0@, name@)));
            },
            _ => {},
        }
        k = k + 1;
    }
    assert(rv.take(k as int) =~= rv);
    out
}

// ---------------------------------------------------------------------------
// Classifying the registered items
// ---------------------------------------------------------------------------

/// The number of leading backslashes.
pub open spec fn bs_prefix(s: Seq<char>) -> nat
    decreases s.len(),
{
    if s.len() == 0 { 0 } else if s[0] == '\\' { 1 + bs_prefix(s.drop_first()) } else { 0 }
}

/// Splitting at backslashes after `n` characters: the non-empty parts done so far and the
/// start of the current part.
pub open spec fn split_state(s: Seq<char>, n: nat) -> (Seq<Seq<char>>, nat)
    decreases n,
{
    if n == 0 {
        (Seq::empty(), 0)
    } else {
        let (parts, st) = split_state(s, (n - 1) as nat);
        if s[n - 1] == '\\' {
            (if st < n - 1 { parts.push(s.subrange(st as int, n - 1)) } else { parts }, n)
        } else {
            (parts, st)
        }
    }
}

/// The non-empty parts of a text between backslashes (`split('\\')` without the empty
/// parts).
pub open spec fn segments(s: Seq<char>) -> Seq<Seq<char>> {
    let (parts, st) = split_state(s, s.len());
    if st < s.len() { parts.push(s.subrange(st as int, s.len() as int)) } else { parts }
}

/// The kind and geometry type of an item: by the prefix of its definition (leading
/// whitespace skipped), else by its type name; none for other objects (domains,
/// relationship classes ...).
pub open spec fn classify(def: Seq<char>, kind_name: Seq<char>, ds2: i32) -> Option<(CatalogItemType, GeometryType)> {
    let p = trim_start(def);
    if starts_with(p, "<DEFeatureDataset"@) || kind_name == "Feature Dataset"@ {
        Some((CatalogItemType::FeatureDataset, GeometryType::NoGeometry))
    } else if starts_with(p, "<DEFeatureClass"@) || kind_name == "Feature Class"@ {
        Some((CatalogItemType::FeatureClass, geometry_type_of(ds2)))
    } else if starts_with(p, "<DETable"@) || kind_name == "Table"@ {
        Some((CatalogItemType::Table, GeometryType::NoGeometry))
    } else {
        None
    }
}

/// The file number of an item: by its physical name, then its name, then both in lower
/// case.
pub open spec fn file_id_of(ids: Seq<(Seq<char>, u32)>, lower: Seq<(Seq<char>, u32)>, physical: Seq<char>, name: Seq<char>) -> Option<u32> {
    match map_get(to_map(ids), physical) {
        Some(i) => Some(i),
        None => match map_get(to_map(ids), name) {
            Some(i) => Some(i),
            None => match map_get(to_map(lower), lowercase(physical)) {
                Some(i) => Some(i),
                None => map_get(to_map(lower), lowercase(name)),
            },
        },
    }
}

/// The text at an optional column (empty without the column).
pub open spec fn opt_text(row: Seq<ValueView>, i: Option<nat>) -> Seq<char> {
    match i {
        Some(k) => text_of_value(row[k as int]),
        None => Seq::empty(),
    }
}

/// The columns of the item registry: `Name`, `PhysicalName`, `Path`, `Type`,
/// `DatasetSubtype2`, `Definition`.
pub struct ItemColumns {
    pub name: Option<usize>,
    pub physical: Option<usize>,
    pub path: Option<usize>,
    pub type_: Option<usize>,
    pub ds2: Option<usize>,
    pub def: Option<usize>,
}

/// The optional index as a number.
pub open spec fn col(i: Option<usize>) -> Option<nat> {
    match i {
        Some(k) => Some(k as nat),
        None => None,
    }
}

/// The catalog item of one registry row, if the row registers a feature class, table or
/// feature dataset (with a data file, except for a feature dataset).
pub open spec fn item_of_row(row: Seq<ValueView>, c: ItemColumns, ids: Seq<(Seq<char>, u32)>,
    lower: Seq<(Seq<char>, u32)>, types: Seq<(Seq<u8>, Seq<char>)>) -> Option<CatalogItemView>
{
    let name = opt_text(row, col(c.name));
    let physical = opt_text(row, col(c.physical));
    let path = opt_text(row, col(c.path));
    let def = opt_text(row, col(c.def));
    let ds2 = (match c.ds2 { Some(k) => int_of_value(row[k as int]), None => 0i64 }) as i32;
    let kind_name = match c.type_ {
        Some(k) => match row[k as int] {
            ValueView::Uuid(u) => match map_get(to_map(types), u) {
                Some(t) => t,
                None => Seq::empty(),
            },
            _ => Seq::empty(),
        },
        None => Seq::empty(),
    };
    let raw = path.subrange(bs_prefix(path) as int, path.len() as int);
    if raw.len() == 0 || kind_name == "Workspace"@ || kind_name == "Folder"@ {
        None
    } else {
        let segs = segments(raw);
        let parent: Option<Seq<char>> = if segs.len() >= 2 { Some(segs[segs.len() - 2]) } else { None };
        let item_name = if segs.len() == 0 { name } else { segs.last() };
        match classify(def, kind_name, ds2) {
            None => None,
            Some((it, gt)) => match file_id_of(ids, lower, physical, name) {
                Some(fid) => Some(CatalogItemView { name: item_name, path, item_type: it, geometry_type: gt, file_id: fid, parent_dataset: parent }),
                None => if it == CatalogItemType::FeatureDataset {
                    Some(CatalogItemView { name: item_name, path, item_type: it, geometry_type: gt, file_id: 0, parent_dataset: parent })
                } else {
                    None
                },
            },
        }
    }
}

/// The catalog items of the registry rows, in row order.
pub open spec fn items_of(rows: Seq<Seq<ValueView>>, c: ItemColumns, ids: Seq<(Seq<char>, u32)>,
    lower: Seq<(Seq<char>, u32)>, types: Seq<(Seq<u8>, Seq<char>)>) -> Seq<CatalogItemView>
    decreases rows.len(),
{
    if rows.len() == 0 {
        Seq::empty()
    } else {
        let prev = items_of(rows.drop_last(), c, ids, lower, types);
        match item_of_row(rows.last(), c, ids, lower, types) {
            Some(item) => prev.push(item),
            None => prev,
        }
    }
}

/// The views of catalog items.
pub open spec fn items_view(items: Seq<CatalogItem>) -> Seq<CatalogItemView> {
    items.map_values(|i: CatalogItem| i@)
}

/// The type names of an item types table (none when a field is missing).
pub open spec fn types_of_table(t: Table) -> Seq<(Seq<u8>, Seq<char>)> {
    match (first_named(t.schema.fields@, "UUID"@), first_named(t.schema.fields@, "Name"@)) {
        (Some(ui), Some(ni)) => types_of(rows_view(t.rows@), ui, ni),
        _ => Seq::empty(),
    }
}

/// The number of leading backslashes.
fn backslash_prefix(cs: &Vec<char>) -> (k: usize)
    ensures
        k == bs_prefix(cs@),
        k <= cs@.len(),
{
    let mut k: usize = 0;
    while k < cs.len() && cs[k] == '\\'
        invariant
            k <= cs@.len(),
            forall|i: int| 0 <= i < k ==> cs@[i] == '\\',
        decreases cs@.len() - k,
    {
        k = k + 1;
    }
    proof {
        lemma_bs_prefix_exact(cs@, k as nat);
    }
    k
}

/// A run of backslashes followed by another character (or the end) is the leading run.
proof fn lemma_bs_prefix_exact(s: Seq<char>, k: nat)
    requires
        k <= s.len(),
        forall|i: int| 0 <= i < k ==> s[i] == '\\',
        k < s.len() ==> s[k as int] != '\\',
    ensures
        bs_prefix(s) == k,
    decreases k,
{
    if k > 0 {
        lemma_bs_prefix_exact(s.drop_first(), (k - 1) as nat);
    }
}

/// The character ranges of the views.
pub open spec fn ranges_view(cs: Seq<char>, r: Seq<(usize, usize)>) -> Seq<Seq<char>> {
    r.map_values(|p: (usize, usize)| cs.subrange(p.0 as int, p.1 as int))
}

/// The ranges of the non-empty parts between backslashes of `cs[from..]`.
fn split_segments(cs: &Vec<char>, from: usize) -> (r: Vec<(usize, usize)>)
    requires
        from <= cs@.len(),
    ensures
        ranges_view(cs@, r@) == segments(cs@.subrange(from as int, cs@.len() as int)),
        forall|i: int| 0 <= i < r@.len() ==> from <= #[trigger] r@[i].0 <= r@[i].1 <= cs@.len(),
{
    let ghost s = cs@.subrange(from as int, cs@.len() as int);
    let mut r: Vec<(usize, usize)> = Vec::new();
    let mut st: usize = from;
    let mut i: usize = from;
    while i < cs.len()
        invariant
            s == cs@.subrange(from as int, cs@.len() as int),
            from <= st <= i <= cs@.len(),
            split_state(s, (i - from) as nat) == (ranges_view(cs@, r@), (st - from) as nat),
            forall|j: int| 0 <= j < r@.len() ==> from <= #[trigger] r@[j].0 <= r@[j].1 <= cs@.len(),
        decreases cs@.len() - i,
    {
        let ghost before = ranges_view(cs@, r@);
        if cs[i] == '\\' {
            if st < i {
                r.push((st, i));
                assert(ranges_view(cs@, r@) =~= before.push(cs@.subrange(st as int, i as int)));
                assert(s.subrange(st - from, i - from) =~= cs@.subrange(st as int, i as int));
            }
            st = i + 1;
        }
        i = i + 1;
    }
    if st < cs.len() {
        let ghost before = ranges_view(cs@, r@);
        r.push((st, cs.len()));
        assert(ranges_view(cs@, r@) =~= before.push(cs@.subrange(st as int, cs@.len() as int)));
        assert(s.subrange(st - from, s.len() as int) =~= cs@.subrange(st as int, cs@.len() as int));
    }
    r
}

/// The kind and geometry type of an item (see [`classify`]).
fn classify_item(def: &String, kind_name: &String, ds2: i32) -> (r: Option<(CatalogItemType, GeometryType)>)
    ensures
        r == classify(def@, kind_name@, ds2),
{
    let cs = chars_of(def.as_str());
    let mut p: usize = 0;
    while p < cs.len() && is_whitespace(cs[p])
        invariant
            p <= cs@.len(),
            forall|i: int| 0 <= i < p ==> is_ws(#[trigger] cs@[i]),
        decreases cs@.len() - p,
    {
        p = p + 1;
    }
    proof {
        lemma_ws_prefix_exact(cs@, p as nat);
    }
    let tn = kind_name.as_str();
    if starts_with_at(&cs, p, &chars_of("<DEFeatureDataset")) || str_eq(tn, "Feature Dataset") {
        Some((CatalogItemType::FeatureDataset, GeometryType::NoGeometry))
    } else if starts_with_at(&cs, p, &chars_of("<DEFeatureClass")) || str_eq(tn, "Feature Class") {
        Some((CatalogItemType::FeatureClass, GeometryType::from_code(ds2)))
    } else if starts_with_at(&cs, p, &chars_of("<DETable")) || str_eq(tn, "Table") {
        Some((CatalogItemType::Table, GeometryType::NoGeometry))
    } else {
        None
    }
}

impl CatalogIndex {
    /// The file number of an item (see [`file_id_of`]).
    fn item_file_id(&self, physical: &String, name: &String) -> (r: Option<u32>)
        ensures
            r == file_id_of(self.entries(), self.lower_entries(), physical@, name@),
    {
        if let Some(i) = self.file_id(physical.as_str()) {
            return Some(i);
        }
        if let Some(i) = self.file_id(name.as_str()) {
            return Some(i);
        }
        let lp = to_lowercase(physical.as_str());
        if let Some(i) = self.lower_file_id(lp.as_str()) {
            return Some(i);
        }
        let ln = to_lowercase(name.as_str());
        self.lower_file_id(ln.as_str())
    }
}

/// The text at an optional column.
fn opt_field_text(row: &Vec<FieldValue>, i: Option<usize>) -> (s: String)
    requires
        i matches Some(k) ==> k < row@.len(),
    ensures
        s@ == opt_text(row_view(row@), col(i)),
{
    match i {
        Some(k) => field_text(&row[k]),
        None => String::new(),
    }
}

/// The catalog item of one registry row (see [`item_of_row`]).
fn item_from_row(row: &Vec<FieldValue>, c: &ItemColumns, index: &CatalogIndex, types: &Vec<([u8; 16], String)>)
    -> (r: Option<CatalogItem>)
    requires
        c.name matches Some(k) ==> k < row@.len(),
        c.physical matches Some(k) ==> k < row@.len(),
        c.path matches Some(k) ==> k < row@.len(),
        c.type_ matches Some(k) ==> k < row@.len(),
        c.ds2 matches Some(k) ==> k < row@.len(),
        c.def matches Some(k) ==> k < row@.len(),
    ensures
        match item_of_row(row_view(row@), *c, index.entries(), index.lower_entries(), types_view(types@)) {
            Some(v) => r matches Some(x) && x@ == v,
            None => r is None,
        },
{
    let name = opt_field_text(row, c.name);
    let physical = opt_field_text(row, c.physical);
    let path = opt_field_text(row, c.path);
    let def = opt_field_text(row, c.def);
    let ds2 = (match c.ds2 {
        Some(k) => field_int(&row[k]),
        None => 0,
    }) as i32;
    let kind_name = match c.type_ {
        Some(k) => match &row[k] {
            FieldValue::Uuid(u) => match lookup_type(types, &u.0) {
                Some(t) => t,
                None => String::new(),
            },
            _ => String::new(),
        },
        None => String::new(),
    };
    let cs = chars_of(path.as_str());
    let k = backslash_prefix(&cs);
    if k == cs.len() {
        return None;
    }
    let tn = kind_name.as_str();
    if str_eq(tn, "Workspace") || str_eq(tn, "Folder") {
        return None;
    }
    let segs = split_segments(&cs, k);
    let n = segs.len();
    let parent = if n >= 2 {
        let (a, b) = segs[n - 2];
        Some(path.as_str().substring_char(a, b).to_string())
    } else {
        None
    };
    let item_name = if n == 0 {
        name.as_str().to_string()
    } else {
        let (a, b) = segs[n - 1];
        path.as_str().substring_char(a, b).to_string()
    };
    let (item_type, geometry_type) = match classify_item(&def, &kind_name, ds2) {
        Some(x) => x,
        None => return None,
    };
    let file_id = match index.item_file_id(&physical, &name) {
        Some(f) => f,
        None => {
            if item_type == CatalogItemType::FeatureDataset {
                0
            } else {
                return None;
            }
        },
    };
    Some(CatalogItem { name: item_name, path, item_type, geometry_type, file_id, parent_dataset: parent })
}

/// Enumerates the user's objects (feature classes, tables, feature datasets) registered
/// in `GDB_Items`, given the system catalog and, when it could be read, the item types
/// table. Registry rows of other objects (the root, the workspace, folders, domains ...)
/// and items without a data file (but feature datasets) are left out.
pub fn enumerate(index: &CatalogIndex, item_types: Option<&Table>, items: &Table) -> (out: Vec<CatalogItem>)
    requires
        item_types matches Some(t) ==> rows_reach(t.rows@, first_named(t.schema.fields@, "UUID"@))
            && rows_reach(t.rows@, first_named(t.schema.fields@, "Name"@)),
        forall|r: int| 0 <= r < items.rows@.len() ==> items.schema.fields@.len() <= #[trigger] items.rows@[r]@.len(),
    ensures
        items_view(out@) == items_of(rows_view(items.rows@), ItemColumns {
            name: opt_index(first_named(items.schema.fields@, "Name"@)),
            physical: opt_index(first_named(items.schema.fields@, "PhysicalName"@)),
            path: opt_index(first_named(items.schema.fields@, "Path"@)),
            type_: opt_index(first_named(items.schema.fields@, "Type"@)),
            ds2: opt_index(first_named(items.schema.fields@, "DatasetSubtype2"@)),
            def: opt_index(first_named(items.schema.fields@, "Definition"@)),
        }, index.entries(), index.lower_entries(), match item_types {
            Some(t) => types_of_table(*t),
            None => Seq::empty(),
        }),
{
    let types = match item_types {
        Some(t) => item_type_names(t),
        None => Vec::new(),
    };
    assert(item_types is None ==> types_view(types@) =~= Seq::<(Seq<u8>, Seq<char>)>::empty());
    let c = ItemColumns {
        name: items.schema.field_index("Name"),
        physical: items.schema.field_index("PhysicalName"),
        path: items.schema.field_index("Path"),
        type_: items.schema.field_index("Type"),
        ds2: items.schema.field_index("DatasetSubtype2"),
        def: items.schema.field_index("Definition"),
    };
    let ghost rv = rows_view(items.rows@);
    let mut out: Vec<CatalogItem> = Vec::new();
    let mut k: usize = 0;
    while k < items.rows.len()
        invariant
            rv == rows_view(items.rows@),
            forall|r: int| 0 <= r < items.rows@.len() ==> items.schema.fields@.len() <= #[trigger] items.rows@[r]@.len(),
            c.name matches Some(i) ==> i < items.schema.fields@.len(),
            c.physical matches Some(i) ==> i < items.schema.fields@.len(),
            c.path matches Some(i) ==> i < items.schema.fields@.len(),
            c.type_ matches Some(i) ==> i < items.schema.fields@.len(),
            c.ds2 matches Some(i) ==> i < items.schema.fields@.len(),
            c.def matches Some(i) ==> i < items.schema.fields@.len(),
            k <= items.rows@.len(),
            items_view(out@) == items_of(rv.take(k as int), c, index.entries(), index.lower_entries(), types_view(types@)),
        decreases items.rows@.len() - k,
    {
        let row = &items.rows[k];
        assert(items.schema.fields@.len() <= row@.len());
        proof {
            assert(rv.take(k + 1).drop_last() =~= rv.take(k as int));
            assert(rv.take(k + 1).last() == row_view(row@));
        }
        let ghost before = items_view(out@);
        match item_from_row(row, &c, index, &types) {
            Some(item) => {
                out.push(item);
                assert(items_view(out@) =~= before.push(item@));
            },
            None => {},
        }
        k = k + 1;
    }
    assert(rv.take(k as int) =~= rv);
    out
}

} // verus!
