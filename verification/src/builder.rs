//! The content of a new geodatabase: the system tables' schemas and rows, the registry
//! row of each new object and its `Definition` XML.
//!
//! - `a00000001` = `GDB_SystemCatalog`: `ID` / `Name` / `FileFormat`, file number of each
//!   internal table;
//! - `a00000002` = `GDB_Items`: the registry of the user's objects;
//! - `a00000003` = `GDB_ItemTypes`: `UUID` / `ParentTypeID` / `Name`;
//! - `a00000004` on: user data files.
//!
//! The item type UUIDs are ESRI's standard ones.
use vstd::prelude::*;
use crate::error::{GdbError, error_text};
use crate::field::{FieldDef, FieldDefView, FieldType, GeometryType, TableSchema, SchemaView, new_field_view, fields_view};
use crate::io::{le_bytes, write_le};
use crate::table::Table;
use crate::value::{FieldValue, ValueView, Uuid, row_view, signed_decimal, push_signed};
use crate::text::to_string;

verus! {

/// The `Folder` item type.
pub fn type_folder() -> (g: [u8; 16])
    ensures
        g@ == seq![0x6fu8, 0x3e, 0x78, 0xf3, 0xca, 0x65, 0x14, 0x45, 0x83, 0x15, 0xce, 0x39, 0x85, 0xda, 0xd3, 0xb1],
{
    let g = [0x6fu8, 0x3e, 0x78, 0xf3, 0xca, 0x65, 0x14, 0x45, 0x83, 0x15, 0xce, 0x39, 0x85, 0xda, 0xd3, 0xb1];
    assert(g@ =~= seq![0x6fu8, 0x3e, 0x78, 0xf3, 0xca, 0x65, 0x14, 0x45, 0x83, 0x15, 0xce, 0x39, 0x85, 0xda, 0xd3, 0xb1]);
    g
}

/// The `Workspace` item type.
pub fn type_workspace() -> (g: [u8; 16])
    ensures
        g@ == seq![0x0fu8, 0xfe, 0x73, 0xc6, 0x80, 0x72, 0x4f, 0x40, 0x85, 0x32, 0x20, 0x75, 0x5d, 0xd8, 0xfc, 0x06],
{
    let g = [0x0fu8, 0xfe, 0x73, 0xc6, 0x80, 0x72, 0x4f, 0x40, 0x85, 0x32, 0x20, 0x75, 0x5d, 0xd8, 0xfc, 0x06];
    assert(g@ =~= seq![0x0fu8, 0xfe, 0x73, 0xc6, 0x80, 0x72, 0x4f, 0x40, 0x85, 0x32, 0x20, 0x75, 0x5d, 0xd8, 0xfc, 0x06]);
    g
}

/// The `Feature Class` item type.
pub fn type_feature_class() -> (g: [u8; 16])
    ensures
        g@ == seq![0x09u8, 0x78, 0x73, 0x70, 0x2c, 0x85, 0x03, 0x4a, 0x9e, 0x22, 0x2c, 0xce, 0xea, 0x5b, 0x9b, 0xfa],
{
    let g = [0x09u8, 0x78, 0x73, 0x70, 0x2c, 0x85, 0x03, 0x4a, 0x9e, 0x22, 0x2c, 0xce, 0xea, 0x5b, 0x9b, 0xfa];
    assert(g@ =~= seq![0x09u8, 0x78, 0x73, 0x70, 0x2c, 0x85, 0x03, 0x4a, 0x9e, 0x22, 0x2c, 0xce, 0xea, 0x5b, 0x9b, 0xfa]);
    g
}

/// The `Table` item type.
pub fn type_table() -> (g: [u8; 16])
    ensures
        g@ == seq![0x3bu8, 0xbc, 0x06, 0xcd, 0x9d, 0x78, 0x51, 0x4c, 0xaa, 0xfa, 0xa4, 0x67, 0x91, 0x2b, 0x89, 0x65],
{
    let g = [0x3bu8, 0xbc, 0x06, 0xcd, 0x9d, 0x78, 0x51, 0x4c, 0xaa, 0xfa, 0xa4, 0x67, 0x91, 0x2b, 0x89, 0x65];
    assert(g@ =~= seq![0x3bu8, 0xbc, 0x06, 0xcd, 0x9d, 0x78, 0x51, 0x4c, 0xaa, 0xfa, 0xa4, 0x67, 0x91, 0x2b, 0x89, 0x65]);
    g
}

/// The `Feature Dataset` item type.
pub fn type_feature_dataset() -> (g: [u8; 16])
    ensures
        g@ == seq![0x49u8, 0x71, 0x73, 0x74, 0xb5, 0xdc, 0x57, 0x42, 0x89, 0x04, 0xb9, 0x72, 0x4e, 0x32, 0xa5, 0x30],
{
    let g = [0x49u8, 0x71, 0x73, 0x74, 0xb5, 0xdc, 0x57, 0x42, 0x89, 0x04, 0xb9, 0x72, 0x4e, 0x32, 0xa5, 0x30];
    assert(g@ =~= seq![0x49u8, 0x71, 0x73, 0x74, 0xb5, 0xdc, 0x57, 0x42, 0x89, 0x04, 0xb9, 0x72, 0x4e, 0x32, 0xa5, 0x30]);
    g
}

/// A deterministic UUID for item `n`: `n` in little-endian bytes, then `0x42`, six zeros
/// and `0x1b`.
pub fn synthetic_uuid(n: u64) -> (u: Uuid)
    ensures
        u.0@ == le_bytes(n as nat, 8) + seq![0x42u8, 0, 0, 0, 0, 0, 0, 0x1b],
{
    let mut b: Vec<u8> = Vec::new();
    write_le(&mut b, n, 8);
    proof {
        crate::io::lemma_le_bytes_value(n as nat, 8);
    }
    let a = [b[0], b[1], b[2], b[3], b[4], b[5], b[6], b[7], 0x42u8, 0, 0, 0, 0, 0, 0, 0x1b];
    assert(a@ =~= le_bytes(n as nat, 8) + seq![0x42u8, 0, 0, 0, 0, 0, 0, 0x1b]);
    Uuid(a)
}

/// A required, non-nullable, non-editable field.
pub open spec fn fixed_field_view(name: Seq<char>, t: FieldType) -> FieldDefView {
    FieldDefView { nullable: false, required: true, editable: false, ..new_field_view(name, t) }
}

/// A non-nullable, editable field.
pub open spec fn non_null_view(name: Seq<char>, t: FieldType) -> FieldDefView {
    FieldDefView { nullable: false, ..new_field_view(name, t) }
}

/// A required, non-nullable, non-editable field.
fn fixed_field(name: &str, t: FieldType) -> (f: FieldDef)
    ensures
        f@ == fixed_field_view(name@, t),
{
    let mut f = FieldDef::new(name, t);
    f.nullable = false;
    f.required = true;
    f.editable = false;
    f
}

/// A non-nullable, editable field.
fn non_null_field(name: &str, t: FieldType) -> (f: FieldDef)
    ensures
        f@ == non_null_view(name@, t),
{
    let mut f = FieldDef::new(name, t);
    f.nullable = false;
    f
}

/// A schema without geometry, Z or M, with UTF-8 text.
pub open spec fn plain_schema(fields: Seq<FieldDefView>) -> SchemaView {
    SchemaView { geometry_type: GeometryType::NoGeometry, has_z: false, has_m: false, string_utf8: true, fields }
}

/// The schema of `GDB_SystemCatalog`: `OBJECTID`, `ID`, `Name`, `FileFormat`.
pub fn system_catalog_schema() -> (s: TableSchema)
    ensures
        s@ == plain_schema(seq![
            fixed_field_view("OBJECTID"@, FieldType::ObjectId),
            fixed_field_view("ID"@, FieldType::Int32),
            non_null_view("Name"@, FieldType::String),
            non_null_view("FileFormat"@, FieldType::Int32),
        ]),
{
    let mut fields: Vec<FieldDef> = Vec::new();
    fields.push(fixed_field("OBJECTID", FieldType::ObjectId));
    fields.push(fixed_field("ID", FieldType::Int32));
    fields.push(non_null_field("Name", FieldType::String));
    fields.push(non_null_field("FileFormat", FieldType::Int32));
    let s = TableSchema { geometry_type: GeometryType::NoGeometry, has_z: false, has_m: false, string_utf8: true, fields };
    assert(s@.fields =~= seq![
        fixed_field_view("OBJECTID"@, FieldType::ObjectId),
        fixed_field_view("ID"@, FieldType::Int32),
        non_null_view("Name"@, FieldType::String),
        non_null_view("FileFormat"@, FieldType::Int32),
    ]);
    s
}

/// The names and types of the 14 plain fields of `GDB_Items` after `UUID` and `Type`.
pub open spec fn items_plain_fields() -> Seq<FieldDefView> {
    seq![
        new_field_view("Name"@, FieldType::String),
        new_field_view("PhysicalName"@, FieldType::String),
        new_field_view("Path"@, FieldType::String),
        new_field_view("DatasetSubtype1"@, FieldType::Int32),
        new_field_view("DatasetSubtype2"@, FieldType::Int32),
        new_field_view("DatasetInfo1"@, FieldType::String),
        new_field_view("DatasetInfo2"@, FieldType::String),
        new_field_view("URL"@, FieldType::String),
        new_field_view("Definition"@, FieldType::Xml),
        new_field_view("Documentation"@, FieldType::Xml),
        new_field_view("ItemInfo"@, FieldType::Xml),
        new_field_view("Properties"@, FieldType::Int32),
        new_field_view("Defaults"@, FieldType::Binary),
        new_field_view("Shape"@, FieldType::Geometry),
    ]
}

/// The schema of `GDB_Items`: 17 fields, polygon shapes.
pub open spec fn items_schema_view() -> SchemaView {
    SchemaView {
        geometry_type: GeometryType::Polygon,
        has_z: false,
        has_m: false,
        string_utf8: true,
        fields: seq![
            fixed_field_view("OBJECTID"@, FieldType::ObjectId),
            fixed_field_view("UUID"@, FieldType::Uuid),
            non_null_view("Type"@, FieldType::Uuid),
        ] + items_plain_fields(),
    }
}

/// The schema of `GDB_Items` (see [`items_schema_view`]).
pub fn items_schema() -> (s: TableSchema)
    ensures
        s@ == items_schema_view(),
{
    let mut fields: Vec<FieldDef> = Vec::new();
    fields.push(fixed_field("OBJECTID", FieldType::ObjectId));
    fields.push(fixed_field("UUID", FieldType::Uuid));
    fields.push(non_null_field("Type", FieldType::Uuid));
    fields.push(FieldDef::new("Name", FieldType::String));
    fields.push(FieldDef::new("PhysicalName", FieldType::String));
    fields.push(FieldDef::new("Path", FieldType::String));
    fields.push(FieldDef::new("DatasetSubtype1", FieldType::Int32));
    fields.push(FieldDef::new("DatasetSubtype2", FieldType::Int32));
    fields.push(FieldDef::new("DatasetInfo1", FieldType::String));
    fields.push(FieldDef::new("DatasetInfo2", FieldType::String));
    fields.push(FieldDef::new("URL", FieldType::String));
    fields.push(FieldDef::new("Definition", FieldType::Xml));
    fields.push(FieldDef::new("Documentation", FieldType::Xml));
    fields.push(FieldDef::new("ItemInfo", FieldType::Xml));
    fields.push(FieldDef::new("Properties", FieldType::Int32));
    fields.push(FieldDef::new("Defaults", FieldType::Binary));
    fields.push(FieldDef::new("Shape", FieldType::Geometry));
    let s = TableSchema { geometry_type: GeometryType::Polygon, has_z: false, has_m: false, string_utf8: true, fields };
    assert(s@.fields =~= seq![
        fixed_field_view("OBJECTID"@, FieldType::ObjectId),
        fixed_field_view("UUID"@, FieldType::Uuid),
        non_null_view("Type"@, FieldType::Uuid),
    ] + items_plain_fields());
    s
}

/// The schema of `GDB_ItemTypes`: `OBJECTID`, `UUID`, `ParentTypeID`, `Name`.
pub fn item_types_schema() -> (s: TableSchema)
    ensures
        s@ == plain_schema(seq![
            fixed_field_view("OBJECTID"@, FieldType::ObjectId),
            new_field_view("UUID"@, FieldType::Uuid),
            new_field_view("ParentTypeID"@, FieldType::Uuid),
            new_field_view("Name"@, FieldType::String),
        ]),
{
    let mut fields: Vec<FieldDef> = Vec::new();
    fields.push(fixed_field("OBJECTID", FieldType::ObjectId));
    fields.push(FieldDef::new("UUID", FieldType::Uuid));
    fields.push(FieldDef::new("ParentTypeID", FieldType::Uuid));
    fields.push(FieldDef::new("Name", FieldType::String));
    let s = TableSchema { geometry_type: GeometryType::NoGeometry, has_z: false, has_m: false, string_utf8: true, fields };
    assert(s@.fields =~= seq![
        fixed_field_view("OBJECTID"@, FieldType::ObjectId),
        new_field_view("UUID"@, FieldType::Uuid),
        new_field_view("ParentTypeID"@, FieldType::Uuid),
        new_field_view("Name"@, FieldType::String),
    ]);
    s
}

/// What `str::to_uppercase` makes of a text.
pub uninterp spec fn uppercase(s: Seq<char>) -> Seq<char>;

/// Calls `str::to_uppercase` (Unicode uppercase mapping). The contract claims only that the
/// result depends on the text alone.
#[verifier::external_body]
fn to_uppercase(s: &str) -> (r: String)
    ensures
        r@ == uppercase(s@),
{
    s.to_uppercase()
}

/// The `GDB_Items` row of an item: a new UUID, the type, the name, the physical name (the
/// name in upper case), the path (`\name`), the subtypes (`DatasetSubtype2` NULL when 0),
/// `DatasetInfo1` (`SHAPE` for a feature class), the definition, and `Properties` 1.
pub open spec fn item_row(uuid: Seq<u8>, type_guid: Seq<u8>, name: Seq<char>, subtype1: i32, subtype2: i32, definition: Seq<char>) -> Seq<ValueView> {
    seq![
        ValueView::ObjectId(0),
        ValueView::Uuid(uuid),
        ValueView::Uuid(type_guid),
        ValueView::Text(name),
        ValueView::Text(uppercase(name)),
        ValueView::Text(seq!['\\'] + name),
        ValueView::Int32(subtype1),
        if subtype2 != 0 { ValueView::Int32(subtype2) } else { ValueView::Null },
        ValueView::Text(if subtype2 != 0 { "SHAPE"@ } else { Seq::empty() }),
        ValueView::Null,
        ValueView::Text(Seq::empty()),
        ValueView::Xml(definition),
        ValueView::Null,
        ValueView::Null,
        ValueView::Int32(1),
        ValueView::Null,
        ValueView::Null,
    ]
}

/// The `GDB_SystemCatalog` row of an internal table.
pub open spec fn catalog_row(id: u32, name: Seq<char>) -> Seq<ValueView> {
    seq![ValueView::ObjectId(id as u64), ValueView::Int32(id as i32), ValueView::Text(name), ValueView::Int32(1)]
}

/// The `GDB_SystemCatalog` row of an internal table.
fn make_catalog_row(id: u32, name: &str) -> (r: Vec<FieldValue>)
    requires
        id <= i32::MAX,
    ensures
        row_view(r@) == catalog_row(id, name@),
{
    let mut r: Vec<FieldValue> = Vec::new();
    r.push(FieldValue::ObjectId(id as u64));
    r.push(FieldValue::Int32(id as i32));
    r.push(FieldValue::Text(to_string(name)));
    r.push(FieldValue::Int32(1));
    assert(row_view(r@) =~= catalog_row(id, name@));
    r
}

/// The state of a new geodatabase's catalog: the next file number and item number, and the
/// rows of `GDB_SystemCatalog` and `GDB_Items`.
pub struct CatalogBuilder {
    pub next_file_id: u32,
    pub next_uuid: u64,
    pub catalog_rows: Vec<Vec<FieldValue>>,
    pub items_rows: Vec<Vec<FieldValue>>,
}

/// The views of rows.
pub open spec fn rows_of(rows: Seq<Vec<FieldValue>>) -> Seq<Seq<ValueView>> {
    rows.map_values(|r: Vec<FieldValue>| row_view(r@))
}

impl CatalogBuilder {
    /// The catalog of an empty geodatabase: the three system tables in
    /// `GDB_SystemCatalog`, and the root folder and the workspace in `GDB_Items`.
    pub fn new() -> (b: CatalogBuilder)
        ensures
            b.next_file_id == 4,
            b.next_uuid == 0x102,
            rows_of(b.catalog_rows@) == seq![
                catalog_row(1, "GDB_SystemCatalog"@),
                catalog_row(2, "GDB_Items"@),
                catalog_row(3, "GDB_ItemTypes"@),
            ],
            rows_of(b.items_rows@) == seq![
                item_row(synthetic_uuid_bytes(0x101), type_folder_bytes(), ""@, 0, 0, ""@),
                item_row(synthetic_uuid_bytes(0x102), type_workspace_bytes(), "Workspace"@, 0, 0, "<DEWorkspace/>"@),
            ],
    {
        let mut b = CatalogBuilder { next_file_id: 4, next_uuid: 0x100, catalog_rows: Vec::new(), items_rows: Vec::new() };
        b.catalog_rows.push(make_catalog_row(1, "GDB_SystemCatalog"));
        b.catalog_rows.push(make_catalog_row(2, "GDB_Items"));
        b.catalog_rows.push(make_catalog_row(3, "GDB_ItemTypes"));
        b.push_item(type_folder(), "", 0, 0, "");
        b.push_item(type_workspace(), "Workspace", 0, 0, "<DEWorkspace/>");
        assert(rows_of(b.catalog_rows@) =~= seq![
            catalog_row(1, "GDB_SystemCatalog"@),
            catalog_row(2, "GDB_Items"@),
            catalog_row(3, "GDB_ItemTypes"@),
        ]);
        assert(rows_of(b.items_rows@) =~= seq![
            item_row(synthetic_uuid_bytes(0x101), type_folder_bytes(), ""@, 0, 0, ""@),
            item_row(synthetic_uuid_bytes(0x102), type_workspace_bytes(), "Workspace"@, 0, 0, "<DEWorkspace/>"@),
        ]);
        b
    }

    /// Appends the `GDB_Items` row of an item (see [`item_row`]) with the next item number.
    pub fn push_item(&mut self, type_guid: [u8; 16], name: &str, subtype1: i32, subtype2: i32, definition: &str)
        requires
            old(self).next_uuid < u64::MAX,
        ensures
            final(self).next_uuid == old(self).next_uuid + 1,
            final(self).next_file_id == old(self).next_file_id,
            final(self).catalog_rows@ == old(self).catalog_rows@,
            rows_of(final(self).items_rows@) == rows_of(old(self).items_rows@).push(
                item_row(synthetic_uuid_bytes(final(self).next_uuid), type_guid@, name@, subtype1, subtype2, definition@)),
    {
        self.next_uuid = self.next_uuid + 1;
        let uuid = synthetic_uuid(self.next_uuid);
        let mut path = String::new();
        proof {
            reveal_strlit("\\");
            reveal_strlit("SHAPE");
        }
        path.append("\\");
        path.append(name);
        assert(path@ =~= seq!['\\'] + name@);
        let mut r: Vec<FieldValue> = Vec::new();
        r.push(FieldValue::ObjectId(0));
        r.push(FieldValue::Uuid(uuid));
        r.push(FieldValue::Uuid(Uuid(type_guid)));
        r.push(FieldValue::Text(to_string(name)));
        r.push(FieldValue::Text(to_uppercase(name)));
        r.push(FieldValue::Text(path));
        r.push(FieldValue::Int32(subtype1));
        r.push(if subtype2 != 0 { FieldValue::Int32(subtype2) } else { FieldValue::Null });
        r.push(FieldValue::Text(if subtype2 != 0 { to_string("SHAPE") } else { String::new() }));
        r.push(FieldValue::Null);
        r.push(FieldValue::Text(String::new()));
        r.push(FieldValue::Xml(to_string(definition)));
        r.push(FieldValue::Null);
        r.push(FieldValue::Null);
        r.push(FieldValue::Int32(1));
        r.push(FieldValue::Null);
        r.push(FieldValue::Null);
        assert(row_view(r@) =~= item_row(synthetic_uuid_bytes(self.next_uuid), type_guid@, name@, subtype1, subtype2, definition@));
        let ghost before = rows_of(self.items_rows@);
        self.items_rows.push(r);
        assert(rows_of(self.items_rows@) =~= before.push(row_view(r@)));
    }

    /// Registers a new data file: the next file number, its `GDB_SystemCatalog` row, and
    /// its `GDB_Items` row with the given path. Returns the file number.
    pub fn register_table(&mut self, type_guid: [u8; 16], name: &str, subtype1: i32, subtype2: i32, definition: &str, path: &str) -> (file_id: u32)
        requires
            old(self).next_uuid < u64::MAX,
            old(self).next_file_id < i32::MAX,
        ensures
            file_id == old(self).next_file_id,
            final(self).next_file_id == old(self).next_file_id + 1,
            final(self).next_uuid == old(self).next_uuid + 1,
            rows_of(final(self).catalog_rows@) == rows_of(old(self).catalog_rows@).push(catalog_row(file_id, name@)),
            rows_of(final(self).items_rows@) == rows_of(old(self).items_rows@).push(
                item_row(synthetic_uuid_bytes(final(self).next_uuid), type_guid@, name@, subtype1, subtype2, definition@)
                    .update(5, ValueView::Text(path@))),
    {
        let file_id = self.next_file_id;
        self.next_file_id = self.next_file_id + 1;
        let ghost cat_before = rows_of(self.catalog_rows@);
        let row = make_catalog_row(file_id, name);
        self.catalog_rows.push(row);
        assert(rows_of(self.catalog_rows@) =~= cat_before.push(catalog_row(file_id, name@)));
        self.push_item(type_guid, name, subtype1, subtype2, definition);
        assert(self.items_rows@.len() == rows_of(self.items_rows@).len());
        let n = self.items_rows.len();
        let mut last = crate::table::access::copy_row(&self.items_rows[n - 1]);
        let ghost lv = row_view(last@);
        assert(rows_of(self.items_rows@)[n - 1] == row_view(self.items_rows@[n - 1]@));
        assert(lv == item_row(synthetic_uuid_bytes(self.next_uuid), type_guid@, name@, subtype1, subtype2, definition@));
        assert(last@.len() == lv.len());
        last.set(5, FieldValue::Text(to_string(path)));
        assert(row_view(last@) =~= lv.update(5, ValueView::Text(path@)));
        let ghost items_before = rows_of(self.items_rows@);
        self.items_rows.set(n - 1, last);
        assert(rows_of(self.items_rows@) =~= items_before.update(n - 1, row_view(last@)));
        assert(rows_of(self.items_rows@) =~= rows_of(old(self).items_rows@).push(
            item_row(synthetic_uuid_bytes(self.next_uuid), type_guid@, name@, subtype1, subtype2, definition@)
                .update(5, ValueView::Text(path@))));
        file_id
    }
}

/// The bytes of the synthetic UUID of item `n`.
pub open spec fn synthetic_uuid_bytes(n: u64) -> Seq<u8> {
    le_bytes(n as nat, 8) + seq![0x42u8, 0, 0, 0, 0, 0, 0, 0x1b]
}

/// The bytes of the `Folder` item type.
pub open spec fn type_folder_bytes() -> Seq<u8> {
    seq![0x6fu8, 0x3e, 0x78, 0xf3, 0xca, 0x65, 0x14, 0x45, 0x83, 0x15, 0xce, 0x39, 0x85, 0xda, 0xd3, 0xb1]
}

/// The bytes of the `Workspace` item type.
pub open spec fn type_workspace_bytes() -> Seq<u8> {
    seq![0x0fu8, 0xfe, 0x73, 0xc6, 0x80, 0x72, 0x4f, 0x40, 0x85, 0x32, 0x20, 0x75, 0x5d, 0xd8, 0xfc, 0x06]
}

/// `<DETable><Name>name</Name></DETable>`.
pub open spec fn table_definition_text(name: Seq<char>) -> Seq<char> {
    "<DETable><Name>"@ + name + "</Name></DETable>"@
}

/// `<DEFeatureDataset><Name>name</Name></DEFeatureDataset>`.
pub open spec fn dataset_definition_text(name: Seq<char>) -> Seq<char> {
    "<DEFeatureDataset><Name>"@ + name + "</Name></DEFeatureDataset>"@
}

/// The ESRI name of a geometry type that a new feature class can have.
pub open spec fn esri_geometry_name(t: GeometryType) -> Option<Seq<char>> {
    match t {
        GeometryType::Point => Some("esriGeometryPoint"@),
        GeometryType::MultiPoint => Some("esriGeometryMultipoint"@),
        GeometryType::Polyline => Some("esriGeometryPolyline"@),
        GeometryType::Polygon => Some("esriGeometryPolygon"@),
        _ => None,
    }
}

/// The geometry type that an ESRI geometry type name stands for.
pub open spec fn geometry_type_of_esri_name(n: Seq<char>) -> Option<GeometryType> {
    if n == "esriGeometryPoint"@ {
        Some(GeometryType::Point)
    } else if n == "esriGeometryMultipoint"@ {
        Some(GeometryType::MultiPoint)
    } else if n == "esriGeometryPolyline"@ {
        Some(GeometryType::Polyline)
    } else if n == "esriGeometryPolygon"@ {
        Some(GeometryType::Polygon)
    } else {
        None
    }
}

/// The geometry type name that a new feature class's definition records reads back as the
/// feature class's geometry type; only points, multipoints, polylines and polygons have
/// one. So two geometry types never share a name.
pub proof fn law_esri_geometry_name(t: GeometryType, u: GeometryType)
    ensures
        esri_geometry_name(t) matches Some(n) ==> geometry_type_of_esri_name(n) == Some(t),
        esri_geometry_name(t) is Some <==> (t is Point || t is MultiPoint || t is Polyline || t is Polygon),
        esri_geometry_name(t) is Some && esri_geometry_name(t) == esri_geometry_name(u) ==> t == u,
{
    reveal_strlit("esriGeometryPoint");
    reveal_strlit("esriGeometryMultipoint");
    reveal_strlit("esriGeometryPolyline");
    reveal_strlit("esriGeometryPolygon");
    assert("esriGeometryPoint"@.len() == 17);
    assert("esriGeometryMultipoint"@.len() == 22);
    assert("esriGeometryPolyline"@.len() == 20);
    assert("esriGeometryPolygon"@.len() == 19);
}

/// The definition of a feature class: name, geometry type name and spatial reference WKT.
pub open spec fn feature_class_definition_text(name: Seq<char>, gname: Seq<char>, srs: Seq<char>) -> Seq<char> {
    "<DEFeatureClassInfo><Name>"@ + name + "</Name><GeometryType>"@ + gname + "</GeometryType><SpatialReference><WKT>"@
        + srs + "</WKT></SpatialReference></DEFeatureClassInfo>"@
}

/// The definition of a stand-alone table.
pub fn table_definition(name: &str) -> (s: String)
    ensures
        s@ == table_definition_text(name@),
{
    let mut s = to_string("<DETable><Name>");
    s.append(name);
    s.append("</Name></DETable>");
    s
}

/// The definition of a feature dataset.
pub fn dataset_definition(name: &str) -> (s: String)
    ensures
        s@ == dataset_definition_text(name@),
{
    let mut s = to_string("<DEFeatureDataset><Name>");
    s.append(name);
    s.append("</Name></DEFeatureDataset>");
    s
}

/// The ESRI name of a geometry type that a new feature class can have.
pub fn geometry_type_name(t: GeometryType) -> (r: Option<&'static str>)
    ensures
        match esri_geometry_name(t) {
            Some(n) => r matches Some(x) && x@ == n,
            None => r is None,
        },
{
    match t {
        GeometryType::Point => Some("esriGeometryPoint"),
        GeometryType::MultiPoint => Some("esriGeometryMultipoint"),
        GeometryType::Polyline => Some("esriGeometryPolyline"),
        GeometryType::Polygon => Some("esriGeometryPolygon"),
        _ => None,
    }
}

/// The name of a geometry type as diagnostics show it (`None` for no geometry, `Other(7)`
/// for an unknown code).
pub open spec fn geometry_type_text(t: GeometryType) -> Seq<char> {
    match t {
        GeometryType::NoGeometry => "None"@,
        GeometryType::Point => "Point"@,
        GeometryType::MultiPoint => "MultiPoint"@,
        GeometryType::Polyline => "Polyline"@,
        GeometryType::Polygon => "Polygon"@,
        GeometryType::Envelope => "Envelope"@,
        GeometryType::MultiPatch => "MultiPatch"@,
        GeometryType::Other(c) => "Other("@ + signed_decimal(c as int) + ")"@,
    }
}

/// The name of a geometry type as diagnostics show it (see [`geometry_type_text`]).
fn push_geometry_type(s: &mut String, t: GeometryType)
    ensures
        final(s)@ == old(s)@ + geometry_type_text(t),
{
    match t {
        GeometryType::NoGeometry => s.append("None"),
        GeometryType::Point => s.append("Point"),
        GeometryType::MultiPoint => s.append("MultiPoint"),
        GeometryType::Polyline => s.append("Polyline"),
        GeometryType::Polygon => s.append("Polygon"),
        GeometryType::Envelope => s.append("Envelope"),
        GeometryType::MultiPatch => s.append("MultiPatch"),
        GeometryType::Other(c) => {
            proof { reveal_strlit("Other("); reveal_strlit(")"); }
            s.append("Other(");
            push_signed(s, c as i64);
            s.append(")");
            assert(s@ =~= old(s)@ + geometry_type_text(t));
        },
    }
}

/// The definition of a feature class; points, multipoints, polylines and polygons only.
pub fn feature_class_definition(name: &str, t: GeometryType, srs: &str) -> (res: Result<String, GdbError>)
    ensures
        match esri_geometry_name(t) {
            Some(g) => res matches Ok(s) && s@ == feature_class_definition_text(name@, g, srs@),
            None => res matches Err(e) && e is GeometryError
                && error_text(e) == "暂不支持的几何类型 "@ + geometry_type_text(t),
        },
{
    let gname = match geometry_type_name(t) {
        Some(g) => g,
        None => {
            proof { reveal_strlit("暂不支持的几何类型 "); }
            let mut msg = to_string("暂不支持的几何类型 ");
            push_geometry_type(&mut msg, t);
            return Err(GdbError::GeometryError(msg));
        },
    };
    let mut s = to_string("<DEFeatureClassInfo><Name>");
    s.append(name);
    s.append("</Name><GeometryType>");
    s.append(gname);
    s.append("</GeometryType><SpatialReference><WKT>");
    s.append(srs);
    s.append("</WKT></SpatialReference></DEFeatureClassInfo>");
    Ok(s)
}

/// The schema of a new stand-alone table: the object ID, then the given fields.
pub fn table_schema(fields: Vec<FieldDef>) -> (s: TableSchema)
    ensures
        s@ == (SchemaView {
            fields: crate::table::empty_schema_view().fields + fields_view(fields@),
            ..crate::table::empty_schema_view()
        }),
{
    let mut s = Table::empty_schema();
    let ghost before = s@.fields;
    let mut fields = fields;
    let ghost fv = fields_view(fields@);
    s.fields.append(&mut fields);
    assert(fields_view(s.fields@) =~= before + fv);
    s
}

/// The schema of a new feature class: the object ID, the geometry field (made a
/// geometry field whatever its type), then the given fields.
pub fn feature_class_schema(t: GeometryType, geometry_field: FieldDef, fields: Vec<FieldDef>) -> (s: TableSchema)
    ensures
        s@ == (SchemaView {
            geometry_type: t,
            fields: crate::table::empty_schema_view().fields
                + seq![(FieldDefView { field_type: FieldType::Geometry, ..geometry_field@ })]
                + fields_view(fields@),
            ..crate::table::empty_schema_view()
        }),
{
    let mut gf = geometry_field;
    gf.field_type = FieldType::Geometry;
    let mut s = Table::empty_schema();
    s.geometry_type = t;
    let ghost before = s@.fields;
    let ghost gv = gf@;
    s.fields.push(gf);
    let mut fields = fields;
    let ghost fv = fields_view(fields@);
    s.fields.append(&mut fields);
    assert(fields_view(s.fields@) =~= before + seq![gv] + fv);
    s
}

/// The rows of `GDB_ItemTypes`: the five standard types (parent type left zero).
pub fn item_types_rows() -> (rows: Vec<Vec<FieldValue>>)
    ensures
        rows_of(rows@) == seq![
            seq![ValueView::ObjectId(1), ValueView::Uuid(type_folder_bytes()), ValueView::Uuid(seq![0u8; 16]), ValueView::Text("Folder"@)],
            seq![ValueView::ObjectId(2), ValueView::Uuid(type_workspace_bytes()), ValueView::Uuid(seq![0u8; 16]), ValueView::Text("Workspace"@)],
            seq![ValueView::ObjectId(3), ValueView::Uuid(type_feature_class_bytes()), ValueView::Uuid(seq![0u8; 16]), ValueView::Text("Feature Class"@)],
            seq![ValueView::ObjectId(4), ValueView::Uuid(type_table_bytes()), ValueView::Uuid(seq![0u8; 16]), ValueView::Text("Table"@)],
            seq![ValueView::ObjectId(5), ValueView::Uuid(type_feature_dataset_bytes()), ValueView::Uuid(seq![0u8; 16]), ValueView::Text("Feature Dataset"@)],
        ],
{
    let mut rows: Vec<Vec<FieldValue>> = Vec::new();
    rows.push(type_row(1, type_folder(), "Folder"));
    rows.push(type_row(2, type_workspace(), "Workspace"));
    rows.push(type_row(3, type_feature_class(), "Feature Class"));
    rows.push(type_row(4, type_table(), "Table"));
    rows.push(type_row(5, type_feature_dataset(), "Feature Dataset"));
    assert(rows_of(rows@) =~= seq![
        seq![ValueView::ObjectId(1), ValueView::Uuid(type_folder_bytes()), ValueView::Uuid(seq![0u8; 16]), ValueView::Text("Folder"@)],
        seq![ValueView::ObjectId(2), ValueView::Uuid(type_workspace_bytes()), ValueView::Uuid(seq![0u8; 16]), ValueView::Text("Workspace"@)],
        seq![ValueView::ObjectId(3), ValueView::Uuid(type_feature_class_bytes()), ValueView::Uuid(seq![0u8; 16]), ValueView::Text("Feature Class"@)],
        seq![ValueView::ObjectId(4), ValueView::Uuid(type_table_bytes()), ValueView::Uuid(seq![0u8; 16]), ValueView::Text("Table"@)],
        seq![ValueView::ObjectId(5), ValueView::Uuid(type_feature_dataset_bytes()), ValueView::Uuid(seq![0u8; 16]), ValueView::Text("Feature Dataset"@)],
    ]);
    rows
}

/// One `GDB_ItemTypes` row.
fn type_row(oid: u64, guid: [u8; 16], name: &str) -> (r: Vec<FieldValue>)
    ensures
        row_view(r@) == seq![ValueView::ObjectId(oid), ValueView::Uuid(guid@), ValueView::Uuid(seq![0u8; 16]), ValueView::Text(name@)],
{
    let mut r: Vec<FieldValue> = Vec::new();
    r.push(FieldValue::ObjectId(oid));
    r.push(FieldValue::Uuid(Uuid(guid)));
    let z = [0u8; 16];
    assert(z@ =~= seq![0u8; 16]);
    r.push(FieldValue::Uuid(Uuid(z)));
    r.push(FieldValue::Text(to_string(name)));
    assert(row_view(r@) =~= seq![ValueView::ObjectId(oid), ValueView::Uuid(guid@), ValueView::Uuid(seq![0u8; 16]), ValueView::Text(name@)]);
    r
}

/// The bytes of the `Feature Class` item type.
pub open spec fn type_feature_class_bytes() -> Seq<u8> {
    seq![0x09u8, 0x78, 0x73, 0x70, 0x2c, 0x85, 0x03, 0x4a, 0x9e, 0x22, 0x2c, 0xce, 0xea, 0x5b, 0x9b, 0xfa]
}

/// The bytes of the `Table` item type.
pub open spec fn type_table_bytes() -> Seq<u8> {
    seq![0x3bu8, 0xbc, 0x06, 0xcd, 0x9d, 0x78, 0x51, 0x4c, 0xaa, 0xfa, 0xa4, 0x67, 0x91, 0x2b, 0x89, 0x65]
}

/// The bytes of the `Feature Dataset` item type.
pub open spec fn type_feature_dataset_bytes() -> Seq<u8> {
    seq![0x49u8, 0x71, 0x73, 0x74, 0xb5, 0xdc, 0x57, 0x42, 0x89, 0x04, 0xb9, 0x72, 0x4e, 0x32, 0xa5, 0x30]
}

} // verus!
