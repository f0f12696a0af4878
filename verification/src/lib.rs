//! Reading and writing ESRI File Geodatabase tables: the binary codecs of
//! `.gdbtable` / `.gdbtablx` files, their rows and their geometry blobs.

pub mod error;
pub mod io;
pub mod geometry;
pub mod value;
pub mod text;
pub mod field;
pub mod table;
pub mod xml;
pub mod catalog;
pub mod workspace;
pub mod feature_dataset;
pub mod cursor;
pub mod builder;
pub mod catalog_roundtrip;

pub use catalog::{CatalogItem, CatalogItemType};
pub use cursor::{CursorMode, QueryFilter};
pub use error::GdbError;
pub use feature_dataset::FeatureDataset;
pub use field::{FieldDef, FieldType, GeometryType, PrecisionGrid, TableSchema};
pub use table::Table;
pub use value::FieldValue;
pub use workspace::Geodatabase;

use vstd::prelude::*;
use field::{FieldDefView, SchemaView, new_field_view};

verus! {

/// A schema skeleton with the default precision grid: the given geometry type, Z and M
/// flags, UTF-8 text, and one `OBJECTID` field, which (as every object ID field) is not
/// nullable, required and not editable.
pub fn base_schema(geometry_type: GeometryType, has_z: bool, has_m: bool) -> (s: TableSchema)
    ensures
        s@ == (SchemaView {
            geometry_type,
            has_z,
            has_m,
            string_utf8: true,
            fields: seq![(FieldDefView { nullable: false, required: true, editable: false, ..new_field_view("OBJECTID"@, FieldType::ObjectId) })],
        }),
{
    let mut fields: Vec<FieldDef> = Vec::new();
    let mut oid = FieldDef::new("OBJECTID", FieldType::ObjectId);
    oid.nullable = false;
    oid.required = true;
    oid.editable = false;
    fields.push(oid);
    let s = TableSchema { geometry_type, has_z, has_m, string_utf8: true, fields };
    assert(s@.fields =~= seq![(FieldDefView { nullable: false, required: true, editable: false, ..new_field_view("OBJECTID"@, FieldType::ObjectId) })]);
    s
}

} // verus!
