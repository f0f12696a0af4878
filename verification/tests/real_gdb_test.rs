//! The catalog of a geodatabase with two stand-alone polygon feature classes,
//! `地块` in `a00000009` and `fw_DealData` in `a0000000a`, read back from the bytes
//! of its system tables.

use gdb_core::builder::{
    feature_class_definition, item_types_rows, item_types_schema, items_schema, system_catalog_schema,
    type_feature_class, CatalogBuilder,
};
use gdb_core::catalog::{enumerate, CatalogIndex, CatalogItemType};
use gdb_core::field::{GeometryType, TableSchema};
use gdb_core::table::Table;
use gdb_core::value::FieldValue;
use std::path::Path;

/// Writes a table to its two files' bytes and reads it back.
fn through_bytes(file_id: u32, schema: TableSchema, rows: &[Vec<FieldValue>]) -> Table {
    let dir = Path::new("fixture.gdb");
    let mut t = Table::new(dir, file_id, 3, schema);
    for row in rows {
        t.add_row(row.clone()).unwrap();
    }
    let (data, idx) = t.serialize().unwrap();
    Table::from_bytes(dir, file_id, &data, &idx).unwrap()
}

/// The three system tables of the geodatabase.
fn fixture() -> (Table, Table, Table) {
    let mut b = CatalogBuilder::new();
    b.next_file_id = 9;
    for name in ["地块", "fw_DealData"] {
        let def = feature_class_definition(name, GeometryType::Polygon, "PROJCS[\"CGCS2000_3_Degree_GK_Zone_40\"]").unwrap();
        let path = format!("\\{name}");
        b.register_table(type_feature_class(), name, 1, 4, &def, &path);
    }
    let catalog = through_bytes(1, system_catalog_schema(), &b.catalog_rows);
    let items = through_bytes(2, items_schema(), &b.items_rows);
    let types = through_bytes(3, item_types_schema(), &item_types_rows());
    (catalog, items, types)
}

#[test]
fn system_catalog_and_items() {
    let (catalog, items_table, types) = fixture();
    let index = CatalogIndex::new(&catalog).unwrap();
    let items = enumerate(&index, Some(&types), &items_table);
    assert_eq!(items.len(), 2, "应有 2 个用户对象");
    assert!(
        items
            .iter()
            .all(|i| i.item_type == CatalogItemType::FeatureClass),
        "均为独立要素类"
    );
    let names: Vec<&str> = items.iter().map(|i| i.name.as_str()).collect();
    assert!(names.contains(&"地块"));
    assert!(names.contains(&"fw_DealData"));
    // DatasetSubtype2 = 4 → Polygon
    let dk = items.iter().find(|i| i.name == "地块").unwrap();
    assert_eq!(dk.geometry_type, GeometryType::Polygon);
    assert_eq!(dk.file_id, 9, "地块 → a00000009");
    let fw = items.iter().find(|i| i.name == "fw_DealData").unwrap();
    assert_eq!(fw.file_id, 0xA, "fw_DealData → a0000000a");
}
