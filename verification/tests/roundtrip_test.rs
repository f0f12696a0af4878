//! Write then read: a small geodatabase (a stand-alone table, a stand-alone point feature
//! class and a polygon feature class in a feature dataset) is written to table bytes,
//! read back, enumerated, read and updated. The files live in memory.

use std::collections::HashMap;
use std::path::Path;

use gdb_core::builder::{
    dataset_definition, feature_class_definition, feature_class_schema, item_types_rows, item_types_schema,
    items_schema, system_catalog_schema, table_definition, table_schema, type_feature_class, type_feature_dataset,
    type_table, CatalogBuilder,
};
use gdb_core::catalog::{enumerate, CatalogIndex, CatalogItemType};
use gdb_core::cursor::{matching_rows, QueryFilter};
use gdb_core::field::{FieldDef, FieldType, GeometryType, PrecisionGrid, TableSchema};
use gdb_core::geometry::{GridGeometry, GridPoint, GridPolygon};
use gdb_core::table::Table;
use gdb_core::value::FieldValue;
use gdb_core::workspace::Geodatabase;

type Files = HashMap<u32, (Vec<u8>, Vec<u8>)>;

fn dir() -> &'static Path {
    Path::new("sample.gdb")
}

fn write(files: &mut Files, file_id: u32, schema: TableSchema, rows: &[Vec<FieldValue>]) {
    let mut t = Table::new(dir(), file_id, 3, schema);
    for row in rows {
        t.add_row(row.clone()).unwrap();
    }
    files.insert(file_id, t.serialize().unwrap());
}

fn read(files: &Files, file_id: u32) -> Table {
    let (data, idx) = &files[&file_id];
    Table::from_bytes(dir(), file_id, data, idx).unwrap()
}

fn grid_xy(grid: &PrecisionGrid, x: f64, y: f64) -> (i64, i64) {
    let xo = f64::from_bits(grid.xorig);
    let yo = f64::from_bits(grid.yorig);
    let s = f64::from_bits(grid.xyscale);
    (((x - xo) * s).round() as i64, ((y - yo) * s).round() as i64)
}

fn real_xy(grid: &PrecisionGrid, p: (i64, i64)) -> (f64, f64) {
    let xo = f64::from_bits(grid.xorig);
    let yo = f64::from_bits(grid.yorig);
    let s = f64::from_bits(grid.xyscale);
    (p.0 as f64 / s + xo, p.1 as f64 / s + yo)
}

fn flush_catalog(files: &mut Files, b: &CatalogBuilder) {
    write(files, 1, system_catalog_schema(), &b.catalog_rows);
    write(files, 2, items_schema(), &b.items_rows);
}

fn build() -> Files {
    let mut files = Files::new();
    let grid = PrecisionGrid::default();
    let mut b = CatalogBuilder::new();
    flush_catalog(&mut files, &b);
    write(&mut files, 3, item_types_schema(), &item_types_rows());

    // stand-alone table
    let trows = vec![
        vec![FieldValue::ObjectId(1), FieldValue::Text("Beijing".into()), FieldValue::Int32(2154)],
        vec![FieldValue::ObjectId(2), FieldValue::Text("Shanghai".into()), FieldValue::Int32(2424)],
    ];
    let schema = table_schema(vec![FieldDef::new("Name", FieldType::String), FieldDef::new("Pop", FieldType::Int32)]);
    let id = b.next_file_id;
    write(&mut files, id, schema, &trows);
    b.register_table(type_table(), "Cities_Tbl", 2, 0, &table_definition("Cities_Tbl"), "\\Cities_Tbl");
    flush_catalog(&mut files, &b);

    // stand-alone point feature class
    let mut gf = FieldDef::new("SHAPE", FieldType::Geometry);
    gf.grid = grid.clone();
    gf.srs_wkt = "GEOGCS[\"GCS_WGS_1984\"]".into();
    gf.nullable = true;
    let (x, y) = grid_xy(&grid, 116.4, 39.9);
    let prows = vec![vec![
        FieldValue::ObjectId(1),
        FieldValue::Geometry(GridGeometry::Point(GridPoint { x, y })),
        FieldValue::Text("Capital".into()),
    ]];
    let def = feature_class_definition("Capitals", GeometryType::Point, &gf.srs_wkt).unwrap();
    let schema = feature_class_schema(GeometryType::Point, gf.clone(), vec![FieldDef::new("Name", FieldType::String)]);
    let id = b.next_file_id;
    write(&mut files, id, schema, &prows);
    b.register_table(type_feature_class(), "Capitals", 1, 1, &def, "\\Capitals");
    flush_catalog(&mut files, &b);

    // feature dataset and a polygon feature class in it
    b.push_item(type_feature_dataset(), "Admin", 0, 0, &dataset_definition("Admin"));
    flush_catalog(&mut files, &b);
    let ring: Vec<(i64, i64)> =
        [(0.0, 0.0), (0.0, 1.0), (1.0, 1.0), (1.0, 0.0), (0.0, 0.0)].iter().map(|p| grid_xy(&grid, p.0, p.1)).collect();
    let fdpoly = vec![vec![
        FieldValue::ObjectId(1),
        FieldValue::Geometry(GridGeometry::Polygon(GridPolygon { rings: vec![ring] })),
        FieldValue::Text("RegionA".into()),
    ]];
    let def = feature_class_definition("Regions", GeometryType::Polygon, &gf.srs_wkt).unwrap();
    let schema = feature_class_schema(GeometryType::Polygon, gf, vec![FieldDef::new("Name", FieldType::String)]);
    let id = b.next_file_id;
    write(&mut files, id, schema, &fdpoly);
    b.register_table(type_feature_class(), "Regions", 1, 4, &def, "\\Admin\\Regions");
    flush_catalog(&mut files, &b);
    files
}

fn open(files: &Files) -> Geodatabase {
    let catalog = read(files, 1);
    let index = CatalogIndex::new(&catalog).unwrap();
    let types = read(files, index.file_id("GDB_ItemTypes").unwrap());
    let items = read(files, index.items_file_id().unwrap());
    Geodatabase::open(dir(), true, enumerate(&index, Some(&types), &items)).unwrap()
}

fn open_item(files: &Files, gdb: &Geodatabase, kind: CatalogItemType, name: &str) -> Table {
    let item = gdb.find(kind, name).unwrap();
    read(files, item.file_id)
}

#[test]
fn enumerate_and_read() {
    let files = build();
    let gdb = open(&files);
    assert_eq!(gdb.tables().len(), 1, "独立表数量");
    assert_eq!(gdb.feature_classes().len(), 2, "要素类数量(独立 + 数据集内)");
    assert_eq!(gdb.feature_datasets().len(), 1, "要素数据集数量");

    // stand-alone table
    let tbl = open_item(&files, &gdb, CatalogItemType::Table, "Cities_Tbl");
    assert_eq!(tbl.rows.len(), 2);
    let sel = matching_rows(&tbl, &QueryFilter::All);
    let r = sel[0];
    assert_eq!(tbl.value_by_name(r, "Name").unwrap(), FieldValue::Text("Beijing".into()));
    assert_eq!(tbl.value_by_name(r, "Pop").unwrap(), FieldValue::Int32(2154));

    // stand-alone point feature class
    let fc = open_item(&files, &gdb, CatalogItemType::FeatureClass, "Capitals");
    assert_eq!(fc.schema.geometry_type, GeometryType::Point);
    assert_eq!(fc.rows.len(), 1);
    let first = matching_rows(&fc, &QueryFilter::All)[0];
    let grid = &fc.schema.fields[fc.schema.geometry_index().unwrap()].grid;
    match fc.geometry_at(first).unwrap() {
        GridGeometry::Point(p) => {
            let (x, y) = real_xy(grid, (p.x, p.y));
            assert!((x - 116.4).abs() < 1e-6);
            assert!((y - 39.9).abs() < 1e-6);
        }
        other => panic!("期望 Point，得到 {other:?}"),
    }

    // feature class in a feature dataset
    let fd = gdb.open_feature_dataset("Admin").unwrap();
    let fcs = fd.member_items(&gdb);
    assert_eq!(fcs.len(), 1);
    assert_eq!(fcs[0].name, "Regions");
    let poly = open_item(&files, &gdb, CatalogItemType::FeatureClass, "Regions");
    let first = matching_rows(&poly, &QueryFilter::All)[0];
    match poly.geometry_at(first).unwrap() {
        GridGeometry::Polygon(pg) => assert_eq!(pg.rings.len(), 1),
        other => panic!("期望 Polygon，得到 {other:?}"),
    }
}

#[test]
fn update_geometry_and_attribute() {
    let mut files = build();
    let gdb = open(&files);
    let item = gdb.find(CatalogItemType::FeatureClass, "Capitals").unwrap();
    let mut fc = read(&files, item.file_id);

    // update by OBJECTID
    let sel = matching_rows(&fc, &QueryFilter::ByOid(1));
    assert_eq!(sel.len(), 1);
    let r = sel[0];
    fc.set_value_by_name(r, "Name", FieldValue::Text("NewCapital".into())).unwrap();
    let grid = fc.schema.fields[fc.schema.geometry_index().unwrap()].grid.clone();
    let (x, y) = grid_xy(&grid, 121.0, 31.0);
    fc.set_geometry_at(r, GridGeometry::Point(GridPoint { x, y })).unwrap();
    files.insert(item.file_id, fc.serialize().unwrap());

    // read back
    let fc2 = read(&files, item.file_id);
    let r = matching_rows(&fc2, &QueryFilter::ByOid(1))[0];
    assert_eq!(fc2.value_by_name(r, "Name").unwrap(), FieldValue::Text("NewCapital".into()));
    match fc2.geometry_at(r).unwrap() {
        GridGeometry::Point(p) => {
            let (x, y) = real_xy(&grid, (p.x, p.y));
            assert!((x - 121.0).abs() < 1e-6 && (y - 31.0).abs() < 1e-6);
        }
        other => panic!("更新后几何错误: {other:?}"),
    }
}

#[test]
fn catalog_file_ids_follow_registration() {
    let files = build();
    let catalog = read(&files, 1);
    let index = CatalogIndex::new(&catalog).unwrap();
    assert_eq!(index.file_id("GDB_SystemCatalog"), Some(1));
    assert_eq!(index.file_id("GDB_Items"), Some(2));
    assert_eq!(index.file_id("GDB_ItemTypes"), Some(3));
    assert_eq!(index.file_id("Cities_Tbl"), Some(4));
    assert_eq!(index.file_id("Capitals"), Some(5));
    assert_eq!(index.file_id("Regions"), Some(6));
    assert_eq!(index.file_id("Admin"), None);
    assert_eq!(index.items_file_id().unwrap(), 2);
}

#[test]
fn dataset_member_and_parent() {
    let files = build();
    let gdb = open(&files);
    assert_eq!(
        gdb.feature_classes().len() + gdb.tables().len() + gdb.feature_datasets().len(),
        gdb.items().len()
    );
    let regions = gdb.find(CatalogItemType::FeatureClass, "Regions").unwrap();
    assert_eq!(regions.parent_dataset.as_deref(), Some("Admin"));
    assert_eq!(regions.geometry_type, GeometryType::Polygon);
    assert_eq!(regions.path, "\\Admin\\Regions");
    let capitals = gdb.find(CatalogItemType::FeatureClass, "Capitals").unwrap();
    assert_eq!(capitals.parent_dataset, None);
    let fd = gdb.open_feature_dataset("Admin").unwrap();
    assert_eq!(fd.name(), "Admin");
    assert_eq!(fd.find_member(&gdb, "Regions").unwrap().name, "Regions");
    assert!(matches!(fd.find_member(&gdb, "Capitals"), Err(gdb_core::error::GdbError::NotFound(_))));
    assert!(matches!(gdb.find(CatalogItemType::Table, "Capitals"), Err(gdb_core::error::GdbError::NotFound(_))));
    assert!(matches!(gdb.open_feature_dataset("Nope"), Err(gdb_core::error::GdbError::NotFound(_))));
    match gdb.open_feature_dataset("Nope") {
        Err(gdb_core::error::GdbError::NotFound(s)) => assert_eq!(s, "Nope"),
        _ => panic!("expected NotFound"),
    }
    match fd.find_member(&gdb, "Capitals") {
        Err(gdb_core::error::GdbError::NotFound(s)) => assert_eq!(s, "要素数据集 Admin 中未找到要素类 Capitals"),
        _ => panic!("expected NotFound"),
    }
}

#[test]
fn not_a_geodatabase() {
    assert!(matches!(
        Geodatabase::open(dir(), false, Vec::new()),
        Err(gdb_core::error::GdbError::NotAGeodatabase(_))
    ));
}

#[test]
fn workspace_path_is_the_opened_directory() {
    let root = Path::new("/data/other.gdb");
    let gdb = Geodatabase::open(root, true, Vec::new()).unwrap();
    assert_eq!(gdb.path(), root);
    assert_ne!(gdb.path(), dir());
}

/// The catalog of one registered table whose catalog entry is renamed afterwards.
fn catalog_with_entry(entry: FieldValue, physical: FieldValue, name: &str) -> Vec<gdb_core::catalog::CatalogItem> {
    let mut files = Files::new();
    let mut b = CatalogBuilder::new();
    b.register_table(type_table(), name, 2, 0, &table_definition(name), &format!("\\{name}"));
    b.catalog_rows[3][2] = entry;
    b.items_rows[2][4] = physical;
    flush_catalog(&mut files, &b);
    write(&mut files, 3, item_types_schema(), &item_types_rows());
    let catalog = read(&files, 1);
    let index = CatalogIndex::new(&catalog).unwrap();
    let types = read(&files, 3);
    let items = read(&files, 2);
    enumerate(&index, Some(&types), &items)
}

#[test]
fn file_id_found_in_lower_case() {
    // Neither the physical name nor the name is in the catalog as written; in lower case
    // the physical name is.
    let items = catalog_with_entry(FieldValue::Text("roads".into()), FieldValue::Text("ROADS".into()), "Roads");
    assert_eq!(items.len(), 1);
    assert_eq!(items[0].name, "Roads");
    assert_eq!(items[0].file_id, 4);
    assert_eq!(items[0].item_type, CatalogItemType::Table);
}

#[test]
fn item_without_data_file_is_left_out() {
    let items = catalog_with_entry(FieldValue::Text("other".into()), FieldValue::Text("ROADS".into()), "Roads");
    assert_eq!(items.len(), 0);
}

#[test]
fn physical_name_of_integer_kind_is_its_text() {
    // Tables in memory (a text field holding an integer would not survive the bytes).
    let mut b = CatalogBuilder::new();
    b.register_table(type_table(), "Odd", 2, 0, &table_definition("Odd"), "\\Odd");
    b.catalog_rows[3][2] = FieldValue::Text("Int32(7)".into());
    b.items_rows[2][3] = FieldValue::Text("zzz".into());
    b.items_rows[2][4] = FieldValue::Int32(7);
    let mut catalog = Table::new(dir(), 1, 3, system_catalog_schema());
    for r in &b.catalog_rows {
        catalog.add_row(r.clone()).unwrap();
    }
    let mut items_t = Table::new(dir(), 2, 3, items_schema());
    for r in &b.items_rows {
        items_t.add_row(r.clone()).unwrap();
    }
    let mut types = Table::new(dir(), 3, 3, item_types_schema());
    for r in item_types_rows() {
        types.add_row(r).unwrap();
    }
    let index = CatalogIndex::new(&catalog).unwrap();
    let items = enumerate(&index, Some(&types), &items_t);
    assert_eq!(items.len(), 1);
    assert_eq!(items[0].name, "Odd");
    assert_eq!(items[0].file_id, 4);
}

#[test]
fn physical_name_of_binary_kind_is_its_byte_list() {
    // Tables in memory (a text field holding bytes would not survive the file bytes).
    let mut b = CatalogBuilder::new();
    b.register_table(type_table(), "Odd", 2, 0, &table_definition("Odd"), "\\Odd");
    b.catalog_rows[3][2] = FieldValue::Text("Binary([1, 23])".into());
    b.items_rows[2][3] = FieldValue::Text("zzz".into());
    b.items_rows[2][4] = FieldValue::Binary(vec![1, 23]);
    let mut catalog = Table::new(dir(), 1, 3, system_catalog_schema());
    for r in &b.catalog_rows {
        catalog.add_row(r.clone()).unwrap();
    }
    let mut items_t = Table::new(dir(), 2, 3, items_schema());
    for r in &b.items_rows {
        items_t.add_row(r.clone()).unwrap();
    }
    let mut types = Table::new(dir(), 3, 3, item_types_schema());
    for r in item_types_rows() {
        types.add_row(r).unwrap();
    }
    let index = CatalogIndex::new(&catalog).unwrap();
    let items = enumerate(&index, Some(&types), &items_t);
    assert_eq!(items.len(), 1);
    assert_eq!(items[0].name, "Odd");
    assert_eq!(items[0].file_id, 4);
}
