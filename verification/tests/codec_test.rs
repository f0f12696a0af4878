//! The binary codecs, text helpers, values and catalog pieces on concrete values.

use std::path::Path;

use gdb_core::base_schema;
use gdb_core::builder::{
    dataset_definition, feature_class_definition, geometry_type_name, synthetic_uuid, table_definition,
    type_feature_class, CatalogBuilder,
};
use gdb_core::cursor::{matching_rows, CursorMode, QueryFilter, RowWalk};
use gdb_core::error::GdbError;
use gdb_core::field::{FieldDef, FieldType, GeometryType, TableSchema};
use gdb_core::geometry::{GridGeometry, GridPoint, GridPolyline};
use gdb_core::io::{
    decode_utf16, encode_utf16, read_uint_le, units_from_le_bytes, varint_len, varuint_len, write_le,
    write_varint_esri, write_varuint, Reader,
};
use gdb_core::table::rows::{decode_row, encode_row};
use gdb_core::table::schema::{parse_schema, read_field_def, write_field_def};
use gdb_core::table::write::offset_byte_width_for;
use gdb_core::table::{parse_row_slots, schema_version, Table};
use gdb_core::text::{chars_of, find_from, trim_bounds};
use gdb_core::value::{civil_from_days, days_from_civil, ole_epoch_days, DateTime, FieldValue, Uuid};
use gdb_core::xml::{extract_geometry_type_name, extract_wkt, is_feature_dataset};

// ---------------------------------------------------------------------------
// Variable-length integers and little-endian words
// ---------------------------------------------------------------------------

#[test]
fn varuint_bytes_and_roundtrip() {
    for &v in &[0u64, 1, 127, 128, 300, 16384, u64::MAX] {
        let mut out = Vec::new();
        write_varuint(&mut out, v);
        assert_eq!(out.len(), varuint_len(v));
        let mut r = Reader::new(&out);
        assert_eq!(r.varuint().unwrap(), v);
        assert_eq!(r.remaining(), 0);
    }
    let mut out = Vec::new();
    write_varuint(&mut out, 300);
    assert_eq!(out, vec![0xac, 0x02]);
}

#[test]
fn varint_esri_bytes_and_roundtrip() {
    for &d in &[0i64, 1, -1, 63, 64, -64, 1000, -1000, i64::MAX, i64::MIN + 1] {
        let mut out = Vec::new();
        write_varint_esri(&mut out, d);
        assert_eq!(out.len(), varint_len(d));
        let acc: i64 = if d > -1_000_000 && d < 1_000_000 { 10 } else { 0 };
        let mut r = Reader::new(&out);
        assert_eq!(r.varint_esri(acc).unwrap(), acc + d);
    }
    let mut out = Vec::new();
    write_varint_esri(&mut out, -5);
    assert_eq!(out, vec![0x45]);
    let mut out = Vec::new();
    write_varint_esri(&mut out, 100);
    // 100 = 36 + 64 * 1: low 6 bits 36 with the continuation bit, then 1.
    assert_eq!(out, vec![0x80 | 36, 1]);
}

#[test]
fn varuint_truncated_is_format_error() {
    let mut r = Reader::new(&[0x80, 0x80]);
    assert!(matches!(r.varuint(), Err(GdbError::Format(_))));
}

#[test]
fn fixed_width_reads() {
    let buf = [0x01u8, 0x02, 0x03, 0x04, 0xff, 0xff];
    let mut r = Reader::new(&buf);
    assert_eq!(r.u16().unwrap(), 0x0201);
    assert_eq!(r.u16().unwrap(), 0x0403);
    assert_eq!(r.i16().unwrap(), -1);
    assert!(matches!(r.u8(), Err(GdbError::Format(_))));
    assert_eq!(read_uint_le(&buf, 3), 0x030201);
    let mut out = Vec::new();
    write_le(&mut out, 0x0102_0304_0506, 6);
    assert_eq!(out, vec![6, 5, 4, 3, 2, 1]);
    let mut r = Reader::new(&out);
    assert_eq!(r.bytes(2).unwrap(), &[6u8, 5][..]);
    assert!(matches!(r.bytes(5), Err(GdbError::Format(_))));
}

#[test]
fn utf16_roundtrip() {
    let s = "四至坐标 abc 😀";
    let bytes = encode_utf16(s);
    let units = units_from_le_bytes(&bytes);
    assert_eq!(decode_utf16(&units), s);
    let mut r = Reader::new(&bytes);
    let n = units.len();
    assert_eq!(r.utf16(n).unwrap(), s);
    let mut r = Reader::new(&bytes[..3]);
    assert!(matches!(r.utf16(2), Err(GdbError::Format(_))));
}

// ---------------------------------------------------------------------------
// Rows and tables
// ---------------------------------------------------------------------------

fn sample_schema() -> TableSchema {
    let mut s = base_schema(GeometryType::Polyline, false, false);
    let mut shape = FieldDef::new("Shape", FieldType::Geometry);
    shape.nullable = true;
    s.fields.push(shape);
    s.fields.push(FieldDef::new("Name", FieldType::String));
    s.fields.push(FieldDef::new("Count", FieldType::Int32));
    let mut area = FieldDef::new("Area", FieldType::Float64);
    area.nullable = false;
    s.fields.push(area);
    s
}

fn sample_row(name: &str) -> Vec<FieldValue> {
    vec![
        FieldValue::ObjectId(0),
        FieldValue::Geometry(GridGeometry::Polyline(GridPolyline { parts: vec![vec![(1, 2), (30, 40)]] })),
        FieldValue::Text(name.into()),
        FieldValue::Null,
        FieldValue::Double(2.5f64.to_bits()),
    ]
}

#[test]
fn row_codec_roundtrip() {
    let schema = sample_schema();
    let row = sample_row("地块");
    let blob = encode_row(&row, &schema);
    let mut data = vec![9u8; 7];
    data.extend_from_slice(&blob);
    data.extend_from_slice(&[1, 2, 3]);
    let back = decode_row(&data, 7, 4, &schema).unwrap();
    let mut expected = sample_row("地块");
    expected[0] = FieldValue::ObjectId(5);
    assert_eq!(back, expected);
}

#[test]
fn row_value_of_other_kind_reads_back_empty() {
    let schema = sample_schema();
    let mut row = sample_row("x");
    row[4] = FieldValue::Text("not a number".into());
    let blob = encode_row(&row, &schema);
    let back = decode_row(&blob, 0, 0, &schema).unwrap();
    assert_eq!(back[4], FieldValue::Double(0));
}

#[test]
fn row_cut_short_is_format_error() {
    let schema = sample_schema();
    let blob = encode_row(&sample_row("abc"), &schema);
    assert!(matches!(decode_row(&blob[..blob.len() - 2], 0, 0, &schema), Err(GdbError::Format(_))));
    assert!(matches!(decode_row(&blob, blob.len() as u64, 0, &schema), Err(GdbError::Format(_))));
}

#[test]
fn table_serialize_and_read_back() {
    let dir = Path::new("t.gdb");
    let mut t = Table::new(dir, 9, 3, sample_schema());
    t.add_row(sample_row("a")).unwrap();
    t.add_row(sample_row("b")).unwrap();
    assert!(matches!(t.add_row(vec![FieldValue::Null]), Err(GdbError::Format(_))));
    let (data, idx) = t.serialize().unwrap();
    assert_eq!(schema_version(&data).unwrap(), 3);
    assert_eq!(parse_row_slots(&idx).unwrap().len(), 2);
    let back = Table::from_bytes(dir, 9, &data, &idx).unwrap();
    assert_eq!(back.version, 3);
    assert_eq!(back.rows.len(), 2);
    assert_eq!(back.row_slots, vec![0, 1]);
    assert_eq!(back.slot_count, 2);
    assert_eq!(back.rows[1][0], FieldValue::ObjectId(2));
    assert_eq!(back.rows[1][2], FieldValue::Text("b".into()));
    assert_eq!(back.schema.fields.len(), 5);
    assert_eq!(back.schema.fields[0].name, "OBJECTID");
    assert!(!back.schema.fields[0].nullable);
    assert_eq!(back.schema.fields[1].field_type, FieldType::Geometry);
    assert_eq!(back.schema.geometry_type, GeometryType::Polyline);
    assert_eq!(back.row_index_by_oid(2), Some(1));
    assert_eq!(back.row_index_by_oid(7), None);
    let schema = parse_schema(&data).unwrap();
    assert_eq!(schema.fields[4].name, "Area");
    assert!(!schema.fields[4].nullable);
}

#[test]
fn table_with_gap_keeps_slots() {
    let dir = Path::new("t.gdb");
    let mut t = Table::new(dir, 4, 4, sample_schema());
    t.add_row(sample_row("a")).unwrap();
    t.add_row(sample_row("b")).unwrap();
    t.row_slots = vec![1, 3];
    t.slot_count = 4;
    let (data, idx) = t.serialize().unwrap();
    let slots = parse_row_slots(&idx).unwrap();
    assert_eq!(slots.len(), 4);
    assert_eq!(slots[0].1, 0);
    assert_eq!(slots[2].1, 0);
    let back = Table::from_bytes(dir, 4, &data, &idx).unwrap();
    assert_eq!(back.version, 4);
    assert_eq!(back.row_slots, vec![1, 3]);
    assert_eq!(back.rows[0][0], FieldValue::ObjectId(2));
    assert_eq!(back.rows[1][0], FieldValue::ObjectId(4));
}

#[test]
fn table_header_errors() {
    assert!(matches!(schema_version(&[1, 2]), Err(GdbError::Format(_))));
    assert!(matches!(schema_version(&[5, 0, 0, 0]), Err(GdbError::Format(_))));
    assert!(matches!(parse_row_slots(&[0; 8]), Err(GdbError::Format(_))));
    let mut idx = vec![0u8; 16];
    idx[12] = 9; // offset width 9
    assert!(matches!(parse_row_slots(&idx), Err(GdbError::Format(_))));
    let data = vec![0u8; 40];
    assert!(matches!(Table::from_bytes(Path::new("x"), 1, &data, &idx), Err(GdbError::Format(_))));
}

#[test]
fn offset_widths() {
    assert_eq!(offset_byte_width_for(&[]), 4);
    assert_eq!(offset_byte_width_for(&[0xFFFF_FFFF]), 4);
    assert_eq!(offset_byte_width_for(&[1, 0x1_0000_0000]), 5);
    assert_eq!(offset_byte_width_for(&[0x100_0000_0000]), 6);
}

#[test]
fn row_access_and_insert() {
    let dir = Path::new("t.gdb");
    let mut t = Table::new(dir, 9, 3, sample_schema());
    let mut r = sample_row("a");
    r[0] = FieldValue::ObjectId(7);
    t.add_row(r).unwrap();
    assert_eq!(t.object_id_at(0), 7);
    assert_eq!(t.value_at(0, 2), FieldValue::Text("a".into()));
    assert!(matches!(t.value_by_name(0, "Nope"), Err(GdbError::InvalidField(_))));
    t.set_value_by_name(0, "Count", FieldValue::Int32(3)).unwrap();
    assert_eq!(t.value_by_name(0, "Count").unwrap(), FieldValue::Int32(3));
    assert!(matches!(t.set_value_by_name(0, "Nope", FieldValue::Null), Err(GdbError::InvalidField(_))));
    let i = t.insert_row(sample_row("b"));
    assert_eq!(i, 1);
    assert_eq!(t.object_id_at(1), 8);
    assert_eq!(t.row_slots, vec![0, 7]);
    assert_eq!(t.slot_count, 8);
    assert_eq!(t.next_object_id(0), 9);
    t.set_geometry_at(1, GridGeometry::Point(GridPoint { x: 1, y: 1 })).unwrap();
    assert_eq!(t.geometry_at(1).unwrap(), GridGeometry::Point(GridPoint { x: 1, y: 1 }));
    t.set_value(1, 1, FieldValue::Null);
    assert!(matches!(t.geometry_at(1), Err(GdbError::GeometryError(_))));
    assert_eq!(t.row_values(0).len(), 5);

    let plain = Table::new(dir, 2, 3, Table::empty_schema());
    assert_eq!(plain.spatial_reference(), "");
    let mut plain = plain;
    plain.add_row(vec![FieldValue::ObjectId(0)]).unwrap();
    assert!(matches!(plain.geometry_at(0), Err(GdbError::GeometryError(_))));
    assert!(matches!(plain.set_geometry_at(0, GridGeometry::Point(GridPoint { x: 0, y: 0 })), Err(GdbError::GeometryError(_))));
}

#[test]
fn cursor_selection_and_modes() {
    let dir = Path::new("t.gdb");
    let mut t = Table::new(dir, 9, 3, sample_schema());
    for k in 1..=3u64 {
        let mut r = sample_row("x");
        r[0] = FieldValue::ObjectId(k * 10);
        t.add_row(r).unwrap();
    }
    assert_eq!(matching_rows(&t, &QueryFilter::All), vec![0, 1, 2]);
    assert_eq!(matching_rows(&t, &QueryFilter::ByOid(20)), vec![1]);
    assert_eq!(matching_rows(&t, &QueryFilter::ByOid(5)), Vec::<usize>::new());
    assert!(QueryFilter::All.matches(99));
    assert!(!QueryFilter::ByOid(1).matches(2));
    assert!(CursorMode::Update.require(CursorMode::Update).is_ok());
    assert!(matches!(CursorMode::Search.require(CursorMode::Update), Err(GdbError::Edit(_))));
    assert!(matches!(CursorMode::Update.require(CursorMode::Insert), Err(GdbError::Edit(_))));
}

#[test]
fn day_counts_give_valid_dates() {
    let month_len = |y: i32, m: u32| -> u32 {
        let leap = (y % 4 == 0 && y % 100 != 0) || y % 400 == 0;
        match m {
            2 => if leap { 29 } else { 28 },
            4 | 6 | 9 | 11 => 30,
            _ => 31,
        }
    };
    let mut z: i64 = -800_000;
    while z <= 800_000 {
        let (y, m, d) = civil_from_days(z);
        assert!((1..=12).contains(&m) && d >= 1 && d <= month_len(y, m), "{z}: {y}-{m}-{d}");
        assert_eq!(days_from_civil(y, m as i32, d as i32), z);
        z += 37;
    }
    assert_eq!(civil_from_days(11_016), (2000, 2, 29));
    assert_eq!(civil_from_days(-25_569), (1899, 12, 30));
}

#[test]
fn cursor_walk_gives_selected_rows_then_nothing() {
    let dir = Path::new("t.gdb");
    let mut t = Table::new(dir, 9, 3, sample_schema());
    for k in 1..=3u64 {
        let mut r = sample_row("x");
        r[0] = FieldValue::ObjectId(k);
        t.add_row(r).unwrap();
    }
    let mut all = RowWalk::new(&t, &QueryFilter::All);
    assert!(all.has_next());
    assert_eq!(all.next_index(), Some(0));
    assert_eq!(all.next_index(), Some(1));
    assert_eq!(all.next_index(), Some(2));
    assert!(!all.has_next());
    assert_eq!(all.next_index(), None);
    assert_eq!(all.next_index(), None);
    all.push_index(3);
    assert!(all.has_next());
    assert_eq!(all.next_index(), Some(3));
    let mut one = RowWalk::new(&t, &QueryFilter::ByOid(2));
    assert_eq!(one.next_index(), Some(1));
    assert_eq!(one.next_index(), None);
    assert!(!one.has_next());
}

// ---------------------------------------------------------------------------
// Text, XML and dates
// ---------------------------------------------------------------------------

#[test]
fn text_helpers() {
    let cs = chars_of("  ab c \t");
    assert_eq!(trim_bounds(&cs, 0, cs.len()), (2, 6));
    let h = chars_of("xx<WKT>yy");
    assert_eq!(find_from(&h, 0, &chars_of("<WKT>")), Some(2));
    assert_eq!(find_from(&h, 3, &chars_of("<WKT>")), None);
}

#[test]
fn xml_definitions() {
    let def = "<DEFeatureClassInfo><GeometryType> esriGeometryPolygon </GeometryType><SpatialReference><WKT> PROJCS[\"x\"] </WKT></SpatialReference></DEFeatureClassInfo>";
    assert_eq!(extract_wkt(def).as_deref(), Some("PROJCS[\"x\"]"));
    assert_eq!(extract_geometry_type_name(def).as_deref(), Some("esriGeometryPolygon"));
    assert!(!is_feature_dataset(def));
    assert!(is_feature_dataset("<DEFeatureDataset><Name>A</Name></DEFeatureDataset>"));
    assert_eq!(extract_wkt("<WKT>open"), None);
    assert_eq!(extract_geometry_type_name("<GeometryType>  </GeometryType>"), None);
}

#[test]
fn definitions_of_new_items() {
    assert_eq!(table_definition("T"), "<DETable><Name>T</Name></DETable>");
    assert_eq!(dataset_definition("D"), "<DEFeatureDataset><Name>D</Name></DEFeatureDataset>");
    assert_eq!(
        feature_class_definition("F", GeometryType::Point, "W").unwrap(),
        "<DEFeatureClassInfo><Name>F</Name><GeometryType>esriGeometryPoint</GeometryType><SpatialReference><WKT>W</WKT></SpatialReference></DEFeatureClassInfo>"
    );
    assert!(matches!(feature_class_definition("F", GeometryType::Envelope, "W"), Err(GdbError::GeometryError(_))));
    assert_eq!(geometry_type_name(GeometryType::MultiPoint), Some("esriGeometryMultipoint"));
    assert_eq!(geometry_type_name(GeometryType::NoGeometry), None);
    assert_eq!(synthetic_uuid(0x102).0, [0x02, 0x01, 0, 0, 0, 0, 0, 0, 0x42, 0, 0, 0, 0, 0, 0, 0x1b]);
}

#[test]
fn catalog_builder_registration() {
    let mut b = CatalogBuilder::new();
    assert_eq!(b.catalog_rows.len(), 3);
    assert_eq!(b.items_rows.len(), 2);
    let id = b.register_table(type_feature_class(), "Roads", 1, 3, "<DEFeatureClassInfo/>", "\\Net\\Roads");
    assert_eq!(id, 4);
    assert_eq!(b.next_file_id, 5);
    assert_eq!(b.catalog_rows[3][2], FieldValue::Text("Roads".into()));
    let item = &b.items_rows[2];
    assert_eq!(item[1], FieldValue::Uuid(synthetic_uuid(0x103)));
    assert_eq!(item[4], FieldValue::Text("ROADS".into()));
    assert_eq!(item[5], FieldValue::Text("\\Net\\Roads".into()));
    assert_eq!(item[7], FieldValue::Int32(3));
    assert_eq!(item[8], FieldValue::Text("SHAPE".into()));
}

#[test]
fn dates() {
    assert_eq!(days_from_civil(1970, 1, 1), 0);
    assert_eq!(days_from_civil(2000, 3, 1), 11017);
    assert_eq!(ole_epoch_days(), -25569);
    assert_eq!(civil_from_days(11017), (2000, 3, 1));
    assert_eq!(civil_from_days(-1), (1969, 12, 31));
    assert_eq!(civil_from_days(days_from_civil(2024, 2, 29)), (2024, 2, 29));
    let dt = DateTime::from_total_micros(86_400_000_000 + 3_600_000_000 + 1);
    assert_eq!(dt, DateTime { year: 1899, month: 12, day: 31, hour: 1, minute: 0, second: 0, micros: 1 });
    assert_eq!(dt.total_micros(), 86_400_000_000 + 3_600_000_000 + 1);
    assert_eq!(dt.to_string_iso(), "1899-12-31 01:00:00.000001");
    let neg = DateTime::from_total_micros(-1);
    assert_eq!(neg, DateTime { year: 1899, month: 12, day: 29, hour: 23, minute: 59, second: 59, micros: 999_999 });
    let d = DateTime { year: 2024, month: 5, day: 6, hour: 7, minute: 8, second: 9, micros: 0 };
    assert_eq!(d.to_string_iso(), "2024-05-06 07:08:09");
    assert_eq!(DateTime::from_total_micros(d.total_micros()), d);
}

#[test]
fn float_words_as_bits() {
    let mut out = Vec::new();
    write_le(&mut out, 1.5f32.to_bits() as u64, 4);
    write_le(&mut out, (-2.25f64).to_bits(), 8);
    let mut r = Reader::new(&out);
    assert_eq!(f32::from_bits(r.f32_bits().unwrap()), 1.5);
    assert_eq!(f64::from_bits(r.f64_bits().unwrap()), -2.25);
    assert!(matches!(r.f32_bits(), Err(GdbError::Format(_))));
}

#[test]
fn uuid_text_and_uuid_field() {
    let u = Uuid([0x6f, 0x3e, 0x78, 0xf3, 0xca, 0x65, 0x14, 0x45, 0x83, 0x15, 0xce, 0x39, 0x85, 0xda, 0xd3, 0xb1]);
    let text = u.to_string();
    assert_eq!(text, "6f3e78f3-ca65-1445-8315-ce3985dad3b1");
    // The text, written to a UUID field, reads back as the UUID.
    let mut s = Table::empty_schema();
    s.fields.push(FieldDef::new("G", FieldType::Uuid));
    let blob = encode_row(&[FieldValue::ObjectId(0), FieldValue::Text(text)], &s);
    let back = decode_row(&blob, 0, 0, &s).unwrap();
    assert_eq!(back[1], FieldValue::Uuid(u));
}

#[test]
fn values() {
    assert_eq!(FieldValue::text("x"), FieldValue::Text("x".into()));
    assert_eq!(Uuid::from_bytes([7; 16]).0, [7; 16]);
    let s = base_schema(GeometryType::Point, true, false);
    assert_eq!(s.fields.len(), 1);
    assert_eq!(s.fields[0].name, "OBJECTID");
    assert!(!s.fields[0].nullable);
    assert!(s.fields[0].required && !s.fields[0].editable);
    assert_eq!(s.fields[0].flags_byte(), 0x02);
    assert!(s.has_z && !s.has_m && s.string_utf8);
}

#[test]
fn field_descriptions_read_back() {
    let mut schema = base_schema(GeometryType::Polygon, true, false);
    let mut name = FieldDef::new("名称", FieldType::String);
    name.alias = "别名".into();
    name.length = 50;
    name.default = Some(FieldValue::Text("abc".into()));
    let mut count = FieldDef::new("Count", FieldType::Int32);
    count.default = Some(FieldValue::Int32(-5));
    count.required = true;
    let mut shape = FieldDef::new("Shape", FieldType::Geometry);
    shape.srs_wkt = "PROJCS[\"x\"]".into();
    shape.grid.grid_sizes = vec![5900f64.to_bits()];
    shape.grid.mtol = 7; // no M in this table: reads back as the default
    let mut locked = FieldDef::new("Locked", FieldType::Float64);
    locked.editable = false;
    locked.default = Some(FieldValue::Double(1));
    schema.fields.push(name);
    schema.fields.push(count);
    schema.fields.push(shape);
    schema.fields.push(locked);

    let mut out = Vec::new();
    for f in &schema.fields {
        write_field_def(&mut out, f, &schema);
    }
    let mut r = Reader::new(&out);
    let oid = read_field_def(&mut r, true, false).unwrap();
    assert_eq!(oid.field_type, FieldType::ObjectId);
    assert!(!oid.nullable && oid.required && !oid.editable);
    let n = read_field_def(&mut r, true, false).unwrap();
    assert_eq!(n.name, "名称");
    assert_eq!(n.alias, "别名");
    assert_eq!(n.length, 50);
    assert_eq!(n.default, Some(FieldValue::Text("abc".into())));
    let c = read_field_def(&mut r, true, false).unwrap();
    assert_eq!(c.default, Some(FieldValue::Int32(-5)));
    assert!(c.required && c.nullable && c.editable);
    let g = read_field_def(&mut r, true, false).unwrap();
    assert_eq!(g.field_type, FieldType::Geometry);
    assert_eq!(g.srs_wkt, "PROJCS[\"x\"]");
    assert!(g.geom_has_z && !g.geom_has_m);
    assert_eq!(g.grid.grid_sizes, vec![5900f64.to_bits()]);
    assert_eq!(g.grid.mtol, gdb_core::field::PrecisionGrid::default().mtol);
    let l = read_field_def(&mut r, true, false).unwrap();
    assert!(!l.editable);
    assert_eq!(l.default, None);
    assert_eq!(r.remaining(), 0);
}

#[test]
fn type_codes() {
    for c in 0u8..=20 {
        let t = FieldType::from_code(c);
        assert_eq!(t.code(), if c == 11 { 10 } else { c });
        if c != 11 {
            assert_eq!(FieldType::from_code(t.code()), t);
        }
    }
    assert_eq!(FieldType::from_code(7), FieldType::Geometry);
    assert_eq!(FieldType::from_code(99), FieldType::Other(99));
    assert_eq!(FieldType::Float64.fixed_size(), 8);
    assert!(FieldType::Int16.is_fixed() && !FieldType::String.is_fixed());
    for c in -2i32..=12 {
        assert_eq!(GeometryType::from_code(c).code(), c);
    }
    assert_eq!(GeometryType::from_code(4), GeometryType::Polygon);
    assert_eq!(GeometryType::from_code(9), GeometryType::MultiPatch);
    assert_eq!(GeometryType::from_code(7), GeometryType::Other(7));
}

#[test]
fn insert_keeps_object_ids_across_write_back() {
    let dir = Path::new("t.gdb");
    let mut t = Table::new(dir, 9, 3, sample_schema());
    for _ in 0..3 {
        t.add_row(sample_row("a")).unwrap();
    }
    let (data, idx) = t.serialize().unwrap();
    let mut back = Table::from_bytes(dir, 9, &data, &idx).unwrap();
    // Delete the middle row (object ID 2, slot 1), then insert one.
    back.rows.remove(1);
    back.row_slots.remove(1);
    let i = back.insert_row(sample_row("b"));
    assert_eq!(i, 2);
    assert_eq!(back.row_slots, vec![0, 2, 3]);
    assert_eq!(back.slot_count, 4);
    let (data2, idx2) = back.serialize().unwrap();
    let again = Table::from_bytes(dir, 9, &data2, &idx2).unwrap();
    let oids: Vec<u64> = (0..again.rows.len()).map(|k| again.object_id_at(k)).collect();
    assert_eq!(oids, vec![1, 3, 4]);
    assert_eq!(again.row_slots, vec![0, 2, 3]);
    assert_eq!(again.rows[2][2], FieldValue::Text("b".into()));
}

#[test]
fn operations_keep_one_value_per_field() {
    let dir = Path::new("t.gdb");
    let mut t = Table::new(dir, 9, 3, sample_schema());
    // The first row sits in slot 0, so its object ID is 1.
    let mut a = sample_row("a");
    a[0] = FieldValue::ObjectId(1);
    t.add_row(a).unwrap();
    let _ = t.add_row(vec![FieldValue::Null]);
    t.insert_row(sample_row("b"));
    assert_eq!(t.row_slots, vec![0, 1]);
    t.set_value(0, 3, FieldValue::Int32(1));
    t.set_geometry_at(1, GridGeometry::Point(GridPoint { x: 2, y: 3 })).unwrap();
    t.replace_row(0, sample_row("c"));
    let n = t.schema.fields.len();
    assert!(t.rows.iter().all(|r| r.len() == n));
    let (data, idx) = t.serialize().unwrap();
    let back = Table::from_bytes(dir, 9, &data, &idx).unwrap();
    assert!(back.rows.iter().all(|r| r.len() == n));
    assert_eq!(back.rows.len(), 2);
}

// ---------------------------------------------------------------------------
// Error messages
// ---------------------------------------------------------------------------

fn message(e: GdbError) -> String {
    match e {
        GdbError::NotAGeodatabase(s)
        | GdbError::NotFound(s)
        | GdbError::InvalidField(s)
        | GdbError::GeometryError(s)
        | GdbError::Format(s)
        | GdbError::Edit(s)
        | GdbError::Other(s) => s,
        GdbError::Io(_) | GdbError::Utf(_) => String::new(),
    }
}

#[test]
fn reader_error_messages() {
    let data = [1u8, 2, 3];
    let mut r = Reader::new(&data);
    r.u8().unwrap();
    assert_eq!(message(r.u32().unwrap_err()), "读取越界: 需要 4 字节, 剩余 2");
    assert_eq!(message(r.bytes(7).unwrap_err()), "读取越界: 需要 7 字节, 剩余 2");
    let empty: [u8; 0] = [];
    assert_eq!(message(Reader::new(&empty).varuint().unwrap_err()), "读取越界: 需要 1 字节, 剩余 0");
    let long = [0x80u8; 12];
    assert_eq!(message(Reader::new(&long).varuint().unwrap_err()), "varuint 过长");
    assert_eq!(message(Reader::new(&long).varint_esri(0).unwrap_err()), "varint_esri 过长");
    let cut = [0x80u8, 0x80];
    assert_eq!(message(Reader::new(&cut).varint_esri(0).unwrap_err()), "读取越界: 需要 1 字节, 剩余 0");
    let odd = [0x41u8, 0, 0x42];
    assert_eq!(message(Reader::new(&odd).utf16(2).unwrap_err()), "读取越界: 需要 2 字节, 剩余 1");
}

#[test]
fn table_error_messages() {
    let dir = Path::new("t.gdb");
    let mut t = Table::new(dir, 9, 3, sample_schema());
    assert_eq!(message(t.add_row(vec![FieldValue::Null]).unwrap_err()), "行字段数 1 与 schema 5 不一致");
    assert_eq!(message(schema_version(&[1, 2]).unwrap_err()), "文件过短，无法读取版本");
    assert_eq!(message(schema_version(&[0xfe, 0xff, 0xff, 0xff]).unwrap_err()), "不支持的 .gdbtable 版本 -2");
    assert_eq!(message(parse_row_slots(&[0; 8]).unwrap_err()), ".gdbtablx 过短");
    let mut idx = vec![0u8; 16];
    idx[8] = 2;
    idx[12] = 9;
    assert_eq!(message(parse_row_slots(&idx).unwrap_err()), ".gdbtablx 头部非法: nrows=2 offset_size=9");
    let mut r = sample_row("a");
    r[1] = FieldValue::Int32(5);
    t.add_row(r).unwrap();
    assert_eq!(message(t.geometry_at(0).unwrap_err()), "几何字段类型异常: Int32(5)");
    t.set_value(0, 1, FieldValue::Text("p".into()));
    assert_eq!(message(t.geometry_at(0).unwrap_err()), "几何字段类型异常: Text(\"p\")");
    t.set_value(0, 1, FieldValue::Null);
    assert_eq!(message(t.geometry_at(0).unwrap_err()), "几何为空");
    assert_eq!(message(t.value_by_name(0, "Nope").unwrap_err()), "Nope");
    let mut plain = Table::new(dir, 9, 3, base_schema(GeometryType::NoGeometry, false, false));
    plain.add_row(vec![FieldValue::ObjectId(1)]).unwrap();
    assert_eq!(message(plain.geometry_at(0).unwrap_err()), "该对象不含几何字段");
}

#[test]
fn geometry_and_cursor_error_messages() {
    // Shape code 3 (polyline) with the curve flag, one point, one part, two curves.
    let mut blob = Vec::new();
    write_varuint(&mut blob, 3 | 0x2000_0000);
    write_varuint(&mut blob, 1);
    write_varuint(&mut blob, 1);
    write_varuint(&mut blob, 2);
    assert_eq!(
        message(gdb_core::geometry::decode_geometry_blob(&blob).unwrap_err()),
        "暂不支持曲线段几何（nCurves=2）"
    );
    assert_eq!(message(gdb_core::geometry::decode_geometry_blob(&[7]).unwrap_err()), "不支持的几何形状码 7");
    assert_eq!(
        message(gdb_core::geometry::decode_geometry_blob(&[32]).unwrap_err()),
        "暂不支持多补丁（MultiPatch）几何"
    );
    assert_eq!(message(CursorMode::Search.require(CursorMode::Update).unwrap_err()), "update 仅允许在 Update 游标上调用");
    assert_eq!(message(CursorMode::Search.require(CursorMode::Insert).unwrap_err()), "insert 仅允许在 Insert 游标上调用");
    assert_eq!(
        message(feature_class_definition("F", GeometryType::Other(-3), "W").unwrap_err()),
        "暂不支持的几何类型 Other(-3)"
    );
    assert_eq!(
        message(feature_class_definition("F", GeometryType::NoGeometry, "W").unwrap_err()),
        "暂不支持的几何类型 None"
    );
}

#[test]
fn not_a_geodatabase_names_the_directory() {
    match gdb_core::workspace::Geodatabase::open(Path::new("x/y.gdb"), false, Vec::new()) {
        Err(e) => assert_eq!(message(e), "x/y.gdb 不是合法的 File Geodatabase（缺少 a00000001 系统目录）"),
        Ok(_) => panic!("expected an error"),
    }
}

#[test]
fn decoder_error_messages() {
    let schema = sample_schema();
    let mut data = vec![0u8; 10];
    assert_eq!(message(decode_row(&data, 8, 0, &schema).unwrap_err()), "行偏移越界");
    data[4..8].copy_from_slice(&(-1i32).to_le_bytes());
    assert_eq!(message(decode_row(&data, 4, 0, &schema).unwrap_err()), "行偏移指向已删除记录");
    data[4..8].copy_from_slice(&9i32.to_le_bytes());
    assert_eq!(message(decode_row(&data, 4, 0, &schema).unwrap_err()), "行长度越界");
    // A point with stored x = 0 is the empty point.
    let mut blob = Vec::new();
    write_varuint(&mut blob, 1);
    write_varuint(&mut blob, 0);
    write_varuint(&mut blob, 5);
    assert_eq!(message(gdb_core::geometry::decode_geometry_blob(&blob).unwrap_err()), "空点几何（存储值 0）");
    // A file whose field description offset points past its end.
    let mut file = vec![0u8; 40];
    file[0] = 3;
    file[32..36].copy_from_slice(&1000u32.to_le_bytes());
    assert_eq!(message(parse_schema(&file).unwrap_err()), "字段描述段偏移越界");
}
