//! Geometry blobs: encoding then decoding gives the geometry back. Coordinates are
//! taken to the precision grid (`round((v - origin) * scale)`) and back
//! (`grid / scale + origin`) here, as the reading and writing layers do.

use gdb_core::geometry::{
    decode_geometry_blob, encode_geometry_blob, GridGeometry, GridMultiPoint, GridPoint, GridPolygon,
    GridPolyline,
};

const XORIG: f64 = 40538389.49;
const YORIG: f64 = 3044658.394;
const XYSCALE: f64 = 5900.0;

fn to_grid(p: (f64, f64)) -> (i64, i64) {
    (((p.0 - XORIG) * XYSCALE).round() as i64, ((p.1 - YORIG) * XYSCALE).round() as i64)
}

fn from_grid(g: (i64, i64)) -> (f64, f64) {
    (g.0 as f64 / XYSCALE + XORIG, g.1 as f64 / XYSCALE + YORIG)
}

fn grid_point(p: (f64, f64)) -> GridGeometry {
    let (x, y) = to_grid(p);
    GridGeometry::Point(GridPoint { x, y })
}

fn grid_parts(parts: &[Vec<(f64, f64)>]) -> Vec<Vec<(i64, i64)>> {
    parts.iter().map(|p| p.iter().map(|q| to_grid(*q)).collect()).collect()
}

#[test]
fn point_roundtrip() {
    let p = grid_point((40538500.5, 3044700.25));
    let blob = encode_geometry_blob(&p, false, false);
    let back = decode_geometry_blob(&blob).unwrap();
    match back {
        GridGeometry::Point(q) => {
            let (x, y) = from_grid((q.x, q.y));
            assert!((x - 40538500.5).abs() < 1e-4);
            assert!((y - 3044700.25).abs() < 1e-4);
        }
        _ => panic!("应为点几何"),
    }
}

#[test]
fn polygon_roundtrip() {
    let rings = vec![vec![
        (40538490.0, 3044690.0),
        (40538600.0, 3044695.0),
        (40538620.0, 3044780.0),
        (40538500.0, 3044790.0),
        (40538490.0, 3044690.0),
    ]];
    let pg = GridGeometry::Polygon(GridPolygon { rings: grid_parts(&rings) });
    let blob = encode_geometry_blob(&pg, false, false);
    let back = decode_geometry_blob(&blob).unwrap();
    let pts = back.all_points();
    assert_eq!(pts.len(), 5);
    let orig: Vec<(f64, f64)> = rings.concat();
    for (a, b) in orig.iter().zip(pts.iter()) {
        let b = from_grid(*b);
        assert!((a.0 - b.0).abs() < 1e-4 && (a.1 - b.1).abs() < 1e-4);
    }
}

#[test]
fn polyline_multipart_roundtrip() {
    let parts = vec![
        vec![(40538490.0, 3044690.0), (40538600.0, 3044720.0)],
        vec![(40538600.0, 3044720.0), (40538620.0, 3044780.0), (40538500.0, 3044790.0)],
    ];
    let pl = GridGeometry::Polyline(GridPolyline { parts: grid_parts(&parts) });
    let blob = encode_geometry_blob(&pl, false, false);
    let back = decode_geometry_blob(&blob).unwrap();
    match back {
        GridGeometry::Polyline(p) => {
            assert_eq!(p.parts.len(), 2);
            assert_eq!(p.parts[0].len(), 2);
            assert_eq!(p.parts[1].len(), 3);
        }
        _ => panic!("应为折线几何"),
    }
}

#[test]
fn point_blob_bytes() {
    // gtype 1, then x + 1 and y + 1 as varuints.
    let blob = encode_geometry_blob(&GridGeometry::Point(GridPoint { x: 4, y: 200 }), false, false);
    assert_eq!(blob, vec![1, 5, 0xc9, 0x01]);
    assert_eq!(decode_geometry_blob(&blob).unwrap(), GridGeometry::Point(GridPoint { x: 4, y: 200 }));
}

#[test]
fn multipoint_roundtrip_exact() {
    let g = GridGeometry::MultiPoint(GridMultiPoint { points: vec![(10, 20), (5, 40), (30, 1)] });
    let blob = encode_geometry_blob(&g, false, false);
    assert_eq!(decode_geometry_blob(&blob).unwrap(), g);
}

#[test]
fn polygon_roundtrip_exact_multi_ring() {
    let g = GridGeometry::Polygon(GridPolygon {
        rings: vec![vec![(0, 0), (0, 10), (10, 10), (10, 0), (0, 0)], vec![(2, 2), (3, 2), (3, 3), (2, 2)]],
    });
    let blob = encode_geometry_blob(&g, false, false);
    assert_eq!(decode_geometry_blob(&blob).unwrap(), g);
}

#[test]
fn truncated_blob_is_format_error() {
    let g = GridGeometry::Polyline(GridPolyline { parts: vec![vec![(1, 1), (9, 9)]] });
    let blob = encode_geometry_blob(&g, false, false);
    let cut = &blob[..blob.len() - 1];
    assert!(matches!(decode_geometry_blob(cut), Err(gdb_core::error::GdbError::Format(_))));
}

#[test]
fn empty_blob_is_format_error() {
    assert!(matches!(decode_geometry_blob(&[]), Err(gdb_core::error::GdbError::Format(_))));
}
