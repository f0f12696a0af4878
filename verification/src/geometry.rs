//! Geometry blobs in precision-grid units.
//!
//! A geometry blob starts with `[varuint gtype]`: the low 8 bits are the shape code
//! (see [`shpt`]), bit 31 marks Z, bit 30 marks M and bit 29 marks curve segments.
//! - point: `[varuint x+1][varuint y+1]` (0 means empty), then `[varuint z+1]` / `[varuint m+1]`
//!   when the blob has Z / M;
//! - multipoint: `[varuint nPoints]` (0 = empty), `[4 varuint envelope]`, XY deltas, then Z and
//!   M deltas;
//! - polyline / polygon: `[varuint nPoints]` (0 = empty), `[varuint nParts]`, (with curves
//!   `[varuint nCurves]`), `[4 varuint envelope]`, `nParts - 1` part sizes (the last part takes
//!   the remaining points), XY deltas, then Z and M deltas.
//!
//! Coordinates are grid integers; each delta is an ESRI signed variable-length integer
//! added to the previous coordinate (starting from 0). The conversion between grid
//! integers and real coordinates (`grid / scale + origin`) is floating point and is not
//! part of this module.
use vstd::prelude::*;
use crate::error::{GdbError, format_error, geometry_error, error_text};
use crate::value::{decimal, push_decimal};
use crate::text::to_string;
use crate::io::{Reader, leb_encode, esri_encode, write_varuint, write_varint_esri, rest_at, varuint_at, esri_at, crop_i64};
use crate::error::ErrorKind;

pub mod shpt;
pub mod roundtrip;
pub mod laws;

verus! {

/// `gtype` flag: the blob carries Z values.
pub const EXT_SHAPE_Z_FLAG: u32 = 0x8000_0000;
/// `gtype` flag: the blob carries M values.
pub const EXT_SHAPE_M_FLAG: u32 = 0x4000_0000;
/// `gtype` flag: the blob carries curve segments.
pub const EXT_SHAPE_CURVE_FLAG: u32 = 0x2000_0000;

/// A point in grid units.
#[derive(Debug, Clone, Copy, PartialEq, Eq)]
pub struct GridPoint {
    pub x: i64,
    pub y: i64,
}

/// A multipoint in grid units.
#[derive(Debug, PartialEq, Eq)]
pub struct GridMultiPoint {
    pub points: Vec<(i64, i64)>,
}

/// A polyline (one or more parts) in grid units.
#[derive(Debug, PartialEq, Eq)]
pub struct GridPolyline {
    pub parts: Vec<Vec<(i64, i64)>>,
}

/// A polygon (one or more rings) in grid units.
#[derive(Debug, PartialEq, Eq)]
pub struct GridPolygon {
    pub rings: Vec<Vec<(i64, i64)>>,
}

/// A 2D geometry in grid units.
#[derive(Debug, PartialEq, Eq)]
pub enum GridGeometry {
    Point(GridPoint),
    MultiPoint(GridMultiPoint),
    Polyline(GridPolyline),
    Polygon(GridPolygon),
}

/// The mathematical value of a geometry.
pub enum GeomView {
    Point(i64, i64),
    MultiPoint(Seq<(i64, i64)>),
    Polyline(Seq<Seq<(i64, i64)>>),
    Polygon(Seq<Seq<(i64, i64)>>),
}

/// The views of a vector of point vectors.
pub open spec fn parts_view(parts: Seq<Vec<(i64, i64)>>) -> Seq<Seq<(i64, i64)>> {
    parts.map_values(|p: Vec<(i64, i64)>| p@)
}

impl View for GridGeometry {
    type V = GeomView;

    open spec fn view(&self) -> GeomView {
        match self {
            GridGeometry::Point(p) => GeomView::Point(p.x, p.y),
            GridGeometry::MultiPoint(m) => GeomView::MultiPoint(m.points@),
            GridGeometry::Polyline(l) => GeomView::Polyline(parts_view(l.parts@)),
            GridGeometry::Polygon(g) => GeomView::Polygon(parts_view(g.rings@)),
        }
    }
}

// ---------------------------------------------------------------------------
// Model of the encoding
// ---------------------------------------------------------------------------

/// All points of a list of parts, in order.
pub open spec fn flatten(parts: Seq<Seq<(i64, i64)>>) -> Seq<(i64, i64)>
    decreases parts.len(),
{
    if parts.len() == 0 { Seq::empty() } else { parts[0] + flatten(parts.drop_first()) }
}

/// All points of a geometry, in order.
pub open spec fn all_points_of(g: GeomView) -> Seq<(i64, i64)> {
    match g {
        GeomView::Point(x, y) => seq![(x, y)],
        GeomView::MultiPoint(p) => p,
        GeomView::Polyline(p) => flatten(p),
        GeomView::Polygon(p) => flatten(p),
    }
}

/// The shape code of a geometry.
pub open spec fn shpt_of(g: GeomView) -> u32 {
    match g {
        GeomView::Point(..) => 1,
        GeomView::MultiPoint(..) => 8,
        GeomView::Polyline(..) => 3,
        GeomView::Polygon(..) => 5,
    }
}

/// An `i64` read as the `u64` with the same bits.
pub open spec fn bits_u64(x: i64) -> nat {
    if x < 0 { (x + 0x1_0000_0000_0000_0000) as nat } else { x as nat }
}

/// The smallest X (first component) of a non-empty point list.
pub open spec fn min_x(pts: Seq<(i64, i64)>) -> i64
    decreases pts.len(),
{
    if pts.len() <= 1 { pts[0].0 } else {
        let m = min_x(pts.drop_last());
        if pts.last().0 < m { pts.last().0 } else { m }
    }
}

/// The largest X of a non-empty point list.
pub open spec fn max_x(pts: Seq<(i64, i64)>) -> i64
    decreases pts.len(),
{
    if pts.len() <= 1 { pts[0].0 } else {
        let m = max_x(pts.drop_last());
        if pts.last().0 > m { pts.last().0 } else { m }
    }
}

/// The smallest Y of a non-empty point list.
pub open spec fn min_y(pts: Seq<(i64, i64)>) -> i64
    decreases pts.len(),
{
    if pts.len() <= 1 { pts[0].1 } else {
        let m = min_y(pts.drop_last());
        if pts.last().1 < m { pts.last().1 } else { m }
    }
}

/// The largest Y of a non-empty point list.
pub open spec fn max_y(pts: Seq<(i64, i64)>) -> i64
    decreases pts.len(),
{
    if pts.len() <= 1 { pts[0].1 } else {
        let m = max_y(pts.drop_last());
        if pts.last().1 > m { pts.last().1 } else { m }
    }
}

/// The envelope: `xmin`, `ymin` (as unsigned bit patterns), width and height.
pub open spec fn envelope_blob(pts: Seq<(i64, i64)>) -> Seq<u8> {
    leb_encode(bits_u64(min_x(pts))) + leb_encode(bits_u64(min_y(pts)))
        + leb_encode((max_x(pts) - min_x(pts)) as nat) + leb_encode((max_y(pts) - min_y(pts)) as nat)
}

/// The XY deltas of `pts`, each relative to the previous point (the first to `acc`).
pub open spec fn delta_blob(pts: Seq<(i64, i64)>, acc: (i64, i64)) -> Seq<u8>
    decreases pts.len(),
{
    if pts.len() == 0 {
        Seq::empty()
    } else {
        esri_encode(pts[0].0.wrapping_sub(acc.0) as int) + esri_encode(pts[0].1.wrapping_sub(acc.1) as int)
            + delta_blob(pts.drop_first(), pts[0])
    }
}

/// `n` zero deltas (flat Z or M values).
pub open spec fn zeros_blob(n: nat) -> Seq<u8> {
    Seq::new(n, |i: int| 0u8)
}

/// The sizes of all parts but the last.
pub open spec fn counts_blob(parts: Seq<Seq<(i64, i64)>>) -> Seq<u8>
    decreases parts.len(),
{
    if parts.len() <= 1 { Seq::empty() } else { leb_encode(parts[0].len()) + counts_blob(parts.drop_first()) }
}

/// The stored value of a point coordinate: the grid value plus one, 0 when that is negative.
pub open spec fn stored_coord(v: i64) -> nat {
    let g = v.wrapping_add(1);
    if g < 0 { 0 } else { g as nat }
}

/// The blob of a geometry (without the row's length prefix).
pub open spec fn geometry_blob(g: GeomView, has_z: bool, has_m: bool) -> Seq<u8> {
    let gtype: nat = (shpt_of(g) as nat) + (if has_z { 0x8000_0000nat } else { 0nat }) + (if has_m { 0x4000_0000nat } else { 0nat });
    leb_encode(gtype) + match g {
        GeomView::Point(x, y) => point_blob(x, y, has_z, has_m),
        GeomView::MultiPoint(pts) => multipoint_blob(pts, has_z, has_m),
        GeomView::Polyline(parts) => parts_blob(parts, has_z, has_m),
        GeomView::Polygon(parts) => parts_blob(parts, has_z, has_m),
    }
}

/// The body of a point blob.
pub open spec fn point_blob(x: i64, y: i64, has_z: bool, has_m: bool) -> Seq<u8> {
    leb_encode(stored_coord(x)) + leb_encode(stored_coord(y))
        + (if has_z { leb_encode(1) } else { Seq::empty() })
        + (if has_m { leb_encode(1) } else { Seq::empty() })
}

/// The body of a multipoint blob.
pub open spec fn multipoint_blob(pts: Seq<(i64, i64)>, has_z: bool, has_m: bool) -> Seq<u8> {
    leb_encode(pts.len()) + (if pts.len() == 0 { Seq::empty() } else {
        envelope_blob(pts) + delta_blob(pts, (0, 0))
            + (if has_z { zeros_blob(pts.len()) } else { Seq::empty() })
            + (if has_m { zeros_blob(pts.len()) } else { Seq::empty() })
    })
}

/// The body of a polyline or polygon blob.
pub open spec fn parts_blob(parts: Seq<Seq<(i64, i64)>>, has_z: bool, has_m: bool) -> Seq<u8> {
    let pts = flatten(parts);
    leb_encode(pts.len()) + (if pts.len() == 0 { Seq::empty() } else {
        leb_encode(parts.len()) + parts_tail_blob(parts, has_z, has_m)
    })
}

/// The blob of a polyline or polygon after the point and part counts.
pub open spec fn parts_tail_blob(parts: Seq<Seq<(i64, i64)>>, has_z: bool, has_m: bool) -> Seq<u8> {
    let pts = flatten(parts);
    let n = pts.len();
    envelope_blob(pts) + (counts_blob(parts) + (delta_blob(pts, (0, 0))
        + ((if has_z { zeros_blob(n) } else { Seq::empty() }) + (if has_m { zeros_blob(n) } else { Seq::empty() }))))
}

// ---------------------------------------------------------------------------
// Encoder
// ---------------------------------------------------------------------------

/// Appending a part to a list of parts appends its points.
pub proof fn lemma_flatten_push(parts: Seq<Seq<(i64, i64)>>, p: Seq<(i64, i64)>)
    ensures
        flatten(parts.push(p)) == flatten(parts) + p,
    decreases parts.len(),
{
    if parts.len() == 0 {
        assert(parts.push(p).drop_first() == Seq::<Seq<(i64, i64)>>::empty());
        assert(parts.push(p)[0] == p);
        assert(flatten(Seq::<Seq<(i64, i64)>>::empty()) == Seq::<(i64, i64)>::empty());
        assert(flatten(parts.push(p)) == p + Seq::<(i64, i64)>::empty());
        assert(p + Seq::<(i64, i64)>::empty() == p);
    } else {
        assert(parts.push(p).drop_first() == parts.drop_first().push(p));
        lemma_flatten_push(parts.drop_first(), p);
        assert(flatten(parts.push(p)) == parts[0] + flatten(parts.drop_first().push(p)));
    }
}

/// All points of a list of parts, in order.
fn flatten_parts(parts: &Vec<Vec<(i64, i64)>>) -> (out: Vec<(i64, i64)>)
    ensures
        out@ == flatten(parts_view(parts@)),
{
    let mut out: Vec<(i64, i64)> = Vec::new();
    let mut i: usize = 0;
    while i < parts.len()
        invariant
            i <= parts@.len(),
            out@ == flatten(parts_view(parts@.take(i as int))),
        decreases parts@.len() - i,
    {
        let part = &parts[i];
        let mut j: usize = 0;
        let ghost before = out@;
        while j < part.len()
            invariant
                j <= part@.len(),
                out@ == before + part@.take(j as int),
            decreases part@.len() - j,
        {
            out.push(part[j]);
            assert(part@.take(j + 1) == part@.take(j as int).push(part@[j as int]));
            j = j + 1;
        }
        proof {
            assert(part@.take(j as int) == part@);
            assert(parts@.take(i + 1) == parts@.take(i as int).push(parts@[i as int]));
            assert(parts_view(parts@.take(i + 1)) == parts_view(parts@.take(i as int)).push(part@));
            lemma_flatten_push(parts_view(parts@.take(i as int)), part@);
        }
        i = i + 1;
    }
    assert(parts@.take(i as int) == parts@);
    out
}

/// A copy of a point list.
fn copy_points(v: &Vec<(i64, i64)>) -> (out: Vec<(i64, i64)>)
    ensures
        out@ == v@,
{
    let mut out: Vec<(i64, i64)> = Vec::new();
    let mut i: usize = 0;
    while i < v.len()
        invariant
            i <= v@.len(),
            out@ == v@.take(i as int),
        decreases v@.len() - i,
    {
        out.push(v[i]);
        assert(v@.take(i + 1) == v@.take(i as int).push(v@[i as int]));
        i = i + 1;
    }
    assert(v@.take(i as int) == v@);
    out
}

/// A copy of a list of parts.
fn copy_parts(parts: &Vec<Vec<(i64, i64)>>) -> (out: Vec<Vec<(i64, i64)>>)
    ensures
        parts_view(out@) == parts_view(parts@),
{
    let mut out: Vec<Vec<(i64, i64)>> = Vec::new();
    let mut i: usize = 0;
    while i < parts.len()
        invariant
            i <= parts@.len(),
            parts_view(out@) == parts_view(parts@.take(i as int)),
        decreases parts@.len() - i,
    {
        let p = copy_points(&parts[i]);
        let ghost before = parts_view(out@);
        out.push(p);
        assert(parts_view(out@) =~= before.push(p@));
        assert(parts_view(parts@.take(i + 1)) =~= parts_view(parts@.take(i as int)).push(parts@[i as int]@));
        i = i + 1;
    }
    assert(parts@.take(i as int) =~= parts@);
    out
}

impl Clone for GridMultiPoint {
    fn clone(&self) -> (c: Self)
        ensures
            c.points@ == self.points@,
    {
        GridMultiPoint { points: copy_points(&self.points) }
    }
}

impl Clone for GridPolyline {
    fn clone(&self) -> (c: Self)
        ensures
            parts_view(c.parts@) == parts_view(self.parts@),
    {
        GridPolyline { parts: copy_parts(&self.parts) }
    }
}

impl Clone for GridPolygon {
    fn clone(&self) -> (c: Self)
        ensures
            parts_view(c.rings@) == parts_view(self.rings@),
    {
        GridPolygon { rings: copy_parts(&self.rings) }
    }
}

impl Clone for GridGeometry {
    fn clone(&self) -> (c: Self)
        ensures
            c@ == self@,
    {
        match self {
            GridGeometry::Point(p) => GridGeometry::Point(*p),
            GridGeometry::MultiPoint(m) => GridGeometry::MultiPoint(m.clone()),
            GridGeometry::Polyline(l) => GridGeometry::Polyline(l.clone()),
            GridGeometry::Polygon(g) => GridGeometry::Polygon(g.clone()),
        }
    }
}

impl GridGeometry {
    /// All points of the geometry, part by part.
    pub fn all_points(&self) -> (out: Vec<(i64, i64)>)
        ensures
            out@ == all_points_of(self@),
    {
        match self {
            GridGeometry::Point(p) => {
                let mut v = Vec::new();
                v.push((p.x, p.y));
                assert(v@ == seq![(p.x, p.y)]);
                v
            },
            GridGeometry::MultiPoint(m) => copy_points(&m.points),
            GridGeometry::Polyline(l) => flatten_parts(&l.parts),
            GridGeometry::Polygon(g) => flatten_parts(&g.rings),
        }
    }

    /// The shape code (without Z / M / curve flags).
    pub fn shpt_code(&self) -> (c: u32)
        ensures
            c == shpt_of(self@),
    {
        match self {
            GridGeometry::Point(_) => shpt::POINT,
            GridGeometry::MultiPoint(_) => shpt::MULTIPOINT,
            GridGeometry::Polyline(_) => shpt::ARC,
            GridGeometry::Polygon(_) => shpt::POLYGON,
        }
    }
}

/// The grid envelope `(xmin, ymin, xmax, ymax)` of a point list; all zero when it is empty.
pub fn bbox_grid(pts: &Vec<(i64, i64)>) -> (r: (i64, i64, i64, i64))
    ensures
        pts@.len() == 0 ==> r == (0i64, 0i64, 0i64, 0i64),
        pts@.len() > 0 ==> r == (min_x(pts@), min_y(pts@), max_x(pts@), max_y(pts@)),
{
    if pts.len() == 0 {
        return (0, 0, 0, 0);
    }
    let mut minx = pts[0].0;
    let mut miny = pts[0].1;
    let mut maxx = pts[0].0;
    let mut maxy = pts[0].1;
    let mut i: usize = 1;
    while i < pts.len()
        invariant
            1 <= i <= pts@.len(),
            minx == min_x(pts@.take(i as int)),
            miny == min_y(pts@.take(i as int)),
            maxx == max_x(pts@.take(i as int)),
            maxy == max_y(pts@.take(i as int)),
        decreases pts@.len() - i,
    {
        let (x, y) = pts[i];
        proof {
            let t = pts@.take(i + 1);
            assert(t.drop_last() == pts@.take(i as int));
            assert(t.last() == (x, y));
        }
        if x < minx { minx = x; }
        if y < miny { miny = y; }
        if x > maxx { maxx = x; }
        if y > maxy { maxy = y; }
        i = i + 1;
    }
    assert(pts@.take(i as int) == pts@);
    (minx, miny, maxx, maxy)
}

/// The bit pattern of an `i64` as a `u64`.
fn to_bits_u64(x: i64) -> (r: u64)
    ensures
        r as nat == bits_u64(x),
{
    if x < 0 { (x as i128 + 0x1_0000_0000_0000_0000) as u64 } else { x as u64 }
}

/// The smallest coordinates are at most the largest ones.
pub proof fn lemma_min_le_max(pts: Seq<(i64, i64)>)
    requires
        pts.len() > 0,
    ensures
        min_x(pts) <= max_x(pts),
        min_y(pts) <= max_y(pts),
    decreases pts.len(),
{
    if pts.len() > 1 {
        lemma_min_le_max(pts.drop_last());
    }
}

/// Appends the envelope of a non-empty point list.
fn write_envelope(out: &mut Vec<u8>, pts: &Vec<(i64, i64)>)
    requires
        pts@.len() > 0,
    ensures
        final(out)@ == old(out)@ + envelope_blob(pts@),
{
    let (minx, miny, maxx, maxy) = bbox_grid(pts);
    proof {
        lemma_min_le_max(pts@);
    }
    write_varuint(out, to_bits_u64(minx));
    write_varuint(out, to_bits_u64(miny));
    write_varuint(out, (maxx as i128 - minx as i128) as u64);
    write_varuint(out, (maxy as i128 - miny as i128) as u64);
    assert(out@ == old(out)@ + envelope_blob(pts@));
}

/// Appends the XY deltas of a point list (the first relative to the origin).
fn write_deltas(out: &mut Vec<u8>, pts: &Vec<(i64, i64)>)
    ensures
        final(out)@ == old(out)@ + delta_blob(pts@, (0, 0)),
{
    let mut ax: i64 = 0;
    let mut ay: i64 = 0;
    let mut i: usize = 0;
    assert(pts@.skip(0) == pts@);
    while i < pts.len()
        invariant
            i <= pts@.len(),
            i == 0 ==> ax == 0 && ay == 0,
            i > 0 ==> (ax, ay) == pts@[i - 1],
            out@ + delta_blob(pts@.skip(i as int), (ax, ay)) == old(out)@ + delta_blob(pts@, (0, 0)),
        decreases pts@.len() - i,
    {
        let (gx, gy) = pts[i];
        let ghost before = out@;
        write_varint_esri(out, gx.wrapping_sub(ax));
        write_varint_esri(out, gy.wrapping_sub(ay));
        proof {
            let r = pts@.skip(i as int);
            assert(r[0] == (gx, gy));
            assert(r.drop_first() == pts@.skip(i + 1));
            assert(delta_blob(r, (ax, ay)) == esri_encode(gx.wrapping_sub(ax) as int)
                + esri_encode(gy.wrapping_sub(ay) as int) + delta_blob(pts@.skip(i + 1), (gx, gy)));
        }
        ax = gx;
        ay = gy;
        i = i + 1;
    }
    assert(pts@.skip(i as int) == Seq::<(i64, i64)>::empty());
}

/// Appends `n` zero deltas.
fn write_zeros(out: &mut Vec<u8>, n: usize)
    ensures
        final(out)@ == old(out)@ + zeros_blob(n as nat),
{
    let mut i: usize = 0;
    while i < n
        invariant
            i <= n,
            out@ == old(out)@ + zeros_blob(i as nat),
        decreases n - i,
    {
        write_varint_esri(out, 0);
        assert(esri_encode(0) == seq![0u8]);
        i = i + 1;
        assert(out@ =~= old(out)@ + zeros_blob(i as nat));
    }
}

/// Appends the body of a polyline or polygon (point count, part count, envelope, part
/// sizes, deltas and flat Z / M values).
#[verifier::rlimit(30)]
fn encode_parts(out: &mut Vec<u8>, parts: &Vec<Vec<(i64, i64)>>, has_z: bool, has_m: bool)
    ensures
        final(out)@ == old(out)@ + parts_blob(parts_view(parts@), has_z, has_m),
{
    let pts = flatten_parts(parts);
    let total = pts.len();
    write_varuint(out, total as u64);
    if total == 0 {
        return;
    }
    let ghost pv = parts_view(parts@);
    let ghost after_total = out@;
    write_varuint(out, parts.len() as u64);
    write_envelope(out, &pts);
    proof {
        if pv.len() == 0 {
            assert(flatten(pv) == Seq::<(i64, i64)>::empty());
        }
    }
    let last = parts.len() - 1;
    let ghost before_counts = out@;
    let mut i: usize = 0;
    assert(pv.skip(0) == pv);
    while i < last
        invariant
            i <= last,
            last + 1 == parts@.len(),
            pv == parts_view(parts@),
            out@ + counts_blob(pv.skip(i as int)) == before_counts + counts_blob(pv),
        decreases last - i,
    {
        write_varuint(out, parts[i].len() as u64);
        proof {
            let r = pv.skip(i as int);
            assert(r.len() >= 2);
            assert(r[0] == parts@[i as int]@);
            assert(r.drop_first() == pv.skip(i + 1));
        }
        i = i + 1;
    }
    assert(counts_blob(pv.skip(i as int)) == Seq::<u8>::empty());
    write_deltas(out, &pts);
    if has_z {
        write_zeros(out, total);
    }
    if has_m {
        write_zeros(out, total);
    }
    assert(out@ == old(out)@ + parts_blob(pv, has_z, has_m));
}

/// Appends the body of a point blob.
fn encode_point(out: &mut Vec<u8>, p: &GridPoint, has_z: bool, has_m: bool)
    ensures
        final(out)@ == old(out)@ + point_blob(p.x, p.y, has_z, has_m),
{
    let gx = p.x.wrapping_add(1);
    let gy = p.y.wrapping_add(1);
    write_varuint(out, if gx < 0 { 0 } else { gx as u64 });
    write_varuint(out, if gy < 0 { 0 } else { gy as u64 });
    if has_z {
        write_varuint(out, 1);
    }
    if has_m {
        write_varuint(out, 1);
    }
    assert(out@ == old(out)@ + point_blob(p.x, p.y, has_z, has_m));
}

/// Appends the body of a multipoint blob.
fn encode_multipoint(out: &mut Vec<u8>, pts: &Vec<(i64, i64)>, has_z: bool, has_m: bool)
    ensures
        final(out)@ == old(out)@ + multipoint_blob(pts@, has_z, has_m),
{
    write_varuint(out, pts.len() as u64);
    if pts.len() > 0 {
        write_envelope(out, pts);
        write_deltas(out, pts);
        if has_z {
            write_zeros(out, pts.len());
        }
        if has_m {
            write_zeros(out, pts.len());
        }
    }
    assert(out@ == old(out)@ + multipoint_blob(pts@, has_z, has_m));
}

/// Encodes a geometry as a blob (`varuint gtype` first, no length prefix).
///
/// With `has_z` / `has_m` the flags are set and the Z / M values are written flat
/// (zero deltas, stored value 1 for a point).
pub fn encode_geometry_blob(geom: &GridGeometry, has_z: bool, has_m: bool) -> (out: Vec<u8>)
    ensures
        out@ == geometry_blob(geom@, has_z, has_m),
{
    let mut out: Vec<u8> = Vec::new();
    let mut gtype = geom.shpt_code();
    if has_z {
        gtype = gtype + EXT_SHAPE_Z_FLAG;
    }
    if has_m {
        gtype = gtype + EXT_SHAPE_M_FLAG;
    }
    write_varuint(&mut out, gtype as u64);
    match geom {
        GridGeometry::Point(p) => encode_point(&mut out, p, has_z, has_m),
        GridGeometry::MultiPoint(mp) => encode_multipoint(&mut out, &mp.points, has_z, has_m),
        GridGeometry::Polyline(pl) => encode_parts(&mut out, &pl.parts, has_z, has_m),
        GridGeometry::Polygon(pg) => encode_parts(&mut out, &pg.rings, has_z, has_m),
    }
    assert(out@ == geometry_blob(geom@, has_z, has_m));
    out
}

// ---------------------------------------------------------------------------
// Model of the decoder
// ---------------------------------------------------------------------------

/// The position after `k` unsigned varints starting at `p`.
pub open spec fn skip_varuints_at(s: Seq<u8>, p: nat, k: nat) -> Option<nat>
    decreases k,
{
    if k == 0 {
        Some(p)
    } else {
        match varuint_at(s, p) {
            Some((_, q)) => skip_varuints_at(s, q, (k - 1) as nat),
            None => None,
        }
    }
}

/// The position after `n` ESRI signed varints starting at `p`.
pub open spec fn skip_deltas_at(s: Seq<u8>, p: nat, n: nat) -> Option<nat>
    decreases n,
{
    if n == 0 {
        Some(p)
    } else {
        match esri_at(s, p, 0) {
            Some((_, q)) => skip_deltas_at(s, q, (n - 1) as nat),
            None => None,
        }
    }
}

/// `n` points read as XY delta pairs from `p`, accumulated from `acc`; and the position after.
pub open spec fn points_at(s: Seq<u8>, p: nat, n: nat, acc: (i64, i64)) -> Option<(Seq<(i64, i64)>, nat)>
    decreases n,
{
    if n == 0 {
        Some((Seq::empty(), p))
    } else {
        match esri_at(s, p, acc.0) {
            None => None,
            Some((x, q)) => match esri_at(s, q, acc.1) {
                None => None,
                Some((y, r)) => match points_at(s, r, (n - 1) as nat, (x, y)) {
                    None => None,
                    Some((rest, e)) => Some((seq![(x, y)] + rest, e)),
                },
            },
        }
    }
}

/// `a + b`, saturating at `u64::MAX`.
pub open spec fn sat_add(a: u64, b: u64) -> u64 {
    if a + b > u64::MAX { u64::MAX } else { (a + b) as u64 }
}

/// `k` part sizes read from `p`: the sizes, their (saturating) running sum starting at `sum`,
/// and the position after. A missing size is a format error; a running sum above
/// `n_points` is a geometry error.
pub open spec fn counts_at(s: Seq<u8>, p: nat, k: nat, n_points: u64, sum: u64) -> Result<(Seq<u64>, u64, nat), ErrorKind>
    decreases k,
{
    if k == 0 {
        Ok((Seq::empty(), sum, p))
    } else {
        match varuint_at(s, p) {
            None => Err(ErrorKind::Format),
            Some((c, q)) => {
                let sum2 = sat_add(sum, c);
                if sum2 > n_points {
                    Err(ErrorKind::Geometry)
                } else {
                    match counts_at(s, q, (k - 1) as nat, n_points, sum2) {
                        Err(e) => Err(e),
                        Ok((cs, t, e)) => Ok((seq![c] + cs, t, e)),
                    }
                }
            },
        }
    }
}

/// Splits `pts` from `start` into consecutive parts of the given sizes (`None` when they
/// run past the end).
pub open spec fn split_at_counts(pts: Seq<(i64, i64)>, counts: Seq<u64>, start: nat) -> Option<Seq<Seq<(i64, i64)>>>
    decreases counts.len(),
{
    if counts.len() == 0 {
        Some(Seq::empty())
    } else {
        let end: nat = start + counts[0] as nat;
        if end > pts.len() {
            None
        } else {
            match split_at_counts(pts, counts.drop_first(), end) {
                None => None,
                Some(r) => Some(seq![pts.subrange(start as int, end as int)] + r),
            }
        }
    }
}

/// Skips one varint when `cond` holds.
pub open spec fn skip_if(s: Seq<u8>, p: nat, cond: bool) -> Option<nat> {
    if cond { skip_varuints_at(s, p, 1) } else { Some(p) }
}

/// Skips `n` deltas when `cond` holds.
pub open spec fn skip_deltas_if(s: Seq<u8>, p: nat, n: nat, cond: bool) -> Option<nat> {
    if cond { skip_deltas_at(s, p, n) } else { Some(p) }
}

/// Point shape codes.
pub open spec fn is_point_code(b: u32) -> bool {
    b == 1 || b == 9 || b == 21 || b == 11 || b == 52
}

/// Multipoint shape codes.
pub open spec fn is_multipoint_code(b: u32) -> bool {
    b == 8 || b == 20 || b == 28 || b == 18 || b == 53
}

/// Polyline shape codes.
pub open spec fn is_line_code(b: u32) -> bool {
    b == 3 || b == 10 || b == 23 || b == 13 || b == 50
}

/// Polygon shape codes.
pub open spec fn is_polygon_code(b: u32) -> bool {
    b == 5 || b == 19 || b == 25 || b == 15 || b == 51
}

/// A stored point coordinate (grid value plus one) as a grid value.
pub open spec fn point_coord(v: u64) -> i64 {
    vstd::wrapping::i64_specs::signed_crop(v - 1)
}

/// The body of a point blob from `p`.
pub open spec fn point_body_at(s: Seq<u8>, p: nat, has_z: bool, has_m: bool) -> Result<GeomView, ErrorKind> {
    match varuint_at(s, p) {
        None => Err(ErrorKind::Format),
        Some((x, p1)) => match varuint_at(s, p1) {
            None => Err(ErrorKind::Format),
            Some((y, p2)) => match skip_if(s, p2, has_z) {
                None => Err(ErrorKind::Format),
                Some(p3) => match skip_if(s, p3, has_m) {
                    None => Err(ErrorKind::Format),
                    Some(_) => if x == 0 || y == 0 {
                        Err(ErrorKind::Geometry)
                    } else {
                        Ok(GeomView::Point(point_coord(x), point_coord(y)))
                    },
                },
            },
        },
    }
}

/// The body of a multipoint blob from `p`. The M deltas are skipped only when at least as
/// many bytes as points remain.
pub open spec fn multipoint_body_at(s: Seq<u8>, p: nat, has_z: bool, has_m: bool) -> Result<GeomView, ErrorKind> {
    match varuint_at(s, p) {
        None => Err(ErrorKind::Format),
        Some((n, p1)) => if n == 0 {
            Ok(GeomView::MultiPoint(Seq::empty()))
        } else {
            match skip_varuints_at(s, p1, 4) {
                None => Err(ErrorKind::Format),
                Some(p2) => match points_at(s, p2, n as nat, (0, 0)) {
                    None => Err(ErrorKind::Format),
                    Some((pts, p3)) => match skip_deltas_if(s, p3, n as nat, has_z) {
                        None => Err(ErrorKind::Format),
                        Some(p4) => match skip_deltas_if(s, p4, n as nat, has_m && rest_at(s, p4).len() >= n) {
                            None => Err(ErrorKind::Format),
                            Some(_) => Ok(GeomView::MultiPoint(pts)),
                        },
                    },
                },
            }
        },
    }
}

/// A polyline or polygon with the given parts.
pub open spec fn parts_geom(is_line: bool, parts: Seq<Seq<(i64, i64)>>) -> GeomView {
    if is_line { GeomView::Polyline(parts) } else { GeomView::Polygon(parts) }
}

/// The number of curves, when the blob has curves: a present non-zero count is refused.
pub open spec fn curves_at(s: Seq<u8>, p: nat, has_curve: bool) -> Result<nat, ErrorKind> {
    if has_curve {
        match varuint_at(s, p) {
            None => Err(ErrorKind::Format),
            Some((nc, q)) => if nc > 0 { Err(ErrorKind::Geometry) } else { Ok(q) },
        }
    } else {
        Ok(p)
    }
}

/// The body of a polyline or polygon blob from `p`.
pub open spec fn parts_body_at(s: Seq<u8>, p: nat, has_z: bool, has_m: bool, has_curve: bool, is_line: bool) -> Result<GeomView, ErrorKind> {
    match varuint_at(s, p) {
        None => Err(ErrorKind::Format),
        Some((np, p1)) => if np == 0 {
            Ok(parts_geom(is_line, Seq::empty()))
        } else {
            match varuint_at(s, p1) {
                None => Err(ErrorKind::Format),
                Some((nparts, p2)) => match curves_at(s, p2, has_curve) {
                    Err(e) => Err(e),
                    Ok(p3) => if nparts == 0 {
                        Ok(parts_geom(is_line, Seq::empty()))
                    } else {
                        parts_tail_at(s, p3, np, nparts, has_z, has_m, is_line)
                    },
                },
            }
        },
    }
}

/// The rest of a polyline or polygon body: envelope, part sizes, deltas, Z / M.
#[verifier::opaque]
pub open spec fn parts_tail_at(s: Seq<u8>, p3: nat, np: u64, nparts: u64, has_z: bool, has_m: bool, is_line: bool) -> Result<GeomView, ErrorKind> {
    match skip_varuints_at(s, p3, 4) {
        None => Err(ErrorKind::Format),
        Some(p4) => match counts_at(s, p4, (nparts - 1) as nat, np, 0) {
            Err(e) => Err(e),
            Ok((cs, sum, p5)) => match points_at(s, p5, np as nat, (0, 0)) {
                None => Err(ErrorKind::Format),
                Some((pts, p6)) => match skip_deltas_if(s, p6, np as nat, has_z) {
                    None => Err(ErrorKind::Format),
                    Some(p7) => match skip_deltas_if(s, p7, np as nat, has_m) {
                        None => Err(ErrorKind::Format),
                        Some(_) => match split_at_counts(pts, cs.push((np - sum) as u64), 0) {
                            None => Err(ErrorKind::Geometry),
                            Some(parts) => Ok(parts_geom(is_line, parts)),
                        },
                    },
                },
            },
        },
    }
}

/// The geometry that a blob holds, or the kind of error that decoding it gives.
pub open spec fn decode_geometry_spec(s: Seq<u8>) -> Result<GeomView, ErrorKind> {
    match varuint_at(s, 0) {
        None => Err(ErrorKind::Format),
        Some((g, p)) => {
            let gt = (g % 0x1_0000_0000) as nat;
            let has_z = (gt / 0x8000_0000) % 2 == 1;
            let has_m = (gt / 0x4000_0000) % 2 == 1;
            let has_curve = (gt / 0x2000_0000) % 2 == 1;
            let base = (gt % 256) as u32;
            if is_point_code(base) {
                point_body_at(s, p, has_z, has_m)
            } else if is_multipoint_code(base) {
                multipoint_body_at(s, p, has_z, has_m)
            } else if is_line_code(base) || is_polygon_code(base) {
                parts_body_at(s, p, has_z, has_m, has_curve, is_line_code(base))
            } else {
                Err(ErrorKind::Geometry)
            }
        },
    }
}

// ---------------------------------------------------------------------------
// Decoder
// ---------------------------------------------------------------------------

/// Skips `k` unsigned varints.
fn skip_varuints(r: &mut Reader<'_>, k: usize) -> (res: Result<(), GdbError>)
    ensures
        final(r).buf == old(r).buf,
        match skip_varuints_at(old(r).buf@, old(r).pos as nat, k as nat) {
            Some(q) => res is Ok && final(r).pos == q,
            None => res matches Err(e) && e.kind() == ErrorKind::Format,
        },
{
    let mut i: usize = 0;
    while i < k
        invariant
            i <= k,
            r.buf == old(r).buf,
            skip_varuints_at(old(r).buf@, old(r).pos as nat, k as nat)
                == skip_varuints_at(r.buf@, r.pos as nat, (k - i) as nat),
        decreases k - i,
    {
        match r.varuint() {
            Ok(_) => {},
            Err(e) => return Err(e),
        }
        i = i + 1;
    }
    Ok(())
}

/// Skips the 4-varint envelope (`vxmin, vymin, vdx, vdy`).
fn skip_envelope(r: &mut Reader<'_>) -> (res: Result<(), GdbError>)
    ensures
        final(r).buf == old(r).buf,
        match skip_varuints_at(old(r).buf@, old(r).pos as nat, 4) {
            Some(q) => res is Ok && final(r).pos == q,
            None => res matches Err(e) && e.kind() == ErrorKind::Format,
        },
{
    skip_varuints(r, 4)
}

/// Skips `n` ESRI deltas (a Z or M array).
fn skip_deltas(r: &mut Reader<'_>, n: u64) -> (res: Result<(), GdbError>)
    ensures
        final(r).buf == old(r).buf,
        match skip_deltas_at(old(r).buf@, old(r).pos as nat, n as nat) {
            Some(q) => res is Ok && final(r).pos == q,
            None => res matches Err(e) && e.kind() == ErrorKind::Format,
        },
{
    let mut acc: i64 = 0;
    let mut i: u64 = 0;
    while i < n
        invariant
            i <= n,
            r.buf == old(r).buf,
            skip_deltas_at(old(r).buf@, old(r).pos as nat, n as nat)
                == skip_deltas_at(r.buf@, r.pos as nat, (n - i) as nat),
        decreases n - i,
    {
        acc = match r.varint_esri(acc) {
            Ok(a) => a,
            Err(e) => return Err(e),
        };
        i = i + 1;
    }
    Ok(())
}

/// Reads `n` points as XY delta pairs accumulated from the origin.
fn read_points(r: &mut Reader<'_>, n: u64) -> (res: Result<Vec<(i64, i64)>, GdbError>)
    ensures
        final(r).buf == old(r).buf,
        match points_at(old(r).buf@, old(r).pos as nat, n as nat, (0, 0)) {
            Some((pts, q)) => res matches Ok(v) && v@ == pts && final(r).pos == q,
            None => res matches Err(e) && e.kind() == ErrorKind::Format,
        },
{
    let mut out: Vec<(i64, i64)> = Vec::new();
    let mut ax: i64 = 0;
    let mut ay: i64 = 0;
    let mut i: u64 = 0;
    while i < n
        invariant
            i <= n,
            r.buf == old(r).buf,
            points_at(old(r).buf@, old(r).pos as nat, n as nat, (0, 0)) == match points_at(r.buf@, r.pos as nat, (n - i) as nat, (ax, ay)) {
                Some((rest, e)) => Some((out@ + rest, e)),
                None => None::<(Seq<(i64, i64)>, nat)>,
            },
        decreases n - i,
    {
        let ghost s = r.buf@;
        let ghost p = r.pos as nat;
        let ghost before = out@;
        ax = match r.varint_esri(ax) {
            Ok(a) => a,
            Err(e) => return Err(e),
        };
        ay = match r.varint_esri(ay) {
            Ok(a) => a,
            Err(e) => return Err(e),
        };
        out.push((ax, ay));
        proof {
            match points_at(s, r.pos as nat, (n - i - 1) as nat, (ax, ay)) {
                Some((rest, e)) => {
                    assert(out@ + rest == before + (seq![(ax, ay)] + rest));
                },
                None => {},
            }
        }
        i = i + 1;
    }
    assert(out@ + Seq::<(i64, i64)>::empty() == out@);
    Ok(out)
}

/// Reads `k` part sizes, checking that their running (saturating) sum stays within
/// `n_points`; returns the sizes and their sum.
fn read_counts(r: &mut Reader<'_>, k: u64, n_points: u64) -> (res: Result<(Vec<u64>, u64), GdbError>)
    ensures
        final(r).buf == old(r).buf,
        match counts_at(old(r).buf@, old(r).pos as nat, k as nat, n_points, 0) {
            Ok((cs, sum, q)) => res matches Ok((v, t)) && v@ == cs && t == sum && final(r).pos == q,
            Err(kind) => res matches Err(e) && e.kind() == kind,
        },
{
    let mut out: Vec<u64> = Vec::new();
    let mut sum: u64 = 0;
    let mut i: u64 = 0;
    while i < k
        invariant
            i <= k,
            r.buf == old(r).buf,
            counts_at(old(r).buf@, old(r).pos as nat, k as nat, n_points, 0) == match counts_at(r.buf@, r.pos as nat, (k - i) as nat, n_points, sum) {
                Ok((rest, t, e)) => Ok((out@ + rest, t, e)),
                Err(kind) => Err::<(Seq<u64>, u64, nat), ErrorKind>(kind),
            },
        decreases k - i,
    {
        let ghost s = r.buf@;
        let ghost before = out@;
        let c = match r.varuint() {
            Ok(c) => c,
            Err(e) => return Err(e),
        };
        sum = sum.saturating_add(c);
        if sum > n_points {
            return Err(geometry_error("部件点数之和越界"));
        }
        out.push(c);
        proof {
            match counts_at(s, r.pos as nat, (k - i - 1) as nat, n_points, sum) {
                Ok((rest, t, e)) => {
                    assert(out@ + rest == before + (seq![c] + rest));
                },
                Err(_) => {},
            }
        }
        i = i + 1;
    }
    assert(out@ + Seq::<u64>::empty() == out@);
    Ok((out, sum))
}

/// A copy of `pts[start..end]`.
fn copy_range(pts: &Vec<(i64, i64)>, start: usize, end: usize) -> (out: Vec<(i64, i64)>)
    requires
        start <= end <= pts@.len(),
    ensures
        out@ == pts@.subrange(start as int, end as int),
{
    let mut out: Vec<(i64, i64)> = Vec::new();
    let mut i: usize = start;
    while i < end
        invariant
            start <= i <= end <= pts@.len(),
            out@ == pts@.subrange(start as int, i as int),
        decreases end - i,
    {
        out.push(pts[i]);
        assert(pts@.subrange(start as int, i + 1) == pts@.subrange(start as int, i as int).push(pts@[i as int]));
        i = i + 1;
    }
    out
}

/// Splits `pts` into consecutive parts of the given sizes.
fn split_points(pts: &Vec<(i64, i64)>, counts: &Vec<u64>) -> (res: Option<Vec<Vec<(i64, i64)>>>)
    ensures
        match split_at_counts(pts@, counts@, 0) {
            Some(parts) => res matches Some(v) && parts_view(v@) == parts,
            None => res is None,
        },
{
    let mut out: Vec<Vec<(i64, i64)>> = Vec::new();
    let mut start: usize = 0;
    let mut i: usize = 0;
    assert(counts@.skip(0) == counts@);
    while i < counts.len()
        invariant
            i <= counts@.len(),
            start <= pts@.len(),
            split_at_counts(pts@, counts@, 0) == match split_at_counts(pts@, counts@.skip(i as int), start as nat) {
                Some(rest) => Some(parts_view(out@) + rest),
                None => None::<Seq<Seq<(i64, i64)>>>,
            },
        decreases counts@.len() - i,
    {
        let c = counts[i];
        let ghost before = parts_view(out@);
        proof {
            let r = counts@.skip(i as int);
            assert(r[0] == c);
            assert(r.drop_first() == counts@.skip(i + 1));
        }
        if c > (pts.len() - start) as u64 {
            return None;
        }
        let end = start + c as usize;
        let part = copy_range(pts, start, end);
        out.push(part);
        proof {
            assert(parts_view(out@) == before.push(pts@.subrange(start as int, end as int)));
            match split_at_counts(pts@, counts@.skip(i + 1), end as nat) {
                Some(rest) => {
                    assert(parts_view(out@) + rest == before + (seq![pts@.subrange(start as int, end as int)] + rest));
                },
                None => {},
            }
        }
        start = end;
        i = i + 1;
    }
    assert(counts@.skip(i as int) == Seq::<u64>::empty());
    assert(parts_view(out@) + Seq::<Seq<(i64, i64)>>::empty() == parts_view(out@));
    Some(out)
}

/// Decodes the body of a point blob.
fn decode_point_body(r: &mut Reader<'_>, has_z: bool, has_m: bool) -> (res: Result<GridGeometry, GdbError>)
    ensures
        match point_body_at(old(r).buf@, old(r).pos as nat, has_z, has_m) {
            Ok(g) => res matches Ok(v) && v@ == g,
            Err(kind) => res matches Err(e) && e.kind() == kind,
        },
        point_body_at(old(r).buf@, old(r).pos as nat, has_z, has_m) == Err::<GeomView, ErrorKind>(ErrorKind::Geometry)
            ==> (res matches Err(e) && error_text(e) == "空点几何（存储值 0）"@),
{
    let x = match r.varuint() { Ok(v) => v, Err(e) => return Err(e) };
    let y = match r.varuint() { Ok(v) => v, Err(e) => return Err(e) };
    if has_z {
        match skip_varuints(r, 1) { Ok(()) => {}, Err(e) => return Err(e) }
    }
    if has_m {
        match skip_varuints(r, 1) { Ok(()) => {}, Err(e) => return Err(e) }
    }
    if x == 0 || y == 0 {
        return Err(geometry_error("空点几何（存储值 0）"));
    }
    Ok(GridGeometry::Point(GridPoint { x: crop_i64(x as i128 - 1), y: crop_i64(y as i128 - 1) }))
}

/// Decodes the body of a multipoint blob.
fn decode_multipoint_body(r: &mut Reader<'_>, has_z: bool, has_m: bool) -> (res: Result<GridGeometry, GdbError>)
    ensures
        match multipoint_body_at(old(r).buf@, old(r).pos as nat, has_z, has_m) {
            Ok(g) => res matches Ok(v) && v@ == g,
            Err(kind) => res matches Err(e) && e.kind() == kind,
        },
{
    let n = match r.varuint() { Ok(v) => v, Err(e) => return Err(e) };
    if n == 0 {
        let pts: Vec<(i64, i64)> = Vec::new();
        return Ok(GridGeometry::MultiPoint(GridMultiPoint { points: pts }));
    }
    match skip_envelope(r) { Ok(()) => {}, Err(e) => return Err(e) }
    let pts = match read_points(r, n) { Ok(v) => v, Err(e) => return Err(e) };
    if has_z {
        match skip_deltas(r, n) { Ok(()) => {}, Err(e) => return Err(e) }
    }
    if has_m && r.remaining() as u64 >= n {
        match skip_deltas(r, n) { Ok(()) => {}, Err(e) => return Err(e) }
    }
    Ok(GridGeometry::MultiPoint(GridMultiPoint { points: pts }))
}

/// An empty polyline or polygon.
fn empty_parts(is_line: bool) -> (g: GridGeometry)
    ensures
        g@ == parts_geom(is_line, Seq::empty()),
{
    let parts: Vec<Vec<(i64, i64)>> = Vec::new();
    proof {
        assert(parts_view(parts@) == Seq::<Seq<(i64, i64)>>::empty());
    }
    if is_line {
        GridGeometry::Polyline(GridPolyline { parts })
    } else {
        GridGeometry::Polygon(GridPolygon { rings: parts })
    }
}

/// The running sum of the part sizes stays within the point count.
proof fn lemma_counts_sum_le(s: Seq<u8>, p: nat, k: nat, n_points: u64, sum: u64)
    requires
        sum <= n_points,
    ensures
        counts_at(s, p, k, n_points, sum) matches Ok((_, t, _)) ==> t <= n_points,
    decreases k,
{
    if k > 0 {
        match varuint_at(s, p) {
            Some((c, q)) => {
                let sum2 = sat_add(sum, c);
                if sum2 <= n_points {
                    lemma_counts_sum_le(s, q, (k - 1) as nat, n_points, sum2);
                }
            },
            None => {},
        }
    }
}

/// Decodes the envelope, part sizes, deltas and Z / M arrays of a polyline or polygon.
fn decode_parts_tail(r: &mut Reader<'_>, np: u64, nparts: u64, has_z: bool, has_m: bool, is_line: bool) -> (res: Result<GridGeometry, GdbError>)
    requires
        nparts > 0,
    ensures
        match parts_tail_at(old(r).buf@, old(r).pos as nat, np, nparts, has_z, has_m, is_line) {
            Ok(g) => res matches Ok(v) && v@ == g,
            Err(kind) => res matches Err(e) && e.kind() == kind,
        },
{
    proof {
        reveal(parts_tail_at);
    }
    match skip_envelope(r) { Ok(()) => {}, Err(e) => return Err(e) }
    let ghost p4 = r.pos as nat;
    proof {
        lemma_counts_sum_le(old(r).buf@, p4, (nparts - 1) as nat, np, 0);
    }
    let (mut counts, sum) = match read_counts(r, nparts - 1, np) { Ok(v) => v, Err(e) => return Err(e) };
    let coords = match read_points(r, np) { Ok(v) => v, Err(e) => return Err(e) };
    if has_z {
        match skip_deltas(r, np) { Ok(()) => {}, Err(e) => return Err(e) }
    }
    if has_m {
        match skip_deltas(r, np) { Ok(()) => {}, Err(e) => return Err(e) }
    }
    counts.push(np - sum);
    let parts = match split_points(&coords, &counts) {
        Some(p) => p,
        None => return Err(geometry_error("部件点数越界")),
    };
    if is_line {
        Ok(GridGeometry::Polyline(GridPolyline { parts }))
    } else {
        Ok(GridGeometry::Polygon(GridPolygon { rings: parts }))
    }
}

/// The number of curve segments that a polyline or polygon body at `p` announces, when it
/// has points, parts and a nonzero curve count (which the decoder does not take).
pub open spec fn curve_count_at(s: Seq<u8>, p: nat, has_curve: bool) -> Option<u64> {
    match varuint_at(s, p) {
        Some((np, p1)) => if np == 0 || !has_curve {
            None
        } else {
            match varuint_at(s, p1) {
                Some((_, p2)) => match varuint_at(s, p2) {
                    Some((nc, _)) => if nc > 0 { Some(nc) } else { None },
                    None => None,
                },
                None => None,
            }
        },
        None => None,
    }
}

/// The number of curve segments that a polyline or polygon blob announces, when it is
/// nonzero (see [`curve_count_at`]).
pub open spec fn blob_curve_count(s: Seq<u8>) -> Option<u64> {
    match varuint_at(s, 0) {
        Some((g, p)) => {
            let gt = (g % 0x1_0000_0000) as nat;
            let base = (gt % 256) as u32;
            if !is_point_code(base) && !is_multipoint_code(base) && (is_line_code(base) || is_polygon_code(base)) {
                curve_count_at(s, p, (gt / 0x2000_0000) % 2 == 1)
            } else {
                None
            }
        },
        None => None,
    }
}

/// The message of a blob with curve segments.
pub open spec fn curves_error_text(nc: u64) -> Seq<char> {
    "暂不支持曲线段几何（nCurves="@ + decimal(nc as nat) + "）"@
}

/// Decodes the body of a polyline or polygon blob.
fn decode_parts_body(r: &mut Reader<'_>, has_z: bool, has_m: bool, has_curve: bool, is_line: bool) -> (res: Result<GridGeometry, GdbError>)
    ensures
        match parts_body_at(old(r).buf@, old(r).pos as nat, has_z, has_m, has_curve, is_line) {
            Ok(g) => res matches Ok(v) && v@ == g,
            Err(kind) => res matches Err(e) && e.kind() == kind,
        },
        curve_count_at(old(r).buf@, old(r).pos as nat, has_curve) matches Some(nc)
            ==> (res matches Err(e) && error_text(e) == curves_error_text(nc)),
{
    let np = match r.varuint() { Ok(v) => v, Err(e) => return Err(e) };
    if np == 0 {
        return Ok(empty_parts(is_line));
    }
    let nparts = match r.varuint() { Ok(v) => v, Err(e) => return Err(e) };
    if has_curve {
        let n_curves = match r.varuint() { Ok(v) => v, Err(e) => return Err(e) };
        if n_curves > 0 {
            proof { reveal_strlit("暂不支持曲线段几何（nCurves="); reveal_strlit("）"); }
            let mut msg = to_string("暂不支持曲线段几何（nCurves=");
            push_decimal(&mut msg, n_curves);
            msg.append("）");
            return Err(GdbError::GeometryError(msg));
        }
    }
    if nparts == 0 {
        return Ok(empty_parts(is_line));
    }
    decode_parts_tail(r, np, nparts, has_z, has_m, is_line)
}

/// Why a blob with the base shape code `b` (no point, multipoint, polyline or polygon) is
/// not decoded.
pub open spec fn shape_code_error_text(b: u32) -> Seq<char> {
    if b == 31 || b == 32 || b == 54 {
        "暂不支持多补丁（MultiPatch）几何"@
    } else {
        "不支持的几何形状码 "@ + decimal(b as nat)
    }
}

/// Decodes a geometry blob (starting with `varuint gtype`, no length prefix) into grid units.
pub fn decode_geometry_blob(blob: &[u8]) -> (res: Result<GridGeometry, GdbError>)
    ensures
        match decode_geometry_spec(blob@) {
            Ok(g) => res matches Ok(v) && v@ == g,
            Err(kind) => res matches Err(e) && e.kind() == kind,
        },
        varuint_at(blob@, 0) matches Some((g, _)) ==> {
            let b = (((g % 0x1_0000_0000) as nat) % 256) as u32;
            !is_point_code(b) && !is_multipoint_code(b) && !is_line_code(b) && !is_polygon_code(b)
                ==> (res matches Err(e) && error_text(e) == shape_code_error_text(b))
        },
        blob_curve_count(blob@) matches Some(nc) ==> (res matches Err(e) && error_text(e) == curves_error_text(nc)),
        varuint_at(blob@, 0) matches Some((g, _)) ==> {
            let b = (((g % 0x1_0000_0000) as nat) % 256) as u32;
            is_point_code(b) && decode_geometry_spec(blob@) == Err::<GeomView, ErrorKind>(ErrorKind::Geometry)
                ==> (res matches Err(e) && error_text(e) == "空点几何（存储值 0）"@)
        },
{
    let mut r = Reader::new(blob);
    assert(r.buf@ == blob@);
    let g = match r.varuint() { Ok(v) => v, Err(e) => return Err(e) };
    let gtype = (g % 0x1_0000_0000) as u32;
    let has_z = gtype & EXT_SHAPE_Z_FLAG != 0;
    let has_m = gtype & EXT_SHAPE_M_FLAG != 0;
    let has_curve = gtype & EXT_SHAPE_CURVE_FLAG != 0;
    let base = gtype & 0xff;
    proof {
        assert((gtype & 0x8000_0000 != 0) == ((gtype / 0x8000_0000) % 2 == 1)) by (bit_vector);
        assert((gtype & 0x4000_0000 != 0) == ((gtype / 0x4000_0000) % 2 == 1)) by (bit_vector);
        assert((gtype & 0x2000_0000 != 0) == ((gtype / 0x2000_0000) % 2 == 1)) by (bit_vector);
        assert(gtype & 0xff == gtype % 256) by (bit_vector);
    }
    if base == shpt::POINT || base == shpt::POINTZ || base == shpt::POINTM || base == shpt::POINTZM
        || base == shpt::GENERAL_POINT {
        decode_point_body(&mut r, has_z, has_m)
    } else if base == shpt::MULTIPOINT || base == shpt::MULTIPOINTZ || base == shpt::MULTIPOINTM
        || base == shpt::MULTIPOINTZM || base == shpt::GENERAL_MULTIPOINT {
        decode_multipoint_body(&mut r, has_z, has_m)
    } else if base == shpt::ARC || base == shpt::ARCZ || base == shpt::ARCM || base == shpt::ARCZM
        || base == shpt::GENERAL_POLYLINE {
        decode_parts_body(&mut r, has_z, has_m, has_curve, true)
    } else if base == shpt::POLYGON || base == shpt::POLYGONZ || base == shpt::POLYGONM
        || base == shpt::POLYGONZM || base == shpt::GENERAL_POLYGON {
        decode_parts_body(&mut r, has_z, has_m, has_curve, false)
    } else if base == shpt::MULTIPATCH || base == shpt::MULTIPATCHM || base == shpt::GENERAL_MULTIPATCH {
        Err(geometry_error("暂不支持多补丁（MultiPatch）几何"))
    } else {
        proof { reveal_strlit("不支持的几何形状码 "); }
        let mut msg = to_string("不支持的几何形状码 ");
        push_decimal(&mut msg, base as u64);
        Err(GdbError::GeometryError(msg))
    }
}

} // verus!
