//! The geometry codec's round trip: decoding what the encoder wrote.
use vstd::prelude::*;
use crate::io::{
    leb_encode, esri_encode, rest_at, varuint_at, esri_at, leb_group_len, leb_value, esri_len,
    esri_apply, law_varuint_roundtrip, law_varint_esri_roundtrip,
};
use crate::geometry::{
    GeomView, delta_blob, points_at, zeros_blob, skip_deltas_at, skip_varuints_at, flatten,
    counts_blob, counts_at, split_at_counts, sat_add, lemma_flatten_push, geometry_blob,
    decode_geometry_spec, point_blob, multipoint_blob, parts_blob, point_body_at,
    multipoint_body_at, parts_body_at, parts_tail_at, curves_at, skip_if, skip_deltas_if,
    stored_coord, point_coord, envelope_blob, bits_u64, min_x, min_y, max_x, max_y, shpt_of,
    parts_geom, parts_tail_blob, lemma_min_le_max, is_point_code, is_multipoint_code, is_line_code, is_polygon_code,
};

verus! {

/// Consuming a known prefix of the rest moves the position past it.
pub proof fn lemma_rest_advance(s: Seq<u8>, p: nat, a: Seq<u8>, t: Seq<u8>)
    requires
        rest_at(s, p) == a + t,
    ensures
        rest_at(s, p + a.len()) == t,
{
    if p <= s.len() {
        let r = s.subrange(p as int, s.len() as int);
        assert(r == a + t);
        assert(s.len() == p + a.len() + t.len());
        let q = p + a.len();
        assert(rest_at(s, q) == s.subrange(q as int, s.len() as int));
        assert forall|i: int| 0 <= i < t.len() implies s.subrange(q as int, s.len() as int)[i] == t[i] by {
            assert((a + t)[a.len() + i] == t[i]);
            assert(r[a.len() + i] == s[p + a.len() + i]);
        }
        assert(s.subrange(q as int, s.len() as int) =~= t);
    } else {
        assert(rest_at(s, p) == Seq::<u8>::empty());
        assert((a + t).len() == 0);
        assert(a.len() == 0 && t.len() == 0);
        assert(t =~= Seq::<u8>::empty());
    }
}

/// An unsigned varint at the front of the rest is read back.
pub proof fn lemma_varuint_peel(s: Seq<u8>, p: nat, v: u64, t: Seq<u8>)
    requires
        rest_at(s, p) == leb_encode(v as nat) + t,
    ensures
        varuint_at(s, p) == Some((v, p + leb_encode(v as nat).len())),
        rest_at(s, p + leb_encode(v as nat).len()) == t,
{
    law_varuint_roundtrip(v, t);
    lemma_rest_advance(s, p, leb_encode(v as nat), t);
}

/// An ESRI signed varint at the front of the rest is read back and added to the accumulator.
pub proof fn lemma_esri_peel(s: Seq<u8>, p: nat, d: i64, acc: i64, t: Seq<u8>)
    requires
        rest_at(s, p) == esri_encode(d as int) + t,
    ensures
        esri_at(s, p, acc) == Some((acc.wrapping_add(d), p + esri_encode(d as int).len())),
        rest_at(s, p + esri_encode(d as int).len()) == t,
{
    law_varint_esri_roundtrip(d, acc, t);
    lemma_rest_advance(s, p, esri_encode(d as int), t);
}

/// Adding back a wrapping difference gives the value back.
pub proof fn lemma_wrapping_add_sub(x: i64, a: i64)
    ensures
        a.wrapping_add(x.wrapping_sub(a)) == x,
{
}

/// The XY deltas of a point list decode to that point list.
pub proof fn lemma_points_peel(s: Seq<u8>, p: nat, pts: Seq<(i64, i64)>, acc: (i64, i64), t: Seq<u8>)
    requires
        rest_at(s, p) == delta_blob(pts, acc) + t,
    ensures
        points_at(s, p, pts.len(), acc) == Some((pts, p + delta_blob(pts, acc).len())),
        rest_at(s, p + delta_blob(pts, acc).len()) == t,
    decreases pts.len(),
{
    if pts.len() == 0 {
        assert(delta_blob(pts, acc) == Seq::<u8>::empty());
        assert(pts == Seq::<(i64, i64)>::empty());
        assert(rest_at(s, p) == t);
    } else {
        let (x, y) = pts[0];
        let dx = x.wrapping_sub(acc.0);
        let dy = y.wrapping_sub(acc.1);
        let ex = esri_encode(dx as int);
        let ey = esri_encode(dy as int);
        let tail = delta_blob(pts.drop_first(), pts[0]);
        assert(delta_blob(pts, acc) == ex + ey + tail);
        assert(rest_at(s, p) == ex + (ey + tail + t));
        lemma_esri_peel(s, p, dx, acc.0, ey + tail + t);
        lemma_wrapping_add_sub(x, acc.0);
        assert(rest_at(s, p + ex.len()) == ey + (tail + t));
        lemma_esri_peel(s, p + ex.len(), dy, acc.1, tail + t);
        lemma_wrapping_add_sub(y, acc.1);
        lemma_points_peel(s, p + ex.len() + ey.len(), pts.drop_first(), (x, y), t);
        assert(seq![(x, y)] + pts.drop_first() == pts);
    }
}

/// Flat Z or M values are skipped.
pub proof fn lemma_zeros_peel(s: Seq<u8>, p: nat, n: nat, t: Seq<u8>)
    requires
        rest_at(s, p) == zeros_blob(n) + t,
    ensures
        skip_deltas_at(s, p, n) == Some(p + n),
        rest_at(s, p + n) == t,
    decreases n,
{
    if n == 0 {
        assert(zeros_blob(0) + t == t);
    } else {
        assert(zeros_blob(n) == esri_encode(0) + zeros_blob((n - 1) as nat));
        assert(rest_at(s, p) == esri_encode(0) + (zeros_blob((n - 1) as nat) + t));
        lemma_esri_peel(s, p, 0, 0, zeros_blob((n - 1) as nat) + t);
        lemma_zeros_peel(s, p + 1, (n - 1) as nat, t);
    }
}

/// Four unsigned varints (an envelope) are skipped.
pub proof fn lemma_skip4_peel(s: Seq<u8>, p: nat, a: u64, b: u64, c: u64, d: u64, t: Seq<u8>)
    requires
        rest_at(s, p) == leb_encode(a as nat) + leb_encode(b as nat) + leb_encode(c as nat) + leb_encode(d as nat) + t,
    ensures
        ({
            let n = leb_encode(a as nat).len() + leb_encode(b as nat).len() + leb_encode(c as nat).len() + leb_encode(d as nat).len();
            &&& skip_varuints_at(s, p, 4) == Some(p + n)
            &&& rest_at(s, p + n) == t
        }),
{
    let la = leb_encode(a as nat);
    let lb = leb_encode(b as nat);
    let lc = leb_encode(c as nat);
    let ld = leb_encode(d as nat);
    assert(rest_at(s, p) == la + (lb + lc + ld + t));
    lemma_varuint_peel(s, p, a, lb + lc + ld + t);
    assert(lb + lc + ld + t == lb + (lc + ld + t));
    lemma_varuint_peel(s, p + la.len(), b, lc + ld + t);
    assert(lc + ld + t == lc + (ld + t));
    lemma_varuint_peel(s, p + la.len() + lb.len(), c, ld + t);
    lemma_varuint_peel(s, p + la.len() + lb.len() + lc.len(), d, t);
    reveal_with_fuel(skip_varuints_at, 5);
}

/// The sizes of a list of parts.
pub open spec fn part_sizes(parts: Seq<Seq<(i64, i64)>>) -> Seq<u64> {
    parts.map_values(|q: Seq<(i64, i64)>| q.len() as u64)
}

/// Dropping the first part drops its points from the front.
pub proof fn lemma_flatten_drop_last_first(parts: Seq<Seq<(i64, i64)>>)
    requires
        parts.len() >= 2,
    ensures
        flatten(parts.drop_last()) == parts[0] + flatten(parts.drop_first().drop_last()),
{
    assert(parts.drop_last().drop_first() == parts.drop_first().drop_last());
    assert(parts.drop_last()[0] == parts[0]);
}

/// The part sizes written by the encoder are read back, with their running sum.
pub proof fn lemma_counts_peel(s: Seq<u8>, p: nat, parts: Seq<Seq<(i64, i64)>>, np: u64, sum: u64, t: Seq<u8>)
    requires
        parts.len() >= 1,
        rest_at(s, p) == counts_blob(parts) + t,
        sum + flatten(parts.drop_last()).len() <= np,
    ensures
        counts_at(s, p, (parts.len() - 1) as nat, np, sum) == Ok::<(Seq<u64>, u64, nat), crate::error::ErrorKind>((
            part_sizes(parts).drop_last(),
            (sum + flatten(parts.drop_last()).len()) as u64,
            p + counts_blob(parts).len(),
        )),
        rest_at(s, p + counts_blob(parts).len()) == t,
    decreases parts.len(),
{
    if parts.len() == 1 {
        assert(parts.drop_last() == Seq::<Seq<(i64, i64)>>::empty());
        assert(counts_blob(parts) == Seq::<u8>::empty());
        assert(part_sizes(parts).drop_last() =~= Seq::<u64>::empty());
        assert(counts_blob(parts) + t == t);
    } else {
        lemma_flatten_drop_last_first(parts);
        let c = parts[0].len();
        assert(c <= flatten(parts.drop_last()).len());
        let tail = parts.drop_first();
        assert(counts_blob(parts) == leb_encode(c) + counts_blob(tail));
        assert(rest_at(s, p) == leb_encode((c as u64) as nat) + (counts_blob(tail) + t));
        lemma_varuint_peel(s, p, c as u64, counts_blob(tail) + t);
        let sum2 = sat_add(sum, c as u64);
        assert(sum2 == sum + c);
        lemma_counts_peel(s, p + leb_encode(c).len(), tail, np, sum2, t);
        assert(part_sizes(parts).drop_last() =~= seq![c as u64] + part_sizes(tail).drop_last());
    }
}

/// Splitting the points of a list of parts by the part sizes gives the parts back.
pub proof fn lemma_split_flatten(pts: Seq<(i64, i64)>, parts: Seq<Seq<(i64, i64)>>, start: nat)
    requires
        start + flatten(parts).len() <= pts.len(),
        pts.subrange(start as int, (start + flatten(parts).len()) as int) == flatten(parts),
        flatten(parts).len() <= u64::MAX,
    ensures
        split_at_counts(pts, part_sizes(parts), start) == Some(parts),
    decreases parts.len(),
{
    if parts.len() == 0 {
        assert(part_sizes(parts) =~= Seq::<u64>::empty());
    } else {
        let c = parts[0].len();
        let tail = parts.drop_first();
        assert(flatten(parts) == parts[0] + flatten(tail));
        assert(part_sizes(parts)[0] == c as u64);
        assert(part_sizes(parts).drop_first() =~= part_sizes(tail));
        assert(pts.subrange(start as int, (start + c) as int) =~= parts[0]) by {
            assert forall|i: int| 0 <= i < c implies pts.subrange(start as int, (start + c) as int)[i] == parts[0][i] by {
                assert(pts.subrange(start as int, (start + flatten(parts).len()) as int)[i] == flatten(parts)[i]);
            }
        }
        assert(pts.subrange((start + c) as int, (start + c + flatten(tail).len()) as int) =~= flatten(tail)) by {
            assert forall|i: int| 0 <= i < flatten(tail).len() implies pts.subrange((start + c) as int, (start + c + flatten(tail).len()) as int)[i] == flatten(tail)[i] by {
                assert(pts.subrange(start as int, (start + flatten(parts).len()) as int)[c + i] == flatten(parts)[c + i]);
            }
        }
        lemma_split_flatten(pts, tail, start + c);
        assert(seq![parts[0]] + tail == parts);
    }
}

/// The normal form that decoding gives back: a polyline or polygon without points has no
/// parts.
pub open spec fn canonical_geometry(g: GeomView) -> GeomView {
    match g {
        GeomView::Polyline(p) => if flatten(p).len() == 0 { GeomView::Polyline(Seq::empty()) } else { g },
        GeomView::Polygon(p) => if flatten(p).len() == 0 { GeomView::Polygon(Seq::empty()) } else { g },
        _ => g,
    }
}

/// The geometries that the encoder writes in a way the decoder reads back: point
/// coordinates from 0 to `i64::MAX - 1` (the stored value is the grid value plus one, and
/// 0 means "empty"), and counts that fit in 64 bits.
pub open spec fn roundtrip_domain(g: GeomView) -> bool {
    match g {
        GeomView::Point(x, y) => 0 <= x < i64::MAX && 0 <= y < i64::MAX,
        GeomView::MultiPoint(pts) => pts.len() <= u64::MAX,
        GeomView::Polyline(p) => flatten(p).len() <= u64::MAX && p.len() <= u64::MAX,
        GeomView::Polygon(p) => flatten(p).len() <= u64::MAX && p.len() <= u64::MAX,
    }
}

/// The type word of an encoded geometry decodes to its shape code and flags.
pub proof fn lemma_gtype_fields(c: u32, has_z: bool, has_m: bool)
    requires
        c == 1 || c == 3 || c == 5 || c == 8,
    ensures
        ({
            let g: nat = (c as nat) + (if has_z { 0x8000_0000nat } else { 0nat }) + (if has_m { 0x4000_0000nat } else { 0nat });
            &&& g <= u64::MAX
            &&& (g % 0x1_0000_0000) == g
            &&& ((g / 0x8000_0000) % 2 == 1) == has_z
            &&& ((g / 0x4000_0000) % 2 == 1) == has_m
            &&& (g / 0x2000_0000) % 2 == 0
            &&& g % 256 == c
        }),
{
}

/// A point coordinate within the domain is stored as the grid value plus one and read back.
pub proof fn lemma_point_coord(x: i64)
    requires
        0 <= x < i64::MAX,
    ensures
        stored_coord(x) == x + 1,
        point_coord((x + 1) as u64) == x,
{
}

/// Rest of a sequence from its start is the whole sequence.
pub proof fn lemma_rest_at_zero(s: Seq<u8>)
    ensures
        rest_at(s, 0) == s,
{
    assert(s.subrange(0, s.len() as int) == s);
}

/// The envelope written by the encoder is four varints.
pub proof fn lemma_envelope_peel(s: Seq<u8>, p: nat, pts: Seq<(i64, i64)>, t: Seq<u8>)
    requires
        pts.len() > 0,
        rest_at(s, p) == envelope_blob(pts) + t,
    ensures
        skip_varuints_at(s, p, 4) == Some(p + envelope_blob(pts).len()),
        rest_at(s, p + envelope_blob(pts).len()) == t,
{
    lemma_min_le_max(pts);
    let a = bits_u64(min_x(pts)) as u64;
    let b = bits_u64(min_y(pts)) as u64;
    let c = (max_x(pts) - min_x(pts)) as u64;
    let d = (max_y(pts) - min_y(pts)) as u64;
    assert(envelope_blob(pts) == leb_encode(a as nat) + leb_encode(b as nat) + leb_encode(c as nat) + leb_encode(d as nat));
    lemma_skip4_peel(s, p, a, b, c, d, t);
}

/// Decoding an encoded point body gives the point back.
#[verifier::rlimit(40)]
pub proof fn lemma_point_body(s: Seq<u8>, p: nat, x: i64, y: i64, has_z: bool, has_m: bool)
    requires
        0 <= x < i64::MAX,
        0 <= y < i64::MAX,
        rest_at(s, p) == point_blob(x, y, has_z, has_m),
    ensures
        point_body_at(s, p, has_z, has_m) == Ok::<GeomView, crate::error::ErrorKind>(GeomView::Point(x, y)),
{
    lemma_point_coord(x);
    lemma_point_coord(y);
    let sx = (x + 1) as u64;
    let sy = (y + 1) as u64;
    let zb: Seq<u8> = if has_z { leb_encode(1) } else { Seq::empty() };
    let mb: Seq<u8> = if has_m { leb_encode(1) } else { Seq::empty() };
    assert(rest_at(s, p) == leb_encode(sx as nat) + (leb_encode(sy as nat) + zb + mb));
    lemma_varuint_peel(s, p, sx, leb_encode(sy as nat) + zb + mb);
    let p1 = p + leb_encode(sx as nat).len();
    assert(leb_encode(sy as nat) + zb + mb == leb_encode(sy as nat) + (zb + mb));
    lemma_varuint_peel(s, p1, sy, zb + mb);
    let p2 = p1 + leb_encode(sy as nat).len();
    let p3 = p2 + zb.len();
    if has_z {
        lemma_varuint_peel(s, p2, 1, mb);
        reveal_with_fuel(skip_varuints_at, 2);
    } else {
        assert(zb + mb == mb);
    }
    assert(rest_at(s, p3) == mb);
    if has_m {
        assert(mb == leb_encode(1) + Seq::<u8>::empty());
        lemma_varuint_peel(s, p3, 1, Seq::<u8>::empty());
        reveal_with_fuel(skip_varuints_at, 2);
    }
}

/// Decoding an encoded multipoint body gives the points back.
pub proof fn lemma_multipoint_body(s: Seq<u8>, p: nat, pts: Seq<(i64, i64)>, has_z: bool, has_m: bool)
    requires
        pts.len() <= u64::MAX,
        rest_at(s, p) == multipoint_blob(pts, has_z, has_m),
    ensures
        multipoint_body_at(s, p, has_z, has_m) == Ok::<GeomView, crate::error::ErrorKind>(GeomView::MultiPoint(pts)),
{
    let n = pts.len();
    if n == 0 {
        assert(multipoint_blob(pts, has_z, has_m) == leb_encode(0) + Seq::<u8>::empty());
        lemma_varuint_peel(s, p, 0, Seq::<u8>::empty());
        assert(pts == Seq::<(i64, i64)>::empty());
    } else {
        let env = envelope_blob(pts);
        let d = delta_blob(pts, (0, 0));
        let zb: Seq<u8> = if has_z { zeros_blob(n) } else { Seq::empty() };
        let mb: Seq<u8> = if has_m { zeros_blob(n) } else { Seq::empty() };
        assert(rest_at(s, p) == leb_encode((n as u64) as nat) + (env + (d + (zb + mb))));
        lemma_varuint_peel(s, p, n as u64, env + (d + (zb + mb)));
        let p1 = p + leb_encode(n).len();
        lemma_envelope_peel(s, p1, pts, d + (zb + mb));
        let p2 = p1 + env.len();
        lemma_points_peel(s, p2, pts, (0, 0), zb + mb);
        let p3 = p2 + d.len();
        if has_z {
            lemma_zeros_peel(s, p3, n, mb);
        } else {
            assert(zb + mb == mb);
        }
        let p4 = p3 + zb.len();
        assert(rest_at(s, p4) == mb);
        if has_m {
            assert(mb == zeros_blob(n) + Seq::<u8>::empty());
            lemma_zeros_peel(s, p4, n, Seq::<u8>::empty());
        }
    }
}

/// Decoding the envelope, part sizes, deltas and Z / M arrays gives the parts back.
#[verifier::rlimit(40)]
pub proof fn lemma_parts_tail(s: Seq<u8>, p3: nat, parts: Seq<Seq<(i64, i64)>>, has_z: bool, has_m: bool, is_line: bool)
    requires
        flatten(parts).len() <= u64::MAX,
        flatten(parts).len() > 0,
        parts.len() <= u64::MAX,
        rest_at(s, p3) == parts_tail_blob(parts, has_z, has_m),
    ensures
        parts_tail_at(s, p3, flatten(parts).len() as u64, parts.len() as u64, has_z, has_m, is_line)
            == Ok::<GeomView, crate::error::ErrorKind>(parts_geom(is_line, parts)),
{
    reveal(parts_tail_at);
    let pts = flatten(parts);
    let n = pts.len();
    if parts.len() == 0 {
        assert(flatten(parts) == Seq::<(i64, i64)>::empty());
    }
    let np = n as u64;
    let env = envelope_blob(pts);
    let cb = counts_blob(parts);
    let d = delta_blob(pts, (0, 0));
    let zb: Seq<u8> = if has_z { zeros_blob(n) } else { Seq::empty() };
    let mb: Seq<u8> = if has_m { zeros_blob(n) } else { Seq::empty() };
    lemma_envelope_peel(s, p3, pts, cb + (d + (zb + mb)));
    let p4 = p3 + env.len();
    lemma_flatten_push(parts.drop_last(), parts.last());
    assert(parts.drop_last().push(parts.last()) == parts);
    lemma_counts_peel(s, p4, parts, np, 0, d + (zb + mb));
    let sum = flatten(parts.drop_last()).len();
    let p5 = p4 + cb.len();
    lemma_points_peel(s, p5, pts, (0, 0), zb + mb);
    let p6 = p5 + d.len();
    if has_z {
        lemma_zeros_peel(s, p6, n, mb);
    } else {
        assert(zb + mb == mb);
    }
    let p7 = p6 + zb.len();
    assert(rest_at(s, p7) == mb);
    if has_m {
        assert(mb == zeros_blob(n) + Seq::<u8>::empty());
        lemma_zeros_peel(s, p7, n, Seq::<u8>::empty());
    }
    assert(part_sizes(parts).drop_last().push((np - sum) as u64) =~= part_sizes(parts));
    assert(pts.subrange(0, n as int) == pts);
    lemma_split_flatten(pts, parts, 0);
}

/// Decoding an encoded polyline or polygon body gives the parts back (no parts when there
/// are no points).
pub proof fn lemma_parts_body(s: Seq<u8>, p: nat, parts: Seq<Seq<(i64, i64)>>, has_z: bool, has_m: bool, is_line: bool)
    requires
        flatten(parts).len() <= u64::MAX,
        parts.len() <= u64::MAX,
        rest_at(s, p) == parts_blob(parts, has_z, has_m),
    ensures
        parts_body_at(s, p, has_z, has_m, false, is_line) == Ok::<GeomView, crate::error::ErrorKind>(
            if flatten(parts).len() == 0 { parts_geom(is_line, Seq::empty()) } else { parts_geom(is_line, parts) }),
{
    let pts = flatten(parts);
    let n = pts.len();
    if n == 0 {
        assert(parts_blob(parts, has_z, has_m) == leb_encode(0) + Seq::<u8>::empty());
        lemma_varuint_peel(s, p, 0, Seq::<u8>::empty());
    } else {
        if parts.len() == 0 {
            assert(flatten(parts) == Seq::<(i64, i64)>::empty());
        }
        let k = parts.len();
        let tail = parts_tail_blob(parts, has_z, has_m);
        assert(parts_blob(parts, has_z, has_m) == leb_encode(n) + (leb_encode(k) + tail));
        lemma_varuint_peel(s, p, n as u64, leb_encode((k as u64) as nat) + tail);
        let p1 = p + leb_encode(n).len();
        lemma_varuint_peel(s, p1, k as u64, tail);
        let p3 = p1 + leb_encode(k).len();
        assert(curves_at(s, p3, false) == Ok::<nat, crate::error::ErrorKind>(p3));
        lemma_parts_tail(s, p3, parts, has_z, has_m, is_line);
    }
}

/// Decoding what [`crate::geometry::encode_geometry_blob`] wrote gives the geometry back,
/// for point coordinates from 0 to `i64::MAX - 1` and counts that fit in 64 bits; a
/// polyline or polygon without points comes back without parts.
#[verifier::rlimit(40)]
pub proof fn law_geometry_roundtrip(g: GeomView, has_z: bool, has_m: bool)
    requires
        roundtrip_domain(g),
    ensures
        decode_geometry_spec(geometry_blob(g, has_z, has_m)) == Ok::<GeomView, crate::error::ErrorKind>(canonical_geometry(g)),
{
    let s = geometry_blob(g, has_z, has_m);
    let c = shpt_of(g);
    lemma_gtype_fields(c, has_z, has_m);
    let gt: nat = (c as nat) + (if has_z { 0x8000_0000nat } else { 0nat }) + (if has_m { 0x4000_0000nat } else { 0nat });
    let body: Seq<u8> = match g {
        GeomView::Point(x, y) => point_blob(x, y, has_z, has_m),
        GeomView::MultiPoint(pts) => multipoint_blob(pts, has_z, has_m),
        GeomView::Polyline(parts) => parts_blob(parts, has_z, has_m),
        GeomView::Polygon(parts) => parts_blob(parts, has_z, has_m),
    };
    assert(s == leb_encode(gt) + body);
    lemma_rest_at_zero(s);
    lemma_varuint_peel(s, 0, gt as u64, body);
    let p = leb_encode(gt).len();
    match g {
        GeomView::Point(x, y) => {
            lemma_point_body(s, p, x, y, has_z, has_m);
        },
        GeomView::MultiPoint(pts) => {
            lemma_multipoint_body(s, p, pts, has_z, has_m);
        },
        GeomView::Polyline(parts) => {
            lemma_parts_body(s, p, parts, has_z, has_m, true);
        },
        GeomView::Polygon(parts) => {
            lemma_parts_body(s, p, parts, has_z, has_m, false);
        },
    }
}

} // verus!
