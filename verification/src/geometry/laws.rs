//! What the geometry codec is for, stated over the bytes: which shape codes give which kind
//! of geometry, and what the envelope of an encoded geometry says of its points.
use vstd::prelude::*;
use crate::io::{leb_encode, rest_at, varuint_at};
use crate::geometry::{
    GeomView, geometry_blob, decode_geometry_spec, all_points_of, flatten, envelope_blob,
    parts_blob, parts_tail_blob, parts_tail_at, min_x, max_x, min_y, max_y, bits_u64, shpt_of, lemma_min_le_max,
};
use crate::geometry::roundtrip::{roundtrip_domain, lemma_varuint_peel, lemma_rest_at_zero, lemma_gtype_fields};

verus! {

// ---------------------------------------------------------------------------
// Shape codes and kinds
// ---------------------------------------------------------------------------

/// The base shape code (low byte of the 32-bit type word) of a blob that starts with a
/// readable type word.
pub open spec fn blob_base_code(s: Seq<u8>) -> int {
    ((varuint_at(s, 0)->Some_0.0 as int) % 0x1_0000_0000) % 256
}

/// A blob decodes to the kind of geometry that its shape code names: the point codes 1, 9,
/// 11, 21 and 52 give a point; the multipoint codes 8, 18, 20, 28 and 53 a multipoint; the
/// polyline codes 3, 10, 13, 23 and 50 a polyline; the polygon codes 5, 15, 19, 25 and 51 a
/// polygon. No other code decodes.
pub proof fn law_decoded_kind(s: Seq<u8>)
    ensures
        decode_geometry_spec(s) matches Ok(g) ==> {
            let b = blob_base_code(s);
            &&& (b == 1 || b == 9 || b == 11 || b == 21 || b == 52) <==> g is Point
            &&& (b == 8 || b == 18 || b == 20 || b == 28 || b == 53) <==> g is MultiPoint
            &&& (b == 3 || b == 10 || b == 13 || b == 23 || b == 50) <==> g is Polyline
            &&& (b == 5 || b == 15 || b == 19 || b == 25 || b == 51) <==> g is Polygon
        },
{
    reveal(parts_tail_at);
}

// ---------------------------------------------------------------------------
// The envelope
// ---------------------------------------------------------------------------

/// A 64-bit pattern read as a two's-complement signed integer.
pub open spec fn as_i64(u: u64) -> int {
    if u >= 0x8000_0000_0000_0000 { u - 0x1_0000_0000_0000_0000 } else { u as int }
}

/// The smallest and largest coordinates of a non-empty point list are coordinates of its
/// points, and bound all of them.
proof fn lemma_extremes(pts: Seq<(i64, i64)>)
    requires
        pts.len() > 0,
    ensures
        forall|j: int| 0 <= j < pts.len() ==> min_x(pts) <= #[trigger] pts[j].0 <= max_x(pts) && min_y(pts) <= pts[j].1 <= max_y(pts),
        exists|i: int| 0 <= i < pts.len() && pts[i].0 == min_x(pts),
        exists|i: int| 0 <= i < pts.len() && pts[i].0 == max_x(pts),
        exists|i: int| 0 <= i < pts.len() && pts[i].1 == min_y(pts),
        exists|i: int| 0 <= i < pts.len() && pts[i].1 == max_y(pts),
    decreases pts.len(),
{
    if pts.len() == 1 {
        assert(pts[0].0 == min_x(pts) && pts[0].0 == max_x(pts) && pts[0].1 == min_y(pts) && pts[0].1 == max_y(pts));
    } else {
        let q = pts.drop_last();
        lemma_extremes(q);
        let n = pts.len() - 1;
        assert forall|j: int| 0 <= j < pts.len() implies min_x(pts) <= #[trigger] pts[j].0 <= max_x(pts) && min_y(pts) <= pts[j].1 <= max_y(pts) by {
            if j < n {
                assert(pts[j] == q[j]);
            }
        }
        if pts.last().0 < min_x(q) {
            assert(pts[n].0 == min_x(pts));
        } else {
            let i = choose|i: int| 0 <= i < q.len() && q[i].0 == min_x(q);
            assert(pts[i] == q[i]);
        }
        if pts.last().0 > max_x(q) {
            assert(pts[n].0 == max_x(pts));
        } else {
            let i = choose|i: int| 0 <= i < q.len() && q[i].0 == max_x(q);
            assert(pts[i] == q[i]);
        }
        if pts.last().1 < min_y(q) {
            assert(pts[n].1 == min_y(pts));
        } else {
            let i = choose|i: int| 0 <= i < q.len() && q[i].1 == min_y(q);
            assert(pts[i] == q[i]);
        }
        if pts.last().1 > max_y(q) {
            assert(pts[n].1 == max_y(pts));
        } else {
            let i = choose|i: int| 0 <= i < q.len() && q[i].1 == max_y(q);
            assert(pts[i] == q[i]);
        }
    }
}

/// The bit pattern of an `i64` read back as a signed integer is the `i64`.
proof fn lemma_bits_signed(x: i64)
    ensures
        bits_u64(x) <= u64::MAX,
        as_i64(bits_u64(x) as u64) == x,
{
}

/// The four varints at `e` are the envelope of `pts`.
proof fn lemma_envelope_read(s: Seq<u8>, e: nat, pts: Seq<(i64, i64)>, t: Seq<u8>)
    requires
        pts.len() > 0,
        rest_at(s, e) == envelope_blob(pts) + t,
    ensures
        ({
            let (xmin, q1) = varuint_at(s, e)->Some_0;
            let (ymin, q2) = varuint_at(s, q1)->Some_0;
            let (dx, q3) = varuint_at(s, q2)->Some_0;
            let dy = varuint_at(s, q3)->Some_0.0;
            &&& varuint_at(s, e) is Some && varuint_at(s, q1) is Some
            &&& varuint_at(s, q2) is Some && varuint_at(s, q3) is Some
            &&& as_i64(xmin) == min_x(pts) && as_i64(ymin) == min_y(pts)
            &&& as_i64(xmin) + dx == max_x(pts) && as_i64(ymin) + dy == max_y(pts)
        }),
{
    lemma_min_le_max(pts);
    lemma_bits_signed(min_x(pts));
    lemma_bits_signed(min_y(pts));
    let a = bits_u64(min_x(pts)) as u64;
    let b = bits_u64(min_y(pts)) as u64;
    let c = (max_x(pts) - min_x(pts)) as u64;
    let d = (max_y(pts) - min_y(pts)) as u64;
    let la = leb_encode(a as nat);
    let lb = leb_encode(b as nat);
    let lc = leb_encode(c as nat);
    let ld = leb_encode(d as nat);
    assert(envelope_blob(pts) == la + lb + lc + ld);
    assert(rest_at(s, e) == la + (lb + (lc + (ld + t))));
    lemma_varuint_peel(s, e, a, lb + (lc + (ld + t)));
    lemma_varuint_peel(s, e + la.len(), b, lc + (ld + t));
    lemma_varuint_peel(s, e + la.len() + lb.len(), c, ld + t);
    lemma_varuint_peel(s, e + la.len() + lb.len() + lc.len(), d, t);
}

/// The envelope that the encoder writes into a multipoint, polyline or polygon blob (the
/// four varints after the point count, and after the part count where there is one) holds
/// the smallest X and Y of the points and the width and height that reach their largest X
/// and Y: every point lies inside it, and points lie on each of its four sides.
pub proof fn law_envelope(g: GeomView, has_z: bool, has_m: bool)
    requires
        roundtrip_domain(g),
        !(g is Point),
        all_points_of(g).len() > 0,
    ensures
        ({
            let s = geometry_blob(g, has_z, has_m);
            let pts = all_points_of(g);
            let p1 = varuint_at(s, 0)->Some_0.1;
            let p2 = varuint_at(s, p1)->Some_0.1;
            let e = if g is MultiPoint { p2 } else { varuint_at(s, p2)->Some_0.1 };
            let (xmin, q1) = varuint_at(s, e)->Some_0;
            let (ymin, q2) = varuint_at(s, q1)->Some_0;
            let (dx, q3) = varuint_at(s, q2)->Some_0;
            let dy = varuint_at(s, q3)->Some_0.0;
            &&& varuint_at(s, 0) is Some && varuint_at(s, p1) is Some
            &&& (g is MultiPoint || varuint_at(s, p2) is Some)
            &&& varuint_at(s, e) is Some && varuint_at(s, q1) is Some
            &&& varuint_at(s, q2) is Some && varuint_at(s, q3) is Some
            &&& forall|j: int| 0 <= j < pts.len() ==>
                as_i64(xmin) <= #[trigger] pts[j].0 <= as_i64(xmin) + dx && as_i64(ymin) <= pts[j].1 <= as_i64(ymin) + dy
            &&& exists|i: int| 0 <= i < pts.len() && pts[i].0 == as_i64(xmin)
            &&& exists|i: int| 0 <= i < pts.len() && pts[i].0 == as_i64(xmin) + dx
            &&& exists|i: int| 0 <= i < pts.len() && pts[i].1 == as_i64(ymin)
            &&& exists|i: int| 0 <= i < pts.len() && pts[i].1 == as_i64(ymin) + dy
        }),
{
    let s = geometry_blob(g, has_z, has_m);
    let pts = all_points_of(g);
    let c = shpt_of(g);
    lemma_gtype_fields(c, has_z, has_m);
    let gt: nat = (c as nat) + (if has_z { 0x8000_0000nat } else { 0nat }) + (if has_m { 0x4000_0000nat } else { 0nat });
    lemma_extremes(pts);
    lemma_rest_at_zero(s);
    let n = pts.len();
    match g {
        GeomView::MultiPoint(q) => {
            let zb: Seq<u8> = if has_z { crate::geometry::zeros_blob(n) } else { Seq::empty() };
            let mb: Seq<u8> = if has_m { crate::geometry::zeros_blob(n) } else { Seq::empty() };
            let d = crate::geometry::delta_blob(q, (0, 0));
            let env = envelope_blob(q);
            assert(s == leb_encode(gt) + (leb_encode((n as u64) as nat) + (env + (d + (zb + mb)))));
            lemma_varuint_peel(s, 0, gt as u64, leb_encode((n as u64) as nat) + (env + (d + (zb + mb))));
            let p1 = leb_encode(gt).len();
            lemma_varuint_peel(s, p1, n as u64, env + (d + (zb + mb)));
            let p2 = p1 + leb_encode(n).len();
            lemma_envelope_read(s, p2, q, d + (zb + mb));
        },
        GeomView::Polyline(parts) => {
            lemma_parts_envelope(s, gt, parts, has_z, has_m);
        },
        GeomView::Polygon(parts) => {
            lemma_parts_envelope(s, gt, parts, has_z, has_m);
        },
        GeomView::Point(..) => {},
    }
}

/// The envelope of a polyline or polygon blob follows its type word, point count and part
/// count.
proof fn lemma_parts_envelope(s: Seq<u8>, gt: nat, parts: Seq<Seq<(i64, i64)>>, has_z: bool, has_m: bool)
    requires
        gt <= u64::MAX,
        flatten(parts).len() > 0,
        flatten(parts).len() <= u64::MAX,
        parts.len() <= u64::MAX,
        s == leb_encode(gt) + parts_blob(parts, has_z, has_m),
    ensures
        ({
            let pts = flatten(parts);
            let p1 = varuint_at(s, 0)->Some_0.1;
            let p2 = varuint_at(s, p1)->Some_0.1;
            let e = varuint_at(s, p2)->Some_0.1;
            let (xmin, q1) = varuint_at(s, e)->Some_0;
            let (ymin, q2) = varuint_at(s, q1)->Some_0;
            let (dx, q3) = varuint_at(s, q2)->Some_0;
            let dy = varuint_at(s, q3)->Some_0.0;
            &&& varuint_at(s, 0) is Some && varuint_at(s, p1) is Some && varuint_at(s, p2) is Some
            &&& varuint_at(s, e) is Some && varuint_at(s, q1) is Some
            &&& varuint_at(s, q2) is Some && varuint_at(s, q3) is Some
            &&& as_i64(xmin) == min_x(pts) && as_i64(ymin) == min_y(pts)
            &&& as_i64(xmin) + dx == max_x(pts) && as_i64(ymin) + dy == max_y(pts)
        }),
{
    let pts = flatten(parts);
    let n = pts.len();
    if parts.len() == 0 {
        assert(flatten(parts) == Seq::<(i64, i64)>::empty());
    }
    let k = parts.len();
    let env = envelope_blob(pts);
    let rest = crate::geometry::counts_blob(parts) + (crate::geometry::delta_blob(pts, (0, 0))
        + ((if has_z { crate::geometry::zeros_blob(n) } else { Seq::empty() }) + (if has_m { crate::geometry::zeros_blob(n) } else { Seq::empty() })));
    assert(parts_tail_blob(parts, has_z, has_m) == env + rest);
    assert(parts_blob(parts, has_z, has_m) == leb_encode(n) + (leb_encode(k) + (env + rest)));
    lemma_rest_at_zero(s);
    assert(s == leb_encode((gt as u64) as nat) + (leb_encode((n as u64) as nat) + (leb_encode((k as u64) as nat) + (env + rest))));
    lemma_varuint_peel(s, 0, gt as u64, leb_encode((n as u64) as nat) + (leb_encode((k as u64) as nat) + (env + rest)));
    let p1 = leb_encode(gt).len();
    lemma_varuint_peel(s, p1, n as u64, leb_encode((k as u64) as nat) + (env + rest));
    let p2 = p1 + leb_encode(n).len();
    lemma_varuint_peel(s, p2, k as u64, env + rest);
    let e = p2 + leb_encode(k).len();
    lemma_envelope_read(s, e, pts, rest);
}

} // verus!
