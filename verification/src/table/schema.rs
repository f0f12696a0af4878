//! The field description section of a `.gdbtable`:
//!
//! ```text
//! [u32 section length][u32 version][u32 layer flags][u16 field count][field descriptions]
//! ```
//! The low byte of the layer flags is the geometry type; bit 8 marks UTF-8 text, bit 31 Z
//! and bit 30 M. A field description is its name and alias (a count of UTF-16 code units
//! and the units), its type byte and properties that depend on the type.
use vstd::prelude::*;
use vstd::utf8::encode_utf8;
use crate::io::{
    le_bytes, leb_encode, units_le, utf16_units, write_le, write_varuint, encode_utf16, rest_at,
    varuint_at, le_value, to_signed, le_units, utf16_text, utf8_text, Reader, utf8_to_string,
    decode_utf16, units_from_le_bytes, lemma_pow_values, pow256, out_of_bounds_error,
};
use crate::error::{GdbError, ErrorKind, format_error, error_text};
use crate::field::{
    FieldDef, FieldType, TableSchema, GeometryType, FieldDefView, GridView, flags_of, fixed_size_of,
    field_type_code, field_type_of, geometry_type_code, geometry_type_of, new_field_view, default_grid,
};
use crate::value::{FieldValue, ValueView};
use crate::table::rows::{twos, zeros, prefixed, append_bytes};

verus! {

// ---------------------------------------------------------------------------
// Model of the written bytes
// ---------------------------------------------------------------------------

/// The UTF-16LE bytes of text.
pub open spec fn utf16_bytes(s: Seq<char>) -> Seq<u8> {
    units_le(utf16_units(s))
}

/// A name or alias: its number of UTF-16 code units (one byte, so modulo 256) and the units.
pub open spec fn counted_utf16(s: Seq<char>) -> Seq<u8> {
    seq![(utf16_units(s).len() % 256) as u8] + utf16_bytes(s)
}

/// The 8 little-endian bytes of a float64 bit pattern.
pub open spec fn f64_bytes(b: u64) -> Seq<u8> {
    le_bytes(b as nat, 8)
}

/// `b` when `c` holds, nothing otherwise.
pub open spec fn when(c: bool, b: Seq<u8>) -> Seq<u8> {
    if c { b } else { Seq::empty() }
}

/// The float64 words, in order.
pub open spec fn words_bytes(ws: Seq<u64>) -> Seq<u8>
    decreases ws.len(),
{
    if ws.len() == 0 { Seq::empty() } else { words_bytes(ws.drop_last()) + f64_bytes(ws.last()) }
}

/// The stored default of a numeric or date field.
pub open spec fn fixed_default_bytes(v: ValueView) -> Seq<u8> {
    match v {
        ValueView::Int16(x) => le_bytes(twos(x as int, 0x1_0000), 2),
        ValueView::Int32(x) => le_bytes(twos(x as int, 0x1_0000_0000), 4),
        ValueView::Float(b) => le_bytes(b as nat, 4),
        ValueView::Double(b) => le_bytes(b as nat, 8),
        ValueView::Int64(x) => le_bytes(twos(x as int, 0x1_0000_0000_0000_0000), 8),
        ValueView::DateTime(b) => le_bytes(b as nat, 8),
        _ => Seq::empty(),
    }
}

/// The default of a text field: its UTF-8 bytes with their count, when the field is
/// editable and its default is text; else a zero count.
pub open spec fn string_default_bytes(f: FieldDef) -> Seq<u8> {
    match f.default {
        Some(FieldValue::Text(s)) => if f.editable { prefixed(encode_utf8(s@)) } else { seq![0u8] },
        _ => seq![0u8],
    }
}

/// The default of a numeric or date field: its byte count (one byte) and its bytes, when
/// the field is editable and has a default; else a zero count.
pub open spec fn numeric_default_bytes(f: FieldDef) -> Seq<u8> {
    match f.default {
        Some(v) => if f.editable {
            seq![(fixed_default_bytes(v@).len() % 256) as u8] + fixed_default_bytes(v@)
        } else {
            seq![0u8]
        },
        None => seq![0u8],
    }
}

/// The grid origins, scales and tolerances, with the M and Z groups when present.
pub open spec fn grid_params_bytes(g: GridView, m: bool, z: bool) -> Seq<u8> {
    f64_bytes(g.xorig) + f64_bytes(g.yorig) + f64_bytes(g.xyscale)
        + when(m, f64_bytes(g.morig) + f64_bytes(g.mscale))
        + when(z, f64_bytes(g.zorig) + f64_bytes(g.zscale))
        + f64_bytes(g.xytol) + when(m, f64_bytes(g.mtol)) + when(z, f64_bytes(g.ztol))
}

/// The extent, then zero Z and M ranges when present, a zero byte, and the spatial index
/// grid sizes with their count.
pub open spec fn grid_tail_bytes(g: GridView, m: bool, z: bool) -> Seq<u8> {
    f64_bytes(g.extent.0) + f64_bytes(g.extent.1) + f64_bytes(g.extent.2) + f64_bytes(g.extent.3)
        + when(z, zeros(16)) + when(m, zeros(16))
        + seq![0u8] + le_bytes(g.grid_sizes.len(), 4) + words_bytes(g.grid_sizes)
}

/// The properties of a geometry field in a table with the given Z / M flags.
pub open spec fn geometry_field_bytes(f: FieldDef, has_z: bool, has_m: bool) -> Seq<u8> {
    let m = f.geom_has_m || has_m;
    let z = f.geom_has_z || has_z;
    let wkt = utf16_bytes(f.srs_wkt@);
    let gflags = (1 + (if m { 2nat } else { 0nat }) + (if z { 4nat } else { 0nat })) as u8;
    seq![0u8, flags_of(f.nullable, f.required, f.editable)] + le_bytes(wkt.len(), 2) + wkt + seq![gflags]
        + grid_params_bytes(f.grid@, m, z) + grid_tail_bytes(f.grid@, m, z)
}

/// The description of a field in a table with the given Z / M flags.
pub open spec fn field_def_bytes(f: FieldDef, has_z: bool, has_m: bool) -> Seq<u8> {
    let flags = flags_of(f.nullable, f.required, f.editable);
    counted_utf16(f.name@) + counted_utf16(f.alias@) + seq![field_type_code(f.field_type)] + match f.field_type {
        FieldType::String => le_bytes(twos(f.length as int, 0x1_0000_0000), 4) + seq![flags] + string_default_bytes(f),
        FieldType::Geometry => geometry_field_bytes(f, has_z, has_m),
        FieldType::ObjectId => seq![4u8, flags],
        FieldType::Uuid => seq![0x26u8, flags],
        FieldType::Binary | FieldType::Raster | FieldType::Xml => seq![0u8, flags],
        _ => seq![fixed_size_of(f.field_type) as u8, flags] + numeric_default_bytes(f),
    }
}

// ---------------------------------------------------------------------------
// Writer
// ---------------------------------------------------------------------------

/// Appends a count of UTF-16 code units (one byte) and the units of a text.
fn write_counted_utf16(out: &mut Vec<u8>, s: &String)
    ensures
        final(out)@ == old(out)@ + counted_utf16(s@),
{
    let b = encode_utf16(s.as_str());
    out.push(((b.len() / 2) % 256) as u8);
    append_bytes(out, b.as_slice());
    assert(out@ =~= old(out)@ + counted_utf16(s@));
}

/// Appends the float64 words.
fn write_words(out: &mut Vec<u8>, ws: &Vec<u64>)
    ensures
        final(out)@ == old(out)@ + words_bytes(ws@),
{
    let mut i: usize = 0;
    while i < ws.len()
        invariant
            i <= ws@.len(),
            out@ == old(out)@ + words_bytes(ws@.take(i as int)),
        decreases ws@.len() - i,
    {
        write_le(out, ws[i], 8);
        proof {
            assert(ws@.take(i + 1).drop_last() =~= ws@.take(i as int));
        }
        i = i + 1;
        assert(out@ =~= old(out)@ + words_bytes(ws@.take(i as int)));
    }
    assert(ws@.take(i as int) =~= ws@);
}

/// The stored bytes of a numeric or date default.
fn encode_fixed_default(v: &FieldValue) -> (b: Vec<u8>)
    ensures
        b@ == fixed_default_bytes(v@),
{
    let mut b: Vec<u8> = Vec::new();
    match v {
        FieldValue::Int16(x) => {
            let u: u64 = if *x >= 0 { *x as u64 } else { (*x as i64 + 0x1_0000) as u64 };
            write_le(&mut b, u, 2);
        },
        FieldValue::Int32(x) => {
            let u: u64 = if *x >= 0 { *x as u64 } else { (*x as i64 + 0x1_0000_0000) as u64 };
            write_le(&mut b, u, 4);
        },
        FieldValue::Float(x) => write_le(&mut b, *x as u64, 4),
        FieldValue::Double(x) => write_le(&mut b, *x, 8),
        FieldValue::Int64(x) => {
            let u: u64 = if *x >= 0 { *x as u64 } else { (*x as i128 + 0x1_0000_0000_0000_0000) as u64 };
            write_le(&mut b, u, 8);
        },
        FieldValue::DateTime(x) => write_le(&mut b, *x, 8),
        _ => {},
    }
    assert(b@ =~= fixed_default_bytes(v@));
    b
}

/// `n` zero bytes are the little-endian bytes of 0.
pub proof fn lemma_le_bytes_zero(n: nat)
    ensures
        le_bytes(0, n) == zeros(n),
    decreases n,
{
    if n > 0 {
        lemma_le_bytes_zero((n - 1) as nat);
        assert(zeros(n) =~= seq![0u8] + zeros((n - 1) as nat));
    }
}

/// Appends the grid origins, scales and tolerances.
fn write_grid_params(out: &mut Vec<u8>, g: &crate::field::PrecisionGrid, has_m: bool, has_z: bool)
    ensures
        final(out)@ == old(out)@ + grid_params_bytes(g@, has_m, has_z),
{
    write_le(out, g.xorig, 8);
    write_le(out, g.yorig, 8);
    write_le(out, g.xyscale, 8);
    let ghost a = out@;
    if has_m {
        write_le(out, g.morig, 8);
        write_le(out, g.mscale, 8);
    }
    assert(out@ =~= a + when(has_m, f64_bytes(g.morig) + f64_bytes(g.mscale)));
    let ghost b = out@;
    if has_z {
        write_le(out, g.zorig, 8);
        write_le(out, g.zscale, 8);
    }
    assert(out@ =~= b + when(has_z, f64_bytes(g.zorig) + f64_bytes(g.zscale)));
    write_le(out, g.xytol, 8);
    let ghost c = out@;
    if has_m {
        write_le(out, g.mtol, 8);
    }
    assert(out@ =~= c + when(has_m, f64_bytes(g.mtol)));
    let ghost d = out@;
    if has_z {
        write_le(out, g.ztol, 8);
    }
    assert(out@ =~= d + when(has_z, f64_bytes(g.ztol)));
    assert(out@ =~= old(out)@ + grid_params_bytes(g@, has_m, has_z));
}

/// Appends the extent, the zero Z / M ranges and the spatial index grid sizes.
fn write_grid_tail(out: &mut Vec<u8>, g: &crate::field::PrecisionGrid, has_m: bool, has_z: bool)
    ensures
        final(out)@ == old(out)@ + grid_tail_bytes(g@, has_m, has_z),
{
    let (xmin, ymin, xmax, ymax) = g.extent;
    write_le(out, xmin, 8);
    write_le(out, ymin, 8);
    write_le(out, xmax, 8);
    write_le(out, ymax, 8);
    proof {
        lemma_le_bytes_zero(8);
    }
    let ghost a = out@;
    if has_z {
        write_le(out, 0, 8);
        write_le(out, 0, 8);
        assert(le_bytes(0, 8) + le_bytes(0, 8) =~= zeros(16));
    }
    assert(out@ =~= a + when(has_z, zeros(16)));
    let ghost b = out@;
    if has_m {
        write_le(out, 0, 8);
        write_le(out, 0, 8);
        assert(le_bytes(0, 8) + le_bytes(0, 8) =~= zeros(16));
    }
    assert(out@ =~= b + when(has_m, zeros(16)));
    out.push(0u8);
    write_le(out, g.grid_sizes.len() as u64, 4);
    write_words(out, &g.grid_sizes);
    assert(out@ =~= old(out)@ + grid_tail_bytes(g@, has_m, has_z));
}

/// Appends the properties of a geometry field.
#[verifier::rlimit(60)]
#[verifier::spinoff_prover]
fn write_geometry_props(out: &mut Vec<u8>, fdef: &FieldDef, schema: &TableSchema)
    ensures
        final(out)@ == old(out)@ + geometry_field_bytes(*fdef, schema.has_z, schema.has_m),
{
    let ghost m = fdef.geom_has_m || schema.has_m;
    let ghost z = fdef.geom_has_z || schema.has_z;
    out.push(0u8);
    out.push(fdef.flags_byte());
    let wkt = encode_utf16(fdef.srs_wkt.as_str());
    write_le(out, wkt.len() as u64, 2);
    append_bytes(out, wkt.as_slice());
    let ghost head = out@;
    assert(head =~= old(out)@ + (seq![0u8, flags_of(fdef.nullable, fdef.required, fdef.editable)]
        + le_bytes(wkt@.len(), 2) + wkt@));
    let has_m = fdef.geom_has_m || schema.has_m;
    let has_z = fdef.geom_has_z || schema.has_z;
    let mut gflags: u8 = 1;
    if has_m {
        gflags = gflags + 2;
    }
    if has_z {
        gflags = gflags + 4;
    }
    assert(gflags == (1 + (if m { 2nat } else { 0nat }) + (if z { 4nat } else { 0nat })) as u8);
    out.push(gflags);
    let ghost mid = out@;
    write_grid_params(out, &fdef.grid, has_m, has_z);
    write_grid_tail(out, &fdef.grid, has_m, has_z);
    assert(out@ =~= mid + grid_params_bytes(fdef.grid@, m, z) + grid_tail_bytes(fdef.grid@, m, z));
    assert(out@ =~= old(out)@ + geometry_field_bytes(*fdef, schema.has_z, schema.has_m));
}

/// Appends the default of a text field.
fn write_string_default(out: &mut Vec<u8>, fdef: &FieldDef)
    ensures
        final(out)@ == old(out)@ + string_default_bytes(*fdef),
{
    if fdef.editable {
        match &fdef.default {
            Some(FieldValue::Text(s)) => {
                let b = s.as_str().as_bytes();
                write_varuint(out, b.len() as u64);
                append_bytes(out, b);
                assert(out@ =~= old(out)@ + string_default_bytes(*fdef));
                return;
            },
            _ => {},
        }
    }
    write_varuint(out, 0);
}

/// Appends the default of a numeric or date field.
fn write_numeric_default(out: &mut Vec<u8>, fdef: &FieldDef)
    ensures
        final(out)@ == old(out)@ + numeric_default_bytes(*fdef),
{
    if fdef.editable {
        match &fdef.default {
            Some(v) => {
                let b = encode_fixed_default(v);
                out.push((b.len() % 256) as u8);
                append_bytes(out, b.as_slice());
                assert(out@ =~= old(out)@ + numeric_default_bytes(*fdef));
                return;
            },
            None => {},
        }
    }
    out.push(0u8);
}

/// Appends the description of a field.
pub fn write_field_def(out: &mut Vec<u8>, fdef: &FieldDef, schema: &TableSchema)
    ensures
        final(out)@ == old(out)@ + field_def_bytes(*fdef, schema.has_z, schema.has_m),
{
    write_counted_utf16(out, &fdef.name);
    write_counted_utf16(out, &fdef.alias);
    out.push(fdef.field_type.code());
    let ghost head = out@;
    let flags = fdef.flags_byte();
    match fdef.field_type {
        FieldType::String => {
            let len = fdef.length;
            let u: u64 = if len >= 0 { len as u64 } else { (len as i64 + 0x1_0000_0000) as u64 };
            write_le(out, u, 4);
            out.push(flags);
            write_string_default(out, fdef);
        },
        FieldType::Geometry => {
            write_geometry_props(out, fdef, schema);
        },
        FieldType::ObjectId | FieldType::Binary | FieldType::Raster | FieldType::Uuid | FieldType::Xml => {
            let w: u8 = match fdef.field_type {
                FieldType::ObjectId => 4,
                FieldType::Uuid => 0x26,
                _ => 0,
            };
            out.push(w);
            out.push(flags);
        },
        _ => {
            let w = fdef.field_type.fixed_size() as u8;
            out.push(w);
            out.push(flags);
            write_numeric_default(out, fdef);
        },
    }
    assert(out@ =~= old(out)@ + field_def_bytes(*fdef, schema.has_z, schema.has_m));
}

// ---------------------------------------------------------------------------
// Model of reading
// ---------------------------------------------------------------------------

/// The byte at `p`.
pub open spec fn byte_at(s: Seq<u8>, p: nat) -> Option<u8> {
    if p < s.len() { Some(s[p as int]) } else { None }
}

/// The `n`-byte little-endian value at `p`.
pub open spec fn le_at(s: Seq<u8>, p: nat, n: nat) -> Option<nat> {
    if p + n <= s.len() { Some(le_value(s.subrange(p as int, (p + n) as int))) } else { None }
}

/// The `n` float64 words at `p`.
pub open spec fn words_at(s: Seq<u8>, p: nat, n: nat) -> Option<Seq<u64>> {
    if p + 8 * n <= s.len() {
        Some(Seq::new(n, |i: int| le_value(s.subrange(p + 8 * i, p + 8 * i + 8)) as u64))
    } else {
        None
    }
}

/// The text of `n` UTF-16 code units at `p`.
pub open spec fn utf16_at(s: Seq<u8>, p: nat, n: nat) -> Option<Seq<char>> {
    if p + 2 * n <= s.len() { Some(utf16_text(le_units(rest_at(s, p), n))) } else { None }
}

/// The number of zero bytes at odd positions.
pub open spec fn odd_zeros(b: Seq<u8>) -> nat
    decreases b.len(),
{
    if b.len() == 0 {
        0
    } else {
        odd_zeros(b.drop_last()) + (if (b.len() - 1) % 2 == 1 && b.last() == 0 { 1nat } else { 0nat })
    }
}

/// Whether bytes look more like UTF-16LE text than UTF-8: at least two bytes, and zero
/// bytes at no fewer than half of the odd positions (the high bytes of ASCII code units).
pub open spec fn looks_utf16(b: Seq<u8>) -> bool {
    b.len() >= 2 && odd_zeros(b) * 2 >= b.len() / 2
}

/// The text of a stored text default: UTF-16LE when it has an even length and looks like
/// UTF-16, else UTF-8.
pub open spec fn default_text(b: Seq<u8>) -> Seq<char> {
    if b.len() >= 2 && b.len() % 2 == 0 && looks_utf16(b) {
        utf16_text(le_units(b, b.len() / 2))
    } else {
        utf8_text(b)
    }
}

/// The default of a numeric or date field of type `t` stored as `b` (none when the size
/// does not fit the type).
pub open spec fn fixed_default_of(b: Seq<u8>, t: FieldType) -> Option<ValueView> {
    match t {
        FieldType::Int16 => if b.len() == 2 { Some(ValueView::Int16(to_signed(le_value(b), 16) as i16)) } else { None },
        FieldType::Int32 => if b.len() == 4 { Some(ValueView::Int32(to_signed(le_value(b), 32) as i32)) } else { None },
        FieldType::Float32 => if b.len() == 4 { Some(ValueView::Float(le_value(b) as u32)) } else { None },
        FieldType::Float64 => if b.len() == 8 { Some(ValueView::Double(le_value(b) as u64)) } else { None },
        FieldType::DateTime | FieldType::Date | FieldType::Time => if b.len() == 8 { Some(ValueView::DateTime(le_value(b) as u64)) } else { None },
        FieldType::Int64 => if b.len() == 8 { Some(ValueView::Int64(to_signed(le_value(b), 64) as i64)) } else { None },
        _ => None,
    }
}

/// A definition with the flags of the flags byte.
pub open spec fn with_flags(d: FieldDefView, flags: u8) -> FieldDefView {
    FieldDefView { nullable: flags & 1u8 != 0, required: flags & 2u8 != 0, editable: flags & 4u8 != 0, ..d }
}

/// The name, alias and type code of a field description at `p`, and the position after.
pub open spec fn field_head_at(s: Seq<u8>, p: nat) -> Option<(Seq<char>, Seq<char>, u8, nat)> {
    match byte_at(s, p) {
        None => None,
        Some(nl) => match utf16_at(s, (p + 1) as nat, nl as nat) {
            None => None,
            Some(name) => {
                let p2: nat = (p + 1 + 2 * nl) as nat;
                match byte_at(s, p2) {
                    None => None,
                    Some(al) => {
                        let alias: Option<Seq<char>> = if al > 0 { utf16_at(s, (p2 + 1) as nat, al as nat) } else { Some(Seq::empty()) };
                        let p3: nat = (p2 + 1 + 2 * al) as nat;
                        match alias {
                            None => None,
                            Some(a) => match byte_at(s, p3) {
                                None => None,
                                Some(tc) => Some((name, a, tc, (p3 + 1) as nat)),
                            },
                        }
                    },
                }
            },
        },
    }
}

/// The properties of a text field at `q`: maximum length, flags and, for an editable
/// field, a non-empty default.
pub open spec fn string_props_at(s: Seq<u8>, q: nat, base: FieldDefView) -> Option<(FieldDefView, nat)> {
    match (le_at(s, q, 4), byte_at(s, (q + 4) as nat), varuint_at(s, (q + 5) as nat)) {
        (Some(l), Some(fl), Some((dl, q2))) => {
            let d = with_flags(FieldDefView { length: to_signed(l, 32) as i32, ..base }, fl);
            if d.editable && dl > 0 {
                if q2 + dl <= s.len() {
                    Some((FieldDefView { default: Some(ValueView::Text(default_text(s.subrange(q2 as int, (q2 + dl) as int)))), ..d }, (q2 + dl) as nat))
                } else {
                    None
                }
            } else {
                Some((d, q2))
            }
        },
        _ => None,
    }
}

/// The properties of an object ID, binary, raster, UUID or XML field at `q`: a width byte
/// and the flags (an object ID is always required, not nullable and not editable).
pub open spec fn simple_props_at(s: Seq<u8>, q: nat, base: FieldDefView) -> Option<(FieldDefView, nat)> {
    match (byte_at(s, q), byte_at(s, (q + 1) as nat)) {
        (Some(_), Some(fl)) => {
            let d = with_flags(base, fl);
            if base.field_type == FieldType::ObjectId {
                Some((FieldDefView { nullable: false, required: true, editable: false, ..d }, (q + 2) as nat))
            } else {
                Some((d, (q + 2) as nat))
            }
        },
        _ => None,
    }
}

/// The properties of a numeric or date field at `q`: width, flags and, for an editable
/// field, a default.
pub open spec fn numeric_props_at(s: Seq<u8>, q: nat, base: FieldDefView) -> Option<(FieldDefView, nat)> {
    match (byte_at(s, q), byte_at(s, (q + 1) as nat), byte_at(s, (q + 2) as nat)) {
        (Some(_), Some(fl), Some(dl)) => {
            let d = with_flags(base, fl);
            if d.editable && dl > 0 {
                if q + 3 + dl <= s.len() {
                    Some((FieldDefView { default: fixed_default_of(s.subrange((q + 3) as int, (q + 3 + dl) as int), base.field_type), ..d }, (q + 3 + dl) as nat))
                } else {
                    None
                }
            } else {
                Some((d, (q + 3) as nat))
            }
        },
        _ => None,
    }
}

/// The number of float64 words from the grid origins to the table's Z / M ranges.
pub open spec fn grid_word_count(m: bool, z: bool, tab_z: bool, tab_m: bool) -> nat {
    3 + (if m { 2nat } else { 0nat }) + (if z { 2nat } else { 0nat }) + 1 + (if m { 1nat } else { 0nat })
        + (if z { 1nat } else { 0nat }) + 4 + (if tab_z { 2nat } else { 0nat }) + (if tab_m { 2nat } else { 0nat })
}

/// The grid read from its words (the M and Z groups only when present) and grid sizes.
pub open spec fn grid_from_words(ws: Seq<u64>, m: bool, z: bool, gs: Seq<u64>) -> GridView {
    let d = default_grid();
    let iz: int = 3 + (if m { 2int } else { 0int });
    let it: int = iz + (if z { 2int } else { 0int });
    let izt: int = it + 1 + (if m { 1int } else { 0int });
    let ie: int = izt + (if z { 1int } else { 0int });
    GridView {
        xorig: ws[0],
        yorig: ws[1],
        xyscale: ws[2],
        morig: if m { ws[3] } else { d.morig },
        mscale: if m { ws[4] } else { d.mscale },
        zorig: if z { ws[iz] } else { d.zorig },
        zscale: if z { ws[iz + 1] } else { d.zscale },
        xytol: ws[it],
        mtol: if m { ws[it + 1] } else { d.mtol },
        ztol: if z { ws[izt] } else { d.ztol },
        extent: (ws[ie], ws[ie + 1], ws[ie + 2], ws[ie + 3]),
        grid_sizes: gs,
    }
}

/// The grid of a geometry field at `q3` (from its flags byte on) in a table with the given
/// Z / M flags, and the position after it.
pub open spec fn geometry_grid_at(s: Seq<u8>, q3: nat, tab_z: bool, tab_m: bool) -> Option<(GridView, nat)> {
    match byte_at(s, q3) {
        None => None,
        Some(gf) => {
            let m = gf & 2u8 != 0;
            let z = gf & 4u8 != 0;
            let nw = grid_word_count(m, z, tab_z, tab_m);
            let q4: nat = (q3 + 1 + 8 * nw) as nat;
            match (words_at(s, (q3 + 1) as nat, nw), byte_at(s, q4), le_at(s, (q4 + 1) as nat, 4)) {
                (Some(ws), Some(_), Some(ng)) => match words_at(s, (q4 + 5) as nat, ng) {
                    Some(gs) => Some((grid_from_words(ws, m, z, gs), (q4 + 5 + 8 * ng) as nat)),
                    None => None,
                },
                _ => None,
            }
        },
    }
}

/// The flags byte and spatial reference of a geometry field at `q`, and the position after.
pub open spec fn geometry_head_at(s: Seq<u8>, q: nat) -> Option<(u8, Seq<char>, nat)> {
    match (byte_at(s, q), byte_at(s, (q + 1) as nat), le_at(s, (q + 2) as nat, 2)) {
        (Some(_), Some(fl), Some(wl)) => {
            let q3: nat = (q + 4 + wl) as nat;
            if q3 > s.len() {
                None
            } else {
                let srs: Seq<char> = if wl > 0 { utf16_text(le_units(s.subrange((q + 4) as int, q3 as int), wl / 2)) } else { Seq::empty() };
                Some((fl, srs, q3))
            }
        },
        _ => None,
    }
}

/// The properties of a geometry field at `q` in a table with the given Z / M flags.
pub open spec fn geometry_props_at(s: Seq<u8>, q: nat, base: FieldDefView, tab_z: bool, tab_m: bool) -> Option<(FieldDefView, nat)> {
    match geometry_head_at(s, q) {
        None => None,
        Some((fl, srs, q3)) => match geometry_grid_at(s, q3, tab_z, tab_m) {
            None => None,
            Some((g, e)) => Some((with_flags(FieldDefView { srs_wkt: srs, geom_has_z: tab_z, geom_has_m: tab_m, grid: g, ..base }, fl), e)),
        },
    }
}

/// The field description at `p` of a table with the given Z / M flags, and the position
/// after it.
#[verifier::opaque]
pub open spec fn field_def_at(s: Seq<u8>, p: nat, tab_z: bool, tab_m: bool) -> Option<(FieldDefView, nat)> {
    match field_head_at(s, p) {
        None => None,
        Some((name, alias, tc, q)) => {
            let t = field_type_of(tc);
            let base = FieldDefView { alias, ..new_field_view(name, t) };
            match t {
                FieldType::String => string_props_at(s, q, base),
                FieldType::ObjectId | FieldType::Binary | FieldType::Raster | FieldType::Uuid | FieldType::Xml => simple_props_at(s, q, base),
                FieldType::Geometry => geometry_props_at(s, q, base, tab_z, tab_m),
                _ => numeric_props_at(s, q, base),
            }
        },
    }
}

// ---------------------------------------------------------------------------
// Reader
// ---------------------------------------------------------------------------

/// Whether bytes look like UTF-16LE text (see [`looks_utf16`]).
fn looks_like_utf16(b: &[u8]) -> (r: bool)
    ensures
        r == looks_utf16(b@),
{
    if b.len() < 2 {
        return false;
    }
    let mut odd_zero: usize = 0;
    let mut i: usize = 0;
    while i < b.len()
        invariant
            i <= b@.len(),
            odd_zero == odd_zeros(b@.take(i as int)),
            2 * odd_zero <= i,
        decreases b@.len() - i,
    {
        proof {
            assert(b@.take(i + 1).drop_last() =~= b@.take(i as int));
        }
        if i % 2 == 1 && b[i] == 0 {
            odd_zero = odd_zero + 1;
        }
        i = i + 1;
    }
    assert(b@.take(i as int) =~= b@);
    odd_zero * 2 >= b.len() / 2
}

/// Reads a default of a numeric or date field (see [`fixed_default_of`]).
fn parse_fixed_default(b: &[u8], ftype: FieldType) -> (res: Option<FieldValue>)
    ensures
        match fixed_default_of(b@, ftype) {
            Some(v) => res matches Some(x) && x@ == v,
            None => res is None,
        },
{
    let mut r = Reader::new(b);
    assert(r.rest() =~= b@);
    assert(b@.subrange(0, b@.len() as int) =~= b@);
    match ftype {
        FieldType::Int16 => if b.len() == 2 {
            match r.i16() { Ok(x) => Some(FieldValue::Int16(x)), Err(_) => None }
        } else {
            None
        },
        FieldType::Int32 => if b.len() == 4 {
            match r.i32() { Ok(x) => Some(FieldValue::Int32(x)), Err(_) => None }
        } else {
            None
        },
        FieldType::Float32 => if b.len() == 4 {
            match r.u32() { Ok(x) => Some(FieldValue::Float(x)), Err(_) => None }
        } else {
            None
        },
        FieldType::Float64 => if b.len() == 8 {
            match r.u64() { Ok(x) => Some(FieldValue::Double(x)), Err(_) => None }
        } else {
            None
        },
        FieldType::DateTime | FieldType::Date | FieldType::Time => if b.len() == 8 {
            match r.u64() { Ok(x) => Some(FieldValue::DateTime(x)), Err(_) => None }
        } else {
            None
        },
        FieldType::Int64 => if b.len() == 8 {
            match r.i64() { Ok(x) => Some(FieldValue::Int64(x)), Err(_) => None }
        } else {
            None
        },
        _ => None,
    }
}

/// Reads `n` float64 words.
fn read_words(r: &mut Reader, n: usize) -> (res: Result<Vec<u64>, GdbError>)
    requires
        old(r).pos <= old(r).buf@.len(),
    ensures
        final(r).buf == old(r).buf,
        match words_at(old(r).buf@, old(r).pos as nat, n as nat) {
            Some(ws) => res matches Ok(v) && v@ == ws && final(r).pos == old(r).pos + 8 * n,
            None => res matches Err(e) && e is Format,
        },
{
    let ghost s = r.buf@;
    let ghost p = r.pos as nat;
    let mut ws: Vec<u64> = Vec::new();
    let mut i: usize = 0;
    while i < n
        invariant
            r.buf == old(r).buf,
            s == r.buf@,
            p == old(r).pos,
            i <= n,
            r.pos == p + 8 * i,
            p + 8 * i <= s.len(),
            ws@.len() == i,
            forall|k: int| 0 <= k < i ==> ws@[k] == le_value(s.subrange(p + 8 * k, p + 8 * k + 8)) as u64,
        decreases n - i,
    {
        let w = match r.u64() {
            Ok(w) => w,
            Err(e) => {
                assert(p + 8 * n > s.len());
                return Err(e);
            },
        };
        proof {
            assert(r.buf@.subrange(p + 8 * i, s.len() as int).subrange(0, 8) =~= s.subrange(p + 8 * i, p + 8 * i + 8));
        }
        ws.push(w);
        i = i + 1;
    }
    assert(ws@ =~= Seq::new(n as nat, |k: int| le_value(s.subrange(p + 8 * k, p + 8 * k + 8)) as u64));
    Ok(ws)
}

/// Reads the name, alias and type code of a field description.
fn read_field_head(r: &mut Reader) -> (res: Result<(String, String, u8), GdbError>)
    ensures
        final(r).buf == old(r).buf,
        match field_head_at(old(r).buf@, old(r).pos as nat) {
            Some((name, alias, tc, q)) => res matches Ok((n, a, t)) && n@ == name && a@ == alias && t == tc && final(r).pos == q,
            None => res matches Err(e) && e is Format,
        },
{
    let name_len = match r.u8() { Ok(v) => v, Err(e) => return Err(e) };
    let name = match r.utf16(name_len as usize) { Ok(v) => v, Err(e) => return Err(e) };
    let alias_len = match r.u8() { Ok(v) => v, Err(e) => return Err(e) };
    let alias = if alias_len > 0 {
        match r.utf16(alias_len as usize) { Ok(v) => v, Err(e) => return Err(e) }
    } else {
        String::new()
    };
    let tc = match r.u8() { Ok(v) => v, Err(e) => return Err(e) };
    Ok((name, alias, tc))
}

/// Reads the properties of a text field.
fn read_string_props(r: &mut Reader, def: &mut FieldDef) -> (res: Result<(), GdbError>)
    ensures
        final(r).buf == old(r).buf,
        match string_props_at(old(r).buf@, old(r).pos as nat, old(def)@) {
            Some((v, q)) => res is Ok && final(def)@ == v && final(r).pos == q,
            None => res matches Err(e) && e is Format,
        },
{
    let ghost s = r.buf@;
    let ghost q = r.pos as int;
    let len = match r.i32() { Ok(v) => v, Err(e) => return Err(e) };
    assert(s.subrange(q, s.len() as int).subrange(0, 4) =~= s.subrange(q, q + 4));
    let flags = match r.u8() { Ok(v) => v, Err(e) => return Err(e) };
    def.length = len;
    def.nullable = flags & 1u8 != 0;
    def.required = flags & 2u8 != 0;
    def.editable = flags & 4u8 != 0;
    let def_len = match r.varuint() { Ok(v) => v, Err(e) => return Err(e) };
    if def.editable && def_len > 0 {
        if def_len > r.remaining() as u64 {
            let rem = r.remaining();
            return Err(out_of_bounds_error(def_len, rem));
        }
        let b = match r.bytes(def_len as usize) { Ok(v) => v, Err(e) => return Err(e) };
        let text = if b.len() >= 2 && b.len() % 2 == 0 && looks_like_utf16(b) {
            let units = units_from_le_bytes(b);
            decode_utf16(units.as_slice())
        } else {
            utf8_to_string(b)
        };
        def.default = Some(FieldValue::Text(text));
        proof {
            let q2 = r.pos - def_len;
            assert(b@ =~= old(r).buf@.subrange(q2 as int, q2 + def_len));
        }
    }
    Ok(())
}

/// Reads the properties of an object ID, binary, raster, UUID or XML field.
fn read_simple_props(r: &mut Reader, def: &mut FieldDef) -> (res: Result<(), GdbError>)
    ensures
        final(r).buf == old(r).buf,
        match simple_props_at(old(r).buf@, old(r).pos as nat, old(def)@) {
            Some((v, q)) => res is Ok && final(def)@ == v && final(r).pos == q,
            None => res matches Err(e) && e is Format,
        },
{
    let _width = match r.u8() { Ok(v) => v, Err(e) => return Err(e) };
    let flags = match r.u8() { Ok(v) => v, Err(e) => return Err(e) };
    def.nullable = flags & 1u8 != 0;
    def.required = flags & 2u8 != 0;
    def.editable = flags & 4u8 != 0;
    if def.field_type == FieldType::ObjectId {
        def.nullable = false;
        def.required = true;
        def.editable = false;
    }
    Ok(())
}

/// Reads the properties of a numeric or date field.
fn read_numeric_props(r: &mut Reader, def: &mut FieldDef) -> (res: Result<(), GdbError>)
    ensures
        final(r).buf == old(r).buf,
        match numeric_props_at(old(r).buf@, old(r).pos as nat, old(def)@) {
            Some((v, q)) => res is Ok && final(def)@ == v && final(r).pos == q,
            None => res matches Err(e) && e is Format,
        },
{
    let _width = match r.u8() { Ok(v) => v, Err(e) => return Err(e) };
    let flags = match r.u8() { Ok(v) => v, Err(e) => return Err(e) };
    def.nullable = flags & 1u8 != 0;
    def.required = flags & 2u8 != 0;
    def.editable = flags & 4u8 != 0;
    let def_len = match r.u8() { Ok(v) => v, Err(e) => return Err(e) };
    if def.editable && def_len > 0 {
        let b = match r.bytes(def_len as usize) { Ok(v) => v, Err(e) => return Err(e) };
        def.default = parse_fixed_default(b, def.field_type);
        proof {
            let q = old(r).pos as int;
            assert(b@ =~= old(r).buf@.subrange(q + 3, q + 3 + def_len));
        }
    }
    Ok(())
}

/// The number of float64 words from the grid origins to the table's Z / M ranges.
fn grid_words(m: bool, z: bool, tab_z: bool, tab_m: bool) -> (n: usize)
    ensures
        n == grid_word_count(m, z, tab_z, tab_m),
{
    let mut n: usize = 8;
    if m {
        n = n + 3;
    }
    if z {
        n = n + 3;
    }
    if tab_z {
        n = n + 2;
    }
    if tab_m {
        n = n + 2;
    }
    n
}

/// Reads the flags byte and spatial reference of a geometry field.
fn read_geometry_head(r: &mut Reader) -> (res: Result<(u8, String), GdbError>)
    ensures
        final(r).buf == old(r).buf,
        match geometry_head_at(old(r).buf@, old(r).pos as nat) {
            Some((fl, srs, q3)) => res matches Ok((f, w)) && f == fl && w@ == srs && final(r).pos == q3,
            None => res matches Err(e) && e is Format,
        },
{
    proof {
        lemma_pow_values();
    }
    let ghost s = r.buf@;
    let ghost q = r.pos as int;
    let _magic = match r.u8() { Ok(v) => v, Err(e) => return Err(e) };
    let flags = match r.u8() { Ok(v) => v, Err(e) => return Err(e) };
    let wkt_len = match r.u16() { Ok(v) => v, Err(e) => return Err(e) };
    proof {
        assert(r.buf@.subrange(q + 2, s.len() as int).subrange(0, 2) =~= s.subrange(q + 2, q + 4));
        crate::io::lemma_le_value_bound(s.subrange(q + 2, q + 4));
    }
    let mut srs = String::new();
    if wkt_len > 0 {
        let b = match r.bytes(wkt_len as usize) { Ok(v) => v, Err(e) => return Err(e) };
        let units = units_from_le_bytes(b);
        srs = decode_utf16(units.as_slice());
        assert(b@ =~= s.subrange(q + 4, q + 4 + wkt_len));
    }
    Ok((flags, srs))
}

/// Reads the grid of a geometry field (from its flags byte on).
fn read_geometry_grid(r: &mut Reader, tab_has_z: bool, tab_has_m: bool) -> (res: Result<crate::field::PrecisionGrid, GdbError>)
    requires
        old(r).pos <= old(r).buf@.len(),
    ensures
        final(r).buf == old(r).buf,
        match geometry_grid_at(old(r).buf@, old(r).pos as nat, tab_has_z, tab_has_m) {
            Some((g, e)) => res matches Ok(x) && x@ == g && final(r).pos == e,
            None => res matches Err(e) && e is Format,
        },
{
    proof {
        lemma_pow_values();
    }
    let ghost s = r.buf@;
    let ghost q3 = r.pos as int;
    let gflags = match r.u8() { Ok(v) => v, Err(e) => return Err(e) };
    let m = gflags & 2u8 != 0;
    let z = gflags & 4u8 != 0;
    let nw = grid_words(m, z, tab_has_z, tab_has_m);
    let ws = match read_words(r, nw) { Ok(v) => v, Err(e) => return Err(e) };
    let _zero = match r.u8() { Ok(v) => v, Err(e) => return Err(e) };
    let ng = match r.u32() { Ok(v) => v, Err(e) => return Err(e) };
    proof {
        let q4 = q3 + 1 + 8 * nw;
        assert(r.buf@.subrange(q4 + 1, s.len() as int).subrange(0, 4) =~= s.subrange(q4 + 1, q4 + 5));
        crate::io::lemma_le_value_bound(s.subrange(q4 + 1, q4 + 5));
    }
    let gs = match read_words(r, ng as usize) { Ok(v) => v, Err(e) => return Err(e) };
    let iz: usize = if m { 5 } else { 3 };
    let it: usize = if z { iz + 2 } else { iz };
    let izt: usize = if m { it + 2 } else { it + 1 };
    let ie: usize = if z { izt + 1 } else { izt };
    let mut g = crate::field::PrecisionGrid::default();
    g.xorig = ws[0];
    g.yorig = ws[1];
    g.xyscale = ws[2];
    if m {
        g.morig = ws[3];
        g.mscale = ws[4];
    }
    if z {
        g.zorig = ws[iz];
        g.zscale = ws[iz + 1];
    }
    g.xytol = ws[it];
    if m {
        g.mtol = ws[it + 1];
    }
    if z {
        g.ztol = ws[izt];
    }
    g.extent = (ws[ie], ws[ie + 1], ws[ie + 2], ws[ie + 3]);
    g.grid_sizes = gs;
    Ok(g)
}

/// Reads the properties of a geometry field in a table with the given Z / M flags.
fn read_geometry_props(r: &mut Reader, def: &mut FieldDef, tab_has_z: bool, tab_has_m: bool) -> (res: Result<(), GdbError>)
    ensures
        final(r).buf == old(r).buf,
        match geometry_props_at(old(r).buf@, old(r).pos as nat, old(def)@, tab_has_z, tab_has_m) {
            Some((v, q)) => res is Ok && final(def)@ == v && final(r).pos == q,
            None => res matches Err(e) && e is Format,
        },
{
    let (flags, srs) = match read_geometry_head(r) { Ok(v) => v, Err(e) => return Err(e) };
    let g = match read_geometry_grid(r, tab_has_z, tab_has_m) { Ok(v) => v, Err(e) => return Err(e) };
    def.nullable = flags & 1u8 != 0;
    def.required = flags & 2u8 != 0;
    def.editable = flags & 4u8 != 0;
    def.srs_wkt = srs;
    def.geom_has_m = tab_has_m;
    def.geom_has_z = tab_has_z;
    def.grid = g;
    Ok(())
}

/// Reads a field description of a table with the given Z / M flags.
pub fn read_field_def(r: &mut Reader, tab_has_z: bool, tab_has_m: bool) -> (res: Result<FieldDef, GdbError>)
    ensures
        final(r).buf == old(r).buf,
        match field_def_at(old(r).buf@, old(r).pos as nat, tab_has_z, tab_has_m) {
            Some((v, q)) => res matches Ok(d) && d@ == v && final(r).pos == q,
            None => res matches Err(e) && e is Format,
        },
{
    reveal(field_def_at);
    let (name, alias, tc) = match read_field_head(r) { Ok(v) => v, Err(e) => return Err(e) };
    let ftype = FieldType::from_code(tc);
    let mut def = FieldDef::new(name.as_str(), ftype);
    def.alias = alias;
    let res = match ftype {
        FieldType::String => read_string_props(r, &mut def),
        FieldType::ObjectId | FieldType::Binary | FieldType::Raster | FieldType::Uuid | FieldType::Xml => read_simple_props(r, &mut def),
        FieldType::Geometry => read_geometry_props(r, &mut def, tab_has_z, tab_has_m),
        _ => read_numeric_props(r, &mut def),
    };
    match res {
        Ok(()) => Ok(def),
        Err(e) => Err(e),
    }
}

// ---------------------------------------------------------------------------
// The whole section
// ---------------------------------------------------------------------------

/// The descriptions of `n` fields at `p`, and the position after them.
pub open spec fn fields_at(s: Seq<u8>, p: nat, tab_z: bool, tab_m: bool, n: nat) -> Option<(Seq<FieldDefView>, nat)>
    decreases n,
{
    if n == 0 {
        Some((Seq::empty(), p))
    } else {
        match fields_at(s, p, tab_z, tab_m, (n - 1) as nat) {
            None => None,
            Some((fs, q)) => match field_def_at(s, q, tab_z, tab_m) {
                None => None,
                Some((f, q2)) => Some((fs.push(f), q2)),
            },
        }
    }
}

/// The offset of the field description section (header bytes 32 to 40).
pub open spec fn desc_offset(data: Seq<u8>) -> nat {
    le_value(data.subrange(32, 40))
}

/// The schema of a `.gdbtable` file.
pub open spec fn schema_at(data: Seq<u8>) -> Option<crate::field::SchemaView> {
    let d = desc_offset(data);
    if d + 4 > data.len() {
        None
    } else {
        match (le_at(data, (d + 8) as nat, 4), le_at(data, (d + 12) as nat, 2)) {
            (Some(lf), Some(nf)) => {
                let f = lf as u32;
                let tz = f & 0x8000_0000u32 != 0;
                let tm = f & 0x4000_0000u32 != 0;
                match fields_at(data, (d + 14) as nat, tz, tm, nf) {
                    Some((fs, _)) => Some(crate::field::SchemaView {
                        geometry_type: geometry_type_of((f & 0xFFu32) as i32),
                        has_z: tz,
                        has_m: tm,
                        string_utf8: f & 0x100u32 != 0,
                        fields: fs,
                    }),
                    None => None,
                }
            },
            _ => None,
        }
    }
}

/// The offset of the field description section.
pub fn read_field_desc_offset(data: &[u8]) -> (off: u64)
    requires
        data@.len() >= 40,
    ensures
        off == desc_offset(data@),
{
    proof {
        lemma_pow_values();
    }
    let tail = vstd::slice::slice_subrange(data, 32, 40);
    let mut r = Reader::new(tail);
    assert(r.rest() =~= data@.subrange(32, 40));
    assert(data@.subrange(32, 40).subrange(0, 8) =~= data@.subrange(32, 40));
    proof {
        crate::io::lemma_le_value_bound(data@.subrange(32, 40));
    }
    match r.u64() {
        Ok(v) => v,
        Err(_) => 0,
    }
}

/// Parses the field description section of a `.gdbtable` file.
pub fn parse_schema(data: &[u8]) -> (res: Result<TableSchema, GdbError>)
    requires
        data@.len() >= 40,
    ensures
        match schema_at(data@) {
            Some(v) => res matches Ok(sc) && sc@ == v,
            None => res matches Err(e) && e is Format,
        },
        desc_offset(data@) + 4 > data@.len() ==> (res matches Err(e) && error_text(e) == "字段描述段偏移越界"@),
{
    proof {
        lemma_pow_values();
    }
    let desc_off = read_field_desc_offset(data);
    if desc_off > data.len() as u64 || data.len() - (desc_off as usize) < 4 {
        return Err(format_error("字段描述段偏移越界"));
    }
    let d = desc_off as usize;
    let mut r = Reader { buf: data, pos: d };
    let _section_len = match r.u32() { Ok(v) => v, Err(e) => return Err(e) };
    let _fdesc_version = match r.u32() { Ok(v) => v, Err(e) => return Err(e) };
    let layer_flags = match r.u32() { Ok(v) => v, Err(e) => return Err(e) };
    proof {
        assert(data@.subrange(d + 8, data@.len() as int).subrange(0, 4) =~= data@.subrange(d + 8, d + 12));
        crate::io::lemma_le_value_bound(data@.subrange(d + 8, d + 12));
    }
    let has_z = layer_flags & 0x8000_0000u32 != 0;
    let has_m = layer_flags & 0x4000_0000u32 != 0;
    let string_utf8 = layer_flags & 0x100u32 != 0;
    let geometry_type = GeometryType::from_code((layer_flags & 0xFFu32) as i32);
    let nfields = match r.u16() { Ok(v) => v, Err(e) => return Err(e) };
    proof {
        assert(data@.subrange(d + 12, data@.len() as int).subrange(0, 2) =~= data@.subrange(d + 12, d + 14));
        crate::io::lemma_le_value_bound(data@.subrange(d + 12, d + 14));
    }
    let mut fields: Vec<FieldDef> = Vec::new();
    let mut i: usize = 0;
    assert(crate::field::fields_view(fields@) =~= Seq::<FieldDefView>::empty());
    proof {
        assert(data@.subrange(d as int, data@.len() as int).subrange(0, 4).len() == 4);
    }
    let ghost whole = match fields_at(data@, (d + 14) as nat, has_z, has_m, nfields as nat) {
        Some((fs, _)) => Some(crate::field::SchemaView { geometry_type, has_z, has_m, string_utf8, fields: fs }),
        None => None,
    };
    assert(schema_at(data@) == whole);
    while i < nfields as usize
        invariant
            r.buf@ == data@,
            desc_offset(data@) + 4 <= data@.len(),
            schema_at(data@) == whole,
            whole == match fields_at(data@, (d + 14) as nat, has_z, has_m, nfields as nat) {
                Some((fs, _)) => Some(crate::field::SchemaView { geometry_type, has_z, has_m, string_utf8, fields: fs }),
                None => None,
            },
            i <= nfields,
            fields_at(data@, (d + 14) as nat, has_z, has_m, i as nat) == Some((crate::field::fields_view(fields@), r.pos as nat)),
        decreases nfields - i,
    {
        let ghost before = crate::field::fields_view(fields@);
        let f = match read_field_def(&mut r, has_z, has_m) {
            Ok(f) => f,
            Err(e) => {
                proof {
                    lemma_fields_at_none(data@, (d + 14) as nat, has_z, has_m, (i + 1) as nat, nfields as nat);
                }
                return Err(e);
            },
        };
        fields.push(f);
        assert(crate::field::fields_view(fields@) =~= before.push(f@));
        i = i + 1;
    }
    Ok(TableSchema { geometry_type, has_z, has_m, string_utf8, fields })
}

/// Once a description cannot be read, the section cannot be read.
proof fn lemma_fields_at_none(s: Seq<u8>, p: nat, tab_z: bool, tab_m: bool, m: nat, n: nat)
    requires
        m <= n,
        fields_at(s, p, tab_z, tab_m, m) is None,
    ensures
        fields_at(s, p, tab_z, tab_m, n) is None,
    decreases n - m,
{
    if m < n {
        lemma_fields_at_none(s, p, tab_z, tab_m, m, (n - 1) as nat);
    }
}

} // verus!
