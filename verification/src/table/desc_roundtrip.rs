//! The field description codec's round trip: reading back a field description where the
//! writer put it gives the field, as far as the format stores it.
use vstd::prelude::*;
use vstd::utf8::{encode_utf8, decode_utf8, valid_utf8};
use crate::io::{
    le_bytes, le_value, to_signed, rest_at, pow256, leb_encode, lemma_le_bytes_value, lemma_pow_values,
    utf16_units, units_le, le_units, utf16_text, utf8_text, lemma_utf16_text, lemma_le_units_units_le,
    lemma_utf16_char_units, utf16_char_units,
};
use crate::field::{
    FieldDef, FieldType, FieldDefView, GridView, new_field_view, default_grid, flags_of, field_type_code,
    field_type_of, law_field_type_of_code, fixed_size_of,
};
use crate::value::{FieldValue, ValueView};
use crate::table::rows::{twos, zeros, prefixed};
use crate::table::schema::{
    byte_at, le_at, words_at, utf16_at, looks_utf16, default_text, fixed_default_of, with_flags, field_head_at,
    string_props_at, simple_props_at, numeric_props_at, grid_word_count, grid_from_words, geometry_grid_at,
    geometry_head_at, geometry_props_at, field_def_at, utf16_bytes, counted_utf16, f64_bytes,
    words_bytes, fixed_default_bytes, string_default_bytes, numeric_default_bytes, grid_params_bytes,
    grid_tail_bytes, geometry_field_bytes, field_def_bytes, lemma_le_bytes_zero,
};
use crate::geometry::roundtrip::{lemma_rest_advance, lemma_varuint_peel};

verus! {

// ---------------------------------------------------------------------------
// Reading at a position
// ---------------------------------------------------------------------------

/// What follows position `p` starts with `a`: those bytes are there.
proof fn lemma_window(s: Seq<u8>, p: nat, a: Seq<u8>, t: Seq<u8>)
    requires
        p <= s.len(),
        rest_at(s, p) == a + t,
    ensures
        p + a.len() <= s.len(),
        s.subrange(p as int, (p + a.len()) as int) == a,
        rest_at(s, p + a.len()) == t,
        p + a.len() <= s.len(),
{
    lemma_rest_advance(s, p, a, t);
    let r = rest_at(s, p);
    assert(r.len() == s.len() - p);
    assert forall|i: int| 0 <= i < a.len() implies s.subrange(p as int, (p + a.len()) as int)[i] == a[i] by {
        assert(r[i] == (a + t)[i]);
    }
    assert(s.subrange(p as int, (p + a.len()) as int) =~= a);
}

/// A byte at the front of what follows `p` is read back.
proof fn lemma_byte_peel(s: Seq<u8>, p: nat, b: u8, t: Seq<u8>)
    requires
        p <= s.len(),
        rest_at(s, p) == seq![b] + t,
    ensures
        byte_at(s, p) == Some(b),
        rest_at(s, p + 1) == t,
        p + 1 <= s.len(),
{
    lemma_window(s, p, seq![b], t);
    assert(s.subrange(p as int, (p + 1) as int)[0] == s[p as int]);
}

/// A little-endian value at the front of what follows `p` is read back modulo `256^n`.
proof fn lemma_le_peel(s: Seq<u8>, p: nat, v: nat, n: nat, t: Seq<u8>)
    requires
        p <= s.len(),
        rest_at(s, p) == le_bytes(v, n) + t,
    ensures
        le_at(s, p, n) == Some(v % pow256(n)),
        rest_at(s, p + n) == t,
        p + n <= s.len(),
{
    lemma_le_bytes_value(v, n);
    lemma_window(s, p, le_bytes(v, n), t);
}

/// Code units at the front of what follows `p` are read back as their text.
proof fn lemma_units_peel(s: Seq<u8>, p: nat, cs: Seq<char>, t: Seq<u8>)
    requires
        p <= s.len(),
        rest_at(s, p) == utf16_bytes(cs) + t,
    ensures
        utf16_at(s, p, utf16_units(cs).len()) == Some(cs),
        rest_at(s, p + 2 * utf16_units(cs).len()) == t,
        p + 2 * utf16_units(cs).len() <= s.len(),
{
    let us = utf16_units(cs);
    let b = units_le(us);
    lemma_window(s, p, b, t);
    lemma_le_units_units_le(us);
    assert(b.len() == 2 * us.len());
    let r = rest_at(s, p);
    assert forall|i: int| 0 <= i < us.len() implies #[trigger] le_units(r, us.len())[i] == le_units(b, us.len())[i] by {
        assert(r[2 * i] == b[2 * i]);
        assert(r[2 * i + 1] == b[2 * i + 1]);
    }
    assert(le_units(r, us.len()) =~= le_units(b, us.len()));
    lemma_utf16_text(cs);
}

/// Text without code units is empty.
proof fn lemma_no_units(cs: Seq<char>)
    requires
        utf16_units(cs).len() == 0,
    ensures
        cs.len() == 0,
{
    if cs.len() > 0 {
        lemma_utf16_char_units(cs.last());
        assert(utf16_units(cs) == utf16_units(cs.drop_last()) + utf16_char_units(cs.last()));
    }
}

/// The flags byte reads back as the three flags.
proof fn lemma_flags_read(d: FieldDefView, n: bool, r: bool, e: bool)
    ensures
        with_flags(d, flags_of(n, r, e)) == (FieldDefView { nullable: n, required: r, editable: e, ..d }),
{
    let b = flags_of(n, r, e);
    let bn: u8 = if n { 1 } else { 0 };
    let br: u8 = if r { 2 } else { 0 };
    let be: u8 = if e { 4 } else { 0 };
    assert(b == bn + br + be);
    assert((bn == 0u8 || bn == 1u8) && (br == 0u8 || br == 2u8) && (be == 0u8 || be == 4u8) ==> {
        &&& ((bn + br + be) as u8 & 1u8 != 0) == (bn == 1u8)
        &&& ((bn + br + be) as u8 & 2u8 != 0) == (br == 2u8)
        &&& ((bn + br + be) as u8 & 4u8 != 0) == (be == 4u8)
    }) by (bit_vector);
}

/// The name, alias and type code at the front of a field description are read back.
proof fn lemma_head_read(s: Seq<u8>, p: nat, f: FieldDef, t: Seq<u8>)
    requires
        p <= s.len(),
        utf16_units(f.name@).len() < 256,
        utf16_units(f.alias@).len() < 256,
        rest_at(s, p) == counted_utf16(f.name@) + (counted_utf16(f.alias@) + (seq![field_type_code(f.field_type)] + t)),
    ensures
        field_head_at(s, p) == Some((f.name@, f.alias@, field_type_code(f.field_type),
            p + counted_utf16(f.name@).len() + counted_utf16(f.alias@).len() + 1)),
        rest_at(s, p + counted_utf16(f.name@).len() + counted_utf16(f.alias@).len() + 1) == t,
        p + counted_utf16(f.name@).len() + counted_utf16(f.alias@).len() + 1 <= s.len(),
{
    let nu = utf16_units(f.name@);
    let au = utf16_units(f.alias@);
    let nl = (nu.len() % 256) as u8;
    let al = (au.len() % 256) as u8;
    let tc = field_type_code(f.field_type);
    let rest2 = counted_utf16(f.alias@) + (seq![tc] + t);
    assert(rest_at(s, p) == seq![nl] + (utf16_bytes(f.name@) + rest2));
    lemma_byte_peel(s, p, nl, utf16_bytes(f.name@) + rest2);
    lemma_units_peel(s, p + 1, f.name@, rest2);
    let p2: nat = p + 1 + 2 * nu.len();
    assert(rest2 == seq![al] + (utf16_bytes(f.alias@) + (seq![tc] + t)));
    lemma_byte_peel(s, p2, al, utf16_bytes(f.alias@) + (seq![tc] + t));
    lemma_units_peel(s, p2 + 1, f.alias@, seq![tc] + t);
    if al == 0 {
        lemma_no_units(f.alias@);
    }
    let p3: nat = p2 + 1 + 2 * au.len();
    lemma_byte_peel(s, p3, tc, t);
    assert(counted_utf16(f.name@).len() == 1 + 2 * nu.len());
    assert(counted_utf16(f.alias@).len() == 1 + 2 * au.len());
}

// ---------------------------------------------------------------------------
// What a field description keeps
// ---------------------------------------------------------------------------

/// The grid that a geometry field's description keeps: the M group (origin, scale and
/// tolerance) when the field has M values and the Z group when it has Z values; the
/// groups it does not have read back as their defaults.
pub open spec fn stored_grid(g: GridView, m: bool, z: bool) -> GridView {
    let d = default_grid();
    GridView {
        morig: if m { g.morig } else { d.morig },
        mscale: if m { g.mscale } else { d.mscale },
        mtol: if m { g.mtol } else { d.mtol },
        zorig: if z { g.zorig } else { d.zorig },
        zscale: if z { g.zscale } else { d.zscale },
        ztol: if z { g.ztol } else { d.ztol },
        ..g
    }
}

/// The default that a field description keeps: only an editable field's; for a text field
/// a non-empty text default; for a numeric or date field its stored bytes read in the
/// field's type (a default of the field's own kind comes back as it was); no other field
/// keeps one.
pub open spec fn stored_default(f: FieldDef) -> Option<ValueView> {
    if !f.editable {
        None
    } else {
        match f.field_type {
            FieldType::String => match f.default {
                Some(FieldValue::Text(s)) => if s@.len() > 0 { Some(ValueView::Text(s@)) } else { None },
                _ => None,
            },
            FieldType::ObjectId | FieldType::Binary | FieldType::Raster | FieldType::Uuid | FieldType::Xml
            | FieldType::Geometry => None,
            _ => match f.default {
                Some(v) => if fixed_default_bytes(v@).len() > 0 {
                    fixed_default_of(fixed_default_bytes(v@), f.field_type)
                } else {
                    None
                },
                None => None,
            },
        }
    }
}

/// The definition that reading a field's description gives back, in a table with the
/// given Z / M flags: name, alias and type always; the flags, except that an object ID is
/// required, not nullable and not editable; a text field's maximum length; the default
/// ([`stored_default`]); a geometry field's spatial reference, its grid ([`stored_grid`])
/// and the table's Z / M flags. What the format does not store reads back as in
/// `FieldDef::new`.
pub open spec fn field_read_back(f: FieldDef, has_z: bool, has_m: bool) -> FieldDefView {
    let base = FieldDefView { alias: f.alias@, ..new_field_view(f.name@, f.field_type) };
    let flagged = FieldDefView { nullable: f.nullable, required: f.required, editable: f.editable, ..base };
    match f.field_type {
        FieldType::String => FieldDefView { length: f.length, default: stored_default(f), ..flagged },
        FieldType::ObjectId => FieldDefView { nullable: false, required: true, editable: false, ..base },
        FieldType::Binary | FieldType::Raster | FieldType::Uuid | FieldType::Xml => flagged,
        FieldType::Geometry => FieldDefView {
            srs_wkt: f.srs_wkt@,
            geom_has_z: has_z,
            geom_has_m: has_m,
            grid: stored_grid(f.grid@, has_m, has_z),
            ..flagged
        },
        _ => FieldDefView { default: stored_default(f), ..flagged },
    }
}

/// A field whose description reads back as [`field_read_back`] says: name and alias of
/// fewer than 256 UTF-16 code units, a type code of its own (an unknown type's code above
/// 15), a text default whose UTF-8 bytes do not look like UTF-16 to the reader (for
/// instance one without NUL characters), and for a geometry field a spatial reference of
/// fewer than 32768 code units, fewer than `2^32` grid sizes, and Z / M only where the
/// table has them.
pub open spec fn field_roundtrips(f: FieldDef, has_z: bool, has_m: bool) -> bool {
    &&& utf16_units(f.name@).len() < 256
    &&& utf16_units(f.alias@).len() < 256
    &&& (f.field_type matches FieldType::Other(c) ==> c > 15)
    &&& (f.field_type == FieldType::String ==> match f.default {
        Some(FieldValue::Text(s)) => encode_utf8(s@).len() <= u64::MAX && !looks_utf16(encode_utf8(s@)),
        _ => true,
    })
    &&& (f.field_type == FieldType::Geometry ==> {
        &&& utf16_units(f.srs_wkt@).len() < 0x8000
        &&& f.grid@.grid_sizes.len() < 0x1_0000_0000
        &&& (f.geom_has_z ==> has_z)
        &&& (f.geom_has_m ==> has_m)
    })
}

// ---------------------------------------------------------------------------
// The properties of each kind of field
// ---------------------------------------------------------------------------

/// A 32-bit two's complement value reads back as the signed value.
proof fn lemma_i32_twos(x: i32)
    ensures
        twos(x as int, 0x1_0000_0000) < 0x1_0000_0000,
        to_signed(twos(x as int, 0x1_0000_0000), 32) == x as int,
{
    lemma_pow_values();
}

/// The properties of a text field are read back.
proof fn lemma_string_props(s: Seq<u8>, q: nat, f: FieldDef, base: FieldDefView, has_z: bool, has_m: bool, t: Seq<u8>)
    requires
        q <= s.len(),
        f.field_type == FieldType::String,
        field_roundtrips(f, has_z, has_m),
        base == (FieldDefView { alias: f.alias@, ..new_field_view(f.name@, f.field_type) }),
        rest_at(s, q) == le_bytes(twos(f.length as int, 0x1_0000_0000), 4)
            + (seq![flags_of(f.nullable, f.required, f.editable)] + (string_default_bytes(f) + t)),
    ensures
        string_props_at(s, q, base) == Some((field_read_back(f, has_z, has_m), q + 5 + string_default_bytes(f).len())),
{
    let fl = flags_of(f.nullable, f.required, f.editable);
    lemma_i32_twos(f.length);
    lemma_pow_values();
    let lw = twos(f.length as int, 0x1_0000_0000);
    lemma_le_peel(s, q, lw, 4, seq![fl] + (string_default_bytes(f) + t));
    vstd::arithmetic::div_mod::lemma_small_mod(lw, pow256(4));
    lemma_byte_peel(s, q + 4, fl, string_default_bytes(f) + t);
    let d0 = FieldDefView { length: to_signed(lw, 32) as i32, ..base };
    lemma_flags_read(d0, f.nullable, f.required, f.editable);
    let sd = string_default_bytes(f);
    match f.default {
        Some(FieldValue::Text(str)) => {
            if f.editable {
                let e = encode_utf8(str@);
                assert(sd == leb_encode(e.len() as u64 as nat) + e);
                assert(rest_at(s, q + 5) == leb_encode(e.len() as u64 as nat) + (e + t));
                lemma_varuint_peel(s, q + 5, e.len() as u64, e + t);
                let q2: nat = q + 5 + leb_encode(e.len() as nat).len();
                lemma_window(s, q2, e, t);
                vstd::utf8::encode_utf8_valid_utf8(str@);
                vstd::utf8::encode_utf8_decode_utf8(str@);
                if str@.len() == 0 {
                    assert(e =~= Seq::<u8>::empty());
                } else if e.len() == 0 {
                    assert(e =~= Seq::<u8>::empty());
                    assert(decode_utf8(e) =~= Seq::<char>::empty());
                }
                assert(default_text(e) == str@);
            } else {
                assert(sd == leb_encode(0));
                lemma_varuint_peel(s, q + 5, 0, t);
            }
        },
        _ => {
            assert(sd == leb_encode(0));
            lemma_varuint_peel(s, q + 5, 0, t);
        },
    }
}

/// The properties of an object ID, binary, raster, UUID or XML field are read back.
proof fn lemma_simple_props(s: Seq<u8>, q: nat, f: FieldDef, base: FieldDefView, w: u8, has_z: bool, has_m: bool, t: Seq<u8>)
    requires
        q <= s.len(),
        f.field_type == FieldType::ObjectId || f.field_type == FieldType::Binary || f.field_type == FieldType::Raster
            || f.field_type == FieldType::Uuid || f.field_type == FieldType::Xml,
        base == (FieldDefView { alias: f.alias@, ..new_field_view(f.name@, f.field_type) }),
        rest_at(s, q) == seq![w, flags_of(f.nullable, f.required, f.editable)] + t,
    ensures
        simple_props_at(s, q, base) == Some((field_read_back(f, has_z, has_m), q + 2)),
{
    let fl = flags_of(f.nullable, f.required, f.editable);
    assert(seq![w, fl] + t == seq![w] + (seq![fl] + t));
    lemma_byte_peel(s, q, w, seq![fl] + t);
    lemma_byte_peel(s, q + 1, fl, t);
    lemma_flags_read(base, f.nullable, f.required, f.editable);
}

/// The properties of a numeric or date field are read back.
proof fn lemma_numeric_props(s: Seq<u8>, q: nat, f: FieldDef, base: FieldDefView, has_z: bool, has_m: bool, t: Seq<u8>)
    requires
        q <= s.len(),
        !(f.field_type == FieldType::String || f.field_type == FieldType::Geometry || f.field_type == FieldType::ObjectId
            || f.field_type == FieldType::Binary || f.field_type == FieldType::Raster || f.field_type == FieldType::Uuid
            || f.field_type == FieldType::Xml),
        base == (FieldDefView { alias: f.alias@, ..new_field_view(f.name@, f.field_type) }),
        rest_at(s, q) == seq![fixed_size_of(f.field_type) as u8, flags_of(f.nullable, f.required, f.editable)]
            + (numeric_default_bytes(f) + t),
    ensures
        numeric_props_at(s, q, base) == Some((field_read_back(f, has_z, has_m), q + 2 + numeric_default_bytes(f).len())),
{
    let fl = flags_of(f.nullable, f.required, f.editable);
    let w = fixed_size_of(f.field_type) as u8;
    let nd = numeric_default_bytes(f);
    assert(seq![w, fl] + (nd + t) == seq![w] + (seq![fl] + (nd + t)));
    lemma_byte_peel(s, q, w, seq![fl] + (nd + t));
    lemma_byte_peel(s, q + 1, fl, nd + t);
    lemma_flags_read(base, f.nullable, f.required, f.editable);
    match f.default {
        Some(v) => {
            if f.editable {
                let b = fixed_default_bytes(v@);
                assert(b.len() <= 8) by {
                    lemma_le_bytes_value(0, 2);
                    lemma_le_bytes_value(0, 4);
                    lemma_le_bytes_value(0, 8);
                    match v@ {
                        ValueView::Int16(x) => lemma_le_bytes_value(twos(x as int, 0x1_0000), 2),
                        ValueView::Int32(x) => lemma_le_bytes_value(twos(x as int, 0x1_0000_0000), 4),
                        ValueView::Float(x) => lemma_le_bytes_value(x as nat, 4),
                        ValueView::Double(x) => lemma_le_bytes_value(x as nat, 8),
                        ValueView::Int64(x) => lemma_le_bytes_value(twos(x as int, 0x1_0000_0000_0000_0000), 8),
                        ValueView::DateTime(x) => lemma_le_bytes_value(x as nat, 8),
                        _ => {},
                    }
                }
                let dl = (b.len() % 256) as u8;
                assert(dl as nat == b.len());
                assert(nd == seq![dl] + b);
                assert(nd + t =~= seq![dl] + (b + t));
                lemma_byte_peel(s, q + 2, dl, b + t);
                lemma_window(s, q + 3, b, t);
            } else {
                assert(nd == seq![0u8]);
                lemma_byte_peel(s, q + 2, 0, t);
            }
        },
        None => {
            assert(nd == seq![0u8]);
            lemma_byte_peel(s, q + 2, 0, t);
        },
    }
}

// ---------------------------------------------------------------------------
// Geometry fields
// ---------------------------------------------------------------------------

/// The words `ws` when `c` holds, none otherwise.
pub open spec fn words_when(c: bool, ws: Seq<u64>) -> Seq<u64> {
    if c { ws } else { Seq::empty() }
}

/// The float64 words of a geometry field's grid from its origins to the table's Z / M
/// ranges: origins and scale, the M and Z groups, the tolerances, the extent, and zero
/// Z / M ranges.
pub open spec fn grid_words(g: GridView, m: bool, z: bool) -> Seq<u64> {
    seq![g.xorig] + seq![g.yorig] + seq![g.xyscale]
        + words_when(m, seq![g.morig] + seq![g.mscale])
        + words_when(z, seq![g.zorig] + seq![g.zscale])
        + seq![g.xytol] + words_when(m, seq![g.mtol]) + words_when(z, seq![g.ztol])
        + seq![g.extent.0] + seq![g.extent.1] + seq![g.extent.2] + seq![g.extent.3]
        + words_when(z, seq![0u64] + seq![0u64]) + words_when(m, seq![0u64] + seq![0u64])
}

/// The bytes of one word.
proof fn lemma_words_one(a: u64)
    ensures
        words_bytes(seq![a]) == f64_bytes(a),
{
    assert(seq![a].drop_last() =~= Seq::<u64>::empty());
    assert(words_bytes(seq![a]) == words_bytes(Seq::<u64>::empty()) + f64_bytes(a));
    assert(words_bytes(seq![a]) =~= f64_bytes(a));
}

/// The bytes of words one after the other are their bytes one after the other.
proof fn lemma_words_concat(a: Seq<u64>, b: Seq<u64>)
    ensures
        words_bytes(a + b) == words_bytes(a) + words_bytes(b),
    decreases b.len(),
{
    if b.len() == 0 {
        assert(a + b =~= a);
        assert(words_bytes(a) + words_bytes(b) =~= words_bytes(a));
    } else {
        lemma_words_concat(a, b.drop_last());
        assert((a + b).drop_last() =~= a + b.drop_last());
        assert((a + b).last() == b.last());
        assert(words_bytes(a + b) =~= words_bytes(a) + words_bytes(b));
    }
}

/// No words have no bytes.
proof fn lemma_words_when(c: bool, ws: Seq<u64>)
    ensures
        words_bytes(words_when(c, ws)) == crate::table::schema::when(c, words_bytes(ws)),
{
    if !c {
        assert(words_bytes(Seq::<u64>::empty()) =~= Seq::<u8>::empty());
    }
}

/// Each word of a sequence takes its own 8 bytes.
proof fn lemma_words_index(ws: Seq<u64>)
    ensures
        words_bytes(ws).len() == 8 * ws.len(),
        forall|i: int| 0 <= i < ws.len() ==> #[trigger] words_bytes(ws).subrange(8 * i, 8 * i + 8) == f64_bytes(ws[i]),
    decreases ws.len(),
{
    if ws.len() > 0 {
        let a = ws.drop_last();
        lemma_words_index(a);
        lemma_le_bytes_value(ws.last() as nat, 8);
        let wb = words_bytes(ws);
        assert(wb == words_bytes(a) + f64_bytes(ws.last()));
        assert forall|i: int| 0 <= i < ws.len() implies #[trigger] wb.subrange(8 * i, 8 * i + 8) == f64_bytes(ws[i]) by {
            if i < a.len() {
                assert(wb.subrange(8 * i, 8 * i + 8) =~= words_bytes(a).subrange(8 * i, 8 * i + 8));
            } else {
                assert(wb.subrange(8 * i, 8 * i + 8) =~= f64_bytes(ws.last()));
            }
        }
    }
}

/// Words at the front of what follows `p` are read back.
proof fn lemma_words_peel(s: Seq<u8>, p: nat, ws: Seq<u64>, t: Seq<u8>)
    requires
        p <= s.len(),
        rest_at(s, p) == words_bytes(ws) + t,
    ensures
        words_at(s, p, ws.len()) == Some(ws),
        rest_at(s, p + 8 * ws.len()) == t,
        p + 8 * ws.len() <= s.len(),
{
    lemma_words_index(ws);
    let wb = words_bytes(ws);
    lemma_window(s, p, wb, t);
    lemma_pow_values();
    let r = Seq::new(ws.len(), |i: int| le_value(s.subrange(p + 8 * i, p + 8 * i + 8)) as u64);
    assert forall|i: int| 0 <= i < ws.len() implies r[i] == ws[i] by {
        assert(s.subrange(p + 8 * i, p + 8 * i + 8) =~= wb.subrange(8 * i, 8 * i + 8));
        assert(wb.subrange(8 * i, 8 * i + 8) == f64_bytes(ws[i]));
        lemma_le_bytes_value(ws[i] as nat, 8);
        vstd::arithmetic::div_mod::lemma_small_mod(ws[i] as nat, pow256(8));
    }
    assert(words_at(s, p, ws.len()).unwrap() =~= ws);
}

/// The grid words are what the writer puts before the zero byte and the grid sizes.
proof fn lemma_grid_words_bytes(g: GridView, m: bool, z: bool)
    ensures
        words_bytes(grid_words(g, m, z)) + (seq![0u8] + le_bytes(g.grid_sizes.len(), 4) + words_bytes(g.grid_sizes))
            == grid_params_bytes(g, m, z) + grid_tail_bytes(g, m, z),
        grid_words(g, m, z).len() == grid_word_count(m, z, z, m),
{
    lemma_words_one(g.xorig);
    lemma_words_one(g.yorig);
    lemma_words_one(g.xyscale);
    lemma_words_one(g.morig);
    lemma_words_one(g.mscale);
    lemma_words_one(g.zorig);
    lemma_words_one(g.zscale);
    lemma_words_one(g.xytol);
    lemma_words_one(g.mtol);
    lemma_words_one(g.ztol);
    lemma_words_one(g.extent.0);
    lemma_words_one(g.extent.1);
    lemma_words_one(g.extent.2);
    lemma_words_one(g.extent.3);
    lemma_words_one(0);
    lemma_words_concat(seq![g.morig], seq![g.mscale]);
    lemma_words_concat(seq![g.zorig], seq![g.zscale]);
    lemma_words_concat(seq![0u64], seq![0u64]);
    lemma_words_when(m, seq![g.morig] + seq![g.mscale]);
    lemma_words_when(z, seq![g.zorig] + seq![g.zscale]);
    lemma_words_when(m, seq![g.mtol]);
    lemma_words_when(z, seq![g.ztol]);
    lemma_words_when(z, seq![0u64] + seq![0u64]);
    lemma_words_when(m, seq![0u64] + seq![0u64]);
    lemma_le_bytes_zero(8);
    assert(f64_bytes(0) + f64_bytes(0) =~= zeros(16));
    let p1 = seq![g.xorig] + seq![g.yorig];
    let p2 = p1 + seq![g.xyscale];
    let p3 = p2 + words_when(m, seq![g.morig] + seq![g.mscale]);
    let p4 = p3 + words_when(z, seq![g.zorig] + seq![g.zscale]);
    let p5 = p4 + seq![g.xytol];
    let p6 = p5 + words_when(m, seq![g.mtol]);
    let p7 = p6 + words_when(z, seq![g.ztol]);
    let p8 = p7 + seq![g.extent.0];
    let p9 = p8 + seq![g.extent.1];
    let p10 = p9 + seq![g.extent.2];
    let p11 = p10 + seq![g.extent.3];
    let p12 = p11 + words_when(z, seq![0u64] + seq![0u64]);
    let p13 = p12 + words_when(m, seq![0u64] + seq![0u64]);
    lemma_words_concat(seq![g.xorig], seq![g.yorig]);
    lemma_words_concat(p1, seq![g.xyscale]);
    lemma_words_concat(p2, words_when(m, seq![g.morig] + seq![g.mscale]));
    lemma_words_concat(p3, words_when(z, seq![g.zorig] + seq![g.zscale]));
    lemma_words_concat(p4, seq![g.xytol]);
    lemma_words_concat(p5, words_when(m, seq![g.mtol]));
    lemma_words_concat(p6, words_when(z, seq![g.ztol]));
    lemma_words_concat(p7, seq![g.extent.0]);
    lemma_words_concat(p8, seq![g.extent.1]);
    lemma_words_concat(p9, seq![g.extent.2]);
    lemma_words_concat(p10, seq![g.extent.3]);
    lemma_words_concat(p11, words_when(z, seq![0u64] + seq![0u64]));
    lemma_words_concat(p12, words_when(m, seq![0u64] + seq![0u64]));
    assert(grid_words(g, m, z) == p13);
    assert(words_bytes(grid_words(g, m, z)) + (seq![0u8] + le_bytes(g.grid_sizes.len(), 4) + words_bytes(g.grid_sizes))
        =~= grid_params_bytes(g, m, z) + grid_tail_bytes(g, m, z));
}

/// The grid read from the grid words is the grid that the description keeps.
proof fn lemma_grid_from_words(g: GridView, m: bool, z: bool)
    ensures
        grid_from_words(grid_words(g, m, z), m, z, g.grid_sizes) == stored_grid(g, m, z),
{
    let w = grid_words(g, m, z);
    let e = g.extent;
    if m && z {
        assert(w =~= seq![g.xorig, g.yorig, g.xyscale, g.morig, g.mscale, g.zorig, g.zscale, g.xytol, g.mtol, g.ztol,
            e.0, e.1, e.2, e.3, 0u64, 0u64, 0u64, 0u64]);
    } else if m {
        assert(w =~= seq![g.xorig, g.yorig, g.xyscale, g.morig, g.mscale, g.xytol, g.mtol, e.0, e.1, e.2, e.3, 0u64, 0u64]);
    } else if z {
        assert(w =~= seq![g.xorig, g.yorig, g.xyscale, g.zorig, g.zscale, g.xytol, g.ztol, e.0, e.1, e.2, e.3, 0u64, 0u64]);
    } else {
        assert(w =~= seq![g.xorig, g.yorig, g.xyscale, g.xytol, e.0, e.1, e.2, e.3]);
    }
}

/// The geometry flags byte reads back as the M and Z flags.
proof fn lemma_gflags(m: bool, z: bool)
    ensures
        ({
            let gf = (1 + (if m { 2nat } else { 0nat }) + (if z { 4nat } else { 0nat })) as u8;
            &&& (gf & 2u8 != 0) == m
            &&& (gf & 4u8 != 0) == z
        }),
{
    let bm: u8 = if m { 2 } else { 0 };
    let bz: u8 = if z { 4 } else { 0 };
    assert((1 + (if m { 2nat } else { 0nat }) + (if z { 4nat } else { 0nat })) as u8 == 1 + bm + bz);
    assert((bm == 0u8 || bm == 2u8) && (bz == 0u8 || bz == 4u8) ==> {
        &&& ((1 + bm + bz) as u8 & 2u8 != 0) == (bm == 2u8)
        &&& ((1 + bm + bz) as u8 & 4u8 != 0) == (bz == 4u8)
    }) by (bit_vector);
}

/// The flags byte and spatial reference of a geometry field are read back.
proof fn lemma_geometry_head(s: Seq<u8>, q: nat, srs: Seq<char>, fl: u8, rest: Seq<u8>)
    requires
        q <= s.len(),
        utf16_units(srs).len() < 0x8000,
        rest_at(s, q) == seq![0u8] + (seq![fl] + (le_bytes(utf16_bytes(srs).len(), 2) + (utf16_bytes(srs) + rest))),
    ensures
        geometry_head_at(s, q) == Some((fl, srs, q + 4 + utf16_bytes(srs).len())),
        rest_at(s, q + 4 + utf16_bytes(srs).len()) == rest,
        q + 4 + utf16_bytes(srs).len() <= s.len(),
{
    let us = utf16_units(srs);
    let wkt = utf16_bytes(srs);
    let wl = wkt.len();
    assert(wl == 2 * us.len());
    lemma_byte_peel(s, q, 0, seq![fl] + (le_bytes(wl, 2) + (wkt + rest)));
    lemma_byte_peel(s, q + 1, fl, le_bytes(wl, 2) + (wkt + rest));
    lemma_le_peel(s, q + 2, wl, 2, wkt + rest);
    lemma_pow_values();
    vstd::arithmetic::div_mod::lemma_small_mod(wl, pow256(2));
    lemma_window(s, q + 4, wkt, rest);
    lemma_le_units_units_le(us);
    lemma_utf16_text(srs);
    if wl == 0 {
        lemma_no_units(srs);
        assert(srs =~= Seq::<char>::empty());
    }
}

/// The grid of a geometry field is read back from its flags byte on.
#[verifier::rlimit(30)]
proof fn lemma_geometry_grid(s: Seq<u8>, q3: nat, g: GridView, m: bool, z: bool, t: Seq<u8>)
    requires
        q3 <= s.len(),
        g.grid_sizes.len() < 0x1_0000_0000,
        rest_at(s, q3) == seq![(1 + (if m { 2nat } else { 0nat }) + (if z { 4nat } else { 0nat })) as u8]
            + ((grid_params_bytes(g, m, z) + grid_tail_bytes(g, m, z)) + t),
    ensures
        geometry_grid_at(s, q3, z, m) == Some((stored_grid(g, m, z),
            q3 + 1 + (grid_params_bytes(g, m, z) + grid_tail_bytes(g, m, z)).len())),
{
    let gf = (1 + (if m { 2nat } else { 0nat }) + (if z { 4nat } else { 0nat })) as u8;
    let tail2 = seq![0u8] + le_bytes(g.grid_sizes.len(), 4) + words_bytes(g.grid_sizes);
    lemma_grid_words_bytes(g, m, z);
    let gw = grid_words(g, m, z);
    assert((grid_params_bytes(g, m, z) + grid_tail_bytes(g, m, z)) + t == words_bytes(gw) + (tail2 + t));
    lemma_byte_peel(s, q3, gf, words_bytes(gw) + (tail2 + t));
    lemma_gflags(m, z);
    lemma_words_peel(s, q3 + 1, gw, tail2 + t);
    let q4: nat = q3 + 1 + 8 * gw.len();
    assert(tail2 + t =~= seq![0u8] + (le_bytes(g.grid_sizes.len(), 4) + (words_bytes(g.grid_sizes) + t)));
    lemma_byte_peel(s, q4, 0, le_bytes(g.grid_sizes.len(), 4) + (words_bytes(g.grid_sizes) + t));
    lemma_le_peel(s, q4 + 1, g.grid_sizes.len(), 4, words_bytes(g.grid_sizes) + t);
    lemma_pow_values();
    vstd::arithmetic::div_mod::lemma_small_mod(g.grid_sizes.len(), pow256(4));
    lemma_words_peel(s, q4 + 5, g.grid_sizes, t);
    lemma_grid_from_words(g, m, z);
    lemma_words_index(gw);
    lemma_words_index(g.grid_sizes);
    lemma_le_bytes_value(g.grid_sizes.len(), 4);
    assert((grid_params_bytes(g, m, z) + grid_tail_bytes(g, m, z)).len() == 8 * gw.len() + 5 + 8 * g.grid_sizes.len());
}

/// The bytes of a geometry field's properties, piece by piece.
proof fn lemma_geometry_bytes_shape(f: FieldDef, m: bool, z: bool, t: Seq<u8>)
    ensures
        ({
            let fl = flags_of(f.nullable, f.required, f.editable);
            let wkt = utf16_bytes(f.srs_wkt@);
            let gf = (1 + (if m { 2nat } else { 0nat }) + (if z { 4nat } else { 0nat })) as u8;
            let gp = grid_params_bytes(f.grid@, m, z) + grid_tail_bytes(f.grid@, m, z);
            let gb = seq![0u8, fl] + le_bytes(wkt.len(), 2) + wkt + seq![gf] + gp;
            &&& gb + t == seq![0u8] + (seq![fl] + (le_bytes(wkt.len(), 2) + (wkt + (seq![gf] + (gp + t)))))
            &&& gb.len() == 4 + wkt.len() + 1 + gp.len()
        }),
{
    let fl = flags_of(f.nullable, f.required, f.editable);
    let wkt = utf16_bytes(f.srs_wkt@);
    let gf = (1 + (if m { 2nat } else { 0nat }) + (if z { 4nat } else { 0nat })) as u8;
    let gp = grid_params_bytes(f.grid@, m, z) + grid_tail_bytes(f.grid@, m, z);
    let gb = seq![0u8, fl] + le_bytes(wkt.len(), 2) + wkt + seq![gf] + gp;
    assert(gb + t =~= seq![0u8] + (seq![fl] + (le_bytes(wkt.len(), 2) + (wkt + (seq![gf] + (gp + t))))));
    lemma_le_bytes_value(wkt.len(), 2);
}

/// The properties of a geometry field are read back.
#[verifier::rlimit(40)]
proof fn lemma_geometry_props(s: Seq<u8>, q: nat, f: FieldDef, base: FieldDefView, has_z: bool, has_m: bool, t: Seq<u8>)
    requires
        q <= s.len(),
        f.field_type == FieldType::Geometry,
        utf16_units(f.srs_wkt@).len() < 0x8000,
        f.grid@.grid_sizes.len() < 0x1_0000_0000,
        f.geom_has_z ==> has_z,
        f.geom_has_m ==> has_m,
        rest_at(s, q) == geometry_field_bytes(f, has_z, has_m) + t,
    ensures
        geometry_props_at(s, q, base, has_z, has_m) == Some((FieldDefView {
            srs_wkt: f.srs_wkt@,
            geom_has_z: has_z,
            geom_has_m: has_m,
            grid: stored_grid(f.grid@, has_m, has_z),
            nullable: f.nullable,
            required: f.required,
            editable: f.editable,
            ..base
        }, q + geometry_field_bytes(f, has_z, has_m).len())),
{
    let m = f.geom_has_m || has_m;
    let z = f.geom_has_z || has_z;
    assert(m == has_m && z == has_z);
    let fl = flags_of(f.nullable, f.required, f.editable);
    let wkt = utf16_bytes(f.srs_wkt@);
    let wl = wkt.len();
    let gf = (1 + (if m { 2nat } else { 0nat }) + (if z { 4nat } else { 0nat })) as u8;
    let g = f.grid@;
    let gp = grid_params_bytes(g, m, z) + grid_tail_bytes(g, m, z);
    lemma_geometry_bytes_shape(f, m, z, t);
    assert(geometry_field_bytes(f, has_z, has_m) == seq![0u8, fl] + le_bytes(wl, 2) + wkt + seq![gf] + gp);
    let rest = seq![gf] + (gp + t);
    lemma_geometry_head(s, q, f.srs_wkt@, fl, rest);
    let q3: nat = q + 4 + wl;
    lemma_geometry_grid(s, q3, g, m, z, t);
    lemma_flags_read(FieldDefView { srs_wkt: f.srs_wkt@, geom_has_z: has_z, geom_has_m: has_m, grid: stored_grid(g, m, z), ..base },
        f.nullable, f.required, f.editable);
}

// ---------------------------------------------------------------------------
// A whole field description
// ---------------------------------------------------------------------------

/// The type-dependent part of a field description.
pub open spec fn field_props_bytes(f: FieldDef, has_z: bool, has_m: bool) -> Seq<u8> {
    let flags = flags_of(f.nullable, f.required, f.editable);
    match f.field_type {
        FieldType::String => le_bytes(twos(f.length as int, 0x1_0000_0000), 4) + seq![flags] + string_default_bytes(f),
        FieldType::Geometry => geometry_field_bytes(f, has_z, has_m),
        FieldType::ObjectId => seq![4u8, flags],
        FieldType::Uuid => seq![0x26u8, flags],
        FieldType::Binary | FieldType::Raster | FieldType::Xml => seq![0u8, flags],
        _ => seq![fixed_size_of(f.field_type) as u8, flags] + numeric_default_bytes(f),
    }
}

/// A field description where the writer put it is read back.
#[verifier::rlimit(40)]
pub proof fn lemma_field_def_read(s: Seq<u8>, p: nat, f: FieldDef, has_z: bool, has_m: bool, t: Seq<u8>)
    requires
        p <= s.len(),
        field_roundtrips(f, has_z, has_m),
        rest_at(s, p) == field_def_bytes(f, has_z, has_m) + t,
    ensures
        field_def_at(s, p, has_z, has_m) == Some((field_read_back(f, has_z, has_m), p + field_def_bytes(f, has_z, has_m).len())),
{
    reveal(field_def_at);
    let tc = field_type_code(f.field_type);
    let fl = flags_of(f.nullable, f.required, f.editable);
    let props = field_props_bytes(f, has_z, has_m);
    let fdb = field_def_bytes(f, has_z, has_m);
    assert(fdb == counted_utf16(f.name@) + counted_utf16(f.alias@) + seq![tc] + props);
    assert(fdb + t =~= counted_utf16(f.name@) + (counted_utf16(f.alias@) + (seq![tc] + (props + t))));
    lemma_head_read(s, p, f, props + t);
    let q: nat = p + counted_utf16(f.name@).len() + counted_utf16(f.alias@).len() + 1;
    law_field_type_of_code(f.field_type);
    assert(field_type_of(tc) == f.field_type);
    let base = FieldDefView { alias: f.alias@, ..new_field_view(f.name@, f.field_type) };
    match f.field_type {
        FieldType::String => {
            let sd = string_default_bytes(f);
            assert(props + t =~= le_bytes(twos(f.length as int, 0x1_0000_0000), 4) + (seq![fl] + (sd + t)));
            lemma_string_props(s, q, f, base, has_z, has_m, t);
            lemma_le_bytes_value(twos(f.length as int, 0x1_0000_0000), 4);
        },
        FieldType::ObjectId => lemma_simple_props(s, q, f, base, 4, has_z, has_m, t),
        FieldType::Uuid => lemma_simple_props(s, q, f, base, 0x26, has_z, has_m, t),
        FieldType::Binary | FieldType::Raster | FieldType::Xml => lemma_simple_props(s, q, f, base, 0, has_z, has_m, t),
        FieldType::Geometry => lemma_geometry_props(s, q, f, base, has_z, has_m, t),
        _ => {
            let nd = numeric_default_bytes(f);
            assert(props + t =~= seq![fixed_size_of(f.field_type) as u8, fl] + (nd + t));
            lemma_numeric_props(s, q, f, base, has_z, has_m, t);
        },
    }
}

/// Reading a field description where the writer put it, whatever bytes come before and
/// after it, gives back the field as [`field_read_back`] says, and ends where the
/// description ends.
pub proof fn law_field_def_roundtrip(pre: Seq<u8>, f: FieldDef, has_z: bool, has_m: bool, post: Seq<u8>)
    requires
        field_roundtrips(f, has_z, has_m),
    ensures
        field_def_at(pre + field_def_bytes(f, has_z, has_m) + post, pre.len(), has_z, has_m)
            == Some((field_read_back(f, has_z, has_m), pre.len() + field_def_bytes(f, has_z, has_m).len())),
{
    let fdb = field_def_bytes(f, has_z, has_m);
    let s = pre + fdb + post;
    assert(rest_at(s, pre.len()) =~= fdb + post);
    lemma_field_def_read(s, pre.len(), f, has_z, has_m, post);
}

} // verus!
