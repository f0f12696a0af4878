//! The row codec's round trip: reading back a row where the encoder wrote it.
use vstd::prelude::*;
use vstd::utf8::{encode_utf8, valid_utf8, decode_utf8};
use crate::io::{
    le_bytes, leb_encode, le_value, to_signed, rest_at, pow256, lemma_le_bytes_value, lemma_pow_values,
    utf16_units, units_le, le_units, lemma_utf16_text, lemma_le_units_units_le,
};
use crate::field::{FieldDefView, FieldType, nullable_count_of, fixed_size_of};
use crate::value::ValueView;
use crate::error::ErrorKind;
use crate::geometry::{geometry_blob, decode_geometry_spec};
use crate::geometry::roundtrip::{
    canonical_geometry, roundtrip_domain, law_geometry_roundtrip, lemma_varuint_peel, lemma_rest_advance,
};
use crate::table::rows::{
    twos, zeros, text_bytes, prefixed, uuid_from_hex, hex_digits, value_bytes, row_parts, bit_of,
    null_bitmap, bitmap_len, row_blob, text_of, prefixed_at, field_value_at, field_len_at, decode_step,
    decode_fields, decode_row_spec, lemma_null_bitmap_len,
};

verus! {

/// The value of field `f` that reading a row gives back after `v` was written in slot
/// `slot`: the object ID comes from the slot, NULL stays NULL in a nullable field, and a
/// value of another kind than the field's comes back as the field's empty value.
pub open spec fn read_back(f: FieldDefView, v: ValueView, slot: u64) -> ValueView {
    if f.field_type == FieldType::ObjectId {
        ValueView::ObjectId((slot + 1) as u64)
    } else if f.nullable && v is Null {
        ValueView::Null
    } else {
        match f.field_type {
            FieldType::Int16 => match v {
                ValueView::Int16(x) => ValueView::Int16(x),
                _ => ValueView::Int16(0),
            },
            FieldType::Int32 => match v {
                ValueView::Int32(x) => ValueView::Int32(x),
                _ => ValueView::Int32(0),
            },
            FieldType::Float32 => match v {
                ValueView::Float(b) => ValueView::Float(b),
                _ => ValueView::Float(0),
            },
            FieldType::Float64 => match v {
                ValueView::Double(b) => ValueView::Double(b),
                _ => ValueView::Double(0),
            },
            FieldType::Int64 => match v {
                ValueView::Int64(x) => ValueView::Int64(x),
                _ => ValueView::Int64(0),
            },
            FieldType::DateTime | FieldType::Date | FieldType::Time => match v {
                ValueView::DateTime(b) => ValueView::DateTime(b),
                _ => ValueView::DateTime(0),
            },
            FieldType::Uuid => match v {
                ValueView::Uuid(u) => ValueView::Uuid(u),
                ValueView::Text(s) => ValueView::Uuid(uuid_from_hex(hex_digits(s))),
                _ => ValueView::Uuid(zeros(16)),
            },
            FieldType::String => match v {
                ValueView::Text(s) => ValueView::Text(s),
                ValueView::Xml(s) => ValueView::Text(s),
                _ => ValueView::Text(Seq::empty()),
            },
            FieldType::Xml => match v {
                ValueView::Xml(s) => ValueView::Xml(s),
                _ => ValueView::Xml(Seq::empty()),
            },
            FieldType::Binary | FieldType::Raster => match v {
                ValueView::Binary(b) => ValueView::Binary(b),
                _ => ValueView::Binary(Seq::empty()),
            },
            FieldType::Geometry => match v {
                ValueView::Geometry(g) => ValueView::Geometry(canonical_geometry(g)),
                _ => v,
            },
            _ => ValueView::Binary(Seq::empty()),
        }
    }
}

/// The values that reading a row gives back.
pub open spec fn read_back_row(fields: Seq<FieldDefView>, row: Seq<ValueView>, slot: u64) -> Seq<ValueView> {
    Seq::new(fields.len(), |i: int| read_back(fields[i], row[i], slot))
}

/// A value that the row codec reads back: its field is of a known type, a UUID has 16
/// bytes, and a geometry field holds a geometry within the geometry codec's round trip
/// unless it is a nullable field holding NULL.
pub open spec fn value_roundtrips(f: FieldDefView, v: ValueView) -> bool {
    &&& !(f.field_type is Other)
    &&& (v matches ValueView::Uuid(u) ==> u.len() == 16)
    &&& (f.field_type == FieldType::Geometry && !(f.nullable && v is Null)) ==> (v matches ValueView::Geometry(g) && roundtrip_domain(g))
}

/// A row that the row codec reads back: a value for each field, each one read back, and
/// at most `2^31 - 1` bytes after the length word.
pub open spec fn row_roundtrips(fields: Seq<FieldDefView>, row: Seq<ValueView>, utf8: bool) -> bool {
    &&& row.len() >= fields.len()
    &&& forall|i: int| 0 <= i < fields.len() ==> value_roundtrips(#[trigger] fields[i], row[i])
    &&& row_blob(fields, row, utf8).len() < 0x8000_0004
}

/// `n` zero bytes read as 0.
proof fn lemma_zeros_value(n: nat)
    ensures
        zeros(n) == le_bytes(0, n),
        le_value(zeros(n)) == 0,
    decreases n,
{
    if n > 0 {
        lemma_zeros_value((n - 1) as nat);
        assert(zeros(n) =~= seq![0u8] + zeros((n - 1) as nat));
    }
    lemma_le_bytes_value(0, n);
    assert(pow256(n) > 0) by {
        crate::io::lemma_pow256_mono(0, n);
    }
    vstd::arithmetic::div_mod::lemma_small_mod(0, pow256(n));
}

/// Text written as stored bytes reads back.
proof fn lemma_text_roundtrip(s: Seq<char>, utf8: bool)
    ensures
        text_of(text_bytes(s, utf8), utf8) == s,
{
    if utf8 {
        vstd::utf8::encode_utf8_valid_utf8(s);
        vstd::utf8::encode_utf8_decode_utf8(s);
    } else {
        let us = utf16_units(s);
        lemma_le_units_units_le(us);
        lemma_utf16_text(s);
    }
}

/// Length-prefixed bytes followed by anything read back.
proof fn lemma_prefixed_read(data: Seq<u8>, p: nat, b: Seq<u8>, t: Seq<u8>)
    requires
        rest_at(data, p) == prefixed(b) + t,
        b.len() < 0x8000_0000,
    ensures
        prefixed_at(data, p) == Some(b),
{
    let l = b.len() as u64;
    assert(prefixed(b) + t == leb_encode(l as nat) + (b + t));
    lemma_varuint_peel(data, p, l, b + t);
    let q = p + leb_encode(l as nat).len();
    assert(rest_at(data, q) == b + t);
    assert(q + b.len() <= data.len());
    assert(data.subrange(q as int, (q + b.len()) as int) =~= b) by {
        assert forall|i: int| 0 <= i < b.len() implies data.subrange(q as int, (q + b.len()) as int)[i] == b[i] by {
            assert(rest_at(data, q)[i] == (b + t)[i]);
        }
    }
}

/// A fixed-size little-endian value followed by anything reads back.
proof fn lemma_fixed_read(data: Seq<u8>, p: nat, w: nat, n: nat, t: Seq<u8>)
    requires
        rest_at(data, p) == le_bytes(w, n) + t,
        w < pow256(n),
    ensures
        rest_at(data, p).len() >= n,
        le_value(rest_at(data, p).subrange(0, n as int)) == w,
{
    lemma_le_bytes_value(w, n);
    vstd::arithmetic::div_mod::lemma_small_mod(w, pow256(n));
    assert(rest_at(data, p).subrange(0, n as int) =~= le_bytes(w, n));
}

/// The stored bytes of a value, followed by anything, read back as [`read_back`] says.
pub proof fn lemma_value_read(data: Seq<u8>, p: nat, f: FieldDefView, v: ValueView, utf8: bool, slot: u64, t: Seq<u8>)
    requires
        rest_at(data, p) == value_bytes(f, v, utf8) + t,
        value_roundtrips(f, v),
        f.field_type != FieldType::ObjectId,
        !(f.nullable && v is Null),
        value_bytes(f, v, utf8).len() < 0x8000_0000,
    ensures
        field_value_at(data, p, f, utf8) == Ok::<ValueView, ErrorKind>(read_back(f, v, slot)),
{
    reveal(field_value_at);
    lemma_pow_values();
    let r = rest_at(data, p);
    match f.field_type {
        FieldType::Int16 => match v {
            ValueView::Int16(x) => lemma_fixed_read(data, p, twos(x as int, 0x1_0000), 2, t),
            _ => {
                lemma_zeros_value(2);
                lemma_fixed_read(data, p, 0, 2, t);
            },
        },
        FieldType::Int32 => match v {
            ValueView::Int32(x) => lemma_fixed_read(data, p, twos(x as int, 0x1_0000_0000), 4, t),
            _ => {
                lemma_zeros_value(4);
                lemma_fixed_read(data, p, 0, 4, t);
            },
        },
        FieldType::Float32 => match v {
            ValueView::Float(b) => lemma_fixed_read(data, p, b as nat, 4, t),
            _ => {
                lemma_zeros_value(4);
                lemma_fixed_read(data, p, 0, 4, t);
            },
        },
        FieldType::Float64 => match v {
            ValueView::Double(b) => lemma_fixed_read(data, p, b as nat, 8, t),
            _ => {
                lemma_zeros_value(8);
                lemma_fixed_read(data, p, 0, 8, t);
            },
        },
        FieldType::Int64 => match v {
            ValueView::Int64(x) => lemma_fixed_read(data, p, twos(x as int, 0x1_0000_0000_0000_0000), 8, t),
            _ => {
                lemma_zeros_value(8);
                lemma_fixed_read(data, p, 0, 8, t);
            },
        },
        FieldType::DateTime | FieldType::Date | FieldType::Time => match v {
            ValueView::DateTime(b) => lemma_fixed_read(data, p, b as nat, 8, t),
            _ => {
                lemma_zeros_value(8);
                lemma_fixed_read(data, p, 0, 8, t);
            },
        },
        FieldType::Uuid => {
            let vb = value_bytes(f, v, utf8);
            assert(vb.len() == 16);
            assert(r.subrange(0, 16) =~= vb);
        },
        FieldType::String | FieldType::Xml => {
            let s: Seq<char> = match v {
                ValueView::Text(s) => if f.field_type == FieldType::String { s } else { Seq::empty() },
                ValueView::Xml(s) => s,
                _ => Seq::empty(),
            };
            assert(text_bytes(Seq::<char>::empty(), utf8) =~= Seq::<u8>::empty()) by {
                if utf8 {
                    assert(encode_utf8(Seq::<char>::empty()) =~= Seq::<u8>::empty());
                } else {
                    assert(utf16_units(Seq::<char>::empty()) =~= Seq::<u16>::empty());
                }
            }
            assert(value_bytes(f, v, utf8) == prefixed(text_bytes(s, utf8)));
            lemma_prefixed_read(data, p, text_bytes(s, utf8), t);
            lemma_text_roundtrip(s, utf8);
        },
        FieldType::Binary | FieldType::Raster => {
            let b: Seq<u8> = match v {
                ValueView::Binary(b) => b,
                _ => Seq::empty(),
            };
            assert(value_bytes(f, v, utf8) == prefixed(b));
            lemma_prefixed_read(data, p, b, t);
        },
        FieldType::Geometry => {
            let g = v->Geometry_0;
            let blob = geometry_blob(g, f.geom_has_z, f.geom_has_m);
            lemma_prefixed_read(data, p, blob, t);
            law_geometry_roundtrip(g, f.geom_has_z, f.geom_has_m);
        },
        _ => {},
    }
}

/// The value codec's round trip: the bytes that the encoder writes for a value of a field,
/// followed by anything, are read back by the value decoder as [`read_back`] says; for a
/// value of the field's own kind (an `Int32` in an `Int32` field, text in a `String`
/// field, ...) that is the value itself. Lengths of 2^31 bytes and more are left out: a row
/// of that size has no length word.
pub proof fn law_value_roundtrip(f: FieldDefView, v: ValueView, utf8: bool, t: Seq<u8>)
    requires
        value_roundtrips(f, v),
        f.field_type != FieldType::ObjectId,
        !(f.nullable && v is Null),
        value_bytes(f, v, utf8).len() < 0x8000_0000,
    ensures
        field_value_at(value_bytes(f, v, utf8) + t, 0, f, utf8) == Ok::<ValueView, ErrorKind>(read_back(f, v, 0)),
{
    let data = value_bytes(f, v, utf8) + t;
    assert(rest_at(data, 0) =~= data);
    lemma_value_read(data, 0, f, v, utf8, 0, t);
}

/// The stored bytes of a value, followed by anything within the row, take their own length.
pub proof fn lemma_value_len(row: Seq<u8>, rel: nat, f: FieldDefView, v: ValueView, utf8: bool, t: Seq<u8>)
    requires
        rest_at(row, rel) == value_bytes(f, v, utf8) + t,
        value_roundtrips(f, v),
        f.field_type != FieldType::ObjectId,
        value_bytes(f, v, utf8).len() < 0x8000_0000,
    ensures
        field_len_at(row, rel, f.field_type) == Some(value_bytes(f, v, utf8).len()),
{
    reveal(field_len_at);
    let vb = value_bytes(f, v, utf8);
    match f.field_type {
        FieldType::String | FieldType::Xml | FieldType::Binary | FieldType::Raster | FieldType::Geometry => {
            let inner: Seq<u8> = match f.field_type {
                FieldType::String => match v {
                    ValueView::Text(s) => text_bytes(s, utf8),
                    ValueView::Xml(s) => text_bytes(s, utf8),
                    _ => Seq::empty(),
                },
                FieldType::Xml => match v {
                    ValueView::Xml(s) => text_bytes(s, utf8),
                    _ => Seq::empty(),
                },
                FieldType::Geometry => match v {
                    ValueView::Geometry(g) => geometry_blob(g, f.geom_has_z, f.geom_has_m),
                    _ => Seq::empty(),
                },
                _ => match v {
                    ValueView::Binary(b) => b,
                    _ => Seq::empty(),
                },
            };
            assert(leb_encode(0) =~= seq![0u8]);
            assert(vb == prefixed(inner));
            let l = inner.len() as u64;
            assert(rest_at(row, rel) == leb_encode(l as nat) + (inner + t));
            assert(inner.len() < 0x8000_0000);
            assert(l as nat == inner.len());
            lemma_varuint_peel(row, rel, l, inner + t);
            assert(rel <= row.len());
            let q = rel + leb_encode(l as nat).len();
            assert(crate::io::varuint_at(row, rel) == Some((l, q)));
            assert(((q - rel) + l) as nat == vb.len());
            assert(field_len_at(row, rel, f.field_type) == match crate::io::varuint_at(row, rel) {
                Some((len, q)) => Some(((q - rel) + len) as nat),
                None => None::<nat>,
            });
            assert(field_len_at(row, rel, f.field_type) == Some(vb.len()));
        },
        _ => {
            match v {
                ValueView::Int16(x) => lemma_le_bytes_value(twos(x as int, 0x1_0000), 2),
                ValueView::Int32(x) => lemma_le_bytes_value(twos(x as int, 0x1_0000_0000), 4),
                ValueView::Int64(x) => lemma_le_bytes_value(twos(x as int, 0x1_0000_0000_0000_0000), 8),
                ValueView::Float(b) => lemma_le_bytes_value(b as nat, 4),
                ValueView::Double(b) => lemma_le_bytes_value(b as nat, 8),
                ValueView::DateTime(b) => lemma_le_bytes_value(b as nat, 8),
                _ => {},
            }
            assert(vb.len() == fixed_size_of(f.field_type));
            assert(vb.len() > 0);
            assert(rel <= row.len());
        },
    }
}

/// Each flag of the null bitmap sits in its bit.
pub proof fn lemma_bitmap_bit(flags: Seq<bool>, nb: nat, k: nat)
    requires
        k < flags.len(),
        (flags.len() - 1) / 8 < nb,
    ensures
        bit_of(null_bitmap(flags, nb)[(k / 8) as int], k % 8) == flags[k as int],
    decreases flags.len(),
{
    lemma_null_bitmap_len(flags, nb);
    let n = flags.len();
    let last = (n - 1) as nat;
    if n == 1 {
        let z = zeros(nb);
        let b: u8 = 0;
        assert(null_bitmap(flags.drop_last(), nb) == z);
        let zz = z[0];
        assert(zz == 0);
        assert((0u8 >> 0u8) & 1u8 == 0u8) by (bit_vector);
        if flags[0] {
            let x = (0u8 | (1u8 << 0u8));
            assert((x >> 0u8) & 1u8 == 1u8) by (bit_vector)
                requires
                    x == (0u8 | (1u8 << 0u8));
        }
    } else {
        let prev = null_bitmap(flags.drop_last(), nb);
        lemma_null_bitmap_len(flags.drop_last(), nb);
        let j = k / 8;
        let t = (k % 8) as u8;
        let a = (last % 8) as u8;
        if k < last {
            lemma_bitmap_bit(flags.drop_last(), nb, k);
            assert(flags.drop_last()[k as int] == flags[k as int]);
        } else {
            assert(k == last);
            lemma_bitmap_zero_above(flags.drop_last(), nb, k);
        }
        if flags.last() {
            let x = prev[(last / 8) as int];
            let y = x | (1u8 << a);
            assert(((x | (1u8 << a)) >> t) & 1u8 == (if t == a { 1u8 } else { (x >> t) & 1u8 })) by (bit_vector)
                requires
                    a < 8,
                    t < 8;
            if j == last / 8 {
                assert(t == a <==> k == last);
            }
        }
    }
}

/// Bits at or past the flags are clear.
proof fn lemma_bitmap_zero_above(flags: Seq<bool>, nb: nat, k: nat)
    requires
        k >= flags.len(),
        k / 8 < nb,
    ensures
        !bit_of(null_bitmap(flags, nb)[(k / 8) as int], k % 8),
    decreases flags.len(),
{
    lemma_null_bitmap_len(flags, nb);
    let t = (k % 8) as u8;
    if flags.len() == 0 {
        assert(zeros(nb)[(k / 8) as int] == 0);
        assert((0u8 >> t) & 1u8 == 0u8) by (bit_vector);
    } else {
        let last = (flags.len() - 1) as nat;
        let prev = null_bitmap(flags.drop_last(), nb);
        lemma_bitmap_zero_above(flags.drop_last(), nb, k);
        lemma_null_bitmap_len(flags.drop_last(), nb);
        if flags.last() && last / 8 < nb {
            let a = (last % 8) as u8;
            let x = prev[(last / 8) as int];
            assert(((x | (1u8 << a)) >> t) & 1u8 == (if t == a { 1u8 } else { (x >> t) & 1u8 })) by (bit_vector)
                requires
                    a < 8,
                    t < 8;
            if k / 8 == last / 8 {
                assert(t != a);
            }
        }
    }
}

/// The flags and bytes of the first fields are a prefix of those of more fields.
pub proof fn lemma_row_parts_prefix(fields: Seq<FieldDefView>, row: Seq<ValueView>, utf8: bool, n: nat, m: nat)
    requires
        n <= m,
    ensures
        row_parts(fields, row, utf8, n).0.len() <= row_parts(fields, row, utf8, m).0.len(),
        row_parts(fields, row, utf8, n).1.len() <= row_parts(fields, row, utf8, m).1.len(),
        row_parts(fields, row, utf8, m).0.subrange(0, row_parts(fields, row, utf8, n).0.len() as int) == row_parts(fields, row, utf8, n).0,
        row_parts(fields, row, utf8, m).1.subrange(0, row_parts(fields, row, utf8, n).1.len() as int) == row_parts(fields, row, utf8, n).1,
    decreases m - n,
{
    if n < m {
        lemma_row_parts_prefix(fields, row, utf8, n, (m - 1) as nat);
        let (fa, va) = row_parts(fields, row, utf8, n);
        let (fb, vb) = row_parts(fields, row, utf8, (m - 1) as nat);
        let (fc, vc) = row_parts(fields, row, utf8, m);
        assert(fc.subrange(0, fb.len() as int) =~= fb);
        assert(vc.subrange(0, vb.len() as int) =~= vb);
        assert(fc.subrange(0, fa.len() as int) =~= fb.subrange(0, fa.len() as int));
        assert(vc.subrange(0, va.len() as int) =~= vb.subrange(0, va.len() as int));
    } else {
        let (fa, va) = row_parts(fields, row, utf8, n);
        assert(fa.subrange(0, fa.len() as int) =~= fa);
        assert(va.subrange(0, va.len() as int) =~= va);
    }
}

/// The nullable flags of the first fields are no more than their nullable fields.
pub proof fn lemma_row_parts_flags(fields: Seq<FieldDefView>, row: Seq<ValueView>, utf8: bool, n: nat)
    requires
        n <= fields.len(),
    ensures
        row_parts(fields, row, utf8, n).0.len() <= nullable_count_of(fields.take(n as int)),
    decreases n,
{
    if n > 0 {
        lemma_row_parts_flags(fields, row, utf8, (n - 1) as nat);
        assert(fields.take(n as int).drop_last() =~= fields.take(n - 1));
    }
}

/// The stored row is its length word, its bitmap and its value bytes.
proof fn lemma_row_blob_shape(fields: Seq<FieldDefView>, row: Seq<ValueView>, utf8: bool)
    ensures
        ({
            let nb = bitmap_len(nullable_count_of(fields));
            let (fl, vb) = row_parts(fields, row, utf8, fields.len());
            &&& row_blob(fields, row, utf8).len() == 4 + nb + vb.len()
            &&& row_blob(fields, row, utf8) == le_bytes(((nb + vb.len()) % 0x1_0000_0000) as nat, 4) + null_bitmap(fl, nb) + vb
            &&& null_bitmap(fl, nb).len() == nb
        }),
{
    let nb = bitmap_len(nullable_count_of(fields));
    let (fl, vb) = row_parts(fields, row, utf8, fields.len());
    lemma_le_bytes_value(((nb + vb.len()) % 0x1_0000_0000) as nat, 4);
    lemma_null_bitmap_len(fl, nb);
}

/// Reading the fields of a row where the encoder wrote it: after `n` fields, the values
/// read back so far, the position after their bytes and the nullable fields seen.
#[verifier::rlimit(30)]
proof fn lemma_fields_roundtrip(data: Seq<u8>, off: nat, end: nat, bits: Seq<u8>, fields: Seq<FieldDefView>,
    row: Seq<ValueView>, utf8: bool, slot: u64, nb: nat, n: nat)
    requires
        n <= fields.len(),
        slot < u64::MAX,
        row_roundtrips(fields, row, utf8),
        nb == bitmap_len(nullable_count_of(fields)),
        bits == null_bitmap(row_parts(fields, row, utf8, fields.len()).0, nb),
        end == off + 4 + nb + row_parts(fields, row, utf8, fields.len()).1.len(),
        end <= data.len(),
        data.subrange((off + 4 + nb) as int, end as int) == row_parts(fields, row, utf8, fields.len()).1,
    ensures
        decode_fields(data, off, end, bits, fields, utf8, slot, 4 + nb, n)
            == Ok::<(Seq<ValueView>, nat, nat), ErrorKind>((read_back_row(fields, row, slot).take(n as int),
                4 + nb + row_parts(fields, row, utf8, n).1.len(), row_parts(fields, row, utf8, n).0.len())),
    decreases n,
{
    if n == 0 {
        assert(read_back_row(fields, row, slot).take(0) =~= Seq::<ValueView>::empty());
    } else {
        let m = (n - 1) as nat;
        lemma_fields_roundtrip(data, off, end, bits, fields, row, utf8, slot, nb, m);
        let (fl, vb) = row_parts(fields, row, utf8, fields.len());
        let (fm, vm) = row_parts(fields, row, utf8, m);
        let (fnn, vn) = row_parts(fields, row, utf8, n);
        lemma_row_parts_prefix(fields, row, utf8, m, n);
        lemma_row_parts_prefix(fields, row, utf8, n, fields.len());
        lemma_row_blob_shape(fields, row, utf8);
        let f = fields[m as int];
        let v = row[m as int];
        assert(value_roundtrips(fields[m as int], row[m as int]));
        let prev = read_back_row(fields, row, slot).take(m as int);
        assert(read_back_row(fields, row, slot).take(n as int) =~= prev.push(read_back(f, v, slot)));
        let rel = 4 + nb + vm.len();
        if f.field_type != FieldType::ObjectId {
            if f.nullable {
                lemma_row_parts_flags(fields, row, utf8, fields.len());
                assert(fields.take(fields.len() as int) =~= fields);
                let k = fm.len();
                assert(fnn == fm.push(v is Null));
                assert(fl[k as int] == fnn[k as int]);
                assert((fl.len() - 1) / 8 < nb);
                lemma_bitmap_bit(fl, nb, k);
            }
            if !(f.nullable && v is Null) {
                let w = value_bytes(f, v, utf8);
                assert(vn == vm + w);
                let t1 = vb.subrange(vn.len() as int, vb.len() as int);
                let t = t1 + data.subrange(end as int, data.len() as int);
                assert(vb == vm + w + t1) by {
                    assert(vb.subrange(0, vn.len() as int) == vn);
                    assert(vb =~= vb.subrange(0, vn.len() as int) + t1);
                }
                assert(rest_at(data, off + rel) =~= w + t) by {
                    assert forall|i: int| 0 <= i < (w + t).len() implies #[trigger] rest_at(data, off + rel)[i] == (w + t)[i] by {
                        if i < w.len() + t1.len() {
                            assert(data.subrange((off + 4 + nb) as int, end as int)[vm.len() + i] == vb[vm.len() + i]);
                            assert((vm + w + t1)[vm.len() + i] == (w + t1)[i]);
                        }
                    }
                }
                lemma_value_read(data, off + rel, f, v, utf8, slot, t);
                let rowb = data.subrange(off as int, end as int);
                assert(rest_at(rowb, rel) =~= w + t1) by {
                    assert forall|i: int| 0 <= i < (w + t1).len() implies #[trigger] rest_at(rowb, rel)[i] == (w + t1)[i] by {
                        assert(data.subrange((off + 4 + nb) as int, end as int)[vm.len() + i] == vb[vm.len() + i]);
                        assert((vm + w + t1)[vm.len() + i] == (w + t1)[i]);
                    }
                }
                lemma_value_len(rowb, rel, f, v, utf8, t1);
            }
        }
    }
}

/// Reading back a row where [`crate::table::rows::encode_row`] wrote it gives its values,
/// whatever bytes come before and after the row: the object ID from the slot, NULL for a
/// nullable field holding NULL, and every other value as written (one of another kind than
/// its field's comes back as the field's empty value).
pub proof fn law_row_roundtrip(pre: Seq<u8>, fields: Seq<FieldDefView>, row: Seq<ValueView>, utf8: bool, slot: u64, post: Seq<u8>)
    requires
        row_roundtrips(fields, row, utf8),
        slot < u64::MAX,
    ensures
        decode_row_spec(pre + row_blob(fields, row, utf8) + post, pre.len(), slot, fields, utf8)
            == Ok::<Seq<ValueView>, ErrorKind>(read_back_row(fields, row, slot)),
{
    let nb = bitmap_len(nullable_count_of(fields));
    let (fl, vb) = row_parts(fields, row, utf8, fields.len());
    let total = nb + vb.len();
    let blob = row_blob(fields, row, utf8);
    let data = pre + blob + post;
    let off = pre.len();
    lemma_row_blob_shape(fields, row, utf8);
    lemma_pow_values();
    let head = le_bytes((total % 0x1_0000_0000) as nat, 4);
    vstd::arithmetic::div_mod::lemma_small_mod(total, 0x1_0000_0000);
    lemma_le_bytes_value(total, 4);
    vstd::arithmetic::div_mod::lemma_small_mod(total, pow256(4));
    assert(data.subrange(off as int, (off + 4) as int) =~= head);
    assert(to_signed(le_value(head), 32) == total);
    let end = off + 4 + total;
    let bits = null_bitmap(fl, nb);
    assert(data.subrange((off + 4) as int, (off + 4 + nb) as int) =~= bits);
    assert(data.subrange((off + 4 + nb) as int, end as int) =~= vb);
    lemma_fields_roundtrip(data, off, end, bits, fields, row, utf8, slot, nb, fields.len());
    assert(read_back_row(fields, row, slot).take(fields.len() as int) =~= read_back_row(fields, row, slot));
}

} // verus!
