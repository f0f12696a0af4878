//! The row layout of a `.gdbtable`:
//!
//! ```text
//! [u32 row_len]      bytes that follow (bitmap and values)
//! [null bitmap]      ceil(nullable fields / 8) bytes; bit k set = k-th nullable field is NULL
//! [values]           in field order, NULL fields and the object ID left out
//! ```
//! Text, XML, binary and geometry values carry a variable-length byte count; UUIDs are 16
//! raw bytes; numbers and dates are fixed-size little-endian values.
use vstd::prelude::*;
use vstd::utf8::encode_utf8;
use crate::io::{
    le_bytes, leb_encode, units_le, utf16_units, write_le, write_varuint, encode_utf16, rest_at,
    varuint_at, le_value, to_signed, le_units, utf8_lossy, utf16_lossy, Reader,
    utf8_to_string, utf8_text, decode_utf16, utf16_text, units_from_le_bytes, lemma_le_value_bound,
    lemma_pow_values,
};
use crate::error::{GdbError, ErrorKind, format_error, error_text};
use crate::value::{decimal, push_decimal};
use crate::text::to_string;
use crate::io::{leb_error_text, out_of_bounds_text, out_of_bounds_error};
use crate::field::{FieldDef, FieldDefView, FieldType, TableSchema, nullable_count_of, fixed_size_of, fields_view};
use crate::value::{FieldValue, ValueView, row_view};
use crate::geometry::{geometry_blob, encode_geometry_blob, decode_geometry_spec, decode_geometry_blob};
use crate::value::Uuid;

verus! {

// ---------------------------------------------------------------------------
// Model of the stored values
// ---------------------------------------------------------------------------

/// The unsigned value with the same low bits as `x`, for a width of `m` values.
pub open spec fn twos(x: int, m: nat) -> nat {
    if x >= 0 { x as nat } else { (x + m) as nat }
}

/// `n` zero bytes.
pub open spec fn zeros(n: nat) -> Seq<u8> {
    Seq::new(n, |i: int| 0u8)
}

/// The stored bytes of text: UTF-8, or UTF-16LE code units.
pub open spec fn text_bytes(cs: Seq<char>, utf8: bool) -> Seq<u8> {
    if utf8 { encode_utf8(cs) } else { units_le(utf16_units(cs)) }
}

/// Bytes preceded by their count as a variable-length integer.
pub open spec fn prefixed(b: Seq<u8>) -> Seq<u8> {
    leb_encode(b.len()) + b
}

/// Whether a character code is an ASCII hexadecimal digit.
pub open spec fn is_hex_code(v: u32) -> bool {
    (48 <= v <= 57) || (65 <= v <= 70) || (97 <= v <= 102)
}

/// The value of an ASCII hexadecimal digit.
pub open spec fn hex_val(d: u8) -> nat {
    if 48 <= d <= 57 {
        (d - 48) as nat
    } else if 65 <= d <= 70 {
        (d - 55) as nat
    } else if 97 <= d <= 102 {
        (d - 87) as nat
    } else {
        0
    }
}

/// The hexadecimal digits of a text, in order, as ASCII bytes.
pub open spec fn hex_digits(cs: Seq<char>) -> Seq<u8>
    decreases cs.len(),
{
    if cs.len() == 0 {
        Seq::empty()
    } else {
        hex_digits(cs.drop_last()) + (if is_hex_code(cs.last() as u32) {
            seq![(cs.last() as u32) as u8]
        } else {
            Seq::empty()
        })
    }
}

/// The 16 bytes of a UUID given by hexadecimal digits, two per byte, high digit first;
/// bytes without two digits are 0.
pub open spec fn uuid_from_hex(h: Seq<u8>) -> Seq<u8> {
    Seq::new(16, |k: int| if 2 * k + 1 < h.len() { (hex_val(h[2 * k]) * 16 + hex_val(h[2 * k + 1])) as u8 } else { 0u8 })
}

/// The stored bytes of a non-NULL value of field `f`. A value of another kind than the
/// field's is stored as the field's empty form (zeros, or a zero length).
pub open spec fn value_bytes(f: FieldDefView, v: ValueView, utf8: bool) -> Seq<u8> {
    match f.field_type {
        FieldType::Int16 => match v {
            ValueView::Int16(x) => le_bytes(twos(x as int, 0x1_0000), 2),
            _ => zeros(2),
        },
        FieldType::Int32 => match v {
            ValueView::Int32(x) => le_bytes(twos(x as int, 0x1_0000_0000), 4),
            _ => zeros(4),
        },
        FieldType::Float32 => match v {
            ValueView::Float(b) => le_bytes(b as nat, 4),
            _ => zeros(4),
        },
        FieldType::Float64 => match v {
            ValueView::Double(b) => le_bytes(b as nat, 8),
            _ => zeros(8),
        },
        FieldType::Int64 => match v {
            ValueView::Int64(x) => le_bytes(twos(x as int, 0x1_0000_0000_0000_0000), 8),
            _ => zeros(8),
        },
        FieldType::DateTime | FieldType::Date | FieldType::Time => match v {
            ValueView::DateTime(b) => le_bytes(b as nat, 8),
            _ => zeros(8),
        },
        FieldType::Uuid => match v {
            ValueView::Uuid(u) => u,
            ValueView::Text(s) => uuid_from_hex(hex_digits(s)),
            _ => zeros(16),
        },
        FieldType::String => match v {
            ValueView::Text(s) => prefixed(text_bytes(s, utf8)),
            ValueView::Xml(s) => prefixed(text_bytes(s, utf8)),
            _ => seq![0u8],
        },
        FieldType::Xml => match v {
            ValueView::Xml(s) => prefixed(text_bytes(s, utf8)),
            _ => seq![0u8],
        },
        FieldType::Binary | FieldType::Raster => match v {
            ValueView::Binary(b) => prefixed(b),
            _ => seq![0u8],
        },
        FieldType::Geometry => match v {
            ValueView::Geometry(g) => prefixed(geometry_blob(g, f.geom_has_z, f.geom_has_m)),
            _ => seq![0u8],
        },
        _ => Seq::empty(),
    }
}

/// For the first `n` fields: the NULL flags of the nullable fields (object IDs left out)
/// and the stored bytes of the values that are written.
pub open spec fn row_parts(fields: Seq<FieldDefView>, row: Seq<ValueView>, utf8: bool, n: nat) -> (Seq<bool>, Seq<u8>)
    decreases n,
{
    if n == 0 {
        (Seq::empty(), Seq::empty())
    } else {
        let (fl, vb) = row_parts(fields, row, utf8, (n - 1) as nat);
        let f = fields[n - 1];
        let v = row[n - 1];
        if f.field_type == FieldType::ObjectId {
            (fl, vb)
        } else {
            let is_null = v is Null;
            let fl2 = if f.nullable { fl.push(is_null) } else { fl };
            let vb2 = if f.nullable && is_null { vb } else { vb + value_bytes(f, v, utf8) };
            (fl2, vb2)
        }
    }
}

/// Whether bit `j` (0 = least significant) of `b` is set.
pub open spec fn bit_of(b: u8, j: nat) -> bool {
    (b >> (j as u8)) & 1u8 == 1u8
}

/// The null bitmap of `nb` bytes for the given flags: bit `k % 8` of byte `k / 8` is set
/// when flag `k` is.
pub open spec fn null_bitmap(flags: Seq<bool>, nb: nat) -> Seq<u8>
    decreases flags.len(),
{
    if flags.len() == 0 {
        zeros(nb)
    } else {
        let prev = null_bitmap(flags.drop_last(), nb);
        let k = (flags.len() - 1) as nat;
        if flags.last() && k / 8 < nb {
            prev.update((k / 8) as int, prev[(k / 8) as int] | (1u8 << ((k % 8) as u8)))
        } else {
            prev
        }
    }
}

/// The number of bitmap bytes for `n` nullable fields.
pub open spec fn bitmap_len(n: nat) -> nat {
    n / 8 + (if n % 8 != 0 { 1nat } else { 0nat })
}

/// The stored bytes of a row.
pub open spec fn row_blob(fields: Seq<FieldDefView>, row: Seq<ValueView>, utf8: bool) -> Seq<u8> {
    let nb = bitmap_len(nullable_count_of(fields));
    let (fl, vb) = row_parts(fields, row, utf8, fields.len());
    le_bytes(((nb + vb.len()) % 0x1_0000_0000) as nat, 4) + null_bitmap(fl, nb) + vb
}

// ---------------------------------------------------------------------------
// Encoder
// ---------------------------------------------------------------------------

/// Appends all bytes of `b`.
pub fn append_bytes(out: &mut Vec<u8>, b: &[u8])
    ensures
        final(out)@ == old(out)@ + b@,
{
    let mut i: usize = 0;
    while i < b.len()
        invariant
            i <= b@.len(),
            out@ == old(out)@ + b@.subrange(0, i as int),
        decreases b@.len() - i,
    {
        out.push(b[i]);
        i = i + 1;
        assert(out@ =~= old(out)@ + b@.subrange(0, i as int));
    }
    assert(b@.subrange(0, i as int) =~= b@);
}

/// Appends bytes preceded by their count.
fn append_prefixed(out: &mut Vec<u8>, b: &[u8])
    ensures
        final(out)@ == old(out)@ + prefixed(b@),
{
    write_varuint(out, b.len() as u64);
    append_bytes(out, b);
    assert(out@ =~= old(out)@ + prefixed(b@));
}

/// Appends the stored bytes of text.
fn append_text(out: &mut Vec<u8>, s: &String, utf8: bool)
    ensures
        final(out)@ == old(out)@ + prefixed(text_bytes(s@, utf8)),
{
    if utf8 {
        let b = s.as_str().as_bytes();
        append_prefixed(out, b);
    } else {
        let b = encode_utf16(s.as_str());
        append_prefixed(out, b.as_slice());
    }
}

/// The 16 UUID bytes given by the hexadecimal digits of a text.
fn uuid_bytes_from_text(s: &String) -> (out: Vec<u8>)
    ensures
        out@ == uuid_from_hex(hex_digits(s@)),
{
    broadcast use vstd::string::group_string_axioms;
    let mut hex: Vec<u8> = Vec::new();
    let mut it = s.as_str().chars();
    let ghost mut done: Seq<char> = Seq::empty();
    assert(vstd::std_specs::iter::IteratorSpec::remaining(&it) == s@);
    loop
        invariant
            done + vstd::std_specs::iter::IteratorSpec::remaining(&it) == s@,
            hex@ == hex_digits(done),
        ensures
            hex@ == hex_digits(s@),
        decreases s@.len() - done.len(),
    {
        let ghost before = vstd::std_specs::iter::IteratorSpec::remaining(&it);
        match it.next() {
            Some(c) => {
                proof {
                    assert(c == before[0]);
                }
                proof {
                    vstd::utf8::char_is_scalar(c);
                }
                let v = c as u32;
                if (48 <= v && v <= 57) || (65 <= v && v <= 70) || (97 <= v && v <= 102) {
                    hex.push(v as u8);
                }
                proof {
                    let nd = done.push(c);
                    assert(nd.drop_last() == done);
                    assert(hex@ =~= hex_digits(nd));
                    assert(nd + vstd::std_specs::iter::IteratorSpec::remaining(&it) == s@) by {
                        assert(before == seq![c] + vstd::std_specs::iter::IteratorSpec::remaining(&it));
                    }
                    done = nd;
                }
            },
            None => {
                assert(done == s@);
                break;
            },
        }
    }
    let mut out: Vec<u8> = Vec::new();
    let mut k: usize = 0;
    while k < 16
        invariant
            k <= 16,
            hex@ == hex_digits(s@),
            out@ == uuid_from_hex(hex@).subrange(0, k as int),
        decreases 16 - k,
    {
        let mut b: u8 = 0;
        if k * 2 + 1 < hex.len() {
            let hi = hex_digit_value(hex[k * 2]);
            let lo = hex_digit_value(hex[k * 2 + 1]);
            b = hi * 16 + lo;
        }
        out.push(b);
        k = k + 1;
        assert(out@ =~= uuid_from_hex(hex@).subrange(0, k as int));
    }
    assert(uuid_from_hex(hex@).subrange(0, 16) =~= uuid_from_hex(hex@));
    out
}

/// The value of an ASCII hexadecimal digit (0 for any other byte).
fn hex_digit_value(d: u8) -> (v: u8)
    ensures
        v == hex_val(d),
        v < 16,
{
    if 48 <= d && d <= 57 {
        d - 48
    } else if 65 <= d && d <= 70 {
        d - 55
    } else if 97 <= d && d <= 102 {
        d - 87
    } else {
        0
    }
}

/// Appends `n` zero bytes.
pub fn append_zeros(out: &mut Vec<u8>, n: usize)
    ensures
        final(out)@ == old(out)@ + zeros(n as nat),
{
    let mut i: usize = 0;
    while i < n
        invariant
            i <= n,
            out@ == old(out)@ + zeros(i as nat),
        decreases n - i,
    {
        out.push(0u8);
        i = i + 1;
        assert(out@ =~= old(out)@ + zeros(i as nat));
    }
}

/// Appends the stored bytes of a non-NULL value of field `fdef`.
fn encode_field_value(out: &mut Vec<u8>, v: &FieldValue, fdef: &FieldDef, schema: &TableSchema)
    ensures
        final(out)@ == old(out)@ + value_bytes(fdef@, v@, schema.string_utf8),
{
    let utf8 = schema.string_utf8;
    match fdef.field_type {
        FieldType::Int16 => match v {
            FieldValue::Int16(x) => {
                let u: u64 = if *x >= 0 { *x as u64 } else { (*x as i64 + 0x1_0000) as u64 };
                write_le(out, u, 2);
            },
            _ => append_zeros(out, 2),
        },
        FieldType::Int32 => match v {
            FieldValue::Int32(x) => {
                let u: u64 = if *x >= 0 { *x as u64 } else { (*x as i64 + 0x1_0000_0000) as u64 };
                write_le(out, u, 4);
            },
            _ => append_zeros(out, 4),
        },
        FieldType::Float32 => match v {
            FieldValue::Float(b) => write_le(out, *b as u64, 4),
            _ => append_zeros(out, 4),
        },
        FieldType::Float64 => match v {
            FieldValue::Double(b) => write_le(out, *b, 8),
            _ => append_zeros(out, 8),
        },
        FieldType::Int64 => match v {
            FieldValue::Int64(x) => {
                let u: u64 = if *x >= 0 { *x as u64 } else { (*x as i128 + 0x1_0000_0000_0000_0000) as u64 };
                write_le(out, u, 8);
            },
            _ => append_zeros(out, 8),
        },
        FieldType::DateTime | FieldType::Date | FieldType::Time => match v {
            FieldValue::DateTime(b) => write_le(out, *b, 8),
            _ => append_zeros(out, 8),
        },
        FieldType::Uuid => match v {
            FieldValue::Uuid(u) => {
                let b = vstd::array::array_as_slice(&u.0);
                append_bytes(out, b);
            },
            FieldValue::Text(s) => {
                let b = uuid_bytes_from_text(s);
                append_bytes(out, b.as_slice());
            },
            _ => append_zeros(out, 16),
        },
        FieldType::String => match v {
            FieldValue::Text(s) => append_text(out, s, utf8),
            FieldValue::Xml(s) => append_text(out, s, utf8),
            _ => write_varuint(out, 0),
        },
        FieldType::Xml => match v {
            FieldValue::Xml(s) => append_text(out, s, utf8),
            _ => write_varuint(out, 0),
        },
        FieldType::Binary | FieldType::Raster => match v {
            FieldValue::Binary(b) => append_prefixed(out, b.as_slice()),
            _ => write_varuint(out, 0),
        },
        FieldType::Geometry => match v {
            FieldValue::Geometry(g) => {
                let blob = encode_geometry_blob(g, fdef.geom_has_z, fdef.geom_has_m);
                append_prefixed(out, blob.as_slice());
            },
            _ => write_varuint(out, 0),
        },
        _ => {
            assert(value_bytes(fdef@, v@, utf8) =~= Seq::<u8>::empty());
            assert(out@ =~= old(out)@ + value_bytes(fdef@, v@, utf8));
        },
    }
}

/// The number of bitmap bytes for `n` nullable fields.
fn bitmap_len_of(n: usize) -> (r: usize)
    ensures
        r == bitmap_len(n as nat),
{
    n / 8 + if n % 8 != 0 { 1 } else { 0 }
}

/// The null bitmap has `nb` bytes.
pub proof fn lemma_null_bitmap_len(flags: Seq<bool>, nb: nat)
    ensures
        null_bitmap(flags, nb).len() == nb,
    decreases flags.len(),
{
    if flags.len() > 0 {
        lemma_null_bitmap_len(flags.drop_last(), nb);
    }
}

/// The first fields never hold more nullable fields than all of them.
proof fn lemma_nullable_count_take(fields: Seq<FieldDefView>, i: nat)
    requires
        i <= fields.len(),
    ensures
        nullable_count_of(fields.take(i as int)) <= nullable_count_of(fields),
    decreases fields.len() - i,
{
    if i == fields.len() {
        assert(fields.take(i as int) =~= fields);
    } else {
        lemma_nullable_count_take(fields, i + 1);
        assert(fields.take((i + 1) as int).drop_last() =~= fields.take(i as int));
    }
}

/// Encodes a row: its length, null bitmap and stored values.
pub fn encode_row(row: &[FieldValue], schema: &TableSchema) -> (out: Vec<u8>)
    requires
        row@.len() >= schema.fields@.len(),
    ensures
        out@ == row_blob(fields_view(schema.fields@), row_view(row@), schema.string_utf8),
{
    let ghost fields = fields_view(schema.fields@);
    let ghost rv = row_view(row@);
    let ghost utf8 = schema.string_utf8;
    let n_nullable = schema.nullable_count();
    let nb = bitmap_len_of(n_nullable);
    let mut nullbits: Vec<u8> = Vec::new();
    append_zeros(&mut nullbits, nb);
    assert(nullbits@ =~= zeros(nb as nat));
    let mut seen: usize = 0;
    let mut values: Vec<u8> = Vec::new();
    let mut i: usize = 0;
    while i < schema.fields.len()
        invariant
            fields == fields_view(schema.fields@),
            rv == row_view(row@),
            utf8 == schema.string_utf8,
            i <= fields.len(),
            row@.len() >= fields.len(),
            nb == bitmap_len(nullable_count_of(fields)),
            n_nullable == nullable_count_of(fields),
            seen == row_parts(fields, rv, utf8, i as nat).0.len(),
            seen <= nullable_count_of(fields.take(i as int)),
            nullbits@ == null_bitmap(row_parts(fields, rv, utf8, i as nat).0, nb as nat),
            values@ == row_parts(fields, rv, utf8, i as nat).1,
        decreases fields.len() - i,
    {
        let fdef = &schema.fields[i];
        proof {
            assert(fields.take(i + 1).drop_last() =~= fields.take(i as int));
            lemma_nullable_count_take(fields, (i + 1) as nat);
            assert(rv[i as int] == row@[i as int]@);
        }
        let ghost fl0 = row_parts(fields, rv, utf8, i as nat).0;
        if fdef.field_type != FieldType::ObjectId {
            let is_null = matches!(row[i], FieldValue::Null);
            assert(is_null == (rv[i as int] is Null));
            proof {
                lemma_null_bitmap_len(fl0, nb as nat);
                if fdef.nullable {
                    assert(nullable_count_of(fields.take(i + 1)) == nullable_count_of(fields.take(i as int)) + 1);
                    assert(seen < n_nullable);
                    assert(seen / 8 < nb);
                }
            }
            if fdef.nullable {
                if is_null {
                    let k = seen / 8;
                    let cur = nullbits[k];
                    nullbits.set(k, cur | (1u8 << ((seen % 8) as u8)));
                }
                proof {
                    let fl1 = fl0.push(is_null);
                    assert(fl1.drop_last() =~= fl0);
                }
                seen = seen + 1;
            }
            if !(fdef.nullable && is_null) {
                encode_field_value(&mut values, &row[i], fdef, schema);
            }
        }
        i = i + 1;
    }
    proof {
        assert(fields.take(i as int) =~= fields);
    }
    let total: u64 = ((nb as u64) % 0x1_0000_0000 + (values.len() as u64) % 0x1_0000_0000) % 0x1_0000_0000;
    proof {
        vstd::arithmetic::div_mod::lemma_add_mod_noop(nb as int, values@.len() as int, 0x1_0000_0000);
    }
    let mut out: Vec<u8> = Vec::new();
    write_le(&mut out, total, 4);
    append_bytes(&mut out, nullbits.as_slice());
    append_bytes(&mut out, values.as_slice());
    assert(out@ =~= row_blob(fields, rv, utf8));
    out
}

// ---------------------------------------------------------------------------
// Model of decoding
// ---------------------------------------------------------------------------

/// The text of stored bytes: UTF-8, or UTF-16LE code units. Valid encodings give their
/// characters; invalid ones are replaced as `String::from_utf8_lossy` and
/// `String::from_utf16_lossy` do.
pub open spec fn text_of(b: Seq<u8>, utf8: bool) -> Seq<char> {
    if utf8 {
        utf8_text(b)
    } else {
        utf16_text(le_units(b, b.len() / 2))
    }
}

/// The length-prefixed bytes at position `p` of `data`.
pub open spec fn prefixed_at(data: Seq<u8>, p: nat) -> Option<Seq<u8>> {
    match varuint_at(data, p) {
        Some((len, q)) => if q + len <= data.len() { Some(data.subrange(q as int, q + len)) } else { None },
        None => None,
    }
}

/// The value of field `f` stored at position `p` of `data` (the field is not NULL).
#[verifier::opaque]
pub open spec fn field_value_at(data: Seq<u8>, p: nat, f: FieldDefView, utf8: bool) -> Result<ValueView, ErrorKind> {
    let r = rest_at(data, p);
    match f.field_type {
        FieldType::Int16 => if r.len() >= 2 {
            Ok(ValueView::Int16(to_signed(le_value(r.subrange(0, 2)), 16) as i16))
        } else {
            Err(ErrorKind::Format)
        },
        FieldType::Int32 => if r.len() >= 4 {
            Ok(ValueView::Int32(to_signed(le_value(r.subrange(0, 4)), 32) as i32))
        } else {
            Err(ErrorKind::Format)
        },
        FieldType::Float32 => if r.len() >= 4 {
            Ok(ValueView::Float(le_value(r.subrange(0, 4)) as u32))
        } else {
            Err(ErrorKind::Format)
        },
        FieldType::Float64 => if r.len() >= 8 {
            Ok(ValueView::Double(le_value(r.subrange(0, 8)) as u64))
        } else {
            Err(ErrorKind::Format)
        },
        FieldType::DateTime | FieldType::Date | FieldType::Time => if r.len() >= 8 {
            Ok(ValueView::DateTime(le_value(r.subrange(0, 8)) as u64))
        } else {
            Err(ErrorKind::Format)
        },
        FieldType::Int64 => if r.len() >= 8 {
            Ok(ValueView::Int64(to_signed(le_value(r.subrange(0, 8)), 64) as i64))
        } else {
            Err(ErrorKind::Format)
        },
        FieldType::Uuid => if r.len() >= 16 {
            Ok(ValueView::Uuid(r.subrange(0, 16)))
        } else {
            Err(ErrorKind::Format)
        },
        FieldType::String => match prefixed_at(data, p) {
            Some(b) => Ok(ValueView::Text(text_of(b, utf8))),
            None => Err(ErrorKind::Format),
        },
        FieldType::Xml => match prefixed_at(data, p) {
            Some(b) => Ok(ValueView::Xml(text_of(b, utf8))),
            None => Err(ErrorKind::Format),
        },
        FieldType::Geometry => match prefixed_at(data, p) {
            Some(b) => match decode_geometry_spec(b) {
                Ok(g) => Ok(ValueView::Geometry(g)),
                Err(k) => Err(k),
            },
            None => Err(ErrorKind::Format),
        },
        FieldType::Binary | FieldType::Raster => match prefixed_at(data, p) {
            Some(b) => Ok(ValueView::Binary(b)),
            None => Err(ErrorKind::Format),
        },
        FieldType::ObjectId => Ok(ValueView::ObjectId(0)),
        FieldType::Other(_) => Ok(ValueView::Binary(Seq::empty())),
    }
}

/// How many bytes of `row` from `rel` on the value of a field of type `t` takes (none when
/// `rel` is past the row or the length prefix cannot be read). A field of an unknown type
/// takes the rest of the row.
#[verifier::opaque]
pub open spec fn field_len_at(row: Seq<u8>, rel: nat, t: FieldType) -> Option<nat> {
    if rel > row.len() {
        None
    } else {
        match t {
            FieldType::String | FieldType::Xml | FieldType::Geometry | FieldType::Binary | FieldType::Raster =>
                match varuint_at(row, rel) {
                    Some((len, q)) => Some(((q - rel) + len) as nat),
                    None => None,
                },
            FieldType::Other(_) => Some((row.len() - rel) as nat),
            _ => Some(fixed_size_of(t)),
        }
    }
}

/// One field of a row: the values so far, the position in the row and the number of
/// nullable fields seen, after field `f`.
pub open spec fn decode_step(data: Seq<u8>, off: nat, end: nat, bits: Seq<u8>, utf8: bool, slot: u64,
    f: FieldDefView, st: (Seq<ValueView>, nat, nat)) -> Result<(Seq<ValueView>, nat, nat), ErrorKind>
{
    let (vals, rel, seen) = st;
    if f.field_type == FieldType::ObjectId {
        Ok((vals.push(ValueView::ObjectId((slot + 1) as u64)), rel, seen))
    } else {
        let is_null = f.nullable && bit_of(bits[(seen / 8) as int], seen % 8);
        let seen2 = if f.nullable { seen + 1 } else { seen };
        if is_null {
            Ok((vals.push(ValueView::Null), rel, seen2))
        } else {
            match field_value_at(data, off + rel, f, utf8) {
                Err(k) => Err(k),
                Ok(v) => match field_len_at(data.subrange(off as int, end as int), rel, f.field_type) {
                    Some(c) => if rel + c <= end - off { Ok((vals.push(v), rel + c, seen2)) } else { Err(ErrorKind::Format) },
                    None => Err(ErrorKind::Format),
                },
            }
        }
    }
}

/// The first `n` fields of a row.
pub open spec fn decode_fields(data: Seq<u8>, off: nat, end: nat, bits: Seq<u8>, fields: Seq<FieldDefView>,
    utf8: bool, slot: u64, start: nat, n: nat) -> Result<(Seq<ValueView>, nat, nat), ErrorKind>
    decreases n,
{
    if n == 0 {
        Ok((Seq::empty(), start, 0))
    } else {
        match decode_fields(data, off, end, bits, fields, utf8, slot, start, (n - 1) as nat) {
            Ok(st) => decode_step(data, off, end, bits, utf8, slot, fields[n - 1], st),
            Err(k) => Err(k),
        }
    }
}

/// The row stored at offset `off` of `data`, in slot `slot` (its object ID is `slot + 1`).
pub open spec fn decode_row_spec(data: Seq<u8>, off: nat, slot: u64, fields: Seq<FieldDefView>, utf8: bool) -> Result<Seq<ValueView>, ErrorKind> {
    if off + 4 > data.len() {
        Err(ErrorKind::Format)
    } else {
        let rl = to_signed(le_value(data.subrange(off as int, (off + 4) as int)), 32);
        let nb = bitmap_len(nullable_count_of(fields));
        if rl < 0 || off + 4 + rl > data.len() || off + 4 + nb > data.len() {
            Err(ErrorKind::Format)
        } else {
            let bits = data.subrange((off + 4) as int, (off + 4 + nb) as int);
            match decode_fields(data, off, (off + 4 + rl) as nat, bits, fields, utf8, slot, 4 + nb, fields.len()) {
                Ok((vals, _, _)) => Ok(vals),
                Err(k) => Err(k),
            }
        }
    }
}

// ---------------------------------------------------------------------------
// Decoder
// ---------------------------------------------------------------------------

/// Reads length-prefixed bytes.
fn read_prefixed<'a>(r: &mut Reader<'a>) -> (res: Result<&'a [u8], GdbError>)
    ensures
        final(r).buf == old(r).buf,
        match prefixed_at(old(r).buf@, old(r).pos as nat) {
            Some(b) => res matches Ok(x) && x@ == b,
            None => res matches Err(e) && e is Format && error_text(e) == match varuint_at(old(r).buf@, old(r).pos as nat) {
                None => leb_error_text(old(r).rest().len(), 10, "varuint 过长"@),
                Some((len, q)) => out_of_bounds_text(len as nat, rest_at(old(r).buf@, q).len()),
            },
        },
{
    let ghost s = r.buf@;
    let ghost p = r.pos as nat;
    let len = match r.varuint() {
        Ok(v) => v,
        Err(e) => return Err(e),
    };
    let rem = r.remaining();
    if len > rem as u64 {
        return Err(out_of_bounds_error(len, rem));
    }
    let b = match r.bytes(len as usize) {
        Ok(b) => b,
        Err(e) => return Err(e),
    };
    proof {
        let q = r.pos - len;
        assert(b@ =~= s.subrange(q as int, q + len));
    }
    Ok(b)
}

/// The 16 bytes of a slice as an array.
fn array16(b: &[u8]) -> (a: [u8; 16])
    requires
        b@.len() == 16,
    ensures
        a@ == b@,
{
    let a = [b[0], b[1], b[2], b[3], b[4], b[5], b[6], b[7], b[8], b[9], b[10], b[11], b[12], b[13], b[14], b[15]];
    assert(a@ =~= b@);
    a
}

/// A copy of a byte slice.
fn bytes_to_vec(b: &[u8]) -> (v: Vec<u8>)
    ensures
        v@ == b@,
{
    let mut v: Vec<u8> = Vec::new();
    append_bytes(&mut v, b);
    assert(v@ =~= b@);
    v
}

/// Decodes text bytes.
fn decode_text(b: &[u8], utf8: bool) -> (s: String)
    ensures
        s@ == text_of(b@, utf8),
{
    if utf8 {
        utf8_to_string(b)
    } else {
        let units = units_from_le_bytes(b);
        decode_utf16(units.as_slice())
    }
}

/// Decodes the value of field `fdef` stored at `field_abs` in `data`.
fn decode_field_value(data: &[u8], field_abs: usize, fdef: &FieldDef, schema: &TableSchema) -> (res: Result<FieldValue, GdbError>)
    ensures
        match field_value_at(data@, field_abs as nat, fdef@, schema.string_utf8) {
            Ok(v) => res matches Ok(x) && x@ == v,
            Err(k) => res matches Err(e) && e.kind() == k,
        },
{
    reveal(field_value_at);
    let mut r = Reader { buf: data, pos: field_abs };
    assert(r.rest() == rest_at(data@, field_abs as nat));
    match fdef.field_type {
        FieldType::Int16 => match r.i16() {
            Ok(x) => Ok(FieldValue::Int16(x)),
            Err(e) => Err(e),
        },
        FieldType::Int32 => match r.i32() {
            Ok(x) => Ok(FieldValue::Int32(x)),
            Err(e) => Err(e),
        },
        FieldType::Float32 => match r.u32() {
            Ok(x) => Ok(FieldValue::Float(x)),
            Err(e) => Err(e),
        },
        FieldType::Float64 => match r.u64() {
            Ok(x) => Ok(FieldValue::Double(x)),
            Err(e) => Err(e),
        },
        FieldType::DateTime | FieldType::Date | FieldType::Time => match r.u64() {
            Ok(x) => Ok(FieldValue::DateTime(x)),
            Err(e) => Err(e),
        },
        FieldType::Int64 => match r.i64() {
            Ok(x) => Ok(FieldValue::Int64(x)),
            Err(e) => Err(e),
        },
        FieldType::Uuid => match r.bytes(16) {
            Ok(b) => Ok(FieldValue::Uuid(Uuid::from_bytes(array16(b)))),
            Err(e) => Err(e),
        },
        FieldType::String | FieldType::Xml => {
            let b = match read_prefixed(&mut r) {
                Ok(b) => b,
                Err(e) => return Err(e),
            };
            let s = decode_text(b, schema.string_utf8);
            if fdef.field_type == FieldType::String {
                Ok(FieldValue::Text(s))
            } else {
                Ok(FieldValue::Xml(s))
            }
        },
        FieldType::Geometry => {
            let blob = match read_prefixed(&mut r) {
                Ok(b) => b,
                Err(e) => return Err(e),
            };
            match decode_geometry_blob(blob) {
                Ok(g) => Ok(FieldValue::Geometry(g)),
                Err(e) => Err(e),
            }
        },
        FieldType::Binary | FieldType::Raster => {
            let b = match read_prefixed(&mut r) {
                Ok(b) => b,
                Err(e) => return Err(e),
            };
            Ok(FieldValue::Binary(bytes_to_vec(b)))
        },
        FieldType::ObjectId => Ok(FieldValue::ObjectId(0)),
        FieldType::Other(_) => Ok(FieldValue::Binary(Vec::new())),
    }
}

/// The message of a field value that ends past its row: the field's name, the position
/// where the value would end (capped at `u64::MAX`) and the row's length.
pub open spec fn value_past_row_text(name: Seq<char>, pos: nat, row_len: nat) -> Seq<char> {
    let p = if pos <= u64::MAX { pos } else { u64::MAX as nat };
    "字段 "@ + name + " 值越界 (pos="@ + decimal(p) + ", row_len="@ + decimal(row_len) + ")"@
}

/// Builds [`value_past_row_text`].
fn value_past_row(name: &str, pos: u64, row_len: usize) -> (e: GdbError)
    ensures
        e is Format,
        error_text(e) == value_past_row_text(name@, pos as nat, row_len as nat),
{
    proof { reveal_strlit("字段 "); reveal_strlit(" 值越界 (pos="); reveal_strlit(", row_len="); reveal_strlit(")"); }
    let mut msg = to_string("字段 ");
    msg.append(name);
    msg.append(" 值越界 (pos=");
    push_decimal(&mut msg, pos);
    msg.append(", row_len=");
    push_decimal(&mut msg, row_len as u64);
    msg.append(")");
    GdbError::Format(msg)
}

/// Moves the reader to the end of the value of field `fdef`, which starts `field_rel`
/// bytes into `row`; fails when the value does not end within the row.
fn advance_reader(r: &mut Reader, row: &[u8], field_rel: usize, fdef: &FieldDef) -> (res: Result<(), GdbError>)
    ensures
        final(r).buf == old(r).buf,
        match field_len_at(row@, field_rel as nat, fdef.field_type) {
            Some(c) => if field_rel + c <= row@.len() {
                res is Ok && final(r).pos == field_rel + c
            } else {
                res matches Err(e) && e is Format
                    && error_text(e) == value_past_row_text(fdef.name@, (field_rel + c) as nat, row@.len())
            },
            None => res matches Err(e) && e is Format && error_text(e) == (if field_rel > row@.len() {
                value_past_row_text(fdef.name@, field_rel as nat, row@.len())
            } else {
                leb_error_text((row@.len() - field_rel) as nat, 10, "varuint 过长"@)
            }),
        },
{
    reveal(field_len_at);
    if field_rel > row.len() {
        return Err(value_past_row(fdef.name.as_str(), field_rel as u64, row.len()));
    }
    let consumed: usize = match fdef.field_type {
        FieldType::String | FieldType::Xml | FieldType::Geometry | FieldType::Binary | FieldType::Raster => {
            let mut rr = Reader { buf: row, pos: field_rel };
            assert(rr.rest().len() == row@.len() - field_rel);
            let len = match rr.varuint() {
                Ok(v) => v,
                Err(e) => return Err(e),
            };
            if rr.pos > row.len() || len > (row.len() - rr.pos) as u64 {
                let end: u64 = if len <= u64::MAX - rr.pos as u64 { rr.pos as u64 + len } else { u64::MAX };
                return Err(value_past_row(fdef.name.as_str(), end, row.len()));
            }
            (rr.pos - field_rel) + len as usize
        },
        FieldType::Other(_) => row.len() - field_rel,
        FieldType::ObjectId => 0,
        t => t.fixed_size(),
    };
    if consumed > row.len() - field_rel {
        let end: u64 = if (consumed as u64) <= u64::MAX - field_rel as u64 { field_rel as u64 + consumed as u64 } else { u64::MAX };
        return Err(value_past_row(fdef.name.as_str(), end, row.len()));
    }
    r.pos = field_rel + consumed;
    Ok(())
}

/// Decoding the first `n` fields gives `n` values.
proof fn lemma_decode_fields_len(data: Seq<u8>, off: nat, end: nat, bits: Seq<u8>, fields: Seq<FieldDefView>,
    utf8: bool, slot: u64, start: nat, n: nat)
    ensures
        decode_fields(data, off, end, bits, fields, utf8, slot, start, n) matches Ok((vals, _, _)) ==> vals.len() == n,
    decreases n,
{
    if n > 0 {
        lemma_decode_fields_len(data, off, end, bits, fields, utf8, slot, start, (n - 1) as nat);
    }
}

/// A decoded row has one value per field.
pub proof fn lemma_decode_row_len(data: Seq<u8>, off: nat, slot: u64, fields: Seq<FieldDefView>, utf8: bool)
    ensures
        decode_row_spec(data, off, slot, fields, utf8) matches Ok(vals) ==> vals.len() == fields.len(),
{
    if off + 4 <= data.len() {
        let rl = to_signed(le_value(data.subrange(off as int, (off + 4) as int)), 32);
        let nb = bitmap_len(nullable_count_of(fields));
        if !(rl < 0 || off + 4 + rl > data.len() || off + 4 + nb > data.len()) {
            let bits = data.subrange((off + 4) as int, (off + 4 + nb) as int);
            lemma_decode_fields_len(data, off, (off + 4 + rl) as nat, bits, fields, utf8, slot, 4 + nb, fields.len());
        }
    }
}

/// Once a field fails, the row fails with the same error.
proof fn lemma_decode_fields_err(data: Seq<u8>, off: nat, end: nat, bits: Seq<u8>, fields: Seq<FieldDefView>,
    utf8: bool, slot: u64, start: nat, m: nat, n: nat, k: ErrorKind)
    requires
        m <= n,
        decode_fields(data, off, end, bits, fields, utf8, slot, start, m) == Err::<(Seq<ValueView>, nat, nat), ErrorKind>(k),
    ensures
        decode_fields(data, off, end, bits, fields, utf8, slot, start, n) == Err::<(Seq<ValueView>, nat, nat), ErrorKind>(k),
    decreases n - m,
{
    if m < n {
        lemma_decode_fields_err(data, off, end, bits, fields, utf8, slot, start, m, (n - 1) as nat, k);
    }
}

/// Reads the null bitmap: `nb` bytes after the 4-byte length.
fn read_null_bits(r: &mut Reader, nb: usize) -> (res: Result<Vec<u8>, GdbError>)
    requires
        old(r).pos == 4,
        old(r).pos <= old(r).buf@.len(),
    ensures
        final(r).buf == old(r).buf,
        4 + nb <= old(r).buf@.len() ==> (res matches Ok(b) && b@ == old(r).buf@.subrange(4, 4 + nb) && final(r).pos == 4 + nb),
        4 + nb > old(r).buf@.len() ==> (res matches Err(e) && e is Format),
{
    let mut null_bits: Vec<u8> = Vec::new();
    let mut j: usize = 0;
    while j < nb
        invariant
            r.buf == old(r).buf,
            j <= nb,
            r.pos == 4 + j,
            4 + j <= r.buf@.len(),
            null_bits@ == r.buf@.subrange(4, 4 + j),
        decreases nb - j,
    {
        let b = match r.u8() {
            Ok(b) => b,
            Err(e) => return Err(e),
        };
        null_bits.push(b);
        j = j + 1;
        assert(null_bits@ =~= r.buf@.subrange(4, 4 + j));
    }
    Ok(null_bits)
}

/// Decodes one field of a row (see [`decode_step`]).
fn decode_one(data: &[u8], off: usize, end: usize, row: &[u8], bits: &Vec<u8>, slot: u64,
    r: &mut Reader, seen: &mut usize, values: &mut Vec<FieldValue>, fdef: &FieldDef, schema: &TableSchema)
    -> (res: Result<(), GdbError>)
    requires
        slot < u64::MAX,
        off <= end <= data@.len(),
        old(r).buf@ == data@.subrange(off as int, data@.len() as int),
        row@ == data@.subrange(off as int, end as int),
        old(r).pos <= old(r).buf@.len(),
        fdef.nullable && fdef.field_type != FieldType::ObjectId ==> *old(seen) / 8 < bits@.len() && *old(seen) < usize::MAX,
    ensures
        final(r).buf == old(r).buf,
        res is Ok ==> final(r).pos <= final(r).buf@.len(),
        match decode_step(data@, off as nat, end as nat, bits@, schema.string_utf8, slot, fdef@,
            (row_view(old(values)@), old(r).pos as nat, *old(seen) as nat)) {
            Ok(st) => res is Ok && row_view(final(values)@) == st.0 && final(r).pos == st.1 && *final(seen) == st.2,
            Err(k) => res matches Err(e) && e.kind() == k,
        },
{
    let ghost vals0 = row_view(values@);
    if fdef.field_type == FieldType::ObjectId {
        values.push(FieldValue::ObjectId(slot + 1));
        assert(row_view(values@) =~= vals0.push(ValueView::ObjectId((slot + 1) as u64)));
        return Ok(());
    }
    let mut is_null = false;
    if fdef.nullable {
        let byte = bits[*seen / 8];
        let sh = (*seen % 8) as u8;
        let bit = (byte >> sh) & 1u8;
        is_null = bit != 0;
        assert(((byte >> sh) & 1u8 == 1u8) == is_null) by (bit_vector)
            requires
                bit == (byte >> sh) & 1u8,
                is_null == (bit != 0);
        *seen = *seen + 1;
    }
    if is_null {
        values.push(FieldValue::Null);
        assert(row_view(values@) =~= vals0.push(ValueView::Null));
        return Ok(());
    }
    let rel = r.pos;
    let dlen = data.len();
    assert(r.pos <= r.buf@.len());
    assert(r.buf@.len() == dlen - off);
    let field_abs = off + rel;
    let v = match decode_field_value(data, field_abs, fdef, schema) {
        Ok(v) => v,
        Err(e) => return Err(e),
    };
    match advance_reader(r, row, rel, fdef) {
        Ok(()) => {},
        Err(e) => return Err(e),
    }
    values.push(v);
    assert(row_view(values@) =~= vals0.push(v@));
    Ok(())
}

/// Decodes the row stored at `offset` in `data`, in slot `slot`.
pub fn decode_row(data: &[u8], offset: u64, slot: u64, schema: &TableSchema) -> (res: Result<Vec<FieldValue>, GdbError>)
    requires
        slot < u64::MAX,
    ensures
        match decode_row_spec(data@, offset as nat, slot, fields_view(schema.fields@), schema.string_utf8) {
            Ok(vals) => res matches Ok(v) && row_view(v@) == vals,
            Err(k) => res matches Err(e) && e.kind() == k,
        },
        offset + 4 > data@.len() ==> (res matches Err(e) && error_text(e) == "行偏移越界"@),
        offset + 4 <= data@.len() ==> {
            let rl = to_signed(le_value(data@.subrange(offset as int, offset + 4)), 32);
            &&& rl < 0 ==> (res matches Err(e) && error_text(e) == "行偏移指向已删除记录"@)
            &&& rl >= 0 && offset + 4 + rl > data@.len() ==> (res matches Err(e) && error_text(e) == "行长度越界"@)
        },
{
    let ghost fields = fields_view(schema.fields@);
    let ghost utf8 = schema.string_utf8;
    if offset > data.len() as u64 || data.len() - (offset as usize) < 4 {
        return Err(format_error("行偏移越界"));
    }
    let off = offset as usize;
    let tail = vstd::slice::slice_subrange(data, off, data.len());
    let mut r = Reader::new(tail);
    assert(r.rest() == tail@) by {
        assert(tail@.subrange(0, tail@.len() as int) =~= tail@);
    }
    let row_len = match r.i32() {
        Ok(v) => v,
        Err(e) => return Err(e),
    };
    proof {
        let h = data@.subrange(off as int, off + 4);
        assert(r.buf@.subrange(0, 4) =~= h);
        lemma_le_value_bound(h);
        lemma_pow_values();
        assert(row_len as int == to_signed(le_value(h), 32));
    }
    if row_len < 0 {
        return Err(format_error("行偏移指向已删除记录"));
    }
    let rl = row_len as usize;
    if data.len() - off - 4 < rl {
        return Err(format_error("行长度越界"));
    }
    let end = off + 4 + rl;
    let row = vstd::slice::slice_subrange(data, off, end);
    let n_nullable = schema.nullable_count();
    let nb = bitmap_len_of(n_nullable);
    let null_bits = match read_null_bits(&mut r, nb) {
        Ok(b) => b,
        Err(e) => return Err(e),
    };
    assert(null_bits@ =~= data@.subrange(off + 4, off + 4 + nb));
    let ghost bits = null_bits@;
    proof {
        let h = data@.subrange(off as int, off + 4);
        let rli = to_signed(le_value(h), 32);
        assert(rli == rl);
        assert((off + 4 + rli) as nat == end);
        assert(decode_row_spec(data@, offset as nat, slot, fields, utf8) == match decode_fields(data@, off as nat, end as nat, bits, fields, utf8, slot, (4 + nb) as nat, fields.len()) {
            Ok((vals, _, _)) => Ok(vals),
            Err(k) => Err(k),
        });
    }
    let mut seen: usize = 0;
    let mut values: Vec<FieldValue> = Vec::new();
    let mut i: usize = 0;
    assert(row_view(values@) =~= Seq::<ValueView>::empty());
    while i < schema.fields.len()
        invariant
            fields == fields_view(schema.fields@),
            utf8 == schema.string_utf8,
            slot < u64::MAX,
            r.buf@ == data@.subrange(off as int, data@.len() as int),
            row@ == data@.subrange(off as int, end as int),
            off == offset,
            off + 4 <= data@.len(),
            end == off + 4 + to_signed(le_value(data@.subrange(off as int, off + 4)), 32),
            0 <= to_signed(le_value(data@.subrange(off as int, off + 4)), 32),
            off <= end <= data@.len(),
            bits == null_bits@,
            bits.len() == nb,
            nb == bitmap_len(nullable_count_of(fields)),
            n_nullable == nullable_count_of(fields),
            i <= fields.len(),
            r.pos <= r.buf@.len(),
            seen <= nullable_count_of(fields.take(i as int)),
            decode_row_spec(data@, offset as nat, slot, fields, utf8) == match decode_fields(data@, off as nat, end as nat, bits, fields, utf8, slot, (4 + nb) as nat, fields.len()) {
                Ok((vals, _, _)) => Ok(vals),
                Err(k) => Err(k),
            },
            decode_fields(data@, off as nat, end as nat, bits, fields, utf8, slot, (4 + nb) as nat, i as nat)
                == Ok::<(Seq<ValueView>, nat, nat), ErrorKind>((row_view(values@), r.pos as nat, seen as nat)),
        decreases fields.len() - i,
    {
        proof {
            assert(fields.take(i + 1).drop_last() =~= fields.take(i as int));
            lemma_nullable_count_take(fields, (i + 1) as nat);
            if fields[i as int].nullable && fields[i as int].field_type != FieldType::ObjectId {
                assert(nullable_count_of(fields.take(i + 1)) == nullable_count_of(fields.take(i as int)) + 1);
                assert(seen < n_nullable);
                assert(seen / 8 < nb);
            }
        }
        let ghost seen0 = seen;
        let ghost st0 = (row_view(values@), r.pos as nat, seen as nat);
        match decode_one(data, off, end, row, &null_bits, slot, &mut r, &mut seen, &mut values, &schema.fields[i], schema) {
            Ok(()) => {},
            Err(e) => {
                proof {
                    let st = (row_view(values@), r.pos as nat, seen as nat);
                    assert(decode_fields(data@, off as nat, end as nat, bits, fields, utf8, slot, (4 + nb) as nat, (i + 1) as nat)
                        == decode_step(data@, off as nat, end as nat, bits, utf8, slot, fields[i as int], st0));
                    assert(decode_fields(data@, off as nat, end as nat, bits, fields, utf8, slot, (4 + nb) as nat, (i + 1) as nat)
                        == Err::<(Seq<ValueView>, nat, nat), ErrorKind>(e.kind()));
                    lemma_decode_fields_err(data@, off as nat, end as nat, bits, fields, utf8, slot, (4 + nb) as nat,
                        (i + 1) as nat, fields.len(), e.kind());
                }
                return Err(e);
            },
        }
        proof {
            if !(fields[i as int].nullable && fields[i as int].field_type != FieldType::ObjectId) {
                assert(seen == seen0);
            }
        }
        i = i + 1;
    }
    Ok(values)
}

} // verus!
