//! The table files' round trip: reading the `.gdbtable` and `.gdbtablx` bytes that
//! [`crate::table::Table::serialize`] wrote gives the table back.
use vstd::prelude::*;
use crate::io::{le_bytes, le_value, to_signed, rest_at, pow256, lemma_le_bytes_value, lemma_pow_values};
use crate::field::{TableSchema, SchemaView, FieldDef, GeometryType, geometry_type_code, geometry_type_of, law_geometry_type_of_code};
use crate::table::schema::{le_at, fields_at, desc_offset, schema_at};
use crate::table::write::{
    layer_flags_of, field_defs_bytes, desc_section, row_blobs, concat, longest, table_header, table_file,
    lemma_table_header_len, row_offsets, slots_of, slot_end, slot_total, placed, max_offset, offset_width,
    offsets_bytes, slot_offsets, tablx_file, lemma_concat_take, lemma_slot_end,
};
use crate::table::rows::{twos, field_value_at, decode_step, decode_fields, decode_row_spec, bitmap_len};
use crate::table::row_roundtrip::{read_back_row, row_roundtrips, law_row_roundtrip};
use crate::table::rows::row_blob;
use crate::field::{FieldType, fields_view};
use crate::value::row_view;
use crate::table::{rows_view, decode_rows, table_at};
use crate::field::{FieldDefView, nullable_count_of};
use crate::value::ValueView;
use crate::error::ErrorKind;
use crate::table::{version_of, row_slots_of};
use crate::table::Table;
use crate::table::desc_roundtrip::{field_read_back, field_roundtrips, lemma_field_def_read};

verus! {

// ---------------------------------------------------------------------------
// The schema
// ---------------------------------------------------------------------------

/// The schema that reading a table's field description section gives back: its geometry
/// type, Z / M and text flags, and each field as [`field_read_back`] says.
pub open spec fn schema_read_back(s: TableSchema) -> SchemaView {
    SchemaView {
        geometry_type: s.geometry_type,
        has_z: s.has_z,
        has_m: s.has_m,
        string_utf8: s.string_utf8,
        fields: Seq::new(s.fields@.len(), |i: int| field_read_back(s.fields@[i], s.has_z, s.has_m)),
    }
}

/// A schema whose description section reads back as [`schema_read_back`] says: fewer than
/// 65536 fields, each reading back ([`field_roundtrips`]), and a geometry type whose code
/// fits in a byte and is its own.
pub open spec fn schema_roundtrips(s: TableSchema) -> bool {
    &&& s.fields@.len() < 0x1_0000
    &&& forall|i: int| 0 <= i < s.fields@.len() ==> field_roundtrips(#[trigger] s.fields@[i], s.has_z, s.has_m)
    &&& 0 <= geometry_type_code(s.geometry_type) < 256
    &&& (s.geometry_type matches GeometryType::Other(c) ==> !(0 <= c <= 5 || c == 9))
}

/// What follows `p` starts with `a`: those bytes are there, and what follows them is the rest.
proof fn lemma_rest_split(s: Seq<u8>, p: nat, a: Seq<u8>, t: Seq<u8>)
    requires
        p <= s.len(),
        rest_at(s, p) == a + t,
    ensures
        p + a.len() <= s.len(),
        s.subrange(p as int, (p + a.len()) as int) == a,
        rest_at(s, p + a.len()) == t,
{
    let r = rest_at(s, p);
    assert(r.len() == s.len() - p);
    assert forall|i: int| 0 <= i < a.len() implies s.subrange(p as int, (p + a.len()) as int)[i] == a[i] by {
        assert(r[i] == (a + t)[i]);
    }
    assert(s.subrange(p as int, (p + a.len()) as int) =~= a);
    assert(rest_at(s, p + a.len()) =~= t) by {
        assert forall|i: int| 0 <= i < t.len() implies rest_at(s, p + a.len())[i] == t[i] by {
            assert(r[a.len() + i] == (a + t)[a.len() + i]);
        }
    }
}

/// The field descriptions where the writer put them are read back, one after the other.
#[verifier::rlimit(40)]
proof fn lemma_fields_read(s: Seq<u8>, p: nat, fields: Seq<FieldDef>, has_z: bool, has_m: bool, t: Seq<u8>)
    requires
        p <= s.len(),
        forall|i: int| 0 <= i < fields.len() ==> field_roundtrips(#[trigger] fields[i], has_z, has_m),
        rest_at(s, p) == field_defs_bytes(fields, has_z, has_m) + t,
    ensures
        fields_at(s, p, has_z, has_m, fields.len()) == Some((Seq::new(fields.len(), |i: int| field_read_back(fields[i], has_z, has_m)),
            p + field_defs_bytes(fields, has_z, has_m).len())),
    decreases fields.len(),
{
    if fields.len() == 0 {
        assert(Seq::new(0, |i: int| field_read_back(fields[i], has_z, has_m)) =~= Seq::<crate::field::FieldDefView>::empty());
    } else {
        let a = fields.drop_last();
        let f = fields.last();
        let fa = field_defs_bytes(a, has_z, has_m);
        let fb = crate::table::schema::field_def_bytes(f, has_z, has_m);
        assert(field_defs_bytes(fields, has_z, has_m) == fa + fb);
        assert(rest_at(s, p) == fa + (fb + t));
        assert forall|i: int| 0 <= i < a.len() implies field_roundtrips(#[trigger] a[i], has_z, has_m) by {
            assert(a[i] == fields[i]);
        }
        lemma_fields_read(s, p, a, has_z, has_m, fb + t);
        lemma_rest_split(s, p, fa, fb + t);
        let q = p + fa.len();
        assert(field_roundtrips(fields[fields.len() - 1], has_z, has_m));
        lemma_field_def_read(s, q, f, has_z, has_m, t);
        let prev = Seq::new(a.len(), |i: int| field_read_back(a[i], has_z, has_m));
        let all = Seq::new(fields.len(), |i: int| field_read_back(fields[i], has_z, has_m));
        assert(all =~= prev.push(field_read_back(f, has_z, has_m))) by {
            assert forall|i: int| 0 <= i < a.len() implies all[i] == prev[i] by {
                assert(a[i] == fields[i]);
            }
        }
    }
}

/// The layer flags read back as the geometry type code and the Z, M and text flags.
proof fn lemma_layer_flags(s: TableSchema)
    requires
        0 <= geometry_type_code(s.geometry_type) < 256,
    ensures
        layer_flags_of(s) < 0x1_0000_0000,
        ({
            let f = layer_flags_of(s) as u32;
            &&& (f & 0x8000_0000u32 != 0) == s.has_z
            &&& (f & 0x4000_0000u32 != 0) == s.has_m
            &&& (f & 0x100u32 != 0) == s.string_utf8
            &&& (f & 0xFFu32) as i32 == geometry_type_code(s.geometry_type)
        }),
{
    let c = geometry_type_code(s.geometry_type);
    assert(twos(c as int, 0x1_0000_0000) % 256 == c);
    let lo = c as u32;
    let bz: u32 = if s.has_z { 0x8000_0000 } else { 0 };
    let bm: u32 = if s.has_m { 0x4000_0000 } else { 0 };
    let bu: u32 = if s.string_utf8 { 0x100 } else { 0 };
    assert(layer_flags_of(s) == lo + bz + bm + bu);
    assert(lo < 256 && (bz == 0u32 || bz == 0x8000_0000u32) && (bm == 0u32 || bm == 0x4000_0000u32)
        && (bu == 0u32 || bu == 0x100u32) ==> {
        &&& ((lo + bz + bm + bu) as u32 & 0x8000_0000u32 != 0) == (bz != 0u32)
        &&& ((lo + bz + bm + bu) as u32 & 0x4000_0000u32 != 0) == (bm != 0u32)
        &&& ((lo + bz + bm + bu) as u32 & 0x100u32 != 0) == (bu != 0u32)
        &&& ((lo + bz + bm + bu) as u32 & 0xFFu32) == lo
    }) by (bit_vector);
}

/// The header of a table file holds the version in its first 4 bytes and the offset 40 of
/// the field description section in its last 8.
proof fn lemma_header_fields(version: u32, nrows: nat, largest: nat, size: nat)
    ensures
        table_header(version, nrows, largest, size).len() == 40,
        table_header(version, nrows, largest, size).subrange(0, 4) == le_bytes(version as nat, 4),
        table_header(version, nrows, largest, size).subrange(32, 40) == le_bytes(40, 8),
{
    lemma_table_header_len(version, nrows, largest, size);
    let h = table_header(version, nrows, largest, size);
    lemma_le_bytes_value(version as nat, 4);
    lemma_le_bytes_value(40, 8);
    assert(h.subrange(0, 4) =~= le_bytes(version as nat, 4));
    assert(h.subrange(32, 40) =~= le_bytes(40, 8));
}

/// Reading the schema of the `.gdbtable` bytes that a table writes gives back its schema
/// as [`schema_read_back`] says.
pub proof fn law_schema_roundtrip(t: Table)
    requires
        schema_roundtrips(t.schema),
    ensures
        schema_at(table_file(t)) == Some(schema_read_back(t.schema)),
{
    let s = t.schema;
    let desc = desc_section(s, t.version);
    let bs = row_blobs(s, t.rows@);
    let body = concat(bs);
    let data = table_file(t);
    let h = table_header(t.version, t.rows@.len(), longest(bs), 40 + desc.len() + body.len());
    lemma_header_fields(t.version, t.rows@.len(), longest(bs), 40 + desc.len() + body.len());
    assert(data == h + desc + body);
    lemma_pow_values();
    assert(data.subrange(32, 40) =~= h.subrange(32, 40));
    lemma_le_bytes_value(40, 8);
    vstd::arithmetic::div_mod::lemma_small_mod(40, pow256(8));
    assert(desc_offset(data) == 40);
    let ver: nat = if t.version == 4 { 6 } else { 4 };
    let lf = layer_flags_of(s);
    let nf = s.fields@.len();
    let fdbs = field_defs_bytes(s.fields@, s.has_z, s.has_m);
    let bl = (le_bytes(ver, 4) + le_bytes(lf, 4) + le_bytes(nf, 2) + fdbs).len();
    lemma_le_bytes_value(bl, 4);
    lemma_le_bytes_value(ver, 4);
    lemma_le_bytes_value(lf, 4);
    lemma_le_bytes_value(nf, 2);
    assert(rest_at(data, 40) =~= le_bytes(bl, 4) + (le_bytes(ver, 4) + (le_bytes(lf, 4) + (le_bytes(nf, 2) + (fdbs + body)))));
    lemma_rest_split(data, 40, le_bytes(bl, 4), le_bytes(ver, 4) + (le_bytes(lf, 4) + (le_bytes(nf, 2) + (fdbs + body))));
    lemma_rest_split(data, 44, le_bytes(ver, 4), le_bytes(lf, 4) + (le_bytes(nf, 2) + (fdbs + body)));
    lemma_rest_split(data, 48, le_bytes(lf, 4), le_bytes(nf, 2) + (fdbs + body));
    lemma_rest_split(data, 52, le_bytes(nf, 2), fdbs + body);
    lemma_layer_flags(s);
    vstd::arithmetic::div_mod::lemma_small_mod(lf, pow256(4));
    vstd::arithmetic::div_mod::lemma_small_mod(nf, pow256(2));
    assert(le_at(data, 48, 4) == Some(lf));
    assert(le_at(data, 52, 2) == Some(nf));
    lemma_fields_read(data, 54, s.fields@, s.has_z, s.has_m, body);
    law_geometry_type_of_code(s.geometry_type);
}

// ---------------------------------------------------------------------------
// The index
// ---------------------------------------------------------------------------

/// Each offset takes its own `w` bytes.
proof fn lemma_offsets_index(offs: Seq<u64>, w: nat)
    ensures
        offsets_bytes(offs, w).len() == offs.len() * w,
        forall|i: int| 0 <= i < offs.len() ==> #[trigger] offsets_bytes(offs, w).subrange(i * w, i * w + w) == le_bytes(offs[i] as nat, w),
    decreases offs.len(),
{
    if offs.len() > 0 {
        let a = offs.drop_last();
        lemma_offsets_index(a, w);
        lemma_le_bytes_value(offs.last() as nat, w);
        let ob = offsets_bytes(offs, w);
        assert(ob == offsets_bytes(a, w) + le_bytes(offs.last() as nat, w));
        assert(offs.len() * w == a.len() * w + w) by (nonlinear_arith)
            requires
                offs.len() == a.len() + 1;
        assert forall|i: int| 0 <= i < offs.len() implies #[trigger] ob.subrange(i * w, i * w + w) == le_bytes(offs[i] as nat, w) by {
            if i < a.len() {
                assert(i * w + w <= a.len() * w) by (nonlinear_arith)
                    requires
                        i < a.len(),
                        i >= 0;
                assert(0 <= i * w) by (nonlinear_arith)
                    requires
                        i >= 0;
                assert(ob.subrange(i * w, i * w + w) =~= offsets_bytes(a, w).subrange(i * w, i * w + w));
            } else {
                assert(i == a.len());
                assert(ob.subrange(i * w, i * w + w) =~= le_bytes(offs.last() as nat, w));
            }
        }
    }
}

/// No offset is above the largest.
proof fn lemma_max_offset(offs: Seq<u64>, i: int)
    requires
        0 <= i < offs.len(),
    ensures
        offs[i] <= max_offset(offs),
    decreases offs.len(),
{
    if i < offs.len() - 1 {
        lemma_max_offset(offs.drop_last(), i);
    }
}

/// The largest offset is below any bound of all offsets.
proof fn lemma_max_offset_bound(offs: Seq<u64>, b: nat)
    requires
        forall|i: int| 0 <= i < offs.len() ==> offs[i] <= b,
    ensures
        max_offset(offs) <= b,
    decreases offs.len(),
{
    if offs.len() > 0 {
        lemma_max_offset_bound(offs.drop_last(), b);
    }
}

/// Slots one after the other in increasing order.
pub open spec fn increasing(slots: Seq<u64>) -> bool {
    forall|i: int, j: int| 0 <= i < j < slots.len() ==> slots[i] < slots[j]
}

/// With slots in increasing order, each of the first `k` rows' offsets is in its slot, and
/// every other slot holds 0.
proof fn lemma_placed(slots: Seq<u64>, offs: Seq<u64>, n: nat, k: nat)
    requires
        k <= slots.len(),
        slots.len() == offs.len(),
        increasing(slots),
        forall|j: int| 0 <= j < slots.len() ==> slots[j] < n,
    ensures
        placed(slots, offs, n, k).len() == n,
        forall|j: int| 0 <= j < k ==> #[trigger] placed(slots, offs, n, k)[slots[j] as int] == offs[j],
        forall|i: int| 0 <= i < n && (forall|j: int| 0 <= j < k ==> slots[j] != i) ==> #[trigger] placed(slots, offs, n, k)[i] == 0,
    decreases k,
{
    if k > 0 {
        lemma_placed(slots, offs, n, (k - 1) as nat);
        let prev = placed(slots, offs, n, (k - 1) as nat);
        let cur = placed(slots, offs, n, k);
        assert(cur == prev.update(slots[k - 1] as int, offs[k - 1]));
        assert forall|j: int| 0 <= j < k implies #[trigger] cur[slots[j] as int] == offs[j] by {
            if j < k - 1 {
                assert(slots[j] < slots[k - 1]);
                assert(prev[slots[j] as int] == offs[j]);
            }
        }
        assert forall|i: int| 0 <= i < n && (forall|j: int| 0 <= j < k ==> slots[j] != i) implies #[trigger] cur[i] == 0 by {
            assert(slots[k - 1] != i);
            assert(forall|j: int| 0 <= j < k - 1 ==> slots[j] != i);
        }
    }
}

/// `256^5` and `256^6`.
proof fn lemma_pow256_56()
    ensures
        pow256(5) == 0x100_0000_0000,
        pow256(6) == 0x1_0000_0000_0000,
{
    reveal_with_fuel(pow256, 7);
}

/// Reading the `.gdbtablx` bytes gives, for each written slot, the slot number and the
/// offset it holds.
proof fn lemma_index_read(t: Table)
    requires
        slot_total(t) < 0x8000_0000,
        slot_offsets(t).len() == slot_total(t),
        max_offset(slot_offsets(t)) < 0x1_0000_0000_0000,
    ensures
        row_slots_of(tablx_file(t)) == Some(Seq::new(slot_total(t), |i: int| (i as u64, slot_offsets(t)[i]))),
{
    let n = slot_total(t);
    let offs = slot_offsets(t);
    let m = max_offset(offs);
    let w = offset_width(m);
    let blocks: nat = n / 1024 + (if n % 1024 != 0 { 1nat } else { 0nat });
    let head = le_bytes(3, 4) + le_bytes(blocks, 4) + le_bytes(n, 4) + le_bytes(w, 4);
    let ob = offsets_bytes(offs, w);
    let idx = tablx_file(t);
    assert(idx == head + ob);
    lemma_le_bytes_value(3, 4);
    lemma_le_bytes_value(blocks, 4);
    lemma_le_bytes_value(n, 4);
    lemma_le_bytes_value(w, 4);
    lemma_pow_values();
    lemma_pow256_56();
    lemma_offsets_index(offs, w);
    assert(idx.subrange(8, 12) =~= le_bytes(n, 4));
    assert(idx.subrange(12, 16) =~= le_bytes(w, 4));
    vstd::arithmetic::div_mod::lemma_small_mod(n, pow256(4));
    vstd::arithmetic::div_mod::lemma_small_mod(w, pow256(4));
    assert(to_signed(le_value(idx.subrange(8, 12)), 32) == n as int);
    assert(to_signed(le_value(idx.subrange(12, 16)), 32) == w as int);
    assert((idx.len() - 16) / (w as int) == n) by (nonlinear_arith)
        requires
            idx.len() - 16 == n * w,
            w >= 4;
    let got = Seq::new(n, |i: int| (i as u64, le_value(idx.subrange(16 + i * w, 16 + i * w + w)) as u64));
    assert forall|i: int| 0 <= i < n implies got[i] == (i as u64, offs[i]) by {
        assert(0 <= i * w && i * w + w <= n * w) by (nonlinear_arith)
            requires
                0 <= i < n;
        assert(idx.subrange(16 + i * w, 16 + i * w + w) =~= ob.subrange(i * w, i * w + w));
        lemma_le_bytes_value(offs[i] as nat, w);
        lemma_max_offset(offs, i);
        assert(offs[i] < pow256(w));
        vstd::arithmetic::div_mod::lemma_small_mod(offs[i] as nat, pow256(w));
    }
    assert(row_slots_of(idx).unwrap() =~= Seq::new(n, |i: int| (i as u64, offs[i])));
}

// ---------------------------------------------------------------------------
// Reading rows with the schema read back
// ---------------------------------------------------------------------------

/// Two lists of fields that the row codec treats alike: the same types and nullability.
pub open spec fn same_codec(a: Seq<FieldDefView>, b: Seq<FieldDefView>) -> bool {
    &&& a.len() == b.len()
    &&& forall|i: int| 0 <= i < a.len() ==> (#[trigger] a[i]).field_type == b[i].field_type && a[i].nullable == b[i].nullable
}

/// Fields that the row codec treats alike have as many nullable fields.
proof fn lemma_same_codec_nullable(a: Seq<FieldDefView>, b: Seq<FieldDefView>)
    requires
        same_codec(a, b),
    ensures
        nullable_count_of(a) == nullable_count_of(b),
    decreases a.len(),
{
    if a.len() > 0 {
        assert(a.last() == a[a.len() - 1]);
        assert(same_codec(a.drop_last(), b.drop_last())) by {
            assert forall|i: int| 0 <= i < a.len() - 1 implies (#[trigger] a.drop_last()[i]).field_type == b.drop_last()[i].field_type
                && a.drop_last()[i].nullable == b.drop_last()[i].nullable by {
                assert(a.drop_last()[i] == a[i]);
                assert(b.drop_last()[i] == b[i]);
            }
        }
        lemma_same_codec_nullable(a.drop_last(), b.drop_last());
    }
}

/// Fields that the row codec treats alike decode the first `n` values of a row alike.
proof fn lemma_same_codec_fields(data: Seq<u8>, off: nat, end: nat, bits: Seq<u8>, a: Seq<FieldDefView>, b: Seq<FieldDefView>,
    utf8: bool, slot: u64, start: nat, n: nat)
    requires
        same_codec(a, b),
        n <= a.len(),
    ensures
        decode_fields(data, off, end, bits, a, utf8, slot, start, n) == decode_fields(data, off, end, bits, b, utf8, slot, start, n),
    decreases n,
{
    if n > 0 {
        lemma_same_codec_fields(data, off, end, bits, a, b, utf8, slot, start, (n - 1) as nat);
        let fa = a[n - 1];
        let fb = b[n - 1];
        assert(fa.field_type == fb.field_type && fa.nullable == fb.nullable);
        reveal(field_value_at);
        match decode_fields(data, off, end, bits, a, utf8, slot, start, (n - 1) as nat) {
            Ok(st) => {
                let (vals, rel, seen) = st;
                assert(field_value_at(data, off + rel, fa, utf8) == field_value_at(data, off + rel, fb, utf8));
                assert(decode_step(data, off, end, bits, utf8, slot, fa, st) == decode_step(data, off, end, bits, utf8, slot, fb, st));
            },
            Err(_) => {},
        }
    }
}

/// Fields that the row codec treats alike decode a row alike.
proof fn lemma_same_codec_row(data: Seq<u8>, off: nat, slot: u64, a: Seq<FieldDefView>, b: Seq<FieldDefView>, utf8: bool)
    requires
        same_codec(a, b),
    ensures
        decode_row_spec(data, off, slot, a, utf8) == decode_row_spec(data, off, slot, b, utf8),
{
    lemma_same_codec_nullable(a, b);
    if off + 4 <= data.len() {
        let rl = to_signed(le_value(data.subrange(off as int, (off + 4) as int)), 32);
        let nb = bitmap_len(nullable_count_of(a));
        if !(rl < 0 || off + 4 + rl > data.len() || off + 4 + nb > data.len()) {
            let bits = data.subrange((off + 4) as int, (off + 4 + nb) as int);
            lemma_same_codec_fields(data, off, (off + 4 + rl) as nat, bits, a, b, utf8, slot, 4 + nb, a.len());
        }
    }
}


// ---------------------------------------------------------------------------
// The rows
// ---------------------------------------------------------------------------

/// The stored rows before row `k` are the start of all stored rows.
proof fn lemma_concat_prefix(bs: Seq<Seq<u8>>, k: nat)
    requires
        k <= bs.len(),
    ensures
        concat(bs.take(k as int)).len() <= concat(bs).len(),
        concat(bs).subrange(0, concat(bs.take(k as int)).len() as int) == concat(bs.take(k as int)),
    decreases bs.len() - k,
{
    if k == bs.len() {
        assert(bs.take(k as int) =~= bs);
        assert(concat(bs).subrange(0, concat(bs).len() as int) =~= concat(bs));
    } else {
        lemma_concat_prefix(bs, k + 1);
        let a = concat(bs.take(k as int));
        let b = concat(bs.take((k + 1) as int));
        assert(bs.take((k + 1) as int).drop_last() =~= bs.take(k as int));
        assert(bs.take((k + 1) as int).last() == bs[k as int]);
        assert(b == a + bs[k as int]);
        assert(concat(bs).subrange(0, a.len() as int) =~= b.subrange(0, a.len() as int));
        assert(b.subrange(0, a.len() as int) =~= a);
    }
}

/// The offset of row `j` in the `.gdbtable` bytes, as a number.
pub open spec fn row_start(t: Table, j: int) -> nat {
    40 + desc_section(t.schema, t.version).len() + concat(row_blobs(t.schema, t.rows@).take(j)).len()
}

/// Each row's stored bytes are in the `.gdbtable` bytes at its offset.
proof fn lemma_row_bytes_at(t: Table, j: int)
    requires
        0 <= j < t.rows@.len(),
    ensures
        row_start(t, j) + row_blobs(t.schema, t.rows@)[j].len() <= table_file(t).len(),
        table_file(t).subrange(row_start(t, j) as int, (row_start(t, j) + row_blobs(t.schema, t.rows@)[j].len()) as int)
            == row_blobs(t.schema, t.rows@)[j],
{
    let desc = desc_section(t.schema, t.version);
    let bs = row_blobs(t.schema, t.rows@);
    let body = concat(bs);
    let data = table_file(t);
    let h = table_header(t.version, t.rows@.len(), longest(bs), 40 + desc.len() + body.len());
    lemma_table_header_len(t.version, t.rows@.len(), longest(bs), 40 + desc.len() + body.len());
    assert(data == h + desc + body);
    lemma_concat_prefix(bs, (j + 1) as nat);
    let a = concat(bs.take(j));
    let b = concat(bs.take(j + 1));
    assert(bs.take(j + 1).drop_last() =~= bs.take(j));
    assert(bs.take(j + 1).last() == bs[j]);
    assert(b == a + bs[j]);
    let st = row_start(t, j);
    assert forall|i: int| 0 <= i < bs[j].len() implies data.subrange(st as int, (st + bs[j].len()) as int)[i] == bs[j][i] by {
        assert(data[st + i] == body[a.len() + i]);
        assert(body.subrange(0, b.len() as int)[a.len() + i] == b[a.len() + i]);
    }
    assert(data.subrange(st as int, (st + bs[j].len()) as int) =~= bs[j]);
}

/// The rows read with the schema read back: a row written where the writer put it reads
/// back as the row codec says.
proof fn lemma_row_read(t: Table, j: int)
    requires
        0 <= j < t.rows@.len(),
        same_codec(fields_view(t.schema.fields@), schema_read_back(t.schema).fields),
        row_roundtrips(fields_view(t.schema.fields@), row_view(t.rows@[j]@), t.schema.string_utf8),
        slots_of(t)[j] < u64::MAX,
    ensures
        decode_row_spec(table_file(t), row_start(t, j), slots_of(t)[j], schema_read_back(t.schema).fields, t.schema.string_utf8)
            == Ok::<Seq<ValueView>, ErrorKind>(read_back_row(fields_view(t.schema.fields@), row_view(t.rows@[j]@), slots_of(t)[j])),
{
    let data = table_file(t);
    let f1 = fields_view(t.schema.fields@);
    let f2 = schema_read_back(t.schema).fields;
    let u = t.schema.string_utf8;
    let row = row_view(t.rows@[j]@);
    let blob = row_blob(f1, row, u);
    let slot = slots_of(t)[j];
    lemma_row_bytes_at(t, j);
    assert(row_blobs(t.schema, t.rows@)[j] == blob);
    let st = row_start(t, j);
    let pre = data.subrange(0, st as int);
    let post = data.subrange((st + blob.len()) as int, data.len() as int);
    assert(data =~= pre + blob + post);
    law_row_roundtrip(pre, f1, row, u, slot, post);
    lemma_same_codec_row(data, st, slot, f1, f2, u);
}

/// How many of the increasing slots come before slot `k`.
pub open spec fn slots_before(slots: Seq<u64>, k: nat) -> nat
    decreases slots.len(),
{
    if slots.len() == 0 {
        0
    } else if slots.last() < k {
        slots.len()
    } else {
        slots_before(slots.drop_last(), k)
    }
}

/// The slots before `k` are the first [`slots_before`] ones.
proof fn lemma_slots_before(slots: Seq<u64>, k: nat)
    requires
        increasing(slots),
    ensures
        slots_before(slots, k) <= slots.len(),
        forall|j: int| 0 <= j < slots_before(slots, k) ==> #[trigger] slots[j] < k,
        forall|j: int| slots_before(slots, k) <= j < slots.len() ==> #[trigger] slots[j] >= k,
    decreases slots.len(),
{
    if slots.len() > 0 {
        let a = slots.drop_last();
        assert(increasing(a)) by {
            assert forall|i: int, j: int| 0 <= i < j < a.len() implies a[i] < a[j] by {
                assert(a[i] == slots[i] && a[j] == slots[j]);
            }
        }
        lemma_slots_before(a, k);
        if slots.last() < k {
            assert forall|j: int| 0 <= j < slots.len() implies #[trigger] slots[j] < k by {
                if j < slots.len() - 1 {
                    assert(slots[j] < slots[slots.len() - 1]);
                }
            }
        } else {
            assert forall|j: int| slots_before(slots, k) <= j < slots.len() implies #[trigger] slots[j] >= k by {
                if j < slots.len() - 1 {
                    assert(slots[j] == a[j]);
                }
            }
            assert forall|j: int| 0 <= j < slots_before(slots, k) implies #[trigger] slots[j] < k by {
                assert(slots[j] == a[j]);
            }
        }
    }
}

/// A count with the property of [`slots_before`] is that count.
proof fn lemma_slots_before_unique(slots: Seq<u64>, k: nat, c: nat)
    requires
        increasing(slots),
        c <= slots.len(),
        forall|j: int| 0 <= j < c ==> #[trigger] slots[j] < k,
        forall|j: int| c <= j < slots.len() ==> #[trigger] slots[j] >= k,
    ensures
        slots_before(slots, k) == c,
{
    lemma_slots_before(slots, k);
    let b = slots_before(slots, k);
    if b < c {
        assert(slots[b as int] < k);
        assert(slots[b as int] >= k);
    } else if c < b {
        assert(slots[c as int] < k);
        assert(slots[c as int] >= k);
    }
}

/// The slots that the `.gdbtablx` bytes of a table hold: each slot's number and offset.
pub open spec fn index_slots(t: Table) -> Seq<(u64, u64)> {
    Seq::new(slot_total(t), |i: int| (i as u64, slot_offsets(t)[i]))
}

/// What reading a table's files has to hold for the rows to come back.
pub open spec fn rows_come_back(t: Table) -> bool {
    &&& increasing(slots_of(t))
    &&& same_codec(fields_view(t.schema.fields@), schema_read_back(t.schema).fields)
    &&& forall|j: int| 0 <= j < t.rows@.len()
        ==> row_roundtrips(fields_view(t.schema.fields@), #[trigger] row_view(t.rows@[j]@), t.schema.string_utf8)
    &&& slot_total(t) < 0x8000_0000
    &&& table_file(t).len() < 0x1_0000_0000_0000
}

/// Facts about the slots and offsets of a table whose rows come back.
proof fn lemma_slot_facts(t: Table)
    requires
        rows_come_back(t),
    ensures
        slots_of(t).len() == t.rows@.len(),
        row_offsets(t).len() == t.rows@.len(),
        forall|j: int| 0 <= j < t.rows@.len() ==> #[trigger] slots_of(t)[j] < slot_total(t),
        forall|j: int| 0 <= j < t.rows@.len() ==> (#[trigger] row_offsets(t)[j]) as nat == row_start(t, j)
            && row_start(t, j) >= 40 && row_start(t, j) <= table_file(t).len(),
        slot_offsets(t).len() == slot_total(t),
        forall|j: int| 0 <= j < t.rows@.len() ==> #[trigger] slot_offsets(t)[slots_of(t)[j] as int] == row_offsets(t)[j],
        forall|i: int| 0 <= i < slot_total(t) && (forall|j: int| 0 <= j < t.rows@.len() ==> slots_of(t)[j] != i)
            ==> #[trigger] slot_offsets(t)[i] == 0,
        max_offset(slot_offsets(t)) < 0x1_0000_0000_0000,
{
    let sl = slots_of(t);
    let n = slot_total(t);
    let r = t.rows@.len();
    assert forall|j: int| 0 <= j < r implies #[trigger] sl[j] < n by {
        lemma_slot_end(sl, j);
    }
    assert forall|j: int| 0 <= j < r implies (#[trigger] row_offsets(t)[j]) as nat == row_start(t, j)
        && row_start(t, j) >= 40 && row_start(t, j) <= table_file(t).len() by {
        lemma_row_bytes_at(t, j);
    }
    lemma_placed(sl, row_offsets(t), n, r);
    let offs = slot_offsets(t);
    assert forall|i: int| 0 <= i < offs.len() implies offs[i] <= table_file(t).len() by {
        if exists|j: int| 0 <= j < r && sl[j] == i {
            let j = choose|j: int| 0 <= j < r && sl[j] == i;
            assert(offs[sl[j] as int] == row_offsets(t)[j]);
        }
    }
    lemma_max_offset_bound(offs, table_file(t).len());
}

/// The first `c` rows as the row codec reads them back in their slots.
pub open spec fn rows_read_back(t: Table, c: nat) -> Seq<Seq<ValueView>> {
    Seq::new(c, |j: int| read_back_row(fields_view(t.schema.fields@), row_view(t.rows@[j]@), slots_of(t)[j]))
}

/// What reading the first `k` slots gives back: the rows in slots before `k`, in order,
/// with their slots, and the slot count `k`.
pub open spec fn decoded_up_to(t: Table, k: nat) -> Result<(Seq<Seq<ValueView>>, Seq<u64>, nat), ErrorKind> {
    let c = slots_before(slots_of(t), k);
    Ok((rows_read_back(t, c), slots_of(t).take(c as int), k))
}

/// Reading slot `k - 1` when a row was written there.
#[verifier::rlimit(40)]
proof fn lemma_decode_hit(t: Table, k: nat, j: int)
    requires
        0 < k <= slot_total(t),
        rows_come_back(t),
        0 <= j < t.rows@.len(),
        slots_of(t)[j] == k - 1,
        decode_rows(table_file(t), index_slots(t), schema_read_back(t.schema), (k - 1) as nat) == decoded_up_to(t, (k - 1) as nat),
    ensures
        decode_rows(table_file(t), index_slots(t), schema_read_back(t.schema), k) == decoded_up_to(t, k),
{
    let sl = slots_of(t);
    let f1 = fields_view(t.schema.fields@);
    lemma_slot_facts(t);
    lemma_slots_before(sl, (k - 1) as nat);
    let c = slots_before(sl, (k - 1) as nat);
    if j < c {
        assert(sl[j] < k - 1);
    } else if j > c {
        assert(sl[c as int] < sl[j]);
        assert(sl[c as int] >= k - 1);
    }
    assert(j == c);
    let ix = index_slots(t);
    assert(ix[k - 1] == ((k - 1) as u64, slot_offsets(t)[k - 1]));
    assert(slot_offsets(t)[k - 1] == row_offsets(t)[j]);
    lemma_row_read(t, j);
    assert forall|i: int| c + 1 <= i < sl.len() implies #[trigger] sl[i] >= k by {
        assert(sl[j] < sl[i]);
    }
    lemma_slots_before_unique(sl, k, c + 1);
    assert(rows_read_back(t, c + 1) =~= rows_read_back(t, c).push(read_back_row(f1, row_view(t.rows@[j]@), sl[j])));
    assert(sl.take((c + 1) as int) =~= sl.take(c as int).push(sl[j]));
}

/// Reading slot `k - 1` when no row was written there.
#[verifier::rlimit(40)]
proof fn lemma_decode_miss(t: Table, k: nat)
    requires
        0 < k <= slot_total(t),
        rows_come_back(t),
        forall|j: int| 0 <= j < t.rows@.len() ==> slots_of(t)[j] != k - 1,
        decode_rows(table_file(t), index_slots(t), schema_read_back(t.schema), (k - 1) as nat) == decoded_up_to(t, (k - 1) as nat),
    ensures
        decode_rows(table_file(t), index_slots(t), schema_read_back(t.schema), k) == decoded_up_to(t, k),
{
    let sl = slots_of(t);
    lemma_slot_facts(t);
    lemma_slots_before(sl, (k - 1) as nat);
    let c = slots_before(sl, (k - 1) as nat);
    let ix = index_slots(t);
    assert(ix[k - 1] == ((k - 1) as u64, slot_offsets(t)[k - 1]));
    assert(slot_offsets(t)[k - 1] == 0);
    assert forall|i: int| c <= i < sl.len() implies #[trigger] sl[i] >= k by {
        assert(sl[i] >= k - 1);
        assert(sl[i] != k - 1);
    }
    lemma_slots_before_unique(sl, k, c);
}

/// Reading no slot gives nothing back.
proof fn lemma_decode_none(t: Table)
    requires
        rows_come_back(t),
    ensures
        decode_rows(table_file(t), index_slots(t), schema_read_back(t.schema), 0) == decoded_up_to(t, 0),
{
    let sl = slots_of(t);
    lemma_slots_before(sl, 0);
    if slots_before(sl, 0) > 0 {
        assert(sl[0] < 0);
    }
    assert(rows_read_back(t, 0) =~= Seq::<Seq<ValueView>>::empty());
    assert(sl.take(0) =~= Seq::<u64>::empty());
}

/// The rows that reading the first `k` slots gives back.
#[verifier::spinoff_prover]
proof fn lemma_decode_rows(t: Table, k: nat)
    requires
        k <= slot_total(t),
        rows_come_back(t),
    ensures
        decode_rows(table_file(t), index_slots(t), schema_read_back(t.schema), k) == decoded_up_to(t, k),
    decreases k,
{
    let sl = slots_of(t);
    if k == 0 {
        lemma_decode_none(t);
    } else {
        lemma_decode_rows(t, (k - 1) as nat);
        if exists|j: int| 0 <= j < t.rows@.len() && sl[j] == k - 1 {
            let j = choose|j: int| 0 <= j < t.rows@.len() && sl[j] == k - 1;
            lemma_decode_hit(t, k, j);
        } else {
            lemma_decode_miss(t, k);
        }
    }
}

/// The format version of the `.gdbtable` bytes is the table's.
proof fn lemma_version_read(t: Table)
    requires
        t.version == 3 || t.version == 4,
    ensures
        version_of(table_file(t)) == Some(t.version),
{
    let desc = desc_section(t.schema, t.version);
    let bs = row_blobs(t.schema, t.rows@);
    let body = concat(bs);
    let data = table_file(t);
    let h = table_header(t.version, t.rows@.len(), longest(bs), 40 + desc.len() + body.len());
    lemma_header_fields(t.version, t.rows@.len(), longest(bs), 40 + desc.len() + body.len());
    assert(data == h + desc + body);
    assert(data.subrange(0, 4) =~= h.subrange(0, 4));
    lemma_le_bytes_value(t.version as nat, 4);
    lemma_pow_values();
    vstd::arithmetic::div_mod::lemma_small_mod(t.version as nat, pow256(4));
}

/// The read-back schema's fields have the types and nullability of the written ones when
/// no object ID field is nullable.
proof fn lemma_read_back_codec(s: TableSchema)
    requires
        forall|i: int| 0 <= i < s.fields@.len() && (#[trigger] s.fields@[i]).field_type == FieldType::ObjectId ==> !s.fields@[i].nullable,
    ensures
        same_codec(fields_view(s.fields@), schema_read_back(s).fields),
{
    let a = fields_view(s.fields@);
    let b = schema_read_back(s).fields;
    assert forall|i: int| 0 <= i < a.len() implies (#[trigger] a[i]).field_type == b[i].field_type && a[i].nullable == b[i].nullable by {
        let f = s.fields@[i];
        assert(a[i] == f@);
        assert(b[i] == field_read_back(f, s.has_z, s.has_m));
    }
}

/// Reading the `.gdbtable` and `.gdbtablx` bytes that a table writes gives the table back:
/// its schema as [`schema_read_back`] says, its version, each row as the row codec reads it
/// back in the slot it was written to (its object ID is the slot plus one), the slots, and
/// the slot count. This holds for a table of format 3 or 4 whose schema reads back
/// ([`schema_roundtrips`]) and has no nullable object ID field, whose rows read back
/// (`row_roundtrips`), whose rows sit in increasing slots, with fewer than `2^31` slots
/// and a `.gdbtable` file of fewer than `2^48` bytes.
pub proof fn law_table_roundtrip(t: Table)
    requires
        t.version == 3 || t.version == 4,
        schema_roundtrips(t.schema),
        forall|i: int| 0 <= i < t.schema.fields@.len() && (#[trigger] t.schema.fields@[i]).field_type == FieldType::ObjectId
            ==> !t.schema.fields@[i].nullable,
        forall|j: int| 0 <= j < t.rows@.len()
            ==> row_roundtrips(fields_view(t.schema.fields@), #[trigger] row_view(t.rows@[j]@), t.schema.string_utf8),
        increasing(slots_of(t)),
        slot_total(t) < 0x8000_0000,
        table_file(t).len() < 0x1_0000_0000_0000,
    ensures
        table_at(table_file(t), tablx_file(t)) == Ok::<(SchemaView, u32, Seq<Seq<ValueView>>, Seq<u64>, nat), ErrorKind>((
            schema_read_back(t.schema),
            t.version,
            Seq::new(t.rows@.len(), |j: int| read_back_row(fields_view(t.schema.fields@), row_view(t.rows@[j]@), slots_of(t)[j])),
            slots_of(t),
            slot_total(t),
        )),
{
    lemma_read_back_codec(t.schema);
    assert(rows_come_back(t));
    law_schema_roundtrip(t);
    lemma_version_read(t);
    lemma_slot_facts(t);
    lemma_index_read(t);
    let n = slot_total(t);
    let sl = slots_of(t);
    lemma_decode_rows(t, n);
    lemma_slots_before_unique(sl, n, sl.len());
    assert(sl.take(sl.len() as int) =~= sl);
    assert(rows_read_back(t, sl.len()) =~= Seq::new(t.rows@.len(),
        |j: int| read_back_row(fields_view(t.schema.fields@), row_view(t.rows@[j]@), slots_of(t)[j])));
}

} // verus!
