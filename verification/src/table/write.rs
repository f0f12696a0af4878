//! Writing a table back: the bytes of its `.gdbtable` file and of its `.gdbtablx` index.
//!
//! ```text
//! .gdbtable   [40-byte header][field description section][rows]
//! .gdbtablx   [i32 3][i32 1024-slot blocks][i32 slots][i32 offset width][one offset per slot]
//! ```
//! Each row goes back to its own slot, so that object IDs (slot + 1) stay the same; an
//! empty slot has offset 0.
use vstd::prelude::*;
use crate::io::{le_bytes, write_le, lemma_le_bytes_value};
use crate::field::{FieldDef, TableSchema, geometry_type_code, fields_view};
use crate::value::{FieldValue, row_view};
use crate::table::Table;
use crate::table::rows::{twos, zeros, row_blob, encode_row, append_bytes, append_zeros};
use crate::table::schema::{field_def_bytes, write_field_def, lemma_le_bytes_zero};
use crate::error::GdbError;

verus! {

// ---------------------------------------------------------------------------
// Model of the written files
// ---------------------------------------------------------------------------

/// The layer flags of a schema: the geometry type in the low byte, bit 8 for UTF-8 text,
/// bit 30 for M and bit 31 for Z.
pub open spec fn layer_flags_of(s: TableSchema) -> nat {
    twos(geometry_type_code(s.geometry_type) as int, 0x1_0000_0000) % 256
        + (if s.has_z { 0x8000_0000nat } else { 0nat })
        + (if s.has_m { 0x4000_0000nat } else { 0nat })
        + (if s.string_utf8 { 0x100nat } else { 0nat })
}

/// The descriptions of the fields, in order.
pub open spec fn field_defs_bytes(fields: Seq<FieldDef>, has_z: bool, has_m: bool) -> Seq<u8>
    decreases fields.len(),
{
    if fields.len() == 0 {
        Seq::empty()
    } else {
        field_defs_bytes(fields.drop_last(), has_z, has_m) + field_def_bytes(fields.last(), has_z, has_m)
    }
}

/// The field description section: its length, the description version (6 for format 4,
/// else 4), the layer flags, the field count and the field descriptions.
pub open spec fn desc_section(schema: TableSchema, version: u32) -> Seq<u8> {
    let body = le_bytes(if version == 4 { 6nat } else { 4nat }, 4) + le_bytes(layer_flags_of(schema), 4)
        + le_bytes(schema.fields@.len(), 2) + field_defs_bytes(schema.fields@, schema.has_z, schema.has_m);
    le_bytes(body.len(), 4) + body
}

/// The stored rows.
pub open spec fn row_blobs(schema: TableSchema, rows: Seq<Vec<FieldValue>>) -> Seq<Seq<u8>> {
    Seq::new(rows.len(), |i: int| row_blob(fields_view(schema.fields@), row_view(rows[i]@), schema.string_utf8))
}

/// Byte sequences one after the other.
pub open spec fn concat(bs: Seq<Seq<u8>>) -> Seq<u8>
    decreases bs.len(),
{
    if bs.len() == 0 { Seq::empty() } else { concat(bs.drop_last()) + bs.last() }
}

/// The length of the longest byte sequence (0 when there is none).
pub open spec fn longest(bs: Seq<Seq<u8>>) -> nat
    decreases bs.len(),
{
    if bs.len() == 0 {
        0
    } else {
        let m = longest(bs.drop_last());
        if m >= bs.last().len() { m } else { bs.last().len() }
    }
}

/// The 40-byte header: version, row count (bytes 4 to 8 in format 3, 16 to 24 otherwise),
/// the longest row, the constant 5, the file size and the offset (40) of the field
/// description section.
pub open spec fn table_header(version: u32, nrows: nat, largest: nat, size: nat) -> Seq<u8> {
    le_bytes(version as nat, 4) + (if version == 3 { le_bytes(nrows, 4) } else { zeros(4) }) + le_bytes(largest, 4)
        + le_bytes(5, 4) + (if version == 3 { zeros(8) } else { le_bytes(nrows, 8) }) + le_bytes(size, 8) + le_bytes(40, 8)
}

/// The bytes of the `.gdbtable` file of a table.
pub open spec fn table_file(t: Table) -> Seq<u8> {
    let desc = desc_section(t.schema, t.version);
    let bs = row_blobs(t.schema, t.rows@);
    let body = concat(bs);
    table_header(t.version, t.rows@.len(), longest(bs), 40 + desc.len() + body.len()) + desc + body
}

/// The offset of each row in the `.gdbtable` file.
pub open spec fn row_offsets(t: Table) -> Seq<u64> {
    let bs = row_blobs(t.schema, t.rows@);
    let base = 40 + desc_section(t.schema, t.version).len();
    Seq::new(t.rows@.len(), |k: int| (base + concat(bs.take(k)).len()) as u64)
}

/// The slot of each row: its own when every row has one, else the rows in order.
pub open spec fn slots_of(t: Table) -> Seq<u64> {
    if t.row_slots@.len() == t.rows@.len() && t.rows@.len() > 0 {
        t.row_slots@
    } else {
        Seq::new(t.rows@.len(), |i: int| i as u64)
    }
}

/// One past the highest slot (0 when there is none).
pub open spec fn slot_end(slots: Seq<u64>) -> nat
    decreases slots.len(),
{
    if slots.len() == 0 {
        0
    } else {
        let m = slot_end(slots.drop_last());
        if m >= slots.last() + 1 { m } else { (slots.last() + 1) as nat }
    }
}

/// The number of slots written: past the highest slot, and at least one per row.
pub open spec fn slot_total(t: Table) -> nat {
    let m = slot_end(slots_of(t));
    if m >= t.rows@.len() { m } else { t.rows@.len() }
}

/// The offset in each of `n` slots after placing the first `k` rows (a later row in the
/// same slot wins; empty slots hold 0).
pub open spec fn placed(slots: Seq<u64>, offs: Seq<u64>, n: nat, k: nat) -> Seq<u64>
    decreases k,
{
    if k == 0 {
        Seq::new(n, |i: int| 0u64)
    } else {
        placed(slots, offs, n, (k - 1) as nat).update(slots[k - 1] as int, offs[k - 1])
    }
}

/// The largest offset (0 when there is none).
pub open spec fn max_offset(offs: Seq<u64>) -> nat
    decreases offs.len(),
{
    if offs.len() == 0 {
        0
    } else {
        let m = max_offset(offs.drop_last());
        if m >= offs.last() { m } else { offs.last() as nat }
    }
}

/// The narrowest offset width (4, 5 or 6 bytes) that holds the largest offset.
pub open spec fn offset_width(m: nat) -> nat {
    if m <= 0xFFFF_FFFF { 4 } else if m <= 0xFF_FFFF_FFFF { 5 } else { 6 }
}

/// The offsets, `w` little-endian bytes each.
pub open spec fn offsets_bytes(offs: Seq<u64>, w: nat) -> Seq<u8>
    decreases offs.len(),
{
    if offs.len() == 0 { Seq::empty() } else { offsets_bytes(offs.drop_last(), w) + le_bytes(offs.last() as nat, w) }
}

/// The slot offsets written to the `.gdbtablx` file.
pub open spec fn slot_offsets(t: Table) -> Seq<u64> {
    placed(slots_of(t), row_offsets(t), slot_total(t), t.rows@.len())
}

/// The bytes of the `.gdbtablx` file of a table.
pub open spec fn tablx_file(t: Table) -> Seq<u8> {
    let n = slot_total(t);
    let offs = slot_offsets(t);
    let w = offset_width(max_offset(offs));
    le_bytes(3, 4) + le_bytes(n / 1024 + (if n % 1024 != 0 { 1nat } else { 0nat }), 4) + le_bytes(n, 4) + le_bytes(w, 4)
        + offsets_bytes(offs, w)
}

// ---------------------------------------------------------------------------
// Writer
// ---------------------------------------------------------------------------

/// The narrowest offset width that holds the largest of the offsets.
pub fn offset_byte_width_for(offsets: &[u64]) -> (w: usize)
    ensures
        w == offset_width(max_offset(offsets@)),
{
    let mut max: u64 = 0;
    let mut i: usize = 0;
    while i < offsets.len()
        invariant
            i <= offsets@.len(),
            max == max_offset(offsets@.take(i as int)),
        decreases offsets@.len() - i,
    {
        proof {
            assert(offsets@.take(i + 1).drop_last() =~= offsets@.take(i as int));
        }
        if offsets[i] > max {
            max = offsets[i];
        }
        i = i + 1;
    }
    assert(offsets@.take(i as int) =~= offsets@);
    if max <= 0xFFFF_FFFF {
        4
    } else if max <= 0xFF_FFFF_FFFF {
        5
    } else {
        6
    }
}

/// The field description section of a schema.
fn write_desc_section(schema: &TableSchema, version: u32) -> (out: Vec<u8>)
    ensures
        out@ == desc_section(*schema, version),
{
    let mut body: Vec<u8> = Vec::new();
    write_le(&mut body, if version == 4 { 6 } else { 4 }, 4);
    let code = schema.geometry_type.code();
    let low: u64 = if code >= 0 { (code as u64) % 256 } else { ((code as i64 + 0x1_0000_0000) as u64) % 256 };
    let mut flags: u64 = low;
    if schema.has_z {
        flags = flags + 0x8000_0000;
    }
    if schema.has_m {
        flags = flags + 0x4000_0000;
    }
    if schema.string_utf8 {
        flags = flags + 0x100;
    }
    write_le(&mut body, flags, 4);
    write_le(&mut body, schema.fields.len() as u64, 2);
    let ghost head = body@;
    let mut i: usize = 0;
    while i < schema.fields.len()
        invariant
            i <= schema.fields@.len(),
            body@ == head + field_defs_bytes(schema.fields@.take(i as int), schema.has_z, schema.has_m),
        decreases schema.fields@.len() - i,
    {
        write_field_def(&mut body, &schema.fields[i], schema);
        proof {
            assert(schema.fields@.take(i + 1).drop_last() =~= schema.fields@.take(i as int));
        }
        i = i + 1;
    }
    assert(schema.fields@.take(i as int) =~= schema.fields@);
    let mut out: Vec<u8> = Vec::new();
    write_le(&mut out, body.len() as u64, 4);
    append_bytes(&mut out, body.as_slice());
    assert(out@ =~= desc_section(*schema, version));
    out
}

/// The stored bytes before a row are no more than all of them.
pub proof fn lemma_concat_take(bs: Seq<Seq<u8>>, k: nat)
    requires
        k <= bs.len(),
    ensures
        concat(bs.take(k as int)).len() <= concat(bs).len(),
    decreases bs.len() - k,
{
    if k == bs.len() {
        assert(bs.take(k as int) =~= bs);
    } else {
        lemma_concat_take(bs, k + 1);
        assert(bs.take((k + 1) as int).drop_last() =~= bs.take(k as int));
    }
}

/// Every slot is below the slot end.
pub proof fn lemma_slot_end(slots: Seq<u64>, k: int)
    requires
        0 <= k < slots.len(),
    ensures
        slots[k] < slot_end(slots),
    decreases slots.len(),
{
    if k < slots.len() - 1 {
        lemma_slot_end(slots.drop_last(), k);
    }
}

/// The header has 40 bytes.
pub proof fn lemma_table_header_len(version: u32, nrows: nat, largest: nat, size: nat)
    ensures
        table_header(version, nrows, largest, size).len() == 40,
{
    lemma_le_bytes_value(version as nat, 4);
    lemma_le_bytes_value(nrows, 4);
    lemma_le_bytes_value(nrows, 8);
    lemma_le_bytes_value(largest, 4);
    lemma_le_bytes_value(5, 4);
    lemma_le_bytes_value(size, 8);
    lemma_le_bytes_value(40, 8);
}

/// The `.gdbtable` bytes of a table, and the offset of each row.
fn write_table_file(t: &Table) -> (r: (Vec<u8>, Vec<u64>))
    requires
        forall|i: int| 0 <= i < t.rows@.len() ==> t.rows@[i]@.len() >= t.schema.fields@.len(),
        table_file(*t).len() <= usize::MAX,
    ensures
        r.0@ == table_file(*t),
        r.1@ == row_offsets(*t),
{
    let fdesc = write_desc_section(&t.schema, t.version);
    let ghost bs = row_blobs(t.schema, t.rows@);
    let mut rest: Vec<u8> = Vec::new();
    append_bytes(&mut rest, fdesc.as_slice());
    let mut offsets: Vec<u64> = Vec::new();
    let mut largest: usize = 0;
    let mut k: usize = 0;
    proof {
        lemma_concat_take(bs, 0);
        assert(bs.take(0) =~= Seq::<Seq<u8>>::empty());
        lemma_table_header_len(t.version, t.rows@.len(), longest(bs), 40 + fdesc@.len() + concat(bs).len());
    }
    while k < t.rows.len()
        invariant
            table_file(*t).len() == 40 + fdesc@.len() + concat(bs).len(),
            bs == row_blobs(t.schema, t.rows@),
            forall|i: int| 0 <= i < t.rows@.len() ==> t.rows@[i]@.len() >= t.schema.fields@.len(),
            table_file(*t).len() <= usize::MAX,
            k <= t.rows@.len(),
            rest@ == fdesc@ + concat(bs.take(k as int)),
            fdesc@ == desc_section(t.schema, t.version),
            offsets@ == row_offsets(*t).take(k as int),
            largest == longest(bs.take(k as int)),
        decreases t.rows@.len() - k,
    {
        proof {
            lemma_concat_take(bs, k as nat);
            assert(bs.len() == t.rows@.len());
        }
        offsets.push((40 + rest.len()) as u64);
        let blob = encode_row(t.rows[k].as_slice(), &t.schema);
        assert(blob@ == bs[k as int]);
        if blob.len() > largest {
            largest = blob.len();
        }
        append_bytes(&mut rest, blob.as_slice());
        proof {
            assert(bs.take(k + 1).drop_last() =~= bs.take(k as int));
            assert(offsets@ =~= row_offsets(*t).take(k + 1));
        }
        k = k + 1;
    }
    assert(bs.take(k as int) =~= bs);
    let nrows = t.rows.len() as u64;
    let mut out: Vec<u8> = Vec::new();
    write_le(&mut out, t.version as u64, 4);
    proof {
        lemma_le_bytes_zero(4);
        lemma_le_bytes_zero(8);
    }
    if t.version == 3 {
        write_le(&mut out, nrows, 4);
    } else {
        write_le(&mut out, 0, 4);
    }
    write_le(&mut out, largest as u64, 4);
    write_le(&mut out, 5, 4);
    if t.version == 3 {
        write_le(&mut out, 0, 8);
    } else {
        write_le(&mut out, nrows, 8);
    }
    write_le(&mut out, (40 + rest.len()) as u64, 8);
    write_le(&mut out, 40, 8);
    append_bytes(&mut out, rest.as_slice());
    assert(out@ =~= table_file(*t));
    (out, offsets)
}

/// The `.gdbtablx` bytes of a table whose rows sit at the given offsets.
fn write_tablx_file(t: &Table, offsets: &Vec<u64>) -> (out: Vec<u8>)
    requires
        offsets@ == row_offsets(*t),
        forall|i: int| 0 <= i < slots_of(*t).len() ==> slots_of(*t)[i] < u64::MAX,
        slot_total(*t) <= usize::MAX,
    ensures
        out@ == tablx_file(*t),
{
    let n = t.rows.len();
    let mut slots: Vec<u64> = Vec::new();
    let own = t.row_slots.len() == n && n > 0;
    let mut i: usize = 0;
    while i < n
        invariant
            n == t.rows@.len(),
            own == (t.row_slots@.len() == t.rows@.len() && t.rows@.len() > 0),
            i <= n,
            slots@ == slots_of(*t).take(i as int),
        decreases n - i,
    {
        if own {
            slots.push(t.row_slots[i]);
        } else {
            slots.push(i as u64);
        }
        assert(slots@ =~= slots_of(*t).take(i + 1));
        i = i + 1;
    }
    assert(slots@ =~= slots_of(*t));
    let mut end: u64 = 0;
    let mut j: usize = 0;
    while j < n
        invariant
            slots@ == slots_of(*t),
            slots@.len() == n,
            forall|i: int| 0 <= i < slots@.len() ==> slots@[i] < u64::MAX,
            j <= n,
            end == slot_end(slots@.take(j as int)),
        decreases n - j,
    {
        proof {
            assert(slots@.take(j + 1).drop_last() =~= slots@.take(j as int));
        }
        if slots[j] + 1 > end {
            end = slots[j] + 1;
        }
        j = j + 1;
    }
    assert(slots@.take(j as int) =~= slots@);
    let mut total: u64 = end;
    if (n as u64) > total {
        total = n as u64;
    }
    assert(total <= usize::MAX);
    let mut offs: Vec<u64> = Vec::new();
    let mut z: usize = 0;
    while z < total as usize
        invariant
            total as nat == slot_total(*t),
            z <= total,
            offs@ == Seq::new(z as nat, |i: int| 0u64),
        decreases total - z,
    {
        offs.push(0);
        z = z + 1;
        assert(offs@ =~= Seq::new(z as nat, |i: int| 0u64));
    }
    let mut k: usize = 0;
    while k < n
        invariant
            slots@ == slots_of(*t),
            slots@.len() == n,
            offsets@ == row_offsets(*t),
            offsets@.len() == n,
            total as nat == slot_total(*t),
            end == slot_end(slots@),
            end <= total,
            k <= n,
            offs@ == placed(slots@, offsets@, total as nat, k as nat),
            offs@.len() == total,
            total <= usize::MAX,
        decreases n - k,
    {
        proof {
            lemma_slot_end(slots@, k as int);
        }
        let at = slots[k] as usize;
        assert(at as int == slots@[k as int] as int);
        offs.set(at, offsets[k]);
        proof {
            assert(placed(slots@, offsets@, total as nat, (k + 1) as nat) == placed(slots@, offsets@, total as nat, k as nat).update(slots@[k as int] as int, offsets@[k as int]));
        }
        k = k + 1;
    }
    let width = offset_byte_width_for(offs.as_slice());
    let mut out: Vec<u8> = Vec::new();
    write_le(&mut out, 3, 4);
    write_le(&mut out, total / 1024 + if total % 1024 != 0 { 1 } else { 0 }, 4);
    write_le(&mut out, total, 4);
    write_le(&mut out, width as u64, 4);
    let ghost head = out@;
    let mut m: usize = 0;
    while m < offs.len()
        invariant
            m <= offs@.len(),
            width <= 6,
            out@ == head + offsets_bytes(offs@.take(m as int), width as nat),
        decreases offs@.len() - m,
    {
        write_le(&mut out, offs[m], width);
        proof {
            assert(offs@.take(m + 1).drop_last() =~= offs@.take(m as int));
        }
        m = m + 1;
    }
    assert(offs@.take(m as int) =~= offs@);
    assert(out@ =~= tablx_file(*t));
    out
}

impl Table {
    /// The bytes of the `.gdbtable` file and of the `.gdbtablx` index (nothing is written
    /// to disk). Each row goes back to its slot.
    pub fn serialize(&self) -> (res: Result<(Vec<u8>, Vec<u8>), GdbError>)
        requires
            forall|i: int| 0 <= i < self.rows@.len() ==> self.rows@[i]@.len() >= self.schema.fields@.len(),
            forall|i: int| 0 <= i < slots_of(*self).len() ==> slots_of(*self)[i] < u64::MAX,
            table_file(*self).len() <= usize::MAX,
            slot_total(*self) <= usize::MAX,
        ensures
            res matches Ok((a, b)) && a@ == table_file(*self) && b@ == tablx_file(*self),
    {
        let (a, offsets) = write_table_file(self);
        let b = write_tablx_file(self, &offsets);
        Ok((a, b))
    }
}

} // verus!
