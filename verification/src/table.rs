//! Tables: the `.gdbtable` / `.gdbtablx` layouts, the in-memory model and writing back.
use vstd::prelude::*;
use std::path::{Path, PathBuf};
use crate::error::{GdbError, ErrorKind, format_error, error_text};
use crate::field::{FieldDef, FieldType, GeometryType, TableSchema, SchemaView, FieldDefView, new_field_view, first_of_type, opt_index};
use crate::io::{le_value, to_signed, Reader, lemma_pow_values, lemma_le_value_bound, read_uint_le};
use crate::value::{FieldValue, ValueView, row_view, decimal, signed_decimal, push_decimal, push_signed};
use crate::text::to_string;
use crate::table::rows::{decode_row, decode_row_spec, lemma_decode_row_len};
use crate::table::schema::{parse_schema, schema_at, desc_offset};

pub mod rows;
pub mod row_roundtrip;
pub mod schema;
pub mod write;
pub mod access;
pub mod desc_roundtrip;
pub mod file_roundtrip;
pub mod uuid_text;

verus! {

/// A directory path; Verus sees nothing inside it.
#[verifier::external_type_specification]
#[verifier::external_body]
pub struct ExPathBuf(PathBuf);

/// A borrowed directory path; Verus sees nothing inside it.
#[verifier::external_type_specification]
#[verifier::external_body]
pub struct ExPath(Path);

/// What a borrowed path holds: the bytes of its OS string (`Path::as_os_str`, then
/// `OsStr::as_encoded_bytes`).
pub uninterp spec fn path_contents(p: &Path) -> Seq<u8>;

/// What an owned path holds: the bytes of its OS string, as for [`path_contents`].
pub uninterp spec fn path_buf_contents(p: PathBuf) -> Seq<u8>;

/// Calls `Path::to_path_buf`, which copies the path into an owned buffer: the owned path
/// holds what the borrowed one held. Nothing else is claimed.
#[verifier::external_body]
pub(crate) fn path_to_buf(p: &Path) -> (b: PathBuf)
    ensures
        path_buf_contents(b) == path_contents(p),
{
    p.to_path_buf()
}

/// The full in-memory form of a table (one `.gdbtable` file and its `.gdbtablx` index).
#[derive(Debug)]
pub struct Table {
    /// The geodatabase directory.
    pub directory: PathBuf,
    /// The file number (`aNNNNNNNN` in the file names).
    pub file_id: u32,
    /// The format version (3 or 4).
    pub version: u32,
    /// The schema.
    pub schema: TableSchema,
    /// The values of every row, in field order.
    pub rows: Vec<Vec<FieldValue>>,
    /// The `.gdbtablx` slot of each row (object ID = slot + 1).
    pub row_slots: Vec<u64>,
    /// The number of slots, empty ones included.
    pub slot_count: u64,
}

/// The views of rows.
pub open spec fn rows_view(rows: Seq<Vec<FieldValue>>) -> Seq<Seq<ValueView>> {
    rows.map_values(|r: Vec<FieldValue>| row_view(r@))
}

/// Every row holds one value per field of the schema.
pub open spec fn rows_fit(t: Table) -> bool {
    forall|r: int| 0 <= r < t.rows@.len() ==> #[trigger] t.rows@[r]@.len() == t.schema.fields@.len()
}

/// The schema of a table that only has the object ID field.
pub open spec fn empty_schema_view() -> SchemaView {
    SchemaView {
        geometry_type: GeometryType::NoGeometry,
        has_z: false,
        has_m: false,
        string_utf8: true,
        fields: seq![FieldDefView { nullable: false, required: true, editable: false, ..new_field_view("OBJECTID"@, FieldType::ObjectId) }],
    }
}

/// The index of the first row whose value in field `oi` is the object ID `oid`.
pub open spec fn first_row_with_oid(rows: Seq<Seq<ValueView>>, oi: nat, oid: u64) -> Option<nat> {
    if exists|i: int| 0 <= i < rows.len() && rows[i][oi as int] == ValueView::ObjectId(oid) {
        Some(choose|i: nat| i < rows.len() && rows[i as int][oi as int] == ValueView::ObjectId(oid)
            && forall|j: int| 0 <= j < i ==> rows[j][oi as int] != ValueView::ObjectId(oid))
    } else {
        None
    }
}

/// The format version of a `.gdbtable` file (the first 4 bytes; 3 or 4).
pub open spec fn version_of(data: Seq<u8>) -> Option<u32> {
    if data.len() < 4 {
        None
    } else {
        let v = to_signed(le_value(data.subrange(0, 4)), 32);
        if v == 3 || v == 4 { Some(v as u32) } else { None }
    }
}

/// The slots of a `.gdbtablx` index: `(slot, row offset)` for each slot that the file
/// holds (an offset of 0 marks an empty slot).
pub open spec fn row_slots_of(idx: Seq<u8>) -> Option<Seq<(u64, u64)>> {
    if idx.len() < 16 {
        None
    } else {
        let nrows = to_signed(le_value(idx.subrange(8, 12)), 32);
        let w = to_signed(le_value(idx.subrange(12, 16)), 32);
        if nrows < 0 || w <= 0 || w > 8 {
            None
        } else {
            let avail = (idx.len() - 16) / w;
            let n = if nrows <= avail { nrows } else { avail };
            Some(Seq::new(n as nat, |i: int| (i as u64, le_value(idx.subrange(16 + i * w, 16 + i * w + w)) as u64)))
        }
    }
}

/// The rows held by the first `k` slots: their values, their slots and the slot count.
pub open spec fn decode_rows(data: Seq<u8>, slots: Seq<(u64, u64)>, schema: SchemaView, k: nat)
    -> Result<(Seq<Seq<ValueView>>, Seq<u64>, nat), ErrorKind>
    decreases k,
{
    if k == 0 {
        Ok((Seq::empty(), Seq::empty(), 0))
    } else {
        match decode_rows(data, slots, schema, (k - 1) as nat) {
            Err(e) => Err(e),
            Ok((rows, rs, sc)) => {
                let (slot, off) = slots[k - 1];
                let sc2: nat = if sc >= slot + 1 { sc } else { (slot + 1) as nat };
                if off == 0 {
                    Ok((rows, rs, sc2))
                } else {
                    match decode_row_spec(data, off as nat, slot, schema.fields, schema.string_utf8) {
                        Ok(vals) => Ok((rows.push(vals), rs.push(slot), sc2)),
                        Err(e) => Err(e),
                    }
                }
            },
        }
    }
}

impl Table {
    /// The schema with only the object ID field (a base for new tables).
    pub fn empty_schema() -> (s: TableSchema)
        ensures
            s@ == empty_schema_view(),
    {
        let mut fields: Vec<FieldDef> = Vec::new();
        let mut oid = FieldDef::new("OBJECTID", FieldType::ObjectId);
        oid.nullable = false;
        oid.required = true;
        oid.editable = false;
        fields.push(oid);
        let s = TableSchema {
            geometry_type: GeometryType::NoGeometry,
            has_z: false,
            has_m: false,
            string_utf8: true,
            fields,
        };
        assert(s@.fields =~= empty_schema_view().fields);
        s
    }

    /// An empty table (for creating and writing).
    pub fn new(directory: &Path, file_id: u32, version: u32, schema: TableSchema) -> (t: Table)
        ensures
            t.file_id == file_id,
            t.version == version,
            t.schema == schema,
            t.rows@.len() == 0,
            t.row_slots@.len() == 0,
            t.slot_count == 0,
            rows_fit(t),
    {
        Table {
            directory: path_to_buf(directory),
            file_id,
            version,
            schema,
            rows: Vec::new(),
            row_slots: Vec::new(),
            slot_count: 0,
        }
    }

    /// Appends a row (one value per field) in the next free slot.
    pub fn add_row(&mut self, values: Vec<FieldValue>) -> (res: Result<(), GdbError>)
        requires
            old(self).slot_count < u64::MAX,
        ensures
            final(self).directory == old(self).directory,
            final(self).file_id == old(self).file_id,
            final(self).version == old(self).version,
            final(self).schema == old(self).schema,
            values@.len() != old(self).schema.fields@.len() ==> {
                &&& res matches Err(e) && e is Format
                &&& error_text(res->Err_0) == "行字段数 "@ + decimal(values@.len()) + " 与 schema "@
                    + decimal(old(self).schema.fields@.len()) + " 不一致"@
                &&& final(self).rows@ == old(self).rows@
                &&& final(self).row_slots@ == old(self).row_slots@
                &&& final(self).slot_count == old(self).slot_count
            },
            values@.len() == old(self).schema.fields@.len() ==> {
                &&& res is Ok
                &&& final(self).rows@ == old(self).rows@.push(values)
                &&& final(self).row_slots@ == old(self).row_slots@.push(old(self).slot_count)
                &&& final(self).slot_count == old(self).slot_count + 1
            },
            rows_fit(*old(self)) ==> rows_fit(*final(self)),
    {
        if values.len() != self.schema.fields.len() {
            proof { reveal_strlit("行字段数 "); reveal_strlit(" 与 schema "); reveal_strlit(" 不一致"); }
            let mut msg = to_string("行字段数 ");
            push_decimal(&mut msg, values.len() as u64);
            msg.append(" 与 schema ");
            push_decimal(&mut msg, self.schema.fields.len() as u64);
            msg.append(" 不一致");
            return Err(GdbError::Format(msg));
        }
        self.row_slots.push(self.slot_count);
        self.slot_count = self.slot_count + 1;
        self.rows.push(values);
        Ok(())
    }

    /// The index of the row with this object ID.
    pub fn row_index_by_oid(&self, oid: u64) -> (r: Option<usize>)
        requires
            first_of_type(self.schema.fields@, FieldType::ObjectId) matches Some(oi)
                ==> forall|i: int| 0 <= i < self.rows@.len() ==> oi < #[trigger] self.rows@[i]@.len(),
        ensures
            r == match first_of_type(self.schema.fields@, FieldType::ObjectId) {
                Some(oi) => opt_index(first_row_with_oid(rows_view(self.rows@), oi, oid)),
                None => None::<usize>,
            },
    {
        let oi = match self.schema.objectid_index() {
            Some(i) => i,
            None => return None,
        };
        let mut i: usize = 0;
        while i < self.rows.len()
            invariant
                first_of_type(self.schema.fields@, FieldType::ObjectId) == Some(oi as nat),
                forall|k: int| 0 <= k < self.rows@.len() ==> oi < #[trigger] self.rows@[k]@.len(),
                i <= self.rows@.len(),
                forall|j: int| 0 <= j < i ==> #[trigger] self.rows@[j]@[oi as int]@ != ValueView::ObjectId(oid),
            decreases self.rows@.len() - i,
        {
            let row = &self.rows[i];
            assert(oi < self.rows@[i as int]@.len());
            let hit = match &row[oi] {
                FieldValue::ObjectId(v) => *v == oid,
                _ => false,
            };
            if hit {
                proof {
                    let rv = rows_view(self.rows@);
                    assert(forall|j: int| 0 <= j < rv.len() ==> #[trigger] rv[j] == row_view(self.rows@[j]@));
                    assert(forall|j: int| 0 <= j <= i ==> #[trigger] rv[j][oi as int] == self.rows@[j]@[oi as int]@);
                    let w = choose|k: nat| k < rv.len() && rv[k as int][oi as int] == ValueView::ObjectId(oid)
                        && forall|j: int| 0 <= j < k ==> rv[j][oi as int] != ValueView::ObjectId(oid);
                    assert((i as nat) < rv.len() && rv[i as int][oi as int] == ValueView::ObjectId(oid)
                        && forall|j: int| 0 <= j < i ==> rv[j][oi as int] != ValueView::ObjectId(oid));
                    if w > i {
                        assert(rv[i as int][oi as int] != ValueView::ObjectId(oid));
                    }
                }
                return Some(i);
            }
            i = i + 1;
        }
        proof {
            let rv = rows_view(self.rows@);
            assert forall|j: int| 0 <= j < rv.len() implies rv[j][oi as int] != ValueView::ObjectId(oid) by {
                assert(rv[j] == row_view(self.rows@[j]@));
                assert(rv[j][oi as int] == self.rows@[j]@[oi as int]@);
            }
        }
        None
    }
}

/// Why a `.gdbtable` file has no version: it is too short, or the version it holds.
pub open spec fn version_error_text(data: Seq<u8>) -> Seq<char> {
    if data.len() < 4 {
        "文件过短，无法读取版本"@
    } else {
        "不支持的 .gdbtable 版本 "@ + signed_decimal(to_signed(le_value(data.subrange(0, 4)), 32))
    }
}

/// The format version of a `.gdbtable` file.
pub fn schema_version(data: &[u8]) -> (res: Result<u32, GdbError>)
    ensures
        match version_of(data@) {
            Some(v) => res == Ok::<u32, GdbError>(v),
            None => res matches Err(e) && e is Format && error_text(e) == version_error_text(data@),
        },
{
    if data.len() < 4 {
        return Err(format_error("文件过短，无法读取版本"));
    }
    let mut r = Reader::new(data);
    assert(r.rest() =~= data@) by {
        assert(data@.subrange(0, data@.len() as int) =~= data@);
    }
    let v = match r.i32() {
        Ok(v) => v,
        Err(e) => return Err(e),
    };
    proof {
        lemma_pow_values();
        lemma_le_value_bound(data@.subrange(0, 4));
    }
    if v != 3 && v != 4 {
        proof { reveal_strlit("不支持的 .gdbtable 版本 "); }
        let mut msg = to_string("不支持的 .gdbtable 版本 ");
        push_signed(&mut msg, v as i64);
        return Err(GdbError::Format(msg));
    }
    Ok(v as u32)
}

/// Reads a little-endian `i32` at byte `at` of a slice.
fn i32_at(data: &[u8], at: usize) -> (v: i32)
    requires
        at + 4 <= data@.len(),
    ensures
        v as int == to_signed(le_value(data@.subrange(at as int, at + 4)), 32),
{
    proof {
        lemma_pow_values();
        lemma_le_value_bound(data@.subrange(at as int, at + 4));
    }
    let mut r = Reader { buf: data, pos: at };
    assert(r.rest().subrange(0, 4) =~= data@.subrange(at as int, at + 4));
    match r.i32() {
        Ok(v) => v,
        Err(_) => 0,
    }
}

/// Why a `.gdbtablx` index holds no slots: it is too short, or its header's row count and
/// offset width.
pub open spec fn index_error_text(idx: Seq<u8>) -> Seq<char> {
    if idx.len() < 16 {
        ".gdbtablx 过短"@
    } else {
        ".gdbtablx 头部非法: nrows="@ + signed_decimal(to_signed(le_value(idx.subrange(8, 12)), 32))
            + " offset_size="@ + signed_decimal(to_signed(le_value(idx.subrange(12, 16)), 32))
    }
}

/// Parses a `.gdbtablx` index: `(slot, row offset)` for each slot it holds (a file cut
/// short keeps the slots that fit).
pub fn parse_row_slots(idx: &[u8]) -> (res: Result<Vec<(u64, u64)>, GdbError>)
    ensures
        match row_slots_of(idx@) {
            Some(v) => res matches Ok(x) && x@ == v,
            None => res matches Err(e) && e is Format && error_text(e) == index_error_text(idx@),
        },
{
    if idx.len() < 16 {
        return Err(format_error(".gdbtablx 过短"));
    }
    let nrows = i32_at(idx, 8);
    let offset_size = i32_at(idx, 12);
    if nrows < 0 || offset_size <= 0 || offset_size > 8 {
        proof { reveal_strlit(".gdbtablx 头部非法: nrows="); reveal_strlit(" offset_size="); }
        let mut msg = to_string(".gdbtablx 头部非法: nrows=");
        push_signed(&mut msg, nrows as i64);
        msg.append(" offset_size=");
        push_signed(&mut msg, offset_size as i64);
        return Err(GdbError::Format(msg));
    }
    let width = offset_size as usize;
    let ghost n: int = if nrows <= (idx@.len() - 16) / (width as int) { nrows as int } else { (idx@.len() - 16) / (width as int) };
    let mut slots: Vec<(u64, u64)> = Vec::new();
    let mut pos: usize = 16;
    let mut slot: u64 = 0;
    while slot < nrows as u64 && width <= idx.len() - pos
        invariant
            1 <= width <= 8,
            idx@.len() >= 16,
            0 <= nrows,
            slot <= nrows,
            pos == 16 + slot * width,
            pos <= idx@.len(),
            slot <= n,
            n == (if nrows <= (idx@.len() - 16) / (width as int) { nrows as int } else { (idx@.len() - 16) / (width as int) }),
            slots@.len() == slot,
            forall|i: int| 0 <= i < slot ==> #[trigger] slots@[i] == (i as u64, le_value(idx@.subrange(16 + i * width, 16 + i * width + width)) as u64),
        decreases nrows - slot,
    {
        let v = read_uint_le(vstd::slice::slice_subrange(idx, pos, pos + width), width);
        assert(idx@.subrange(pos as int, pos + width).subrange(0, width as int) =~= idx@.subrange(16 + slot * width, 16 + slot * width + width));
        slots.push((slot, v));
        proof {
            assert(slot + 1 <= n) by (nonlinear_arith)
                requires
                    pos == 16 + slot * width,
                    pos + width <= idx@.len(),
                    slot < nrows,
                    n == (if nrows <= (idx@.len() - 16) / (width as int) { nrows as int } else { (idx@.len() - 16) / (width as int) }),
                    width >= 1;
            assert(16 + (slot + 1) * width == pos + width) by (nonlinear_arith)
                requires
                    pos == 16 + slot * width;
        }
        pos = pos + width;
        slot = slot + 1;
    }
    proof {
        if slot < nrows {
            assert((idx@.len() - 16) / (width as int) == slot) by (nonlinear_arith)
                requires
                    pos == 16 + slot * width,
                    pos + width > idx@.len(),
                    pos <= idx@.len(),
                    width >= 1;
        }
    }
    assert(slots@ =~= row_slots_of(idx@).unwrap());
    Ok(slots)
}

/// The table held by the bytes of a `.gdbtable` file and of its `.gdbtablx` index: its
/// schema, version, rows, row slots and slot count.
pub open spec fn table_at(data: Seq<u8>, idx: Seq<u8>) -> Result<(SchemaView, u32, Seq<Seq<ValueView>>, Seq<u64>, nat), ErrorKind> {
    match schema_at(data) {
        None => Err(ErrorKind::Format),
        Some(sv) => match version_of(data) {
            None => Err(ErrorKind::Format),
            Some(v) => match row_slots_of(idx) {
                None => Err(ErrorKind::Format),
                Some(slots) => match decode_rows(data, slots, sv, slots.len()) {
                    Ok((rows, rs, sc)) => Ok((sv, v, rows, rs, sc)),
                    Err(e) => Err(e),
                },
            },
        },
    }
}

/// Once a row cannot be read, the table cannot be read.
proof fn lemma_decode_rows_err(data: Seq<u8>, slots: Seq<(u64, u64)>, schema: SchemaView, m: nat, n: nat, e: ErrorKind)
    requires
        m <= n,
        decode_rows(data, slots, schema, m) == Err::<(Seq<Seq<ValueView>>, Seq<u64>, nat), ErrorKind>(e),
    ensures
        decode_rows(data, slots, schema, n) == Err::<(Seq<Seq<ValueView>>, Seq<u64>, nat), ErrorKind>(e),
    decreases n - m,
{
    if m < n {
        lemma_decode_rows_err(data, slots, schema, m, (n - 1) as nat, e);
    }
}

impl Table {
    /// The table held by the bytes of its `.gdbtable` file and of its `.gdbtablx` index
    /// (the reading of `Table::open`).
    pub fn from_bytes(directory: &Path, file_id: u32, data: &[u8], idx: &[u8]) -> (res: Result<Table, GdbError>)
        requires
            data@.len() >= 40,
        ensures
            match table_at(data@, idx@) {
                Ok((sv, v, rows, rs, sc)) => res matches Ok(t) && t.schema@ == sv && t.version == v
                    && t.file_id == file_id && rows_view(t.rows@) == rows && t.row_slots@ == rs && t.slot_count == sc,
                Err(k) => res matches Err(e) && e.kind() == k,
            },
            res matches Ok(t) ==> rows_fit(t),
            desc_offset(data@) + 4 > data@.len() ==> (res matches Err(e) && error_text(e) == "字段描述段偏移越界"@),
            schema_at(data@) is Some && version_of(data@) is None
                ==> (res matches Err(e) && error_text(e) == version_error_text(data@)),
            schema_at(data@) is Some && version_of(data@) is Some && row_slots_of(idx@) is None
                ==> (res matches Err(e) && error_text(e) == index_error_text(idx@)),
    {
        let schema = match parse_schema(data) {
            Ok(s) => s,
            Err(e) => return Err(e),
        };
        let version = match schema_version(data) {
            Ok(v) => v,
            Err(e) => return Err(e),
        };
        let slots = match parse_row_slots(idx) {
            Ok(s) => s,
            Err(e) => return Err(e),
        };
        let ghost sv = schema@;
        proof {
            lemma_pow_values();
            lemma_le_value_bound(idx@.subrange(8, 12));
            let n = slots@.len();
            assert(n < 0x8000_0000);
            assert forall|i: int| 0 <= i < slots@.len() implies (#[trigger] slots@[i]).0 == i && i < 0x8000_0000 by {
                assert(slots@[i] == row_slots_of(idx@).unwrap()[i]);
            }
        }
        let mut rows: Vec<Vec<FieldValue>> = Vec::new();
        let mut row_slots: Vec<u64> = Vec::new();
        let mut slot_count: u64 = 0;
        let mut k: usize = 0;
        assert(rows_view(rows@) =~= Seq::<Seq<ValueView>>::empty());
        while k < slots.len()
            invariant
                sv == schema@,
                desc_offset(data@) + 4 <= data@.len(),
                version_of(data@) is Some,
                table_at(data@, idx@) == match decode_rows(data@, slots@, sv, slots@.len()) {
                    Ok((rows, rs, sc)) => Ok((sv, version, rows, rs, sc)),
                    Err(e) => Err(e),
                },
                row_slots_of(idx@) == Some(slots@),
                forall|i: int| 0 <= i < slots@.len() ==> (#[trigger] slots@[i]).0 == i && i < 0x8000_0000,
                k <= slots@.len(),
                decode_rows(data@, slots@, sv, k as nat) == Ok::<(Seq<Seq<ValueView>>, Seq<u64>, nat), ErrorKind>((rows_view(rows@), row_slots@, slot_count as nat)),
                slot_count <= k,
                forall|r: int| 0 <= r < rows@.len() ==> #[trigger] rows@[r]@.len() == schema.fields@.len(),
            decreases slots@.len() - k,
        {
            let (slot, offset) = slots[k];
            assert(slots@[k as int].0 == k);
            if slot_count < slot + 1 {
                slot_count = slot + 1;
            }
            if offset != 0 {
                let ghost before = rows_view(rows@);
                let row = match decode_row(data, offset, slot, &schema) {
                    Ok(r) => r,
                    Err(e) => {
                        proof {
                            lemma_decode_rows_err(data@, slots@, sv, (k + 1) as nat, slots@.len(), e.kind());
                        }
                        return Err(e);
                    },
                };
                proof {
                    lemma_decode_row_len(data@, offset as nat, slot, crate::field::fields_view(schema.fields@), schema.string_utf8);
                    assert(row@.len() == row_view(row@).len());
                }
                rows.push(row);
                row_slots.push(slot);
                assert(rows_view(rows@) =~= before.push(row_view(row@)));
            }
            k = k + 1;
        }
        Ok(Table {
            directory: path_to_buf(directory),
            file_id,
            version,
            schema,
            rows,
            row_slots,
            slot_count,
        })
    }
}

} // verus!
