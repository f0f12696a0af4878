//! Reading and changing the rows of a table in memory: the work behind rows, features and
//! cursors.
use vstd::prelude::*;
use crate::error::{GdbError, ErrorKind, format_error, geometry_error, error_text};
use crate::catalog::{value_debug, value_debug_text};
use crate::field::{FieldType, first_of_type, first_named, opt_index};
use crate::geometry::{GridGeometry, GeomView};
use crate::table::{Table, rows_view, rows_fit};
use crate::value::{FieldValue, ValueView, row_view};
use crate::text::to_string;

verus! {

/// The object ID held at index `oi` of a row (0 when it holds something else).
pub open spec fn oid_in(row: Seq<ValueView>, oi: nat) -> u64 {
    match row[oi as int] {
        ValueView::ObjectId(v) => v,
        _ => 0,
    }
}

/// The largest object ID held at index `oi` of the rows, if any.
pub open spec fn max_oid(rows: Seq<Seq<ValueView>>, oi: nat) -> Option<u64>
    decreases rows.len(),
{
    if rows.len() == 0 {
        None
    } else {
        let prev = max_oid(rows.drop_last(), oi);
        match rows.last()[oi as int] {
            ValueView::ObjectId(v) => match prev {
                Some(m) => if m >= v { Some(m) } else { Some(v) },
                None => Some(v),
            },
            _ => prev,
        }
    }
}

/// The object ID that a new row receives: one past the largest, or 1.
pub open spec fn next_oid(rows: Seq<Seq<ValueView>>, oi: nat) -> u64 {
    match max_oid(rows, oi) {
        Some(m) => (m + 1) as u64,
        None => 1,
    }
}

/// Every object ID held by the rows is at most the largest.
proof fn lemma_max_oid(rows: Seq<Seq<ValueView>>, oi: nat, k: int)
    requires
        0 <= k < rows.len(),
        rows[k][oi as int] is ObjectId,
    ensures
        max_oid(rows, oi) matches Some(m) && oid_in(rows[k], oi) <= m,
    decreases rows.len(),
{
    if k < rows.len() - 1 {
        lemma_max_oid(rows.drop_last(), oi, k);
        assert(rows.drop_last()[k] == rows[k]);
    }
}

/// The object ID that a new row receives is above every object ID that the rows hold, so
/// no two rows inserted one after the other share one.
pub proof fn law_next_oid_fresh(rows: Seq<Seq<ValueView>>, oi: nat, k: int)
    requires
        0 <= k < rows.len(),
        rows[k][oi as int] is ObjectId,
        max_oid(rows, oi) matches Some(m) ==> m < u64::MAX,
    ensures
        oid_in(rows[k], oi) < next_oid(rows, oi),
{
    lemma_max_oid(rows, oi, k);
}

/// Rows and slots are one-to-one, and with an object ID field each row holds the object ID
/// one above its slot.
pub open spec fn oids_match_slots(t: Table) -> bool {
    &&& t.row_slots@.len() == t.rows@.len()
    &&& first_of_type(t.schema.fields@, FieldType::ObjectId) matches Some(oi) ==>
        forall|k: int| 0 <= k < t.rows@.len() ==>
            oi < t.rows@[k]@.len() && #[trigger] t.rows@[k]@[oi as int]@ == ValueView::ObjectId((t.row_slots@[k] + 1) as u64)
}

/// A copy of a row.
pub fn copy_row(row: &Vec<FieldValue>) -> (out: Vec<FieldValue>)
    ensures
        row_view(out@) == row_view(row@),
{
    let mut out: Vec<FieldValue> = Vec::new();
    let mut i: usize = 0;
    while i < row.len()
        invariant
            i <= row@.len(),
            row_view(out@) == row_view(row@.take(i as int)),
        decreases row@.len() - i,
    {
        let v = row[i].clone();
        let ghost before = row_view(out@);
        out.push(v);
        assert(row_view(out@) =~= before.push(v@));
        assert(row_view(row@.take(i + 1)) =~= row_view(row@.take(i as int)).push(row@[i as int]@));
        i = i + 1;
    }
    assert(row@.take(i as int) =~= row@);
    out
}

impl Table {
    /// The object ID of row `index` (0 without an object ID field, or when the field holds
    /// something else).
    pub fn object_id_at(&self, index: usize) -> (oid: u64)
        requires
            index < self.rows@.len(),
            first_of_type(self.schema.fields@, FieldType::ObjectId) matches Some(oi) ==> oi < self.rows@[index as int]@.len(),
        ensures
            oid == match first_of_type(self.schema.fields@, FieldType::ObjectId) {
                Some(oi) => oid_in(row_view(self.rows@[index as int]@), oi),
                None => 0,
            },
    {
        match self.schema.objectid_index() {
            Some(oi) => match &self.rows[index][oi] {
                FieldValue::ObjectId(v) => *v,
                _ => 0,
            },
            None => 0,
        }
    }

    /// The value of field `i` in row `index`.
    pub fn value_at(&self, index: usize, i: usize) -> (v: FieldValue)
        requires
            index < self.rows@.len(),
            i < self.rows@[index as int]@.len(),
        ensures
            v@ == self.rows@[index as int]@[i as int]@,
    {
        self.rows[index][i].clone()
    }

    /// The value of the field named `name` in row `index`.
    pub fn value_by_name(&self, index: usize, name: &str) -> (res: Result<FieldValue, GdbError>)
        requires
            index < self.rows@.len(),
            first_named(self.schema.fields@, name@) matches Some(i) ==> i < self.rows@[index as int]@.len(),
        ensures
            match first_named(self.schema.fields@, name@) {
                Some(i) => res matches Ok(v) && v@ == self.rows@[index as int]@[i as int]@,
                None => res matches Err(e) && e is InvalidField && error_text(e) == name@,
            },
    {
        match self.schema.field_index(name) {
            Some(i) => Ok(self.rows[index][i].clone()),
            None => Err(GdbError::InvalidField(to_string(name))),
        }
    }

    /// All values of row `index`.
    pub fn row_values(&self, index: usize) -> (r: Vec<FieldValue>)
        requires
            index < self.rows@.len(),
        ensures
            row_view(r@) == row_view(self.rows@[index as int]@),
    {
        copy_row(&self.rows[index])
    }

    /// Sets field `i` of row `index`.
    pub fn set_value(&mut self, index: usize, i: usize, v: FieldValue)
        requires
            index < old(self).rows@.len(),
            i < old(self).rows@[index as int]@.len(),
        ensures
            final(self).schema == old(self).schema,
            final(self).version == old(self).version,
            final(self).file_id == old(self).file_id,
            final(self).row_slots@ == old(self).row_slots@,
            final(self).slot_count == old(self).slot_count,
            final(self).rows@.len() == old(self).rows@.len(),
            row_view(final(self).rows@[index as int]@) == row_view(old(self).rows@[index as int]@).update(i as int, v@),
            forall|k: int| 0 <= k < old(self).rows@.len() && k != index ==> #[trigger] final(self).rows@[k] == old(self).rows@[k],
            rows_fit(*old(self)) ==> rows_fit(*final(self)),
    {
        let mut row = copy_row(&self.rows[index]);
        let ghost before = row_view(row@);
        assert(row@.len() == row_view(row@).len());
        assert(self.rows@[index as int]@.len() == row_view(self.rows@[index as int]@).len());
        row.set(i, v);
        assert(row_view(row@) =~= before.update(i as int, v@));
        self.rows.set(index, row);
        assert(self.rows@[index as int]@.len() == row_view(self.rows@[index as int]@).len());
    }

    /// Sets the field named `name` of row `index`.
    pub fn set_value_by_name(&mut self, index: usize, name: &str, v: FieldValue) -> (res: Result<(), GdbError>)
        requires
            index < old(self).rows@.len(),
            first_named(old(self).schema.fields@, name@) matches Some(i) ==> i < old(self).rows@[index as int]@.len(),
        ensures
            final(self).schema == old(self).schema,
            final(self).row_slots@ == old(self).row_slots@,
            final(self).slot_count == old(self).slot_count,
            final(self).rows@.len() == old(self).rows@.len(),
            forall|k: int| 0 <= k < old(self).rows@.len() && k != index ==> #[trigger] final(self).rows@[k] == old(self).rows@[k],
            match first_named(old(self).schema.fields@, name@) {
                Some(i) => res is Ok && row_view(final(self).rows@[index as int]@) == row_view(old(self).rows@[index as int]@).update(i as int, v@),
                None => res matches Err(e) && e is InvalidField && error_text(e) == name@ && final(self).rows@ == old(self).rows@,
            },
            rows_fit(*old(self)) ==> rows_fit(*final(self)),
    {
        match self.schema.field_index(name) {
            Some(i) => {
                self.set_value(index, i, v);
                Ok(())
            },
            None => Err(GdbError::InvalidField(to_string(name))),
        }
    }

    /// The geometry of row `index`; fails without a geometry field, when the geometry is
    /// NULL, or when the field holds something else.
    pub fn geometry_at(&self, index: usize) -> (res: Result<GridGeometry, GdbError>)
        requires
            index < self.rows@.len(),
            first_of_type(self.schema.fields@, FieldType::Geometry) matches Some(gi) ==> gi < self.rows@[index as int]@.len(),
        ensures
            match first_of_type(self.schema.fields@, FieldType::Geometry) {
                Some(gi) => match self.rows@[index as int]@[gi as int]@ {
                    ValueView::Geometry(g) => res matches Ok(x) && x@ == g,
                    ValueView::Null => res matches Err(e) && e is GeometryError && error_text(e) == "几何为空"@,
                    other => res matches Err(e) && e is GeometryError
                        && error_text(e) == "几何字段类型异常: "@ + value_debug_text(other),
                },
                None => res matches Err(e) && e is GeometryError && error_text(e) == "该对象不含几何字段"@,
            },
    {
        let gi = match self.schema.geometry_index() {
            Some(i) => i,
            None => return Err(geometry_error("该对象不含几何字段")),
        };
        match &self.rows[index][gi] {
            FieldValue::Geometry(g) => Ok(g.clone()),
            FieldValue::Null => Err(geometry_error("几何为空")),
            other => {
                proof { reveal_strlit("几何字段类型异常: "); }
                let mut msg = to_string("几何字段类型异常: ");
                let t = value_debug(other);
                msg.append(t.as_str());
                Err(GdbError::GeometryError(msg))
            },
        }
    }

    /// Sets the geometry of row `index`; fails without a geometry field.
    pub fn set_geometry_at(&mut self, index: usize, g: GridGeometry) -> (res: Result<(), GdbError>)
        requires
            index < old(self).rows@.len(),
            first_of_type(old(self).schema.fields@, FieldType::Geometry) matches Some(gi) ==> gi < old(self).rows@[index as int]@.len(),
        ensures
            final(self).schema == old(self).schema,
            final(self).rows@.len() == old(self).rows@.len(),
            forall|k: int| 0 <= k < old(self).rows@.len() && k != index ==> #[trigger] final(self).rows@[k] == old(self).rows@[k],
            match first_of_type(old(self).schema.fields@, FieldType::Geometry) {
                Some(gi) => res is Ok && row_view(final(self).rows@[index as int]@)
                    == row_view(old(self).rows@[index as int]@).update(gi as int, ValueView::Geometry(g@)),
                None => res matches Err(e) && e is GeometryError && error_text(e) == "该对象不含几何字段"@
                    && final(self).rows@ == old(self).rows@,
            },
            rows_fit(*old(self)) ==> rows_fit(*final(self)),
    {
        match self.schema.geometry_index() {
            Some(gi) => {
                let ghost gv = g@;
                self.set_value(index, gi, FieldValue::Geometry(g));
                Ok(())
            },
            None => Err(geometry_error("该对象不含几何字段")),
        }
    }

    /// The spatial reference WKT of the geometry field (empty without one).
    pub fn spatial_reference(&self) -> (s: String)
        ensures
            s@ == match first_of_type(self.schema.fields@, FieldType::Geometry) {
                Some(gi) => self.schema.fields@[gi as int].srs_wkt@,
                None => Seq::empty(),
            },
    {
        match self.schema.geometry_index() {
            Some(gi) => self.schema.fields[gi].srs_wkt.as_str().to_string(),
            None => String::new(),
        }
    }

    /// Replaces the values of row `index` (nothing happens past the last row).
    pub fn replace_row(&mut self, index: usize, values: Vec<FieldValue>)
        ensures
            final(self).schema == old(self).schema,
            final(self).row_slots@ == old(self).row_slots@,
            final(self).slot_count == old(self).slot_count,
            index < old(self).rows@.len() ==> final(self).rows@ == old(self).rows@.update(index as int, values),
            index >= old(self).rows@.len() ==> final(self).rows@ == old(self).rows@,
            rows_fit(*old(self)) && values@.len() == old(self).schema.fields@.len() ==> rows_fit(*final(self)),
    {
        if index < self.rows.len() {
            self.rows.set(index, values);
        }
    }

    /// The object ID that a new row receives (one past the largest, or 1).
    pub fn next_object_id(&self, oi: usize) -> (oid: u64)
        requires
            forall|k: int| 0 <= k < self.rows@.len() ==> oi < #[trigger] self.rows@[k]@.len(),
            max_oid(rows_view(self.rows@), oi as nat) matches Some(m) ==> m < u64::MAX,
        ensures
            oid == next_oid(rows_view(self.rows@), oi as nat),
    {
        let ghost rv = rows_view(self.rows@);
        let mut best: Option<u64> = None;
        let mut k: usize = 0;
        while k < self.rows.len()
            invariant
                rv == rows_view(self.rows@),
                forall|j: int| 0 <= j < self.rows@.len() ==> oi < #[trigger] self.rows@[j]@.len(),
                k <= self.rows@.len(),
                best == max_oid(rv.take(k as int), oi as nat),
            decreases self.rows@.len() - k,
        {
            proof {
                assert(rv.take(k + 1).drop_last() =~= rv.take(k as int));
                assert(rv.take(k + 1).last() == row_view(self.rows@[k as int]@));
                assert(oi < self.rows@[k as int]@.len());
            }
            match &self.rows[k][oi] {
                FieldValue::ObjectId(v) => {
                    best = match best {
                        Some(m) => if m >= *v { Some(m) } else { Some(*v) },
                        None => Some(*v),
                    };
                },
                _ => {},
            }
            k = k + 1;
        }
        assert(rv.take(k as int) =~= rv);
        match best {
            Some(m) => m + 1,
            None => 1,
        }
    }

    /// Appends a row as an insert cursor does. With an object ID field, the row gets the
    /// next object ID and the slot just below it (object ID = slot + 1); without one, it gets
    /// the next free slot. The slot is recorded, so rows and slots stay one-to-one. Returns
    /// the row's index.
    pub fn insert_row(&mut self, values: Vec<FieldValue>) -> (index: usize)
        requires
            first_of_type(old(self).schema.fields@, FieldType::ObjectId) matches Some(oi) ==> {
                &&& oi < values@.len()
                &&& forall|k: int| 0 <= k < old(self).rows@.len() ==> oi < #[trigger] old(self).rows@[k]@.len()
                &&& max_oid(rows_view(old(self).rows@), oi) matches Some(m) ==> m < u64::MAX
            },
            first_of_type(old(self).schema.fields@, FieldType::ObjectId) is None ==> old(self).slot_count < u64::MAX,
        ensures
            index == old(self).rows@.len(),
            final(self).schema == old(self).schema,
            final(self).rows@.len() == old(self).rows@.len() + 1,
            forall|k: int| 0 <= k < old(self).rows@.len() ==> #[trigger] final(self).rows@[k] == old(self).rows@[k],
            match first_of_type(old(self).schema.fields@, FieldType::ObjectId) {
                Some(oi) => {
                    let oid = next_oid(rows_view(old(self).rows@), oi);
                    &&& row_view(final(self).rows@[index as int]@) == row_view(values@).update(oi as int, ValueView::ObjectId(oid))
                    &&& final(self).row_slots@ == old(self).row_slots@.push((oid - 1) as u64)
                    &&& final(self).slot_count == (if old(self).slot_count >= oid { old(self).slot_count } else { oid })
                },
                None => {
                    &&& row_view(final(self).rows@[index as int]@) == row_view(values@)
                    &&& final(self).row_slots@ == old(self).row_slots@.push(old(self).slot_count)
                    &&& final(self).slot_count == old(self).slot_count + 1
                },
            },
            rows_fit(*old(self)) && values@.len() == old(self).schema.fields@.len() ==> rows_fit(*final(self)),
            oids_match_slots(*old(self)) ==> oids_match_slots(*final(self)),
    {
        let mut values = values;
        let ghost vv = row_view(values@);
        let ghost n0 = values@.len();
        match self.schema.objectid_index() {
            Some(oi) => {
                let oid = self.next_object_id(oi);
                values.set(oi, FieldValue::ObjectId(oid));
                assert(row_view(values@) =~= vv.update(oi as int, ValueView::ObjectId(oid)));
                self.row_slots.push(oid - 1);
                if self.slot_count < oid {
                    self.slot_count = oid;
                }
            },
            None => {
                self.row_slots.push(self.slot_count);
                self.slot_count = self.slot_count + 1;
            },
        }
        assert(values@.len() == n0);
        let idx = self.rows.len();
        self.rows.push(values);
        proof {
            if let Some(oi) = first_of_type(self.schema.fields@, FieldType::ObjectId) {
                assert(row_view(self.rows@[idx as int]@)[oi as int] == self.rows@[idx as int]@[oi as int]@);
            }
        }
        idx
    }
}

} // verus!
