//! Cursor decisions: which rows a query selects, and which cursor may update or insert.
use vstd::prelude::*;
use crate::error::{GdbError, error_text};
use crate::field::{FieldType, first_of_type};
use crate::table::{Table, rows_view};
use crate::table::access::oid_in;
use crate::value::{FieldValue, ValueView, row_view};
use crate::text::to_string;

verus! {

/// A query: all rows, or the row with one object ID.
#[derive(Debug, Clone, Copy, PartialEq, Eq, Structural)]
pub enum QueryFilter {
    /// Every row.
    All,
    /// Only the row with this object ID.
    ByOid(u64),
}

/// Whether a query selects the row with this object ID.
pub open spec fn filter_matches(f: QueryFilter, oid: u64) -> bool {
    match f {
        QueryFilter::All => true,
        QueryFilter::ByOid(target) => target == oid,
    }
}

impl QueryFilter {
    /// Whether the query selects the row with this object ID.
    pub fn matches(&self, oid: u64) -> (b: bool)
        ensures
            b == filter_matches(*self, oid),
    {
        match self {
            QueryFilter::All => true,
            QueryFilter::ByOid(target) => *target == oid,
        }
    }
}

/// What a cursor is for.
#[derive(Debug, Clone, Copy, PartialEq, Eq, Structural)]
pub enum CursorMode {
    Search,
    Update,
    Insert,
}

/// The message of an operation tried on a cursor of another mode: the operation is only
/// allowed on cursors of mode `wanted`.
pub open spec fn mode_error_text(wanted: CursorMode) -> Seq<char> {
    match wanted {
        CursorMode::Update => "update 仅允许在 Update 游标上调用"@,
        CursorMode::Insert => "insert 仅允许在 Insert 游标上调用"@,
        CursorMode::Search => "search 仅允许在 Search 游标上调用"@,
    }
}

impl CursorMode {
    /// Succeeds when the cursor is of the mode an operation needs; else an edit error.
    pub fn require(self, wanted: CursorMode) -> (res: Result<(), GdbError>)
        ensures
            res is Ok <==> self == wanted,
            res matches Err(e) ==> e is Edit && error_text(e) == mode_error_text(wanted),
    {
        if self == wanted {
            Ok(())
        } else {
            let msg = match wanted {
                CursorMode::Update => to_string("update 仅允许在 Update 游标上调用"),
                CursorMode::Insert => to_string("insert 仅允许在 Insert 游标上调用"),
                CursorMode::Search => to_string("search 仅允许在 Search 游标上调用"),
            };
            Err(GdbError::Edit(msg))
        }
    }
}

/// The object ID a query tests for row `i`: its object ID field's value (0 when it holds
/// something else), or the row index when there is no such field.
pub open spec fn query_oid(row: Seq<ValueView>, i: nat, oi: Option<nat>) -> u64 {
    match oi {
        Some(k) => oid_in(row, k),
        None => i as u64,
    }
}

/// The indices of the rows that a query selects, in order.
pub open spec fn selected(rows: Seq<Seq<ValueView>>, oi: Option<nat>, f: QueryFilter) -> Seq<usize>
    decreases rows.len(),
{
    if rows.len() == 0 {
        Seq::empty()
    } else {
        let prev = selected(rows.drop_last(), oi, f);
        let i = (rows.len() - 1) as nat;
        if filter_matches(f, query_oid(rows.last(), i, oi)) { prev.push(i as usize) } else { prev }
    }
}

/// The rows of a table that a query selects (what a new cursor walks through).
pub fn matching_rows(table: &Table, filter: &QueryFilter) -> (r: Vec<usize>)
    requires
        first_of_type(table.schema.fields@, FieldType::ObjectId) matches Some(oi)
            ==> forall|k: int| 0 <= k < table.rows@.len() ==> oi < #[trigger] table.rows@[k]@.len(),
    ensures
        r@ == selected(rows_view(table.rows@), first_of_type(table.schema.fields@, FieldType::ObjectId), *filter),
{
    let oi = table.schema.objectid_index();
    let ghost rv = rows_view(table.rows@);
    let mut out: Vec<usize> = Vec::new();
    let mut i: usize = 0;
    while i < table.rows.len()
        invariant
            rv == rows_view(table.rows@),
            oi matches Some(k) ==> first_of_type(table.schema.fields@, FieldType::ObjectId) == Some(k as nat),
            oi is None ==> first_of_type(table.schema.fields@, FieldType::ObjectId) is None,
            oi matches Some(k) ==> forall|j: int| 0 <= j < table.rows@.len() ==> k < #[trigger] table.rows@[j]@.len(),
            i <= table.rows@.len(),
            out@ == selected(rv.take(i as int), first_of_type(table.schema.fields@, FieldType::ObjectId), *filter),
        decreases table.rows@.len() - i,
    {
        proof {
            assert(rv.take(i + 1).drop_last() =~= rv.take(i as int));
            assert(rv.take(i + 1).last() == row_view(table.rows@[i as int]@));
        }
        let oid = match oi {
            Some(k) => {
                assert(k < table.rows@[i as int]@.len());
                match &table.rows[i][k] {
                    FieldValue::ObjectId(v) => *v,
                    _ => 0,
                }
            },
            None => i as u64,
        };
        if filter.matches(oid) {
            out.push(i);
        }
        i = i + 1;
    }
    assert(rv.take(i as int) =~= rv);
    out
}

/// The rows that a query selects are in ascending order, each one is a row of the table
/// that the query matches, and every row that it matches is among them.
pub proof fn law_selected(rows: Seq<Seq<ValueView>>, oi: Option<nat>, f: QueryFilter)
    requires
        rows.len() <= usize::MAX + 1,
    ensures
        forall|j: int| 0 <= j < selected(rows, oi, f).len() ==> {
            let r = #[trigger] selected(rows, oi, f)[j];
            &&& (r as int) < rows.len()
            &&& filter_matches(f, query_oid(rows[r as int], r as nat, oi))
        },
        forall|j: int, k: int| 0 <= j < k < selected(rows, oi, f).len() ==>
            #[trigger] selected(rows, oi, f)[j] < #[trigger] selected(rows, oi, f)[k],
        forall|i: int| 0 <= i < rows.len() && #[trigger] filter_matches(f, query_oid(rows[i], i as nat, oi))
            ==> selected(rows, oi, f).contains(i as usize),
    decreases rows.len(),
{
    if rows.len() > 0 {
        let prev_rows = rows.drop_last();
        law_selected(prev_rows, oi, f);
        let prev = selected(prev_rows, oi, f);
        let n = (rows.len() - 1) as nat;
        assert forall|i: int| 0 <= i < rows.len() && #[trigger] filter_matches(f, query_oid(rows[i], i as nat, oi))
            implies selected(rows, oi, f).contains(i as usize) by {
            if i < n {
                assert(rows[i] == prev_rows[i]);
                assert(filter_matches(f, query_oid(prev_rows[i], i as nat, oi)));
                let w = choose|w: int| 0 <= w < prev.len() && prev[w] == i as usize;
                assert(selected(rows, oi, f)[w] == i as usize);
            } else {
                assert(i == n);
                let sel = selected(rows, oi, f);
                assert(sel == prev.push(n as usize));
                assert(sel[prev.len() as int] == i as usize);
            }
        }
    }
}

// ---------------------------------------------------------------------------
// Walking through the selected rows
// ---------------------------------------------------------------------------

/// One step of a walk through `rows` at position `pos`: the next row and the position after
/// it, or nothing (and the same position) at the end.
pub open spec fn walk_step(rows: Seq<usize>, pos: nat) -> (nat, Option<usize>) {
    if pos < rows.len() { (pos + 1, Some(rows[pos as int])) } else { (pos, None) }
}

/// What `n` steps of a walk through `rows` from `pos` give, in order.
pub open spec fn walk_outputs(rows: Seq<usize>, pos: nat, n: nat) -> Seq<Option<usize>>
    decreases n,
{
    if n == 0 {
        Seq::empty()
    } else {
        let (next, out) = walk_step(rows, pos);
        seq![out] + walk_outputs(rows, next, (n - 1) as nat)
    }
}

/// Where a walk through `rows` from `pos` stands after `n` steps.
pub open spec fn walk_position(rows: Seq<usize>, pos: nat, n: nat) -> nat
    decreases n,
{
    if n == 0 { pos } else { walk_position(rows, walk_step(rows, pos).0, (n - 1) as nat) }
}

/// A walk gives the rows from its position on, one per step and in order, and then nothing
/// on every further step; it stops at the end.
pub proof fn law_walk(rows: Seq<usize>, pos: nat, n: nat)
    requires
        pos <= rows.len(),
    ensures
        walk_outputs(rows, pos, n) == Seq::new(n, |i: int| if pos + i < rows.len() { Some(rows[pos + i]) } else { None::<usize> }),
        walk_position(rows, pos, n) == (if pos + n <= rows.len() { pos + n } else { rows.len() }),
    decreases n,
{
    if n > 0 {
        let next = walk_step(rows, pos).0;
        law_walk(rows, next, (n - 1) as nat);
        assert(walk_outputs(rows, pos, n) =~= Seq::new(n, |i: int| if pos + i < rows.len() { Some(rows[pos + i]) } else { None::<usize> }));
    }
}

/// The rows that a cursor walks through, and how far it has come.
pub struct RowWalk {
    indices: Vec<usize>,
    pos: usize,
}

impl RowWalk {
    /// The row indices of the walk.
    pub closed spec fn rows(&self) -> Seq<usize> {
        self.indices@
    }

    /// How many steps of the walk are done.
    pub closed spec fn position(&self) -> nat {
        self.pos as nat
    }

    /// A walk through the rows of a table that a query selects, from the first.
    pub fn new(table: &Table, filter: &QueryFilter) -> (w: RowWalk)
        requires
            first_of_type(table.schema.fields@, FieldType::ObjectId) matches Some(oi)
                ==> forall|k: int| 0 <= k < table.rows@.len() ==> oi < #[trigger] table.rows@[k]@.len(),
        ensures
            w.rows() == selected(rows_view(table.rows@), first_of_type(table.schema.fields@, FieldType::ObjectId), *filter),
            w.position() == 0,
    {
        RowWalk { indices: matching_rows(table, filter), pos: 0 }
    }

    /// Whether another row follows.
    pub fn has_next(&self) -> (b: bool)
        ensures
            b == (self.position() < self.rows().len()),
    {
        self.pos < self.indices.len()
    }

    /// The index of the next row, or `None` at the end (where the walk stays).
    pub fn next_index(&mut self) -> (r: Option<usize>)
        ensures
            final(self).rows() == old(self).rows(),
            (final(self).position(), r) == walk_step(old(self).rows(), old(self).position()),
    {
        if self.pos >= self.indices.len() {
            return None;
        }
        let index = self.indices[self.pos];
        self.pos = self.pos + 1;
        Some(index)
    }

    /// Adds a row (one that an insert cursor appended) at the end of the walk.
    pub fn push_index(&mut self, index: usize)
        ensures
            final(self).rows() == old(self).rows().push(index),
            final(self).position() == old(self).position(),
    {
        self.indices.push(index);
    }
}

} // verus!
