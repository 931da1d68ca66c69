//! A chunk of rows on the streaming path: every row carries the operation
//! that it stands for.

use crate::data_chunk::{
    lemma_select_len, select, spec_columns_view, spec_count_ones, spec_project, spec_select,
    spec_vis_bits, Column, DataChunk, DataType, Datum, Vis,
};
use crate::text::{i64_to_decimal, spec_signed_decimal};
use std::sync::Arc;
use vstd::prelude::*;
use vstd::string::StringExecFns;

verus! {

/// What a row of a stream chunk does to its table.
///
/// `UpdateDelete` and `UpdateInsert` mean the same as `Delete` and `Insert`
/// but come in pairs that together stand for one update.
#[derive(Clone, Copy, Debug, PartialOrd, Ord, PartialEq, Eq, Structural, Hash)]
pub enum Op {
    Insert,
    Delete,
    UpdateDelete,
    UpdateInsert,
}

/// An operation number that stands for no operation.
#[derive(Clone, Copy, Debug, PartialEq, Eq, Structural)]
pub struct NoSuchOpType;

/// The number that stands for no chosen operation.
pub const PB_OP_UNSPECIFIED: i32 = 0;

/// The number of an operation on the wire.
pub open spec fn spec_op_number(op: Op) -> i32 {
    match op {
        Op::Insert => 1,
        Op::Delete => 2,
        Op::UpdateInsert => 3,
        Op::UpdateDelete => 4,
    }
}

impl Op {
    /// The number of the operation on the wire.
    pub fn to_protobuf(self) -> (r: i32)
        ensures
            r == spec_op_number(self),
    {
        match self {
            Op::Insert => 1,
            Op::Delete => 2,
            Op::UpdateInsert => 3,
            Op::UpdateDelete => 4,
        }
    }

    /// The operation that a number on the wire stands for. The number for
    /// "unspecified" never comes over the wire.
    pub fn from_protobuf(prost: &i32) -> (r: Result<Op, NoSuchOpType>)
        requires
            *prost != PB_OP_UNSPECIFIED,
        ensures
            match r {
                Ok(op) => spec_op_number(op) == *prost,
                Err(_) => !(1 <= *prost <= 4),
            },
    {
        if *prost == 1 {
            Ok(Op::Insert)
        } else if *prost == 2 {
            Ok(Op::Delete)
        } else if *prost == 3 {
            Ok(Op::UpdateInsert)
        } else if *prost == 4 {
            Ok(Op::UpdateDelete)
        } else {
            Err(NoSuchOpType)
        }
    }
}

/// A copy of a list of operations.
pub fn clone_ops(ops: &Vec<Op>) -> (r: Vec<Op>)
    ensures
        r@ == ops@,
{
    let mut r: Vec<Op> = Vec::new();
    let mut i: usize = 0;
    while i < ops.len()
        invariant
            i <= ops@.len(),
            r@ == ops@.subrange(0, i as int),
        decreases ops@.len() - i,
    {
        r.push(ops[i]);
        assert(r@ =~= ops@.subrange(0, i + 1));
        i += 1;
    }
    assert(ops@.subrange(0, i as int) =~= ops@);
    r
}

/// Rows with their operations.
#[derive(Clone, PartialEq)]
pub struct StreamChunk {
    ops: Arc<Vec<Op>>,
    data: DataChunk,
}

/// What a chunk holds, as plain values.
pub struct StreamChunkView {
    pub ops: Seq<Op>,
    pub columns: Seq<Seq<Datum>>,
    pub visibility: Seq<bool>,
}

/// Column `j` of the rows: the value that each row has at `j`.
pub open spec fn spec_column_of_rows(rows: Seq<(Op, Vec<Datum>)>, j: int) -> Seq<Datum> {
    Seq::new(rows.len(), |i: int| rows[i].1@[j])
}

/// The operations of the rows.
pub open spec fn spec_ops_of_rows(rows: Seq<(Op, Vec<Datum>)>) -> Seq<Op> {
    Seq::new(rows.len(), |i: int| rows[i].0)
}

impl StreamChunk {
    /// The operations, one per row.
    pub closed spec fn spec_ops(&self) -> Seq<Op> {
        self.ops@
    }

    /// The rows' data.
    pub closed spec fn spec_data(&self) -> DataChunk {
        self.data
    }

    /// The columns, as plain values.
    pub open spec fn spec_columns(&self) -> Seq<Seq<Datum>> {
        self.spec_data().spec_columns()
    }

    /// The visibility of the rows.
    pub open spec fn spec_vis(&self) -> Vis {
        self.spec_data().spec_vis()
    }

    /// The invariant: an operation for every row, and a value in every
    /// column for every row.
    pub open spec fn wf(&self) -> bool {
        self.spec_data().wf() && self.spec_ops().len() == self.spec_data().spec_capacity()
    }

    /// The rows of the chunk: their operations, their values and which of
    /// them are visible.
    pub open spec fn rows(&self) -> StreamChunkView {
        StreamChunkView {
            ops: self.spec_ops(),
            columns: self.spec_columns(),
            visibility: spec_vis_bits(self.spec_vis()),
        }
    }

    /// A copy of the chunk.
    pub fn duplicate(&self) -> (r: Self)
        ensures
            r.wf() == self.wf(),
            r.rows() == self.rows(),
    {
        StreamChunk { ops: self.ops.clone(), data: self.data.duplicate() }
    }

    /// The chunk of the rows with operations `ops` and data `columns`. With
    /// `visibility` absent every row is visible.
    pub fn new(ops: Vec<Op>, columns: Vec<Column>, visibility: Option<Vec<bool>>) -> (r: Self)
        requires
            forall|i: int| 0 <= i < columns@.len() ==> (#[trigger] columns@[i])@.len() == ops@.len(),
            visibility matches Some(b) ==> b@.len() == ops@.len(),
        ensures
            r.wf(),
            r.spec_ops() == ops@,
            r.spec_columns() == spec_columns_view(columns@),
            r.spec_vis() == match visibility {
                Some(b) => Vis::Bitmap(b),
                None => Vis::Compact(ops.len()),
            },
    {
        let vis = match visibility {
            Some(b) => Vis::Bitmap(b),
            None => Vis::Compact(ops.len()),
        };
        let data = DataChunk::new(columns, vis);
        StreamChunk { ops: Arc::new(ops), data }
    }

    /// The chunk of `rows`, each with as many values as there are
    /// `data_types`; every row is visible.
    pub fn from_rows(rows: &[(Op, Vec<Datum>)], data_types: &[DataType]) -> (r: Self)
        requires
            forall|i: int| 0 <= i < rows@.len() ==> (#[trigger] rows@[i]).1@.len() == data_types@.len(),
        ensures
            r.wf(),
            r.spec_ops() == spec_ops_of_rows(rows@),
            r.spec_columns() == Seq::new(
                data_types@.len(),
                |j: int| spec_column_of_rows(rows@, j),
            ),
            r.spec_vis() == Vis::Compact(rows.len()),
    {
        let mut ops: Vec<Op> = Vec::new();
        let mut i: usize = 0;
        while i < rows.len()
            invariant
                i <= rows@.len(),
                ops@ == spec_ops_of_rows(rows@).subrange(0, i as int),
            decreases rows@.len() - i,
        {
            ops.push(rows[i].0);
            assert(ops@ =~= spec_ops_of_rows(rows@).subrange(0, i + 1));
            i += 1;
        }
        assert(spec_ops_of_rows(rows@).subrange(0, i as int) =~= spec_ops_of_rows(rows@));
        let mut new_columns: Vec<Column> = Vec::new();
        let mut j: usize = 0;
        while j < data_types.len()
            invariant
                j <= data_types@.len(),
                forall|i: int|
                    0 <= i < rows@.len() ==> (#[trigger] rows@[i]).1@.len() == data_types@.len(),
                new_columns@.len() == j,
                forall|k: int|
                    0 <= k < j ==> (#[trigger] new_columns@[k])@ == spec_column_of_rows(rows@, k),
            decreases data_types@.len() - j,
        {
            let mut builder: Column = Vec::new();
            let mut i: usize = 0;
            while i < rows.len()
                invariant
                    i <= rows@.len(),
                    j < data_types@.len(),
                    forall|i: int|
                        0 <= i < rows@.len() ==> (#[trigger] rows@[i]).1@.len()
                            == data_types@.len(),
                    builder@ == spec_column_of_rows(rows@, j as int).subrange(0, i as int),
                decreases rows@.len() - i,
            {
                builder.push(rows[i].1[j]);
                assert(builder@ =~= spec_column_of_rows(rows@, j as int).subrange(0, i + 1));
                i += 1;
            }
            assert(spec_column_of_rows(rows@, j as int).subrange(0, i as int)
                =~= spec_column_of_rows(rows@, j as int));
            new_columns.push(builder);
            j += 1;
        }
        proof {
            assert(spec_columns_view(new_columns@) =~= Seq::new(
                data_types@.len(),
                |j: int| spec_column_of_rows(rows@, j),
            ));
        }
        StreamChunk::new(ops, new_columns, None)
    }

    /// The rows' data.
    pub fn data_chunk(&self) -> (r: &DataChunk)
        ensures
            *r == self.spec_data(),
    {
        &self.data
    }

    /// The chunk of the visible rows alone, in their order. A chunk whose
    /// rows are all marked visible by count is returned as it is.
    pub fn compact(self) -> (r: Self)
        requires
            self.wf(),
        ensures
            r.wf(),
            self.spec_vis() is Compact ==> r.spec_ops() == self.spec_ops() && r.spec_columns()
                == self.spec_columns() && r.spec_vis() == self.spec_vis(),
            self.spec_vis() matches Vis::Bitmap(b) ==> {
                &&& r.spec_ops() == spec_select(self.spec_ops(), b@, b@.len())
                &&& r.spec_columns() == Seq::new(
                    self.spec_columns().len(),
                    |j: int| spec_select(self.spec_columns()[j], b@, b@.len()),
                )
                &&& r.spec_vis() == Vis::Compact(spec_count_ones(b@, b@.len()) as usize)
            },
    {
        let is_compact = matches!(self.data.vis(), Vis::Compact(_));
        if is_compact {
            return self;
        }
        let ghost old_ops = self.spec_ops();
        let ghost old_columns = self.spec_columns();
        let (ops, columns, vis) = self.into_inner();
        let visibility = vis.into_visibility().unwrap();
        let new_ops = select(&ops, &visibility);
        proof {
            lemma_select_len(old_ops, visibility@, visibility@.len());
        }
        let mut new_columns: Vec<Column> = Vec::new();
        let mut j: usize = 0;
        while j < columns.len()
            invariant
                j <= columns@.len(),
                spec_columns_view(columns@) == old_columns,
                forall|k: int|
                    0 <= k < old_columns.len() ==> (#[trigger] old_columns[k]).len()
                        == visibility@.len(),
                new_columns@.len() == j,
                forall|k: int|
                    0 <= k < j ==> (#[trigger] new_columns@[k])@ == spec_select(
                        old_columns[k],
                        visibility@,
                        visibility@.len(),
                    ),
            decreases columns@.len() - j,
        {
            proof {
                assert(old_columns[j as int] == columns@[j as int]@);
                lemma_select_len(old_columns[j as int], visibility@, visibility@.len());
            }
            new_columns.push(select(&columns[j], &visibility));
            j += 1;
        }
        proof {
            assert(spec_columns_view(new_columns@) =~= Seq::new(
                old_columns.len(),
                |j: int| spec_select(old_columns[j], visibility@, visibility@.len()),
            ));
            assert forall|k: int| 0 <= k < new_columns@.len() implies (
            #[trigger] new_columns@[k])@.len() == new_ops@.len() by {
                lemma_select_len(old_columns[k], visibility@, visibility@.len());
            }
        }
        StreamChunk::new(new_ops, new_columns, None)
    }

    /// The rows' data and the operations.
    pub fn into_parts(self) -> (r: (DataChunk, Vec<Op>))
        ensures
            r.0 == self.spec_data(),
            r.1@ == self.spec_ops(),
    {
        let ops = clone_ops(&self.ops);
        (self.data, ops)
    }

    /// The chunk of `data_chunk` with one operation for each of its rows.
    pub fn from_parts(ops: Vec<Op>, data_chunk: DataChunk) -> (r: Self)
        requires
            data_chunk.wf(),
            ops@.len() == data_chunk.spec_capacity(),
        ensures
            r.wf(),
            r.spec_ops() == ops@,
            r.spec_columns() == data_chunk.spec_columns(),
            r.spec_vis() == data_chunk.spec_vis(),
    {
        let (columns, vis) = data_chunk.into_parts();
        proof {
            assert forall|i: int| 0 <= i < columns@.len() implies (#[trigger] columns@[i])@.len()
                == ops@.len() by {
                assert(data_chunk.spec_columns()[i] == columns@[i]@);
            }
            if let Vis::Compact(n) = vis {
                assert(spec_vis_bits(vis).len() == n);
            }
        }
        Self::new(ops, columns, vis.into_visibility())
    }

    /// The operations, the columns and the visibility.
    pub fn into_inner(self) -> (r: (Vec<Op>, Vec<Column>, Vis))
        ensures
            r.0@ == self.spec_ops(),
            spec_columns_view(r.1@) == self.spec_columns(),
            r.2 == self.spec_vis(),
    {
        let ops = clone_ops(&self.ops);
        let (columns, vis) = self.data.into_parts();
        (ops, columns, vis)
    }

    /// The operations, one per row.
    pub fn ops(&self) -> (r: &[Op])
        ensures
            r@ == self.spec_ops(),
    {
        self.ops.as_slice()
    }

    /// The chunk with the columns at `indices`, in that order: with `[2, 0]`
    /// the columns `a, b, c` become `c, a`.
    pub fn project(&self, indices: &[usize]) -> (r: Self)
        requires
            self.wf(),
            forall|i: int| 0 <= i < indices@.len() ==> (#[trigger] indices@[i]) < self.spec_columns().len(),
        ensures
            r.wf(),
            r.spec_ops() == self.spec_ops(),
            r.spec_columns() == spec_project(self.spec_columns(), indices@),
            spec_vis_bits(r.spec_vis()) == spec_vis_bits(self.spec_vis()),
    {
        StreamChunk { ops: self.ops.clone(), data: self.data.project(indices) }
    }

    /// The chunk with the columns at `indices`, in that order, and the
    /// visibility `vis`.
    pub fn project_with_vis(&self, indices: &[usize], vis: Vis) -> (r: Self)
        requires
            self.wf(),
            vis.spec_len() == self.spec_ops().len(),
            forall|i: int| 0 <= i < indices@.len() ==> (#[trigger] indices@[i]) < self.spec_columns().len(),
        ensures
            r.wf(),
            r.spec_ops() == self.spec_ops(),
            r.spec_columns() == spec_project(self.spec_columns(), indices@),
            r.spec_vis() == vis,
    {
        StreamChunk { ops: self.ops.clone(), data: self.data.project_with_vis(indices, vis) }
    }

    /// The chunk with the same rows and the visibility `vis`.
    pub fn with_visibility(&self, vis: Vis) -> (r: Self)
        requires
            self.wf(),
            vis.spec_len() == self.spec_ops().len(),
        ensures
            r.wf(),
            r.spec_ops() == self.spec_ops(),
            r.spec_columns() == self.spec_columns(),
            r.spec_vis() == vis,
    {
        StreamChunk { ops: self.ops.clone(), data: self.data.with_visibility(vis) }
    }
}

/// The operations of a chunk that is being changed in place: shared with
/// the chunk they came from until the first change, then a copy of their own.
pub enum OpsMutState {
    ArcRef(Arc<Vec<Op>>),
    Mut(Vec<Op>),
}

/// Operations that can be set one by one.
pub struct OpsMut {
    state: OpsMutState,
}

impl OpsMut {
    /// The operations, one per row.
    pub closed spec fn view(&self) -> Seq<Op> {
        match self.state {
            OpsMutState::ArcRef(a) => a@,
            OpsMutState::Mut(v) => v@,
        }
    }

    /// The operations `ops`, not yet copied.
    pub fn new(ops: Arc<Vec<Op>>) -> (r: Self)
        ensures
            r@ == ops@,
    {
        OpsMut { state: OpsMutState::ArcRef(ops) }
    }

    /// Sets the operation of row `n`.
    pub fn set(&mut self, n: usize, val: Op)
        requires
            n < old(self)@.len(),
        ensures
            final(self)@ == old(self)@.update(n as int, val),
    {
        let copied = match &self.state {
            OpsMutState::ArcRef(a) => Some(clone_ops(a)),
            OpsMutState::Mut(_) => None,
        };
        if let Some(v) = copied {
            self.state = OpsMutState::Mut(v);
        }
        match &mut self.state {
            OpsMutState::Mut(v) => {
                v.set(n, val);
            },
            OpsMutState::ArcRef(_) => {},
        }
    }

    /// The operations as they stand.
    pub fn into_ops(self) -> (r: Vec<Op>)
        ensures
            r@ == self@,
    {
        match self.state {
            OpsMutState::ArcRef(a) => clone_ops(&a),
            OpsMutState::Mut(v) => v,
        }
    }
}

/// A stream chunk whose visibility and operations can be set in place; the
/// number of rows stays.
pub struct StreamChunkMut {
    columns: Vec<Column>,
    ops: OpsMut,
    vis: Vec<bool>,
}

impl StreamChunkMut {
    /// The operations, one per row.
    pub closed spec fn spec_ops(&self) -> Seq<Op> {
        self.ops@
    }

    /// The visibility marks, one per row.
    pub closed spec fn spec_vis(&self) -> Seq<bool> {
        self.vis@
    }

    /// The columns, as plain values.
    pub closed spec fn spec_columns(&self) -> Seq<Seq<Datum>> {
        spec_columns_view(self.columns@)
    }

    /// The invariant: an operation, a mark and a value in every column for
    /// every row.
    pub open spec fn wf(&self) -> bool {
        &&& self.spec_ops().len() == self.spec_vis().len()
        &&& forall|i: int|
            0 <= i < self.spec_columns().len() ==> (#[trigger] self.spec_columns()[i]).len()
                == self.spec_vis().len()
    }

    /// The chunk `c`, ready to be changed.
    pub fn from_chunk(c: StreamChunk) -> (r: Self)
        requires
            c.wf(),
        ensures
            r.wf(),
            r.spec_ops() == c.spec_ops(),
            r.spec_vis() == spec_vis_bits(c.spec_vis()),
            r.spec_columns() == c.spec_columns(),
    {
        let (ops, columns, vis) = c.into_inner();
        let bits = match vis {
            Vis::Bitmap(b) => b,
            Vis::Compact(n) => {
                let mut b: Vec<bool> = Vec::new();
                let mut i: usize = 0;
                while i < n
                    invariant
                        i <= n,
                        b@ == Seq::new(i as nat, |k: int| true),
                    decreases n - i,
                {
                    b.push(true);
                    assert(b@ =~= Seq::new((i + 1) as nat, |k: int| true));
                    i += 1;
                }
                b
            },
        };
        StreamChunkMut { columns, ops: OpsMut::new(Arc::new(ops)), vis: bits }
    }

    /// The chunk as it stands.
    pub fn into_chunk(self) -> (r: StreamChunk)
        requires
            self.wf(),
        ensures
            r.wf(),
            r.spec_ops() == self.spec_ops(),
            r.spec_columns() == self.spec_columns(),
            r.spec_vis() is Bitmap,
            spec_vis_bits(r.spec_vis()) == self.spec_vis(),
    {
        proof {
            assert forall|i: int| 0 <= i < self.columns@.len() implies (
            #[trigger] self.columns@[i])@.len() == self.ops@.len() by {
                assert(self.spec_columns()[i] == self.columns@[i]@);
            }
        }
        StreamChunk::new(self.ops.into_ops(), self.columns, Some(self.vis))
    }

    /// Number of rows.
    pub fn len(&self) -> (r: usize)
        ensures
            r == self.spec_vis().len(),
    {
        self.vis.len()
    }

    /// Sets the visibility of row `n`.
    pub fn set_vis(&mut self, n: usize, val: bool)
        requires
            old(self).wf(),
            n < old(self).spec_vis().len(),
        ensures
            final(self).wf(),
            final(self).spec_vis() == old(self).spec_vis().update(n as int, val),
            final(self).spec_ops() == old(self).spec_ops(),
            final(self).spec_columns() == old(self).spec_columns(),
    {
        self.vis.set(n, val);
        proof {
            assert forall|i: int| 0 <= i < self.spec_columns().len() implies (
            #[trigger] self.spec_columns()[i]).len() == self.spec_vis().len() by {
                assert(old(self).spec_columns()[i].len() == old(self).spec_vis().len());
            }
        }
    }

    /// Sets the operation of row `n`.
    pub fn set_op(&mut self, n: usize, val: Op)
        requires
            old(self).wf(),
            n < old(self).spec_ops().len(),
        ensures
            final(self).wf(),
            final(self).spec_ops() == old(self).spec_ops().update(n as int, val),
            final(self).spec_vis() == old(self).spec_vis(),
            final(self).spec_columns() == old(self).spec_columns(),
    {
        self.ops.set(n, val);
        proof {
            assert forall|i: int| 0 <= i < self.spec_columns().len() implies (
            #[trigger] self.spec_columns()[i]).len() == self.spec_vis().len() by {
                assert(old(self).spec_columns()[i].len() == old(self).spec_vis().len());
            }
        }
    }

    /// Row `i`, to set its visibility and its operation.
    pub fn row_mut(&mut self, i: usize) -> (r: OpRowMutRef<'_>)
        requires
            old(self).wf(),
            i < old(self).spec_vis().len(),
        ensures
            r.i == i,
            *r.c == *old(self),
            *final(self) == *final(r.c),
    {
        OpRowMutRef { c: self, i }
    }
}

/// One row of a chunk that is being changed.
pub struct OpRowMutRef<'a> {
    pub c: &'a mut StreamChunkMut,
    pub i: usize,
}

impl OpRowMutRef<'_> {
    /// Sets the visibility of the row.
    pub fn set_vis(&mut self, val: bool)
        requires
            old(self).c.wf(),
            old(self).i < old(self).c.spec_vis().len(),
        ensures
            final(self).i == old(self).i,
            final(self).c.wf(),
            final(self).c.spec_vis() == old(self).c.spec_vis().update(old(self).i as int, val),
            final(self).c.spec_ops() == old(self).c.spec_ops(),
            final(self).c.spec_columns() == old(self).c.spec_columns(),
    {
        self.c.set_vis(self.i, val);
    }

    /// Sets the operation of the row.
    pub fn set_op(&mut self, val: Op)
        requires
            old(self).c.wf(),
            old(self).i < old(self).c.spec_ops().len(),
        ensures
            final(self).i == old(self).i,
            final(self).c.wf(),
            final(self).c.spec_ops() == old(self).c.spec_ops().update(old(self).i as int, val),
            final(self).c.spec_vis() == old(self).c.spec_vis(),
            final(self).c.spec_columns() == old(self).c.spec_columns(),
    {
        self.c.set_op(self.i, val);
    }
}

/// Which strokes a table is drawn with: bars at the sides, a line at the
/// top and at the bottom, bars between the columns, no line between the
/// rows.
pub const PRETTY_TABLE_PRESET: &'static str = "||--+-++|    ++++++";

/// The strokes of a table as it is made: a full frame, with a line between
/// the rows.
pub const DEFAULT_TABLE_STROKES: &'static str = "||--+==+|-+||++++++";

/// Where a cell is written in its column.
#[derive(Clone, Copy, Debug, PartialEq, Eq)]
pub enum Alignment {
    Left,
    Right,
    Center,
}

/// `comfy_table::Table`, of which nothing but the wrappers below is known.
#[verifier::external_type_specification]
#[verifier::external_body]
pub struct ExTable(comfy_table::Table);

/// The rows of a table: of each its first cell, where that cell is written
/// in its column, and its further cells.
pub uninterp spec fn spec_table_rows(table: comfy_table::Table) -> Seq<
    (Seq<char>, Alignment, Seq<Seq<char>>),
>;

/// The strokes that a table is drawn with: one character for each part of
/// the frame, in the order in which a preset lists them; a blank for a part
/// that is not drawn.
pub uninterp spec fn spec_table_strokes(table: comfy_table::Table) -> Seq<char>;

/// The text of a table drawn with `strokes`, whose rows each have a first
/// cell, written where its alignment says, and further cells, written to
/// the left of their columns.
pub uninterp spec fn spec_render_table(
    strokes: Seq<char>,
    rows: Seq<(Seq<char>, Alignment, Seq<Seq<char>>)>,
) -> Seq<char>;

/// The strokes after a preset was loaded: each character of the preset
/// takes the place of the stroke at its position, a blank taking the stroke
/// away; strokes that the preset does not reach stay, and characters past
/// the last stroke are left out.
pub open spec fn spec_load_preset(strokes: Seq<char>, preset: Seq<char>) -> Seq<char> {
    Seq::new(
        strokes.len(),
        |i: int|
            if i < preset.len() {
                preset[i]
            } else {
                strokes[i]
            },
    )
}

/// `comfy_table::Table::new`: a table without rows, with the strokes of
/// the crate's full frame.
#[verifier::external_body]
fn table_new() -> (table: comfy_table::Table)
    ensures
        spec_table_rows(table) == Seq::<(Seq<char>, Alignment, Seq<Seq<char>>)>::empty(),
        spec_table_strokes(table) == DEFAULT_TABLE_STROKES@,
{
    comfy_table::Table::new()
}

/// `comfy_table::Table::load_preset`: gives the table the strokes of
/// `preset`, one character for each part of the frame; the rows stay.
#[verifier::external_body]
fn table_load_preset(table: &mut comfy_table::Table, preset: &str)
    ensures
        spec_table_strokes(*final(table)) == spec_load_preset(
            spec_table_strokes(*old(table)),
            preset@,
        ),
        spec_table_rows(*final(table)) == spec_table_rows(*old(table)),
{
    table.load_preset(preset);
}

/// `comfy_table::Table::add_row`: appends a row of the cells given, each
/// made by `Cell::new`, the first of them with the alignment given, set by
/// `Cell::set_alignment`; the strokes stay.
#[verifier::external_body]
fn table_add_row(
    table: &mut comfy_table::Table,
    first: &str,
    alignment: Alignment,
    rest: &Vec<String>,
)
    ensures
        spec_table_strokes(*final(table)) == spec_table_strokes(*old(table)),
        spec_table_rows(*final(table)) == spec_table_rows(*old(table)).push(
            (first@, alignment, Seq::new(rest@.len(), |j: int| rest@[j]@)),
        ),
{
    let alignment = match alignment {
        Alignment::Left => comfy_table::CellAlignment::Left,
        Alignment::Right => comfy_table::CellAlignment::Right,
        Alignment::Center => comfy_table::CellAlignment::Center,
    };
    let mut cells = vec![comfy_table::Cell::new(first).set_alignment(alignment)];
    cells.extend(rest.iter().map(comfy_table::Cell::new));
    table.add_row(cells);
}

/// `comfy_table::Table`'s `to_string`: the text of the table. Built
/// without its terminal feature, the crate looks at nothing but the table:
/// the text depends on the strokes and the cells alone.
#[verifier::external_body]
fn table_to_string(table: &comfy_table::Table) -> (r: String)
    ensures
        r@ == spec_render_table(spec_table_strokes(*table), spec_table_rows(*table)),
{
    table.to_string()
}

/// The rows of a table, as plain values.
pub open spec fn spec_table_rows_view(rows: Seq<(String, Vec<String>)>) -> Seq<
    (Seq<char>, Seq<Seq<char>>),
> {
    Seq::new(rows.len(), |i: int| (rows[i].0@, Seq::new(rows[i].1@.len(), |j: int| rows[i].1@[j]@)))
}

/// The rows with the first cell of each written to the right of its
/// column.
pub open spec fn spec_first_cell_right(rows: Seq<(Seq<char>, Seq<Seq<char>>)>) -> Seq<
    (Seq<char>, Alignment, Seq<Seq<char>>),
> {
    Seq::new(rows.len(), |i: int| (rows[i].0, Alignment::Right, rows[i].1))
}

/// A preset that names every stroke replaces them all.
pub proof fn lemma_full_preset(strokes: Seq<char>, preset: Seq<char>)
    requires
        preset.len() == strokes.len(),
    ensures
        spec_load_preset(strokes, preset) == preset,
{
    assert(spec_load_preset(strokes, preset) =~= preset);
}

/// The text of the table of `rows`, drawn with the strokes that `preset`
/// makes of the strokes of a full frame; the first cell of each row is
/// written to the right of its column.
pub fn render_table(preset: &str, rows: &Vec<(String, Vec<String>)>) -> (r: String)
    ensures
        r@ == spec_render_table(
            spec_load_preset(DEFAULT_TABLE_STROKES@, preset@),
            spec_first_cell_right(spec_table_rows_view(rows@)),
        ),
{
    let ghost views = spec_first_cell_right(spec_table_rows_view(rows@));
    let mut table = table_new();
    table_load_preset(&mut table, preset);
    let ghost strokes = spec_table_strokes(table);
    let mut i: usize = 0;
    assert(spec_table_rows(table) =~= views.subrange(0, 0));
    while i < rows.len()
        invariant
            i <= rows@.len(),
            views == spec_first_cell_right(spec_table_rows_view(rows@)),
            spec_table_strokes(table) == strokes,
            spec_table_rows(table) == views.subrange(0, i as int),
        decreases rows@.len() - i,
    {
        table_add_row(&mut table, rows[i].0.as_str(), Alignment::Right, &rows[i].1);
        assert(spec_table_rows(table) =~= views.subrange(0, i + 1));
        i += 1;
    }
    assert(views.subrange(0, i as int) =~= views);
    table_to_string(&table)
}

/// The sign that stands for an operation in a table.
pub open spec fn spec_op_sign(op: Op) -> Seq<char> {
    match op {
        Op::Insert => "+"@,
        Op::Delete => "-"@,
        Op::UpdateDelete => "U-"@,
        Op::UpdateInsert => "U+"@,
    }
}

/// The text of a value in a table: nothing for NULL.
pub open spec fn spec_datum_text(datum: Datum) -> Seq<char> {
    match datum {
        None => ""@,
        Some(n) => spec_signed_decimal(n as int),
    }
}

/// Row `i` of a chunk as a row of a table: the sign of its operation, then
/// its values.
pub open spec fn spec_pretty_row(chunk: StreamChunkView, i: int) -> (Seq<char>, Seq<Seq<char>>) {
    (
        spec_op_sign(chunk.ops[i]),
        Seq::new(chunk.columns.len(), |j: int| spec_datum_text(chunk.columns[j][i])),
    )
}

/// The visible ones of the first `n` rows of a chunk as rows of a table.
pub open spec fn spec_pretty_rows(chunk: StreamChunkView, n: nat) -> Seq<
    (Seq<char>, Seq<Seq<char>>),
>
    decreases n,
{
    if n == 0 {
        Seq::empty()
    } else if chunk.visibility[n - 1] {
        spec_pretty_rows(chunk, (n - 1) as nat).push(spec_pretty_row(chunk, n - 1))
    } else {
        spec_pretty_rows(chunk, (n - 1) as nat)
    }
}

/// The text that a chunk without a visible row is shown as.
pub open spec fn spec_empty_text() -> Seq<char> {
    "(empty)"@
}

impl StreamChunk {
    /// The visible rows as the rows of a table: for each the sign of its
    /// operation and the texts of its values.
    pub fn pretty_rows(&self) -> (r: Vec<(String, Vec<String>)>)
        requires
            self.wf(),
        ensures
            spec_table_rows_view(r@) == spec_pretty_rows(self.rows(), self.spec_ops().len()),
    {
        let ghost chunk = self.rows();
        let columns = self.data.columns();
        let vis = self.data.vis();
        let mut rows: Vec<(String, Vec<String>)> = Vec::new();
        let mut i: usize = 0;
        assert(spec_table_rows_view(rows@) =~= spec_pretty_rows(chunk, 0));
        while i < self.ops.len()
            invariant
                i <= self.ops@.len(),
                self.wf(),
                chunk == self.rows(),
                spec_columns_view(columns@) == self.spec_columns(),
                *vis == self.spec_vis(),
                spec_table_rows_view(rows@) == spec_pretty_rows(chunk, i as nat),
            decreases self.ops@.len() - i,
        {
            if vis.is_set(i) {
                let sign = match self.ops[i] {
                    Op::Insert => "+",
                    Op::Delete => "-",
                    Op::UpdateDelete => "U-",
                    Op::UpdateInsert => "U+",
                };
                let mut cells: Vec<String> = Vec::new();
                let mut j: usize = 0;
                while j < columns.len()
                    invariant
                        j <= columns@.len(),
                        i < self.ops@.len(),
                        self.wf(),
                        chunk == self.rows(),
                        spec_columns_view(columns@) == self.spec_columns(),
                        cells@.len() == j,
                        forall|k: int|
                            0 <= k < j ==> (#[trigger] cells@[k])@ == spec_datum_text(
                                chunk.columns[k][i as int],
                            ),
                    decreases columns@.len() - j,
                {
                    assert(self.spec_columns()[j as int] == columns@[j as int]@);
                    assert(self.spec_columns()[j as int].len() == self.spec_ops().len());
                    let text = match columns[j][i] {
                        None => String::from_str(""),
                        Some(scalar) => i64_to_decimal(scalar),
                    };
                    cells.push(text);
                    j += 1;
                }
                let ghost before = spec_table_rows_view(rows@);
                let sign = String::from_str(sign);
                let ghost row = (sign@, Seq::new(cells@.len(), |k: int| cells@[k]@));
                rows.push((sign, cells));
                proof {
                    assert(row.1 =~= spec_pretty_row(chunk, i as int).1);
                    assert(spec_table_rows_view(rows@) =~= before.push(row));
                }
            }
            i += 1;
        }
        rows
    }

    /// `to_pretty_string` returns a table-like text representation of the `StreamChunk`.
    pub fn to_pretty_string(&self) -> (r: String)
        requires
            self.wf(),
        ensures
            r@ == if self.spec_data().spec_cardinality() == 0 {
                spec_empty_text()
            } else {
                spec_render_table(
                    PRETTY_TABLE_PRESET@,
                    spec_first_cell_right(spec_pretty_rows(self.rows(), self.spec_ops().len())),
                )
            },
    {
        if self.data.cardinality() == 0 {
            return String::from_str("(empty)");
        }
        let rows = self.pretty_rows();
        proof {
            reveal_strlit("||--+-++|    ++++++");
            reveal_strlit("||--+==+|-+||++++++");
            lemma_full_preset(DEFAULT_TABLE_STROKES@, PRETTY_TABLE_PRESET@);
        }
        render_table(PRETTY_TABLE_PRESET, &rows)
    }
}

} // verus!
