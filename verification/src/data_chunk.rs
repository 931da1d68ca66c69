//! A batch of rows, stored column by column, with a visibility mark for
//! each row.

use vstd::prelude::*;

verus! {

/// One value of a row; `None` is NULL.
pub type Datum = Option<i64>;

/// One column of a chunk: a value for every row.
pub type Column = Vec<Datum>;

/// The type of a column.
#[derive(Clone, Copy, Debug, PartialEq, Eq, Structural)]
pub enum DataType {
    Boolean,
    Int32,
    Int64,
    Varchar,
    Timestamp,
    Timestamptz,
    Interval,
}

/// Which rows of a chunk are visible.
#[derive(Clone, Debug, PartialEq, Eq)]
pub enum Vis {
    /// One mark per row.
    Bitmap(Vec<bool>),
    /// Every one of that many rows is visible.
    Compact(usize),
}

/// The marks that a `Vis` stands for, one per row.
pub open spec fn spec_vis_bits(vis: Vis) -> Seq<bool> {
    match vis {
        Vis::Bitmap(b) => b@,
        Vis::Compact(n) => Seq::new(n as nat, |i: int| true),
    }
}

/// How many of the first `n` marks are set.
pub open spec fn spec_count_ones(bits: Seq<bool>, n: nat) -> nat
    decreases n,
{
    if n == 0 {
        0
    } else if bits[n - 1] {
        spec_count_ones(bits, (n - 1) as nat) + 1
    } else {
        spec_count_ones(bits, (n - 1) as nat)
    }
}

/// Of the first `n` items of `s`, those whose mark is set, in their order.
pub open spec fn spec_select<T>(s: Seq<T>, bits: Seq<bool>, n: nat) -> Seq<T>
    decreases n,
{
    if n == 0 {
        Seq::empty()
    } else if bits[n - 1] {
        spec_select(s, bits, (n - 1) as nat).push(s[n - 1])
    } else {
        spec_select(s, bits, (n - 1) as nat)
    }
}

/// As many items are selected as marks are set.
pub proof fn lemma_select_len<T>(s: Seq<T>, bits: Seq<bool>, n: nat)
    ensures
        spec_select(s, bits, n).len() == spec_count_ones(bits, n),
        spec_count_ones(bits, n) <= n,
    decreases n,
{
    if n > 0 {
        lemma_select_len(s, bits, (n - 1) as nat);
    }
}

/// The columns of a chunk, as plain values.
pub open spec fn spec_columns_view(columns: Seq<Column>) -> Seq<Seq<Datum>> {
    Seq::new(columns.len(), |i: int| columns[i]@)
}

/// The columns at `indices`, in that order.
pub open spec fn spec_project(columns: Seq<Seq<Datum>>, indices: Seq<usize>) -> Seq<Seq<Datum>> {
    Seq::new(indices.len(), |i: int| columns[indices[i] as int])
}

/// A copy of a column.
pub fn clone_column(column: &Column) -> (r: Column)
    ensures
        r@ == column@,
{
    let mut r: Column = Vec::new();
    let mut i: usize = 0;
    while i < column.len()
        invariant
            i <= column@.len(),
            r@ == column@.subrange(0, i as int),
        decreases column@.len() - i,
    {
        r.push(column[i]);
        assert(r@ =~= column@.subrange(0, i + 1));
        i += 1;
    }
    assert(column@.subrange(0, i as int) =~= column@);
    r
}

/// A copy of a list of marks.
pub fn clone_bits(bits: &Vec<bool>) -> (r: Vec<bool>)
    ensures
        r@ == bits@,
{
    let mut r: Vec<bool> = Vec::new();
    let mut i: usize = 0;
    while i < bits.len()
        invariant
            i <= bits@.len(),
            r@ == bits@.subrange(0, i as int),
        decreases bits@.len() - i,
    {
        r.push(bits[i]);
        assert(r@ =~= bits@.subrange(0, i + 1));
        i += 1;
    }
    assert(bits@.subrange(0, i as int) =~= bits@);
    r
}

/// The items of `items` whose mark in `bits` is set, in their order.
pub fn select<T: Copy>(items: &Vec<T>, bits: &Vec<bool>) -> (r: Vec<T>)
    requires
        items@.len() == bits@.len(),
    ensures
        r@ == spec_select(items@, bits@, items@.len()),
{
    let mut r: Vec<T> = Vec::new();
    let mut i: usize = 0;
    while i < items.len()
        invariant
            i <= items@.len(),
            items@.len() == bits@.len(),
            r@ == spec_select(items@, bits@, i as nat),
        decreases items@.len() - i,
    {
        if bits[i] {
            r.push(items[i]);
        }
        i += 1;
    }
    r
}

impl Vis {
    /// Number of rows that the marks cover.
    pub open spec fn spec_len(&self) -> nat {
        spec_vis_bits(*self).len()
    }

    /// Number of rows that the marks cover.
    pub fn len(&self) -> (r: usize)
        ensures
            r == self.spec_len(),
    {
        match self {
            Vis::Bitmap(b) => b.len(),
            Vis::Compact(n) => *n,
        }
    }

    /// The marks, where they are stored one by one; `None` where every row
    /// is visible.
    pub fn into_visibility(self) -> (r: Option<Vec<bool>>)
        ensures
            match self {
                Vis::Bitmap(b) => r == Some(b),
                Vis::Compact(_) => r is None,
            },
    {
        match self {
            Vis::Bitmap(b) => Some(b),
            Vis::Compact(_) => None,
        }
    }

    /// Whether row `i` is visible.
    pub fn is_set(&self, i: usize) -> (r: bool)
        requires
            i < self.spec_len(),
        ensures
            r == spec_vis_bits(*self)[i as int],
    {
        match self {
            Vis::Bitmap(b) => b[i],
            Vis::Compact(_) => true,
        }
    }

    /// A copy of the marks.
    pub fn duplicate(&self) -> (r: Vis)
        ensures
            r is Bitmap <==> self is Bitmap,
            spec_vis_bits(r) == spec_vis_bits(*self),
            r matches Vis::Compact(n) ==> *self == Vis::Compact(n),
    {
        match self {
            Vis::Bitmap(b) => Vis::Bitmap(clone_bits(b)),
            Vis::Compact(n) => Vis::Compact(*n),
        }
    }
}

/// Columns of equal length, and which of their rows are visible.
#[derive(Clone, Debug, PartialEq, Eq)]
pub struct DataChunk {
    columns: Vec<Column>,
    vis: Vis,
}

impl DataChunk {
    /// The columns, as plain values.
    pub closed spec fn spec_columns(&self) -> Seq<Seq<Datum>> {
        spec_columns_view(self.columns@)
    }

    /// The visibility.
    pub closed spec fn spec_vis(&self) -> Vis {
        self.vis
    }

    /// The invariant: every column has a value for every row that the
    /// visibility covers.
    pub open spec fn wf(&self) -> bool {
        forall|i: int|
            0 <= i < self.spec_columns().len() ==> (#[trigger] self.spec_columns()[i]).len()
                == self.spec_vis().spec_len()
    }

    /// Number of rows, visible or not.
    pub open spec fn spec_capacity(&self) -> nat {
        self.spec_vis().spec_len()
    }

    /// Number of visible rows.
    pub open spec fn spec_cardinality(&self) -> nat {
        spec_count_ones(spec_vis_bits(self.spec_vis()), self.spec_capacity())
    }

    /// The chunk of `columns` with visibility `vis`.
    pub fn new(columns: Vec<Column>, vis: Vis) -> (r: Self)
        requires
            forall|i: int| 0 <= i < columns@.len() ==> (#[trigger] columns@[i])@.len() == vis.spec_len(),
        ensures
            r.wf(),
            r.spec_columns() == spec_columns_view(columns@),
            r.spec_vis() == vis,
    {
        DataChunk { columns, vis }
    }

    /// The columns and the visibility.
    pub fn into_parts(self) -> (r: (Vec<Column>, Vis))
        ensures
            spec_columns_view(r.0@) == self.spec_columns(),
            r.1 == self.spec_vis(),
    {
        (self.columns, self.vis)
    }

    /// The columns.
    pub fn columns(&self) -> (r: &Vec<Column>)
        ensures
            spec_columns_view(r@) == self.spec_columns(),
    {
        &self.columns
    }

    /// The visibility.
    pub fn vis(&self) -> (r: &Vis)
        ensures
            *r == self.spec_vis(),
    {
        &self.vis
    }

    /// Number of rows, visible or not.
    pub fn capacity(&self) -> (r: usize)
        ensures
            r == self.spec_capacity(),
    {
        self.vis.len()
    }

    /// Number of visible rows.
    pub fn cardinality(&self) -> (r: usize)
        ensures
            r == self.spec_cardinality(),
    {
        match &self.vis {
            Vis::Compact(n) => {
                proof {
                    lemma_count_all_set(spec_vis_bits(self.vis), *n as nat);
                }
                *n
            },
            Vis::Bitmap(b) => {
                let mut count: usize = 0;
                let mut i: usize = 0;
                while i < b.len()
                    invariant
                        i <= b@.len(),
                        count == spec_count_ones(b@, i as nat),
                        count <= i,
                    decreases b@.len() - i,
                {
                    if b[i] {
                        count += 1;
                    }
                    i += 1;
                }
                count
            },
        }
    }

    /// The chunk with the columns at `indices`, in that order, and the same
    /// visibility.
    pub fn project(&self, indices: &[usize]) -> (r: Self)
        requires
            self.wf(),
            forall|i: int| 0 <= i < indices@.len() ==> (#[trigger] indices@[i]) < self.spec_columns().len(),
        ensures
            r.wf(),
            r.spec_columns() == spec_project(self.spec_columns(), indices@),
            spec_vis_bits(r.spec_vis()) == spec_vis_bits(self.spec_vis()),
    {
        self.project_with_vis(indices, self.vis.duplicate())
    }

    /// The chunk with the columns at `indices`, in that order, and the
    /// visibility `vis`.
    pub fn project_with_vis(&self, indices: &[usize], vis: Vis) -> (r: Self)
        requires
            self.wf(),
            vis.spec_len() == self.spec_capacity(),
            forall|i: int| 0 <= i < indices@.len() ==> (#[trigger] indices@[i]) < self.spec_columns().len(),
        ensures
            r.wf(),
            r.spec_columns() == spec_project(self.spec_columns(), indices@),
            r.spec_vis() == vis,
    {
        let mut columns: Vec<Column> = Vec::new();
        let mut i: usize = 0;
        while i < indices.len()
            invariant
                i <= indices@.len(),
                self.wf(),
                forall|k: int| 0 <= k < indices@.len() ==> (#[trigger] indices@[k]) < self.columns@.len(),
                columns@.len() == i,
                forall|k: int| 0 <= k < i ==> (#[trigger] columns@[k])@ == self.columns@[indices@[k] as int]@,
            decreases indices@.len() - i,
        {
            columns.push(clone_column(&self.columns[indices[i]]));
            i += 1;
        }
        proof {
            assert(spec_columns_view(columns@) =~= spec_project(self.spec_columns(), indices@));
            assert forall|k: int| 0 <= k < columns@.len() implies (#[trigger] columns@[k])@.len()
                == vis.spec_len() by {
                assert(self.spec_columns()[indices@[k] as int].len() == self.spec_vis().spec_len());
            }
        }
        DataChunk { columns, vis }
    }

    /// A copy of the chunk.
    pub fn duplicate(&self) -> (r: Self)
        ensures
            r.wf() == self.wf(),
            r.spec_columns() == self.spec_columns(),
            spec_vis_bits(r.spec_vis()) == spec_vis_bits(self.spec_vis()),
            r.spec_vis() is Bitmap <==> self.spec_vis() is Bitmap,
    {
        let mut columns: Vec<Column> = Vec::new();
        let mut i: usize = 0;
        while i < self.columns.len()
            invariant
                i <= self.columns@.len(),
                columns@.len() == i,
                forall|k: int| 0 <= k < i ==> (#[trigger] columns@[k])@ == self.columns@[k]@,
            decreases self.columns@.len() - i,
        {
            columns.push(clone_column(&self.columns[i]));
            i += 1;
        }
        let vis = self.vis.duplicate();
        assert(spec_columns_view(columns@) =~= self.spec_columns());
        let r = DataChunk { columns, vis };
        proof {
            assert(r.spec_vis().spec_len() == self.spec_vis().spec_len());
            if self.wf() {
                assert forall|i: int| 0 <= i < r.spec_columns().len() implies (
                #[trigger] r.spec_columns()[i]).len() == r.spec_vis().spec_len() by {
                    assert(self.spec_columns()[i].len() == self.spec_vis().spec_len());
                }
            }
            if r.wf() {
                assert forall|i: int| 0 <= i < self.spec_columns().len() implies (
                #[trigger] self.spec_columns()[i]).len() == self.spec_vis().spec_len() by {
                    assert(r.spec_columns()[i].len() == r.spec_vis().spec_len());
                }
            }
        }
        r
    }

    /// The chunk with the same columns and the visibility `vis`.
    pub fn with_visibility(&self, vis: Vis) -> (r: Self)
        requires
            self.wf(),
            vis.spec_len() == self.spec_capacity(),
        ensures
            r.wf(),
            r.spec_columns() == self.spec_columns(),
            r.spec_vis() == vis,
    {
        let mut columns: Vec<Column> = Vec::new();
        let mut i: usize = 0;
        while i < self.columns.len()
            invariant
                i <= self.columns@.len(),
                columns@.len() == i,
                forall|k: int| 0 <= k < i ==> (#[trigger] columns@[k])@ == self.columns@[k]@,
            decreases self.columns@.len() - i,
        {
            columns.push(clone_column(&self.columns[i]));
            i += 1;
        }
        proof {
            assert(spec_columns_view(columns@) =~= self.spec_columns());
            assert forall|k: int| 0 <= k < columns@.len() implies (#[trigger] columns@[k])@.len()
                == vis.spec_len() by {
                assert(self.spec_columns()[k].len() == self.spec_vis().spec_len());
            }
        }
        DataChunk { columns, vis }
    }
}

/// Where every mark is set, as many are set as there are.
pub proof fn lemma_count_all_set(bits: Seq<bool>, n: nat)
    requires
        forall|i: int| 0 <= i < n ==> bits[i],
    ensures
        spec_count_ones(bits, n) == n,
    decreases n,
{
    if n > 0 {
        lemma_count_all_set(bits, (n - 1) as nat);
    }
}

} // verus!
