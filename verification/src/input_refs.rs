//! Which columns of a row expressions read.

use crate::expr::{lemma_call_view, spec_exprs_view, ExprImpl, ExprView};
use vstd::prelude::*;

verus! {

/// `fixedbitset::FixedBitSet`, of which nothing but the wrappers below is
/// known.
#[verifier::external_type_specification]
#[verifier::external_body]
pub struct ExFixedBitSet(fixedbitset::FixedBitSet);

/// The bits of the set, one for each place it has.
pub uninterp spec fn spec_bits(s: fixedbitset::FixedBitSet) -> Seq<bool>;

/// `fixedbitset::FixedBitSet::with_capacity`: a set of `bits` places, none
/// of them set.
#[verifier::external_body]
pub(crate) fn bitset_with_capacity(bits: usize) -> (s: fixedbitset::FixedBitSet)
    ensures
        spec_bits(s) == Seq::new(bits as nat, |i: int| false),
{
    fixedbitset::FixedBitSet::with_capacity(bits)
}

/// `fixedbitset::FixedBitSet::len`: the number of places.
#[verifier::external_body]
pub(crate) fn bitset_len(s: &fixedbitset::FixedBitSet) -> (n: usize)
    ensures
        n == spec_bits(*s).len(),
{
    s.len()
}

/// `fixedbitset::FixedBitSet::insert`: sets the bit at a place that the set
/// has.
#[verifier::external_body]
pub(crate) fn bitset_insert(s: &mut fixedbitset::FixedBitSet, bit: usize)
    requires
        bit < spec_bits(*old(s)).len(),
    ensures
        spec_bits(*final(s)) == spec_bits(*old(s)).update(bit as int, true),
{
    s.insert(bit)
}

/// `fixedbitset::FixedBitSet::contains`: whether the bit at a place that
/// the set has is set. Of a place past the last nothing is said: the answer
/// there depends on what was written into the blocks of the set.
#[verifier::external_body]
pub(crate) fn bitset_contains(s: &fixedbitset::FixedBitSet, bit: usize) -> (r: bool)
    ensures
        bit < spec_bits(*s).len() ==> r == spec_bits(*s)[bit as int],
{
    s.contains(bit)
}

/// Whether the expression reads column `column`.
pub open spec fn spec_reads(e: ExprView, column: int) -> bool
    decreases e,
{
    match e {
        ExprView::InputRef { index, .. } => index == column,
        ExprView::Literal { .. } | ExprView::Now => false,
        ExprView::FunctionCall { inputs, .. } => exists|i: int|
            0 <= i < inputs.len() && spec_reads(#[trigger] inputs[i], column),
    }
}

/// Whether one of the first `n` expressions reads column `column`.
pub open spec fn spec_any_reads(exprs: Seq<ExprView>, n: int, column: int) -> bool {
    exists|i: int| 0 <= i < n && i < exprs.len() && spec_reads(#[trigger] exprs[i], column)
}

/// Whether every column that the expression reads lies below `bound`.
pub open spec fn spec_reads_below(e: ExprView, bound: int) -> bool
    decreases e,
{
    match e {
        ExprView::InputRef { index, .. } => index < bound,
        ExprView::Literal { .. } | ExprView::Now => true,
        ExprView::FunctionCall { inputs, .. } => forall|i: int|
            0 <= i < inputs.len() ==> spec_reads_below(#[trigger] inputs[i], bound),
    }
}

/// Collect all `InputRef`s' indexes in the expression.
pub struct CollectInputRef {
    /// All `InputRef`s' indexes are inserted into the `FixedBitSet`.
    input_bits: fixedbitset::FixedBitSet,
}

impl CollectInputRef {
    /// The columns collected so far, one bit for each column.
    pub closed spec fn view(&self) -> Seq<bool> {
        spec_bits(self.input_bits)
    }

    /// Creates a `CollectInputRef` with an initial `input_bits`.
    pub fn new(initial_input_bits: fixedbitset::FixedBitSet) -> (r: Self)
        ensures
            r@ == spec_bits(initial_input_bits),
    {
        CollectInputRef { input_bits: initial_input_bits }
    }

    /// Creates an empty `CollectInputRef` with the given capacity.
    pub fn with_capacity(capacity: usize) -> (r: Self)
        ensures
            r@ == Seq::new(capacity as nat, |i: int| false),
    {
        CollectInputRef { input_bits: bitset_with_capacity(capacity) }
    }

    /// Number of columns that can be collected.
    pub fn capacity(&self) -> (r: usize)
        ensures
            r == self@.len(),
    {
        bitset_len(&self.input_bits)
    }

    /// Whether the column was collected. A column past the last that can
    /// be collected was not.
    pub fn contains(&self, column: usize) -> (r: bool)
        ensures
            r == (column < self@.len() && self@[column as int]),
    {
        column < bitset_len(&self.input_bits) && bitset_contains(&self.input_bits, column)
    }

    /// The columns collected.
    pub fn into_bits(self) -> (r: fixedbitset::FixedBitSet)
        ensures
            spec_bits(r) == self@,
    {
        self.input_bits
    }

    /// Whether the expression reads only columns that can be collected.
    #[verifier::loop_isolation(false)]
    pub fn fits(&self, expr: &ExprImpl) -> (r: bool)
        ensures
            r == spec_reads_below(expr@, self@.len() as int),
        decreases expr,
    {
        match expr {
            ExprImpl::InputRef(x) => x.index < self.capacity(),
            ExprImpl::Literal(_) | ExprImpl::Now(_) => true,
            ExprImpl::FunctionCall(call) => {
                proof {
                    lemma_call_view(*call);
                }
                let ghost views = spec_exprs_view(call.inputs@);
                assert(expr@ == (ExprView::FunctionCall {
                    func_type: call.func_type,
                    return_type: call.return_type,
                    inputs: views,
                }));
                let mut i: usize = 0;
                while i < call.inputs.len()
                    invariant
                        i <= call.inputs@.len(),
                        forall|j: int|
                            0 <= j < i ==> spec_reads_below(#[trigger] views[j], self@.len() as int),
                    decreases call.inputs@.len() - i,
                {
                    assert(views[i as int] == call.inputs@[i as int]@);
                    if !self.fits(&call.inputs[i]) {
                        assert(!spec_reads_below(views[i as int], self@.len() as int));
                        assert(expr@->FunctionCall_inputs == views);
                        assert(expr@->FunctionCall_inputs[i as int] == views[i as int]);
                        assert(spec_reads_below(expr@, self@.len() as int) ==> spec_reads_below(
                            expr@->FunctionCall_inputs[i as int],
                            self@.len() as int,
                        ));
                        return false;
                    }
                    i += 1;
                }
                true
            },
        }
    }

    /// Collects the columns that the expression reads.
    #[verifier::loop_isolation(false)]
    pub fn visit_expr(&mut self, expr: &ExprImpl)
        requires
            spec_reads_below(expr@, old(self)@.len() as int),
        ensures
            final(self)@.len() == old(self)@.len(),
            forall|c: int|
                0 <= c < old(self)@.len() ==> #[trigger] final(self)@[c] == (old(self)@[c]
                    || spec_reads(expr@, c)),
        decreases expr,
    {
        match expr {
            ExprImpl::InputRef(x) => {
                bitset_insert(&mut self.input_bits, x.index);
            },
            ExprImpl::Literal(_) | ExprImpl::Now(_) => {},
            ExprImpl::FunctionCall(call) => {
                proof {
                    lemma_call_view(*call);
                }
                let ghost views = spec_exprs_view(call.inputs@);
                assert(expr@ == (ExprView::FunctionCall {
                    func_type: call.func_type,
                    return_type: call.return_type,
                    inputs: views,
                }));
                let mut i: usize = 0;
                while i < call.inputs.len()
                    invariant
                        i <= call.inputs@.len(),
                        self@.len() == old(self)@.len(),
                        forall|c: int|
                            0 <= c < old(self)@.len() ==> #[trigger] self@[c] == (old(self)@[c]
                                || spec_any_reads(views, i as int, c)),
                    decreases call.inputs@.len() - i,
                {
                    assert(views[i as int] == call.inputs@[i as int]@);
                    assert(spec_reads_below(expr@, old(self)@.len() as int));
                    assert(expr@->FunctionCall_inputs[i as int] == views[i as int]);
                    assert(spec_reads_below(views[i as int], self@.len() as int));
                    let ghost before = self@;
                    self.visit_expr(&call.inputs[i]);
                    proof {
                        assert forall|c: int| 0 <= c < old(self)@.len() implies #[trigger] self@[c]
                            == (old(self)@[c] || spec_any_reads(views, i + 1, c)) by {
                            assert(self@[c] == (before[c] || spec_reads(views[i as int], c)));
                            if spec_any_reads(views, i + 1, c) && !spec_any_reads(
                                views,
                                i as int,
                                c,
                            ) {
                                let k = choose|k: int|
                                    0 <= k < i + 1 && k < views.len() && spec_reads(
                                        #[trigger] views[k],
                                        c,
                                    );
                                assert(k == i);
                            }
                        }
                    }
                    i += 1;
                }
                proof {
                    assert forall|c: int| 0 <= c < old(self)@.len() implies #[trigger] self@[c] == (
                    old(self)@[c] || spec_reads(expr@, c)) by {
                        assert(expr@->FunctionCall_inputs == views);
                        if spec_reads(expr@, c) {
                            let k = choose|k: int|
                                0 <= k < views.len() && spec_reads(#[trigger] views[k], c);
                            assert(spec_any_reads(views, views.len() as int, c));
                        }
                        if spec_any_reads(views, views.len() as int, c) {
                            let k = choose|k: int|
                                0 <= k < views.len() && spec_reads(#[trigger] views[k], c);
                            assert(spec_reads(expr@->FunctionCall_inputs[k], c));
                        }
                    }
                }
            },
        }
    }
}

/// Collect all `InputRef`s' indexes in the expressions: bit `c` of the
/// result is set exactly where one of the expressions reads column `c`.
pub fn collect_input_refs(input_col_num: usize, exprs: &Vec<ExprImpl>) -> (r:
    fixedbitset::FixedBitSet)
    requires
        forall|i: int|
            0 <= i < exprs@.len() ==> spec_reads_below(
                #[trigger] spec_exprs_view(exprs@)[i],
                input_col_num as int,
            ),
    ensures
        spec_bits(r).len() == input_col_num,
        forall|c: int|
            0 <= c < input_col_num ==> #[trigger] spec_bits(r)[c] == spec_any_reads(
                spec_exprs_view(exprs@),
                exprs@.len() as int,
                c,
            ),
{
    let ghost views = spec_exprs_view(exprs@);
    let mut input_ref_collector = CollectInputRef::with_capacity(input_col_num);
    let mut i: usize = 0;
    while i < exprs.len()
        invariant
            i <= exprs@.len(),
            views == spec_exprs_view(exprs@),
            forall|k: int|
                0 <= k < exprs@.len() ==> spec_reads_below(#[trigger] views[k], input_col_num as int),
            input_ref_collector@.len() == input_col_num,
            forall|c: int|
                0 <= c < input_col_num ==> #[trigger] input_ref_collector@[c] == spec_any_reads(
                    views,
                    i as int,
                    c,
                ),
        decreases exprs@.len() - i,
    {
        assert(views[i as int] == exprs@[i as int]@);
        let ghost before = input_ref_collector@;
        input_ref_collector.visit_expr(&exprs[i]);
        proof {
            assert forall|c: int| 0 <= c < input_col_num implies #[trigger] input_ref_collector@[c]
                == spec_any_reads(views, i + 1, c) by {
                assert(input_ref_collector@[c] == (before[c] || spec_reads(views[i as int], c)));
                if spec_any_reads(views, i + 1, c) && !spec_any_reads(views, i as int, c) {
                    let k = choose|k: int|
                        0 <= k < i + 1 && k < views.len() && spec_reads(#[trigger] views[k], c);
                    assert(k == i);
                }
            }
        }
        i += 1;
    }
    input_ref_collector.into_bits()
}

} // verus!
