//! Taking the common conjuncts out of a disjunction:
//! `(a AND b) OR (a AND c)` holds exactly when `a` and `b OR c` do.

use crate::expr::{lemma_call_view, spec_arity_ok, spec_exprs_view, ExprImpl, ExprType, ExprView};
use crate::expr_utils::{
    fold_boolean_constant, lemma_arity_ok_is_foldable, merge_expr_by_binary, spec_fold,
    spec_fold_all, spec_foldable, spec_literal_bool, spec_merge, spec_split, spec_split_first,
    split_expr_by,
};
use vstd::prelude::*;

verus! {

/// Whether two expressions are the same.
#[verifier::loop_isolation(false)]
pub fn same_expr(a: &ExprImpl, b: &ExprImpl) -> (r: bool)
    ensures
        r == (a@ == b@),
    decreases a,
{
    match (a, b) {
        (ExprImpl::InputRef(x), ExprImpl::InputRef(y)) => x.index == y.index && x.data_type
            == y.data_type,
        (ExprImpl::Literal(x), ExprImpl::Literal(y)) => {
            let same_data = match (&x.data, &y.data) {
                (Some(v), Some(w)) => v.same(w),
                (None, None) => true,
                _ => false,
            };
            same_data && x.data_type == y.data_type
        },
        (ExprImpl::FunctionCall(x), ExprImpl::FunctionCall(y)) => {
            proof {
                lemma_call_view(*x);
                lemma_call_view(*y);
            }
            let ghost xs = spec_exprs_view(x.inputs@);
            let ghost ys = spec_exprs_view(y.inputs@);
            assert(a@ == (ExprView::FunctionCall {
                func_type: x.func_type,
                return_type: x.return_type,
                inputs: xs,
            }));
            assert(b@ == (ExprView::FunctionCall {
                func_type: y.func_type,
                return_type: y.return_type,
                inputs: ys,
            }));
            let same_head = x.func_type == y.func_type && x.return_type == y.return_type
                && x.inputs.len() == y.inputs.len();
            if !same_head {
                assert(xs.len() == x.inputs@.len() && ys.len() == y.inputs@.len());
                assert(a@ != b@);
                return false;
            }
            let mut i: usize = 0;
            while i < x.inputs.len()
                invariant
                    i <= x.inputs@.len(),
                    forall|j: int| 0 <= j < i ==> xs[j] == ys[j],
                decreases x.inputs@.len() - i,
            {
                assert(xs[i as int] == x.inputs@[i as int]@);
                assert(ys[i as int] == y.inputs@[i as int]@);
                if !same_expr(&x.inputs[i], &y.inputs[i]) {
                    assert(xs[i as int] != ys[i as int]);
                    assert(xs != ys);
                    assert(a@->FunctionCall_inputs == xs);
                    assert(b@->FunctionCall_inputs == ys);
                    return false;
                }
                i += 1;
            }
            assert(xs =~= ys);
            true
        },
        (ExprImpl::Now(_), ExprImpl::Now(_)) => true,
        _ => false,
    }
}

/// Whether the expression is one of `list`.
pub fn contains_expr(list: &Vec<ExprImpl>, expr: &ExprImpl) -> (r: bool)
    ensures
        r == spec_exprs_view(list@).contains(expr@),
{
    let ghost views = spec_exprs_view(list@);
    let mut i: usize = 0;
    while i < list.len()
        invariant
            i <= list@.len(),
            views == spec_exprs_view(list@),
            forall|j: int| 0 <= j < i ==> views[j] != expr@,
        decreases list@.len() - i,
    {
        assert(views[i as int] == list@[i as int]@);
        if same_expr(&list[i], expr) {
            return true;
        }
        i += 1;
    }
    false
}

/// The views of lists of expressions.
pub open spec fn spec_lists_view(lists: Seq<Vec<ExprImpl>>) -> Seq<Seq<ExprView>> {
    Seq::new(lists.len(), |i: int| spec_exprs_view(lists[i]@))
}

/// The expressions that are in every one of `lists`.
pub open spec fn spec_in_all(lists: Seq<Seq<ExprView>>) -> spec_fn(ExprView) -> bool {
    |f: ExprView| forall|i: int| 0 <= i < lists.len() ==> (#[trigger] lists[i]).contains(f)
}

/// The expressions that are not in `list`.
pub open spec fn spec_not_in(list: Seq<ExprView>) -> spec_fn(ExprView) -> bool {
    |f: ExprView| !list.contains(f)
}

/// The conjuncts of each of the expressions.
pub open spec fn spec_conjunctions_of(ds: Seq<ExprView>) -> Seq<Seq<ExprView>> {
    Seq::new(ds.len(), |i: int| spec_split(ds[i], ExprType::And))
}

/// The conjuncts of the last list that every other list has too.
pub open spec fn spec_common_factors(conjunctions: Seq<Seq<ExprView>>) -> Seq<ExprView> {
    conjunctions.last().filter(spec_in_all(conjunctions.drop_last()))
}

/// Each list without the common conjuncts, joined by `AND`.
pub open spec fn spec_reduced(conjunctions: Seq<Seq<ExprView>>, common: Seq<ExprView>) -> Seq<
    ExprView,
> {
    Seq::new(
        conjunctions.len(),
        |i: int|
            {
                let kept = conjunctions[i].filter(spec_not_in(common));
                spec_merge(kept, ExprType::And, spec_literal_bool(true), kept.len())
            },
    )
}

/// The conjuncts that a condition is factored into: the conjuncts that
/// all its disjuncts share, and the disjunction of what is left of each
/// disjunct, each with its constants folded. A condition that is no
/// disjunction is its own single factor.
pub open spec fn spec_factorization(e: ExprView) -> Seq<ExprView> {
    let disjunctions = spec_split(e, ExprType::Or);
    if disjunctions.len() == 1 {
        disjunctions
    } else {
        let conjunctions = spec_conjunctions_of(disjunctions);
        let common = spec_common_factors(conjunctions);
        let reduced = spec_reduced(conjunctions, common);
        let remaining = spec_merge(reduced, ExprType::Or, spec_literal_bool(false), reduced.len());
        spec_fold_all(common.push(remaining))
    }
}

/// Taking an expression apart leaves calls with the right number of
/// arguments, and gives at least one part.
pub proof fn lemma_split_arity(e: ExprView, op: ExprType)
    requires
        spec_arity_ok(e),
        crate::expr::spec_arity(op) >= 1,
    ensures
        spec_split(e, op).len() >= 1,
        forall|i: int| 0 <= i < spec_split(e, op).len() ==> spec_arity_ok(#[trigger] spec_split(e, op)[i]),
    decreases e,
{
    match e {
        ExprView::FunctionCall { func_type, inputs, .. } => {
            if func_type == op {
                lemma_split_first_arity(inputs, op, inputs.len());
            }
        },
        _ => {},
    }
}

proof fn lemma_split_first_arity(inputs: Seq<ExprView>, op: ExprType, n: nat)
    requires
        n <= inputs.len(),
        crate::expr::spec_arity(op) >= 1,
        forall|i: int| 0 <= i < inputs.len() ==> spec_arity_ok(#[trigger] inputs[i]),
    ensures
        spec_split_first(inputs, op, n).len() >= n,
        forall|i: int|
            0 <= i < spec_split_first(inputs, op, n).len() ==> spec_arity_ok(
                #[trigger] spec_split_first(inputs, op, n)[i],
            ),
    decreases inputs, n,
{
    if n > 0 {
        lemma_split_first_arity(inputs, op, (n - 1) as nat);
        lemma_split_arity(inputs[n - 1], op);
    }
}

/// Joining expressions that can be folded gives such an expression.
pub proof fn lemma_merge_foldable(exprs: Seq<ExprView>, op: ExprType, identity: ExprView, n: nat)
    requires
        n <= exprs.len(),
        crate::expr::spec_arity(op) == 2,
        spec_foldable(identity),
        forall|i: int| 0 <= i < exprs.len() ==> spec_foldable(#[trigger] exprs[i]),
    ensures
        spec_foldable(spec_merge(exprs, op, identity, n)),
    decreases n,
{
    if n > 1 {
        lemma_merge_foldable(exprs, op, identity, (n - 1) as nat);
        let joined = seq![spec_merge(exprs, op, identity, (n - 1) as nat), exprs[n - 1]];
        assert forall|i: int| 0 <= i < joined.len() implies spec_foldable(#[trigger] joined[i]) by {}
        assert(spec_fold_all(joined).len() == 2);
    }
}

/// Whether the condition can be factored: it has a disjunct, and where it
/// has several, each conjunct of each of them can be folded.
pub open spec fn spec_factorable(e: ExprView) -> bool {
    let disjunctions = spec_split(e, ExprType::Or);
    let conjunctions = spec_conjunctions_of(disjunctions);
    &&& disjunctions.len() >= 1
    &&& disjunctions.len() > 1 ==> forall|j: int, f: int|
        0 <= j < conjunctions.len() && 0 <= f < conjunctions[j].len() ==> spec_foldable(
            #[trigger] conjunctions[j][f],
        )
}

/// A condition whose calls have as many arguments as their functions take
/// can be factored.
pub proof fn lemma_arity_ok_is_factorable(e: ExprView)
    requires
        spec_arity_ok(e),
    ensures
        spec_factorable(e),
{
    let disjunctions = spec_split(e, ExprType::Or);
    let conjunctions = spec_conjunctions_of(disjunctions);
    lemma_split_arity(e, ExprType::Or);
    assert forall|j: int, f: int|
        0 <= j < conjunctions.len() && 0 <= f < conjunctions[j].len() implies spec_foldable(
        #[trigger] conjunctions[j][f],
    ) by {
        lemma_split_arity(disjunctions[j], ExprType::And);
        lemma_arity_ok_is_foldable(conjunctions[j][f]);
    }
}

/// The expressions of `list` that are not in `common`.
fn without(list: &Vec<ExprImpl>, common: &Vec<ExprImpl>) -> (r: Vec<ExprImpl>)
    ensures
        spec_exprs_view(r@) == spec_exprs_view(list@).filter(
            spec_not_in(spec_exprs_view(common@)),
        ),
{
    let ghost views = spec_exprs_view(list@);
    let ghost pred = spec_not_in(spec_exprs_view(common@));
    let mut kept: Vec<ExprImpl> = Vec::new();
    let mut i: usize = 0;
    proof {
        reveal(Seq::filter);
        assert(views.subrange(0, 0) =~= Seq::empty());
        assert(spec_exprs_view(kept@) =~= views.subrange(0, 0).filter(pred));
    }
    while i < list.len()
        invariant
            i <= list@.len(),
            views == spec_exprs_view(list@),
            pred == spec_not_in(spec_exprs_view(common@)),
            spec_exprs_view(kept@) == views.subrange(0, i as int).filter(pred),
        decreases list@.len() - i,
    {
        assert(views[i as int] == list@[i as int]@);
        assert(views.subrange(0, i + 1).drop_last() =~= views.subrange(0, i as int));
        assert(views.subrange(0, i + 1).last() == views[i as int]);
        let ghost before = spec_exprs_view(kept@);
        let ghost longer = views.subrange(0, i + 1);
        proof {
            reveal(Seq::filter);
        }
        assert(pred(views[i as int]) == !spec_exprs_view(common@).contains(views[i as int]));
        assert(longer.filter(pred) == if pred(longer.last()) {
            longer.drop_last().filter(pred).push(longer.last())
        } else {
            longer.drop_last().filter(pred)
        });
        if !contains_expr(common, &list[i]) {
            kept.push(list[i].duplicate());
            assert(spec_exprs_view(kept@) =~= before.push(views[i as int]));
        }
        i += 1;
    }
    assert(views.subrange(0, i as int) =~= views);
    kept
}

/// Whether each of the first `n` lists has the expression.
fn in_all(lists: &Vec<Vec<ExprImpl>>, n: usize, expr: &ExprImpl) -> (r: bool)
    requires
        n <= lists@.len(),
    ensures
        r == spec_in_all(spec_lists_view(lists@).subrange(0, n as int))(expr@),
{
    let ghost views = spec_lists_view(lists@).subrange(0, n as int);
    let mut i: usize = 0;
    while i < n
        invariant
            i <= n <= lists@.len(),
            views == spec_lists_view(lists@).subrange(0, n as int),
            forall|j: int| 0 <= j < i ==> (#[trigger] views[j]).contains(expr@),
        decreases n - i,
    {
        assert(views[i as int] == spec_exprs_view(lists@[i as int]@));
        if !contains_expr(&lists[i], expr) {
            assert(!views[i as int].contains(expr@));
            return false;
        }
        i += 1;
    }
    true
}

/// The conjuncts of each of the expressions.
fn conjunctions_of(disjunctions: &Vec<ExprImpl>) -> (r: Vec<Vec<ExprImpl>>)
    ensures
        spec_lists_view(r@) == spec_conjunctions_of(spec_exprs_view(disjunctions@)),
{
    let ghost ds = spec_exprs_view(disjunctions@);
    let ghost conj = spec_conjunctions_of(ds);
    let mut conjunctions: Vec<Vec<ExprImpl>> = Vec::new();
    let mut i: usize = 0;
    while i < disjunctions.len()
        invariant
            i <= disjunctions@.len(),
            ds == spec_exprs_view(disjunctions@),
            conj == spec_conjunctions_of(ds),
            conjunctions@.len() == i,
            forall|j: int| 0 <= j < i ==> spec_exprs_view((#[trigger] conjunctions@[j])@) == conj[j],
        decreases disjunctions@.len() - i,
    {
        assert(ds[i as int] == disjunctions@[i as int]@);
        let mut parts: Vec<ExprImpl> = Vec::new();
        split_expr_by(&disjunctions[i], ExprType::And, &mut parts);
        assert(spec_exprs_view(parts@) =~= conj[i as int]);
        conjunctions.push(parts);
        i += 1;
    }
    assert(spec_lists_view(conjunctions@) =~= conj);
    conjunctions
}

/// The conjuncts of the last list that every other list has too.
fn common_factors(conjunctions: &Vec<Vec<ExprImpl>>) -> (r: Vec<ExprImpl>)
    requires
        conjunctions@.len() >= 1,
    ensures
        spec_exprs_view(r@) == spec_common_factors(spec_lists_view(conjunctions@)),
{
    let ghost conj = spec_lists_view(conjunctions@);
    let last = conjunctions.len() - 1;
    let ghost others = conj.drop_last();
    let ghost pred = spec_in_all(others);
    let ghost factors = conj.last();
    assert(spec_lists_view(conjunctions@).subrange(0, last as int) =~= others);
    assert(factors == spec_exprs_view(conjunctions@[last as int]@));
    let mut common: Vec<ExprImpl> = Vec::new();
    let mut k: usize = 0;
    proof {
        reveal(Seq::filter);
        assert(factors.subrange(0, 0) =~= Seq::empty());
        assert(spec_exprs_view(common@) =~= factors.subrange(0, 0).filter(pred));
    }
    while k < conjunctions[last].len()
        invariant
            last == conjunctions@.len() - 1,
            k <= conjunctions@[last as int]@.len(),
            factors == spec_exprs_view(conjunctions@[last as int]@),
            pred == spec_in_all(others),
            spec_lists_view(conjunctions@).subrange(0, last as int) == others,
            spec_exprs_view(common@) == factors.subrange(0, k as int).filter(pred),
        decreases conjunctions@[last as int]@.len() - k,
    {
        let factor = &conjunctions[last][k];
        let ghost before = spec_exprs_view(common@);
        let ghost longer = factors.subrange(0, k + 1);
        proof {
            reveal(Seq::filter);
            assert(factors[k as int] == factor@);
            assert(longer.drop_last() =~= factors.subrange(0, k as int));
            assert(longer.last() == factor@);
        }
        if in_all(conjunctions, last, factor) {
            common.push(factor.duplicate());
            assert(spec_exprs_view(common@) =~= before.push(factor@));
        }
        k += 1;
    }
    assert(factors.subrange(0, k as int) =~= factors);
    common
}

/// Each list without the common conjuncts, joined by `AND`.
fn reduce(conjunctions: &Vec<Vec<ExprImpl>>, common: &Vec<ExprImpl>) -> (r: Vec<ExprImpl>)
    ensures
        spec_exprs_view(r@) == spec_reduced(
            spec_lists_view(conjunctions@),
            spec_exprs_view(common@),
        ),
{
    let ghost conj = spec_lists_view(conjunctions@);
    let ghost reduced = spec_reduced(conj, spec_exprs_view(common@));
    let mut merged: Vec<ExprImpl> = Vec::new();
    let mut m: usize = 0;
    while m < conjunctions.len()
        invariant
            m <= conjunctions@.len(),
            conj == spec_lists_view(conjunctions@),
            reduced == spec_reduced(conj, spec_exprs_view(common@)),
            merged@.len() == m,
            forall|j: int| 0 <= j < m ==> (#[trigger] merged@[j])@ == reduced[j],
        decreases conjunctions@.len() - m,
    {
        assert(conj[m as int] == spec_exprs_view(conjunctions@[m as int]@));
        let kept = without(&conjunctions[m], common);
        let joined = merge_expr_by_binary(kept, ExprType::And, ExprImpl::literal_bool(true));
        merged.push(joined);
        m += 1;
    }
    assert(spec_exprs_view(merged@) =~= reduced);
    merged
}

/// Each of the expressions with its constants folded.
fn fold_each(factors: &Vec<ExprImpl>) -> (r: Vec<ExprImpl>)
    requires
        forall|j: int|
            0 <= j < factors@.len() ==> spec_foldable(#[trigger] spec_exprs_view(factors@)[j]),
    ensures
        spec_exprs_view(r@) == spec_fold_all(spec_exprs_view(factors@)),
{
    let ghost views = spec_exprs_view(factors@);
    let mut result: Vec<ExprImpl> = Vec::new();
    let mut f: usize = 0;
    while f < factors.len()
        invariant
            f <= factors@.len(),
            views == spec_exprs_view(factors@),
            forall|j: int| 0 <= j < views.len() ==> spec_foldable(#[trigger] views[j]),
            result@.len() == f,
            forall|j: int| 0 <= j < f ==> (#[trigger] result@[j])@ == spec_fold(views[j]),
        decreases factors@.len() - f,
    {
        assert(views[f as int] == factors@[f as int]@);
        result.push(fold_boolean_constant(factors[f].duplicate()));
        f += 1;
    }
    assert(spec_exprs_view(result@) =~= spec_fold_all(views));
    result
}

/// Factors a condition: the result is the conjuncts that all its
/// disjuncts share, followed by the disjunction of what is left of each
/// disjunct. `(a AND b AND c) OR (b AND c) OR (c AND d)` gives `c` and
/// `(a AND b) OR b OR d`.
pub fn factorization_expr(expr: ExprImpl) -> (r: Vec<ExprImpl>)
    requires
        spec_factorable(expr@),
    ensures
        spec_exprs_view(r@) == spec_factorization(expr@),
{
    // For example, we assume that expr is (A & B & C & D) | (B & C & D) | (C & D & E)
    let mut disjunctions: Vec<ExprImpl> = Vec::new();
    split_expr_by(&expr, ExprType::Or, &mut disjunctions);
    let ghost ds = spec_split(expr@, ExprType::Or);
    proof {
        assert(spec_exprs_view(disjunctions@) =~= ds);
    }
    // if `expr` can not be divided into several disjunctions...
    if disjunctions.len() == 1 {
        return disjunctions;
    }
    // extract (A & B & C & D) | (B & C & D) | (C & D & E)
    // into [[A, B, C, D], [B, C, D], [C, D, E]]
    let conjunctions = conjunctions_of(&disjunctions);
    assert(conjunctions@.len() == spec_lists_view(conjunctions@).len());
    // now greatest_common_factor == [C, D]
    let mut greatest_common_divider = common_factors(&conjunctions);
    // now disjunctions == [[A, B], [B], [E]]
    let merged = reduce(&conjunctions, &greatest_common_divider);
    let remaining = merge_expr_by_binary(merged, ExprType::Or, ExprImpl::literal_bool(false));
    // now remaining is (A & B) | (B) | (E)
    // the result is C & D & ((A & B) | (B) | (E))
    let ghost conj = spec_conjunctions_of(ds);
    let ghost common = spec_common_factors(conj);
    proof {
        lemma_factors_foldable(conj, common, remaining@);
    }
    greatest_common_divider.push(remaining);
    assert(spec_exprs_view(greatest_common_divider@) =~= common.push(remaining@));
    fold_each(&greatest_common_divider)
}

/// The factors of a condition whose conjuncts can be folded can be folded.
proof fn lemma_factors_foldable(conj: Seq<Seq<ExprView>>, common: Seq<ExprView>, remaining: ExprView)
    requires
        conj.len() >= 1,
        common == spec_common_factors(conj),
        remaining == spec_merge(
            spec_reduced(conj, common),
            ExprType::Or,
            spec_literal_bool(false),
            spec_reduced(conj, common).len(),
        ),
        forall|j: int, f: int|
            0 <= j < conj.len() && 0 <= f < conj[j].len() ==> spec_foldable(#[trigger] conj[j][f]),
    ensures
        forall|j: int|
            0 <= j < common.push(remaining).len() ==> spec_foldable(
                #[trigger] common.push(remaining)[j],
            ),
{
    let reduced = spec_reduced(conj, common);
    let pred = spec_in_all(conj.drop_last());
    assert forall|j: int| 0 <= j < common.len() implies spec_foldable(#[trigger] common[j]) by {
        conj.last().lemma_filter_contains_rev(pred, common[j]);
        assert(common.contains(common[j]));
        let f = choose|f: int| 0 <= f < conj.last().len() && conj.last()[f] == common[j];
        assert(conj[conj.len() - 1][f] == common[j]);
    }
    assert forall|i: int| 0 <= i < reduced.len() implies spec_foldable(#[trigger] reduced[i]) by {
        let kept = conj[i].filter(spec_not_in(common));
        assert forall|f: int| 0 <= f < kept.len() implies spec_foldable(#[trigger] kept[f]) by {
            conj[i].lemma_filter_contains_rev(spec_not_in(common), kept[f]);
            assert(kept.contains(kept[f]));
            let g = choose|g: int| 0 <= g < conj[i].len() && conj[i][g] == kept[f];
            assert(spec_foldable(conj[i][g]));
        }
        lemma_merge_foldable(kept, ExprType::And, spec_literal_bool(true), kept.len());
    }
    lemma_merge_foldable(reduced, ExprType::Or, spec_literal_bool(false), reduced.len());
}

} // verus!
