//! Why factoring a condition changes nothing: the factors hold together
//! exactly when the condition holds.

use crate::data_chunk::DataType;
use crate::expr::{ExprType, ExprView, ScalarView};
use crate::expr_utils::{
    lemma_conjunctions_keep_truth, lemma_disjunctions_keep_truth, lemma_eval_call,
    lemma_fold_keeps_value, lemma_merge_by_and, lemma_merge_by_or, spec_and, spec_and_all,
    spec_condition_call, spec_eval, spec_evals, spec_fold, spec_fold_all, spec_is_condition,
    spec_literal_bool, spec_merge, spec_or, spec_or_all, spec_split, spec_split_first,
    spec_truth, spec_well_formed,
};
use crate::factorization::{
    spec_common_factors, spec_conjunctions_of, spec_factorization, spec_in_all, spec_not_in,
    spec_reduced,
};
use vstd::prelude::*;

verus! {

/// Whether one of the first `n` conditions has the truth `t` on a row.
pub open spec fn spec_some_is(
    parts: Seq<ExprView>,
    row: Seq<Option<ScalarView>>,
    t: Option<bool>,
    n: int,
) -> bool {
    exists|i: int| 0 <= i < n && i < parts.len() && spec_truth(spec_eval(#[trigger] parts[i], row)) == t
}

/// Whether every one of the expressions makes sense on a row and is a
/// condition.
pub open spec fn spec_all_conditions(parts: Seq<ExprView>, row: Seq<Option<ScalarView>>) -> bool {
    forall|i: int|
        0 <= i < parts.len() ==> spec_well_formed(#[trigger] parts[i], row) && spec_is_condition(
            spec_eval(parts[i], row),
        )
}

/// Conditions hold together unless one is false; if none is false they
/// are NULL together as soon as one is NULL.
proof fn lemma_and_all_by_members(parts: Seq<ExprView>, row: Seq<Option<ScalarView>>, n: nat)
    requires
        n <= parts.len(),
    ensures
        spec_and_all(parts, row, n) == if spec_some_is(parts, row, Some(false), n as int) {
            Some(false)
        } else if spec_some_is(parts, row, None, n as int) {
            None
        } else {
            Some(true)
        },
    decreases n,
{
    if n > 0 {
        lemma_and_all_by_members(parts, row, (n - 1) as nat);
        let t = spec_truth(spec_eval(parts[n - 1], row));
        assert forall|want: Option<bool>| #[trigger]
            spec_some_is(parts, row, want, n as int) == (spec_some_is(parts, row, want, n - 1)
                || t == want) by {
            if spec_some_is(parts, row, want, n as int) && !spec_some_is(parts, row, want, n - 1) {
                let i = choose|i: int|
                    0 <= i < n && i < parts.len() && spec_truth(
                        spec_eval(#[trigger] parts[i], row),
                    ) == want;
                assert(i == n - 1);
            }
            if t == want {
                assert(spec_truth(spec_eval(parts[n - 1], row)) == want);
            }
        }
    }
}

/// Two lists of conditions with the same truths hold together alike.
proof fn lemma_and_all_same_truths(
    a: Seq<ExprView>,
    b: Seq<ExprView>,
    row: Seq<Option<ScalarView>>,
    n: nat,
)
    requires
        n <= a.len(),
        n <= b.len(),
        forall|i: int|
            0 <= i < n ==> spec_truth(spec_eval(#[trigger] a[i], row)) == spec_truth(
                spec_eval(b[i], row),
            ),
    ensures
        spec_and_all(a, row, n) == spec_and_all(b, row, n),
    decreases n,
{
    if n > 0 {
        lemma_and_all_same_truths(a, b, row, (n - 1) as nat);
        assert(spec_truth(spec_eval(a[n - 1], row)) == spec_truth(spec_eval(b[n - 1], row)));
    }
}

/// What an expression is taken apart into makes sense where the
/// expression does; and the operands of `AND` and of `OR` are conditions.
proof fn lemma_split_parts(e: ExprView, op: ExprType, row: Seq<Option<ScalarView>>)
    requires
        spec_well_formed(e, row),
        op == ExprType::And || op == ExprType::Or,
    ensures
        spec_split(e, op).len() >= 1,
        forall|i: int|
            0 <= i < spec_split(e, op).len() ==> spec_well_formed(#[trigger] spec_split(e, op)[i], row),
        spec_split(e, op) != seq![e] ==> spec_all_conditions(spec_split(e, op), row),
        spec_is_condition(spec_eval(e, row)) ==> spec_all_conditions(spec_split(e, op), row),
    decreases e,
{
    match e {
        ExprView::FunctionCall { func_type, inputs, .. } => {
            if func_type == op {
                assert(spec_is_condition(spec_eval(inputs[0], row)));
                assert(spec_is_condition(spec_eval(inputs[1], row)));
                lemma_split_parts(inputs[0], op, row);
                lemma_split_parts(inputs[1], op, row);
                let left = spec_split(inputs[0], op);
                let right = spec_split(inputs[1], op);
                assert(spec_split_first(inputs, op, 0) =~= Seq::empty());
                assert(spec_split_first(inputs, op, 1) =~= left);
                assert(spec_split(e, op) =~= left + right);
                assert forall|i: int| 0 <= i < (left + right).len() implies spec_well_formed(
                    #[trigger] (left + right)[i],
                    row,
                ) && spec_is_condition(spec_eval((left + right)[i], row)) by {
                    if i < left.len() {
                        assert((left + right)[i] == left[i]);
                    } else {
                        assert((left + right)[i] == right[i - left.len()]);
                    }
                }
            } else {
                assert(spec_split(e, op) =~= seq![e]);
            }
        },
        _ => {
            assert(spec_split(e, op) =~= seq![e]);
        },
    }
}

/// Conditions joined by `AND` or `OR` make a condition.
proof fn lemma_merge_conditions(
    parts: Seq<ExprView>,
    op: ExprType,
    constant: bool,
    row: Seq<Option<ScalarView>>,
    n: nat,
)
    requires
        n <= parts.len(),
        op == ExprType::And || op == ExprType::Or,
        spec_all_conditions(parts, row),
    ensures
        spec_well_formed(spec_merge(parts, op, spec_literal_bool(constant), n), row),
        spec_is_condition(spec_eval(spec_merge(parts, op, spec_literal_bool(constant), n), row)),
    decreases n,
{
    if n > 1 {
        lemma_merge_conditions(parts, op, constant, row, (n - 1) as nat);
        let joined = seq![spec_merge(parts, op, spec_literal_bool(constant), (n - 1) as nat), parts[n - 1]];
        lemma_eval_call(op, DataType::Boolean, joined, row);
        assert(joined[0] == spec_merge(parts, op, spec_literal_bool(constant), (n - 1) as nat));
        assert(joined[1] == parts[n - 1]);
        let args = spec_evals(joined, row);
        assert(args[0] == spec_eval(joined[0], row));
        assert(args[1] == spec_eval(joined[1], row));
        assert forall|i: int| 0 <= i < joined.len() implies spec_well_formed(
            #[trigger] joined[i],
            row,
        ) && spec_is_condition(spec_eval(joined[i], row)) by {}
        assert(spec_merge(parts, op, spec_literal_bool(constant), n) == spec_condition_call(
            op,
            joined,
        ));
    } else if n == 1 {
        assert(spec_well_formed(parts[0], row));
    }
}

/// `a AND (x OR y OR ..)` holds exactly when
/// `(a AND x) OR (a AND y) OR ..` does.
proof fn lemma_and_distributes(
    a: Option<bool>,
    inner: Seq<ExprView>,
    outer: Seq<ExprView>,
    row: Seq<Option<ScalarView>>,
    n: nat,
)
    requires
        n <= inner.len(),
        n <= outer.len(),
        forall|i: int|
            0 <= i < n ==> spec_truth(spec_eval(#[trigger] outer[i], row)) == spec_and(
                a,
                spec_truth(spec_eval(inner[i], row)),
            ),
    ensures
        spec_or_all(outer, row, n) == spec_and(a, spec_or_all(inner, row, n)),
    decreases n,
{
    if n > 0 {
        lemma_and_distributes(a, inner, outer, row, (n - 1) as nat);
        assert(spec_truth(spec_eval(outer[n - 1], row)) == spec_and(
            a,
            spec_truth(spec_eval(inner[n - 1], row)),
        ));
    }
}

/// A list of conditions holds exactly when its common part and what is
/// left of it hold: for a list that has every expression of `common`, the
/// conjunction of `common` and of the list without the expressions of
/// `common` is the conjunction of the list.
proof fn lemma_without_common(
    list: Seq<ExprView>,
    common: Seq<ExprView>,
    row: Seq<Option<ScalarView>>,
)
    requires
        forall|j: int| 0 <= j < common.len() ==> list.contains(#[trigger] common[j]),
    ensures
        spec_and(
            spec_and_all(common, row, common.len()),
            spec_and_all(
                list.filter(spec_not_in(common)),
                row,
                list.filter(spec_not_in(common)).len(),
            ),
        ) == spec_and_all(list, row, list.len()),
{
    let kept = list.filter(spec_not_in(common));
    lemma_and_all_by_members(list, row, list.len());
    lemma_and_all_by_members(common, row, common.len());
    lemma_and_all_by_members(kept, row, kept.len());
    assert forall|t: Option<bool>| #[trigger]
        spec_some_is(list, row, t, list.len() as int) == (spec_some_is(
            common,
            row,
            t,
            common.len() as int,
        ) || spec_some_is(kept, row, t, kept.len() as int)) by {
        if spec_some_is(list, row, t, list.len() as int) {
            let i = choose|i: int|
                0 <= i < list.len() && spec_truth(spec_eval(#[trigger] list[i], row)) == t;
            if common.contains(list[i]) {
                let j = choose|j: int| 0 <= j < common.len() && common[j] == list[i];
                assert(spec_truth(spec_eval(common[j], row)) == t);
            } else {
                assert(spec_not_in(common)(list[i]));
                list.lemma_filter_contains(spec_not_in(common), i);
                let j = choose|j: int| 0 <= j < kept.len() && kept[j] == list[i];
                assert(spec_truth(spec_eval(kept[j], row)) == t);
            }
        }
        if spec_some_is(common, row, t, common.len() as int) {
            let j = choose|j: int|
                0 <= j < common.len() && spec_truth(spec_eval(#[trigger] common[j], row)) == t;
            assert(list.contains(common[j]));
            let i = choose|i: int| 0 <= i < list.len() && list[i] == common[j];
            assert(spec_truth(spec_eval(list[i], row)) == t);
        }
        if spec_some_is(kept, row, t, kept.len() as int) {
            let j = choose|j: int|
                0 <= j < kept.len() && spec_truth(spec_eval(#[trigger] kept[j], row)) == t;
            assert(kept.contains(kept[j]));
            list.lemma_filter_contains_rev(spec_not_in(common), kept[j]);
            let i = choose|i: int| 0 <= i < list.len() && list[i] == kept[j];
            assert(spec_truth(spec_eval(list[i], row)) == t);
        }
    }
    assert(spec_some_is(list, row, Some(false), list.len() as int) == (spec_some_is(
        common,
        row,
        Some(false),
        common.len() as int,
    ) || spec_some_is(kept, row, Some(false), kept.len() as int)));
    assert(spec_some_is(list, row, None, list.len() as int) == (spec_some_is(
        common,
        row,
        None,
        common.len() as int,
    ) || spec_some_is(kept, row, None, kept.len() as int)));
}

/// What a list of conditions keeps are conditions of the list.
proof fn lemma_filter_keeps_conditions(
    list: Seq<ExprView>,
    pred: spec_fn(ExprView) -> bool,
    row: Seq<Option<ScalarView>>,
)
    requires
        spec_all_conditions(list, row),
    ensures
        spec_all_conditions(list.filter(pred), row),
{
    let kept = list.filter(pred);
    assert forall|i: int| 0 <= i < kept.len() implies spec_well_formed(#[trigger] kept[i], row)
        && spec_is_condition(spec_eval(kept[i], row)) by {
        assert(kept.contains(kept[i]));
        list.lemma_filter_contains_rev(pred, kept[i]);
        let j = choose|j: int| 0 <= j < list.len() && list[j] == kept[i];
        assert(spec_well_formed(list[j], row));
    }
}

/// The conjuncts that all disjuncts share are conjuncts of each of them.
proof fn lemma_common_in_each(conj: Seq<Seq<ExprView>>, i: int, j: int)
    requires
        conj.len() >= 1,
        0 <= i < conj.len(),
        0 <= j < spec_common_factors(conj).len(),
    ensures
        conj[i].contains(spec_common_factors(conj)[j]),
{
    let common = spec_common_factors(conj);
    let pred = spec_in_all(conj.drop_last());
    assert(common.contains(common[j]));
    if i == conj.len() - 1 {
        conj.last().lemma_filter_contains_rev(pred, common[j]);
    } else {
        conj.last().lemma_filter_pred(pred, j);
        assert(pred(common[j]));
        assert(conj.drop_last()[i] == conj[i]);
    }
}

/// The conjunction of a list of conditions and one more.
proof fn lemma_and_all_push(parts: Seq<ExprView>, last: ExprView, row: Seq<Option<ScalarView>>)
    ensures
        spec_and_all(parts.push(last), row, parts.len() + 1) == spec_and(
            spec_and_all(parts, row, parts.len()),
            spec_truth(spec_eval(last, row)),
        ),
{
    let longer = parts.push(last);
    assert(longer[parts.len() as int] == last);
    lemma_and_all_same_truths(longer, parts, row, parts.len());
}

/// Factoring keeps the truth: on every row on which a condition makes
/// sense, its factors hold together exactly when the condition holds, and
/// are NULL together exactly when it is.
pub proof fn lemma_factorization_keeps_truth(e: ExprView, row: Seq<Option<ScalarView>>)
    requires
        spec_well_formed(e, row),
    ensures
        spec_and_all(spec_factorization(e), row, spec_factorization(e).len()) == spec_truth(
            spec_eval(e, row),
        ),
{
    let ds = spec_split(e, ExprType::Or);
    lemma_disjunctions_keep_truth(e, row);
    if ds.len() == 1 {
        assert(spec_or_all(ds, row, 0) == Some(false));
        assert(spec_and_all(ds, row, 0) == Some(true));
    } else {
        lemma_split_parts(e, ExprType::Or, row);
        assert(ds != seq![e]) by {
            assert(seq![e].len() == 1);
        }
        lemma_factored_disjunction(ds, row);
    }
}

/// The factors of a disjunction of conditions hold together exactly when
/// one of the conditions holds.
proof fn lemma_factored_disjunction(ds: Seq<ExprView>, row: Seq<Option<ScalarView>>)
    requires
        ds.len() >= 1,
        spec_all_conditions(ds, row),
    ensures
        ({
            let conj = spec_conjunctions_of(ds);
            let common = spec_common_factors(conj);
            let reduced = spec_reduced(conj, common);
            let remaining = spec_merge(
                reduced,
                ExprType::Or,
                spec_literal_bool(false),
                reduced.len(),
            );
            let factors = spec_fold_all(common.push(remaining));
            spec_and_all(factors, row, factors.len()) == spec_or_all(ds, row, ds.len())
        }),
{
    let conj = spec_conjunctions_of(ds);
    let common = spec_common_factors(conj);
    let reduced = spec_reduced(conj, common);
    let remaining = spec_merge(reduced, ExprType::Or, spec_literal_bool(false), reduced.len());
    let a = spec_and_all(common, row, common.len());
    // every list of conjuncts is made of conditions
    assert forall|i: int| 0 <= i < conj.len() implies spec_all_conditions(#[trigger] conj[i], row) by {
        lemma_split_parts(ds[i], ExprType::And, row);
    }
    // what is left of each list, joined, is a condition that holds when the list does
    assert forall|i: int| 0 <= i < reduced.len() implies spec_well_formed(
        #[trigger] reduced[i],
        row,
    ) && spec_is_condition(spec_eval(reduced[i], row)) && spec_truth(spec_eval(ds[i], row))
        == spec_and(a, spec_truth(spec_eval(reduced[i], row))) by {
        let kept = conj[i].filter(spec_not_in(common));
        lemma_filter_keeps_conditions(conj[i], spec_not_in(common), row);
        lemma_merge_conditions(kept, ExprType::And, true, row, kept.len());
        if kept.len() >= 1 {
            lemma_merge_by_and(kept, spec_literal_bool(true), row, kept.len());
        } else {
            assert(spec_and_all(kept, row, 0) == Some(true));
        }
        assert forall|j: int| 0 <= j < common.len() implies conj[i].contains(
            #[trigger] common[j],
        ) by {
            lemma_common_in_each(conj, i, j);
        }
        lemma_without_common(conj[i], common, row);
        lemma_conjunctions_keep_truth(ds[i], row);
    }
    lemma_merge_conditions(reduced, ExprType::Or, false, row, reduced.len());
    lemma_merge_by_or(reduced, spec_literal_bool(false), row, reduced.len());
    lemma_and_distributes(a, reduced, ds, row, ds.len());
    // the common conjuncts are conditions
    lemma_filter_keeps_conditions(conj.last(), spec_in_all(conj.drop_last()), row);
    let unfolded = common.push(remaining);
    let factors = spec_fold_all(unfolded);
    assert forall|i: int| 0 <= i < unfolded.len() implies spec_truth(
        spec_eval(#[trigger] factors[i], row),
    ) == spec_truth(spec_eval(unfolded[i], row)) by {
        if i < common.len() {
            assert(unfolded[i] == common[i]);
            assert(spec_well_formed(common[i], row));
        } else {
            assert(unfolded[i] == remaining);
        }
        lemma_fold_keeps_value(unfolded[i], row);
    }
    lemma_and_all_same_truths(factors, unfolded, row, unfolded.len());
    lemma_and_all_push(common, remaining, row);
}

} // verus!
