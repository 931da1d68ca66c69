//! Rewriting conditions: folding constants, pushing negation down, and
//! taking conjunctions and disjunctions apart.

use crate::data_chunk::DataType;
use crate::expr::{
    lemma_call_view, spec_arity, spec_arity_ok, spec_exprs_view, ExprImpl, ExprType, ExprView,
    FunctionCall, InputRef, Literal, ScalarImpl, ScalarView,
};
use vstd::prelude::*;

verus! {

/// The truth of a value: true, false, or neither (`None`) for NULL and for
/// what is no condition.
pub open spec fn spec_truth(v: Option<ScalarView>) -> Option<bool> {
    match v {
        Some(ScalarView::Bool(b)) => Some(b),
        _ => None,
    }
}

/// The value of a truth.
pub open spec fn spec_condition(t: Option<bool>) -> Option<ScalarView> {
    match t {
        Some(b) => Some(ScalarView::Bool(b)),
        None => None,
    }
}

/// Whether a value is the value of a condition: true, false or NULL.
pub open spec fn spec_is_condition(v: Option<ScalarView>) -> bool {
    spec_condition(spec_truth(v)) == v
}

/// `AND` in three-valued logic.
pub open spec fn spec_and(a: Option<bool>, b: Option<bool>) -> Option<bool> {
    if a == Some(false) || b == Some(false) {
        Some(false)
    } else if a is None || b is None {
        None
    } else {
        Some(true)
    }
}

/// `OR` in three-valued logic.
pub open spec fn spec_or(a: Option<bool>, b: Option<bool>) -> Option<bool> {
    if a == Some(true) || b == Some(true) {
        Some(true)
    } else if a is None || b is None {
        None
    } else {
        Some(false)
    }
}

/// `NOT` in three-valued logic.
pub open spec fn spec_not(a: Option<bool>) -> Option<bool> {
    match a {
        Some(b) => Some(!b),
        None => None,
    }
}

/// The number that a value holds, if it holds one.
pub open spec fn spec_number(v: Option<ScalarView>) -> Option<int> {
    match v {
        Some(ScalarView::Int32(n)) => Some(n as int),
        Some(ScalarView::Int64(n)) => Some(n as int),
        _ => None,
    }
}

/// What a comparison of two values gives: NULL unless both are numbers.
pub open spec fn spec_compare(func_type: ExprType, a: Option<ScalarView>, b: Option<ScalarView>) -> Option<
    ScalarView,
> {
    match (spec_number(a), spec_number(b)) {
        (Some(x), Some(y)) => Some(
            ScalarView::Bool(
                match func_type {
                    ExprType::Equal => x == y,
                    ExprType::NotEqual => x != y,
                    ExprType::LessThan => x < y,
                    ExprType::LessThanOrEqual => x <= y,
                    ExprType::GreaterThan => x > y,
                    _ => x >= y,
                },
            ),
        ),
        _ => None,
    }
}

/// What a function gives for the values of its arguments.
pub open spec fn spec_apply(func_type: ExprType, args: Seq<Option<ScalarView>>) -> Option<
    ScalarView,
> {
    match func_type {
        ExprType::And => spec_condition(spec_and(spec_truth(args[0]), spec_truth(args[1]))),
        ExprType::Or => spec_condition(spec_or(spec_truth(args[0]), spec_truth(args[1]))),
        ExprType::Not => spec_condition(spec_not(spec_truth(args[0]))),
        ExprType::IsTrue => Some(ScalarView::Bool(spec_truth(args[0]) == Some(true))),
        ExprType::IsNotTrue => Some(ScalarView::Bool(spec_truth(args[0]) != Some(true))),
        ExprType::IsFalse => Some(ScalarView::Bool(spec_truth(args[0]) == Some(false))),
        ExprType::IsNotFalse => Some(ScalarView::Bool(spec_truth(args[0]) != Some(false))),
        ExprType::IsNull => Some(ScalarView::Bool(args[0] is None)),
        ExprType::IsNotNull => Some(ScalarView::Bool(args[0] is Some)),
        ExprType::Equal | ExprType::NotEqual | ExprType::LessThan | ExprType::LessThanOrEqual
        | ExprType::GreaterThan | ExprType::GreaterThanOrEqual => spec_compare(
            func_type,
            args[0],
            args[1],
        ),
        _ => None,
    }
}

/// Whether the function is a condition or a comparison: the functions that
/// `spec_apply` gives a value. Of the others nothing is said here.
pub open spec fn spec_has_value(func_type: ExprType) -> bool {
    match func_type {
        ExprType::And | ExprType::Or | ExprType::Not | ExprType::IsTrue | ExprType::IsNotTrue
        | ExprType::IsFalse | ExprType::IsNotFalse | ExprType::IsNull | ExprType::IsNotNull
        | ExprType::Equal | ExprType::NotEqual | ExprType::LessThan | ExprType::LessThanOrEqual
        | ExprType::GreaterThan | ExprType::GreaterThanOrEqual => true,
        _ => false,
    }
}

/// What an expression evaluates to on a row. A column that the row does
/// not have is NULL.
pub open spec fn spec_eval(e: ExprView, row: Seq<Option<ScalarView>>) -> Option<ScalarView>
    decreases e,
{
    match e {
        ExprView::InputRef { index, .. } => if index < row.len() {
            row[index as int]
        } else {
            None
        },
        ExprView::Literal { data, .. } => data,
        ExprView::FunctionCall { func_type, inputs, .. } => spec_apply(
            func_type,
            spec_eval_first(inputs, row, inputs.len()),
        ),
        ExprView::Now => None,
    }
}

/// What the first `n` of the expressions evaluate to on a row.
pub open spec fn spec_eval_first(inputs: Seq<ExprView>, row: Seq<Option<ScalarView>>, n: nat) -> Seq<
    Option<ScalarView>,
>
    decreases inputs, n,
{
    if n == 0 || n > inputs.len() {
        Seq::empty()
    } else {
        spec_eval_first(inputs, row, (n - 1) as nat).push(spec_eval(inputs[n - 1], row))
    }
}

proof fn lemma_eval_first(inputs: Seq<ExprView>, row: Seq<Option<ScalarView>>, n: nat)
    requires
        n <= inputs.len(),
    ensures
        spec_eval_first(inputs, row, n) == spec_evals(inputs, row).subrange(0, n as int),
    decreases n,
{
    if n > 0 {
        lemma_eval_first(inputs, row, (n - 1) as nat);
    }
    assert(spec_eval_first(inputs, row, n) =~= spec_evals(inputs, row).subrange(0, n as int));
}

/// What the expressions evaluate to on a row.
pub open spec fn spec_evals(inputs: Seq<ExprView>, row: Seq<Option<ScalarView>>) -> Seq<
    Option<ScalarView>,
> {
    Seq::new(inputs.len(), |i: int| spec_eval(inputs[i], row))
}

/// A call evaluates to what its function gives for the values of its
/// arguments.
pub proof fn lemma_eval_call(
    func_type: ExprType,
    return_type: DataType,
    inputs: Seq<ExprView>,
    row: Seq<Option<ScalarView>>,
)
    ensures
        spec_eval(ExprView::FunctionCall { func_type, return_type, inputs }, row) == spec_apply(
            func_type,
            spec_evals(inputs, row),
        ),
{
    lemma_eval_first(inputs, row, inputs.len());
    assert(spec_evals(inputs, row).subrange(0, inputs.len() as int) =~= spec_evals(inputs, row));
}

/// Whether the function takes conditions.
pub open spec fn spec_takes_conditions(func_type: ExprType) -> bool {
    func_type == ExprType::And || func_type == ExprType::Or || func_type == ExprType::Not
}

/// Whether the expression makes sense on the row: every call is of a
/// condition or a comparison and has as many arguments as its function
/// takes, and what `AND`, `OR` and `NOT` are applied to are conditions. The
/// time at which a statement runs is no value of a row.
pub open spec fn spec_well_formed(e: ExprView, row: Seq<Option<ScalarView>>) -> bool
    decreases e,
{
    match e {
        ExprView::FunctionCall { func_type, inputs, .. } => {
            &&& spec_has_value(func_type)
            &&& inputs.len() == spec_arity(func_type)
            &&& forall|i: int| 0 <= i < inputs.len() ==> spec_well_formed(#[trigger] inputs[i], row)
            &&& spec_takes_conditions(func_type) ==> forall|i: int|
                0 <= i < inputs.len() ==> spec_is_condition(spec_eval(#[trigger] inputs[i], row))
        },
        ExprView::Now => false,
        _ => true,
    }
}

/// The constant condition `v`.
pub open spec fn spec_literal_bool(v: bool) -> ExprView {
    ExprView::Literal { data: Some(ScalarView::Bool(v)), data_type: DataType::Boolean }
}

/// The condition that a constant expression holds, if it is one.
pub open spec fn spec_bool_constant(e: ExprView) -> Option<bool> {
    match e {
        ExprView::Literal { data: Some(ScalarView::Bool(v)), .. } => Some(v),
        _ => None,
    }
}

/// Whether the expression is the constant NULL.
pub open spec fn spec_is_null(e: ExprView) -> bool {
    e matches ExprView::Literal { data: None, .. }
}

/// A call whose arguments are folded, folded itself: a function of
/// constants becomes a constant, and `AND` and `OR` with a constant side
/// become the other side or the constant.
pub open spec fn spec_fold_call(func_type: ExprType, return_type: DataType, inputs: Seq<ExprView>) -> ExprView {
    let call = ExprView::FunctionCall { func_type, return_type, inputs };
    let constant = spec_bool_constant(inputs[0]);
    match func_type {
        ExprType::Not => match constant {
            Some(v) => spec_literal_bool(!v),
            None => call,
        },
        ExprType::IsFalse => if spec_is_null(inputs[0]) {
            spec_literal_bool(false)
        } else {
            match constant {
                Some(v) => spec_literal_bool(!v),
                None => call,
            }
        },
        ExprType::IsTrue => if spec_is_null(inputs[0]) {
            spec_literal_bool(false)
        } else {
            match constant {
                Some(v) => spec_literal_bool(v),
                None => call,
            }
        },
        ExprType::IsNull => if spec_is_null(inputs[0]) {
            spec_literal_bool(true)
        } else {
            call
        },
        ExprType::IsNotTrue => if spec_is_null(inputs[0]) {
            spec_literal_bool(true)
        } else {
            match constant {
                Some(v) => spec_literal_bool(!v),
                None => call,
            }
        },
        ExprType::IsNotFalse => if spec_is_null(inputs[0]) {
            spec_literal_bool(true)
        } else {
            match constant {
                Some(v) => spec_literal_bool(v),
                None => call,
            }
        },
        ExprType::IsNotNull => match inputs[0] {
            ExprView::Literal { data, .. } => spec_literal_bool(data is Some),
            _ => call,
        },
        ExprType::And => if inputs.len() != 2 {
            call
        } else {
            match (constant, spec_bool_constant(inputs[1])) {
                (Some(v), _) => if v {
                    inputs[1]
                } else {
                    inputs[0]
                },
                (None, Some(v)) => if v {
                    inputs[0]
                } else {
                    inputs[1]
                },
                (None, None) => call,
            }
        },
        ExprType::Or => if inputs.len() != 2 {
            call
        } else {
            match (constant, spec_bool_constant(inputs[1])) {
                (Some(v), _) => if v {
                    inputs[0]
                } else {
                    inputs[1]
                },
                (None, Some(v)) => if v {
                    inputs[1]
                } else {
                    inputs[0]
                },
                (None, None) => call,
            }
        },
        _ => call,
    }
}

/// Whether one of the expressions is a constant condition.
pub open spec fn spec_has_bool_constant(inputs: Seq<ExprView>) -> bool {
    exists|i: int| 0 <= i < inputs.len() && spec_bool_constant(#[trigger] inputs[i]) is Some
}

/// Whether a call with these folded arguments can be folded: a condition
/// on one argument has an argument, and `AND` and `OR` have two arguments
/// where one of them is a constant condition.
pub open spec fn spec_fold_call_defined(func_type: ExprType, inputs: Seq<ExprView>) -> bool {
    match func_type {
        ExprType::And | ExprType::Or => inputs.len() == 2 || !spec_has_bool_constant(inputs),
        ExprType::Not | ExprType::IsTrue | ExprType::IsNotTrue | ExprType::IsFalse
        | ExprType::IsNotFalse | ExprType::IsNull | ExprType::IsNotNull => inputs.len() >= 1,
        _ => true,
    }
}

/// Whether the expression can be folded: every call in it can, once its
/// arguments are folded.
pub open spec fn spec_foldable(e: ExprView) -> bool
    decreases e,
{
    match e {
        ExprView::FunctionCall { func_type, inputs, .. } => {
            &&& forall|i: int| 0 <= i < inputs.len() ==> spec_foldable(#[trigger] inputs[i])
            &&& spec_fold_call_defined(func_type, spec_fold_all(inputs))
        },
        _ => true,
    }
}

/// An expression whose calls have as many arguments as their functions
/// take can be folded.
pub proof fn lemma_arity_ok_is_foldable(e: ExprView)
    requires
        spec_arity_ok(e),
    ensures
        spec_foldable(e),
    decreases e,
{
    match e {
        ExprView::FunctionCall { func_type, inputs, .. } => {
            assert forall|i: int| 0 <= i < inputs.len() implies spec_foldable(
                #[trigger] inputs[i],
            ) by {
                lemma_arity_ok_is_foldable(inputs[i]);
            }
        },
        _ => {},
    }
}

/// The expression with its constants folded, from the leaves up.
pub open spec fn spec_fold(e: ExprView) -> ExprView
    decreases e,
{
    match e {
        ExprView::FunctionCall { func_type, return_type, inputs } => spec_fold_call(
            func_type,
            return_type,
            spec_fold_first(inputs, inputs.len()),
        ),
        _ => e,
    }
}

/// The first `n` of the expressions, folded.
pub open spec fn spec_fold_first(inputs: Seq<ExprView>, n: nat) -> Seq<ExprView>
    decreases inputs, n,
{
    if n == 0 || n > inputs.len() {
        Seq::empty()
    } else {
        spec_fold_first(inputs, (n - 1) as nat).push(spec_fold(inputs[n - 1]))
    }
}

proof fn lemma_fold_first(inputs: Seq<ExprView>, n: nat)
    requires
        n <= inputs.len(),
    ensures
        spec_fold_first(inputs, n) == spec_fold_all(inputs).subrange(0, n as int),
    decreases n,
{
    if n > 0 {
        lemma_fold_first(inputs, (n - 1) as nat);
    }
    assert(spec_fold_first(inputs, n) =~= spec_fold_all(inputs).subrange(0, n as int));
}

/// The folded arguments of a call.
pub open spec fn spec_fold_all(inputs: Seq<ExprView>) -> Seq<ExprView> {
    Seq::new(inputs.len(), |i: int| spec_fold(inputs[i]))
}

/// Folding a call folds its arguments and then the call.
pub proof fn lemma_fold_call(func_type: ExprType, return_type: DataType, inputs: Seq<ExprView>)
    ensures
        spec_fold(ExprView::FunctionCall { func_type, return_type, inputs }) == spec_fold_call(
            func_type,
            return_type,
            spec_fold_all(inputs),
        ),
{
    lemma_fold_first(inputs, inputs.len());
    assert(spec_fold_all(inputs).subrange(0, inputs.len() as int) =~= spec_fold_all(inputs));
}

/// Folding constants changes no value: on every row on which the
/// expression makes sense, the folded expression makes sense too and
/// evaluates to the same.
pub proof fn lemma_fold_keeps_value(e: ExprView, row: Seq<Option<ScalarView>>)
    requires
        spec_well_formed(e, row),
    ensures
        spec_well_formed(spec_fold(e), row),
        spec_eval(spec_fold(e), row) == spec_eval(e, row),
    decreases e,
{
    match e {
        ExprView::FunctionCall { func_type, return_type, inputs } => {
            let folded = spec_fold_all(inputs);
            assert forall|i: int| 0 <= i < inputs.len() implies spec_well_formed(
                #[trigger] folded[i],
                row,
            ) && spec_eval(folded[i], row) == spec_eval(inputs[i], row) by {
                lemma_fold_keeps_value(inputs[i], row);
            }
            lemma_fold_call(func_type, return_type, inputs);
            lemma_eval_call(func_type, return_type, inputs, row);
            lemma_eval_call(func_type, return_type, folded, row);
            assert(spec_evals(folded, row) =~= spec_evals(inputs, row));
            let call = ExprView::FunctionCall { func_type, return_type, inputs: folded };
            assert(spec_well_formed(call, row)) by {
                assert forall|i: int| 0 <= i < folded.len() implies spec_well_formed(
                    #[trigger] folded[i],
                    row,
                ) by {}
                if spec_takes_conditions(func_type) {
                    assert forall|i: int| 0 <= i < folded.len() implies spec_is_condition(
                        spec_eval(#[trigger] folded[i], row),
                    ) by {
                        assert(spec_is_condition(spec_eval(inputs[i], row)));
                    }
                }
            }
            let args = spec_evals(folded, row);
            assert(args[0] == spec_eval(folded[0], row));
            if inputs.len() == 2 {
                assert(args[1] == spec_eval(folded[1], row));
                if spec_takes_conditions(func_type) {
                    assert(spec_is_condition(spec_eval(inputs[0], row)));
                    assert(spec_is_condition(spec_eval(inputs[1], row)));
                }
            }
        },
        _ => {},
    }
}

/// The condition that a constant expression holds, if it is one.
pub fn try_get_bool_constant(expr: &ExprImpl) -> (r: Option<bool>)
    ensures
        r == spec_bool_constant(expr@),
{
    if let ExprImpl::Literal(l) = expr {
        if let Some(ScalarImpl::Bool(v)) = l.get_data() {
            return Some(*v);
        }
    }
    None
}

/// `constant_lhs AND rhs`, folded: `rhs` where the constant is true, the
/// constant where it is false.
pub fn boolean_constant_fold_and(constant_lhs: ExprImpl, rhs: ExprImpl) -> (r: ExprImpl)
    requires
        spec_bool_constant(constant_lhs@) is Some,
    ensures
        r == if spec_bool_constant(constant_lhs@) == Some(true) {
            rhs
        } else {
            constant_lhs
        },
{
    if try_get_bool_constant(&constant_lhs).unwrap() {
        // true And rhs <=> rhs
        rhs
    } else {
        // false And rhs <=> false
        constant_lhs
    }
}

/// `constant_lhs OR rhs`, folded: the constant where it is true, `rhs`
/// where it is false.
pub fn boolean_constant_fold_or(constant_lhs: ExprImpl, rhs: ExprImpl) -> (r: ExprImpl)
    requires
        spec_bool_constant(constant_lhs@) is Some,
    ensures
        r == if spec_bool_constant(constant_lhs@) == Some(true) {
            constant_lhs
        } else {
            rhs
        },
{
    if try_get_bool_constant(&constant_lhs).unwrap() {
        // true Or rhs <=> true
        constant_lhs
    } else {
        // false Or rhs <=> rhs
        rhs
    }
}

/// Whether one of the expressions is a constant condition.
fn has_bool_constant(inputs: &Vec<ExprImpl>) -> (r: bool)
    ensures
        r == spec_has_bool_constant(spec_exprs_view(inputs@)),
{
    let ghost views = spec_exprs_view(inputs@);
    let mut i: usize = 0;
    while i < inputs.len()
        invariant
            i <= inputs@.len(),
            views == spec_exprs_view(inputs@),
            forall|j: int| 0 <= j < i ==> spec_bool_constant(#[trigger] views[j]) is None,
        decreases inputs@.len() - i,
    {
        assert(views[i as int] == inputs@[i as int]@);
        if try_get_bool_constant(&inputs[i]).is_some() {
            return true;
        }
        i += 1;
    }
    false
}

/// A call whose arguments are folded, folded itself.
fn fold_call(func_type: ExprType, inputs: Vec<ExprImpl>, return_type: DataType) -> (r: ExprImpl)
    requires
        spec_fold_call_defined(func_type, spec_exprs_view(inputs@)),
    ensures
        r@ == spec_fold_call(func_type, return_type, spec_exprs_view(inputs@)),
{
    let ghost views = spec_exprs_view(inputs@);
    if inputs.len() == 0 {
        let call = FunctionCall::new_unchecked(func_type, inputs, return_type);
        proof {
            lemma_call_view(call);
        }
        return ExprImpl::FunctionCall(call);
    }
    assert(views[0] == inputs@[0]@);
    let first = try_get_bool_constant(&inputs[0]);
    match func_type {
        // unary functions
        ExprType::Not => {
            if let Some(v) = first {
                return ExprImpl::literal_bool(!v);
            }
        },
        ExprType::IsFalse => {
            if inputs[0].is_null() {
                return ExprImpl::literal_bool(false);
            }
            if let Some(v) = first {
                return ExprImpl::literal_bool(!v);
            }
        },
        ExprType::IsTrue => {
            if inputs[0].is_null() {
                return ExprImpl::literal_bool(false);
            }
            if let Some(v) = first {
                return ExprImpl::literal_bool(v);
            }
        },
        ExprType::IsNull => {
            if inputs[0].is_null() {
                return ExprImpl::literal_bool(true);
            }
        },
        ExprType::IsNotTrue => {
            if inputs[0].is_null() {
                return ExprImpl::literal_bool(true);
            }
            if let Some(v) = first {
                return ExprImpl::literal_bool(!v);
            }
        },
        ExprType::IsNotFalse => {
            if inputs[0].is_null() {
                return ExprImpl::literal_bool(true);
            }
            if let Some(v) = first {
                return ExprImpl::literal_bool(v);
            }
        },
        ExprType::IsNotNull => {
            if let ExprImpl::Literal(lit) = &inputs[0] {
                return ExprImpl::literal_bool(lit.get_data().is_some());
            }
        },
        // binary functions
        ExprType::And => {
            if has_bool_constant(&inputs) {
                assert(views[1] == inputs@[1]@);
                let mut inputs = inputs;
                let rhs = inputs.pop().unwrap();
                let lhs = inputs.pop().unwrap();
                return if first.is_some() {
                    boolean_constant_fold_and(lhs, rhs)
                } else {
                    boolean_constant_fold_and(rhs, lhs)
                };
            }
        },
        ExprType::Or => {
            if has_bool_constant(&inputs) {
                assert(views[1] == inputs@[1]@);
                let mut inputs = inputs;
                let rhs = inputs.pop().unwrap();
                let lhs = inputs.pop().unwrap();
                return if first.is_some() {
                    boolean_constant_fold_or(lhs, rhs)
                } else {
                    boolean_constant_fold_or(rhs, lhs)
                };
            }
        },
        _ => {},
    }
    let call = FunctionCall::new_unchecked(func_type, inputs, return_type);
    proof {
        lemma_call_view(call);
    }
    ExprImpl::FunctionCall(call)
}

/// The expression with its constants folded, from the leaves up.
#[verifier::loop_isolation(false)]
fn fold_expr(expr: &ExprImpl) -> (r: ExprImpl)
    requires
        spec_foldable(expr@),
    ensures
        r@ == spec_fold(expr@),
    decreases expr,
{
    match expr {
        ExprImpl::FunctionCall(call) => {
            proof {
                lemma_call_view(*call);
                lemma_fold_call(call.func_type, call.return_type, spec_exprs_view(call.inputs@));
            }
            let ghost views = spec_exprs_view(call.inputs@);
            let mut inputs: Vec<ExprImpl> = Vec::new();
            let mut i: usize = 0;
            while i < call.inputs.len()
                invariant
                    i <= call.inputs@.len(),
                    inputs@.len() == i,
                    forall|j: int| 0 <= j < i ==> (#[trigger] inputs@[j])@ == spec_fold(views[j]),
                decreases call.inputs@.len() - i,
            {
                assert(views[i as int] == call.inputs@[i as int]@);
                assert(spec_foldable(views[i as int]));
                inputs.push(fold_expr(&call.inputs[i]));
                i += 1;
            }
            assert(spec_exprs_view(inputs@) =~= spec_fold_all(views));
            fold_call(call.func_type, inputs, call.return_type)
        },
        other => other.duplicate(),
    }
}

/// fold boolean constants in boolean exprs
/// e.g. `(A And false) Or true` will become `True`
pub fn fold_boolean_constant(expr: ExprImpl) -> (r: ExprImpl)
    requires
        spec_foldable(expr@),
    ensures
        r@ == spec_fold(expr@),
{
    fold_expr(&expr)
}

/// The call of a function that yields a condition.
pub open spec fn spec_condition_call(func_type: ExprType, inputs: Seq<ExprView>) -> ExprView {
    ExprView::FunctionCall { func_type, return_type: DataType::Boolean, inputs }
}

/// The expression with negation pushed down, itself negated where
/// `negate` is set: `NOT NOT a` is `a`, `NOT (a AND b)` is
/// `NOT a OR NOT b`, `NOT (a OR b)` is `NOT a AND NOT b`; what is neither
/// `NOT`, `AND` nor `OR` keeps the negation on top of it.
pub open spec fn spec_push_not(e: ExprView, negate: bool) -> ExprView
    decreases e,
{
    match e {
        ExprView::FunctionCall { func_type, return_type, inputs } => {
            if func_type == ExprType::Not && inputs.len() == 1 {
                spec_push_not(inputs[0], !negate)
            } else if negate && func_type == ExprType::And && inputs.len() == 2 {
                spec_condition_call(
                    ExprType::Or,
                    seq![spec_push_not(inputs[0], true), spec_push_not(inputs[1], true)],
                )
            } else if negate && func_type == ExprType::Or && inputs.len() == 2 {
                spec_condition_call(
                    ExprType::And,
                    seq![spec_push_not(inputs[0], true), spec_push_not(inputs[1], true)],
                )
            } else {
                let kept = ExprView::FunctionCall {
                    func_type,
                    return_type,
                    inputs: spec_push_first(inputs, inputs.len()),
                };
                if negate {
                    spec_condition_call(ExprType::Not, seq![kept])
                } else {
                    kept
                }
            }
        },
        _ => if negate {
            spec_condition_call(ExprType::Not, seq![e])
        } else {
            e
        },
    }
}

/// Whether negation can be pushed down in the expression, itself negated
/// where `negate` is set: every `NOT` has one argument, and an `AND` or
/// `OR` that is to be negated has two.
pub open spec fn spec_pushable(e: ExprView, negate: bool) -> bool
    decreases e,
{
    match e {
        ExprView::FunctionCall { func_type, inputs, .. } => {
            if func_type == ExprType::Not {
                inputs.len() == 1 && spec_pushable(inputs[0], !negate)
            } else if negate && (func_type == ExprType::And || func_type == ExprType::Or) {
                inputs.len() == 2 && spec_pushable(inputs[0], true) && spec_pushable(
                    inputs[1],
                    true,
                )
            } else {
                forall|i: int| 0 <= i < inputs.len() ==> spec_pushable(#[trigger] inputs[i], false)
            }
        },
        _ => true,
    }
}

/// In an expression whose calls have as many arguments as their functions
/// take, negation can be pushed down.
pub proof fn lemma_arity_ok_is_pushable(e: ExprView, negate: bool)
    requires
        spec_arity_ok(e),
    ensures
        spec_pushable(e, negate),
    decreases e,
{
    match e {
        ExprView::FunctionCall { func_type, inputs, .. } => {
            assert forall|i: int| 0 <= i < inputs.len() implies spec_pushable(
                #[trigger] inputs[i],
                false,
            ) && spec_pushable(inputs[i], true) by {
                lemma_arity_ok_is_pushable(inputs[i], false);
                lemma_arity_ok_is_pushable(inputs[i], true);
            }
        },
        _ => {},
    }
}

/// The first `n` of the expressions, with negation pushed down in each.
pub open spec fn spec_push_first(inputs: Seq<ExprView>, n: nat) -> Seq<ExprView>
    decreases inputs, n,
{
    if n == 0 || n > inputs.len() {
        Seq::empty()
    } else {
        spec_push_first(inputs, (n - 1) as nat).push(spec_push_not(inputs[n - 1], false))
    }
}

/// The expressions, with negation pushed down in each.
pub open spec fn spec_push_all(inputs: Seq<ExprView>) -> Seq<ExprView> {
    Seq::new(inputs.len(), |i: int| spec_push_not(inputs[i], false))
}

proof fn lemma_push_first(inputs: Seq<ExprView>, n: nat)
    requires
        n <= inputs.len(),
    ensures
        spec_push_first(inputs, n) == spec_push_all(inputs).subrange(0, n as int),
    decreases n,
{
    if n > 0 {
        lemma_push_first(inputs, (n - 1) as nat);
    }
    assert(spec_push_first(inputs, n) =~= spec_push_all(inputs).subrange(0, n as int));
}

/// Pushing negation down changes no value: on every row on which the
/// expression makes sense, the result makes sense too; it evaluates to the
/// same, and where it was to be negated, to the negation.
pub proof fn lemma_push_not_keeps_value(e: ExprView, negate: bool, row: Seq<Option<ScalarView>>)
    requires
        spec_well_formed(e, row),
        negate ==> spec_is_condition(spec_eval(e, row)),
    ensures
        spec_well_formed(spec_push_not(e, negate), row),
        spec_eval(spec_push_not(e, negate), row) == if negate {
            spec_condition(spec_not(spec_truth(spec_eval(e, row))))
        } else {
            spec_eval(e, row)
        },
    decreases e,
{
    match e {
        ExprView::FunctionCall { func_type, return_type, inputs } => {
            lemma_eval_call(func_type, return_type, inputs, row);
            let args = spec_evals(inputs, row);
            if func_type == ExprType::Not {
                assert(args[0] == spec_eval(inputs[0], row));
                assert(spec_is_condition(spec_eval(inputs[0], row)));
                lemma_push_not_keeps_value(inputs[0], !negate, row);
            } else if negate && (func_type == ExprType::And || func_type == ExprType::Or) {
                assert(args[0] == spec_eval(inputs[0], row));
                assert(args[1] == spec_eval(inputs[1], row));
                assert(spec_is_condition(spec_eval(inputs[0], row)));
                assert(spec_is_condition(spec_eval(inputs[1], row)));
                lemma_push_not_keeps_value(inputs[0], true, row);
                lemma_push_not_keeps_value(inputs[1], true, row);
                let pushed = seq![spec_push_not(inputs[0], true), spec_push_not(inputs[1], true)];
                let other = if func_type == ExprType::And {
                    ExprType::Or
                } else {
                    ExprType::And
                };
                lemma_eval_call(other, DataType::Boolean, pushed, row);
                let pushed_args = spec_evals(pushed, row);
                assert(pushed_args[0] == spec_eval(pushed[0], row));
                assert(pushed_args[1] == spec_eval(pushed[1], row));
            } else {
                let pushed = spec_push_all(inputs);
                lemma_push_first(inputs, inputs.len());
                assert(pushed.subrange(0, inputs.len() as int) =~= pushed);
                assert forall|i: int| 0 <= i < inputs.len() implies spec_well_formed(
                    #[trigger] pushed[i],
                    row,
                ) && spec_eval(pushed[i], row) == spec_eval(inputs[i], row) by {
                    lemma_push_not_keeps_value(inputs[i], false, row);
                }
                let kept = ExprView::FunctionCall { func_type, return_type, inputs: pushed };
                lemma_eval_call(func_type, return_type, pushed, row);
                assert(spec_evals(pushed, row) =~= args);
                assert(spec_well_formed(kept, row)) by {
                    if spec_takes_conditions(func_type) {
                        assert forall|i: int| 0 <= i < pushed.len() implies spec_is_condition(
                            spec_eval(#[trigger] pushed[i], row),
                        ) by {
                            assert(spec_is_condition(spec_eval(inputs[i], row)));
                        }
                    }
                }
                if negate {
                    lemma_eval_call(ExprType::Not, DataType::Boolean, seq![kept], row);
                    assert(spec_evals(seq![kept], row)[0] == spec_eval(kept, row));
                    assert(seq![kept][0] == kept);
                }
            }
        },
        _ => {
            if negate {
                lemma_eval_call(ExprType::Not, DataType::Boolean, seq![e], row);
                assert(spec_evals(seq![e], row)[0] == spec_eval(e, row));
                assert(seq![e][0] == e);
            }
        },
    }
}

/// The call of `func_type` on one or two expressions, which yields a
/// condition.
fn condition_call(func_type: ExprType, inputs: Vec<ExprImpl>) -> (r: ExprImpl)
    ensures
        r@ == spec_condition_call(func_type, spec_exprs_view(inputs@)),
{
    let call = FunctionCall::new_unchecked(func_type, inputs, DataType::Boolean);
    proof {
        lemma_call_view(call);
    }
    ExprImpl::FunctionCall(call)
}

/// The expression with negation pushed down, itself negated where
/// `negate` is set.
#[verifier::loop_isolation(false)]
fn push_not(expr: &ExprImpl, negate: bool) -> (r: ExprImpl)
    requires
        spec_pushable(expr@, negate),
    ensures
        r@ == spec_push_not(expr@, negate),
    decreases expr,
{
    match expr {
        ExprImpl::FunctionCall(call) => {
            proof {
                lemma_call_view(*call);
            }
            let ghost views = spec_exprs_view(call.inputs@);
            let func_type = call.func_type;
            if matches!(func_type, ExprType::Not) {
                // Not(Not(A)) <=> A
                assert(views[0] == call.inputs@[0]@);
                assert(spec_pushable(views[0], !negate));
                push_not(&call.inputs[0], !negate)
            } else if negate && (matches!(func_type, ExprType::And) || matches!(
                func_type,
                ExprType::Or
            )) {
                // Not(A And B) <=> Not(A) Or Not(B)
                // Not(A Or B) <=> Not(A) And Not(B)
                assert(views[0] == call.inputs@[0]@);
                assert(views[1] == call.inputs@[1]@);
                assert(spec_pushable(views[0], true));
                assert(spec_pushable(views[1], true));
                let lhs_not = push_not(&call.inputs[0], true);
                let rhs_not = push_not(&call.inputs[1], true);
                let mut inputs: Vec<ExprImpl> = Vec::new();
                inputs.push(lhs_not);
                inputs.push(rhs_not);
                assert(spec_exprs_view(inputs@) =~= seq![
                    spec_push_not(views[0], true),
                    spec_push_not(views[1], true),
                ]);
                if matches!(func_type, ExprType::And) {
                    condition_call(ExprType::Or, inputs)
                } else {
                    condition_call(ExprType::And, inputs)
                }
            } else {
                let mut inputs: Vec<ExprImpl> = Vec::new();
                let mut i: usize = 0;
                while i < call.inputs.len()
                    invariant
                        i <= call.inputs@.len(),
                        inputs@.len() == i,
                        forall|j: int|
                            0 <= j < i ==> (#[trigger] inputs@[j])@ == spec_push_not(
                                views[j],
                                false,
                            ),
                    decreases call.inputs@.len() - i,
                {
                    assert(views[i as int] == call.inputs@[i as int]@);
                    assert(spec_pushable(views[i as int], false));
                    inputs.push(push_not(&call.inputs[i], false));
                    i += 1;
                }
                proof {
                    lemma_push_first(views, views.len());
                    assert(spec_push_all(views).subrange(0, views.len() as int) =~= spec_push_all(
                        views,
                    ));
                    assert(spec_exprs_view(inputs@) =~= spec_push_all(views));
                }
                let kept = FunctionCall::new_unchecked(func_type, inputs, call.return_type);
                proof {
                    lemma_call_view(kept);
                }
                let kept = ExprImpl::FunctionCall(kept);
                if negate {
                    let mut inputs: Vec<ExprImpl> = Vec::new();
                    inputs.push(kept);
                    assert(spec_exprs_view(inputs@) =~= seq![kept@]);
                    condition_call(ExprType::Not, inputs)
                } else {
                    kept
                }
            }
        },
        other => {
            let copy = other.duplicate();
            if negate {
                let mut inputs: Vec<ExprImpl> = Vec::new();
                inputs.push(copy);
                assert(spec_exprs_view(inputs@) =~= seq![copy@]);
                condition_call(ExprType::Not, inputs)
            } else {
                copy
            }
        },
    }
}

/// Expand [`ExprType::Not`] expressions.
/// e.g. Not(A And B) will become (Not A) Or (Not B)
pub fn push_down_not(expr: ExprImpl) -> (r: ExprImpl)
    requires
        spec_pushable(expr@, false),
    ensures
        r@ == spec_push_not(expr@, false),
{
    push_not(&expr, false)
}

/// The operands of the outermost calls of `op` in the expression, from
/// left to right: of `(a AND b) AND c` with `AND`, they are `a`, `b`, `c`.
/// An expression that is no call of `op` is its own single operand.
pub open spec fn spec_split(e: ExprView, op: ExprType) -> Seq<ExprView>
    decreases e,
{
    match e {
        ExprView::FunctionCall { func_type, inputs, .. } => if func_type == op {
            spec_split_first(inputs, op, inputs.len())
        } else {
            seq![e]
        },
        _ => seq![e],
    }
}

/// The operands of the first `n` of the expressions, one behind the other.
pub open spec fn spec_split_first(inputs: Seq<ExprView>, op: ExprType, n: nat) -> Seq<ExprView>
    decreases inputs, n,
{
    if n == 0 || n > inputs.len() {
        Seq::empty()
    } else {
        spec_split_first(inputs, op, (n - 1) as nat) + spec_split(inputs[n - 1], op)
    }
}

/// The expressions joined by `op`, from left to right: `a`, `b`, `c`
/// become `(a op b) op c`. No expression gives `identity`.
pub open spec fn spec_merge(exprs: Seq<ExprView>, op: ExprType, identity: ExprView, n: nat) -> ExprView
    decreases n,
{
    if n == 0 || n > exprs.len() {
        identity
    } else if n == 1 {
        exprs[0]
    } else {
        spec_condition_call(op, seq![spec_merge(exprs, op, identity, (n - 1) as nat), exprs[n - 1]])
    }
}

/// Whether all of the first `n` conditions hold on a row, in three-valued
/// logic: the conjunction of their truths.
pub open spec fn spec_and_all(parts: Seq<ExprView>, row: Seq<Option<ScalarView>>, n: nat) -> Option<
    bool,
>
    decreases n,
{
    if n == 0 || n > parts.len() {
        Some(true)
    } else {
        spec_and(
            spec_and_all(parts, row, (n - 1) as nat),
            spec_truth(spec_eval(parts[n - 1], row)),
        )
    }
}

/// Whether one of the first `n` conditions holds on a row, in
/// three-valued logic: the disjunction of their truths.
pub open spec fn spec_or_all(parts: Seq<ExprView>, row: Seq<Option<ScalarView>>, n: nat) -> Option<
    bool,
>
    decreases n,
{
    if n == 0 || n > parts.len() {
        Some(false)
    } else {
        spec_or(spec_or_all(parts, row, (n - 1) as nat), spec_truth(spec_eval(parts[n - 1], row)))
    }
}

proof fn lemma_and_all_append(a: Seq<ExprView>, b: Seq<ExprView>, row: Seq<Option<ScalarView>>, n: nat)
    requires
        n <= b.len(),
    ensures
        spec_and_all(a + b.subrange(0, n as int), row, a.len() + n) == spec_and(
            spec_and_all(a, row, a.len()),
            spec_and_all(b, row, n),
        ),
    decreases n,
{
    let whole = a + b.subrange(0, n as int);
    if n == 0 {
        assert(whole =~= a);
    } else {
        lemma_and_all_append(a, b, row, (n - 1) as nat);
        let shorter = a + b.subrange(0, n - 1);
        assert(whole[a.len() + n - 1] == b[n - 1]);
        lemma_and_all_prefix(whole, shorter, row, (a.len() + n - 1) as nat);
    }
}

/// What holds of the first `n` conditions depends on the first `n` alone.
proof fn lemma_and_all_prefix(a: Seq<ExprView>, b: Seq<ExprView>, row: Seq<Option<ScalarView>>, n: nat)
    requires
        n <= a.len(),
        n <= b.len(),
        forall|i: int| 0 <= i < n ==> a[i] == b[i],
    ensures
        spec_and_all(a, row, n) == spec_and_all(b, row, n),
        spec_or_all(a, row, n) == spec_or_all(b, row, n),
    decreases n,
{
    if n > 0 {
        lemma_and_all_prefix(a, b, row, (n - 1) as nat);
    }
}

proof fn lemma_or_all_append(a: Seq<ExprView>, b: Seq<ExprView>, row: Seq<Option<ScalarView>>, n: nat)
    requires
        n <= b.len(),
    ensures
        spec_or_all(a + b.subrange(0, n as int), row, a.len() + n) == spec_or(
            spec_or_all(a, row, a.len()),
            spec_or_all(b, row, n),
        ),
    decreases n,
{
    let whole = a + b.subrange(0, n as int);
    if n == 0 {
        assert(whole =~= a);
    } else {
        lemma_or_all_append(a, b, row, (n - 1) as nat);
        let shorter = a + b.subrange(0, n - 1);
        assert(whole[a.len() + n - 1] == b[n - 1]);
        lemma_and_all_prefix(whole, shorter, row, (a.len() + n - 1) as nat);
    }
}

/// A condition holds exactly when all its conjuncts hold: the conjunction
/// of the truths of what `AND` is taken apart into is the truth of the
/// expression.
pub proof fn lemma_conjunctions_keep_truth(e: ExprView, row: Seq<Option<ScalarView>>)
    requires
        spec_well_formed(e, row),
    ensures
        spec_and_all(spec_split(e, ExprType::And), row, spec_split(e, ExprType::And).len())
            == spec_truth(spec_eval(e, row)),
    decreases e,
{
    match e {
        ExprView::FunctionCall { func_type: ExprType::And, return_type, inputs } => {
            lemma_eval_call(ExprType::And, return_type, inputs, row);
            let args = spec_evals(inputs, row);
            assert(args[0] == spec_eval(inputs[0], row));
            assert(args[1] == spec_eval(inputs[1], row));
            lemma_conjunctions_keep_truth(inputs[0], row);
            lemma_conjunctions_keep_truth(inputs[1], row);
            let left = spec_split(inputs[0], ExprType::And);
            let right = spec_split(inputs[1], ExprType::And);
            assert(spec_split_first(inputs, ExprType::And, 0) =~= Seq::empty());
            assert(spec_split_first(inputs, ExprType::And, 1) =~= left);
            assert(spec_split(e, ExprType::And) =~= left + right);
            lemma_and_all_append(left, right, row, right.len());
            assert(left + right.subrange(0, right.len() as int) =~= left + right);
            assert(spec_split(e, ExprType::And).len() == left.len() + right.len());
        },
        _ => {
            let alone = seq![e];
            assert(spec_split(e, ExprType::And) =~= alone);
            assert(alone[0] == e);
            assert(spec_and_all(alone, row, 0) == Some(true));
            assert(spec_and_all(alone, row, 1) == spec_and(
                spec_and_all(alone, row, 0),
                spec_truth(spec_eval(alone[0], row)),
            ));
        },
    }
}

/// A condition holds exactly when one of its disjuncts holds: the
/// disjunction of the truths of what `OR` is taken apart into is the truth
/// of the expression.
pub proof fn lemma_disjunctions_keep_truth(e: ExprView, row: Seq<Option<ScalarView>>)
    requires
        spec_well_formed(e, row),
    ensures
        spec_or_all(spec_split(e, ExprType::Or), row, spec_split(e, ExprType::Or).len())
            == spec_truth(spec_eval(e, row)),
    decreases e,
{
    match e {
        ExprView::FunctionCall { func_type: ExprType::Or, return_type, inputs } => {
            lemma_eval_call(ExprType::Or, return_type, inputs, row);
            let args = spec_evals(inputs, row);
            assert(args[0] == spec_eval(inputs[0], row));
            assert(args[1] == spec_eval(inputs[1], row));
            lemma_disjunctions_keep_truth(inputs[0], row);
            lemma_disjunctions_keep_truth(inputs[1], row);
            let left = spec_split(inputs[0], ExprType::Or);
            let right = spec_split(inputs[1], ExprType::Or);
            assert(spec_split_first(inputs, ExprType::Or, 0) =~= Seq::empty());
            assert(spec_split_first(inputs, ExprType::Or, 1) =~= left);
            assert(spec_split(e, ExprType::Or) =~= left + right);
            lemma_or_all_append(left, right, row, right.len());
            assert(left + right.subrange(0, right.len() as int) =~= left + right);
            assert(spec_split(e, ExprType::Or).len() == left.len() + right.len());
        },
        _ => {
            let alone = seq![e];
            assert(spec_split(e, ExprType::Or) =~= alone);
            assert(alone[0] == e);
            assert(spec_or_all(alone, row, 0) == Some(false));
            assert(spec_or_all(alone, row, 1) == spec_or(
                spec_or_all(alone, row, 0),
                spec_truth(spec_eval(alone[0], row)),
            ));
        },
    }
}

/// Joining conditions by `AND` gives a condition that holds exactly when
/// all of them hold.
pub proof fn lemma_merge_by_and(
    parts: Seq<ExprView>,
    identity: ExprView,
    row: Seq<Option<ScalarView>>,
    n: nat,
)
    requires
        1 <= n <= parts.len(),
    ensures
        spec_truth(spec_eval(spec_merge(parts, ExprType::And, identity, n), row)) == spec_and_all(
            parts,
            row,
            n,
        ),
    decreases n,
{
    if n > 1 {
        lemma_merge_by_and(parts, identity, row, (n - 1) as nat);
        let joined = seq![spec_merge(parts, ExprType::And, identity, (n - 1) as nat), parts[n - 1]];
        lemma_eval_call(ExprType::And, DataType::Boolean, joined, row);
        let args = spec_evals(joined, row);
        assert(joined[0] == spec_merge(parts, ExprType::And, identity, (n - 1) as nat));
        assert(joined[1] == parts[n - 1]);
        assert(args[0] == spec_eval(joined[0], row));
        assert(args[1] == spec_eval(joined[1], row));
        assert(spec_merge(parts, ExprType::And, identity, n) == spec_condition_call(
            ExprType::And,
            joined,
        ));
    } else {
        assert(spec_and_all(parts, row, 0) == Some(true));
    }
}

/// Joining conditions by `OR` gives a condition that holds exactly when
/// one of them holds.
pub proof fn lemma_merge_by_or(
    parts: Seq<ExprView>,
    identity: ExprView,
    row: Seq<Option<ScalarView>>,
    n: nat,
)
    requires
        1 <= n <= parts.len(),
    ensures
        spec_truth(spec_eval(spec_merge(parts, ExprType::Or, identity, n), row)) == spec_or_all(
            parts,
            row,
            n,
        ),
    decreases n,
{
    if n > 1 {
        lemma_merge_by_or(parts, identity, row, (n - 1) as nat);
        let joined = seq![spec_merge(parts, ExprType::Or, identity, (n - 1) as nat), parts[n - 1]];
        lemma_eval_call(ExprType::Or, DataType::Boolean, joined, row);
        let args = spec_evals(joined, row);
        assert(joined[0] == spec_merge(parts, ExprType::Or, identity, (n - 1) as nat));
        assert(joined[1] == parts[n - 1]);
        assert(args[0] == spec_eval(joined[0], row));
        assert(args[1] == spec_eval(joined[1], row));
        assert(spec_merge(parts, ExprType::Or, identity, n) == spec_condition_call(
            ExprType::Or,
            joined,
        ));
    } else {
        assert(spec_or_all(parts, row, 0) == Some(false));
    }
}

/// Appends the operands of the outermost calls of `op` in `expr` to
/// `rets`.
#[verifier::loop_isolation(false)]
pub fn split_expr_by(expr: &ExprImpl, op: ExprType, rets: &mut Vec<ExprImpl>)
    ensures
        spec_exprs_view(final(rets)@) == spec_exprs_view(old(rets)@) + spec_split(expr@, op),
    decreases expr,
{
    let ghost before = spec_exprs_view(rets@);
    match expr {
        ExprImpl::FunctionCall(call) if call.func_type == op => {
            proof {
                lemma_call_view(*call);
            }
            let ghost views = spec_exprs_view(call.inputs@);
            let mut i: usize = 0;
            assert(spec_exprs_view(rets@) =~= before + spec_split_first(views, op, 0));
            while i < call.inputs.len()
                invariant
                    i <= call.inputs@.len(),
                    spec_exprs_view(rets@) == before + spec_split_first(views, op, i as nat),
                decreases call.inputs@.len() - i,
            {
                assert(views[i as int] == call.inputs@[i as int]@);
                let ghost so_far = spec_exprs_view(rets@);
                split_expr_by(&call.inputs[i], op, rets);
                assert(spec_exprs_view(rets@) =~= before + spec_split_first(
                    views,
                    op,
                    (i + 1) as nat,
                ));
                i += 1;
            }
        },
        _ => {
            let copy = expr.duplicate();
            rets.push(copy);
            assert(spec_exprs_view(rets@) =~= before + seq![expr@]);
        },
    }
}

/// Joins the expressions by `op`, from left to right; no expression gives
/// `identity_elem`.
pub fn merge_expr_by_binary(exprs: Vec<ExprImpl>, op: ExprType, identity_elem: ExprImpl) -> (r:
    ExprImpl)
    ensures
        r@ == spec_merge(spec_exprs_view(exprs@), op, identity_elem@, exprs@.len()),
{
    let ghost views = spec_exprs_view(exprs@);
    if exprs.len() == 0 {
        return identity_elem;
    }
    assert(views[0] == exprs@[0]@);
    let mut ret = exprs[0].duplicate();
    let mut i: usize = 1;
    while i < exprs.len()
        invariant
            1 <= i <= exprs@.len(),
            views == spec_exprs_view(exprs@),
            ret@ == spec_merge(views, op, identity_elem@, i as nat),
        decreases exprs@.len() - i,
    {
        assert(views[i as int] == exprs@[i as int]@);
        let mut inputs: Vec<ExprImpl> = Vec::new();
        inputs.push(ret);
        inputs.push(exprs[i].duplicate());
        assert(spec_exprs_view(inputs@) =~= seq![
            spec_merge(views, op, identity_elem@, i as nat),
            views[i as int],
        ]);
        ret = condition_call(op, inputs);
        i += 1;
    }
    ret
}

/// Transform a bool expression to Conjunctive form. e.g. given expression is
/// (expr1 AND expr2 AND expr3) the function will return Vec[expr1, expr2, expr3].
pub fn to_conjunctions(expr: ExprImpl) -> (r: Vec<ExprImpl>)
    ensures
        spec_exprs_view(r@) == spec_split(expr@, ExprType::And),
{
    let mut rets: Vec<ExprImpl> = Vec::new();
    split_expr_by(&expr, ExprType::And, &mut rets);
    assert(spec_exprs_view(rets@) =~= spec_split(expr@, ExprType::And));
    rets
}

/// Transform a bool expression to Disjunctive form. e.g. given expression is
/// (expr1 OR expr2 OR expr3) the function will return Vec[expr1, expr2, expr3].
pub fn to_disjunctions(expr: ExprImpl) -> (r: Vec<ExprImpl>)
    ensures
        spec_exprs_view(r@) == spec_split(expr@, ExprType::Or),
{
    let mut rets: Vec<ExprImpl> = Vec::new();
    split_expr_by(&expr, ExprType::Or, &mut rets);
    assert(spec_exprs_view(rets@) =~= spec_split(expr@, ExprType::Or));
    rets
}

} // verus!
