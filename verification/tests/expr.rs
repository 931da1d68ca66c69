use hummock::data_chunk::DataType;
use hummock::expr::{ExprImpl, ExprType as Type, FunctionCall, InputRef, InvalidInputNumber, ScalarImpl};
use hummock::count_now::CountNow;
use hummock::watermark::{is_utc, try_derive_watermark, WatermarkDerivation};
use hummock::expr_utils::{
    fold_boolean_constant, merge_expr_by_binary, push_down_not, to_conjunctions, to_disjunctions,
    try_get_bool_constant,
};

fn call(func_type: Type, inputs: Vec<ExprImpl>) -> ExprImpl {
    ExprImpl::FunctionCall(FunctionCall::new(func_type, inputs).unwrap())
}

fn input(index: usize) -> ExprImpl {
    ExprImpl::InputRef(InputRef::new(index, DataType::Boolean))
}

#[test]
fn constant_boolean_folding_basic_and() {
    // expr := A && true
    let expr: ExprImpl = ExprImpl::FunctionCall(
        FunctionCall::new(
            Type::And,
            vec![
                ExprImpl::InputRef(InputRef::new(0, DataType::Boolean)),
                ExprImpl::literal_bool(true),
            ],
        )
        .unwrap(),
    );

    let res = fold_boolean_constant(expr);

    assert!(res.as_input_ref().is_some());
    let res = res.as_input_ref().unwrap();
    assert_eq!(res.index(), 0);

    // expr := A && false
    let expr: ExprImpl = ExprImpl::FunctionCall(
        FunctionCall::new(
            Type::And,
            vec![
                ExprImpl::InputRef(InputRef::new(0, DataType::Boolean)),
                ExprImpl::literal_bool(false),
            ],
        )
        .unwrap(),
    );

    let res = fold_boolean_constant(expr);
    assert!(res.as_literal().is_some());
    let res = res.as_literal().unwrap();
    assert_eq!(*res.get_data(), Some(ScalarImpl::Bool(false)));
}

#[test]
fn constant_boolean_folding_basic_or() {
    // expr := A || true
    let expr: ExprImpl = ExprImpl::FunctionCall(
        FunctionCall::new(
            Type::Or,
            vec![
                ExprImpl::InputRef(InputRef::new(0, DataType::Boolean)),
                ExprImpl::literal_bool(true),
            ],
        )
        .unwrap(),
    );

    let res = fold_boolean_constant(expr);
    assert!(res.as_literal().is_some());
    let res = res.as_literal().unwrap();
    assert_eq!(*res.get_data(), Some(ScalarImpl::Bool(true)));

    // expr := A || false
    let expr: ExprImpl = ExprImpl::FunctionCall(
        FunctionCall::new(
            Type::Or,
            vec![
                ExprImpl::InputRef(InputRef::new(0, DataType::Boolean)),
                ExprImpl::literal_bool(false),
            ],
        )
        .unwrap(),
    );

    let res = fold_boolean_constant(expr);

    assert!(res.as_input_ref().is_some());
    let res = res.as_input_ref().unwrap();
    assert_eq!(res.index(), 0);
}

#[test]
fn constant_boolean_folding_complex() {
    // expr := (false && true) && (true || 1 == 2)
    let expr: ExprImpl = ExprImpl::FunctionCall(
        FunctionCall::new(
            Type::And,
            vec![
                ExprImpl::FunctionCall(
                    FunctionCall::new(
                        Type::And,
                        vec![ExprImpl::literal_bool(false), ExprImpl::literal_bool(true)],
                    )
                    .unwrap(),
                ),
                ExprImpl::FunctionCall(
                    FunctionCall::new(
                        Type::Or,
                        vec![
                            ExprImpl::literal_bool(true),
                            ExprImpl::FunctionCall(
                                FunctionCall::new(
                                    Type::Equal,
                                    vec![ExprImpl::literal_int(1), ExprImpl::literal_int(2)],
                                )
                                .unwrap(),
                            ),
                        ],
                    )
                    .unwrap(),
                ),
            ],
        )
        .unwrap(),
    );

    let res = fold_boolean_constant(expr);

    assert!(res.as_literal().is_some());
    let res = res.as_literal().unwrap();
    assert_eq!(*res.get_data(), Some(ScalarImpl::Bool(false)));
}

#[test]
fn not_push_down_test() {
    // Not(Not(A))
    let expr: ExprImpl = ExprImpl::FunctionCall(
        FunctionCall::new(
            Type::Not,
            vec![ExprImpl::FunctionCall(
                FunctionCall::new(
                    Type::Not,
                    vec![ExprImpl::InputRef(InputRef::new(0, DataType::Boolean))],
                )
                .unwrap(),
            )],
        )
        .unwrap(),
    );
    let res = push_down_not(expr);
    assert!(res.as_input_ref().is_some());
    // Not(A And Not(B)) <=> Not(A) Or B
    let expr: ExprImpl = ExprImpl::FunctionCall(
        FunctionCall::new(
            Type::Not,
            vec![ExprImpl::FunctionCall(
                FunctionCall::new(
                    Type::And,
                    vec![
                        ExprImpl::InputRef(InputRef::new(0, DataType::Boolean)),
                        ExprImpl::FunctionCall(
                            FunctionCall::new(
                                Type::Not,
                                vec![ExprImpl::InputRef(InputRef::new(1, DataType::Boolean))],
                            )
                            .unwrap(),
                        ),
                    ],
                )
                .unwrap(),
            )],
        )
        .unwrap(),
    );
    let res = push_down_not(expr);
    assert!(res.as_function_call().is_some());
    let res = match res {
        ExprImpl::FunctionCall(call) => call,
        _ => unreachable!(),
    };
    let (func, lhs, rhs) = res.decompose_as_binary();
    assert_eq!(func, Type::Or);
    assert!(rhs.as_input_ref().is_some());
    assert!(lhs.as_function_call().is_some());
    let lhs = match lhs {
        ExprImpl::FunctionCall(call) => call,
        _ => unreachable!(),
    };
    let (func, input) = lhs.decompose_as_unary();
    assert_eq!(func, Type::Not);
    assert!(input.as_input_ref().is_some());
    // Not(A Or B) <=> Not(A) And Not(B)
    let expr: ExprImpl = ExprImpl::FunctionCall(
        FunctionCall::new(
            Type::Not,
            vec![ExprImpl::FunctionCall(
                FunctionCall::new(
                    Type::Or,
                    vec![
                        ExprImpl::InputRef(InputRef::new(0, DataType::Boolean)),
                        ExprImpl::InputRef(InputRef::new(1, DataType::Boolean)),
                    ],
                )
                .unwrap(),
            )],
        )
        .unwrap(),
    );
    let res = push_down_not(expr);
    assert!(res.as_function_call().is_some());
    let (func_type, lhs, rhs) = match res {
        ExprImpl::FunctionCall(call) => call.decompose_as_binary(),
        _ => unreachable!(),
    };
    assert_eq!(func_type, Type::And);
    let (lhs_type, lhs_input) = match lhs {
        ExprImpl::FunctionCall(call) => call.decompose_as_unary(),
        _ => unreachable!(),
    };
    assert_eq!(lhs_type, Type::Not);
    assert!(lhs_input.as_input_ref().is_some());
    let (rhs_type, rhs_input) = match rhs {
        ExprImpl::FunctionCall(call) => call.decompose_as_unary(),
        _ => unreachable!(),
    };
    assert_eq!(rhs_type, Type::Not);
    assert!(rhs_input.as_input_ref().is_some());
}

#[test]
fn test_fold_unary_functions() {
    let null = || ExprImpl::Literal(hummock::expr::Literal::new(None, DataType::Boolean));
    let t = || ExprImpl::literal_bool(true);
    let f = || ExprImpl::literal_bool(false);
    let cases = vec![
        (call(Type::Not, vec![t()]), f()),
        (call(Type::IsTrue, vec![null()]), f()),
        (call(Type::IsTrue, vec![t()]), t()),
        (call(Type::IsFalse, vec![null()]), f()),
        (call(Type::IsFalse, vec![f()]), t()),
        (call(Type::IsNotTrue, vec![null()]), t()),
        (call(Type::IsNotTrue, vec![t()]), f()),
        (call(Type::IsNotFalse, vec![null()]), t()),
        (call(Type::IsNotFalse, vec![f()]), f()),
        (call(Type::IsNull, vec![null()]), t()),
        (call(Type::IsNotNull, vec![null()]), f()),
        (call(Type::IsNotNull, vec![ExprImpl::literal_int(3)]), t()),
        (call(Type::Or, vec![f(), call(Type::Not, vec![f()])]), t()),
    ];
    for (expr, expected) in cases {
        assert!(expr.has_valid_arity());
        assert_eq!(fold_boolean_constant(expr), expected);
    }
    // what is no constant stays
    let kept = call(Type::IsNull, vec![input(0)]);
    assert_eq!(fold_boolean_constant(kept.duplicate()), kept);
    let kept = call(Type::Not, vec![null()]);
    assert_eq!(fold_boolean_constant(kept.duplicate()), kept);
    assert_eq!(try_get_bool_constant(&t()), Some(true));
    assert_eq!(try_get_bool_constant(&null()), None);
    assert_eq!(try_get_bool_constant(&ExprImpl::literal_int(1)), None);
}

#[test]
fn test_conjunctions_and_disjunctions() {
    let expr = call(
        Type::And,
        vec![
            call(Type::And, vec![input(0), call(Type::Or, vec![input(1), input(2)])]),
            input(3),
        ],
    );
    let parts = to_conjunctions(expr.duplicate());
    assert_eq!(parts, vec![input(0), call(Type::Or, vec![input(1), input(2)]), input(3)]);
    assert_eq!(to_disjunctions(expr.duplicate()), vec![expr.duplicate()]);
    assert_eq!(
        to_disjunctions(call(Type::Or, vec![input(1), call(Type::Or, vec![input(2), input(3)])])),
        vec![input(1), input(2), input(3)]
    );
    let merged = merge_expr_by_binary(parts, Type::And, ExprImpl::literal_bool(true));
    assert_eq!(merged, expr);
    assert_eq!(
        merge_expr_by_binary(vec![], Type::And, ExprImpl::literal_bool(true)),
        ExprImpl::literal_bool(true)
    );
    assert_eq!(merge_expr_by_binary(vec![input(7)], Type::Or, ExprImpl::literal_bool(false)), input(7));
}

#[test]
fn test_arity_is_checked() {
    assert_eq!(
        FunctionCall::new(Type::Not, vec![input(0), input(1)]),
        Err(InvalidInputNumber { func_type: Type::Not, actual: 2 })
    );
    assert_eq!(
        FunctionCall::new(Type::And, vec![input(0)]),
        Err(InvalidInputNumber { func_type: Type::And, actual: 1 })
    );
    let bad = ExprImpl::FunctionCall(FunctionCall::new_unchecked(
        Type::Or,
        vec![call(Type::Not, vec![input(0)]), ExprImpl::FunctionCall(FunctionCall::new_unchecked(Type::Not, vec![], DataType::Boolean))],
        DataType::Boolean,
    ));
    assert!(!bad.has_valid_arity());
    assert!(call(Type::Equal, vec![input(0), input(1)]).has_valid_arity());
    let (func_type, inputs, return_type) =
        FunctionCall::new(Type::LessThan, vec![input(0), input(1)]).unwrap().decompose();
    assert_eq!((func_type, return_type), (Type::LessThan, DataType::Boolean));
    assert_eq!(inputs, vec![input(0), input(1)]);
    assert_eq!(FunctionCall::new(Type::Not, vec![input(0)]).unwrap().func_type(), Type::Not);
    assert!(input(0).has_valid_arity());
    assert!(!input(0).is_null());
}

#[test]
fn test_push_down_not_keeps_other_functions() {
    // Not(IsNull(Not(Not(A))) And B) <=> Not(IsNull(A)) Or Not(B)
    let expr = call(
        Type::Not,
        vec![call(
            Type::And,
            vec![
                call(Type::IsNull, vec![call(Type::Not, vec![call(Type::Not, vec![input(0)])])]),
                input(1),
            ],
        )],
    );
    assert_eq!(
        push_down_not(expr),
        call(
            Type::Or,
            vec![
                call(Type::Not, vec![call(Type::IsNull, vec![input(0)])]),
                call(Type::Not, vec![input(1)]),
            ],
        )
    );
    assert_eq!(push_down_not(input(4)), input(4));
    assert_eq!(
        push_down_not(call(Type::Not, vec![ExprImpl::literal_bool(true)])),
        call(Type::Not, vec![ExprImpl::literal_bool(true)])
    );
}

#[test]
fn test_collect_input_refs() {
    let exprs = vec![
        call(Type::And, vec![input(3), call(Type::Not, vec![input(1)])]),
        ExprImpl::literal_bool(true),
        call(Type::Equal, vec![input(1), ExprImpl::literal_int(4)]),
    ];
    let bits = hummock::input_refs::collect_input_refs(5, &exprs);
    assert_eq!(bits.len(), 5);
    assert_eq!(bits.ones().collect::<Vec<_>>(), vec![1, 3]);
    let none = hummock::input_refs::collect_input_refs(2, &vec![]);
    assert_eq!(none.len(), 2);
    assert_eq!(none.count_ones(..), 0);
    let mut start = fixedbitset::FixedBitSet::with_capacity(4);
    start.insert(0);
    let mut collector = hummock::input_refs::CollectInputRef::new(start);
    assert_eq!(collector.capacity(), 4);
    assert!(collector.fits(&exprs[0]));
    assert!(!collector.fits(&input(4)));
    collector.visit_expr(&exprs[0]);
    assert!(collector.contains(0) && collector.contains(1) && collector.contains(3));
    assert!(!collector.contains(2) && !collector.contains(4) && !collector.contains(400));
    assert_eq!(collector.into_bits().ones().collect::<Vec<_>>(), vec![0, 1, 3]);
    let empty = hummock::input_refs::CollectInputRef::with_capacity(3);
    assert!(!empty.contains(0));
}

#[test]
fn test_factorization() {
    let and = |a: ExprImpl, b: ExprImpl| call(Type::And, vec![a, b]);
    let or = |a: ExprImpl, b: ExprImpl| call(Type::Or, vec![a, b]);
    let (a, b, c, d, e) = (|| input(0), || input(1), || input(2), || input(3), || input(4));
    // (A & B & C & D) | (B & C & D) | (C & D & E)
    let expr = or(
        or(and(and(and(a(), b()), c()), d()), and(and(b(), c()), d())),
        and(and(c(), d()), e()),
    );
    assert!(expr.has_valid_arity());
    // C & D & ((A & B) | (B) | (E))
    assert_eq!(
        hummock::factorization::factorization_expr(expr),
        vec![c(), d(), or(or(and(a(), b()), b()), e())]
    );
    // (A & B) | A is A & (B | true), and B | true is true
    assert_eq!(
        hummock::factorization::factorization_expr(or(and(a(), b()), a())),
        vec![a(), ExprImpl::literal_bool(true)]
    );
    // what is no disjunction is its own factor
    assert_eq!(
        hummock::factorization::factorization_expr(and(a(), b())),
        vec![and(a(), b())]
    );
    // nothing in common: one factor
    assert_eq!(
        hummock::factorization::factorization_expr(or(a(), b())),
        vec![or(a(), b())]
    );
    assert!(hummock::factorization::same_expr(&and(a(), b()), &and(a(), b())));
    assert!(!hummock::factorization::same_expr(&and(a(), b()), &and(b(), a())));
    assert!(!hummock::factorization::same_expr(&and(a(), b()), &or(a(), b())));
    assert!(!hummock::factorization::same_expr(&a(), &ExprImpl::literal_int(0)));
    assert!(hummock::factorization::contains_expr(&vec![a(), b()], &b()));
    assert!(!hummock::factorization::contains_expr(&vec![a(), b()], &c()));
}

#[test]
fn test_rewriters_take_calls_of_any_length_where_nothing_is_to_fold() {
    // AND of three columns: nothing to fold, the call stays
    let wide = ExprImpl::FunctionCall(FunctionCall::new_unchecked(
        Type::And,
        vec![input(0), input(1), input(2)],
        DataType::Boolean,
    ));
    assert_eq!(fold_boolean_constant(wide.duplicate()), wide);
    assert_eq!(push_down_not(wide.duplicate()), wide);
    // a comparison without arguments
    let bare = ExprImpl::FunctionCall(FunctionCall::new_unchecked(Type::Equal, vec![], DataType::Boolean));
    assert_eq!(fold_boolean_constant(bare.duplicate()), bare);
    assert_eq!(push_down_not(bare.duplicate()), bare);
    // IS NULL looks at its first argument only
    let long = ExprImpl::FunctionCall(FunctionCall::new_unchecked(
        Type::IsNull,
        vec![ExprImpl::Literal(hummock::expr::Literal::new(None, DataType::Boolean)), input(0)],
        DataType::Boolean,
    ));
    assert_eq!(try_get_bool_constant(&fold_boolean_constant(long)), Some(true));
    // the arguments of a wide call are folded all the same
    let nested = ExprImpl::FunctionCall(FunctionCall::new_unchecked(
        Type::Or,
        vec![input(0), call(Type::And, vec![input(1), ExprImpl::literal_bool(true)]), input(2)],
        DataType::Boolean,
    ));
    let folded = ExprImpl::FunctionCall(FunctionCall::new_unchecked(
        Type::Or,
        vec![input(0), input(1), input(2)],
        DataType::Boolean,
    ));
    assert_eq!(fold_boolean_constant(nested), folded);
    // NOT over a wide OR that is not negated itself
    let kept = call(Type::Not, vec![call(Type::Not, vec![folded.duplicate()])]);
    assert_eq!(push_down_not(kept), folded);
}

fn column(index: usize, data_type: DataType) -> ExprImpl {
    ExprImpl::InputRef(InputRef::new(index, data_type))
}

fn text(s: &str) -> ExprImpl {
    ExprImpl::Literal(hummock::expr::Literal::new(Some(ScalarImpl::Utf8(s.to_string())), DataType::Varchar))
}

fn interval(months: i32, days: i32, usecs: i64) -> ExprImpl {
    ExprImpl::Literal(hummock::expr::Literal::new(
        Some(ScalarImpl::Interval(hummock::expr::Interval { months, days, usecs })),
        DataType::Interval,
    ))
}

fn null(data_type: DataType) -> ExprImpl {
    ExprImpl::Literal(hummock::expr::Literal::new(None, data_type))
}

fn typed(func_type: Type, inputs: Vec<ExprImpl>, return_type: DataType) -> ExprImpl {
    ExprImpl::FunctionCall(FunctionCall::new_unchecked(func_type, inputs, return_type))
}

#[test]
fn test_watermark_of_arithmetic() {
    let ts = || column(3, DataType::Timestamp);
    let one = || ExprImpl::literal_int(1);
    let now = || typed(Type::Proctime, vec![], DataType::Timestamptz);
    assert_eq!(try_derive_watermark(&ts()), WatermarkDerivation::Watermark(3));
    assert_eq!(try_derive_watermark(&one()), WatermarkDerivation::Constant);
    assert_eq!(try_derive_watermark(&now()), WatermarkDerivation::Nondecreasing);
    let add = |a, b| typed(Type::Add, vec![a, b], DataType::Timestamp);
    let sub = |a, b| typed(Type::Subtract, vec![a, b], DataType::Timestamp);
    assert_eq!(try_derive_watermark(&add(one(), one())), WatermarkDerivation::Constant);
    assert_eq!(try_derive_watermark(&add(ts(), one())), WatermarkDerivation::Watermark(3));
    assert_eq!(try_derive_watermark(&add(one(), ts())), WatermarkDerivation::Watermark(3));
    assert_eq!(try_derive_watermark(&add(now(), one())), WatermarkDerivation::Nondecreasing);
    assert_eq!(try_derive_watermark(&add(one(), now())), WatermarkDerivation::Nondecreasing);
    assert_eq!(try_derive_watermark(&add(ts(), ts())), WatermarkDerivation::Unknown);
    assert_eq!(try_derive_watermark(&sub(ts(), one())), WatermarkDerivation::Watermark(3));
    assert_eq!(try_derive_watermark(&sub(one(), ts())), WatermarkDerivation::Unknown);
    assert_eq!(try_derive_watermark(&sub(now(), one())), WatermarkDerivation::Nondecreasing);
    assert_eq!(try_derive_watermark(&sub(one(), now())), WatermarkDerivation::Unknown);
    assert_eq!(
        try_derive_watermark(&typed(Type::TumbleStart, vec![ts(), interval(0, 0, 1)], DataType::Timestamp)),
        WatermarkDerivation::Watermark(3)
    );
    for op in [Type::Multiply, Type::Divide, Type::Modulus] {
        assert_eq!(try_derive_watermark(&typed(op, vec![one(), one()], DataType::Int32)), WatermarkDerivation::Constant);
        assert_eq!(try_derive_watermark(&typed(op, vec![ts(), one()], DataType::Int32)), WatermarkDerivation::Unknown);
    }
    // nested: (ts + 1) - 1 keeps the column, 1 - (ts + 1) does not
    assert_eq!(try_derive_watermark(&sub(add(ts(), one()), one())), WatermarkDerivation::Watermark(3));
    assert_eq!(try_derive_watermark(&sub(one(), add(ts(), one()))), WatermarkDerivation::Unknown);
    assert_eq!(try_derive_watermark(&typed(Type::ToTimestamp, vec![ts()], DataType::Timestamptz)), WatermarkDerivation::Watermark(3));
    // functions that are not looked into, whatever their arguments
    assert_eq!(try_derive_watermark(&typed(Type::ToTimestamp1, vec![ts()], DataType::Timestamptz)), WatermarkDerivation::Unknown);
    assert_eq!(try_derive_watermark(&typed(Type::Cast, vec![ts()], DataType::Int64)), WatermarkDerivation::Unknown);
    assert_eq!(try_derive_watermark(&typed(Type::Case, vec![], DataType::Int64)), WatermarkDerivation::Unknown);
    assert_eq!(try_derive_watermark(&typed(Type::Equal, vec![ts()], DataType::Boolean)), WatermarkDerivation::Unknown);
}

#[test]
fn test_watermark_through_time_zones() {
    let ts = || column(1, DataType::Timestamp);
    let tstz = || column(2, DataType::Timestamptz);
    // a time without zone that is given one keeps its watermark in any zone
    let at = |time, zone, ret| typed(Type::AtTimeZone, vec![time, zone], ret);
    assert_eq!(
        try_derive_watermark(&at(ts(), text("Asia/Shanghai"), DataType::Timestamptz)),
        WatermarkDerivation::Watermark(1)
    );
    // a time with zone that is shown without keeps it in UTC only
    assert_eq!(try_derive_watermark(&at(tstz(), text("utc"), DataType::Timestamp)), WatermarkDerivation::Watermark(2));
    assert_eq!(try_derive_watermark(&at(tstz(), text("UTC"), DataType::Timestamp)), WatermarkDerivation::Watermark(2));
    assert_eq!(try_derive_watermark(&at(tstz(), text("UTC "), DataType::Timestamp)), WatermarkDerivation::Unknown);
    assert_eq!(try_derive_watermark(&at(tstz(), text("Asia/Shanghai"), DataType::Timestamp)), WatermarkDerivation::Unknown);
    assert_eq!(try_derive_watermark(&at(tstz(), null(DataType::Varchar), DataType::Timestamp)), WatermarkDerivation::Unknown);
    assert_eq!(try_derive_watermark(&at(text("x"), text("y"), DataType::Timestamp)), WatermarkDerivation::Constant);
    assert_eq!(try_derive_watermark(&at(tstz(), column(0, DataType::Varchar), DataType::Timestamp)), WatermarkDerivation::Unknown);

    let shift = |op, time, span, zone| typed(op, vec![time, span, zone], DataType::Timestamptz);
    for op in [Type::AddWithTimeZone, Type::SubtractWithTimeZone] {
        // an amount of time keeps the order in every zone
        assert_eq!(try_derive_watermark(&shift(op, tstz(), interval(0, 0, 5), text("Asia/Shanghai"))), WatermarkDerivation::Watermark(2));
        // days keep it where the clock never changes
        assert_eq!(try_derive_watermark(&shift(op, tstz(), interval(0, 1, 0), text("Utc"))), WatermarkDerivation::Watermark(2));
        assert_eq!(try_derive_watermark(&shift(op, tstz(), interval(0, 1, 0), null(DataType::Varchar))), WatermarkDerivation::Watermark(2));
        assert_eq!(try_derive_watermark(&shift(op, tstz(), interval(0, 1, 0), text("Asia/Shanghai"))), WatermarkDerivation::Unknown);
        // months never do
        assert_eq!(try_derive_watermark(&shift(op, tstz(), interval(1, 0, 0), text("UTC"))), WatermarkDerivation::Unknown);
        assert_eq!(try_derive_watermark(&shift(op, tstz(), null(DataType::Interval), text("Asia/Shanghai"))), WatermarkDerivation::Watermark(2));
        assert_eq!(try_derive_watermark(&shift(op, text("c"), interval(1, 0, 0), text("UTC"))), WatermarkDerivation::Constant);
        // the span and the zone have to be constants
        assert_eq!(try_derive_watermark(&shift(op, tstz(), column(0, DataType::Interval), text("UTC"))), WatermarkDerivation::Unknown);
        assert_eq!(try_derive_watermark(&shift(op, tstz(), interval(0, 0, 5), column(0, DataType::Varchar))), WatermarkDerivation::Unknown);
    }

    let trunc2 = |unit, time| typed(Type::DateTrunc, vec![unit, time], DataType::Timestamp);
    assert_eq!(try_derive_watermark(&trunc2(text("hour"), ts())), WatermarkDerivation::Watermark(1));
    assert_eq!(try_derive_watermark(&trunc2(text("hour"), text("t"))), WatermarkDerivation::Constant);
    assert_eq!(try_derive_watermark(&trunc2(column(0, DataType::Varchar), ts())), WatermarkDerivation::Unknown);
    let trunc3 = |unit, time, zone| typed(Type::DateTrunc, vec![unit, time, zone], DataType::Timestamptz);
    assert_eq!(try_derive_watermark(&trunc3(text("hour"), tstz(), text("uTc"))), WatermarkDerivation::Watermark(2));
    assert_eq!(try_derive_watermark(&trunc3(text("hour"), tstz(), text("Asia/Shanghai"))), WatermarkDerivation::Unknown);
    assert_eq!(try_derive_watermark(&trunc3(text("hour"), tstz(), null(DataType::Varchar))), WatermarkDerivation::Unknown);
    assert_eq!(try_derive_watermark(&trunc3(text("hour"), text("t"), text("z"))), WatermarkDerivation::Constant);
    assert_eq!(try_derive_watermark(&trunc3(text("hour"), tstz(), tstz())), WatermarkDerivation::Unknown);
}

#[test]
fn test_is_utc_reads_what_std_reads() {
    for s in ["UTC", "utc", "uTc", "Utc", "", "UT", "UTCC", " UTC", "UTX", "ÜTC", "GMT", "U\u{0}C"] {
        assert_eq!(is_utc(s), s.eq_ignore_ascii_case("UTC"));
    }
    assert!(is_utc("utC"));
    assert!(!is_utc("Asia/Shanghai"));
}

#[test]
fn test_text_values_are_told_apart() {
    assert_eq!(text("a"), text("a").duplicate());
    assert!(ScalarImpl::Utf8("a".to_string()).same(&ScalarImpl::Utf8("a".to_string())));
    assert!(!ScalarImpl::Utf8("a".to_string()).same(&ScalarImpl::Utf8("b".to_string())));
    assert!(!ScalarImpl::Utf8("1".to_string()).same(&ScalarImpl::Int32(1)));
    assert!(interval(1, 2, 3) != interval(1, 2, 4));
    assert_eq!(interval(1, 2, 3).return_type(), DataType::Interval);
    assert_eq!(null(DataType::Varchar).return_type(), DataType::Varchar);
    assert_eq!(typed(Type::Add, vec![], DataType::Int64).return_type(), DataType::Int64);
}

#[test]
fn test_count_now() {
    let now = || ExprImpl::Now(hummock::expr::Now);
    let mut counter = CountNow::default();
    assert_eq!(counter.visit_expr(&input(0)), 0);
    assert_eq!(counter.visit_expr(&ExprImpl::literal_bool(true)), 0);
    assert_eq!(counter.visit_expr(&now()), 1);
    let compared = typed(
        Type::GreaterThan,
        vec![
            column(0, DataType::Timestamptz),
            typed(Type::Subtract, vec![now(), interval(0, 0, 1)], DataType::Timestamptz),
        ],
        DataType::Boolean,
    );
    assert_eq!(counter.visit_expr(&compared), 1);
    let both = typed(Type::And, vec![compared.duplicate(), typed(Type::LessThan, vec![now(), now()], DataType::Boolean)], DataType::Boolean);
    assert_eq!(counter.visit_expr(&both), 3);
    assert_eq!(counter.visit_expr(&typed(Type::Case, vec![], DataType::Int64)), 0);
    assert_eq!(CountNow::merge(2, 3), 5);
    assert_eq!(now(), now().duplicate());
    assert_eq!(now().return_type(), DataType::Timestamptz);
    // the rewriters leave it where it is
    assert_eq!(fold_boolean_constant(both.duplicate()), both);
    assert_eq!(push_down_not(call(Type::Not, vec![call(Type::Not, vec![now()])])), now());
}
