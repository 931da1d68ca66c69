//! Whether an expression carries a watermark on.
//!
//! A watermark on a column says that no later row has a smaller value in
//! it. An expression over such a column gives a column with a watermark of
//! its own if it never falls while the column rises: adding a constant does
//! not, multiplying may. Shifting a time by months, or by days in a time
//! zone that changes its clock, may let it fall; only in `UTC` it does not.

use crate::data_chunk::DataType;
use crate::expr::{
    lemma_call_view, spec_exprs_view, spec_return_type, ExprImpl, ExprType, ExprView, ScalarImpl,
    ScalarView,
};
use crate::input_refs::spec_reads;
use vstd::prelude::*;
use vstd::string::*;

verus! {

/// What can be said of the watermark of an expression.
#[derive(Clone, Copy, Debug, PartialEq, Eq, Structural)]
pub enum WatermarkDerivation {
    /// The expression will return a constant and not depends on its input.
    Constant,
    /// Can derive a watermark if an input column has watermark, the usize field is the input
    /// column index.
    Watermark(usize),
    /// For nondecreasing functions, we can always produce watermarks from where they are called.
    Nondecreasing,
    /// Can not derive a watermark in any cases.
    Unknown,
}

/// Whether the text names the time zone `UTC`, in capital or small letters.
pub open spec fn spec_is_utc(text: Seq<char>) -> bool {
    &&& text.len() == 3
    &&& (text[0] == 'U' || text[0] == 'u')
    &&& (text[1] == 'T' || text[1] == 't')
    &&& (text[2] == 'C' || text[2] == 'c')
}

/// Whether the text names the time zone `UTC`, in capital or small letters.
pub fn is_utc(text: &str) -> (r: bool)
    ensures
        r == spec_is_utc(text@),
{
    if text.unicode_len() != 3 {
        return false;
    }
    let u = text.get_char(0);
    let t = text.get_char(1);
    let c = text.get_char(2);
    (u == 'U' || u == 'u') && (t == 'T' || t == 't') && (c == 'C' || c == 'c')
}

/// Whether the expression is a constant text that names `UTC`.
pub open spec fn spec_is_utc_literal(e: ExprView) -> bool {
    match e {
        ExprView::Literal { data: Some(ScalarView::Utf8(text)), .. } => spec_is_utc(text),
        _ => false,
    }
}

/// Whether the expression, if it is a constant, is a text or NULL.
pub open spec fn spec_text_or_null(e: ExprView) -> bool {
    match e {
        ExprView::Literal { data: Some(v), .. } => v is Utf8,
        _ => true,
    }
}

/// Whether the expression, if it is a constant, is a span of time or
/// NULL.
pub open spec fn spec_interval_or_null(e: ExprView) -> bool {
    match e {
        ExprView::Literal { data: Some(v), .. } => v is Interval,
        _ => true,
    }
}

/// Whether a shift by the constant `interval` in the time zone of the
/// constant `zone` keeps the order of times: it moves by no month, and by
/// days only where the zone never changes its clock. NULL stands for a
/// plain amount of time, and for such a zone.
pub open spec fn spec_quantitative_only(interval: ExprView, zone: ExprView) -> bool {
    let zone_without_dst = (zone matches ExprView::Literal { data: None, .. })
        || spec_is_utc_literal(zone);
    match interval {
        ExprView::Literal { data: Some(ScalarView::Interval(v)), .. } => v.months == 0 && (v.days
            == 0 || zone_without_dst),
        _ => true,
    }
}

/// The watermark of a sum.
pub open spec fn spec_derive_add(
    left: WatermarkDerivation,
    right: WatermarkDerivation,
) -> WatermarkDerivation {
    match (left, right) {
        (WatermarkDerivation::Constant, WatermarkDerivation::Constant) => WatermarkDerivation::Constant,
        (WatermarkDerivation::Constant, WatermarkDerivation::Watermark(idx)) => WatermarkDerivation::Watermark(idx),
        (WatermarkDerivation::Watermark(idx), WatermarkDerivation::Constant) => WatermarkDerivation::Watermark(idx),
        (WatermarkDerivation::Constant, WatermarkDerivation::Nondecreasing) => WatermarkDerivation::Nondecreasing,
        (WatermarkDerivation::Nondecreasing, WatermarkDerivation::Constant) => WatermarkDerivation::Nondecreasing,
        _ => WatermarkDerivation::Unknown,
    }
}

/// The watermark of a difference, and of the start of a window: only the
/// left side may move.
pub open spec fn spec_derive_subtract(
    left: WatermarkDerivation,
    right: WatermarkDerivation,
) -> WatermarkDerivation {
    match (left, right) {
        (WatermarkDerivation::Constant, WatermarkDerivation::Constant) => WatermarkDerivation::Constant,
        (WatermarkDerivation::Watermark(idx), WatermarkDerivation::Constant) => WatermarkDerivation::Watermark(idx),
        (WatermarkDerivation::Nondecreasing, WatermarkDerivation::Constant) => WatermarkDerivation::Nondecreasing,
        _ => WatermarkDerivation::Unknown,
    }
}

/// The watermark of a product, a quotient and a remainder: nothing but a
/// constant of constants.
pub open spec fn spec_derive_product(
    left: WatermarkDerivation,
    right: WatermarkDerivation,
) -> WatermarkDerivation {
    match (left, right) {
        (WatermarkDerivation::Constant, WatermarkDerivation::Constant) => WatermarkDerivation::Constant,
        _ => WatermarkDerivation::Unknown,
    }
}

/// Whether the derivation is that of a value that moves: a watermark or a
/// value that never falls.
pub open spec fn spec_moves(d: WatermarkDerivation) -> bool {
    d is Watermark || d is Nondecreasing
}

/// The watermark of a time seen in a time zone: a time that moves keeps
/// its watermark where a time without zone is given one, or where the zone
/// is the constant `UTC`.
pub open spec fn spec_derive_at_time_zone(
    time: WatermarkDerivation,
    zone: WatermarkDerivation,
    keeps_order: bool,
) -> WatermarkDerivation {
    if time is Constant && zone is Constant {
        WatermarkDerivation::Constant
    } else if spec_moves(time) && zone is Constant {
        if keeps_order {
            time
        } else {
            WatermarkDerivation::Unknown
        }
    } else {
        WatermarkDerivation::Unknown
    }
}

/// The watermark of a time shifted in a time zone.
pub open spec fn spec_derive_shift(time: WatermarkDerivation, quantitative_only: bool) -> WatermarkDerivation {
    if time is Constant {
        WatermarkDerivation::Constant
    } else if spec_moves(time) && quantitative_only {
        time
    } else {
        WatermarkDerivation::Unknown
    }
}

/// The watermark of a time cut to a unit in a time zone.
pub open spec fn spec_derive_date_trunc(
    unit: WatermarkDerivation,
    time: WatermarkDerivation,
    zone: WatermarkDerivation,
    zone_is_utc: bool,
) -> WatermarkDerivation {
    if unit is Constant && time is Constant && zone is Constant {
        WatermarkDerivation::Constant
    } else if unit is Constant && spec_moves(time) && zone is Constant {
        if zone_is_utc {
            time
        } else {
            WatermarkDerivation::Unknown
        }
    } else {
        WatermarkDerivation::Unknown
    }
}

/// Whether a time seen in a time zone keeps its order: the call gives a
/// time with zone for a time without, or the zone is the constant `UTC`.
pub open spec fn spec_at_time_zone_keeps_order(
    return_type: DataType,
    time: ExprView,
    zone: ExprView,
) -> bool {
    (return_type == DataType::Timestamptz && spec_return_type(time) == DataType::Timestamp)
        || spec_is_utc_literal(zone)
}

/// What can be said of the watermark of an expression: a column carries
/// its own, a constant is constant, and a call carries on what its function
/// allows.
pub open spec fn spec_derive(e: ExprView) -> WatermarkDerivation
    decreases e,
{
    match e {
        ExprView::InputRef { index, .. } => WatermarkDerivation::Watermark(index),
        ExprView::Literal { .. } => WatermarkDerivation::Constant,
        ExprView::Now => WatermarkDerivation::Unknown,
        ExprView::FunctionCall { func_type, return_type, inputs } => match func_type {
            ExprType::Add => if inputs.len() == 2 {
                spec_derive_add(spec_derive(inputs[0]), spec_derive(inputs[1]))
            } else {
                WatermarkDerivation::Unknown
            },
            ExprType::Subtract | ExprType::TumbleStart => if inputs.len() == 2 {
                spec_derive_subtract(spec_derive(inputs[0]), spec_derive(inputs[1]))
            } else {
                WatermarkDerivation::Unknown
            },
            ExprType::Multiply | ExprType::Divide | ExprType::Modulus => if inputs.len() == 2 {
                spec_derive_product(spec_derive(inputs[0]), spec_derive(inputs[1]))
            } else {
                WatermarkDerivation::Unknown
            },
            ExprType::AtTimeZone => if inputs.len() == 2 {
                spec_derive_at_time_zone(
                    spec_derive(inputs[0]),
                    spec_derive(inputs[1]),
                    spec_at_time_zone_keeps_order(return_type, inputs[0], inputs[1]),
                )
            } else {
                WatermarkDerivation::Unknown
            },
            ExprType::AddWithTimeZone | ExprType::SubtractWithTimeZone => if inputs.len() >= 3
                && inputs[2] is Literal && inputs[1] is Literal {
                spec_derive_shift(
                    spec_derive(inputs[0]),
                    spec_quantitative_only(inputs[1], inputs[2]),
                )
            } else {
                WatermarkDerivation::Unknown
            },
            ExprType::DateTrunc => if inputs.len() == 2 {
                if spec_derive(inputs[0]) is Constant {
                    spec_derive(inputs[1])
                } else {
                    WatermarkDerivation::Unknown
                }
            } else if inputs.len() == 3 {
                spec_derive_date_trunc(
                    spec_derive(inputs[0]),
                    spec_derive(inputs[1]),
                    spec_derive(inputs[2]),
                    spec_is_utc_literal(inputs[2]),
                )
            } else {
                WatermarkDerivation::Unknown
            },
            ExprType::ToTimestamp => if inputs.len() == 1 {
                spec_derive(inputs[0])
            } else {
                WatermarkDerivation::Unknown
            },
            ExprType::Proctime => WatermarkDerivation::Nondecreasing,
            _ => WatermarkDerivation::Unknown,
        },
    }
}

/// Whether the watermark of the expression can be looked for: the calls
/// that are looked into have the arguments that their functions take, a
/// constant that is read as a time zone or as a span of time is one, or
/// NULL, and what is looked at is not the time at which the statement
/// runs.
pub open spec fn spec_derivable(e: ExprView) -> bool
    decreases e,
{
    match e {
        ExprView::FunctionCall { func_type, return_type, inputs } => match func_type {
            ExprType::Add | ExprType::Subtract | ExprType::TumbleStart | ExprType::Multiply
            | ExprType::Divide | ExprType::Modulus => inputs.len() == 2 && spec_derivable(inputs[0])
                && spec_derivable(inputs[1]),
            ExprType::AtTimeZone => {
                &&& inputs.len() == 2
                &&& spec_derivable(inputs[0])
                &&& spec_derivable(inputs[1])
                &&& (spec_moves(spec_derive(inputs[0])) && !(return_type == DataType::Timestamptz
                    && spec_return_type(inputs[0]) == DataType::Timestamp)) ==> spec_text_or_null(
                    inputs[1],
                )
            },
            ExprType::AddWithTimeZone | ExprType::SubtractWithTimeZone => {
                &&& inputs.len() >= 3
                &&& spec_text_or_null(inputs[2])
                &&& inputs[2] is Literal ==> spec_interval_or_null(inputs[1])
                &&& (inputs[2] is Literal && inputs[1] is Literal) ==> spec_derivable(inputs[0])
            },
            ExprType::DateTrunc => {
                ||| inputs.len() == 2 && spec_derivable(inputs[0]) && spec_derivable(inputs[1])
                ||| {
                    &&& inputs.len() == 3
                    &&& spec_derivable(inputs[0])
                    &&& spec_derivable(inputs[1])
                    &&& spec_derivable(inputs[2])
                    &&& (spec_derive(inputs[0]) is Constant && spec_moves(spec_derive(inputs[1])))
                        ==> spec_text_or_null(inputs[2])
                }
            },
            ExprType::ToTimestamp => inputs.len() == 1 && spec_derivable(inputs[0]),
            _ => true,
        },
        ExprView::Now => false,
        _ => true,
    }
}

/// The watermark of a sum.
pub fn derive_add(left: WatermarkDerivation, right: WatermarkDerivation) -> (r: WatermarkDerivation)
    ensures
        r == spec_derive_add(left, right),
{
    match (left, right) {
        (WatermarkDerivation::Constant, WatermarkDerivation::Constant) => WatermarkDerivation::Constant,
        (WatermarkDerivation::Constant, WatermarkDerivation::Watermark(idx)) => WatermarkDerivation::Watermark(idx),
        (WatermarkDerivation::Watermark(idx), WatermarkDerivation::Constant) => WatermarkDerivation::Watermark(idx),
        (WatermarkDerivation::Constant, WatermarkDerivation::Nondecreasing) => WatermarkDerivation::Nondecreasing,
        (WatermarkDerivation::Nondecreasing, WatermarkDerivation::Constant) => WatermarkDerivation::Nondecreasing,
        _ => WatermarkDerivation::Unknown,
    }
}

/// The watermark of a difference, and of the start of a window.
pub fn derive_subtract(left: WatermarkDerivation, right: WatermarkDerivation) -> (r:
    WatermarkDerivation)
    ensures
        r == spec_derive_subtract(left, right),
{
    match (left, right) {
        (WatermarkDerivation::Constant, WatermarkDerivation::Constant) => WatermarkDerivation::Constant,
        (WatermarkDerivation::Watermark(idx), WatermarkDerivation::Constant) => WatermarkDerivation::Watermark(idx),
        (WatermarkDerivation::Nondecreasing, WatermarkDerivation::Constant) => WatermarkDerivation::Nondecreasing,
        _ => WatermarkDerivation::Unknown,
    }
}

/// The watermark of a product, a quotient and a remainder.
pub fn derive_product(left: WatermarkDerivation, right: WatermarkDerivation) -> (r:
    WatermarkDerivation)
    ensures
        r == spec_derive_product(left, right),
{
    match (left, right) {
        (WatermarkDerivation::Constant, WatermarkDerivation::Constant) => WatermarkDerivation::Constant,
        // not meaningful to derive watermark for other situations
        _ => WatermarkDerivation::Unknown,
    }
}

/// Whether the derivation is that of a value that moves.
fn moves(d: WatermarkDerivation) -> (r: bool)
    ensures
        r == spec_moves(d),
{
    match d {
        WatermarkDerivation::Watermark(_) | WatermarkDerivation::Nondecreasing => true,
        _ => false,
    }
}

/// Whether the derivation is that of a constant.
fn is_constant(d: WatermarkDerivation) -> (r: bool)
    ensures
        r == d is Constant,
{
    match d {
        WatermarkDerivation::Constant => true,
        _ => false,
    }
}

/// Whether the expression is a constant text that names `UTC`.
fn is_utc_literal(e: &ExprImpl) -> (r: bool)
    requires
        spec_text_or_null(e@),
    ensures
        r == spec_is_utc_literal(e@),
{
    match e {
        ExprImpl::Literal(lit) => match &lit.data {
            Some(ScalarImpl::Utf8(text)) => is_utc(text.as_str()),
            Some(_) => unreached(),
            None => false,
        },
        _ => false,
    }
}

/// Whether a shift by the constant `interval` in the time zone of the
/// constant `zone` keeps the order of times.
fn quantitative_only(interval: &ExprImpl, zone: &ExprImpl) -> (r: bool)
    requires
        spec_text_or_null(zone@),
        spec_interval_or_null(interval@),
    ensures
        r == spec_quantitative_only(interval@, zone@),
{
    // null zone or null interval is treated same as const `interval '1' second`, to be
    // consistent with other match arms.
    let zone_without_dst = zone.is_null() || is_utc_literal(zone);
    match interval {
        ExprImpl::Literal(lit) => match &lit.data {
            Some(ScalarImpl::Interval(v)) => v.months == 0 && (v.days == 0 || zone_without_dst),
            Some(_) => unreached(),
            None => true,
        },
        _ => true,
    }
}

/// What can be said of the watermark of an expression.
fn derive(expr: &ExprImpl) -> (r: WatermarkDerivation)
    requires
        spec_derivable(expr@),
    ensures
        r == spec_derive(expr@),
    decreases expr,
{
    match expr {
        ExprImpl::InputRef(inner) => WatermarkDerivation::Watermark(inner.index()),
        ExprImpl::Literal(_) => WatermarkDerivation::Constant,
        ExprImpl::Now(_) => unreached(),
        ExprImpl::FunctionCall(call) => {
            proof {
                lemma_call_view(*call);
            }
            let ghost views = spec_exprs_view(call.inputs@);
            assert(expr@ == (ExprView::FunctionCall {
                func_type: call.func_type,
                return_type: call.return_type,
                inputs: views,
            }));
            assert(forall|i: int| 0 <= i < views.len() ==> views[i] == call.inputs@[i]@);
            let inputs = &call.inputs;
            match call.func_type {
                ExprType::Add => derive_add(derive(&inputs[0]), derive(&inputs[1])),
                ExprType::Subtract | ExprType::TumbleStart => derive_subtract(
                    derive(&inputs[0]),
                    derive(&inputs[1]),
                ),
                ExprType::Multiply | ExprType::Divide | ExprType::Modulus => derive_product(
                    derive(&inputs[0]),
                    derive(&inputs[1]),
                ),
                ExprType::AtTimeZone => {
                    let time = derive(&inputs[0]);
                    let zone = derive(&inputs[1]);
                    if is_constant(time) && is_constant(zone) {
                        WatermarkDerivation::Constant
                    } else if moves(time) && is_constant(zone) {
                        let gives_zone = matches!(call.return_type, DataType::Timestamptz)
                            && matches!(inputs[0].return_type(), DataType::Timestamp);
                        if gives_zone || is_utc_literal(&inputs[1]) {
                            time
                        } else {
                            WatermarkDerivation::Unknown
                        }
                    } else {
                        WatermarkDerivation::Unknown
                    }
                },
                ExprType::AddWithTimeZone | ExprType::SubtractWithTimeZone => {
                    // Requires time zone and interval to be literal, at least for now.
                    if !matches!(inputs[2], ExprImpl::Literal(_)) {
                        return WatermarkDerivation::Unknown;
                    }
                    if !matches!(inputs[1], ExprImpl::Literal(_)) {
                        return WatermarkDerivation::Unknown;
                    }
                    let keeps_order = quantitative_only(&inputs[1], &inputs[2]);
                    let time = derive(&inputs[0]);
                    if is_constant(time) {
                        WatermarkDerivation::Constant
                    } else if moves(time) && keeps_order {
                        time
                    } else {
                        WatermarkDerivation::Unknown
                    }
                },
                ExprType::DateTrunc => {
                    if inputs.len() == 2 {
                        let unit = derive(&inputs[0]);
                        let time = derive(&inputs[1]);
                        if is_constant(unit) {
                            time
                        } else {
                            WatermarkDerivation::Unknown
                        }
                    } else {
                        let unit = derive(&inputs[0]);
                        let time = derive(&inputs[1]);
                        let zone = derive(&inputs[2]);
                        if is_constant(unit) && is_constant(time) && is_constant(zone) {
                            WatermarkDerivation::Constant
                        } else if is_constant(unit) && moves(time) && is_constant(zone) {
                            if is_utc_literal(&inputs[2]) {
                                time
                            } else {
                                WatermarkDerivation::Unknown
                            }
                        } else {
                            WatermarkDerivation::Unknown
                        }
                    }
                },
                ExprType::ToTimestamp => derive(&inputs[0]),
                ExprType::Proctime => WatermarkDerivation::Nondecreasing,
                _ => WatermarkDerivation::Unknown,
            }
        },
    }
}

/// analyze if the expression can derive a watermark from some input watermark. If it can
/// derive, return the input watermark column index
pub fn try_derive_watermark(expr: &ExprImpl) -> (r: WatermarkDerivation)
    requires
        spec_derivable(expr@),
    ensures
        r == spec_derive(expr@),
{
    derive(expr)
}

/// A watermark comes from a column of the expression: the derivation
/// names no column but one that the expression reads.
pub proof fn lemma_watermark_comes_from_a_column(e: ExprView)
    ensures
        spec_derive(e) matches WatermarkDerivation::Watermark(idx) ==> spec_reads(e, idx as int),
    decreases e,
{
    match e {
        ExprView::FunctionCall { func_type, return_type, inputs } => {
            if inputs.len() >= 1 {
                lemma_watermark_comes_from_a_column(inputs[0]);
            }
            if inputs.len() >= 2 {
                lemma_watermark_comes_from_a_column(inputs[1]);
            }
        },
        _ => {},
    }
}

} // verus!
