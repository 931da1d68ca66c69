//! Expressions over the columns of a row, and what they evaluate to.
//!
//! Conditions follow three-valued logic: a condition is true, false or
//! NULL. `AND` is false as soon as one side is false, and NULL if a side
//! is NULL and none is false; `OR` is true as soon as one side is true.

use crate::data_chunk::DataType;
use vstd::prelude::*;

verus! {

/// A span of time: months, days and microseconds, each counted by itself.
#[derive(Clone, Copy, Debug, PartialEq, Eq, Structural)]
pub struct Interval {
    pub months: i32,
    pub days: i32,
    pub usecs: i64,
}

/// A value of a row.
#[derive(Clone, Debug, PartialEq, Eq)]
pub enum ScalarImpl {
    Bool(bool),
    Int32(i32),
    Int64(i64),
    Utf8(String),
    Interval(Interval),
}

/// What a value of a row holds, as plain values.
pub enum ScalarView {
    Bool(bool),
    Int32(i32),
    Int64(i64),
    Utf8(Seq<char>),
    Interval(Interval),
}

impl View for ScalarImpl {
    type V = ScalarView;

    open spec fn view(&self) -> ScalarView {
        match *self {
            ScalarImpl::Bool(v) => ScalarView::Bool(v),
            ScalarImpl::Int32(v) => ScalarView::Int32(v),
            ScalarImpl::Int64(v) => ScalarView::Int64(v),
            ScalarImpl::Utf8(v) => ScalarView::Utf8(v@),
            ScalarImpl::Interval(v) => ScalarView::Interval(v),
        }
    }
}

/// What a value that may be NULL holds, as plain values.
pub open spec fn spec_datum_view(data: Option<ScalarImpl>) -> Option<ScalarView> {
    match data {
        Some(v) => Some(v@),
        None => None,
    }
}

impl ScalarImpl {
    /// A copy of the value.
    pub fn duplicate(&self) -> (r: Self)
        ensures
            r@ == self@,
    {
        match self {
            ScalarImpl::Bool(v) => ScalarImpl::Bool(*v),
            ScalarImpl::Int32(v) => ScalarImpl::Int32(*v),
            ScalarImpl::Int64(v) => ScalarImpl::Int64(*v),
            ScalarImpl::Utf8(v) => ScalarImpl::Utf8(v.clone()),
            ScalarImpl::Interval(v) => ScalarImpl::Interval(*v),
        }
    }

    /// Whether two values are the same.
    pub fn same(&self, other: &ScalarImpl) -> (r: bool)
        ensures
            r == (self@ == other@),
    {
        match (self, other) {
            (ScalarImpl::Bool(a), ScalarImpl::Bool(b)) => *a == *b,
            (ScalarImpl::Int32(a), ScalarImpl::Int32(b)) => *a == *b,
            (ScalarImpl::Int64(a), ScalarImpl::Int64(b)) => *a == *b,
            (ScalarImpl::Utf8(a), ScalarImpl::Utf8(b)) => *a == *b,
            (ScalarImpl::Interval(a), ScalarImpl::Interval(b)) => *a == *b,
            _ => false,
        }
    }
}

/// The functions that an expression can call.
#[derive(Clone, Copy, Debug, PartialEq, Eq, Structural)]
pub enum ExprType {
    And,
    Or,
    Not,
    IsTrue,
    IsNotTrue,
    IsFalse,
    IsNotFalse,
    IsNull,
    IsNotNull,
    Equal,
    NotEqual,
    LessThan,
    LessThanOrEqual,
    GreaterThan,
    GreaterThanOrEqual,
    Add,
    Subtract,
    Multiply,
    Divide,
    Modulus,
    TumbleStart,
    AtTimeZone,
    AddWithTimeZone,
    SubtractWithTimeZone,
    DateTrunc,
    ToTimestamp,
    ToTimestamp1,
    Cast,
    Case,
    Proctime,
}

/// The value of a column of the row.
#[derive(Clone, Debug, PartialEq, Eq)]
pub struct InputRef {
    pub index: usize,
    pub data_type: DataType,
}

/// A constant; `None` is NULL.
#[derive(Clone, Debug, PartialEq, Eq)]
pub struct Literal {
    pub data: Option<ScalarImpl>,
    pub data_type: DataType,
}

/// The time at which a statement runs.
#[derive(Clone, Copy, Debug, PartialEq, Eq, Structural)]
pub struct Now;

/// A function applied to expressions.
#[derive(Debug, PartialEq, Eq)]
pub struct FunctionCall {
    pub func_type: ExprType,
    pub return_type: DataType,
    pub inputs: Vec<ExprImpl>,
}

/// An expression.
#[derive(Debug, PartialEq, Eq)]
pub enum ExprImpl {
    InputRef(InputRef),
    Literal(Literal),
    FunctionCall(FunctionCall),
    Now(Now),
}

/// What an expression holds, as plain values.
pub enum ExprView {
    InputRef { index: usize, data_type: DataType },
    Literal { data: Option<ScalarView>, data_type: DataType },
    FunctionCall { func_type: ExprType, return_type: DataType, inputs: Seq<ExprView> },
    Now,
}

/// A function was called with the wrong number of arguments.
#[derive(Clone, Copy, Debug, PartialEq, Eq, Structural)]
pub struct InvalidInputNumber {
    pub func_type: ExprType,
    pub actual: usize,
}

/// How many arguments a function takes; of `DATE_TRUNC` and `CASE`, which
/// take more as well, the fewest.
pub open spec fn spec_arity(func_type: ExprType) -> nat {
    match func_type {
        ExprType::Proctime => 0,
        ExprType::Not | ExprType::IsTrue | ExprType::IsNotTrue | ExprType::IsFalse
        | ExprType::IsNotFalse | ExprType::IsNull | ExprType::IsNotNull | ExprType::ToTimestamp
        | ExprType::Cast => 1,
        ExprType::AddWithTimeZone | ExprType::SubtractWithTimeZone => 3,
        _ => 2,
    }
}

/// Whether a function takes `n` arguments: `DATE_TRUNC` takes a time zone
/// as a third, `CASE` any number from two on.
pub open spec fn spec_takes(func_type: ExprType, n: nat) -> bool {
    match func_type {
        ExprType::DateTrunc => n == 2 || n == 3,
        ExprType::Case => n >= 2,
        _ => n == spec_arity(func_type),
    }
}

/// The view of an expression.
pub open spec fn spec_expr_view(e: ExprImpl) -> ExprView
    decreases e,
{
    match e {
        ExprImpl::InputRef(r) => ExprView::InputRef { index: r.index, data_type: r.data_type },
        ExprImpl::Literal(l) => ExprView::Literal {
            data: spec_datum_view(l.data),
            data_type: l.data_type,
        },
        ExprImpl::FunctionCall(call) => ExprView::FunctionCall {
            func_type: call.func_type,
            return_type: call.return_type,
            inputs: Seq::new(
                call.inputs@.len(),
                |i: int|
                    if 0 <= i < call.inputs@.len() {
                        spec_expr_view(call.inputs@[i])
                    } else {
                        ExprView::Literal { data: None, data_type: DataType::Boolean }
                    },
            ),
        },
        ExprImpl::Now(_) => ExprView::Now,
    }
}

/// The type of what an expression evaluates to.
pub open spec fn spec_return_type(e: ExprView) -> DataType {
    match e {
        ExprView::InputRef { data_type, .. } => data_type,
        ExprView::Literal { data_type, .. } => data_type,
        ExprView::FunctionCall { return_type, .. } => return_type,
        ExprView::Now => DataType::Timestamptz,
    }
}

/// The views of a list of expressions.
pub open spec fn spec_exprs_view(exprs: Seq<ExprImpl>) -> Seq<ExprView> {
    Seq::new(exprs.len(), |i: int| spec_expr_view(exprs[i]))
}

impl View for ExprImpl {
    type V = ExprView;

    open spec fn view(&self) -> ExprView {
        spec_expr_view(*self)
    }
}

/// The view of a call is made of the views of its arguments.
pub proof fn lemma_call_view(call: FunctionCall)
    ensures
        spec_expr_view(ExprImpl::FunctionCall(call)) == (ExprView::FunctionCall {
            func_type: call.func_type,
            return_type: call.return_type,
            inputs: spec_exprs_view(call.inputs@),
        }),
{
    let a = spec_expr_view(ExprImpl::FunctionCall(call))->FunctionCall_inputs;
    assert(a =~= spec_exprs_view(call.inputs@));
}

/// Whether every call in the expression has as many arguments as its
/// function takes.
pub open spec fn spec_arity_ok(e: ExprView) -> bool
    decreases e,
{
    match e {
        ExprView::FunctionCall { func_type, inputs, .. } => spec_takes(func_type, inputs.len())
            && forall|i: int| 0 <= i < inputs.len() ==> spec_arity_ok(#[trigger] inputs[i]),
        _ => true,
    }
}

impl InputRef {
    pub fn new(index: usize, data_type: DataType) -> (r: Self)
        ensures
            r.index == index,
            r.data_type == data_type,
    {
        InputRef { index, data_type }
    }

    /// The column that is read.
    pub fn index(&self) -> (r: usize)
        ensures
            r == self.index,
    {
        self.index
    }
}

impl Literal {
    pub fn new(data: Option<ScalarImpl>, data_type: DataType) -> (r: Self)
        ensures
            r.data == data,
            r.data_type == data_type,
    {
        Literal { data, data_type }
    }

    /// The value of the constant; `None` is NULL.
    pub fn get_data(&self) -> (r: &Option<ScalarImpl>)
        ensures
            *r == self.data,
    {
        &self.data
    }
}

/// How many arguments a function takes; of `DATE_TRUNC` and `CASE` the
/// fewest.
pub fn arity(func_type: ExprType) -> (r: usize)
    ensures
        r == spec_arity(func_type),
{
    match func_type {
        ExprType::Proctime => 0,
        ExprType::Not | ExprType::IsTrue | ExprType::IsNotTrue | ExprType::IsFalse
        | ExprType::IsNotFalse | ExprType::IsNull | ExprType::IsNotNull | ExprType::ToTimestamp
        | ExprType::Cast => 1,
        ExprType::AddWithTimeZone | ExprType::SubtractWithTimeZone => 3,
        _ => 2,
    }
}

/// Whether a function takes `n` arguments.
pub fn takes(func_type: ExprType, n: usize) -> (r: bool)
    ensures
        r == spec_takes(func_type, n as nat),
{
    match func_type {
        ExprType::DateTrunc => n == 2 || n == 3,
        ExprType::Case => n >= 2,
        _ => n == arity(func_type),
    }
}

impl FunctionCall {
    /// The call of `func_type` on `inputs`, typed as a condition. A call
    /// with a number of arguments that the function does not take is
    /// refused. The call of a function that yields no condition is made by
    /// `new_unchecked`, with its type.
    pub fn new(func_type: ExprType, inputs: Vec<ExprImpl>) -> (r: Result<
        Self,
        InvalidInputNumber,
    >)
        ensures
            match r {
                Ok(call) => spec_takes(func_type, inputs@.len()) && call == (FunctionCall {
                    func_type,
                    return_type: DataType::Boolean,
                    inputs,
                }),
                Err(e) => !spec_takes(func_type, inputs@.len()) && e == (InvalidInputNumber {
                    func_type,
                    actual: inputs.len(),
                }),
            },
    {
        if !takes(func_type, inputs.len()) {
            Err(InvalidInputNumber { func_type, actual: inputs.len() })
        } else {
            Ok(FunctionCall { func_type, return_type: DataType::Boolean, inputs })
        }
    }

    /// The call of `func_type` on `inputs` with the type it is said to
    /// return. Nothing is checked.
    pub fn new_unchecked(func_type: ExprType, inputs: Vec<ExprImpl>, return_type: DataType) -> (r:
        Self)
        ensures
            r == (FunctionCall { func_type, return_type, inputs }),
    {
        FunctionCall { func_type, return_type, inputs }
    }

    /// The function that is called.
    pub fn func_type(&self) -> (r: ExprType)
        ensures
            r == self.func_type,
    {
        self.func_type
    }

    /// The function, its arguments and the type of its result.
    pub fn decompose(self) -> (r: (ExprType, Vec<ExprImpl>, DataType))
        ensures
            r == (self.func_type, self.inputs, self.return_type),
    {
        (self.func_type, self.inputs, self.return_type)
    }

    /// The function and its two arguments.
    pub fn decompose_as_binary(self) -> (r: (ExprType, ExprImpl, ExprImpl))
        requires
            self.inputs@.len() == 2,
        ensures
            r == (self.func_type, self.inputs@[0], self.inputs@[1]),
    {
        let mut inputs = self.inputs;
        let right = inputs.pop().unwrap();
        let left = inputs.pop().unwrap();
        (self.func_type, left, right)
    }

    /// The function and its argument.
    pub fn decompose_as_unary(self) -> (r: (ExprType, ExprImpl))
        requires
            self.inputs@.len() == 1,
        ensures
            r == (self.func_type, self.inputs@[0]),
    {
        let mut inputs = self.inputs;
        let input = inputs.pop().unwrap();
        (self.func_type, input)
    }
}

impl ExprImpl {
    /// The constant condition `v`.
    pub fn literal_bool(v: bool) -> (r: Self)
        ensures
            r == ExprImpl::Literal(
                Literal { data: Some(ScalarImpl::Bool(v)), data_type: DataType::Boolean },
            ),
    {
        ExprImpl::Literal(Literal::new(Some(ScalarImpl::Bool(v)), DataType::Boolean))
    }

    /// The constant number `v`.
    pub fn literal_int(v: i32) -> (r: Self)
        ensures
            r == ExprImpl::Literal(
                Literal { data: Some(ScalarImpl::Int32(v)), data_type: DataType::Int32 },
            ),
    {
        ExprImpl::Literal(Literal::new(Some(ScalarImpl::Int32(v)), DataType::Int32))
    }

    /// The type of what the expression evaluates to.
    pub fn return_type(&self) -> (r: DataType)
        ensures
            r == spec_return_type(self@),
    {
        match self {
            ExprImpl::InputRef(x) => x.data_type,
            ExprImpl::Literal(x) => x.data_type,
            ExprImpl::FunctionCall(x) => x.return_type,
            ExprImpl::Now(_) => DataType::Timestamptz,
        }
    }

    /// Whether the expression is the constant NULL.
    pub fn is_null(&self) -> (r: bool)
        ensures
            r == (self@ matches ExprView::Literal { data: None, .. }),
    {
        match self {
            ExprImpl::Literal(l) => l.data.is_none(),
            _ => false,
        }
    }

    /// The expression as the value of a column, if it is one.
    pub fn as_input_ref(&self) -> (r: Option<&InputRef>)
        ensures
            match r {
                Some(x) => *self == ExprImpl::InputRef(*x),
                None => !(*self is InputRef),
            },
    {
        match self {
            ExprImpl::InputRef(x) => Some(x),
            _ => None,
        }
    }

    /// The expression as a constant, if it is one.
    pub fn as_literal(&self) -> (r: Option<&Literal>)
        ensures
            match r {
                Some(x) => *self == ExprImpl::Literal(*x),
                None => !(*self is Literal),
            },
    {
        match self {
            ExprImpl::Literal(x) => Some(x),
            _ => None,
        }
    }

    /// The expression as a call, if it is one.
    pub fn as_function_call(&self) -> (r: Option<&FunctionCall>)
        ensures
            match r {
                Some(x) => *self == ExprImpl::FunctionCall(*x),
                None => !(*self is FunctionCall),
            },
    {
        match self {
            ExprImpl::FunctionCall(x) => Some(x),
            _ => None,
        }
    }

    /// Whether every call in the expression has as many arguments as its
    /// function takes.
    #[verifier::loop_isolation(false)]
    pub fn has_valid_arity(&self) -> (r: bool)
        ensures
            r == spec_arity_ok(self@),
        decreases self,
    {
        match self {
            ExprImpl::FunctionCall(call) => {
                proof {
                    lemma_call_view(*call);
                }
                let ghost views = spec_exprs_view(call.inputs@);
                if !takes(call.func_type, call.inputs.len()) {
                    return false;
                }
                let mut i: usize = 0;
                while i < call.inputs.len()
                    invariant
                        i <= call.inputs@.len(),
                        forall|j: int| 0 <= j < i ==> spec_arity_ok(#[trigger] views[j]),
                    decreases call.inputs@.len() - i,
                {
                    assert(views[i as int] == call.inputs@[i as int]@);
                    if !call.inputs[i].has_valid_arity() {
                        return false;
                    }
                    i += 1;
                }
                true
            },
            _ => true,
        }
    }

    /// A copy of the expression.
    #[verifier::loop_isolation(false)]
    pub fn duplicate(&self) -> (r: Self)
        ensures
            r@ == self@,
        decreases self,
    {
        match self {
            ExprImpl::InputRef(x) => ExprImpl::InputRef(InputRef::new(x.index, x.data_type)),
            ExprImpl::Literal(x) => {
                let data = match &x.data {
                    Some(v) => Some(v.duplicate()),
                    None => None,
                };
                ExprImpl::Literal(Literal::new(data, x.data_type))
            },
            ExprImpl::FunctionCall(call) => {
                let mut inputs: Vec<ExprImpl> = Vec::new();
                let mut i: usize = 0;
                while i < call.inputs.len()
                    invariant
                        i <= call.inputs@.len(),
                        inputs@.len() == i,
                        forall|j: int| 0 <= j < i ==> (#[trigger] inputs@[j])@ == call.inputs@[j]@,
                    decreases call.inputs@.len() - i,
                {
                    inputs.push(call.inputs[i].duplicate());
                    i += 1;
                }
                let copy = FunctionCall::new_unchecked(call.func_type, inputs, call.return_type);
                proof {
                    lemma_call_view(copy);
                    lemma_call_view(*call);
                    assert(spec_exprs_view(copy.inputs@) =~= spec_exprs_view(call.inputs@));
                }
                ExprImpl::FunctionCall(copy)
            },
            ExprImpl::Now(_) => ExprImpl::Now(Now),
        }
    }
}

} // verus!
