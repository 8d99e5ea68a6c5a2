use vstd::prelude::*;

use crate::math::Math;
use crate::syntax_elements::{
    env_view, Position, Token, TokenView, ValueView, Variable, VariableView,
};
use crate::types::Line;
use crate::variables::{declares, int_binding};

verus! {

/// Why a tokenized line could not be validated or evaluated.
#[derive(PartialEq, Debug)]
pub enum Error {
    /// An operand is neither an integer literal nor an integer variable.
    ExpectedInt(Token, Position),
    /// The token between the operands is not an operator.
    ExpectedOperator(Token, Position),
    /// The line starts with its operator.
    UnexpectedOperatorPosition(i64),
    /// The line holds no operator.
    UnableToFindOperator(i64),
    /// An operator lacks a numeric operand on one of its sides.
    UnexpectedIntegerPositions(i64),
    /// No declaration keyword, or none followed by a token.
    UnableToFindVarName,
    /// A declaration keyword is followed by something other than a name.
    ExpectedVarName(Token),
    /// The declared name is already bound.
    VariableAlreadyExists(String),
    /// The line has fewer than three tokens after its declaration prefix.
    Unknown(i64),
    /// The right operand of a division is zero.
    DivisionByZero(Position),
    /// The result does not fit in a signed 32-bit integer.
    ArithmeticOverflow(Position),
}

pub enum ErrorView {
    ExpectedInt(TokenView, Position),
    ExpectedOperator(TokenView, Position),
    UnexpectedOperatorPosition(i64),
    UnableToFindOperator(i64),
    UnexpectedIntegerPositions(i64),
    UnableToFindVarName,
    ExpectedVarName(TokenView),
    VariableAlreadyExists(Seq<char>),
    Unknown(i64),
    DivisionByZero(Position),
    ArithmeticOverflow(Position),
}

impl View for Error {
    type V = ErrorView;

    open spec fn view(&self) -> ErrorView {
        match self {
            Error::ExpectedInt(t, p) => ErrorView::ExpectedInt(t@, *p),
            Error::ExpectedOperator(t, p) => ErrorView::ExpectedOperator(t@, *p),
            Error::UnexpectedOperatorPosition(n) => ErrorView::UnexpectedOperatorPosition(*n),
            Error::UnableToFindOperator(n) => ErrorView::UnableToFindOperator(*n),
            Error::UnexpectedIntegerPositions(n) => ErrorView::UnexpectedIntegerPositions(*n),
            Error::UnableToFindVarName => ErrorView::UnableToFindVarName,
            Error::ExpectedVarName(t) => ErrorView::ExpectedVarName(t@),
            Error::VariableAlreadyExists(name) => ErrorView::VariableAlreadyExists(name@),
            Error::Unknown(n) => ErrorView::Unknown(*n),
            Error::DivisionByZero(p) => ErrorView::DivisionByZero(*p),
            Error::ArithmeticOverflow(p) => ErrorView::ArithmeticOverflow(*p),
        }
    }
}

/// What a successfully evaluated line produces.
#[derive(PartialEq, Debug)]
pub enum BaseLexingReturn {
    /// The value of a line without a declaration.
    Int(i32),
    /// The binding that a declaring line introduces.
    Variable(Variable),
}

pub enum ReturnView {
    Int(i32),
    Variable(VariableView),
}

impl View for BaseLexingReturn {
    type V = ReturnView;

    open spec fn view(&self) -> ReturnView {
        match self {
            BaseLexingReturn::Int(v) => ReturnView::Int(*v),
            BaseLexingReturn::Variable(var) => ReturnView::Variable(var@),
        }
    }
}

pub open spec fn result_view(r: Result<BaseLexingReturn, Error>) -> Result<ReturnView, ErrorView> {
    match r {
        Ok(v) => Ok(v@),
        Err(e) => Err(e@),
    }
}

/// `set` or `const`, a name and `=`.
pub open spec fn has_declaration_prefix(ts: Seq<TokenView>) -> bool {
    &&& ts.len() >= 3
    &&& ts[0].is_declaration()
    &&& ts[1] is Variable
    &&& ts[2] is Assignment
}

/// The tokens after the declaration prefix, if the line has one.
pub open spec fn statement_body(ts: Seq<TokenView>) -> Seq<TokenView> {
    if has_declaration_prefix(ts) {
        ts.subrange(3, ts.len() as int)
    } else {
        ts
    }
}

pub open spec fn name_of(t: TokenView) -> Seq<char> {
    match t {
        TokenView::Variable(name, _) => name,
        _ => Seq::empty(),
    }
}

pub open spec fn is_first_operator(ts: Seq<TokenView>, p: int) -> bool {
    &&& 0 <= p < ts.len()
    &&& ts[p].is_operator()
    &&& forall|j: int| 0 <= j < p ==> !(#[trigger] ts[j]).is_operator()
}

/// Index of the first arithmetic operator.
pub open spec fn first_operator(ts: Seq<TokenView>) -> Option<int> {
    if exists|p: int| is_first_operator(ts, p) {
        Some(choose|p: int| is_first_operator(ts, p))
    } else {
        None
    }
}

/// The integer an operand token stands for: a literal's value, or the value
/// of the integer variable it names.
pub open spec fn operand_value(t: TokenView, env: Seq<VariableView>) -> Option<i32> {
    match t {
        TokenView::Int(v, _) => Some(v),
        TokenView::Variable(name, _) => int_binding(env, name),
        _ => None,
    }
}

pub open spec fn numeric_at(ts: Seq<TokenView>, i: int, env: Seq<VariableView>) -> bool {
    0 <= i < ts.len() && operand_value(ts[i], env) is Some
}

/// The shape check on a statement without its declaration prefix: an
/// operator, not in first place, with a numeric operand on each side.
pub open spec fn check_shape(ts: Seq<TokenView>, env: Seq<VariableView>, number: i64) -> Result<
    (),
    ErrorView,
> {
    match first_operator(ts) {
        None => Err(ErrorView::UnableToFindOperator(number)),
        Some(p) => if p == 0 {
            Err(ErrorView::UnexpectedOperatorPosition(number))
        } else if numeric_at(ts, p - 1, env) && numeric_at(ts, p + 1, env) {
            Ok(())
        } else {
            Err(ErrorView::UnexpectedIntegerPositions(number))
        },
    }
}

/// Validation of a whole line.
pub open spec fn validate(ts: Seq<TokenView>, env: Seq<VariableView>, number: i64) -> Result<
    (),
    ErrorView,
> {
    check_shape(statement_body(ts), env, number)
}

/// Division that rounds toward zero.
pub open spec fn trunc_div(a: int, b: int) -> int {
    let q = (if a < 0 {
        -a
    } else {
        a
    }) / (if b < 0 {
        -b
    } else {
        b
    });
    if (a < 0) == (b < 0) {
        q
    } else {
        -q
    }
}

/// `v` as a signed 32-bit result, or an overflow reported at `p`.
pub open spec fn fit_i32(v: int, p: Position) -> Result<i32, ErrorView> {
    if i32::MIN <= v <= i32::MAX {
        Ok(v as i32)
    } else {
        Err(ErrorView::ArithmeticOverflow(p))
    }
}

/// Applies an operator token to two operands.
pub open spec fn apply_operator(op: TokenView, a: i32, b: i32) -> Result<i32, ErrorView> {
    match op {
        TokenView::Add(p) => fit_i32(a + b, p),
        TokenView::Subtract(p) => fit_i32(a - b, p),
        TokenView::Multiply(p) => fit_i32(a * b, p),
        TokenView::Divide(p) => if b == 0 {
            Err(ErrorView::DivisionByZero(p))
        } else {
            fit_i32(trunc_div(a as int, b as int), p)
        },
        _ => Err(ErrorView::ExpectedOperator(op, op.pos())),
    }
}

/// Evaluation of a line: its first three statement tokens are the left
/// operand, the operator and the right operand; a declaring line binds the
/// result to its name unless that name is taken.
pub open spec fn evaluate(ts: Seq<TokenView>, env: Seq<VariableView>, number: i64) -> Result<
    ReturnView,
    ErrorView,
> {
    let body = statement_body(ts);
    if body.len() < 3 {
        Err(ErrorView::Unknown(number))
    } else {
        match operand_value(body[0], env) {
            None => Err(ErrorView::ExpectedInt(body[0], body[0].pos())),
            Some(a) => match operand_value(body[2], env) {
                None => Err(ErrorView::ExpectedInt(body[2], body[2].pos())),
                Some(b) => match apply_operator(body[1], a, b) {
                    Err(e) => Err(e),
                    Ok(v) => if !has_declaration_prefix(ts) {
                        Ok(ReturnView::Int(v))
                    } else if declares(env, name_of(ts[1])) {
                        Err(ErrorView::VariableAlreadyExists(name_of(ts[1])))
                    } else {
                        Ok(
                            ReturnView::Variable(
                                VariableView {
                                    name: name_of(ts[1]),
                                    value: ValueView::Int(v),
                                    mutable: ts[0] is MutVarDeclaration,
                                },
                            ),
                        )
                    },
                },
            },
        }
    }
}

/// A line is validated, then evaluated.
pub open spec fn lexerize_spec(ts: Seq<TokenView>, env: Seq<VariableView>, number: i64) -> Result<
    ReturnView,
    ErrorView,
> {
    match validate(ts, env, number) {
        Err(e) => Err(e),
        Ok(_) => evaluate(ts, env, number),
    }
}

/// The environment after a line with outcome `r`: a declared binding is
/// appended, anything else leaves it as it was.
pub open spec fn extend_env<E>(env: Seq<VariableView>, r: Result<ReturnView, E>) -> Seq<
    VariableView,
> {
    match r {
        Ok(ReturnView::Variable(v)) => env.push(v),
        _ => env,
    }
}

/// Runs tokenized lines against the variable environment.
#[derive(Default)]
pub struct Lexer {}

impl Lexer {
    /// Validates and evaluates `line`; a declared variable is appended to
    /// `variables`, which is otherwise left unchanged.
    pub fn lexerize(&mut self, line: Line, variables: &mut Vec<Variable>) -> (r: Result<
        BaseLexingReturn,
        Error,
    >)
        ensures
            result_view(r) == lexerize_spec(line.tokens(), env_view(old(variables)@), line.number),
            match r {
                Ok(BaseLexingReturn::Variable(v)) => final(variables)@ == old(variables)@.push(v),
                _ => final(variables)@ == old(variables)@,
            },
    {
        let math = Math::new(variables);
        match math.is_valid_line(&line) {
            Ok(_) => {
                let executed = math.execute(&line);
                match executed {
                    Ok(BaseLexingReturn::Variable(var)) => {
                        variables.push(var.clone());
                        Ok(BaseLexingReturn::Variable(var))
                    },
                    other => other,
                }
            },
            Err(e) => Err(e),
        }
    }
}

} // verus!
