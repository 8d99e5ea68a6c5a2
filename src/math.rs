use vstd::prelude::*;

use crate::lexer::{
    apply_operator, check_shape, evaluate, first_operator, has_declaration_prefix,
    is_first_operator, numeric_at, operand_value, result_view, statement_body, validate,
    BaseLexingReturn, Error, ErrorView,
};
use crate::syntax_elements::{env_view, DataTypes, Position, Token, Variable, VariableView};
use crate::types::{token_views, Line};
use crate::variables::{get_var_name, is_var_mutable, look_variable, slice_variable_dec, var_exists};

verus! {

pub open spec fn unit_view(r: Result<(), Error>) -> Result<(), ErrorView> {
    match r {
        Ok(_) => Ok(()),
        Err(e) => Err(e@),
    }
}

pub open spec fn int_view(r: Result<i32, Error>) -> Result<i32, ErrorView> {
    match r {
        Ok(v) => Ok(v),
        Err(e) => Err(e@),
    }
}

/// Validation and evaluation of single-operator arithmetic statements,
/// against a copy of the variable environment.
pub struct Math {
    variables: Vec<Variable>,
}

/// `v` as an `i32`, or an overflow reported at `p`.
fn fit(v: i64, p: Position) -> (r: Result<i32, Error>)
    ensures
        int_view(r) == crate::lexer::fit_i32(v as int, p),
{
    if i32::MIN as i64 <= v && v <= i32::MAX as i64 {
        Ok(v as i32)
    } else {
        Err(Error::ArithmeticOverflow(p))
    }
}

impl Math {
    /// The environment this validator reads.
    pub closed spec fn env(&self) -> Seq<VariableView> {
        env_view(self.variables@)
    }

    pub fn new(variables: &Vec<Variable>) -> (r: Math)
        ensures
            r.env() == env_view(variables@),
    {
        let mut copy: Vec<Variable> = Vec::new();
        let mut i: usize = 0;
        while i < variables.len()
            invariant
                i <= variables.len(),
                copy@ == variables@.subrange(0, i as int),
            decreases variables.len() - i,
        {
            copy.push(variables[i].clone());
            assert(copy@ =~= variables@.subrange(0, i as int + 1));
            i += 1;
        }
        assert(copy@ =~= variables@);
        Math { variables: copy }
    }

    /// The line opens with a declaration prefix: `set` or `const`, a name, `=`.
    pub fn is_assigning_to_variable(&self, line: &Line) -> (r: bool)
        ensures
            r == has_declaration_prefix(line.tokens()),
    {
        let tokens = &line.tokenized_body;
        if tokens.len() < 3 {
            return false;
        }
        assert(line.tokens()[0] == tokens@[0]@);
        assert(line.tokens()[1] == tokens@[1]@);
        assert(line.tokens()[2] == tokens@[2]@);
        let keyword = match &tokens[0] {
            Token::MutVarDeclaration(_) | Token::ImmutVarDeclaration(_) => true,
            _ => false,
        };
        let name = match &tokens[1] {
            Token::Variable(_, _) => true,
            _ => false,
        };
        let assignment = match &tokens[2] {
            Token::Assignment(_) => true,
            _ => false,
        };
        keyword && name && assignment
    }

    /// Index of the first operator token.
    fn find_operator(&self, tokens: &Vec<Token>) -> (r: Option<usize>)
        ensures
            match r {
                Some(p) => first_operator(token_views(tokens@)) == Some(p as int),
                None => first_operator(token_views(tokens@)) is None,
            },
    {
        let ghost ts = token_views(tokens@);
        let mut i: usize = 0;
        while i < tokens.len()
            invariant
                i <= tokens.len(),
                ts == token_views(tokens@),
                ts.len() == tokens.len(),
                forall|j: int| 0 <= j < i ==> !(#[trigger] ts[j]).is_operator(),
            decreases tokens.len() - i,
        {
            assert(ts[i as int] == tokens@[i as int]@);
            match &tokens[i] {
                Token::Add(_) | Token::Subtract(_) | Token::Divide(_) | Token::Multiply(_) => {
                    assert(is_first_operator(ts, i as int));
                    assert forall|k: int| is_first_operator(ts, k) implies k == i by {
                        if k > i {
                            assert(!ts[i as int].is_operator());
                        }
                    }
                    return Some(i);
                },
                _ => {},
            }
            i += 1;
        }
        assert(!exists|k: int| is_first_operator(ts, k));
        None
    }

    /// The token at `pos` is an integer literal or names an integer variable.
    fn num_at_pos(&self, tokens: &Vec<Token>, pos: usize) -> (r: bool)
        ensures
            r == numeric_at(token_views(tokens@), pos as int, self.env()),
    {
        if pos >= tokens.len() {
            return false;
        }
        assert(token_views(tokens@)[pos as int] == tokens@[pos as int]@);
        proof {
            if let Token::Variable(name, _) = &tokens@[pos as int] {
                crate::variables::lemma_lookup_kind(self.env(), name@, DataTypes::Int(0)@);
            }
        }
        match &tokens[pos] {
            Token::Int(_, _) => true,
            Token::Variable(name, _) => look_variable(
                name.as_str(),
                &self.variables,
                DataTypes::Int(0),
            ).is_some(),
            _ => false,
        }
    }

    /// The shape check on statement tokens.
    fn rules(&self, tokens: &Vec<Token>, number: i64) -> (r: Result<(), Error>)
        ensures
            unit_view(r) == check_shape(token_views(tokens@), self.env(), number),
    {
        let operator_position = self.find_operator(tokens);
        match operator_position {
            None => Err(Error::UnableToFindOperator(number)),
            Some(operator_pos) => {
                assert(token_views(tokens@).len() == tokens.len());
                assert(is_first_operator(token_views(tokens@), operator_pos as int));
                // an operator in first place has no left operand
                if operator_pos == 0 {
                    return Err(Error::UnexpectedOperatorPosition(number));
                }
                let num_at_pos_1 = self.num_at_pos(tokens, operator_pos - 1);
                let num_at_pos_2 = self.num_at_pos(tokens, operator_pos + 1);
                if num_at_pos_1 && num_at_pos_2 {
                    Ok(())
                } else {
                    Err(Error::UnexpectedIntegerPositions(number))
                }
            },
        }
    }

    /// The integer an operand token stands for in `variables`.
    fn extract_int_value(&self, token: &Token, variables: &Vec<Variable>, pos: Position) -> (r:
        Result<i32, Error>)
        ensures
            match operand_value(token@, env_view(variables@)) {
                Some(v) => r == Ok::<i32, Error>(v),
                None => r == Err::<i32, Error>(Error::ExpectedInt(*token, pos)),
            },
    {
        match token {
            Token::Int(value, _) => Ok(*value),
            Token::Variable(name, _) => {
                let variable = look_variable(name.as_str(), variables, DataTypes::Int(0));
                match variable {
                    Some(v) => match v.value {
                        DataTypes::Int(value) => Ok(value),
                        _ => Err(Error::ExpectedInt(token.clone(), pos)),
                    },
                    None => Err(Error::ExpectedInt(token.clone(), pos)),
                }
            },
            _ => Err(Error::ExpectedInt(token.clone(), pos)),
        }
    }

    /// Applies the operator token to two operands; overflow and division by
    /// zero are reported at the operator.
    fn apply(&self, operator: &Token, a: i32, b: i32) -> (r: Result<i32, Error>)
        ensures
            int_view(r) == apply_operator(operator@, a, b),
    {
        match operator {
            Token::Add(p) => fit(a as i64 + b as i64, *p),
            Token::Subtract(p) => fit(a as i64 - b as i64, *p),
            Token::Multiply(p) => {
                assert(-0x4000_0000_0000_0000 <= a * b <= 0x4000_0000_0000_0000) by (
                nonlinear_arith)
                    requires
                        -0x8000_0000 <= a <= 0x7fff_ffff,
                        -0x8000_0000 <= b <= 0x7fff_ffff,
                ;
                fit(a as i64 * b as i64, *p)
            },
            Token::Divide(p) => {
                if b == 0 {
                    return Err(Error::DivisionByZero(*p));
                }
                let abs_a: u64 = if a < 0 {
                    (0 - a as i64) as u64
                } else {
                    a as u64
                };
                let abs_b: u64 = if b < 0 {
                    (0 - b as i64) as u64
                } else {
                    b as u64
                };
                let quotient = abs_a / abs_b;
                assert(quotient <= abs_a) by (nonlinear_arith)
                    requires
                        abs_b >= 1,
                        quotient == abs_a / abs_b,
                ;
                let value: i64 = if (a < 0) == (b < 0) {
                    quotient as i64
                } else {
                    0 - quotient as i64
                };
                fit(value, *p)
            },
            other => Err(Error::ExpectedOperator(other.clone(), other.get_pos())),
        }
    }

    /// Validates a line: the shape check on its statement tokens.
    pub fn is_valid_line(&self, line: &Line) -> (r: Result<(), Error>)
        ensures
            unit_view(r) == validate(line.tokens(), self.env(), line.number),
    {
        let assign_to_var = self.is_assigning_to_variable(line);
        let sliced = if assign_to_var {
            slice_variable_dec(line)
        } else {
            Vec::new()
        };
        let statement = if assign_to_var {
            &sliced
        } else {
            &line.tokenized_body
        };
        assert(token_views(statement@) =~= statement_body(line.tokens()));
        self.rules(statement, line.number)
    }

    /// Evaluates a line: resolves both operands, applies the operator and,
    /// for a declaring line, builds the new binding.
    pub fn execute(&self, line: &Line) -> (r: Result<BaseLexingReturn, Error>)
        ensures
            result_view(r) == evaluate(line.tokens(), self.env(), line.number),
    {
        let ghost ts = line.tokens();
        let assign_to_var = self.is_assigning_to_variable(line);
        let sliced = if assign_to_var {
            slice_variable_dec(line)
        } else {
            Vec::new()
        };
        let final_line = if assign_to_var {
            &sliced
        } else {
            &line.tokenized_body
        };
        let ghost body = statement_body(ts);
        assert(token_views(final_line@) =~= body);
        if final_line.len() < 3 {
            return Err(Error::Unknown(line.number));
        }
        assert(body[0] == final_line@[0]@);
        assert(body[1] == final_line@[1]@);
        assert(body[2] == final_line@[2]@);

        let num_1_token = &final_line[0];
        let num_1 = match self.extract_int_value(num_1_token, &self.variables, num_1_token.get_pos()) {
            Ok(v) => v,
            Err(e) => return Err(e),
        };
        let num_2_token = &final_line[2];
        let num_2 = match self.extract_int_value(num_2_token, &self.variables, num_2_token.get_pos()) {
            Ok(v) => v,
            Err(e) => return Err(e),
        };
        let value = match self.apply(&final_line[1], num_1, num_2) {
            Ok(v) => v,
            Err(e) => return Err(e),
        };
        if !assign_to_var {
            return Ok(BaseLexingReturn::Int(value));
        }
        assert(crate::variables::is_first_declaration(ts, 0));
        assert forall|k: int| crate::variables::is_first_declaration(ts, k) implies k == 0 by {
            if k > 0 {
                assert(!ts[0].is_declaration());
            }
        }
        let name = match get_var_name(line) {
            Ok(name) => name,
            Err(e) => return Err(e),
        };
        let mutable = is_var_mutable(line);
        if var_exists(&self.variables, name.as_str()) {
            return Err(Error::VariableAlreadyExists(name));
        }
        Ok(BaseLexingReturn::Variable(Variable::new(name, DataTypes::Int(value), mutable)))
    }
}

} // verus!
