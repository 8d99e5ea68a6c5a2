use vstd::prelude::*;

use crate::lexer::{Error, ErrorView};
use crate::syntax_elements::{env_view, Token, TokenView, ValueView, Variable, VariableView, DataTypes};
use crate::text::text_eq;
use crate::types::{Line, token_views};

verus! {

/// Some binding of `env` is named `name`.
pub open spec fn declares(env: Seq<VariableView>, name: Seq<char>) -> bool {
    exists|i: int| 0 <= i < env.len() && (#[trigger] env[i]).name == name
}

/// Both values are of the same variant.
pub open spec fn same_kind(a: ValueView, b: ValueView) -> bool {
    match (a, b) {
        (ValueView::Str(_), ValueView::Str(_)) => true,
        (ValueView::Int(_), ValueView::Int(_)) => true,
        (ValueView::Bool(_), ValueView::Bool(_)) => true,
        (ValueView::Float(_), ValueView::Float(_)) => true,
        (ValueView::Char(_), ValueView::Char(_)) => true,
        _ => false,
    }
}

/// The first binding named `name` whose value has the variant of `kind`.
pub open spec fn lookup(env: Seq<VariableView>, name: Seq<char>, kind: ValueView) -> Option<
    VariableView,
>
    decreases env.len(),
{
    if env.len() == 0 {
        None
    } else if env[0].name == name && same_kind(env[0].value, kind) {
        Some(env[0])
    } else {
        lookup(env.drop_first(), name, kind)
    }
}

/// The value of the first integer binding named `name`.
pub proof fn lemma_lookup_kind(env: Seq<VariableView>, name: Seq<char>, kind: ValueView)
    ensures
        lookup(env, name, kind) matches Some(v) ==> v.name == name && same_kind(v.value, kind)
            && env.contains(v),
    decreases env.len(),
{
    if env.len() > 0 {
        lemma_lookup_kind(env.drop_first(), name, kind);
        if !(env[0].name == name && same_kind(env[0].value, kind)) {
            if let Some(v) = lookup(env.drop_first(), name, kind) {
                let i = choose|i: int| 0 <= i < env.drop_first().len() && env.drop_first()[i] == v;
                assert(env[i + 1] == v);
            }
        } else {
            assert(env[0] == env[0]);
        }
    }
}

pub open spec fn int_binding(env: Seq<VariableView>, name: Seq<char>) -> Option<i32> {
    match lookup(env, name, ValueView::Int(0)) {
        Some(v) => match v.value {
            ValueView::Int(x) => Some(x),
            _ => None,
        },
        None => None,
    }
}

pub open spec fn is_first_declaration(ts: Seq<TokenView>, d: int) -> bool {
    &&& 0 <= d < ts.len()
    &&& ts[d].is_declaration()
    &&& forall|j: int| 0 <= j < d ==> !(#[trigger] ts[j]).is_declaration()
}

/// Index of the first `set` or `const` token.
pub open spec fn first_declaration(ts: Seq<TokenView>) -> Option<int> {
    if exists|d: int| is_first_declaration(ts, d) {
        Some(choose|d: int| is_first_declaration(ts, d))
    } else {
        None
    }
}

/// The name that follows the first declaration keyword.
pub open spec fn declared_name(ts: Seq<TokenView>) -> Result<Seq<char>, ErrorView> {
    match first_declaration(ts) {
        None => Err(ErrorView::UnableToFindVarName),
        Some(d) => if d + 1 >= ts.len() {
            Err(ErrorView::UnableToFindVarName)
        } else {
            match ts[d + 1] {
                TokenView::Variable(name, _) => Ok(name),
                other => Err(ErrorView::ExpectedVarName(other)),
            }
        },
    }
}

pub fn look_variable(var_name: &str, variables: &Vec<Variable>, expected_type: DataTypes) -> (r:
    Option<Variable>)
    ensures
        match r {
            Some(v) => lookup(env_view(variables@), var_name@, expected_type@) == Some(v@),
            None => lookup(env_view(variables@), var_name@, expected_type@) is None,
        },
{
    let ghost env = env_view(variables@);
    let ghost len = variables@.len() as int;
    assert(env.subrange(0, len) =~= env);
    let mut i: usize = 0;
    while i < variables.len()
        invariant
            i <= variables.len(),
            env == env_view(variables@),
            len == variables@.len(),
            lookup(env, var_name@, expected_type@) == lookup(
                env.subrange(i as int, len),
                var_name@,
                expected_type@,
            ),
        decreases variables.len() - i,
    {
        let variable = &variables[i];
        let ghost rest = env.subrange(i as int, len);
        assert(rest[0] == variable@);
        assert(rest.drop_first() =~= env.subrange(i as int + 1, len));
        if text_eq(var_name, variable.name.as_str()) {
            let same_type = match (&variable.value, &expected_type) {
                (DataTypes::Int(_), DataTypes::Int(_)) => true,
                (DataTypes::Char(_), DataTypes::Char(_)) => true,
                (DataTypes::Bool(_), DataTypes::Bool(_)) => true,
                (DataTypes::Float(_), DataTypes::Float(_)) => true,
                (DataTypes::Str(_), DataTypes::Str(_)) => true,
                _ => false,
            };
            if same_type {
                return Some(variable.clone());
            }
        }
        i += 1;
    }
    None
}

pub fn var_exists(variables: &Vec<Variable>, name: &str) -> (r: bool)
    ensures
        r == declares(env_view(variables@), name@),
{
    let ghost env = env_view(variables@);
    let mut i: usize = 0;
    while i < variables.len()
        invariant
            i <= variables.len(),
            env == env_view(variables@),
            forall|j: int| 0 <= j < i ==> (#[trigger] env[j]).name != name@,
        decreases variables.len() - i,
    {
        assert(env[i as int] == variables@[i as int]@);
        if text_eq(variables[i].name.as_str(), name) {
            return true;
        }
        i += 1;
    }
    false
}

/// The name declared by the line: the identifier right after its first
/// `set` or `const`.
pub fn get_var_name(line: &Line) -> (r: Result<String, Error>)
    ensures
        match r {
            Ok(name) => declared_name(line.tokens()) == Ok::<Seq<char>, ErrorView>(name@),
            Err(e) => declared_name(line.tokens()) == Err::<Seq<char>, ErrorView>(e@),
        },
{
    let ghost ts = line.tokens();
    let tokens = &line.tokenized_body;
    let mut d: usize = 0;
    while d < tokens.len()
        invariant
            d <= tokens.len(),
            ts == token_views(tokens@),
            ts == line.tokens(),
            ts.len() == tokens.len(),
            forall|j: int| 0 <= j < d ==> !(#[trigger] ts[j]).is_declaration(),
        decreases tokens.len() - d,
    {
        assert(ts[d as int] == tokens@[d as int]@);
        let is_declaration = match &tokens[d] {
            Token::MutVarDeclaration(_) | Token::ImmutVarDeclaration(_) => true,
            _ => false,
        };
        if is_declaration {
            assert(is_first_declaration(ts, d as int));
            assert forall|k: int| is_first_declaration(ts, k) implies k == d by {
                if k > d {
                    assert(!ts[d as int].is_declaration());
                }
            }
            if d + 1 >= tokens.len() {
                return Err(Error::UnableToFindVarName);
            }
            assert(ts[d + 1] == tokens@[d + 1]@);
            return match &tokens[d + 1] {
                Token::Variable(name, _) => Ok(name.clone()),
                other => Err(Error::ExpectedVarName(other.clone())),
            };
        }
        d += 1;
    }
    assert(!exists|k: int| is_first_declaration(ts, k));
    Err(Error::UnableToFindVarName)
}

/// The line declares with `set`, the mutable keyword.
pub fn is_var_mutable(line: &Line) -> (r: bool)
    ensures
        r == (line.tokens().len() > 0 && line.tokens()[0] is MutVarDeclaration),
{
    if line.tokenized_body.len() == 0 {
        return false;
    }
    assert(line.tokens()[0] == line.tokenized_body@[0]@);
    match &line.tokenized_body[0] {
        Token::MutVarDeclaration(_) => true,
        _ => false,
    }
}

/// The line's tokens without its first three, the declaration prefix.
pub fn slice_variable_dec(line: &Line) -> (r: Vec<Token>)
    ensures
        r@ == line.tokenized_body@.subrange(
            if line.tokenized_body.len() < 3 {
                line.tokenized_body.len() as int
            } else {
                3
            },
            line.tokenized_body.len() as int,
        ),
{
    let tokens = &line.tokenized_body;
    let start: usize = if tokens.len() < 3 {
        tokens.len()
    } else {
        3
    };
    let mut rest: Vec<Token> = Vec::new();
    let mut i: usize = start;
    while i < tokens.len()
        invariant
            start <= i <= tokens.len(),
            rest@ == tokens@.subrange(start as int, i as int),
        decreases tokens.len() - i,
    {
        rest.push(tokens[i].clone());
        assert(rest@ =~= tokens@.subrange(start as int, i as int + 1));
        i += 1;
    }
    rest
}

} // verus!
