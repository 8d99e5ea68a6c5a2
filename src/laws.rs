use vstd::prelude::*;

use crate::lexer::{
    extend_env, first_operator, is_first_operator, lexerize_spec, statement_body,
    ErrorView, ReturnView,
};
use crate::parser::{
    accepted_token, follows_declaration, fragment_token, is_first_rejected, keyword_spec,
    line_outcome, tokenize_spec, LineErrorView,
};
use crate::syntax_elements::{Position, TokenView, ValueView, VariableView};
use crate::text::{
    has_no, int_text, lemma_int_text_literal, lemma_split_words, literal_value, split_spec, words,
};
use crate::variables::{declares, lookup, lemma_lookup_kind, int_binding};

verus! {

/// A binding appended after an environment is found only where the
/// environment has no match of its own.
pub proof fn lemma_lookup_push(
    env: Seq<VariableView>,
    v: VariableView,
    name: Seq<char>,
    kind: ValueView,
)
    ensures
        lookup(env.push(v), name, kind) == (match lookup(env, name, kind) {
            Some(found) => Some(found),
            None => if v.name == name && crate::variables::same_kind(v.value, kind) {
                Some(v)
            } else {
                None
            },
        }),
    decreases env.len(),
{
    if env.len() > 0 {
        assert(env.push(v)[0] == env[0]);
        assert(env.push(v).drop_first() =~= env.drop_first().push(v));
        lemma_lookup_push(env.drop_first(), v, name, kind);
    } else {
        assert(env.push(v)[0] == v);
        assert(env.push(v).drop_first() =~= Seq::<VariableView>::empty());
        assert(lookup(env.push(v).drop_first(), name, kind) is None);
        assert(lookup(env, name, kind) is None);
    }
}

proof fn lemma_undeclared_lookup(env: Seq<VariableView>, name: Seq<char>, kind: ValueView)
    requires
        !declares(env, name),
    ensures
        lookup(env, name, kind) is None,
{
    lemma_lookup_kind(env, name, kind);
    if let Some(v) = lookup(env, name, kind) {
        let i = choose|i: int| 0 <= i < env.len() && env[i] == v;
        assert(env[i].name == name);
    }
}

proof fn lemma_first_operator_at(ts: Seq<TokenView>, p: int)
    requires
        is_first_operator(ts, p),
    ensures
        first_operator(ts) == Some(p),
{
    assert forall|k: int| is_first_operator(ts, k) implies k == p by {
        if k < p {
            assert(!ts[k].is_operator());
        } else if k > p {
            assert(!ts[p].is_operator());
        }
    }
}

pub open spec fn pos_at(number: i64, i: int) -> Position {
    Position { line_number: number, line_position: i as i64 }
}

/// A fragment that can name a variable: no spaces, no keyword, no literal.
pub open spec fn plain_name(s: Seq<char>) -> bool {
    &&& s.len() > 0
    &&& has_no(s, ' ')
    &&& keyword_spec(s, Position { line_number: 0, line_position: 0 }) is None
    &&& literal_value(s) is None
}

proof fn lemma_int_fragment(v: i32, frags: Seq<Seq<char>>, i: int, env: Seq<VariableView>, n: i64)
    requires
        0 <= i < frags.len(),
        frags[i] == int_text(v as int),
    ensures
        fragment_token(frags, i, env, n) == Some(TokenView::Int(v, pos_at(n, i))),
{
    lemma_int_text_literal(v);
    let s = int_text(v as int);
    assert(s.len() == 1 ==> s != seq!['-']);
    assert(keyword_spec(s, pos_at(n, i)) is None);
}

proof fn lemma_name_fragment(
    x: Seq<char>,
    frags: Seq<Seq<char>>,
    i: int,
    env: Seq<VariableView>,
    n: i64,
)
    requires
        0 <= i < frags.len(),
        frags[i] == x,
        plain_name(x),
        follows_declaration(frags, i) || declares(env, x),
    ensures
        fragment_token(frags, i, env, n) == Some(TokenView::Variable(x, pos_at(n, i))),
{
    assert(keyword_spec(x, pos_at(n, i)) is None);
}

proof fn lemma_all_accepted(
    frags: Seq<Seq<char>>,
    env: Seq<VariableView>,
    n: i64,
    ts: Seq<TokenView>,
)
    requires
        frags.len() == ts.len(),
        forall|i: int|
            0 <= i < frags.len() ==> #[trigger] fragment_token(frags, i, env, n) == Some(ts[i]),
    ensures
        tokenize_spec(frags, env, n) == Ok::<Seq<TokenView>, int>(ts),
{
    assert(!exists|k: int| is_first_rejected(frags, env, n, k));
    assert(Seq::new(frags.len(), |i: int| accepted_token(frags, i, env, n)) =~= ts);
}

pub open spec fn set_word() -> Seq<char> {
    seq!['s', 'e', 't']
}

pub open spec fn plus_word() -> Seq<char> {
    seq!['+']
}

pub open spec fn assign_word() -> Seq<char> {
    seq!['=']
}

/// The line `set <name> = <left> + <right>`.
pub open spec fn declare_sum(name: Seq<char>, left: Seq<char>, right: Seq<char>) -> Seq<char> {
    words(seq![set_word(), name, assign_word(), left, plus_word(), right])
}

/// Tokenizing and checking `set <name> = <left> + <right>`, whose operands
/// have the given tokens.
proof fn lemma_declare_sum_tokens(
    name: Seq<char>,
    left: Seq<char>,
    right: Seq<char>,
    left_token: TokenView,
    right_token: TokenView,
    env: Seq<VariableView>,
    n: i64,
)
    requires
        plain_name(name),
        has_no(left, ' '),
        has_no(right, ' '),
        fragment_token(
            seq![set_word(), name, assign_word(), left, plus_word(), right],
            3,
            env,
            n,
        ) == Some(left_token),
        fragment_token(
            seq![set_word(), name, assign_word(), left, plus_word(), right],
            5,
            env,
            n,
        ) == Some(right_token),
        !left_token.is_operator(),
    ensures
        ({
            let ts = seq![
                TokenView::MutVarDeclaration(pos_at(n, 0)),
                TokenView::Variable(name, pos_at(n, 1)),
                TokenView::Assignment(pos_at(n, 2)),
                left_token,
                TokenView::Add(pos_at(n, 4)),
                right_token,
            ];
            &&& split_spec(declare_sum(name, left, right), ' ') == seq![
                set_word(),
                name,
                assign_word(),
                left,
                plus_word(),
                right,
            ]
            &&& tokenize_spec(
                seq![set_word(), name, assign_word(), left, plus_word(), right],
                env,
                n,
            ) == Ok::<Seq<TokenView>, int>(ts)
            &&& statement_body(ts) == seq![left_token, TokenView::Add(pos_at(n, 4)), right_token]
            &&& first_operator(statement_body(ts)) == Some(1int)
        }),
{
    let frags = seq![set_word(), name, assign_word(), left, plus_word(), right];
    assert(has_no(set_word(), ' '));
    assert(has_no(assign_word(), ' '));
    assert(has_no(plus_word(), ' '));
    assert forall|i: int| 0 <= i < frags.len() implies has_no(#[trigger] frags[i], ' ') by {
        if i == 0 {
        } else if i == 1 {
        } else if i == 2 {
        } else if i == 3 {
        } else if i == 4 {
        } else {
        }
    }
    lemma_split_words(frags);
    let ts = seq![
        TokenView::MutVarDeclaration(pos_at(n, 0)),
        TokenView::Variable(name, pos_at(n, 1)),
        TokenView::Assignment(pos_at(n, 2)),
        left_token,
        TokenView::Add(pos_at(n, 4)),
        right_token,
    ];
    lemma_name_fragment(name, frags, 1, env, n);
    assert(fragment_token(frags, 0, env, n) == Some(ts[0]));
    assert(fragment_token(frags, 2, env, n) == Some(ts[2]));
    assert(fragment_token(frags, 4, env, n) == Some(ts[4]));
    assert forall|i: int| 0 <= i < frags.len() implies #[trigger] fragment_token(
        frags,
        i,
        env,
        n,
    ) == Some(ts[i]) by {
        if i == 0 {
        } else if i == 1 {
        } else if i == 2 {
        } else if i == 3 {
        } else if i == 4 {
        } else {
        }
    }
    lemma_all_accepted(frags, env, n, ts);
    assert(statement_body(ts) =~= seq![left_token, TokenView::Add(pos_at(n, 4)), right_token]);
    lemma_first_operator_at(seq![left_token, TokenView::Add(pos_at(n, 4)), right_token], 1);
}

/// Evaluating the line `a + b`, `a - b` or `a * b` gives the exact result
/// when it fits in a signed 32-bit integer, and an overflow error at the
/// operator otherwise.
pub proof fn arithmetic_is_exact(a: i32, op: char, b: i32, env: Seq<VariableView>, number: i64)
    requires
        op == '+' || op == '-' || op == '*',
    ensures
        ({
            let exact = if op == '+' {
                a + b
            } else if op == '-' {
                a - b
            } else {
                a * b
            };
            let r = line_outcome(
                words(seq![int_text(a as int), seq![op], int_text(b as int)]),
                number,
                env,
            );
            &&& i32::MIN <= exact <= i32::MAX ==> r == Ok::<ReturnView, LineErrorView>(
                ReturnView::Int(exact as i32),
            )
            &&& !(i32::MIN <= exact <= i32::MAX) ==> r == Err::<ReturnView, LineErrorView>(
                LineErrorView::Evaluate(ErrorView::ArithmeticOverflow(pos_at(number, 1))),
            )
        }),
{
    let frags = seq![int_text(a as int), seq![op], int_text(b as int)];
    lemma_int_text_literal(a);
    lemma_int_text_literal(b);
    assert(has_no(seq![op], ' '));
    assert forall|i: int| 0 <= i < frags.len() implies has_no(#[trigger] frags[i], ' ') by {
        if i == 0 {
        } else if i == 1 {
        } else {
        }
    }
    lemma_split_words(frags);
    let operator = if op == '+' {
        TokenView::Add(pos_at(number, 1))
    } else if op == '-' {
        TokenView::Subtract(pos_at(number, 1))
    } else {
        TokenView::Multiply(pos_at(number, 1))
    };
    let ts = seq![TokenView::Int(a, pos_at(number, 0)), operator, TokenView::Int(b, pos_at(number, 2))];
    lemma_int_fragment(a, frags, 0, env, number);
    lemma_int_fragment(b, frags, 2, env, number);
    assert(fragment_token(frags, 1, env, number) == Some(operator));
    assert forall|i: int| 0 <= i < frags.len() implies #[trigger] fragment_token(
        frags,
        i,
        env,
        number,
    ) == Some(ts[i]) by {
        if i == 0 {
        } else if i == 1 {
        } else {
        }
    }
    lemma_all_accepted(frags, env, number, ts);
    assert(statement_body(ts) == ts);
    lemma_first_operator_at(ts, 1);
}

/// Evaluating the line `a / 0` fails with a division-by-zero error at the
/// operator, whatever `a` is.
pub proof fn division_by_zero_fails(a: i32, env: Seq<VariableView>, number: i64)
    ensures
        line_outcome(words(seq![int_text(a as int), seq!['/'], int_text(0)]), number, env)
            == Err::<ReturnView, LineErrorView>(
            LineErrorView::Evaluate(ErrorView::DivisionByZero(pos_at(number, 1))),
        ),
{
    let frags = seq![int_text(a as int), seq!['/'], int_text(0)];
    lemma_int_text_literal(a);
    lemma_int_text_literal(0);
    assert(has_no(seq!['/'], ' '));
    assert forall|i: int| 0 <= i < frags.len() implies has_no(#[trigger] frags[i], ' ') by {
        if i == 0 {
        } else if i == 1 {
        } else {
        }
    }
    lemma_split_words(frags);
    let ts = seq![
        TokenView::Int(a, pos_at(number, 0)),
        TokenView::Divide(pos_at(number, 1)),
        TokenView::Int(0, pos_at(number, 2)),
    ];
    lemma_int_fragment(a, frags, 0, env, number);
    lemma_int_fragment(0, frags, 2, env, number);
    assert forall|i: int| 0 <= i < frags.len() implies #[trigger] fragment_token(
        frags,
        i,
        env,
        number,
    ) == Some(ts[i]) by {
        if i == 0 {
        } else if i == 1 {
        } else {
        }
    }
    lemma_all_accepted(frags, env, number, ts);
    assert(statement_body(ts) == ts);
    lemma_first_operator_at(ts, 1);
}

/// A variable declared on one line is read by the next: after the line
/// `set x = a + b`, the line `set y = x + c` binds `y` to `a + b + c`.
pub proof fn declared_variable_is_read(
    env: Seq<VariableView>,
    x: Seq<char>,
    y: Seq<char>,
    a: i32,
    b: i32,
    c: i32,
    first: i64,
    second: i64,
)
    requires
        plain_name(x),
        plain_name(y),
        !declares(env, x),
        !declares(env, y),
        x != y,
        i32::MIN <= a + b <= i32::MAX,
        i32::MIN <= a + b + c <= i32::MAX,
    ensures
        ({
            let r1 = line_outcome(
                declare_sum(x, int_text(a as int), int_text(b as int)),
                first,
                env,
            );
            let r2 = line_outcome(
                declare_sum(y, x, int_text(c as int)),
                second,
                extend_env(env, r1),
            );
            &&& r1 == Ok::<ReturnView, LineErrorView>(
                ReturnView::Variable(
                    VariableView { name: x, value: ValueView::Int((a + b) as i32), mutable: true },
                ),
            )
            &&& r2 == Ok::<ReturnView, LineErrorView>(
                ReturnView::Variable(
                    VariableView {
                        name: y,
                        value: ValueView::Int((a + b + c) as i32),
                        mutable: true,
                    },
                ),
            )
        }),
{
    lemma_int_text_literal(a);
    lemma_int_text_literal(b);
    lemma_int_text_literal(c);
    let frags1 = seq![set_word(), x, assign_word(), int_text(a as int), plus_word(), int_text(b as int)];
    lemma_int_fragment(a, frags1, 3, env, first);
    lemma_int_fragment(b, frags1, 5, env, first);
    lemma_declare_sum_tokens(
        x,
        int_text(a as int),
        int_text(b as int),
        TokenView::Int(a, pos_at(first, 3)),
        TokenView::Int(b, pos_at(first, 5)),
        env,
        first,
    );
    let bound = VariableView { name: x, value: ValueView::Int((a + b) as i32), mutable: true };
    let env1 = env.push(bound);
    lemma_undeclared_lookup(env, x, ValueView::Int(0));
    lemma_lookup_push(env, bound, x, ValueView::Int(0));
    assert(int_binding(env1, x) == Some((a + b) as i32));
    assert(env1[env.len() as int].name == x);
    assert(declares(env1, x));
    let frags2 = seq![set_word(), y, assign_word(), x, plus_word(), int_text(c as int)];
    lemma_name_fragment(x, frags2, 3, env1, second);
    lemma_int_fragment(c, frags2, 5, env1, second);
    lemma_declare_sum_tokens(
        y,
        x,
        int_text(c as int),
        TokenView::Variable(x, pos_at(second, 3)),
        TokenView::Int(c, pos_at(second, 5)),
        env1,
        second,
    );
    assert(!declares(env1, y)) by {
        if declares(env1, y) {
            let i = choose|i: int| 0 <= i < env1.len() && (#[trigger] env1[i]).name == y;
            if i < env.len() {
                assert(env[i] == env1[i]);
            }
        }
    }
}

/// Declaring a name twice fails the second time with
/// `VariableAlreadyExists`, and the environment keeps exactly one binding of
/// that name.
pub proof fn redeclaration_is_rejected(
    env: Seq<VariableView>,
    x: Seq<char>,
    a: i32,
    b: i32,
    first: i64,
    second: i64,
)
    requires
        plain_name(x),
        !declares(env, x),
        i32::MIN <= a + b <= i32::MAX,
    ensures
        ({
            let line = declare_sum(x, int_text(a as int), int_text(b as int));
            let r1 = line_outcome(line, first, env);
            let env1 = extend_env(env, r1);
            let r2 = line_outcome(line, second, env1);
            let env2 = extend_env(env1, r2);
            &&& r1 is Ok
            &&& r2 == Err::<ReturnView, LineErrorView>(
                LineErrorView::Evaluate(ErrorView::VariableAlreadyExists(x)),
            )
            &&& env2 == env1
            &&& exists|i: int|
                0 <= i < env2.len() && env2[i].name == x && forall|j: int|
                    0 <= j < env2.len() && (#[trigger] env2[j]).name == x ==> j == i
        }),
{
    lemma_int_text_literal(a);
    lemma_int_text_literal(b);
    let line = declare_sum(x, int_text(a as int), int_text(b as int));
    let frags = seq![set_word(), x, assign_word(), int_text(a as int), plus_word(), int_text(b as int)];
    lemma_int_fragment(a, frags, 3, env, first);
    lemma_int_fragment(b, frags, 5, env, first);
    lemma_declare_sum_tokens(
        x,
        int_text(a as int),
        int_text(b as int),
        TokenView::Int(a, pos_at(first, 3)),
        TokenView::Int(b, pos_at(first, 5)),
        env,
        first,
    );
    let bound = VariableView { name: x, value: ValueView::Int((a + b) as i32), mutable: true };
    let env1 = env.push(bound);
    let r1 = line_outcome(line, first, env);
    assert(r1 == Ok::<ReturnView, LineErrorView>(ReturnView::Variable(bound)));
    assert(extend_env(env, r1) == env1);
    lemma_int_fragment(a, frags, 3, env1, second);
    lemma_int_fragment(b, frags, 5, env1, second);
    lemma_declare_sum_tokens(
        x,
        int_text(a as int),
        int_text(b as int),
        TokenView::Int(a, pos_at(second, 3)),
        TokenView::Int(b, pos_at(second, 5)),
        env1,
        second,
    );
    assert(env1[env.len() as int].name == x);
    assert(declares(env1, x));
    let r2 = line_outcome(line, second, env1);
    assert(r2 == Err::<ReturnView, LineErrorView>(
        LineErrorView::Evaluate(ErrorView::VariableAlreadyExists(x)),
    ));
    assert(extend_env(env1, r2) == env1);
    assert forall|j: int| 0 <= j < env1.len() && (#[trigger] env1[j]).name == x implies j
        == env.len() by {
        if j < env.len() {
            assert(env[j] == env1[j]);
        }
    }
    assert(0 <= env.len() < env1.len() && env1[env.len() as int].name == x);
}

/// A statement whose first token is an operator is rejected as an operator
/// in an illegal position, and the environment is left as it was.
pub proof fn leading_operator_is_rejected(ts: Seq<TokenView>, env: Seq<VariableView>, number: i64)
    requires
        statement_body(ts).len() > 0,
        statement_body(ts)[0].is_operator(),
    ensures
        lexerize_spec(ts, env, number) == Err::<ReturnView, ErrorView>(
            ErrorView::UnexpectedOperatorPosition(number),
        ),
        extend_env(env, lexerize_spec(ts, env, number)) == env,
{
    lemma_first_operator_at(statement_body(ts), 0);
}

/// A statement without an operator is rejected as having none.
pub proof fn missing_operator_is_rejected(ts: Seq<TokenView>, env: Seq<VariableView>, number: i64)
    requires
        forall|i: int|
            0 <= i < statement_body(ts).len() ==> !(#[trigger] statement_body(ts)[i]).is_operator(),
    ensures
        lexerize_spec(ts, env, number) == Err::<ReturnView, ErrorView>(
            ErrorView::UnableToFindOperator(number),
        ),
{
}

proof fn lemma_first_rejected_exists(
    frags: Seq<Seq<char>>,
    env: Seq<VariableView>,
    number: i64,
    k: int,
)
    requires
        0 <= k < frags.len(),
        fragment_token(frags, k, env, number) is None,
    ensures
        exists|f: int| is_first_rejected(frags, env, number, f),
    decreases k,
{
    if exists|j: int| 0 <= j < k && (#[trigger] fragment_token(frags, j, env, number)) is None {
        let j = choose|j: int| 0 <= j < k && (#[trigger] fragment_token(frags, j, env, number)) is None;
        lemma_first_rejected_exists(frags, env, number, j);
    } else {
        assert(is_first_rejected(frags, env, number, k));
    }
}

/// A fragment that is no keyword, no integer literal, names no declared
/// variable and does not follow `set` or `const` stops the line at
/// tokenization: the line fails there and is never evaluated.
pub proof fn undeclared_identifier_is_rejected(
    text: Seq<char>,
    number: i64,
    env: Seq<VariableView>,
    k: int,
)
    requires
        0 <= k < split_spec(text, ' ').len(),
        keyword_spec(
            split_spec(text, ' ')[k],
            Position { line_number: number, line_position: k as i64 },
        ) is None,
        literal_value(split_spec(text, ' ')[k]) is None,
        !follows_declaration(split_spec(text, ' '), k),
        !declares(env, split_spec(text, ' ')[k]),
    ensures
        line_outcome(text, number, env) matches Err(LineErrorView::Tokenize(_, _)),
{
    let frags = split_spec(text, ' ');
    lemma_first_rejected_exists(frags, env, number, k);
    assert(tokenize_spec(frags, env, number) is Err);
}

} // verus!
