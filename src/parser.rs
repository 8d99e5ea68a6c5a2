use vstd::prelude::*;

use crate::lexer::{
    extend_env, lexerize_spec, BaseLexingReturn, ErrorView, Lexer, ReturnView,
};
use crate::syntax_elements::{env_view, Position, Token, TokenView, Variable, VariableView};
use crate::text::{
    decimal_digits, index_text, lemma_split_nonempty, literal_value, parse_i32, split_on,
    split_spec, views,
};
use crate::types::{token_views, Line};
use crate::variables::{declares, var_exists};

verus! {

/// A fragment that is neither a keyword, an integer literal nor an
/// acceptable identifier: the fragment and its index, in decimal.
#[derive(PartialEq, Debug)]
pub enum Error {
    InvalidToken(String, String),
}

/// Why a source line failed: at tokenization or later.
#[derive(PartialEq, Debug)]
pub enum LineError {
    Tokenize(Error),
    Evaluate(crate::lexer::Error),
}

pub enum LineErrorView {
    Tokenize(Seq<char>, Seq<char>),
    Evaluate(ErrorView),
}

impl View for LineError {
    type V = LineErrorView;

    open spec fn view(&self) -> LineErrorView {
        match self {
            LineError::Tokenize(Error::InvalidToken(fragment, index)) => LineErrorView::Tokenize(
                fragment@,
                index@,
            ),
            LineError::Evaluate(e) => LineErrorView::Evaluate(e@),
        }
    }
}

pub open spec fn outcome_view(r: Result<BaseLexingReturn, LineError>) -> Result<
    ReturnView,
    LineErrorView,
> {
    match r {
        Ok(v) => Ok(v@),
        Err(e) => Err(e@),
    }
}

pub open spec fn outcome_views(rs: Seq<Result<BaseLexingReturn, LineError>>) -> Seq<
    Result<ReturnView, LineErrorView>,
> {
    rs.map_values(|r: Result<BaseLexingReturn, LineError>| outcome_view(r))
}

/// The token of a literal keyword or punctuation fragment.
pub open spec fn keyword_spec(frag: Seq<char>, pos: Position) -> Option<TokenView> {
    if frag == seq!['+'] {
        Some(TokenView::Add(pos))
    } else if frag == seq!['-'] {
        Some(TokenView::Subtract(pos))
    } else if frag == seq!['/'] {
        Some(TokenView::Divide(pos))
    } else if frag == seq!['*'] {
        Some(TokenView::Multiply(pos))
    } else if frag == seq!['\n'] {
        Some(TokenView::Eol(pos))
    } else if frag == seq!['/', '/'] {
        Some(TokenView::SingleComment(pos))
    } else if frag == seq!['s', 'e', 't'] {
        Some(TokenView::MutVarDeclaration(pos))
    } else if frag == seq!['c', 'o', 'n', 's', 't'] {
        Some(TokenView::ImmutVarDeclaration(pos))
    } else if frag == seq!['='] {
        Some(TokenView::Assignment(pos))
    } else {
        None
    }
}

/// The fragment before `i` is a declaration keyword.
pub open spec fn follows_declaration(frags: Seq<Seq<char>>, i: int) -> bool {
    i > 0 && (frags[i - 1] == seq!['s', 'e', 't'] || frags[i - 1] == seq![
        'c',
        'o',
        'n',
        's',
        't',
    ])
}

/// The token of fragment `i`: a keyword, else an integer literal, else an
/// identifier, which must follow a declaration keyword or name a declared
/// variable.
pub open spec fn fragment_token(
    frags: Seq<Seq<char>>,
    i: int,
    env: Seq<VariableView>,
    line_number: i64,
) -> Option<TokenView> {
    let frag = frags[i];
    let pos = Position { line_number, line_position: i as i64 };
    match keyword_spec(frag, pos) {
        Some(t) => Some(t),
        None => match literal_value(frag) {
            Some(v) => Some(TokenView::Int(v, pos)),
            None => if follows_declaration(frags, i) || declares(env, frag) {
                Some(TokenView::Variable(frag, pos))
            } else {
                None
            },
        },
    }
}

pub open spec fn is_first_rejected(
    frags: Seq<Seq<char>>,
    env: Seq<VariableView>,
    line_number: i64,
    k: int,
) -> bool {
    &&& 0 <= k < frags.len()
    &&& fragment_token(frags, k, env, line_number) is None
    &&& forall|j: int|
        0 <= j < k ==> (#[trigger] fragment_token(frags, j, env, line_number)) is Some
}

pub open spec fn accepted_token(
    frags: Seq<Seq<char>>,
    i: int,
    env: Seq<VariableView>,
    line_number: i64,
) -> TokenView {
    match fragment_token(frags, i, env, line_number) {
        Some(t) => t,
        None => TokenView::Eol(Position { line_number, line_position: i as i64 }),
    }
}

/// Tokenization of a line's fragments: the token of each, or the index of
/// the first fragment that has none.
pub open spec fn tokenize_spec(
    frags: Seq<Seq<char>>,
    env: Seq<VariableView>,
    line_number: i64,
) -> Result<Seq<TokenView>, int> {
    if exists|k: int| is_first_rejected(frags, env, line_number, k) {
        Err(choose|k: int| is_first_rejected(frags, env, line_number, k))
    } else {
        Ok(Seq::new(frags.len(), |i: int| accepted_token(frags, i, env, line_number)))
    }
}

/// Everything that happens to one source line: split at spaces, tokenized,
/// validated and evaluated.
pub open spec fn line_outcome(text: Seq<char>, number: i64, env: Seq<VariableView>) -> Result<
    ReturnView,
    LineErrorView,
> {
    let frags = split_spec(text, ' ');
    match tokenize_spec(frags, env, number) {
        Err(k) => Err(LineErrorView::Tokenize(frags[k], decimal_digits(k as nat))),
        Ok(ts) => match lexerize_spec(ts, env, number) {
            Ok(v) => Ok(v),
            Err(e) => Err(LineErrorView::Evaluate(e)),
        },
    }
}

/// The environment after lines with the given outcomes, in order.
pub open spec fn run_env(env: Seq<VariableView>, outs: Seq<Result<ReturnView, LineErrorView>>) -> Seq<
    VariableView,
>
    decreases outs.len(),
{
    if outs.len() == 0 {
        env
    } else {
        extend_env(run_env(env, outs.drop_last()), outs.last())
    }
}

/// The lines of a text: the pieces between newlines, without the empty piece
/// after a final newline, and without the carriage return that ends a line
/// followed by a newline.
pub open spec fn lines_spec(body: Seq<char>) -> Seq<Seq<char>> {
    let pieces = split_spec(body, '\n');
    let kept = if pieces.last().len() == 0 {
        pieces.drop_last()
    } else {
        pieces
    };
    Seq::new(
        kept.len(),
        |j: int|
            if j < pieces.len() - 1 && kept[j].len() > 0 && kept[j].last() == '\r' {
                kept[j].drop_last()
            } else {
                kept[j]
            },
    )
}

/// The token of a keyword or punctuation fragment, if it is one.
fn keyword_token(frag: &str, pos: Position) -> (r: Option<Token>)
    ensures
        match r {
            Some(t) => keyword_spec(frag@, pos) == Some(t@),
            None => keyword_spec(frag@, pos) is None,
        },
{
    let n = frag.unicode_len();
    if n == 1 {
        let c = frag.get_char(0);
        assert(frag@ =~= seq![c]);
        if c == '+' {
            return Some(Token::Add(pos));
        } else if c == '-' {
            return Some(Token::Subtract(pos));
        } else if c == '/' {
            return Some(Token::Divide(pos));
        } else if c == '*' {
            return Some(Token::Multiply(pos));
        } else if c == '\n' {
            return Some(Token::Eol(pos));
        } else if c == '=' {
            return Some(Token::Assignment(pos));
        }
    } else if n == 2 {
        let c0 = frag.get_char(0);
        let c1 = frag.get_char(1);
        assert(frag@ =~= seq![c0, c1]);
        if c0 == '/' && c1 == '/' {
            return Some(Token::SingleComment(pos));
        }
    } else if n == 3 {
        let c0 = frag.get_char(0);
        let c1 = frag.get_char(1);
        let c2 = frag.get_char(2);
        assert(frag@ =~= seq![c0, c1, c2]);
        if c0 == 's' && c1 == 'e' && c2 == 't' {
            return Some(Token::MutVarDeclaration(pos));
        }
    } else if n == 5 {
        let c0 = frag.get_char(0);
        let c1 = frag.get_char(1);
        let c2 = frag.get_char(2);
        let c3 = frag.get_char(3);
        let c4 = frag.get_char(4);
        assert(frag@ =~= seq![c0, c1, c2, c3, c4]);
        if c0 == 'c' && c1 == 'o' && c2 == 'n' && c3 == 's' && c4 == 't' {
            return Some(Token::ImmutVarDeclaration(pos));
        }
    }
    None
}

/// Turns source text into tokens, one line at a time, and runs each line
/// against the variables that earlier lines declared.
#[derive(Default)]
pub struct Parser {
    pub current_line: String,
    pub variables: Vec<Variable>,
}

impl Parser {
    /// Cuts the current line at every space.
    pub fn split(&mut self) -> (r: Vec<String>)
        ensures
            views(r@) == split_spec(old(self).current_line@, ' '),
            *final(self) == *old(self),
    {
        split_on(self.current_line.as_str(), ' ')
    }

    /// The last token so far is `set` or `const`, so the next fragment is a
    /// new name.
    fn is_variable(&self, tokens: &Vec<Token>) -> (r: bool)
        ensures
            r == (tokens@.len() > 0 && tokens@.last()@.is_declaration()),
    {
        if tokens.len() == 0 {
            return false;
        }
        match &tokens[tokens.len() - 1] {
            Token::MutVarDeclaration(_) | Token::ImmutVarDeclaration(_) => true,
            _ => false,
        }
    }

    /// Classifies each fragment of a line, in order; fails at the first
    /// fragment that is not a keyword, an integer literal or an acceptable
    /// identifier.
    pub fn tokenize(&mut self, split_line: &Vec<String>, line_number: i64) -> (r: Result<
        Vec<Token>,
        Error,
    >)
        ensures
            *final(self) == *old(self),
            match r {
                Ok(t) => tokenize_spec(views(split_line@), env_view(old(self).variables@), line_number)
                    == Ok::<Seq<TokenView>, int>(token_views(t@)),
                Err(Error::InvalidToken(fragment, index)) => {
                    &&& tokenize_spec(
                        views(split_line@),
                        env_view(old(self).variables@),
                        line_number,
                    ) matches Err(k)
                    &&& fragment@ == views(split_line@)[k]
                    &&& index@ == decimal_digits(k as nat)
                },
            },
    {
        let ghost frags = views(split_line@);
        let ghost env = env_view(self.variables@);
        let mut t: Vec<Token> = Vec::new();
        let mut index: usize = 0;
        while index < split_line.len()
            invariant
                index <= split_line.len(),
                frags == views(split_line@),
                env == env_view(self.variables@),
                t@.len() == index,
                forall|j: int|
                    0 <= j < index ==> #[trigger] fragment_token(frags, j, env, line_number)
                        == Some(t@[j]@),
            decreases split_line.len() - index,
        {
            let token = &split_line[index];
            assert(frags[index as int] == token@);
            let pos = Position::new(line_number, index as i64);
            let ghost expected = fragment_token(frags, index as int, env, line_number);
            proof {
                if index > 0 {
                    let prev = t@[index - 1]@;
                    assert(fragment_token(frags, index - 1, env, line_number) == Some(prev));
                }
            }
            let after_declaration = self.is_variable(&t);
            assert(after_declaration == follows_declaration(frags, index as int));
            match keyword_token(token.as_str(), pos) {
                Some(k) => {
                    t.push(k);
                },
                None => match parse_i32(token.as_str()) {
                    Some(value) => {
                        t.push(Token::Int(value, pos));
                    },
                    None => {
                        if after_declaration || var_exists(&self.variables, token.as_str()) {
                            t.push(Token::Variable(token.clone(), pos));
                        } else {
                            assert(is_first_rejected(frags, env, line_number, index as int));
                            assert forall|k: int|
                                is_first_rejected(frags, env, line_number, k) implies k
                                == index by {
                                if k > index {
                                    assert(fragment_token(frags, index as int, env, line_number)
                                        is Some);
                                }
                            }
                            return Err(Error::InvalidToken(token.clone(), index_text(index)));
                        }
                    },
                },
            }
            assert(expected == Some(t@[index as int]@));
            index += 1;
        }
        assert(!exists|k: int| is_first_rejected(frags, env, line_number, k));
        assert(token_views(t@) =~= Seq::new(
            frags.len(),
            |i: int| accepted_token(frags, i, env, line_number),
        ));
        Ok(t)
    }

    /// Cuts a text into lines.
    fn separate_to_lines(&mut self, body: &str) -> (r: Vec<String>)
        ensures
            views(r@) == lines_spec(body@),
            *final(self) == *old(self),
    {
        let pieces = split_on(body, '\n');
        proof {
            lemma_split_nonempty(body@, '\n');
        }
        let ghost spec_pieces = split_spec(body@, '\n');
        let ghost expected = lines_spec(body@);
        let ghost kept = if spec_pieces.last().len() == 0 {
            spec_pieces.drop_last()
        } else {
            spec_pieces
        };
        let count = pieces.len();
        assert(pieces@[count - 1]@ == spec_pieces.last());
        let keep = if pieces[count - 1].as_str().unicode_len() == 0 {
            count - 1
        } else {
            count
        };
        let mut lines: Vec<String> = Vec::new();
        let mut j: usize = 0;
        while j < keep
            invariant
                j <= keep,
                keep <= count,
                count == pieces@.len(),
                spec_pieces == views(pieces@),
                expected == lines_spec(body@),
                expected.len() == keep,
                kept.len() == keep,
                spec_pieces.len() == count,
                forall|k: int| 0 <= k < keep ==> #[trigger] kept[k] == spec_pieces[k],
                forall|k: int|
                    0 <= k < keep ==> #[trigger] expected[k] == (if k < count - 1 && kept[k].len()
                        > 0 && kept[k].last() == '\r' {
                        kept[k].drop_last()
                    } else {
                        kept[k]
                    }),
                views(lines@) == expected.subrange(0, j as int),
            decreases keep - j,
        {
            let piece = pieces[j].as_str();
            assert(piece@ == spec_pieces[j as int]);
            let n = piece.unicode_len();
            let line = if j + 1 < count && n > 0 && piece.get_char(n - 1) == '\r' {
                piece.substring_char(0, n - 1).to_owned()
            } else {
                pieces[j].clone()
            };
            assert(piece@.len() > 0 ==> piece@.drop_last() =~= piece@.subrange(0, n - 1));
            assert(line@ == expected[j as int]);
            let ghost before = views(lines@);
            lines.push(line);
            assert(views(lines@) =~= before.push(line@));
            assert(views(lines@) =~= expected.subrange(0, j as int + 1));
            j += 1;
        }
        assert(expected.subrange(0, keep as int) =~= expected);
        lines
    }

    /// Runs one source line: splits and tokenizes it, then validates and
    /// evaluates it against the variables declared so far. A declared
    /// variable is appended to them.
    pub fn parse_line(&mut self, line: &str, number: i64) -> (r: Result<BaseLexingReturn, LineError>)
        ensures
            final(self).current_line@ == line@,
            outcome_view(r) == line_outcome(line@, number, env_view(old(self).variables@)),
            match r {
                Ok(BaseLexingReturn::Variable(v)) => final(self).variables@ == old(
                    self,
                ).variables@.push(v),
                _ => final(self).variables@ == old(self).variables@,
            },
    {
        self.current_line = line.to_owned();
        let split = self.split();
        let tokenized = match self.tokenize(&split, number) {
            Ok(t) => t,
            Err(e) => return Err(LineError::Tokenize(e)),
        };
        assert(token_views(tokenized@).len() == tokenized@.len());
        let line = Line::new(tokenized, self.current_line.clone(), split, number);
        let mut lexer = Lexer {};
        match lexer.lexerize(line, &mut self.variables) {
            Ok(v) => Ok(v),
            Err(e) => Err(LineError::Evaluate(e)),
        }
    }

    /// Runs every line of `body` in order; each line sees the variables that
    /// the lines before it declared, and a failing line changes nothing.
    pub fn parse(&mut self, body: &str) -> (r: Vec<Result<BaseLexingReturn, LineError>>)
        ensures
            r.len() == lines_spec(body@).len(),
            forall|i: int|
                0 <= i < r.len() ==> outcome_view(#[trigger] r[i]) == line_outcome(
                    lines_spec(body@)[i],
                    i as i64,
                    run_env(env_view(old(self).variables@), outcome_views(r@).take(i)),
                ),
            env_view(final(self).variables@) == run_env(
                env_view(old(self).variables@),
                outcome_views(r@),
            ),
            final(self).current_line@ == if r.len() == 0 {
                old(self).current_line@
            } else {
                lines_spec(body@).last()
            },
    {
        let ghost env0 = env_view(self.variables@);
        let ghost line0 = self.current_line@;
        let lines = self.separate_to_lines(body);
        let ghost texts = lines_spec(body@);
        let mut results: Vec<Result<BaseLexingReturn, LineError>> = Vec::new();
        let mut i: usize = 0;
        assert(outcome_views(results@) =~= Seq::<Result<ReturnView, LineErrorView>>::empty());
        while i < lines.len()
            invariant
                i <= lines.len(),
                texts == views(lines@),
                results@.len() == i,
                env_view(self.variables@) == run_env(env0, outcome_views(results@)),
                self.current_line@ == if i == 0 {
                    line0
                } else {
                    texts[i - 1]
                },
                forall|j: int|
                    0 <= j < i ==> outcome_view(#[trigger] results@[j]) == line_outcome(
                        texts[j],
                        j as i64,
                        run_env(env0, outcome_views(results@).take(j)),
                    ),
            decreases lines.len() - i,
        {
            let ghost before = outcome_views(results@);
            assert(before.take(i as int) =~= before);
            let outcome = self.parse_line(lines[i].as_str(), i as i64);
            results.push(outcome);
            let ghost after = outcome_views(results@);
            assert(after =~= before.push(outcome_view(outcome)));
            assert(after.drop_last() =~= before);
            assert forall|j: int| 0 <= j <= i implies after.take(j) =~= before.take(j) by {}
            i += 1;
        }
        results
    }
}

} // verus!
