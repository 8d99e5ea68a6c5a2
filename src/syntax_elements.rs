use vstd::prelude::*;

verus! {

/// Where a token stands: the line it belongs to and its index among the
/// line's fragments.
#[derive(PartialEq, Eq, Debug, Clone, Copy, Structural)]
pub struct Position {
    pub line_number: i64,
    pub line_position: i64,
}

impl Position {
    pub fn new(line_number: i64, line_position: i64) -> (r: Position)
        ensures
            r.line_number == line_number,
            r.line_position == line_position,
    {
        Position { line_number, line_position }
    }
}

/// One classified fragment of a source line.
#[derive(PartialEq, Debug)]
pub enum Token {
    Eol(Position),
    Add(Position),
    Subtract(Position),
    Divide(Position),
    Multiply(Position),
    SingleComment(Position),
    MutVarDeclaration(Position),
    ImmutVarDeclaration(Position),
    Assignment(Position),
    Int(i32, Position),
    Variable(String, Position),
}

/// A token as a mathematical value: identifiers are character sequences.
pub enum TokenView {
    Eol(Position),
    Add(Position),
    Subtract(Position),
    Divide(Position),
    Multiply(Position),
    SingleComment(Position),
    MutVarDeclaration(Position),
    ImmutVarDeclaration(Position),
    Assignment(Position),
    Int(i32, Position),
    Variable(Seq<char>, Position),
}

impl View for Token {
    type V = TokenView;

    open spec fn view(&self) -> TokenView {
        match self {
            Token::Eol(p) => TokenView::Eol(*p),
            Token::Add(p) => TokenView::Add(*p),
            Token::Subtract(p) => TokenView::Subtract(*p),
            Token::Divide(p) => TokenView::Divide(*p),
            Token::Multiply(p) => TokenView::Multiply(*p),
            Token::SingleComment(p) => TokenView::SingleComment(*p),
            Token::MutVarDeclaration(p) => TokenView::MutVarDeclaration(*p),
            Token::ImmutVarDeclaration(p) => TokenView::ImmutVarDeclaration(*p),
            Token::Assignment(p) => TokenView::Assignment(*p),
            Token::Int(v, p) => TokenView::Int(*v, *p),
            Token::Variable(name, p) => TokenView::Variable(name@, *p),
        }
    }
}

impl TokenView {
    pub open spec fn pos(self) -> Position {
        match self {
            TokenView::Eol(p) => p,
            TokenView::Add(p) => p,
            TokenView::Subtract(p) => p,
            TokenView::Divide(p) => p,
            TokenView::Multiply(p) => p,
            TokenView::SingleComment(p) => p,
            TokenView::MutVarDeclaration(p) => p,
            TokenView::ImmutVarDeclaration(p) => p,
            TokenView::Assignment(p) => p,
            TokenView::Int(_, p) => p,
            TokenView::Variable(_, p) => p,
        }
    }

    /// `set` or `const`.
    pub open spec fn is_declaration(self) -> bool {
        self is MutVarDeclaration || self is ImmutVarDeclaration
    }

    /// One of the four binary arithmetic operators.
    pub open spec fn is_operator(self) -> bool {
        self is Add || self is Subtract || self is Divide || self is Multiply
    }
}

impl Clone for Token {
    fn clone(&self) -> (r: Self)
        ensures
            r == *self,
    {
        match self {
            Token::Eol(p) => Token::Eol(*p),
            Token::Add(p) => Token::Add(*p),
            Token::Subtract(p) => Token::Subtract(*p),
            Token::Divide(p) => Token::Divide(*p),
            Token::Multiply(p) => Token::Multiply(*p),
            Token::SingleComment(p) => Token::SingleComment(*p),
            Token::MutVarDeclaration(p) => Token::MutVarDeclaration(*p),
            Token::ImmutVarDeclaration(p) => Token::ImmutVarDeclaration(*p),
            Token::Assignment(p) => Token::Assignment(*p),
            Token::Int(v, p) => Token::Int(*v, *p),
            Token::Variable(name, p) => Token::Variable(name.clone(), *p),
        }
    }
}

impl Token {
    pub fn get_pos(&self) -> (r: Position)
        ensures
            r == self@.pos(),
    {
        match self {
            Token::Eol(p) => *p,
            Token::Add(p) => *p,
            Token::Subtract(p) => *p,
            Token::Divide(p) => *p,
            Token::Multiply(p) => *p,
            Token::SingleComment(p) => *p,
            Token::MutVarDeclaration(p) => *p,
            Token::ImmutVarDeclaration(p) => *p,
            Token::Assignment(p) => *p,
            Token::Int(_, p) => *p,
            Token::Variable(_, p) => *p,
        }
    }
}

/// The value a variable holds. A float is held as the bit pattern of an
/// IEEE 754 binary64 number, so equality on it is bitwise.
#[derive(PartialEq, Debug)]
pub enum DataTypes {
    Str(String),
    Int(i32),
    Bool(bool),
    Float(u64),
    Char(char),
}

pub enum ValueView {
    Str(Seq<char>),
    Int(i32),
    Bool(bool),
    Float(u64),
    Char(char),
}

impl View for DataTypes {
    type V = ValueView;

    open spec fn view(&self) -> ValueView {
        match self {
            DataTypes::Str(s) => ValueView::Str(s@),
            DataTypes::Int(v) => ValueView::Int(*v),
            DataTypes::Bool(b) => ValueView::Bool(*b),
            DataTypes::Float(bits) => ValueView::Float(*bits),
            DataTypes::Char(c) => ValueView::Char(*c),
        }
    }
}

impl Clone for DataTypes {
    fn clone(&self) -> (r: Self)
        ensures
            r == *self,
    {
        match self {
            DataTypes::Str(s) => DataTypes::Str(s.clone()),
            DataTypes::Int(v) => DataTypes::Int(*v),
            DataTypes::Bool(b) => DataTypes::Bool(*b),
            DataTypes::Float(bits) => DataTypes::Float(*bits),
            DataTypes::Char(c) => DataTypes::Char(*c),
        }
    }
}

impl DataTypes {
    pub fn from_int(value: i32) -> (r: DataTypes)
        ensures
            r == DataTypes::Int(value),
    {
        DataTypes::Int(value)
    }

    pub fn from_string(value: String) -> (r: DataTypes)
        ensures
            r == DataTypes::Str(value),
    {
        DataTypes::Str(value)
    }

    pub fn from_bool(value: bool) -> (r: DataTypes)
        ensures
            r == DataTypes::Bool(value),
    {
        DataTypes::Bool(value)
    }

    /// `bits` is the IEEE 754 binary64 encoding of the number.
    pub fn from_float_bits(bits: u64) -> (r: DataTypes)
        ensures
            r == DataTypes::Float(bits),
    {
        DataTypes::Float(bits)
    }

    pub fn from_char(value: char) -> (r: DataTypes)
        ensures
            r == DataTypes::Char(value),
    {
        DataTypes::Char(value)
    }
}

/// A binding of the variable environment.
#[derive(PartialEq, Debug)]
pub struct Variable {
    pub name: String,
    pub value: DataTypes,
    pub mutable: bool,
}

pub struct VariableView {
    pub name: Seq<char>,
    pub value: ValueView,
    pub mutable: bool,
}

impl View for Variable {
    type V = VariableView;

    open spec fn view(&self) -> VariableView {
        VariableView { name: self.name@, value: self.value@, mutable: self.mutable }
    }
}

impl Clone for Variable {
    fn clone(&self) -> (r: Self)
        ensures
            r == *self,
    {
        Variable { name: self.name.clone(), value: self.value.clone(), mutable: self.mutable }
    }
}

impl Variable {
    pub fn new(name: String, value: DataTypes, mutable: bool) -> (r: Variable)
        ensures
            r.name == name,
            r.value == value,
            r.mutable == mutable,
    {
        Variable { name, value, mutable }
    }
}

/// The environment as a sequence of mathematical bindings.
pub open spec fn env_view(env: Seq<Variable>) -> Seq<VariableView> {
    env.map_values(|v: Variable| v@)
}

} // verus!
