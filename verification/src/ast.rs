//! The syntax tree: statements, expressions, literals, type annotations and
//! operators.

use crate::text::owned;
use std::rc::Rc;
use vstd::prelude::*;

verus! {

/// A program: statements in source order.
pub type Program = Vec<Stmt>;

/// The statements between two braces.
pub type BlockStmt = Vec<Stmt>;

/// A type as the source writes it.
#[derive(Debug, PartialEq)]
pub enum ExprType {
    Int,
    Float,
    String,
    Boolean,
    Void,
    Array(Box<ExprType>),
}

impl Clone for ExprType {
    fn clone(&self) -> (r: Self)
        ensures
            r == *self,
        decreases self,
    {
        match self {
            ExprType::Int => ExprType::Int,
            ExprType::Float => ExprType::Float,
            ExprType::String => ExprType::String,
            ExprType::Boolean => ExprType::Boolean,
            ExprType::Void => ExprType::Void,
            ExprType::Array(inner) => ExprType::Array(Box::new((&**inner).clone())),
        }
    }
}

/// A name.
#[derive(Debug, PartialEq)]
pub struct Identifier(pub String);

impl Clone for Identifier {
    fn clone(&self) -> (r: Self)
        ensures
            r == *self,
    {
        Identifier(self.0.clone())
    }
}

/// A literal value. A float is kept as its text.
#[derive(Debug, PartialEq)]
pub enum Literal {
    Int(i64),
    Float(String),
    String(String),
    Boolean(bool),
    Null,
    Array(Vec<Expr>),
}

/// An expression.
#[derive(Debug, PartialEq)]
pub enum Expr {
    Literal(Literal),
    /// A call: the callee and its arguments.
    Call(Box<Expr>, Vec<Expr>),
    Identifier(Identifier),
    Infix(Box<Expr>, Infix, Box<Expr>),
    Prefix(Prefix, Box<Expr>),
    Postfix(Box<Expr>, Postfix),
    /// An assignment to a name.
    Assign(Identifier, Box<Expr>),
    /// A field access: the receiver, then the target, which is a name or a
    /// call of a name.
    FieldAcc(Box<Expr>, Box<Expr>),
}

/// A statement.
#[derive(Debug, PartialEq)]
pub enum Stmt {
    Expr(Expr),
    /// A declaration: the name, the declared type and the initializer.
    Let(Identifier, Option<ExprType>, Option<Expr>),
    /// A function definition: the name, the parameters, the body and the
    /// return type. The body is shared with the function values made of it.
    Func(Identifier, Vec<(Identifier, ExprType)>, Rc<BlockStmt>, ExprType),
    Return(Option<Expr>),
    If { condition: Expr, consequence: BlockStmt, alternative: Option<BlockStmt> },
    ForLoop { cursor: String, iterable: Expr, block: BlockStmt },
}

/// The mathematical model of a [`Literal`].
pub enum LiteralView {
    Int(i64),
    Float(Seq<char>),
    String(Seq<char>),
    Boolean(bool),
    Null,
    Array(Seq<ExprView>),
}

/// The mathematical model of an [`Expr`].
pub enum ExprView {
    Literal(LiteralView),
    Call(Box<ExprView>, Seq<ExprView>),
    Identifier(Seq<char>),
    Infix(Box<ExprView>, Infix, Box<ExprView>),
    Prefix(Prefix, Box<ExprView>),
    Postfix(Box<ExprView>, Postfix),
    Assign(Seq<char>, Box<ExprView>),
    FieldAcc(Box<ExprView>, Box<ExprView>),
}

/// The mathematical model of a parameter of a function definition.
pub struct ParamSyntax {
    pub name: Seq<char>,
    pub type_: ExprType,
}

/// The mathematical model of a [`Stmt`].
pub enum StmtView {
    Expr(ExprView),
    Let(Seq<char>, Option<ExprType>, Option<ExprView>),
    Func(Seq<char>, Seq<ParamSyntax>, Seq<StmtView>, ExprType),
    Return(Option<ExprView>),
    If { condition: ExprView, consequence: Seq<StmtView>, alternative: Option<Seq<StmtView>> },
    ForLoop { cursor: Seq<char>, iterable: ExprView, block: Seq<StmtView> },
}

/// The models of a list of expressions.
pub open spec fn exprs_view(exprs: Seq<Expr>) -> Seq<ExprView>
    decreases exprs,
{
    Seq::new(
        exprs.len(),
        |i: int|
            if 0 <= i < exprs.len() {
                expr_view(exprs[i])
            } else {
                ExprView::Literal(LiteralView::Null)
            },
    )
}

/// The model of an expression.
pub open spec fn expr_view(expr: Expr) -> ExprView
    decreases expr,
{
    match expr {
        Expr::Literal(literal) => ExprView::Literal(
            match literal {
                Literal::Int(v) => LiteralView::Int(v),
                Literal::Float(s) => LiteralView::Float(s@),
                Literal::String(s) => LiteralView::String(s@),
                Literal::Boolean(b) => LiteralView::Boolean(b),
                Literal::Null => LiteralView::Null,
                Literal::Array(items) => LiteralView::Array(exprs_view(items@)),
            },
        ),
        Expr::Call(func, args) => ExprView::Call(Box::new(expr_view(*func)), exprs_view(args@)),
        Expr::Identifier(name) => ExprView::Identifier(name.0@),
        Expr::Infix(lhs, infix, rhs) => ExprView::Infix(
            Box::new(expr_view(*lhs)),
            infix,
            Box::new(expr_view(*rhs)),
        ),
        Expr::Prefix(prefix, operand) => ExprView::Prefix(prefix, Box::new(expr_view(*operand))),
        Expr::Postfix(operand, postfix) => ExprView::Postfix(
            Box::new(expr_view(*operand)),
            postfix,
        ),
        Expr::Assign(name, value) => ExprView::Assign(name.0@, Box::new(expr_view(*value))),
        Expr::FieldAcc(src, target) => ExprView::FieldAcc(
            Box::new(expr_view(*src)),
            Box::new(expr_view(*target)),
        ),
    }
}

/// The models of a list of parameters.
pub open spec fn params_syntax(params: Seq<(Identifier, ExprType)>) -> Seq<ParamSyntax> {
    Seq::new(params.len(), |i: int| ParamSyntax { name: params[i].0.0@, type_: params[i].1 })
}

/// The models of a list of statements.
pub open spec fn stmts_view(stmts: Seq<Stmt>) -> Seq<StmtView>
    decreases stmts,
{
    Seq::new(
        stmts.len(),
        |i: int|
            if 0 <= i < stmts.len() {
                stmt_view(stmts[i])
            } else {
                StmtView::Return(None)
            },
    )
}

/// The model of a statement.
pub open spec fn stmt_view(stmt: Stmt) -> StmtView
    decreases stmt,
{
    match stmt {
        Stmt::Expr(expr) => StmtView::Expr(expr_view(expr)),
        Stmt::Let(name, type_, init) => StmtView::Let(
            name.0@,
            type_,
            match init {
                Some(expr) => Some(expr_view(expr)),
                None => None,
            },
        ),
        Stmt::Func(name, params, body, ret) => StmtView::Func(
            name.0@,
            params_syntax(params@),
            stmts_view((*body)@),
            ret,
        ),
        Stmt::Return(value) => StmtView::Return(
            match value {
                Some(expr) => Some(expr_view(expr)),
                None => None,
            },
        ),
        Stmt::If { condition, consequence, alternative } => StmtView::If {
            condition: expr_view(condition),
            consequence: stmts_view(consequence@),
            alternative: match alternative {
                Some(block) => Some(stmts_view(block@)),
                None => None,
            },
        },
        Stmt::ForLoop { cursor, iterable, block } => StmtView::ForLoop {
            cursor: cursor@,
            iterable: expr_view(iterable),
            block: stmts_view(block@),
        },
    }
}

impl View for Expr {
    type V = ExprView;

    open spec fn view(&self) -> ExprView {
        expr_view(*self)
    }
}

impl View for Stmt {
    type V = StmtView;

    open spec fn view(&self) -> StmtView {
        stmt_view(*self)
    }
}

/// How tightly an operator binds, from the loosest to the tightest.
#[derive(PartialEq, Eq, Debug, Clone, Copy, Structural)]
pub enum Precedence {
    Lowest,
    /// `foo = "bar"`
    Assign,
    /// `x > 6`
    Comparison,
    /// `+`
    Sum,
    /// `*`
    Product,
    /// `!true`, `-5`
    Prefix,
    /// `69++`, `10--`
    Postfix,
    /// `myFunction(x)`
    Call,
}

impl Precedence {
    /// The level's place in the order, from 0 for the loosest.
    pub open spec fn level(self) -> int {
        match self {
            Precedence::Lowest => 0,
            Precedence::Assign => 1,
            Precedence::Comparison => 2,
            Precedence::Sum => 3,
            Precedence::Product => 4,
            Precedence::Prefix => 5,
            Precedence::Postfix => 6,
            Precedence::Call => 7,
        }
    }

    /// The level's place in the order.
    pub fn rank(&self) -> (r: u8)
        ensures
            r == self.level(),
    {
        match self {
            Precedence::Lowest => 0,
            Precedence::Assign => 1,
            Precedence::Comparison => 2,
            Precedence::Sum => 3,
            Precedence::Product => 4,
            Precedence::Prefix => 5,
            Precedence::Postfix => 6,
            Precedence::Call => 7,
        }
    }

    /// Whether `self` binds less tightly than `other`.
    pub fn lower_than(&self, other: &Precedence) -> (r: bool)
        ensures
            r == (self.level() < other.level()),
    {
        self.rank() < other.rank()
    }
}

/// A binary operator.
#[derive(Debug, Clone, Copy, PartialEq, Eq, Structural)]
pub enum Infix {
    Plus,
    Minus,
    Devide,
    Multiply,
    Equal,
    NotEqual,
    LessThan,
    Remainder,
    LessOrEqual,
    GratherThan,
    GratherOrEqual,
}

/// A unary operator before its operand.
#[derive(Debug, Clone, Copy, PartialEq, Eq, Structural)]
pub enum Prefix {
    Not,
    Plus,
    Minus,
}

/// A unary operator after its operand.
#[derive(Debug, Clone, Copy, PartialEq, Eq, Structural)]
pub enum Postfix {
    Increment,
    Decrement,
}

impl Postfix {
    /// The operator as the source writes it.
    pub open spec fn text(self) -> Seq<char> {
        match self {
            Postfix::Increment => "++"@,
            Postfix::Decrement => "--"@,
        }
    }

    /// The operator as the source writes it.
    pub fn to_string(&self) -> (r: String)
        ensures
            r@ == self.text(),
    {
        match self {
            Postfix::Increment => owned("++"),
            Postfix::Decrement => owned("--"),
        }
    }
}

impl Prefix {
    /// The operator as the source writes it.
    pub open spec fn text(self) -> Seq<char> {
        match self {
            Prefix::Not => "!"@,
            Prefix::Plus => "+"@,
            Prefix::Minus => "-"@,
        }
    }

    /// The operator as the source writes it.
    pub fn to_string(&self) -> (r: String)
        ensures
            r@ == self.text(),
    {
        match self {
            Prefix::Not => owned("!"),
            Prefix::Plus => owned("+"),
            Prefix::Minus => owned("-"),
        }
    }
}

impl Infix {
    /// The operator as the source writes it.
    pub open spec fn text(self) -> Seq<char> {
        match self {
            Infix::Plus => "+"@,
            Infix::Minus => "-"@,
            Infix::Devide => "/"@,
            Infix::Multiply => "*"@,
            Infix::Equal => "=="@,
            Infix::NotEqual => "!="@,
            Infix::LessThan => "<"@,
            Infix::LessOrEqual => "<="@,
            Infix::GratherThan => ">"@,
            Infix::GratherOrEqual => ">="@,
            Infix::Remainder => "%"@,
        }
    }

    /// The operator as the source writes it.
    pub fn to_string(&self) -> (r: String)
        ensures
            r@ == self.text(),
    {
        match self {
            Infix::Plus => owned("+"),
            Infix::Minus => owned("-"),
            Infix::Devide => owned("/"),
            Infix::Multiply => owned("*"),
            Infix::Equal => owned("=="),
            Infix::NotEqual => owned("!="),
            Infix::LessThan => owned("<"),
            Infix::LessOrEqual => owned("<="),
            Infix::GratherThan => owned(">"),
            Infix::GratherOrEqual => owned(">="),
            Infix::Remainder => owned("%"),
        }
    }

    /// Whether the operator compares its operands; the others compute.
    pub open spec fn compares(self) -> bool {
        match self {
            Infix::Equal | Infix::NotEqual | Infix::LessThan | Infix::LessOrEqual
            | Infix::GratherThan | Infix::GratherOrEqual => true,
            _ => false,
        }
    }

    /// Whether the operator compares its operands.
    pub fn is_comparison(&self) -> (r: bool)
        ensures
            r == self.compares(),
    {
        match self {
            Infix::Equal | Infix::NotEqual | Infix::LessThan | Infix::LessOrEqual
            | Infix::GratherThan | Infix::GratherOrEqual => true,
            _ => false,
        }
    }
}

} // verus!
