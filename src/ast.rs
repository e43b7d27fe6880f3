use vstd::prelude::*;

use crate::text::append_str;

verus! {

/// A node of the syntax tree.
#[derive(Debug, PartialEq)]
pub enum Node {
    Program(Program),
    FunctionDeclaration(FunctionDeclaration),
    VariableDeclaration(VariableDeclaration),
    Literal(Literal),
    Identifier(Identifier),
    BinaryExpression(BinaryExpression),
    UnaryExpression(UnaryExpression),
    IfStatement(IfStatement),
    WhileStatement(WhileStatement),
    LogicalExpression(LogicalExpression),
}

/// What a variable declaration may be initialised with.
#[derive(Debug, PartialEq)]
pub enum InitExpression {
    Literal(Literal),
    Identifier(Identifier),
    BinaryExpression(BinaryExpression),
}

/// How tightly a binary operator binds.
#[derive(Debug, Clone, Copy, PartialEq, Eq, Structural)]
pub enum Precedence {
    Low,
    Medium,
    High,
}

/// The top-level statements of a source text, in source order.
#[derive(Debug, PartialEq)]
pub struct Program {
    pub program: Vec<Node>,
}

#[derive(Debug, PartialEq)]
pub struct Identifier {
    pub name: String,
}

#[derive(Debug, PartialEq)]
pub struct FunctionDeclaration {
    pub id: Identifier,
    pub params: Vec<Node>,
    pub body: Vec<Node>,
}

#[derive(Debug, PartialEq)]
pub struct VariableDeclaration {
    pub id: Identifier,
    pub init: InitExpression,
}

#[derive(Debug, PartialEq)]
pub struct Literal {
    pub raw: String,
}

/// An operator applied to the two operands it owns.
#[derive(Debug, PartialEq)]
pub struct BinaryExpression {
    pub left: Box<Node>,
    pub right: Box<Node>,
    pub operator: Operator,
}

#[derive(Debug, Clone, Copy, PartialEq, Eq, Structural)]
pub enum LogicalOperator {
    Or,
    And,
}

/// The operators. `OpenParen` only marks an open parenthesis on the parser's
/// operator stack.
#[derive(Debug, Clone, Copy, PartialEq, Eq, Structural)]
pub enum Operator {
    Add,
    Subtract,
    Multiply,
    Divide,
    Increment,
    AddEquals,
    MinusEquals,
    TimesEquals,
    DivideEquals,
    Equals,
    SmallerEquals,
    GreaterEquals,
    Smaller,
    Greater,
    Exp,
    OpenParen,
    CloseParen,
}

#[derive(Debug, PartialEq)]
pub struct UnaryExpression {
    pub operand: Box<Node>,
    pub operator: Operator,
}

#[derive(Debug, PartialEq)]
pub struct IfStatement {
    pub test: Box<Node>,
    pub consequent: Box<Node>,
    pub alternate: Option<Box<Node>>,
}

#[derive(Debug, PartialEq)]
pub struct WhileStatement {
    pub test: Box<Node>,
    pub body: Box<Node>,
}

#[derive(Debug, PartialEq)]
pub struct LogicalExpression {
    pub operator: LogicalOperator,
    pub left: Box<Node>,
    pub right: Box<Node>,
}

/// The operators that have a precedence: the arithmetic ones, and the
/// open-parenthesis marker, which binds loosest.
pub open spec fn has_precedence(op: Operator) -> bool {
    match op {
        Operator::Add | Operator::Subtract | Operator::Multiply | Operator::Divide | Operator::Exp
        | Operator::OpenParen => true,
        _ => false,
    }
}

pub open spec fn precedence_of(op: Operator) -> Precedence {
    match op {
        Operator::Multiply | Operator::Divide => Precedence::Medium,
        Operator::Exp => Precedence::High,
        _ => Precedence::Low,
    }
}

pub open spec fn rank(p: Precedence) -> nat {
    match p {
        Precedence::Low => 0,
        Precedence::Medium => 1,
        Precedence::High => 2,
    }
}

/// `+` and `-` bind loosest, `*` and `/` tighter, `^` tightest.
pub fn precedence(op: &Operator) -> (p: Precedence)
    requires
        has_precedence(*op),
    ensures
        p == precedence_of(*op),
{
    match op {
        Operator::Add | Operator::Subtract | Operator::OpenParen => Precedence::Low,
        Operator::Multiply | Operator::Divide => Precedence::Medium,
        _ => Precedence::High,
    }
}

/// Whether `a` binds at least as tightly as `b`.
pub fn binds_at_least(a: Precedence, b: Precedence) -> (r: bool)
    ensures
        r == (rank(a) >= rank(b)),
{
    match (a, b) {
        (_, Precedence::Low) => true,
        (Precedence::Low, _) => false,
        (_, Precedence::Medium) => true,
        (Precedence::Medium, _) => false,
        _ => true,
    }
}

/// The binary expression node `left op right`.
pub open spec fn binary(left: Node, op: Operator, right: Node) -> Node {
    Node::BinaryExpression(BinaryExpression { left: Box::new(left), right: Box::new(right), operator: op })
}

/// How an operator is spelled.
pub open spec fn operator_symbol(op: Operator) -> Seq<char> {
    match op {
        Operator::Add => "+"@,
        Operator::Subtract => "-"@,
        Operator::Multiply => "*"@,
        Operator::Divide => "/"@,
        Operator::Increment => "++"@,
        Operator::AddEquals => "+="@,
        Operator::MinusEquals => "-="@,
        Operator::TimesEquals => "*="@,
        Operator::DivideEquals => "/="@,
        Operator::Equals => "=="@,
        Operator::SmallerEquals => "<="@,
        Operator::GreaterEquals => ">="@,
        Operator::Smaller => "<"@,
        Operator::Greater => ">"@,
        Operator::Exp => "^"@,
        Operator::OpenParen => "("@,
        Operator::CloseParen => ")"@,
    }
}

/// An expression written out fully parenthesised: a literal or identifier
/// as it is, a binary expression as `(left op right)`. Other nodes have no
/// such form.
pub open spec fn rendered(n: Node) -> Option<Seq<char>>
    decreases n,
{
    match n {
        Node::Literal(l) => Some(l.raw@),
        Node::Identifier(i) => Some(i.name@),
        Node::BinaryExpression(b) => match (rendered(*b.left), rendered(*b.right)) {
            (Some(l), Some(r)) => Some("("@ + l + " "@ + operator_symbol(b.operator) + " "@ + r + ")"@),
            _ => None,
        },
        _ => None,
    }
}

impl Operator {
    /// How the operator is spelled.
    pub fn symbol(&self) -> (r: &'static str)
        ensures
            r@ == operator_symbol(*self),
    {
        match self {
            Operator::Add => "+",
            Operator::Subtract => "-",
            Operator::Multiply => "*",
            Operator::Divide => "/",
            Operator::Increment => "++",
            Operator::AddEquals => "+=",
            Operator::MinusEquals => "-=",
            Operator::TimesEquals => "*=",
            Operator::DivideEquals => "/=",
            Operator::Equals => "==",
            Operator::SmallerEquals => "<=",
            Operator::GreaterEquals => ">=",
            Operator::Smaller => "<",
            Operator::Greater => ">",
            Operator::Exp => "^",
            Operator::OpenParen => "(",
            Operator::CloseParen => ")",
        }
    }
}

/// Appends the written form of `n` to `out`, if it has one.
fn render_into(n: &Node, out: &mut String) -> (ok: bool)
    ensures
        match rendered(*n) {
            Some(t) => ok && final(out)@ == old(out)@ + t,
            None => !ok,
        },
    decreases n,
{
    match n {
        Node::Literal(l) => {
            append_str(out, l.raw.as_str());
            true
        },
        Node::Identifier(i) => {
            append_str(out, i.name.as_str());
            true
        },
        Node::BinaryExpression(b) => {
            let ghost start = out@;
            append_str(out, "(");
            if !render_into(&b.left, out) {
                return false;
            }
            append_str(out, " ");
            append_str(out, b.operator.symbol());
            append_str(out, " ");
            if !render_into(&b.right, out) {
                return false;
            }
            append_str(out, ")");
            proof {
                let l = rendered(*b.left)->0;
                let r = rendered(*b.right)->0;
                assert(out@ =~= start + ("("@ + l + " "@ + operator_symbol(b.operator) + " "@ + r + ")"@));
            }
            true
        },
        _ => false,
    }
}

impl BinaryExpression {
    /// The expression written out fully parenthesised, as `(left op right)`;
    /// its operands must be literals, identifiers or binary expressions.
    pub fn to_string(&self) -> (r: String)
        requires
            rendered(Node::BinaryExpression(*self)) is Some,
        ensures
            Some(r@) == rendered(Node::BinaryExpression(*self)),
    {
        let mut out = String::new();
        let ghost start = out@;
        append_str(&mut out, "(");
        render_into(&self.left, &mut out);
        append_str(&mut out, " ");
        append_str(&mut out, self.operator.symbol());
        append_str(&mut out, " ");
        render_into(&self.right, &mut out);
        append_str(&mut out, ")");
        proof {
            let l = rendered(*self.left)->0;
            let r = rendered(*self.right)->0;
            assert(out@ =~= start + ("("@ + l + " "@ + operator_symbol(self.operator) + " "@ + r + ")"@));
        }
        out
    }
}

} // verus!
