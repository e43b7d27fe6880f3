use vstd::prelude::*;

use crate::ast::{
    binary, binds_at_least, has_precedence, precedence, precedence_of, rank, BinaryExpression,
    Identifier, InitExpression, Literal, Node, Operator, Program, VariableDeclaration,
};
use crate::lexer::line_end;
use crate::text::{chars_of, push_char, same_text, string_of};
use crate::token::{copy_token, Token, TokenKind};

verus! {

/// The kinds of fatal syntax error.
#[derive(Debug, Clone, Copy, PartialEq, Eq, Structural)]
pub enum SyntaxErrorKind {
    /// An operand where an operator was expected.
    ExpectedOperator,
    /// An operator where an operand was expected.
    ExpectedOperand,
    /// An operator token with a spelling expressions do not use.
    InvalidOperator,
    /// `(` right after an operand.
    UnexpectedOpenParen,
    /// `)` with no open parenthesis to close.
    UnmatchedCloseParen,
    /// A token that cannot appear in an expression.
    InvalidToken,
    /// An expression that ends where an operand was expected.
    UnexpectedEnd,
    /// An expression that ends with a parenthesis still open.
    UnclosedParen,
    /// Too few operands on the stack for an operator: the parser's own invariant failed.
    MissingOperand,
    /// `let` not followed by a name.
    ExpectedIdentifier,
    /// `let` and a name not followed by `=`.
    ExpectedAssignment,
    /// A statement that starts with a keyword other than `let`.
    UnsupportedStatement,
}

/// A fatal syntax error: its kind, the token at fault, the full source line
/// of that token, and a line of the same width with `^` under the token.
#[derive(Debug, Clone, PartialEq)]
pub struct SyntaxError {
    pub kind: SyntaxErrorKind,
    pub token: Token,
    pub line: String,
    pub underline: String,
}

/// The state of the shunting-yard: the operand stack, the operator stack,
/// whether an operand comes next, and how many parentheses are open.
pub struct Shunt {
    pub operands: Seq<Node>,
    pub operators: Seq<Operator>,
    pub expect_operand: bool,
    pub depth: nat,
}

pub open spec fn initial_shunt() -> Shunt {
    Shunt { operands: seq![], operators: seq![], expect_operand: true, depth: 0 }
}

/// The node an operand token stands for.
pub open spec fn operand_node(t: Token) -> Node {
    if t.kind == TokenKind::Number {
        Node::Literal(Literal { raw: t.text })
    } else {
        Node::Identifier(Identifier { name: t.text })
    }
}

/// The operator an operator token spells inside an expression.
pub open spec fn operator_of(text: Seq<char>) -> Option<Operator> {
    if text == seq!['+'] {
        Some(Operator::Add)
    } else if text == seq!['-'] {
        Some(Operator::Subtract)
    } else if text == seq!['*'] {
        Some(Operator::Multiply)
    } else if text == seq!['/'] {
        Some(Operator::Divide)
    } else if text == seq!['^'] {
        Some(Operator::Exp)
    } else {
        None
    }
}

/// Replace the two topmost operands by `op` applied to them.
pub open spec fn reduce(operands: Seq<Node>, op: Operator) -> Option<Seq<Node>> {
    let n = operands.len();
    if n < 2 {
        None
    } else {
        Some(operands.subrange(0, n - 2).push(binary(operands[n - 2], op, operands[n - 1])))
    }
}

/// Reduce the operators on top of the stack, down to an open parenthesis,
/// while they bind at least as tightly as `p`.
pub open spec fn reduce_while(operands: Seq<Node>, operators: Seq<Operator>, p: crate::ast::Precedence) -> Option<(Seq<Node>, Seq<Operator>)>
    decreases operators.len(),
{
    if operators.len() == 0 || operators.last() == Operator::OpenParen || rank(precedence_of(operators.last())) < rank(p) {
        Some((operands, operators))
    } else {
        match reduce(operands, operators.last()) {
            None => None,
            Some(o) => reduce_while(o, operators.drop_last(), p),
        }
    }
}

/// Reduce the operators on top of the stack down to an open parenthesis,
/// and drop that.
pub open spec fn reduce_to_paren(operands: Seq<Node>, operators: Seq<Operator>) -> Option<(Seq<Node>, Seq<Operator>)>
    decreases operators.len(),
{
    if operators.len() == 0 {
        Some((operands, operators))
    } else if operators.last() == Operator::OpenParen {
        Some((operands, operators.drop_last()))
    } else {
        match reduce(operands, operators.last()) {
            None => None,
            Some(o) => reduce_to_paren(o, operators.drop_last()),
        }
    }
}

/// Reduce every operator left on the stack, from the top down.
pub open spec fn drain(operands: Seq<Node>, operators: Seq<Operator>) -> Option<Seq<Node>>
    decreases operators.len(),
{
    if operators.len() == 0 {
        Some(operands)
    } else {
        match reduce(operands, operators.last()) {
            None => None,
            Some(o) => drain(o, operators.drop_last()),
        }
    }
}

/// A syntax error found at a token.
pub type Failure = (SyntaxErrorKind, Token);

/// The shunting-yard's reaction to one token.
pub open spec fn shunt_step(st: Shunt, t: Token) -> Result<Shunt, Failure> {
    match t.kind {
        TokenKind::Number | TokenKind::Symbol => if !st.expect_operand {
            Err((SyntaxErrorKind::ExpectedOperator, t))
        } else {
            Ok(Shunt { operands: st.operands.push(operand_node(t)), expect_operand: false, ..st })
        },
        TokenKind::Operator => if st.expect_operand {
            Err((SyntaxErrorKind::ExpectedOperand, t))
        } else {
            match operator_of(t.text@) {
                None => Err((SyntaxErrorKind::InvalidOperator, t)),
                Some(op) => match reduce_while(st.operands, st.operators, precedence_of(op)) {
                    None => Err((SyntaxErrorKind::MissingOperand, t)),
                    Some((o, ops)) => Ok(Shunt { operands: o, operators: ops.push(op), expect_operand: true, depth: st.depth }),
                },
            }
        },
        TokenKind::OpenParen => if !st.expect_operand {
            Err((SyntaxErrorKind::UnexpectedOpenParen, t))
        } else {
            Ok(Shunt { operators: st.operators.push(Operator::OpenParen), depth: st.depth + 1, ..st })
        },
        TokenKind::CloseParen => if st.depth == 0 || st.operators.len() == 0 {
            Err((SyntaxErrorKind::UnmatchedCloseParen, t))
        } else {
            match reduce_to_paren(st.operands, st.operators) {
                None => Err((SyntaxErrorKind::MissingOperand, t)),
                Some((o, ops)) => Ok(Shunt { operands: o, operators: ops, expect_operand: false, depth: (st.depth - 1) as nat }),
            }
        },
        _ => Err((SyntaxErrorKind::InvalidToken, t)),
    }
}

/// The shunting-yard after the first `n` tokens of `ts`.
pub open spec fn shunt_through(ts: Seq<Token>, n: nat) -> Result<Shunt, Failure>
    decreases n,
{
    if n == 0 {
        Ok(initial_shunt())
    } else {
        match shunt_through(ts, (n - 1) as nat) {
            Err(f) => Err(f),
            Ok(st) => shunt_step(st, ts[n - 1]),
        }
    }
}

/// The end of an expression, `end` being the token after it.
pub open spec fn shunt_finish(st: Shunt, end: Token) -> Result<Node, Failure> {
    if st.expect_operand {
        Err((SyntaxErrorKind::UnexpectedEnd, end))
    } else if st.depth != 0 {
        Err((SyntaxErrorKind::UnclosedParen, end))
    } else {
        match drain(st.operands, st.operators) {
            Some(o) => if o.len() == 0 {
                Err((SyntaxErrorKind::MissingOperand, end))
            } else {
                Ok(o.last())
            },
            None => Err((SyntaxErrorKind::MissingOperand, end)),
        }
    }
}

/// The expression spelled by the tokens `ts`, which `end` follows.
pub open spec fn expression(ts: Seq<Token>, end: Token) -> Result<Node, Failure> {
    match shunt_through(ts, ts.len()) {
        Err(f) => Err(f),
        Ok(st) => shunt_finish(st, end),
    }
}

/// Where line `n` of `src` starts, if it has that many lines.
pub open spec fn line_start(src: Seq<char>, n: nat) -> Option<nat>
    decreases n,
{
    if n == 0 {
        Some(0)
    } else {
        match line_start(src, (n - 1) as nat) {
            Some(p) => if p <= src.len() && line_end(src, p) < src.len() {
                Some(line_end(src, p) + 1)
            } else {
                None
            },
            None => None,
        }
    }
}

/// Line `n` of `src`, without its newline; empty past the last line.
pub open spec fn nth_line(src: Seq<char>, n: nat) -> Seq<char> {
    match line_start(src, n) {
        Some(p) => src.subrange(p as int, line_end(src, p) as int),
        None => seq![],
    }
}

/// `width` characters: `^` at the columns `col..col + length`, spaces elsewhere.
pub open spec fn underline(width: nat, col: nat, length: nat) -> Seq<char> {
    Seq::new(width, |j: int| if col <= j < col + length { '^' } else { ' ' })
}

/// `e` reports the failure `f` in the source text `src`.
pub open spec fn reports(e: SyntaxError, f: Failure, src: Seq<char>) -> bool {
    &&& e.kind == f.0
    &&& e.token == f.1
    &&& e.line@ == nth_line(src, f.1.position.row as nat)
    &&& e.underline@ == underline(e.line@.len(), f.1.position.col as nat, f.1.length as nat)
}

/// Whether `t` ends a statement: `;` or the end of input.
pub open spec fn ends_statement(t: Token) -> bool {
    t.kind == TokenKind::LineBreak || t.kind == TokenKind::EndOfInput
}

/// The first token at or after `pos` that ends a statement.
pub open spec fn statement_end(ts: Seq<Token>, pos: nat) -> nat
    decreases ts.len() - pos,
{
    if pos >= ts.len() || ends_statement(ts[pos as int]) {
        pos
    } else {
        statement_end(ts, pos + 1)
    }
}

/// What a variable may be initialised with, taken from an expression node.
pub open spec fn init_of(n: Node) -> Option<InitExpression> {
    match n {
        Node::Literal(l) => Some(InitExpression::Literal(l)),
        Node::Identifier(i) => Some(InitExpression::Identifier(i)),
        Node::BinaryExpression(b) => Some(InitExpression::BinaryExpression(b)),
        _ => None,
    }
}

/// A `let` statement, `ts` running from `let` to the token that ends the
/// statement: `let`, a name, `=`, then the initialising expression.
pub open spec fn assignment(ts: Seq<Token>) -> Result<VariableDeclaration, Failure> {
    if ts[1].kind != TokenKind::Symbol {
        Err((SyntaxErrorKind::ExpectedIdentifier, ts[1]))
    } else if ts[2].kind != TokenKind::Operator || ts[2].text@ != "="@ {
        Err((SyntaxErrorKind::ExpectedAssignment, ts[2]))
    } else {
        match expression(ts.subrange(3, ts.len() - 1), ts.last()) {
            Err(f) => Err(f),
            Ok(n) => match init_of(n) {
                Some(init) => Ok(VariableDeclaration { id: Identifier { name: ts[1].text }, init }),
                None => Err((SyntaxErrorKind::MissingOperand, ts[0])),
            },
        }
    }
}

/// A statement that starts with a keyword: only `let` statements are parsed.
pub open spec fn keyword_statement(ts: Seq<Token>) -> Result<Node, Failure> {
    if ts[0].text@ == "let"@ {
        match assignment(ts) {
            Ok(d) => Ok(Node::VariableDeclaration(d)),
            Err(f) => Err(f),
        }
    } else {
        Err((SyntaxErrorKind::UnsupportedStatement, ts[0]))
    }
}

/// One statement, `ts` running from its first token to the token that ends it.
pub open spec fn statement(ts: Seq<Token>) -> Result<Node, Failure> {
    if ts[0].kind == TokenKind::Keyword {
        keyword_statement(ts)
    } else {
        expression(ts.drop_last(), ts.last())
    }
}

/// Tokens between statements that are passed over.
pub open spec fn is_filler(t: Token) -> bool {
    t.kind == TokenKind::LineBreak || t.kind == TokenKind::NewLine || t.kind == TokenKind::Comment
}

pub proof fn lemma_statement_end(ts: Seq<Token>, pos: nat)
    requires
        pos <= ts.len(),
    ensures
        pos <= statement_end(ts, pos) <= ts.len(),
        statement_end(ts, pos) < ts.len() ==> ends_statement(ts[statement_end(ts, pos) as int]),
        forall|j: int| pos <= j < statement_end(ts, pos) ==> !ends_statement(#[trigger] ts[j]),
    decreases ts.len() - pos,
{
    if pos < ts.len() && !ends_statement(ts[pos as int]) {
        lemma_statement_end(ts, pos + 1);
    }
}

/// The statements from token `pos` on, in order, or the first syntax error.
pub open spec fn parse_from(ts: Seq<Token>, pos: nat) -> Result<Seq<Node>, Failure>
    decreases ts.len() - pos,
{
    if pos >= ts.len() || ts[pos as int].kind == TokenKind::EndOfInput {
        Ok(seq![])
    } else if is_filler(ts[pos as int]) {
        parse_from(ts, pos + 1)
    } else {
        let e = statement_end(ts, pos);
        if e >= ts.len() {
            Ok(seq![])
        } else {
            match statement(ts.subrange(pos as int, e as int + 1)) {
                Err(f) => Err(f),
                Ok(n) => if ts[e as int].kind == TokenKind::EndOfInput {
                    Ok(seq![n])
                } else {
                    proof {
                        lemma_statement_end(ts, pos);
                    }
                    match parse_from(ts, e + 1) {
                        Ok(rest) => Ok(seq![n] + rest),
                        Err(f) => Err(f),
                    }
                },
            }
        }
    }
}

/// `done` followed by what `rest` holds, or the failure of `rest`.
pub open spec fn prepend_nodes(done: Seq<Node>, rest: Result<Seq<Node>, Failure>) -> Result<Seq<Node>, Failure> {
    match rest {
        Ok(r) => Ok(done + r),
        Err(f) => Err(f),
    }
}

pub proof fn lemma_prepend_nodes(a: Seq<Node>, b: Seq<Node>, rest: Result<Seq<Node>, Failure>)
    ensures
        prepend_nodes(a, prepend_nodes(b, rest)) == prepend_nodes(a + b, rest),
{
    if let Ok(r) = rest {
        assert(a + (b + r) =~= (a + b) + r);
    }
}

pub proof fn lemma_line_start_none(src: Seq<char>, k: nat, n: nat)
    requires
        k <= n,
        line_start(src, k) is None,
    ensures
        line_start(src, n) is None,
    decreases n - k,
{
    if k < n {
        lemma_line_start_none(src, k + 1, n);
    }
}

/// Once the shunting-yard fails, the failure stands.
pub proof fn lemma_shunt_failure_stands(ts: Seq<Token>, k: nat, m: nat)
    requires
        k <= m,
    ensures
        shunt_through(ts, k) is Err ==> shunt_through(ts, m) == shunt_through(ts, k),
    decreases m - k,
{
    if k < m {
        lemma_shunt_failure_stands(ts, k, (m - 1) as nat);
    }
}

/// Replaces the two topmost operands by `op` applied to them, if there are two.
fn reduce_top(operands: &mut Vec<Node>, op: Operator) -> (ok: bool)
    ensures
        match reduce(old(operands)@, op) {
            Some(o) => ok && final(operands)@ == o,
            None => !ok && final(operands)@ == old(operands)@,
        },
{
    if operands.len() < 2 {
        return false;
    }
    let right = operands.pop().unwrap();
    let left = operands.pop().unwrap();
    operands.push(Node::BinaryExpression(BinaryExpression { left: Box::new(left), right: Box::new(right), operator: op }));
    proof {
        let n = old(operands)@.len();
        assert(final(operands)@ =~= old(operands)@.subrange(0, n - 2).push(binary(old(operands)@[n - 2], op, old(operands)@[n - 1])));
    }
    true
}

/// Every operator on the stack has a precedence.
pub open spec fn stackable(operators: Seq<Operator>) -> bool {
    forall|k: int| 0 <= k < operators.len() ==> has_precedence(#[trigger] operators[k])
}

fn reduce_while_binds(operands: &mut Vec<Node>, operators: &mut Vec<Operator>, p: crate::ast::Precedence) -> (ok: bool)
    requires
        stackable(old(operators)@),
    ensures
        stackable(final(operators)@),
        match reduce_while(old(operands)@, old(operators)@, p) {
            Some((o, ops)) => ok && final(operands)@ == o && final(operators)@ == ops,
            None => !ok,
        },
{
    loop
        invariant
            stackable(operators@),
            reduce_while(operands@, operators@, p) == reduce_while(old(operands)@, old(operators)@, p),
        decreases operators@.len(),
    {
        let n = operators.len();
        if n == 0 {
            return true;
        }
        let top = operators[n - 1];
        if top == Operator::OpenParen || !binds_at_least(precedence(&top), p) {
            return true;
        }
        if !reduce_top(operands, top) {
            return false;
        }
        operators.pop();
    }
}

fn reduce_until_paren(operands: &mut Vec<Node>, operators: &mut Vec<Operator>) -> (ok: bool)
    requires
        stackable(old(operators)@),
    ensures
        stackable(final(operators)@),
        match reduce_to_paren(old(operands)@, old(operators)@) {
            Some((o, ops)) => ok && final(operands)@ == o && final(operators)@ == ops,
            None => !ok,
        },
{
    loop
        invariant
            stackable(operators@),
            reduce_to_paren(operands@, operators@) == reduce_to_paren(old(operands)@, old(operators)@),
        decreases operators@.len(),
    {
        match operators.pop() {
            None => {
                return true;
            },
            Some(top) => {
                if top == Operator::OpenParen {
                    return true;
                }
                if !reduce_top(operands, top) {
                    return false;
                }
            },
        }
    }
}

fn drain_all(operands: &mut Vec<Node>, operators: &mut Vec<Operator>) -> (ok: bool)
    ensures
        match drain(old(operands)@, old(operators)@) {
            Some(o) => ok && final(operands)@ == o,
            None => !ok,
        },
{
    loop
        invariant
            drain(operands@, operators@) == drain(old(operands)@, old(operators)@),
        decreases operators@.len(),
    {
        match operators.pop() {
            None => {
                return true;
            },
            Some(top) => {
                if !reduce_top(operands, top) {
                    return false;
                }
            },
        }
    }
}

/// A parser over the tokens of one source text. It keeps the source to
/// quote the line of a token in error reports.
pub struct Parser {
    tokens: Vec<Token>,
    position: usize,
    source: Vec<char>,
}

impl Parser {
    pub closed spec fn tokens(&self) -> Seq<Token> {
        self.tokens@
    }

    pub closed spec fn source(&self) -> Seq<char> {
        self.source@
    }

    /// The index of the token the next statement starts at.
    pub closed spec fn position(&self) -> nat {
        self.position as nat
    }

    pub closed spec fn wf(&self) -> bool {
        &&& self.tokens@.len() == self.tokens.len()
        &&& self.tokens@.len() > 0
        &&& self.tokens@.last().kind == TokenKind::EndOfInput
        &&& self.position < self.tokens@.len()
    }

    /// A parser for `tokens`, a sequence that ends with the end of input,
    /// read from the text `source`.
    pub fn new(tokens: Vec<Token>, source: String) -> (r: Parser)
        requires
            tokens@.len() > 0,
            tokens@.last().kind == TokenKind::EndOfInput,
        ensures
            r.wf(),
            r.tokens() == tokens@,
            r.source() == source@,
            r.position() == 0,
    {
        Parser { tokens, position: 0, source: chars_of(&source) }
    }

    fn advance(&mut self, length: usize)
        requires
            old(self).position + length < old(self).tokens.len(),
        ensures
            final(self).tokens == old(self).tokens,
            final(self).source == old(self).source,
            final(self).position == old(self).position + length,
    {
        self.position = self.position + length;
    }

    fn end_of_line(&self, from: usize) -> (e: usize)
        requires
            from <= self.source@.len(),
        ensures
            e == line_end(self.source@, from as nat),
    {
        proof {
            crate::lexer::lemma_line_end(self.source@, from as nat);
        }
        let mut e = from;
        while e < self.source.len() && self.source[e] != '\n'
            invariant
                from <= e <= self.source@.len(),
                line_end(self.source@, e as nat) == line_end(self.source@, from as nat),
            decreases self.source@.len() - e,
        {
            e += 1;
        }
        e
    }

    /// Line `n` of the source text, without its newline.
    fn get_nth_line(&self, n: usize) -> (line: String)
        ensures
            line@ == nth_line(self.source@, n as nat),
    {
        let mut start: usize = 0;
        let mut k: usize = 0;
        while k < n
            invariant
                k <= n,
                start <= self.source@.len(),
                line_start(self.source@, k as nat) == Some(start as nat),
            decreases n - k,
        {
            let e = self.end_of_line(start);
            if e >= self.source.len() {
                proof {
                    assert(line_start(self.source@, (k + 1) as nat) is None);
                    lemma_line_start_none(self.source@, (k + 1) as nat, n as nat);
                }
                return String::new();
            }
            start = e + 1;
            k += 1;
        }
        let e = self.end_of_line(start);
        proof {
            crate::lexer::lemma_line_end(self.source@, start as nat);
        }
        string_of(&self.source, start, e)
    }

    /// A line of `width` characters with `^` under the columns
    /// `error_col..error_col + error_length` and spaces elsewhere.
    fn underline_error(&self, width: usize, error_col: usize, error_length: usize) -> (r: String)
        ensures
            r@ == underline(width as nat, error_col as nat, error_length as nat),
    {
        let mut marks = String::new();
        let mut col: usize = 0;
        while col < width
            invariant
                col <= width,
                marks@ =~= underline(col as nat, error_col as nat, error_length as nat),
            decreases width - col,
        {
            if col >= error_col && col - error_col < error_length {
                push_char(&mut marks, '^');
            } else {
                push_char(&mut marks, ' ');
            }
            col += 1;
        }
        marks
    }

    /// The report of a syntax error of kind `kind` at `token`.
    fn fail(&self, kind: SyntaxErrorKind, token: &Token) -> (e: SyntaxError)
        ensures
            reports(e, (kind, *token), self.source@),
    {
        let line = self.get_nth_line(token.position.row);
        let underline = self.underline_error(line.as_str().unicode_len(), token.position.col, token.length);
        SyntaxError { kind, token: copy_token(token), line, underline }
    }

    /// The operator `token_text` spells inside an expression, if any.
    fn to_operator(&self, token_text: &str) -> (op: Option<Operator>)
        ensures
            op == operator_of(token_text@),
    {
        if token_text.unicode_len() != 1 {
            return None;
        }
        let c = token_text.get_char(0);
        proof {
            assert(token_text@ =~= seq![c]);
        }
        match c {
            '+' => Some(Operator::Add),
            '-' => Some(Operator::Subtract),
            '*' => Some(Operator::Multiply),
            '/' => Some(Operator::Divide),
            '^' => Some(Operator::Exp),
            _ => None,
        }
    }

    /// The expression spelled by `tokens`, which the token `end` follows
    /// (it is where an error at the end of the expression is reported):
    /// operator precedence and parentheses resolved by the shunting-yard.
    pub fn handle_equation(&self, tokens: &[Token], end: &Token) -> (r: Result<Node, SyntaxError>)
        ensures
            match expression(tokens@, *end) {
                Ok(n) => r == Ok::<Node, SyntaxError>(n),
                Err(f) => r is Err && reports(r->Err_0, f, self.source()),
            },
    {
        let mut operands: Vec<Node> = Vec::new();
        let mut operators: Vec<Operator> = Vec::new();
        let mut expect_operand = true;
        let mut depth: usize = 0;
        let mut i: usize = 0;
        while i < tokens.len()
            invariant
                i <= tokens@.len(),
                depth <= i,
                stackable(operators@),
                shunt_through(tokens@, i as nat) == Ok::<Shunt, Failure>(Shunt {
                    operands: operands@,
                    operators: operators@,
                    expect_operand,
                    depth: depth as nat,
                }),
            decreases tokens@.len() - i,
        {
            let token = &tokens[i];
            proof {
                lemma_shunt_failure_stands(tokens@, (i + 1) as nat, tokens@.len());
            }
            match token.kind {
                TokenKind::Number | TokenKind::Symbol => {
                    if !expect_operand {
                        return Err(self.fail(SyntaxErrorKind::ExpectedOperator, token));
                    }
                    if token.kind == TokenKind::Number {
                        operands.push(Node::Literal(Literal { raw: token.text.clone() }));
                    } else {
                        operands.push(Node::Identifier(Identifier { name: token.text.clone() }));
                    }
                    expect_operand = false;
                },
                TokenKind::Operator => {
                    if expect_operand {
                        return Err(self.fail(SyntaxErrorKind::ExpectedOperand, token));
                    }
                    let op = match self.to_operator(token.text.as_str()) {
                        Some(op) => op,
                        None => {
                            return Err(self.fail(SyntaxErrorKind::InvalidOperator, token));
                        },
                    };
                    if !reduce_while_binds(&mut operands, &mut operators, precedence(&op)) {
                        return Err(self.fail(SyntaxErrorKind::MissingOperand, token));
                    }
                    operators.push(op);
                    expect_operand = true;
                },
                TokenKind::OpenParen => {
                    if !expect_operand {
                        return Err(self.fail(SyntaxErrorKind::UnexpectedOpenParen, token));
                    }
                    operators.push(Operator::OpenParen);
                    depth = depth + 1;
                },
                TokenKind::CloseParen => {
                    if depth == 0 || operators.len() == 0 {
                        return Err(self.fail(SyntaxErrorKind::UnmatchedCloseParen, token));
                    }
                    if !reduce_until_paren(&mut operands, &mut operators) {
                        return Err(self.fail(SyntaxErrorKind::MissingOperand, token));
                    }
                    depth = depth - 1;
                    expect_operand = false;
                },
                _ => {
                    return Err(self.fail(SyntaxErrorKind::InvalidToken, token));
                },
            }
            i += 1;
        }
        proof {
            assert(tokens@.len() == i);
        }
        if expect_operand {
            return Err(self.fail(SyntaxErrorKind::UnexpectedEnd, end));
        }
        if depth != 0 {
            return Err(self.fail(SyntaxErrorKind::UnclosedParen, end));
        }
        if !drain_all(&mut operands, &mut operators) {
            return Err(self.fail(SyntaxErrorKind::MissingOperand, end));
        }
        match operands.pop() {
            Some(node) => Ok(node),
            None => Err(self.fail(SyntaxErrorKind::MissingOperand, end)),
        }
    }

    /// Checks that `token` has kind `expected_kind` and, if given, the text
    /// `expected_text`; reports an error of kind `kind` at it otherwise.
    fn validate_token(&self, token: &Token, expected_kind: TokenKind, expected_text: Option<&str>, kind: SyntaxErrorKind) -> (r: Result<(), SyntaxError>)
        ensures
            r is Ok <==> (token.kind == expected_kind && (expected_text matches Some(t) ==> token.text@ == t@)),
            r is Err ==> reports(r->Err_0, (kind, *token), self.source()),
    {
        if token.kind != expected_kind {
            return Err(self.fail(kind, token));
        }
        if let Some(text) = expected_text {
            if !same_text(token.text.as_str(), text) {
                return Err(self.fail(kind, token));
            }
        }
        Ok(())
    }

    /// A `let` statement, `tokens` running from `let` to the token that ends it.
    fn handle_assignment(&self, tokens: &[Token]) -> (r: Result<VariableDeclaration, SyntaxError>)
        requires
            tokens@.len() >= 2,
            ends_statement(tokens@.last()),
        ensures
            match assignment(tokens@) {
                Ok(d) => r == Ok::<VariableDeclaration, SyntaxError>(d),
                Err(f) => r is Err && reports(r->Err_0, f, self.source()),
            },
    {
        let n = tokens.len();
        match self.validate_token(&tokens[1], TokenKind::Symbol, None, SyntaxErrorKind::ExpectedIdentifier) {
            Err(e) => {
                return Err(e);
            },
            Ok(()) => {},
        }
        match self.validate_token(&tokens[2], TokenKind::Operator, Some("="), SyntaxErrorKind::ExpectedAssignment) {
            Err(e) => {
                return Err(e);
            },
            Ok(()) => {},
        }
        let span = vstd::slice::slice_subrange(tokens, 3, n - 1);
        let eq = match self.handle_equation(span, &tokens[n - 1]) {
            Err(e) => {
                return Err(e);
            },
            Ok(node) => node,
        };
        let id = Identifier { name: tokens[1].text.clone() };
        let init = match eq {
            Node::Literal(literal) => InitExpression::Literal(literal),
            Node::Identifier(identifier) => InitExpression::Identifier(identifier),
            Node::BinaryExpression(binary_expr) => InitExpression::BinaryExpression(binary_expr),
            _ => {
                return Err(self.fail(SyntaxErrorKind::MissingOperand, &tokens[0]));
            },
        };
        Ok(VariableDeclaration { id, init })
    }

    /// An `if` statement: not parsed yet.
    fn handle_if(&self, keyword: &Token) -> (r: Result<Node, SyntaxError>)
        ensures
            r is Err && reports(r->Err_0, (SyntaxErrorKind::UnsupportedStatement, *keyword), self.source()),
    {
        Err(self.fail(SyntaxErrorKind::UnsupportedStatement, keyword))
    }

    /// A `while` statement: not parsed yet.
    fn handle_while(&self, keyword: &Token) -> (r: Result<Node, SyntaxError>)
        ensures
            r is Err && reports(r->Err_0, (SyntaxErrorKind::UnsupportedStatement, *keyword), self.source()),
    {
        Err(self.fail(SyntaxErrorKind::UnsupportedStatement, keyword))
    }

    /// A function declaration (`define`): not parsed yet.
    fn handle_function_assignment(&self, keyword: &Token) -> (r: Result<Node, SyntaxError>)
        ensures
            r is Err && reports(r->Err_0, (SyntaxErrorKind::UnsupportedStatement, *keyword), self.source()),
    {
        Err(self.fail(SyntaxErrorKind::UnsupportedStatement, keyword))
    }

    /// A statement that starts with a keyword, `tokens` running from the
    /// keyword to the token that ends the statement.
    fn handle_keyword(&self, tokens: &[Token]) -> (r: Result<Node, SyntaxError>)
        requires
            tokens@.len() >= 2,
            ends_statement(tokens@.last()),
        ensures
            match keyword_statement(tokens@) {
                Ok(n) => r == Ok::<Node, SyntaxError>(n),
                Err(f) => r is Err && reports(r->Err_0, f, self.source()),
            },
    {
        let word = tokens[0].text.as_str();
        if same_text(word, "let") {
            match self.handle_assignment(tokens) {
                Ok(d) => Ok(Node::VariableDeclaration(d)),
                Err(e) => Err(e),
            }
        } else if same_text(word, "if") {
            self.handle_if(&tokens[0])
        } else if same_text(word, "while") {
            self.handle_while(&tokens[0])
        } else if same_text(word, "define") {
            self.handle_function_assignment(&tokens[0])
        } else {
            Err(self.fail(SyntaxErrorKind::UnsupportedStatement, &tokens[0]))
        }
    }

    /// The statements from the current position on, each ended by `;` or by
    /// the end of input, with `;`, newlines and comments between statements
    /// passed over; or the first syntax error.
    pub fn parse(&mut self) -> (r: Result<Program, SyntaxError>)
        requires
            old(self).wf(),
        ensures
            final(self).wf(),
            final(self).tokens() == old(self).tokens(),
            final(self).source() == old(self).source(),
            match parse_from(old(self).tokens(), old(self).position()) {
                Ok(nodes) => r is Ok && r->Ok_0.program@ == nodes,
                Err(f) => r is Err && reports(r->Err_0, f, old(self).source()),
            },
    {
        let mut program = Program { program: Vec::new() };
        loop
            invariant
                self.wf(),
                self.tokens == old(self).tokens,
                self.source == old(self).source,
                parse_from(self.tokens@, old(self).position as nat)
                    == prepend_nodes(program.program@, parse_from(self.tokens@, self.position as nat)),
            decreases self.tokens@.len() - self.position,
        {
            let start = self.position;
            let kind = self.tokens[start].kind;
            if kind == TokenKind::EndOfInput {
                proof {
                    assert(program.program@ + seq![] =~= program.program@);
                }
                return Ok(program);
            }
            if kind == TokenKind::LineBreak || kind == TokenKind::NewLine || kind == TokenKind::Comment {
                self.advance(1);
                continue;
            }
            proof {
                lemma_statement_end(self.tokens@, start as nat);
            }
            while self.tokens[self.position].kind != TokenKind::LineBreak && self.tokens[self.position].kind != TokenKind::EndOfInput
                invariant
                    self.wf(),
                    self.tokens == old(self).tokens,
                    self.source == old(self).source,
                    start <= self.position,
                    statement_end(self.tokens@, self.position as nat) == statement_end(self.tokens@, start as nat),
                decreases self.tokens@.len() - self.position,
            {
                self.advance(1);
            }
            let end = self.position;
            let ghost ts = self.tokens@;
            let res = if kind == TokenKind::Keyword {
                self.handle_keyword(vstd::slice::slice_subrange(self.tokens.as_slice(), start, end + 1))
            } else {
                self.handle_equation(vstd::slice::slice_subrange(self.tokens.as_slice(), start, end), &self.tokens[end])
            };
            proof {
                let st = ts.subrange(start as int, end + 1);
                assert(st.drop_last() =~= ts.subrange(start as int, end as int));
                assert(st.last() == ts[end as int]);
            }
            let ghost done = program.program@;
            match res {
                Err(e) => {
                    return Err(e);
                },
                Ok(node) => {
                    program.program.push(node);
                },
            }
            proof {
                let node = program.program@.last();
                assert(program.program@ =~= done + seq![node]);
                if ts[end as int].kind == TokenKind::EndOfInput {
                    assert(parse_from(ts, start as nat) == Ok::<Seq<Node>, Failure>(seq![node]));
                } else {
                    assert(parse_from(ts, start as nat) == prepend_nodes(seq![node], parse_from(ts, (end + 1) as nat)));
                    lemma_prepend_nodes(done, seq![node], parse_from(ts, (end + 1) as nat));
                }
            }
            if self.tokens[end].kind == TokenKind::EndOfInput {
                return Ok(program);
            }
            self.advance(1);
        }
    }
}

/// A human-readable description of the error.
pub open spec fn syntax_error_message(k: SyntaxErrorKind) -> Seq<char> {
    match k {
        SyntaxErrorKind::ExpectedOperator => "expected an operator"@,
        SyntaxErrorKind::ExpectedOperand => "expected an operand"@,
        SyntaxErrorKind::InvalidOperator => "invalid operator"@,
        SyntaxErrorKind::UnexpectedOpenParen => "unexpected '(', expected an operator before it"@,
        SyntaxErrorKind::UnmatchedCloseParen => "mismatched parentheses: unmatched ')'"@,
        SyntaxErrorKind::InvalidToken => "invalid token in expression"@,
        SyntaxErrorKind::UnexpectedEnd => "unexpected end of expression"@,
        SyntaxErrorKind::UnclosedParen => "mismatched parentheses: unclosed '('"@,
        SyntaxErrorKind::MissingOperand => "internal error: missing operand"@,
        SyntaxErrorKind::ExpectedIdentifier => "expected identifier in assignment statement"@,
        SyntaxErrorKind::ExpectedAssignment => "expected '=' in assignment statement"@,
        SyntaxErrorKind::UnsupportedStatement => "statement not supported"@,
    }
}

impl SyntaxErrorKind {
    /// A human-readable description of the error.
    pub fn message(&self) -> (r: &'static str)
        ensures
            r@ == syntax_error_message(*self),
    {
        match self {
            SyntaxErrorKind::ExpectedOperator => "expected an operator",
            SyntaxErrorKind::ExpectedOperand => "expected an operand",
            SyntaxErrorKind::InvalidOperator => "invalid operator",
            SyntaxErrorKind::UnexpectedOpenParen => "unexpected '(', expected an operator before it",
            SyntaxErrorKind::UnmatchedCloseParen => "mismatched parentheses: unmatched ')'",
            SyntaxErrorKind::InvalidToken => "invalid token in expression",
            SyntaxErrorKind::UnexpectedEnd => "unexpected end of expression",
            SyntaxErrorKind::UnclosedParen => "mismatched parentheses: unclosed '('",
            SyntaxErrorKind::MissingOperand => "internal error: missing operand",
            SyntaxErrorKind::ExpectedIdentifier => "expected identifier in assignment statement",
            SyntaxErrorKind::ExpectedAssignment => "expected '=' in assignment statement",
            SyntaxErrorKind::UnsupportedStatement => "statement not supported",
        }
    }
}

} // verus!
