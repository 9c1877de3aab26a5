use crate::model::{LexemeView, Lexeme, Token, TokenView};
use crate::span::Span;
use vstd::prelude::*;

verus! {

/// A declaration or statement of a Lox program.
#[derive(Debug, PartialEq)]
pub enum Ast {
    Class,
    Function { name: String, params: Vec<String>, body: Box<Ast> },
    Variable { name: Token, initializer: Option<Box<AstExpr>> },
    Block(Vec<Ast>),
    Statement(AstStmt),
    Expression(AstExpr),
}

/// A statement of a Lox program.
#[derive(Debug, PartialEq)]
pub enum AstStmt {
    If { condition: Box<AstExpr>, then: Box<Ast>, or_else: Option<Box<Ast>> },
    While(Box<AstExpr>, Box<Ast>),
    Return(Option<Box<AstExpr>>),
    Print(AstExpr),
    Expression(AstExpr),
}

/// An expression of a Lox program.
#[derive(Debug, PartialEq)]
pub enum AstExpr {
    Call { func: String, args: Vec<AstExpr>, site: Span },
    Assignment { id: String, expr: Box<AstExpr> },
    Logical { op: Token, left: Box<AstExpr>, right: Box<AstExpr> },
    Terminal(Token),
    Group(Box<AstExpr>),
    Unary { op: Token, exp: Box<AstExpr> },
    Binary { op: Token, left: Box<AstExpr>, right: Box<AstExpr> },
}

/// The abstract value of a declaration or statement.
pub ghost enum SAst {
    Class,
    Function { name: Seq<char>, params: Seq<Seq<char>>, body: Box<SAst> },
    Variable { name: TokenView, initializer: Option<Box<SExpr>> },
    Block(Seq<SAst>),
    Statement(SStmt),
    Expression(SExpr),
}

/// The abstract value of a statement.
pub ghost enum SStmt {
    If { condition: Box<SExpr>, then: Box<SAst>, or_else: Option<Box<SAst>> },
    While(Box<SExpr>, Box<SAst>),
    Return(Option<Box<SExpr>>),
    Print(SExpr),
    Expression(SExpr),
}

/// The abstract value of an expression.
pub ghost enum SExpr {
    Call { func: Seq<char>, args: Seq<SExpr>, site: Span },
    Assignment { id: Seq<char>, expr: Box<SExpr> },
    Logical { op: TokenView, left: Box<SExpr>, right: Box<SExpr> },
    Terminal(TokenView),
    Group(Box<SExpr>),
    Unary { op: TokenView, exp: Box<SExpr> },
    Binary { op: TokenView, left: Box<SExpr>, right: Box<SExpr> },
}

/// The abstract values of a sequence of strings.
pub open spec fn strings_view(v: Seq<String>) -> Seq<Seq<char>> {
    v.map_values(|s: String| s@)
}

impl Ast {
    /// The abstract value of this declaration or statement.
    pub open spec fn sv(&self) -> SAst
        decreases self,
    {
        match self {
            Ast::Class => SAst::Class,
            Ast::Function { name, params, body } => SAst::Function {
                name: name@,
                params: strings_view(params@),
                body: Box::new(body.sv()),
            },
            Ast::Variable { name, initializer } => SAst::Variable {
                name: name@,
                initializer: match initializer {
                    Some(e) => Some(Box::new(e.sv())),
                    None => None,
                },
            },
            Ast::Block(v) => SAst::Block(
                Seq::new(
                    v.len() as nat,
                    |i: int|
                        if 0 <= i < v.len() {
                            v[i].sv()
                        } else {
                            SAst::Class
                        },
                ),
            ),
            Ast::Statement(s) => SAst::Statement(s.sv()),
            Ast::Expression(e) => SAst::Expression(e.sv()),
        }
    }
}

impl AstStmt {
    /// The abstract value of this statement.
    pub open spec fn sv(&self) -> SStmt
        decreases self,
    {
        match self {
            AstStmt::If { condition, then, or_else } => SStmt::If {
                condition: Box::new(condition.sv()),
                then: Box::new(then.sv()),
                or_else: match or_else {
                    Some(a) => Some(Box::new(a.sv())),
                    None => None,
                },
            },
            AstStmt::While(c, b) => SStmt::While(Box::new(c.sv()), Box::new(b.sv())),
            AstStmt::Return(e) => SStmt::Return(
                match e {
                    Some(x) => Some(Box::new(x.sv())),
                    None => None,
                },
            ),
            AstStmt::Print(e) => SStmt::Print(e.sv()),
            AstStmt::Expression(e) => SStmt::Expression(e.sv()),
        }
    }
}

impl AstExpr {
    /// The abstract value of this expression.
    pub open spec fn sv(&self) -> SExpr
        decreases self,
    {
        match self {
            AstExpr::Call { func, args, site } => SExpr::Call {
                func: func@,
                args: Seq::new(
                    args.len() as nat,
                    |i: int|
                        if 0 <= i < args.len() {
                            args[i].sv()
                        } else {
                            SExpr::Group(Box::new(SExpr::Terminal(TokenView { kind: crate::model::LexKind::Nil, text: Seq::empty(), span: *site })))
                        },
                ),
                site: *site,
            },
            AstExpr::Assignment { id, expr } => SExpr::Assignment {
                id: id@,
                expr: Box::new(expr.sv()),
            },
            AstExpr::Logical { op, left, right } => SExpr::Logical {
                op: op@,
                left: Box::new(left.sv()),
                right: Box::new(right.sv()),
            },
            AstExpr::Terminal(t) => SExpr::Terminal(t@),
            AstExpr::Group(e) => SExpr::Group(Box::new(e.sv())),
            AstExpr::Unary { op, exp } => SExpr::Unary { op: op@, exp: Box::new(exp.sv()) },
            AstExpr::Binary { op, left, right } => SExpr::Binary {
                op: op@,
                left: Box::new(left.sv()),
                right: Box::new(right.sv()),
            },
        }
    }
}

/// The abstract values of a sequence of declarations.
pub open spec fn asts_view(v: Seq<Ast>) -> Seq<SAst> {
    v.map_values(|a: Ast| a.sv())
}

/// The abstract values of a sequence of expressions.
pub open spec fn exprs_view(v: Seq<AstExpr>) -> Seq<SExpr> {
    v.map_values(|e: AstExpr| e.sv())
}

/// A block's abstract value lists the abstract values of its members.
pub proof fn lemma_block_view(v: Vec<Ast>)
    ensures
        Ast::Block(v).sv() == SAst::Block(asts_view(v@)),
{
    assert(Ast::Block(v).sv()->Block_0 =~= asts_view(v@));
}

/// A call's abstract value lists the abstract values of its arguments.
pub proof fn lemma_call_view(func: String, args: Vec<AstExpr>, site: Span)
    ensures
        (AstExpr::Call { func, args, site }).sv() == (SExpr::Call { func: func@, args: exprs_view(args@), site }),
{
    assert((AstExpr::Call { func, args, site }).sv()->Call_args =~= exprs_view(args@));
}

/// A call's abstract value lists the abstract values of its arguments,
/// for a call seen through a reference.
pub proof fn lemma_call_args_view(e: AstExpr)
    requires
        e is Call,
    ensures
        e.sv()->Call_args == exprs_view(e->Call_args@),
{
    assert(e.sv()->Call_args =~= exprs_view(e->Call_args@));
}

/// A block node's abstract value lists the abstract values of its members,
/// for a block seen through a reference.
pub proof fn lemma_block_members_view(a: Ast)
    requires
        a is Block,
    ensures
        a.sv()->Block_0 == asts_view(a->Block_0@),
{
    assert(a.sv()->Block_0 =~= asts_view(a->Block_0@));
}

/// A statement node's abstract value is the statement's.
pub proof fn lemma_statement_view(s: AstStmt)
    ensures
        Ast::Statement(s).sv() == SAst::Statement(s.sv()),
{
}

impl AstExpr {
    /// A copy of this expression.
    pub fn duplicate(&self) -> (r: AstExpr)
        ensures
            r.sv() == self.sv(),
        decreases self,
    {
        match self {
            AstExpr::Call { func, args, site } => {
                proof {
                    lemma_call_args_view(*self);
                }
                let copied = duplicate_exprs(args);
                let r = AstExpr::Call { func: func.clone(), args: copied, site: *site };
                proof {
                    lemma_call_args_view(r);
                }
                r
            },
            AstExpr::Assignment { id, expr } => AstExpr::Assignment {
                id: id.clone(),
                expr: Box::new(expr.duplicate()),
            },
            AstExpr::Logical { op, left, right } => AstExpr::Logical {
                op: op.duplicate(),
                left: Box::new(left.duplicate()),
                right: Box::new(right.duplicate()),
            },
            AstExpr::Terminal(t) => AstExpr::Terminal(t.duplicate()),
            AstExpr::Group(e) => AstExpr::Group(Box::new(e.duplicate())),
            AstExpr::Unary { op, exp } => AstExpr::Unary {
                op: op.duplicate(),
                exp: Box::new(exp.duplicate()),
            },
            AstExpr::Binary { op, left, right } => AstExpr::Binary {
                op: op.duplicate(),
                left: Box::new(left.duplicate()),
                right: Box::new(right.duplicate()),
            },
        }
    }
}

/// Copies of the expressions `v`.
fn duplicate_exprs(v: &Vec<AstExpr>) -> (r: Vec<AstExpr>)
    ensures
        exprs_view(r@) == exprs_view(v@),
    decreases v,
{
    let mut r: Vec<AstExpr> = Vec::new();
    let mut i: usize = 0;
    while i < v.len()
        invariant
            i <= v.len(),
            r.len() == i,
            forall|j: int| 0 <= j < i ==> (#[trigger] r@[j]).sv() == v@[j].sv(),
        decreases v.len() - i,
    {
        r.push(v[i].duplicate());
        i = i + 1;
    }
    assert(exprs_view(r@) =~= exprs_view(v@));
    r
}

impl AstStmt {
    /// A copy of this statement.
    pub fn duplicate(&self) -> (r: AstStmt)
        ensures
            r.sv() == self.sv(),
        decreases self,
    {
        match self {
            AstStmt::If { condition, then, or_else } => AstStmt::If {
                condition: Box::new(condition.duplicate()),
                then: Box::new(then.duplicate()),
                or_else: match or_else {
                    Some(e) => Some(Box::new(e.duplicate())),
                    None => None,
                },
            },
            AstStmt::While(c, b) => AstStmt::While(Box::new(c.duplicate()), Box::new(b.duplicate())),
            AstStmt::Return(e) => AstStmt::Return(
                match e {
                    Some(x) => Some(Box::new(x.duplicate())),
                    None => None,
                },
            ),
            AstStmt::Print(e) => AstStmt::Print(e.duplicate()),
            AstStmt::Expression(e) => AstStmt::Expression(e.duplicate()),
        }
    }
}

impl Ast {
    /// A copy of this declaration or statement.
    pub fn duplicate(&self) -> (r: Ast)
        ensures
            r.sv() == self.sv(),
        decreases self,
    {
        match self {
            Ast::Class => Ast::Class,
            Ast::Function { name, params, body } => {
                let copied = duplicate_strings(params);
                Ast::Function { name: name.clone(), params: copied, body: Box::new(body.duplicate()) }
            },
            Ast::Variable { name, initializer } => Ast::Variable {
                name: name.duplicate(),
                initializer: match initializer {
                    Some(e) => Some(Box::new(e.duplicate())),
                    None => None,
                },
            },
            Ast::Block(v) => {
                proof {
                    lemma_block_members_view(*self);
                }
                let copied = duplicate_asts(v);
                let r = Ast::Block(copied);
                proof {
                    lemma_block_members_view(r);
                }
                r
            },
            Ast::Statement(st) => Ast::Statement(st.duplicate()),
            Ast::Expression(e) => Ast::Expression(e.duplicate()),
        }
    }
}

/// Copies of the declarations `v`.
fn duplicate_asts(v: &Vec<Ast>) -> (r: Vec<Ast>)
    ensures
        asts_view(r@) == asts_view(v@),
    decreases v,
{
    let mut r: Vec<Ast> = Vec::new();
    let mut i: usize = 0;
    while i < v.len()
        invariant
            i <= v.len(),
            r.len() == i,
            forall|j: int| 0 <= j < i ==> (#[trigger] r@[j]).sv() == v@[j].sv(),
        decreases v.len() - i,
    {
        r.push(v[i].duplicate());
        i = i + 1;
    }
    assert(asts_view(r@) =~= asts_view(v@));
    r
}

/// Copies of the strings `v`.
fn duplicate_strings(v: &Vec<String>) -> (r: Vec<String>)
    ensures
        strings_view(r@) == strings_view(v@),
{
    let mut r: Vec<String> = Vec::new();
    let mut i: usize = 0;
    while i < v.len()
        invariant
            i <= v.len(),
            r.len() == i,
            forall|j: int| 0 <= j < i ==> (#[trigger] r@[j])@ == v@[j]@,
        decreases v.len() - i,
    {
        r.push(v[i].clone());
        i = i + 1;
    }
    assert(strings_view(r@) =~= strings_view(v@));
    r
}

/// An error met while parsing.
#[derive(Debug)]
pub enum ParseError {
    MissingToken { expected: Lexeme, actual: Lexeme, line: usize },
    UnexpectedToken { actual: Token },
    UnexpectedEof,
    ExpectedExpressionError { token: Token, source: Box<ParseError> },
    TooManyFunctionArgs(usize),
}

/// The abstract value of a parse error.
pub ghost enum SParseError {
    MissingToken { expected: LexemeView, actual: LexemeView, line: int },
    UnexpectedToken { actual: TokenView },
    UnexpectedEof,
    ExpectedExpressionError { token: TokenView, source: Box<SParseError> },
    TooManyFunctionArgs(int),
}

impl ParseError {
    /// The abstract value of this error.
    pub open spec fn sv(&self) -> SParseError
        decreases self,
    {
        match self {
            ParseError::MissingToken { expected, actual, line } => SParseError::MissingToken {
                expected: expected@,
                actual: actual@,
                line: *line as int,
            },
            ParseError::UnexpectedToken { actual } => SParseError::UnexpectedToken {
                actual: actual@,
            },
            ParseError::UnexpectedEof => SParseError::UnexpectedEof,
            ParseError::ExpectedExpressionError { token, source } =>
                SParseError::ExpectedExpressionError {
                    token: token@,
                    source: Box::new(source.sv()),
                },
            ParseError::TooManyFunctionArgs(l) => SParseError::TooManyFunctionArgs(*l as int),
        }
    }
}

} // verus!
