//! The recursive-descent parser, proved to follow the grammar of
//! `crate::grammar` token by token.
use crate::ast::{
    asts_view, exprs_view, lemma_block_view, lemma_call_view, lemma_statement_view, strings_view, Ast, AstExpr, AstStmt,
    ParseError, SAst, SExpr,
};
use crate::grammar::{
    always_true, at, bare, binary_op, desugar_for, logical_op, missing, peek, semicolon_at_end,
    spec_arguments, spec_assignment, spec_binary, spec_binary_rest, spec_block, spec_block_items,
    spec_call, spec_declaration, spec_expression, spec_expression_statement, spec_for,
    spec_for_body, spec_for_cond, spec_for_incr, spec_for_init, spec_fun_decl, spec_fun_name,
    spec_if, spec_logical, spec_logical_rest, spec_operand, spec_params, spec_primary, spec_print,
    spec_program, spec_return, spec_semicolon, spec_statement, spec_unary, spec_var_decl,
    spec_while, starts_statement, AstOutcome, AstsOutcome, ExprOutcome, SStop,
};
use crate::model::{LexKind, Lexeme, LexemeView, Token, TokenView};
use crate::grammar::{eof_error, spec_parse_tokens};
use crate::scanner::{source_fits, spec_scan, tokens_view, Scanner};
use crate::span::Span;
use crate::printable::law_parse_printable;
use crate::render::ast_printable;
use crate::text::string_of;
use vstd::prelude::*;

verus! {

/// Why a parse stopped without a result: an error in the input, or a point
/// at which the parser gives up on it.
#[derive(Debug)]
pub enum ParseStop {
    Error(ParseError),
    Abort,
}

impl ParseStop {
    /// The abstract value of this stop.
    pub open spec fn sv(&self) -> SStop {
        match self {
            ParseStop::Error(e) => SStop::Error(e.sv()),
            ParseStop::Abort => SStop::Abort,
        }
    }
}

/// The abstract value of the outcome of an expression parse.
pub open spec fn expr_outcome(r: Result<(AstExpr, usize), ParseStop>) -> ExprOutcome {
    match r {
        Ok((e, q)) => Ok((e.sv(), q as int)),
        Err(s) => Err(s.sv()),
    }
}

/// Whether the token at position `p` exists and has kind `k`.
fn is_at(ts: &Vec<Token>, p: usize, k: LexKind) -> (r: bool)
    ensures
        r == at(tokens_view(ts@), p as int, k),
{
    p < ts.len() && ts[p].lexeme.kind() == k
}

/// Whether `k` is an operator of the binary level `level`.
fn is_binary_op(level: u8, k: LexKind) -> (r: bool)
    ensures
        r == binary_op(level as int, k),
{
    if level == 0 {
        k == LexKind::BangEq || k == LexKind::EqEq
    } else if level == 1 {
        k == LexKind::Greater || k == LexKind::GreaterEq || k == LexKind::Less || k
            == LexKind::LessEq
    } else if level == 2 {
        k == LexKind::Plus || k == LexKind::Minus
    } else {
        k == LexKind::Star || k == LexKind::Slash
    }
}

/// Parses an expression from position `p`.
pub fn expression(ts: &Vec<Token>, p: usize) -> (r: Result<(AstExpr, usize), ParseStop>)
    requires
        p <= ts.len(),
    ensures
        expr_outcome(r) == spec_expression(tokens_view(ts@), p as int),
        r matches Ok((_, q)) ==> p < q <= ts.len(),
    decreases ts.len() - p, 12int,
{
    assignment(ts, p)
}

/// Parses an assignment, or the logical expression it reduces to.
fn assignment(ts: &Vec<Token>, p: usize) -> (r: Result<(AstExpr, usize), ParseStop>)
    requires
        p <= ts.len(),
    ensures
        expr_outcome(r) == spec_assignment(tokens_view(ts@), p as int),
        r matches Ok((_, q)) ==> p < q <= ts.len(),
    decreases ts.len() - p, 11int,
{
    if p >= ts.len() {
        return Err(ParseStop::Error(ParseError::UnexpectedEof));
    }
    let id: String = match &ts[p].lexeme {
        Lexeme::Identifier(name) => name.clone(),
        other => other.display_string(),
    };
    let (left, q) = match logical(ts, p, true) {
        Err(s) => return Err(s),
        Ok(x) => x,
    };
    if is_at(ts, q, LexKind::Eq) {
        match assignment(ts, q + 1) {
            Err(s) => Err(s),
            Ok((rv, r)) => Ok((AstExpr::Assignment { id, expr: Box::new(rv) }, r)),
        }
    } else {
        Ok((left, q))
    }
}

/// Parses a logical `or` level (`is_or`) or `and` level.
fn logical(ts: &Vec<Token>, p: usize, is_or: bool) -> (r: Result<(AstExpr, usize), ParseStop>)
    requires
        p <= ts.len(),
    ensures
        expr_outcome(r) == spec_logical(tokens_view(ts@), p as int, is_or),
        r matches Ok((_, q)) ==> p < q <= ts.len(),
    decreases ts.len() - p, if is_or { 10int } else { 9int },
{
    let first = if is_or {
        logical(ts, p, false)
    } else {
        binary(ts, p, 0)
    };
    let (left, q) = match first {
        Err(s) => return Err(s),
        Ok(x) => x,
    };
    logical_rest(ts, q, is_or, left)
}

/// Parses the repeated part of a logical level after the operand `acc0`.
fn logical_rest(ts: &Vec<Token>, q0: usize, is_or: bool, acc0: AstExpr) -> (r: Result<
    (AstExpr, usize),
    ParseStop,
>)
    requires
        q0 <= ts.len(),
    ensures
        expr_outcome(r) == spec_logical_rest(tokens_view(ts@), q0 as int, is_or, acc0.sv()),
        r matches Ok((_, q)) ==> q0 <= q <= ts.len(),
    decreases ts.len() - q0, 0int,
{
    let ghost tsv = tokens_view(ts@);
    let op_kind = if is_or {
        LexKind::Or
    } else {
        LexKind::And
    };
    let mut q = q0;
    let mut acc = acc0;
    loop
        invariant
            q0 <= q <= ts.len(),
            tsv == tokens_view(ts@),
            op_kind == logical_op(is_or),
            spec_logical_rest(tsv, q0 as int, is_or, acc0.sv()) == spec_logical_rest(
                tsv,
                q as int,
                is_or,
                acc.sv(),
            ),
        decreases ts.len() - q,
    {
        if !is_at(ts, q, op_kind) {
            return Ok((acc, q));
        }
        let op = ts[q].duplicate();
        let right = if is_or {
            logical(ts, q + 1, false)
        } else {
            binary(ts, q + 1, 0)
        };
        let (r, q2) = match right {
            Err(s) => return Err(s),
            Ok(x) => x,
        };
        acc = AstExpr::Logical { op, left: Box::new(acc), right: Box::new(r) };
        q = q2;
    }
}

/// Parses the operand of the binary level `level`.
fn operand(ts: &Vec<Token>, p: usize, level: u8) -> (r: Result<(AstExpr, usize), ParseStop>)
    requires
        p <= ts.len(),
    ensures
        expr_outcome(r) == spec_operand(tokens_view(ts@), p as int, level as int),
        r matches Ok((_, q)) ==> p < q <= ts.len(),
    decreases ts.len() - p, 8int,
{
    if level < 3 {
        binary(ts, p, level + 1)
    } else {
        unary(ts, p)
    }
}

/// Parses the binary level `level`: equality, comparison, term or factor.
fn binary(ts: &Vec<Token>, p: usize, level: u8) -> (r: Result<(AstExpr, usize), ParseStop>)
    requires
        p <= ts.len(),
    ensures
        expr_outcome(r) == spec_binary(tokens_view(ts@), p as int, level as int),
        r matches Ok((_, q)) ==> p < q <= ts.len(),
    decreases ts.len() - p, if 0 <= level < 3 { 8 - level } else { 5int },
{
    let first = if level < 3 {
        binary(ts, p, level + 1)
    } else {
        unary(ts, p)
    };
    let (left, q) = match first {
        Err(s) => return Err(s),
        Ok(x) => x,
    };
    binary_rest(ts, q, level, left)
}

/// Parses the repeated part of a binary level after the operand `acc0`.
fn binary_rest(ts: &Vec<Token>, q0: usize, level: u8, acc0: AstExpr) -> (r: Result<
    (AstExpr, usize),
    ParseStop,
>)
    requires
        q0 <= ts.len(),
    ensures
        expr_outcome(r) == spec_binary_rest(tokens_view(ts@), q0 as int, level as int, acc0.sv()),
        r matches Ok((_, q)) ==> q0 <= q <= ts.len(),
    decreases ts.len() - q0, 0int,
{
    let ghost tsv = tokens_view(ts@);
    let mut q = q0;
    let mut acc = acc0;
    loop
        invariant
            q0 <= q <= ts.len(),
            tsv == tokens_view(ts@),
            spec_binary_rest(tsv, q0 as int, level as int, acc0.sv()) == spec_binary_rest(
                tsv,
                q as int,
                level as int,
                acc.sv(),
            ),
        decreases ts.len() - q,
    {
        if q >= ts.len() || !is_binary_op(level, ts[q].lexeme.kind()) {
            return Ok((acc, q));
        }
        let op = ts[q].duplicate();
        let (r, q2) = match operand(ts, q + 1, level) {
            Err(s) => return Err(s),
            Ok(x) => x,
        };
        acc = AstExpr::Binary { op, left: Box::new(acc), right: Box::new(r) };
        q = q2;
    }
}

/// Parses a unary expression.
fn unary(ts: &Vec<Token>, p: usize) -> (r: Result<(AstExpr, usize), ParseStop>)
    requires
        p <= ts.len(),
    ensures
        expr_outcome(r) == spec_unary(tokens_view(ts@), p as int),
        r matches Ok((_, q)) ==> p < q <= ts.len(),
    decreases ts.len() - p, 4int,
{
    if is_at(ts, p, LexKind::Minus) || is_at(ts, p, LexKind::Bang) {
        let op = ts[p].duplicate();
        match unary(ts, p + 1) {
            Err(s) => Err(s),
            Ok((e, q)) => Ok((AstExpr::Unary { op, exp: Box::new(e) }, q)),
        }
    } else {
        call(ts, p)
    }
}

/// Parses a call, or the primary expression it reduces to.
fn call(ts: &Vec<Token>, p: usize) -> (r: Result<(AstExpr, usize), ParseStop>)
    requires
        p <= ts.len(),
    ensures
        expr_outcome(r) == spec_call(tokens_view(ts@), p as int),
        r matches Ok((_, q)) ==> p < q <= ts.len(),
    decreases ts.len() - p, 3int,
{
    let (e, q) = match primary(ts, p) {
        Err(s) => return Err(s),
        Ok(x) => x,
    };
    match e {
        AstExpr::Terminal(t) => {
            if t.lexeme.kind() == LexKind::Identifier && is_at(ts, q, LexKind::LeftParen) {
                arguments(ts, q + 1, t)
            } else {
                Ok((AstExpr::Terminal(t), q))
            }
        },
        other => Ok((other, q)),
    }
}

/// Parses the arguments of a call of `callee` up to the closing
/// parenthesis.
fn arguments(ts: &Vec<Token>, q0: usize, callee: Token) -> (r: Result<
    (AstExpr, usize),
    ParseStop,
>)
    requires
        q0 <= ts.len(),
        callee@.kind == LexKind::Identifier,
    ensures
        expr_outcome(r) == spec_arguments(tokens_view(ts@), q0 as int, callee@, Seq::empty()),
        r matches Ok((_, q)) ==> q0 <= q <= ts.len(),
    decreases ts.len() - q0, 13int,
{
    let ghost tsv = tokens_view(ts@);
    let func: String = match &callee.lexeme {
        Lexeme::Identifier(name) => name.clone(),
        _ => String::new(),
    };
    let mut args: Vec<AstExpr> = Vec::new();
    let mut q = q0;
    proof {
        assert(exprs_view(args@) =~= Seq::<crate::ast::SExpr>::empty());
    }
    loop
        invariant
            q0 <= q <= ts.len(),
            tsv == tokens_view(ts@),
            func@ == callee@.text,
            spec_arguments(tsv, q0 as int, callee@, Seq::empty()) == spec_arguments(
                tsv,
                q as int,
                callee@,
                exprs_view(args@),
            ),
        decreases ts.len() - q,
    {
        if q >= ts.len() {
            return Ok((AstExpr::Terminal(callee), q));
        }
        if ts[q].lexeme.kind() == LexKind::RightParen {
            let site = ts[q].span;
            proof {
                lemma_call_view(func, args, site);
            }
            return Ok((AstExpr::Call { func, args, site }, q + 1));
        }
        let line = ts[q].span.line;
        let (a, r) = match expression(ts, q) {
            Err(s) => return Err(s),
            Ok(x) => x,
        };
        let ghost before = args@;
        args.push(a);
        proof {
            assert(exprs_view(args@) =~= exprs_view(before).push(a.sv()));
        }
        if args.len() >= 255 {
            return Err(ParseStop::Error(ParseError::TooManyFunctionArgs(line)));
        }
        q = if is_at(ts, r, LexKind::Comma) {
            r + 1
        } else {
            r
        };
    }
}

/// Parses a primary expression.
fn primary(ts: &Vec<Token>, p: usize) -> (r: Result<(AstExpr, usize), ParseStop>)
    requires
        p <= ts.len(),
    ensures
        expr_outcome(r) == spec_primary(tokens_view(ts@), p as int),
        r matches Ok((_, q)) ==> p < q <= ts.len(),
    decreases ts.len() - p, 2int,
{
    if p >= ts.len() {
        return Err(ParseStop::Abort);
    }
    let k = ts[p].lexeme.kind();
    if k == LexKind::True || k == LexKind::False || k == LexKind::Nil {
        Ok((AstExpr::Terminal(ts[p].duplicate()), p + 1))
    } else if k == LexKind::LeftParen {
        let (e, q) = match expression(ts, p + 1) {
            Err(s) => return Err(s),
            Ok(x) => x,
        };
        if q >= ts.len() {
            Err(ParseStop::Error(ParseError::UnexpectedEof))
        } else if ts[q].lexeme.kind() == LexKind::RightParen {
            Ok((AstExpr::Group(Box::new(e)), q + 1))
        } else {
            Err(
                ParseStop::Error(
                    ParseError::MissingToken {
                        expected: ts[q].lexeme.duplicate(),
                        actual: Lexeme::RightParen,
                        line: 0,
                    },
                ),
            )
        }
    } else if k == LexKind::Number || k == LexKind::String || k == LexKind::Identifier {
        Ok((AstExpr::Terminal(ts[p].duplicate()), p + 1))
    } else {
        Err(ParseStop::Error(ParseError::UnexpectedToken { actual: ts[p].duplicate() }))
    }
}

/// The abstract value of the outcome of a declaration parse.
pub open spec fn ast_outcome(r: Result<(Ast, usize), ParseStop>) -> AstOutcome {
    match r {
        Ok((a, q)) => Ok((a.sv(), q as int)),
        Err(s) => Err(s.sv()),
    }
}

/// The abstract value of the outcome of a parse of several declarations.
pub open spec fn asts_outcome(r: Result<(Vec<Ast>, usize), ParseStop>) -> AstsOutcome {
    match r {
        Ok((v, q)) => Ok((asts_view(v@), q as int)),
        Err(s) => Err(s.sv()),
    }
}

/// The abstract value of an optional declaration.
pub open spec fn opt_ast_sv(o: Option<Ast>) -> Option<SAst> {
    match o {
        Some(a) => Some(a.sv()),
        None => None,
    }
}

/// The abstract value of an optional expression.
pub open spec fn opt_expr_sv(o: Option<AstExpr>) -> Option<SExpr> {
    match o {
        Some(e) => Some(e.sv()),
        None => None,
    }
}

/// The error for the token `t` found where `expected` was expected.
fn missing_token(expected: Lexeme, t: &Token) -> (s: ParseStop)
    ensures
        s.sv() == missing(expected@, t@),
{
    ParseStop::Error(
        ParseError::MissingToken { expected, actual: t.lexeme.duplicate(), line: t.span.line },
    )
}

/// The error for input that ends too early.
fn eof_stop() -> (s: ParseStop)
    ensures
        s.sv() == crate::grammar::eof_error(),
{
    ParseStop::Error(ParseError::UnexpectedEof)
}

/// Parses the declarations of the whole token sequence `ts`.
pub fn program(em: bool, ts: &Vec<Token>) -> (r: Result<(Vec<Ast>, usize), ParseStop>)
    ensures
        asts_outcome(r) == spec_program(em, tokens_view(ts@), 0, Seq::empty()),
        r matches Ok((_, q)) ==> q <= ts.len(),
{
    let ghost tsv = tokens_view(ts@);
    let mut stmts: Vec<Ast> = Vec::new();
    let mut p: usize = 0;
    proof {
        assert(asts_view(stmts@) =~= Seq::<SAst>::empty());
    }
    loop
        invariant
            p <= ts.len(),
            tsv == tokens_view(ts@),
            spec_program(em, tsv, 0, Seq::empty()) == spec_program(em, tsv, p as int, asts_view(stmts@)),
        decreases ts.len() - p,
    {
        if p >= ts.len() || ts[p].lexeme.kind() == LexKind::Eof {
            return Ok((stmts, p));
        }
        let (a, q) = match declaration(em, ts, p) {
            Err(s) => return Err(s),
            Ok(x) => x,
        };
        let ghost before = stmts@;
        stmts.push(a);
        proof {
            assert(asts_view(stmts@) =~= asts_view(before).push(a.sv()));
        }
        p = q;
    }
}

/// Parses a declaration.
fn declaration(em: bool, ts: &Vec<Token>, p: usize) -> (r: Result<(Ast, usize), ParseStop>)
    requires
        p <= ts.len(),
    ensures
        ast_outcome(r) == spec_declaration(em, tokens_view(ts@), p as int),
        r matches Ok((_, q)) ==> p < q <= ts.len(),
    decreases ts.len() - p, 19int,
{
    if p >= ts.len() {
        return Err(eof_stop());
    }
    let k = ts[p].lexeme.kind();
    if k == LexKind::Class {
        Err(ParseStop::Abort)
    } else if k == LexKind::Fun {
        fun_decl(em, ts, p)
    } else if k == LexKind::Var {
        var_decl(ts, p)
    } else if em {
        match expression(ts, p) {
            Err(s) => Err(s),
            Ok((e, q)) => Ok((Ast::Expression(e), q)),
        }
    } else {
        statement(em, ts, p)
    }
}

/// Parses the name of a function.
fn fun_name(ts: &Vec<Token>, p: usize) -> (r: Result<(String, usize), ParseStop>)
    requires
        p <= ts.len(),
    ensures
        (match r {
            Ok((n, q)) => Ok((n@, q as int)),
            Err(s) => Err(s.sv()),
        }) == spec_fun_name(tokens_view(ts@), p as int),
{
    if p >= ts.len() {
        return Err(eof_stop());
    }
    match &ts[p].lexeme {
        Lexeme::Identifier(name) => Ok((name.clone(), p + 1)),
        _ => {
            let id = string_of("id");
            proof {
                reveal_strlit("id");
                assert(id@ =~= seq!['i', 'd']);
            }
            Err(missing_token(Lexeme::Identifier(id), &ts[p]))
        },
    }
}

/// Parses the parameters of a function, up to and with the closing
/// parenthesis.
fn params(ts: &Vec<Token>, p0: usize) -> (r: Result<(Vec<String>, usize), ParseStop>)
    requires
        p0 <= ts.len(),
    ensures
        (match r {
            Ok((v, q)) => Ok((strings_view(v@), q as int)),
            Err(s) => Err(s.sv()),
        }) == spec_params(tokens_view(ts@), p0 as int, Seq::empty()),
        r matches Ok((_, q)) ==> p0 < q <= ts.len(),
{
    let ghost tsv = tokens_view(ts@);
    let mut names: Vec<String> = Vec::new();
    let mut p = p0;
    proof {
        assert(strings_view(names@) =~= Seq::<Seq<char>>::empty());
    }
    loop
        invariant
            p0 <= p <= ts.len(),
            tsv == tokens_view(ts@),
            spec_params(tsv, p0 as int, Seq::empty()) == spec_params(tsv, p as int, strings_view(names@)),
        decreases ts.len() - p,
    {
        if p >= ts.len() {
            return Err(ParseStop::Abort);
        }
        let k = ts[p].lexeme.kind();
        if k == LexKind::RightParen {
            return Ok((names, p + 1));
        }
        if k == LexKind::Identifier {
            let name: String = match &ts[p].lexeme {
                Lexeme::Identifier(n) => n.clone(),
                _ => String::new(),
            };
            let ghost before = names@;
            names.push(name);
            proof {
                assert(strings_view(names@) =~= strings_view(before).push(tsv[p as int].text));
            }
            if p + 1 < ts.len() {
                let k2 = ts[p + 1].lexeme.kind();
                if k2 == LexKind::Identifier {
                    return Err(missing_token(Lexeme::Comma, &ts[p + 1]));
                } else if k2 == LexKind::Comma {
                    p = p + 2;
                } else {
                    p = p + 1;
                }
            } else {
                p = p + 1;
            }
        } else {
            p = p + 1;
        }
    }
}

/// Parses a function declaration from its `fun` token.
fn fun_decl(em: bool, ts: &Vec<Token>, p: usize) -> (r: Result<(Ast, usize), ParseStop>)
    requires
        p < ts.len(),
    ensures
        ast_outcome(r) == spec_fun_decl(em, tokens_view(ts@), p as int),
        r matches Ok((_, q)) ==> p < q <= ts.len(),
    decreases ts.len() - p, 18int,
{
    let (name, q1) = match fun_name(ts, p + 1) {
        Err(s) => return Err(s),
        Ok(x) => x,
    };
    if !is_at(ts, q1, LexKind::LeftParen) {
        if q1 < ts.len() {
            return Err(missing_token(Lexeme::LeftParen, &ts[q1]));
        } else {
            return Err(eof_stop());
        }
    }
    let (params, q2) = match params(ts, q1 + 1) {
        Err(s) => return Err(s),
        Ok(x) => x,
    };
    match block(em, ts, q2) {
        Err(s) => Err(s),
        Ok((body, q3)) => Ok((Ast::Function { name, params, body: Box::new(body) }, q3)),
    }
}

/// Reads the `;` that ends the statement `stmt`, whose expression stops at
/// `q`; `at_end` is the error where the tokens end there.
fn semicolon(ts: &Vec<Token>, q: usize, stmt: Ast, at_end: ParseStop) -> (r: Result<
    (Ast, usize),
    ParseStop,
>)
    requires
        q <= ts.len(),
    ensures
        ast_outcome(r) == spec_semicolon(tokens_view(ts@), q as int, stmt.sv(), at_end.sv()),
        r matches Ok((_, q2)) ==> q < q2 <= ts.len(),
{
    if q >= ts.len() {
        Err(at_end)
    } else if ts[q].lexeme.kind() == LexKind::SemiColon {
        Ok((stmt, q + 1))
    } else {
        Err(missing_token(Lexeme::SemiColon, &ts[q]))
    }
}

/// Parses a variable declaration from its `var` token.
fn var_decl(ts: &Vec<Token>, p: usize) -> (r: Result<(Ast, usize), ParseStop>)
    requires
        p < ts.len(),
    ensures
        ast_outcome(r) == spec_var_decl(tokens_view(ts@), p as int),
        r matches Ok((_, q)) ==> p < q <= ts.len(),
{
    if p + 1 >= ts.len() {
        return Err(eof_stop());
    }
    if ts[p + 1].lexeme.kind() != LexKind::Identifier {
        return Err(ParseStop::Abort);
    }
    let name = ts[p + 1].duplicate();
    let (initializer, q) = if is_at(ts, p + 2, LexKind::Eq) {
        match expression(ts, p + 3) {
            Err(s) => return Err(s),
            Ok((e, q)) => (Some(Box::new(e)), q),
        }
    } else {
        (None, p + 2)
    };
    semicolon(ts, q, Ast::Variable { name, initializer }, eof_stop())
}

/// Parses a statement.
fn statement(em: bool, ts: &Vec<Token>, p: usize) -> (r: Result<(Ast, usize), ParseStop>)
    requires
        p <= ts.len(),
    ensures
        ast_outcome(r) == spec_statement(em, tokens_view(ts@), p as int),
        r matches Ok((_, q)) ==> p < q <= ts.len(),
    decreases ts.len() - p, 16int,
{
    if p >= ts.len() {
        return Err(eof_stop());
    }
    let k = ts[p].lexeme.kind();
    if k == LexKind::LeftBrace {
        block(em, ts, p)
    } else if k == LexKind::For {
        for_stmt(em, ts, p)
    } else if k == LexKind::If {
        if_stmt(em, ts, p)
    } else if k == LexKind::Print {
        print_stmt(ts, p)
    } else if k == LexKind::Return {
        return_stmt(ts, p)
    } else if k == LexKind::While {
        while_stmt(em, ts, p)
    } else {
        expression_statement(ts, p)
    }
}

/// Parses a block from its opening brace.
fn block(em: bool, ts: &Vec<Token>, p: usize) -> (r: Result<(Ast, usize), ParseStop>)
    requires
        p <= ts.len(),
    ensures
        ast_outcome(r) == spec_block(em, tokens_view(ts@), p as int),
        r matches Ok((_, q)) ==> p < q <= ts.len(),
    decreases ts.len() - p, 15int,
{
    if p >= ts.len() {
        return Err(ParseStop::Abort);
    }
    if ts[p].lexeme.kind() != LexKind::LeftBrace {
        return Err(missing_token(Lexeme::LeftBrace, &ts[p]));
    }
    block_items(em, ts, p + 1)
}

/// Parses the declarations of a block up to and with its closing brace.
fn block_items(em: bool, ts: &Vec<Token>, q0: usize) -> (r: Result<(Ast, usize), ParseStop>)
    requires
        q0 <= ts.len(),
    ensures
        ast_outcome(r) == spec_block_items(em, tokens_view(ts@), q0 as int, Seq::empty()),
        r matches Ok((_, q)) ==> q0 < q <= ts.len(),
    decreases ts.len() - q0, 21int,
{
    let ghost tsv = tokens_view(ts@);
    let mut stmts: Vec<Ast> = Vec::new();
    let mut q = q0;
    proof {
        assert(asts_view(stmts@) =~= Seq::<SAst>::empty());
    }
    loop
        invariant
            q0 <= q <= ts.len(),
            tsv == tokens_view(ts@),
            spec_block_items(em, tsv, q0 as int, Seq::empty()) == spec_block_items(
                em,
                tsv,
                q as int,
                asts_view(stmts@),
            ),
        decreases ts.len() - q,
    {
        if q >= ts.len() {
            return Err(ParseStop::Abort);
        }
        if ts[q].lexeme.kind() == LexKind::RightBrace {
            proof {
                lemma_block_view(stmts);
            }
            return Ok((Ast::Block(stmts), q + 1));
        }
        let (a, r) = match declaration(em, ts, q) {
            Err(s) => return Err(s),
            Ok(x) => x,
        };
        let ghost before = stmts@;
        stmts.push(a);
        proof {
            assert(asts_view(stmts@) =~= asts_view(before).push(a.sv()));
        }
        q = r;
    }
}

/// Parses the initializer clause of a `for` loop.
fn for_init(ts: &Vec<Token>, q: usize) -> (r: Result<(Option<Ast>, usize), ParseStop>)
    requires
        q <= ts.len(),
    ensures
        (match r {
            Ok((a, q2)) => Ok((opt_ast_sv(a), q2 as int)),
            Err(s) => Err(s.sv()),
        }) == spec_for_init(tokens_view(ts@), q as int),
        r matches Ok((_, q2)) ==> q < q2 <= ts.len(),
{
    if q >= ts.len() {
        return Err(eof_stop());
    }
    let k = ts[q].lexeme.kind();
    if k == LexKind::SemiColon {
        return Ok((None, q + 1));
    }
    let r = if k == LexKind::Var {
        var_decl(ts, q)
    } else {
        expression_statement(ts, q)
    };
    match r {
        Err(ParseStop::Error(e)) => Err(
            ParseStop::Error(
                ParseError::ExpectedExpressionError { token: ts[q].duplicate(), source: Box::new(e) },
            ),
        ),
        Err(ParseStop::Abort) => Err(ParseStop::Abort),
        Ok((a, q2)) => Ok((Some(a), q2)),
    }
}

/// Parses the condition clause of a `for` loop, with its `;`.
fn for_cond(ts: &Vec<Token>, q: usize) -> (r: Result<(AstExpr, usize), ParseStop>)
    requires
        q <= ts.len(),
    ensures
        expr_outcome(r) == spec_for_cond(tokens_view(ts@), q as int),
        r matches Ok((_, q2)) ==> q < q2 <= ts.len(),
{
    if is_at(ts, q, LexKind::SemiColon) {
        let t = Token::new(Lexeme::True, Span::from_triple((0, 0, 0)));
        return Ok((AstExpr::Terminal(t), q + 1));
    }
    if q >= ts.len() {
        return Err(ParseStop::Abort);
    }
    match expression(ts, q) {
        Err(ParseStop::Error(e)) => Err(
            ParseStop::Error(
                ParseError::ExpectedExpressionError { token: ts[q].duplicate(), source: Box::new(e) },
            ),
        ),
        Err(ParseStop::Abort) => Err(ParseStop::Abort),
        Ok((c, q2)) => {
            if is_at(ts, q2, LexKind::SemiColon) {
                Ok((c, q2 + 1))
            } else {
                Err(ParseStop::Abort)
            }
        },
    }
}

/// Parses the increment clause of a `for` loop, with its `)`.
fn for_incr(ts: &Vec<Token>, q: usize) -> (r: Result<(Option<AstExpr>, usize), ParseStop>)
    requires
        q <= ts.len(),
    ensures
        (match r {
            Ok((i, q2)) => Ok((opt_expr_sv(i), q2 as int)),
            Err(s) => Err(s.sv()),
        }) == spec_for_incr(tokens_view(ts@), q as int),
        r matches Ok((_, q2)) ==> q < q2 <= ts.len(),
{
    if is_at(ts, q, LexKind::RightParen) {
        return Ok((None, q + 1));
    }
    if q >= ts.len() {
        return Err(ParseStop::Abort);
    }
    match expression(ts, q) {
        Err(ParseStop::Error(e)) => Err(
            ParseStop::Error(
                ParseError::ExpectedExpressionError { token: ts[q].duplicate(), source: Box::new(e) },
            ),
        ),
        Err(ParseStop::Abort) => Err(ParseStop::Abort),
        Ok((i, q2)) => {
            if is_at(ts, q2, LexKind::RightParen) {
                Ok((Some(i), q2 + 1))
            } else {
                Err(ParseStop::Abort)
            }
        },
    }
}

/// Parses the body of a `for` loop.
fn for_body(em: bool, ts: &Vec<Token>, q: usize) -> (r: Result<(Ast, usize), ParseStop>)
    requires
        q <= ts.len(),
    ensures
        ast_outcome(r) == spec_for_body(em, tokens_view(ts@), q as int),
        r matches Ok((_, q2)) ==> q < q2 <= ts.len(),
    decreases ts.len() - q, 17int,
{
    if is_at(ts, q, LexKind::LeftBrace) {
        block(em, ts, q)
    } else {
        statement(em, ts, q)
    }
}

/// The `while` loop that a `for` loop with these clauses and body stands
/// for.
fn desugar(init: Option<Ast>, cond: AstExpr, incr: Option<AstExpr>, b: Ast) -> (res: Ast)
    ensures
        res.sv() == desugar_for(opt_ast_sv(init), cond.sv(), opt_expr_sv(incr), b.sv()),
{
    let ghost init_v = opt_ast_sv(init);
    let ghost incr_v = opt_expr_sv(incr);
    let ghost b_v = b.sv();
    let ghost cond_v = cond.sv();
    let body2 = match incr {
        Some(i) => {
            let v = vec![b, Ast::Expression(i)];
            proof {
                lemma_block_view(v);
                assert(asts_view(v@) =~= seq![b_v, SAst::Expression(incr_v->0)]);
            }
            Ast::Block(v)
        },
        None => b,
    };
    let ghost body2_v = body2.sv();
    let wst = AstStmt::While(Box::new(cond), Box::new(body2));
    proof {
        lemma_statement_view(wst);
    }
    let w = Ast::Statement(wst);
    let ghost w_v = w.sv();
    let res = match init {
        Some(a) => {
            let v = vec![a, w];
            proof {
                lemma_block_view(v);
                assert(asts_view(v@) =~= seq![init_v->0, w_v]);
            }
            Ast::Block(v)
        },
        None => w,
    };
    proof {
        assert(res.sv() == desugar_for(init_v, cond_v, incr_v, b_v));
    }
    res
}

/// Parses a `for` loop from its `for` token, into the `while` loop it
/// stands for.
fn for_stmt(em: bool, ts: &Vec<Token>, p: usize) -> (r: Result<(Ast, usize), ParseStop>)
    requires
        p < ts.len(),
    ensures
        ast_outcome(r) == spec_for(em, tokens_view(ts@), p as int),
        r matches Ok((_, q)) ==> p < q <= ts.len(),
    decreases ts.len() - p, 14int,
{
    if !is_at(ts, p + 1, LexKind::LeftParen) {
        return Err(ParseStop::Abort);
    }
    let (init, q2) = match for_init(ts, p + 2) {
        Err(s) => return Err(s),
        Ok(x) => x,
    };
    let (cond, q3) = match for_cond(ts, q2) {
        Err(s) => return Err(s),
        Ok(x) => x,
    };
    let (incr, q4) = match for_incr(ts, q3) {
        Err(s) => return Err(s),
        Ok(x) => x,
    };
    let (b, q5) = match for_body(em, ts, q4) {
        Err(s) => return Err(s),
        Ok(x) => x,
    };
    let res = desugar(init, cond, incr, b);
    Ok((res, q5))
}

/// Parses an `if` statement from its `if` token.
fn if_stmt(em: bool, ts: &Vec<Token>, p: usize) -> (r: Result<(Ast, usize), ParseStop>)
    requires
        p < ts.len(),
    ensures
        ast_outcome(r) == spec_if(em, tokens_view(ts@), p as int),
        r matches Ok((_, q)) ==> p < q <= ts.len(),
    decreases ts.len() - p, 14int,
{
    let (c, q) = match expression(ts, p + 1) {
        Err(s) => return Err(s),
        Ok(x) => x,
    };
    let (th, q2) = match statement(em, ts, q) {
        Err(s) => return Err(s),
        Ok(x) => x,
    };
    if is_at(ts, q2, LexKind::Else) {
        match statement(em, ts, q2 + 1) {
            Err(s) => Err(s),
            Ok((el, q3)) => {
                let stmt = AstStmt::If {
                    condition: Box::new(c),
                    then: Box::new(th),
                    or_else: Some(Box::new(el)),
                };
                proof {
                    lemma_statement_view(stmt);
                }
                Ok((Ast::Statement(stmt), q3))
            },
        }
    } else {
        let stmt = AstStmt::If { condition: Box::new(c), then: Box::new(th), or_else: None };
        proof {
            lemma_statement_view(stmt);
        }
        Ok((Ast::Statement(stmt), q2))
    }
}

/// Parses a `while` statement from its `while` token.
fn while_stmt(em: bool, ts: &Vec<Token>, p: usize) -> (r: Result<(Ast, usize), ParseStop>)
    requires
        p < ts.len(),
    ensures
        ast_outcome(r) == spec_while(em, tokens_view(ts@), p as int),
        r matches Ok((_, q)) ==> p < q <= ts.len(),
    decreases ts.len() - p, 14int,
{
    let (c, q) = match expression(ts, p + 1) {
        Err(s) => return Err(s),
        Ok(x) => x,
    };
    match statement(em, ts, q) {
        Err(s) => Err(s),
        Ok((b, q2)) => {
            let stmt = AstStmt::While(Box::new(c), Box::new(b));
            proof {
                lemma_statement_view(stmt);
            }
            Ok((Ast::Statement(stmt), q2))
        },
    }
}

/// Parses a `print` statement from its `print` token.
fn print_stmt(ts: &Vec<Token>, p: usize) -> (r: Result<(Ast, usize), ParseStop>)
    requires
        p < ts.len(),
    ensures
        ast_outcome(r) == spec_print(tokens_view(ts@), p as int),
        r matches Ok((_, q)) ==> p < q <= ts.len(),
{
    match expression(ts, p + 1) {
        Err(s) => Err(s),
        Ok((e, q)) => {
            let stmt = AstStmt::Print(e);
            proof {
                lemma_statement_view(stmt);
            }
            semicolon(ts, q, Ast::Statement(stmt), eof_stop())
        },
    }
}

/// Whether a token of kind `k` starts a statement that cannot be the value
/// of a `return`.
fn starts_statement_kind(k: LexKind) -> (r: bool)
    ensures
        r == starts_statement(k),
{
    k == LexKind::LeftBrace || k == LexKind::For || k == LexKind::While || k == LexKind::If || k
        == LexKind::Print || k == LexKind::Return
}

/// The error for a `;` missing at the end of the tokens.
fn semicolon_at_end_stop() -> (s: ParseStop)
    ensures
        s.sv() == semicolon_at_end(),
{
    ParseStop::Error(
        ParseError::MissingToken { expected: Lexeme::Eof, actual: Lexeme::SemiColon, line: 0 },
    )
}

/// Parses a `return` statement from its `return` token.
fn return_stmt(ts: &Vec<Token>, p: usize) -> (r: Result<(Ast, usize), ParseStop>)
    requires
        p < ts.len(),
    ensures
        ast_outcome(r) == spec_return(tokens_view(ts@), p as int),
        r matches Ok((_, q)) ==> p < q <= ts.len(),
{
    if is_at(ts, p + 1, LexKind::SemiColon) {
        let stmt = AstStmt::Return(None);
        proof {
            lemma_statement_view(stmt);
        }
        return Ok((Ast::Statement(stmt), p + 2));
    }
    if p + 1 < ts.len() && !starts_statement_kind(ts[p + 1].lexeme.kind()) {
        match expression(ts, p + 1) {
            Err(s) => Err(s),
            Ok((e, q)) => {
                let stmt = AstStmt::Return(Some(Box::new(e)));
                proof {
                    lemma_statement_view(stmt);
                }
                semicolon(ts, q, Ast::Statement(stmt), semicolon_at_end_stop())
            },
        }
    } else {
        Err(missing_token(Lexeme::SemiColon, &ts[p]))
    }
}

/// Parses an expression statement.
fn expression_statement(ts: &Vec<Token>, p: usize) -> (r: Result<(Ast, usize), ParseStop>)
    requires
        p <= ts.len(),
    ensures
        ast_outcome(r) == spec_expression_statement(tokens_view(ts@), p as int),
        r matches Ok((_, q)) ==> p < q <= ts.len(),
{
    match expression(ts, p) {
        Err(s) => Err(s),
        Ok((e, q)) => {
            let stmt = AstStmt::Expression(e);
            proof {
                lemma_statement_view(stmt);
            }
            semicolon(ts, q, Ast::Statement(stmt), semicolon_at_end_stop())
        },
    }
}

/// Declarations that parsing gave can be printed.
proof fn lemma_parsed_printable(v: Vec<Ast>, em: bool, source: Seq<char>)
    requires
        Ok::<Seq<SAst>, SStop>(asts_view(v@)) == spec_parse(em, source),
    ensures
        forall|i: int| 0 <= i < v.len() ==> ast_printable(#[trigger] v@[i].sv()),
{
    let parsed = asts_view(v@);
    law_parse_printable(em, source, parsed);
    assert forall|i: int| 0 <= i < v.len() implies ast_printable(#[trigger] v@[i].sv()) by {
        assert(parsed[i] == v@[i].sv());
    }
}

/// What parsing the source `source` gives in expression mode `em`: the
/// declarations, or why parsing stopped. Where the scanner gives up, so
/// does the parser; where it meets characters it cannot read, parsing
/// fails with an unexpected end of input.
pub open spec fn spec_parse(em: bool, source: Seq<char>) -> Result<Seq<SAst>, SStop> {
    let scanned = spec_scan(source);
    if scanned.aborted {
        Err(SStop::Abort)
    } else if scanned.errors.len() > 0 {
        Err(eof_error())
    } else {
        spec_parse_tokens(em, scanned.tokens)
    }
}

/// Parsing gives up on the source `source` in expression mode `em`.
pub open spec fn parse_gives_up(em: bool, source: Seq<char>) -> bool {
    spec_parse(em, source) == Err::<Seq<SAst>, SStop>(SStop::Abort)
}

/// A parser of a Lox source. In expression mode a bare expression may
/// stand where a statement would; `print_ast` and `pretty_print` say how
/// the caller should list the tree it gets.
pub struct Parser<'parser> {
    pub source: &'parser str,
    pub expression_mode: bool,
    pub pretty_print: bool,
    pub print_ast: bool,
}

/// Builds a `Parser`; each setting left unset takes its default:
/// expression mode on, pretty printing off, printing of the tree on.
#[derive(Clone)]
pub struct ParserBuilder<'parser> {
    pub source: &'parser str,
    pub expression_mode: Option<bool>,
    pub pretty_print: Option<bool>,
    pub print_ast: Option<bool>,
}

impl<'parser> Default for ParserBuilder<'parser> {
    /// A builder of a parser of the empty source, with nothing set.
    fn default() -> (b: Self)
        ensures
            b.source@ == Seq::<char>::empty(),
            b.expression_mode is None,
            b.pretty_print is None,
            b.print_ast is None,
    {
        proof {
            reveal_strlit("");
        }
        ParserBuilder { source: "", expression_mode: None, pretty_print: None, print_ast: None }
    }
}

/// The value of an optional setting, or its default.
pub open spec fn setting(o: Option<bool>, default: bool) -> bool {
    match o {
        Some(v) => v,
        None => default,
    }
}

impl<'parser> ParserBuilder<'parser> {
    /// A builder of a parser of `source`, with nothing set.
    pub fn new(source: &'parser str) -> (b: Self)
        ensures
            b.source == source,
            b.expression_mode is None,
            b.pretty_print is None,
            b.print_ast is None,
    {
        ParserBuilder { source, expression_mode: None, pretty_print: None, print_ast: None }
    }

    /// Sets expression mode.
    pub fn expression_mode(&mut self, expression_mode: bool) -> (r: &mut Self)
        ensures
            r.source == old(self).source,
            r.expression_mode == Some(expression_mode),
            r.pretty_print == old(self).pretty_print,
            r.print_ast == old(self).print_ast,
            *final(self) == *final(r),
    {
        self.expression_mode = Some(expression_mode);
        self
    }

    /// Sets pretty printing of the tree.
    pub fn pretty_print(&mut self, pretty_print: bool) -> (r: &mut Self)
        ensures
            r.source == old(self).source,
            r.expression_mode == old(self).expression_mode,
            r.pretty_print == Some(pretty_print),
            r.print_ast == old(self).print_ast,
            *final(self) == *final(r),
    {
        self.pretty_print = Some(pretty_print);
        self
    }

    /// Sets printing of the tree.
    pub fn print_ast(&mut self, print_ast: bool) -> (r: &mut Self)
        ensures
            r.source == old(self).source,
            r.expression_mode == old(self).expression_mode,
            r.pretty_print == old(self).pretty_print,
            r.print_ast == Some(print_ast),
            *final(self) == *final(r),
    {
        self.print_ast = Some(print_ast);
        self
    }

    /// The parser with the settings made, and the defaults for the others.
    pub fn build(&self) -> (p: Parser<'parser>)
        ensures
            p.source == self.source,
            p.expression_mode == setting(self.expression_mode, true),
            p.pretty_print == setting(self.pretty_print, false),
            p.print_ast == setting(self.print_ast, true),
    {
        let expression_mode = match self.expression_mode {
            Some(v) => v,
            None => true,
        };
        let pretty_print = match self.pretty_print {
            Some(v) => v,
            None => false,
        };
        let print_ast = match self.print_ast {
            Some(v) => v,
            None => true,
        };
        Parser { source: self.source, expression_mode, pretty_print, print_ast }
    }
}

impl<'parser> Parser<'parser> {
    /// A parser of `source`, without pretty printing.
    pub fn new(source: &'parser str, expression_mode: bool, print_ast: bool) -> (p: Self)
        ensures
            p.source == source,
            p.expression_mode == expression_mode,
            p.print_ast == print_ast,
            !p.pretty_print,
    {
        Parser { source, expression_mode, print_ast, pretty_print: false }
    }

    /// Scans and parses the source.
    fn scan_and_parse(&self) -> (r: Result<Vec<Ast>, ParseStop>)
        requires
            source_fits(self.source),
        ensures
            (match r {
                Ok(v) => Ok(asts_view(v@)),
                Err(s) => Err(s.sv()),
            }) == spec_parse(self.expression_mode, self.source@),
    {
        let scanner = Scanner::new(self.source, false);
        let report = scanner.scan_report();
        if report.aborted {
            return Err(ParseStop::Abort);
        }
        if report.errors.len() > 0 {
            return Err(eof_stop());
        }
        let tokens = report.tokens;
        if tokens.len() == 0 {
            let v: Vec<Ast> = Vec::new();
            proof {
                assert(asts_view(v@) =~= Seq::<SAst>::empty());
            }
            return Ok(v);
        }
        match program(self.expression_mode, &tokens) {
            Err(s) => Err(s),
            Ok((v, _)) => Ok(v),
        }
    }

    /// Parses the source: the declarations, an error, or `Abort` where the
    /// parser gives up on the input. Every declaration it gives can be
    /// printed.
    pub fn parse_outcome(&self) -> (r: Result<Vec<Ast>, ParseStop>)
        requires
            source_fits(self.source),
        ensures
            (match r {
                Ok(v) => Ok(asts_view(v@)),
                Err(s) => Err(s.sv()),
            }) == spec_parse(self.expression_mode, self.source@),
            r matches Ok(v) ==> forall|i: int| 0 <= i < v.len() ==> ast_printable(#[trigger] v@[i].sv()),
    {
        let r = self.scan_and_parse();
        proof {
            if r is Ok {
                lemma_parsed_printable(r->Ok_0, self.expression_mode, self.source@);
            }
        }
        r
    }

    /// Parses the source into its declarations, or the first error met.
    /// The inputs on which the parser gives up are left out.
    pub fn parse(&self) -> (r: Result<Vec<Ast>, ParseError>)
        requires
            source_fits(self.source),
            !parse_gives_up(self.expression_mode, self.source@),
        ensures
            (match r {
                Ok(v) => Ok(asts_view(v@)),
                Err(e) => Err(SStop::Error(e.sv())),
            }) == spec_parse(self.expression_mode, self.source@),
            r matches Ok(v) ==> forall|i: int| 0 <= i < v.len() ==> ast_printable(#[trigger] v@[i].sv()),
    {
        match self.parse_outcome() {
            Ok(v) => Ok(v),
            Err(ParseStop::Error(e)) => Err(e),
            Err(ParseStop::Abort) => Err(ParseError::UnexpectedEof),
        }
    }
}

} // verus!
