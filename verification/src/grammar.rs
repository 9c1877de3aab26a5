//! The Lox grammar as spec functions over the token sequence.
//!
//! Each function reads the tokens from position `p` on and gives either the
//! tree it recognised together with the position after it, or why it
//! stopped: a parse error, or a point where the parser gives up. Every
//! recognised construct ends after the position it started at (the
//! parser's functions state it of each result); the checks of that in the
//! definitions (`within`, `beyond`) make the recursion visibly well founded
//! and never fail on a result.
use crate::ast::{SAst, SExpr, SParseError, SStmt};
use crate::model::{kind_label, LexKind, LexemeView, TokenView};
use crate::span::Span;
use vstd::prelude::*;

verus! {

/// Why parsing stopped without a result: an error in the input, or a point
/// at which the parser gives up on it.
pub ghost enum SStop {
    Error(SParseError),
    Abort,
}

/// What a parse of an expression yields.
pub type ExprOutcome = Result<(SExpr, int), SStop>;

/// What a parse of a declaration or statement yields.
pub type AstOutcome = Result<(SAst, int), SStop>;

/// The token at position `p`, if there is one.
pub open spec fn peek(ts: Seq<TokenView>, p: int) -> Option<TokenView> {
    if 0 <= p < ts.len() {
        Some(ts[p])
    } else {
        None
    }
}

/// The token at position `p` exists and has kind `k`.
pub open spec fn at(ts: Seq<TokenView>, p: int, k: LexKind) -> bool {
    0 <= p < ts.len() && ts[p].kind == k
}

/// `q` lies between `p` and the end of the tokens.
pub open spec fn within(ts: Seq<TokenView>, p: int, q: int) -> bool {
    p <= q <= ts.len()
}

/// `q` lies after `p` and no further than the end of the tokens.
pub open spec fn beyond(ts: Seq<TokenView>, p: int, q: int) -> bool {
    p < q <= ts.len()
}

/// The lexeme of a token.
pub open spec fn lexeme_of(t: TokenView) -> LexemeView {
    LexemeView { kind: t.kind, text: t.text }
}

/// The lexeme of a kind that carries no text.
pub open spec fn bare(k: LexKind) -> LexemeView {
    LexemeView { kind: k, text: Seq::empty() }
}

/// The error for a token found where a lexeme was expected.
pub open spec fn missing(expected: LexemeView, t: TokenView) -> SStop {
    SStop::Error(SParseError::MissingToken { expected, actual: lexeme_of(t), line: t.span.line as int })
}

/// The error for input that ends too early.
pub open spec fn eof_error() -> SStop {
    SStop::Error(SParseError::UnexpectedEof)
}

/// The error for a statement whose closing `;` is missing at the end of the
/// tokens; it names `eof` as expected and `;` as found, on line 0.
pub open spec fn semicolon_at_end() -> SStop {
    SStop::Error(
        SParseError::MissingToken {
            expected: bare(LexKind::Eof),
            actual: bare(LexKind::SemiColon),
            line: 0,
        },
    )
}

/// A stop inside a `for` clause that starts at token `t`: an error is
/// wrapped as an expected expression at `t`.
pub open spec fn in_clause(t: TokenView, s: SStop) -> SStop {
    match s {
        SStop::Error(e) => SStop::Error(SParseError::ExpectedExpressionError { token: t, source: Box::new(e) }),
        SStop::Abort => SStop::Abort,
    }
}

/// The operators of each binary precedence level: equality (0),
/// comparison (1), term (2) and factor (3).
pub open spec fn binary_op(level: int, k: LexKind) -> bool {
    if level == 0 {
        k == LexKind::BangEq || k == LexKind::EqEq
    } else if level == 1 {
        k == LexKind::Greater || k == LexKind::GreaterEq || k == LexKind::Less || k == LexKind::LessEq
    } else if level == 2 {
        k == LexKind::Plus || k == LexKind::Minus
    } else {
        k == LexKind::Star || k == LexKind::Slash
    }
}

/// The operator of each logical level: `or` (true) and `and` (false).
pub open spec fn logical_op(is_or: bool) -> LexKind {
    if is_or {
        LexKind::Or
    } else {
        LexKind::And
    }
}

/// The most arguments a call may have, plus one.
pub open spec fn max_args() -> int {
    255
}

/// expression → assignment
pub open spec fn spec_expression(ts: Seq<TokenView>, p: int) -> ExprOutcome
    decreases ts.len() - p, 12int,
{
    spec_assignment(ts, p)
}

/// assignment → logic_or ( "=" assignment )? ; the assigned name is the
/// text of the first token when it is an identifier, else its kind's label.
pub open spec fn spec_assignment(ts: Seq<TokenView>, p: int) -> ExprOutcome
    decreases ts.len() - p, 11int,
{
    match peek(ts, p) {
        None => Err(eof_error()),
        Some(t) => {
            let id = if t.kind == LexKind::Identifier {
                t.text
            } else {
                kind_label(t.kind)
            };
            match spec_logical(ts, p, true) {
                Err(s) => Err(s),
                Ok((left, q)) => {
                    if !within(ts, p, q) {
                        Err(SStop::Abort)
                    } else if at(ts, q, LexKind::Eq) {
                        match spec_assignment(ts, q + 1) {
                            Err(s) => Err(s),
                            Ok((rv, r)) => Ok((SExpr::Assignment { id, expr: Box::new(rv) }, r)),
                        }
                    } else {
                        Ok((left, q))
                    }
                },
            }
        },
    }
}

/// logic_or → logic_and ( "or" logic_and )* ; and
/// logic_and → equality ( "and" equality )*
pub open spec fn spec_logical(ts: Seq<TokenView>, p: int, is_or: bool) -> ExprOutcome
    decreases ts.len() - p, if is_or { 10int } else { 9int },
{
    let first = if is_or {
        spec_logical(ts, p, false)
    } else {
        spec_binary(ts, p, 0)
    };
    match first {
        Err(s) => Err(s),
        Ok((left, q)) => {
            if !within(ts, p, q) {
                Err(SStop::Abort)
            } else {
                spec_logical_rest(ts, q, is_or, left)
            }
        },
    }
}

/// The repeated part of a logical level, after the operand `acc`.
pub open spec fn spec_logical_rest(ts: Seq<TokenView>, q: int, is_or: bool, acc: SExpr) -> ExprOutcome
    decreases ts.len() - q, 0int,
{
    if at(ts, q, logical_op(is_or)) {
        let right = if is_or {
            spec_logical(ts, q + 1, false)
        } else {
            spec_binary(ts, q + 1, 0)
        };
        match right {
            Err(s) => Err(s),
            Ok((r, q2)) => {
                if !within(ts, q + 1, q2) {
                    Err(SStop::Abort)
                } else {
                    spec_logical_rest(
                        ts,
                        q2,
                        is_or,
                        SExpr::Logical { op: ts[q], left: Box::new(acc), right: Box::new(r) },
                    )
                }
            },
        }
    } else {
        Ok((acc, q))
    }
}

/// The operand of a binary level: the next level, or unary below factor.
pub open spec fn spec_operand(ts: Seq<TokenView>, p: int, level: int) -> ExprOutcome
    decreases ts.len() - p, 8int,
{
    if 0 <= level < 3 {
        spec_binary(ts, p, level + 1)
    } else {
        spec_unary(ts, p)
    }
}

/// equality → comparison ( ( "!=" | "==" ) comparison )* ;
/// comparison → term ( ( ">" | ">=" | "<" | "<=" ) term )* ;
/// term → factor ( ( "-" | "+" ) factor )* ;
/// factor → unary ( ( "/" | "*" ) unary )*
pub open spec fn spec_binary(ts: Seq<TokenView>, p: int, level: int) -> ExprOutcome
    decreases ts.len() - p, if 0 <= level < 3 { 8 - level } else { 5int },
{
    let first = if 0 <= level < 3 {
        spec_binary(ts, p, level + 1)
    } else {
        spec_unary(ts, p)
    };
    match first {
        Err(s) => Err(s),
        Ok((left, q)) => {
            if !within(ts, p, q) {
                Err(SStop::Abort)
            } else {
                spec_binary_rest(ts, q, level, left)
            }
        },
    }
}

/// The repeated part of a binary level, after the operand `acc`.
pub open spec fn spec_binary_rest(ts: Seq<TokenView>, q: int, level: int, acc: SExpr) -> ExprOutcome
    decreases ts.len() - q, 0int,
{
    if 0 <= q < ts.len() && binary_op(level, ts[q].kind) {
        match spec_operand(ts, q + 1, level) {
            Err(s) => Err(s),
            Ok((r, q2)) => {
                if !within(ts, q + 1, q2) {
                    Err(SStop::Abort)
                } else {
                    spec_binary_rest(
                        ts,
                        q2,
                        level,
                        SExpr::Binary { op: ts[q], left: Box::new(acc), right: Box::new(r) },
                    )
                }
            },
        }
    } else {
        Ok((acc, q))
    }
}

/// unary → ( "!" | "-" ) unary | call
pub open spec fn spec_unary(ts: Seq<TokenView>, p: int) -> ExprOutcome
    decreases ts.len() - p, 4int,
{
    if at(ts, p, LexKind::Minus) || at(ts, p, LexKind::Bang) {
        match spec_unary(ts, p + 1) {
            Err(s) => Err(s),
            Ok((e, q)) => Ok((SExpr::Unary { op: ts[p], exp: Box::new(e) }, q)),
        }
    } else {
        spec_call(ts, p)
    }
}

/// call → primary ( "(" arguments? ")" )? where the primary is an
/// identifier; any other primary stands alone.
pub open spec fn spec_call(ts: Seq<TokenView>, p: int) -> ExprOutcome
    decreases ts.len() - p, 3int,
{
    match spec_primary(ts, p) {
        Err(s) => Err(s),
        Ok((e, q)) => {
            if !within(ts, p, q) {
                Err(SStop::Abort)
            } else {
                match e {
                    SExpr::Terminal(t) => {
                        if t.kind == LexKind::Identifier && at(ts, q, LexKind::LeftParen) {
                            spec_arguments(ts, q + 1, t, Seq::empty())
                        } else {
                            Ok((e, q))
                        }
                    },
                    _ => Ok((e, q)),
                }
            }
        },
    }
}

/// The arguments of a call of `callee` from position `q` on, after the
/// arguments `args` already read: expressions, each optionally followed by
/// a comma, up to the closing parenthesis, whose span is the call's site.
/// Where the tokens run out first, the callee alone is the result.
pub open spec fn spec_arguments(ts: Seq<TokenView>, q: int, callee: TokenView, args: Seq<SExpr>) -> ExprOutcome
    decreases ts.len() - q, 13int,
{
    match peek(ts, q) {
        None => Ok((SExpr::Terminal(callee), q)),
        Some(t) => {
            if t.kind == LexKind::RightParen {
                Ok((SExpr::Call { func: callee.text, args, site: t.span }, q + 1))
            } else {
                match spec_expression(ts, q) {
                    Err(s) => Err(s),
                    Ok((a, r)) => {
                        let args2 = args.push(a);
                        if args2.len() >= max_args() {
                            Err(SStop::Error(SParseError::TooManyFunctionArgs(t.span.line as int)))
                        } else {
                            let r2 = if at(ts, r, LexKind::Comma) {
                                r + 1
                            } else {
                                r
                            };
                            if !beyond(ts, q, r2) {
                                Err(SStop::Abort)
                            } else {
                                spec_arguments(ts, r2, callee, args2)
                            }
                        }
                    },
                }
            }
        },
    }
}

/// primary → "true" | "false" | "nil" | NUMBER | STRING | IDENTIFIER
///         | "(" expression ")"
pub open spec fn spec_primary(ts: Seq<TokenView>, p: int) -> ExprOutcome
    decreases ts.len() - p, 2int,
{
    match peek(ts, p) {
        None => Err(SStop::Abort),
        Some(t) => {
            if t.kind == LexKind::True || t.kind == LexKind::False || t.kind == LexKind::Nil {
                Ok((SExpr::Terminal(t), p + 1))
            } else if t.kind == LexKind::LeftParen {
                match spec_expression(ts, p + 1) {
                    Err(s) => Err(s),
                    Ok((e, q)) => match peek(ts, q) {
                        None => Err(eof_error()),
                        Some(u) => {
                            if u.kind == LexKind::RightParen {
                                Ok((SExpr::Group(Box::new(e)), q + 1))
                            } else {
                                Err(
                                    SStop::Error(
                                        SParseError::MissingToken {
                                            expected: lexeme_of(u),
                                            actual: bare(LexKind::RightParen),
                                            line: 0,
                                        },
                                    ),
                                )
                            }
                        },
                    },
                }
            } else if t.kind == LexKind::Number || t.kind == LexKind::String || t.kind
                == LexKind::Identifier {
                Ok((SExpr::Terminal(t), p + 1))
            } else {
                Err(SStop::Error(SParseError::UnexpectedToken { actual: t }))
            }
        },
    }
}

/// What a parse of a sequence of declarations yields.
pub type AstsOutcome = Result<(Seq<SAst>, int), SStop>;

/// program → declaration* EOF ; the declarations `acc` were read before
/// position `p`.
pub open spec fn spec_program(em: bool, ts: Seq<TokenView>, p: int, acc: Seq<SAst>) -> AstsOutcome
    decreases ts.len() - p, 20int,
{
    match peek(ts, p) {
        None => Ok((acc, p)),
        Some(t) => {
            if t.kind == LexKind::Eof {
                Ok((acc, p))
            } else {
                match spec_declaration(em, ts, p) {
                    Err(s) => Err(s),
                    Ok((a, q)) => {
                        if !beyond(ts, p, q) {
                            Err(SStop::Abort)
                        } else {
                            spec_program(em, ts, q, acc.push(a))
                        }
                    },
                }
            }
        },
    }
}

/// declaration → funDecl | varDecl | statement ; in expression mode a bare
/// expression takes the place of a statement. Class declarations are not
/// supported: the parser gives up on them.
pub open spec fn spec_declaration(em: bool, ts: Seq<TokenView>, p: int) -> AstOutcome
    decreases ts.len() - p, 19int,
{
    match peek(ts, p) {
        None => Err(eof_error()),
        Some(t) => {
            if t.kind == LexKind::Class {
                Err(SStop::Abort)
            } else if t.kind == LexKind::Fun {
                spec_fun_decl(em, ts, p)
            } else if t.kind == LexKind::Var {
                spec_var_decl(ts, p)
            } else if em {
                match spec_expression(ts, p) {
                    Err(s) => Err(s),
                    Ok((e, q)) => Ok((SAst::Expression(e), q)),
                }
            } else {
                spec_statement(em, ts, p)
            }
        },
    }
}

/// The name of a function, an identifier.
pub open spec fn spec_fun_name(ts: Seq<TokenView>, p: int) -> Result<(Seq<char>, int), SStop> {
    match peek(ts, p) {
        None => Err(eof_error()),
        Some(t) => {
            if t.kind == LexKind::Identifier {
                Ok((t.text, p + 1))
            } else {
                Err(missing(LexemeView { kind: LexKind::Identifier, text: seq!['i', 'd'] }, t))
            }
        },
    }
}

/// parameters → ( IDENTIFIER ","? )* ")" ; tokens that are neither a name
/// nor a comma after a name are passed over; two names in a row are an
/// error. The names `acc` were read before position `p`.
pub open spec fn spec_params(ts: Seq<TokenView>, p: int, acc: Seq<Seq<char>>) -> Result<
    (Seq<Seq<char>>, int),
    SStop,
>
    decreases ts.len() - p,
{
    match peek(ts, p) {
        None => Err(SStop::Abort),
        Some(t) => {
            if t.kind == LexKind::RightParen {
                Ok((acc, p + 1))
            } else if t.kind == LexKind::Identifier {
                let acc2 = acc.push(t.text);
                match peek(ts, p + 1) {
                    None => spec_params(ts, p + 1, acc2),
                    Some(u) => {
                        if u.kind == LexKind::Identifier {
                            Err(missing(bare(LexKind::Comma), u))
                        } else if u.kind == LexKind::Comma {
                            spec_params(ts, p + 2, acc2)
                        } else {
                            spec_params(ts, p + 1, acc2)
                        }
                    },
                }
            } else {
                spec_params(ts, p + 1, acc)
            }
        },
    }
}

/// funDecl → "fun" IDENTIFIER "(" parameters block
pub open spec fn spec_fun_decl(em: bool, ts: Seq<TokenView>, p: int) -> AstOutcome
    decreases ts.len() - p, 18int,
{
    match spec_fun_name(ts, p + 1) {
        Err(s) => Err(s),
        Ok((name, q1)) => {
            if at(ts, q1, LexKind::LeftParen) {
                match spec_params(ts, q1 + 1, Seq::empty()) {
                    Err(s) => Err(s),
                    Ok((params, q2)) => {
                        if !within(ts, p, q2) {
                            Err(SStop::Abort)
                        } else {
                            match spec_block(em, ts, q2) {
                                Err(s) => Err(s),
                                Ok((body, q3)) => Ok(
                                    (SAst::Function { name, params, body: Box::new(body) }, q3),
                                ),
                            }
                        }
                    },
                }
            } else {
                match peek(ts, q1) {
                    None => Err(eof_error()),
                    Some(t) => Err(missing(bare(LexKind::LeftParen), t)),
                }
            }
        },
    }
}

/// varDecl → "var" IDENTIFIER ( "=" expression )? ";" ; the parser gives
/// up where no identifier follows `var`.
pub open spec fn spec_var_decl(ts: Seq<TokenView>, p: int) -> AstOutcome {
    match peek(ts, p + 1) {
        None => Err(eof_error()),
        Some(t) => {
            if t.kind != LexKind::Identifier {
                Err(SStop::Abort)
            } else {
                let init: Result<(Option<Box<SExpr>>, int), SStop> = if at(ts, p + 2, LexKind::Eq) {
                    match spec_expression(ts, p + 3) {
                        Err(s) => Err(s),
                        Ok((e, q)) => Ok((Some(Box::new(e)), q)),
                    }
                } else {
                    Ok((None, p + 2))
                };
                match init {
                    Err(s) => Err(s),
                    Ok((initializer, q)) => spec_semicolon(
                        ts,
                        q,
                        SAst::Variable { name: t, initializer },
                        eof_error(),
                    ),
                }
            }
        },
    }
}

/// statement → block | forStmt | ifStmt | printStmt | returnStmt
///           | whileStmt | exprStmt
pub open spec fn spec_statement(em: bool, ts: Seq<TokenView>, p: int) -> AstOutcome
    decreases ts.len() - p, 16int,
{
    match peek(ts, p) {
        None => Err(eof_error()),
        Some(t) => {
            if t.kind == LexKind::LeftBrace {
                spec_block(em, ts, p)
            } else if t.kind == LexKind::For {
                spec_for(em, ts, p)
            } else if t.kind == LexKind::If {
                spec_if(em, ts, p)
            } else if t.kind == LexKind::Print {
                spec_print(ts, p)
            } else if t.kind == LexKind::Return {
                spec_return(ts, p)
            } else if t.kind == LexKind::While {
                spec_while(em, ts, p)
            } else {
                spec_expression_statement(ts, p)
            }
        },
    }
}

/// block → "{" declaration* "}" ; the parser gives up where the tokens end
/// before the closing brace.
pub open spec fn spec_block(em: bool, ts: Seq<TokenView>, p: int) -> AstOutcome
    decreases ts.len() - p, 15int,
{
    match peek(ts, p) {
        None => Err(SStop::Abort),
        Some(t) => {
            if t.kind != LexKind::LeftBrace {
                Err(missing(bare(LexKind::LeftBrace), t))
            } else {
                spec_block_items(em, ts, p + 1, Seq::empty())
            }
        },
    }
}

/// The declarations of a block from position `q` on, after the
/// declarations `acc`, up to the closing brace.
pub open spec fn spec_block_items(em: bool, ts: Seq<TokenView>, q: int, acc: Seq<SAst>) -> AstOutcome
    decreases ts.len() - q, 21int,
{
    match peek(ts, q) {
        None => Err(SStop::Abort),
        Some(t) => {
            if t.kind == LexKind::RightBrace {
                Ok((SAst::Block(acc), q + 1))
            } else {
                match spec_declaration(em, ts, q) {
                    Err(s) => Err(s),
                    Ok((a, r)) => {
                        if !beyond(ts, q, r) {
                            Err(SStop::Abort)
                        } else {
                            spec_block_items(em, ts, r, acc.push(a))
                        }
                    },
                }
            }
        },
    }
}

/// The condition that a `for` loop without one takes: `true`, at line 0.
pub open spec fn always_true() -> SExpr {
    SExpr::Terminal(
        TokenView { kind: LexKind::True, text: Seq::empty(), span: Span { offset: 0, len: 0, line: 0 } },
    )
}

/// The initializer clause of a `for` loop at position `q`.
pub open spec fn spec_for_init(ts: Seq<TokenView>, q: int) -> Result<(Option<SAst>, int), SStop> {
    match peek(ts, q) {
        None => Err(eof_error()),
        Some(t) => {
            if t.kind == LexKind::SemiColon {
                Ok((None, q + 1))
            } else {
                let r = if t.kind == LexKind::Var {
                    spec_var_decl(ts, q)
                } else {
                    spec_expression_statement(ts, q)
                };
                match r {
                    Err(s) => Err(in_clause(t, s)),
                    Ok((a, q2)) => Ok((Some(a), q2)),
                }
            }
        },
    }
}

/// The condition clause of a `for` loop at position `q`, with its `;`.
pub open spec fn spec_for_cond(ts: Seq<TokenView>, q: int) -> ExprOutcome {
    if at(ts, q, LexKind::SemiColon) {
        Ok((always_true(), q + 1))
    } else {
        match peek(ts, q) {
            None => Err(SStop::Abort),
            Some(t) => match spec_expression(ts, q) {
                Err(s) => Err(in_clause(t, s)),
                Ok((c, q2)) => {
                    if at(ts, q2, LexKind::SemiColon) {
                        Ok((c, q2 + 1))
                    } else {
                        Err(SStop::Abort)
                    }
                },
            },
        }
    }
}

/// The increment clause of a `for` loop at position `q`, with its `)`.
pub open spec fn spec_for_incr(ts: Seq<TokenView>, q: int) -> Result<(Option<SExpr>, int), SStop> {
    if at(ts, q, LexKind::RightParen) {
        Ok((None, q + 1))
    } else {
        match peek(ts, q) {
            None => Err(SStop::Abort),
            Some(t) => match spec_expression(ts, q) {
                Err(s) => Err(in_clause(t, s)),
                Ok((i, q2)) => {
                    if at(ts, q2, LexKind::RightParen) {
                        Ok((Some(i), q2 + 1))
                    } else {
                        Err(SStop::Abort)
                    }
                },
            },
        }
    }
}

/// The `while` loop that a `for` loop stands for: the initializer, then a
/// loop on the condition whose body is followed by the increment.
pub open spec fn desugar_for(init: Option<SAst>, cond: SExpr, incr: Option<SExpr>, body: SAst) -> SAst {
    let body2 = match incr {
        Some(i) => SAst::Block(seq![body, SAst::Expression(i)]),
        None => body,
    };
    let w = SAst::Statement(SStmt::While(Box::new(cond), Box::new(body2)));
    match init {
        Some(a) => SAst::Block(seq![a, w]),
        None => w,
    }
}

/// The body of a `for` loop: a block, or any other statement.
pub open spec fn spec_for_body(em: bool, ts: Seq<TokenView>, q: int) -> AstOutcome
    decreases ts.len() - q, 17int,
{
    if at(ts, q, LexKind::LeftBrace) {
        spec_block(em, ts, q)
    } else {
        spec_statement(em, ts, q)
    }
}

/// forStmt → "for" "(" ( varDecl | exprStmt | ";" ) expression? ";"
///           expression? ")" statement ; the parser gives up where no `(`
/// follows `for`, or where a clause is not closed.
pub open spec fn spec_for(em: bool, ts: Seq<TokenView>, p: int) -> AstOutcome
    decreases ts.len() - p, 14int,
{
    if !at(ts, p + 1, LexKind::LeftParen) {
        Err(SStop::Abort)
    } else {
        match spec_for_init(ts, p + 2) {
            Err(s) => Err(s),
            Ok((init, q2)) => match spec_for_cond(ts, q2) {
                Err(s) => Err(s),
                Ok((cond, q3)) => match spec_for_incr(ts, q3) {
                    Err(s) => Err(s),
                    Ok((incr, q4)) => {
                        if !beyond(ts, p, q4) {
                            Err(SStop::Abort)
                        } else {
                            match spec_for_body(em, ts, q4) {
                                Err(s) => Err(s),
                                Ok((b, q5)) => Ok((desugar_for(init, cond, incr, b), q5)),
                            }
                        }
                    },
                },
            },
        }
    }
}

/// ifStmt → "if" expression statement ( "else" statement )?
pub open spec fn spec_if(em: bool, ts: Seq<TokenView>, p: int) -> AstOutcome
    decreases ts.len() - p, 14int,
{
    match spec_expression(ts, p + 1) {
        Err(s) => Err(s),
        Ok((c, q)) => {
            if !beyond(ts, p, q) {
                Err(SStop::Abort)
            } else {
                match spec_statement(em, ts, q) {
                    Err(s) => Err(s),
                    Ok((th, q2)) => {
                        if !within(ts, q, q2) {
                            Err(SStop::Abort)
                        } else if at(ts, q2, LexKind::Else) {
                            match spec_statement(em, ts, q2 + 1) {
                                Err(s) => Err(s),
                                Ok((el, q3)) => Ok(
                                    (
                                        SAst::Statement(
                                            SStmt::If {
                                                condition: Box::new(c),
                                                then: Box::new(th),
                                                or_else: Some(Box::new(el)),
                                            },
                                        ),
                                        q3,
                                    ),
                                ),
                            }
                        } else {
                            Ok(
                                (
                                    SAst::Statement(
                                        SStmt::If { condition: Box::new(c), then: Box::new(th), or_else: None },
                                    ),
                                    q2,
                                ),
                            )
                        }
                    },
                }
            }
        },
    }
}

/// whileStmt → "while" expression statement
pub open spec fn spec_while(em: bool, ts: Seq<TokenView>, p: int) -> AstOutcome
    decreases ts.len() - p, 14int,
{
    match spec_expression(ts, p + 1) {
        Err(s) => Err(s),
        Ok((c, q)) => {
            if !beyond(ts, p, q) {
                Err(SStop::Abort)
            } else {
                match spec_statement(em, ts, q) {
                    Err(s) => Err(s),
                    Ok((b, q2)) => Ok((SAst::Statement(SStmt::While(Box::new(c), Box::new(b))), q2)),
                }
            }
        },
    }
}

/// The end of a statement after an expression that stops at `q`: its `;`.
pub open spec fn spec_semicolon(ts: Seq<TokenView>, q: int, stmt: SAst, at_end: SStop) -> AstOutcome {
    match peek(ts, q) {
        None => Err(at_end),
        Some(u) => {
            if u.kind == LexKind::SemiColon {
                Ok((stmt, q + 1))
            } else {
                Err(missing(bare(LexKind::SemiColon), u))
            }
        },
    }
}

/// printStmt → "print" expression ";"
pub open spec fn spec_print(ts: Seq<TokenView>, p: int) -> AstOutcome {
    match spec_expression(ts, p + 1) {
        Err(s) => Err(s),
        Ok((e, q)) => spec_semicolon(ts, q, SAst::Statement(SStmt::Print(e)), eof_error()),
    }
}

/// The kinds that cannot start the value of a `return` statement.
pub open spec fn starts_statement(k: LexKind) -> bool {
    k == LexKind::LeftBrace || k == LexKind::For || k == LexKind::While || k == LexKind::If || k
        == LexKind::Print || k == LexKind::Return
}

/// returnStmt → "return" expression? ";"
pub open spec fn spec_return(ts: Seq<TokenView>, p: int) -> AstOutcome {
    if at(ts, p + 1, LexKind::SemiColon) {
        Ok((SAst::Statement(SStmt::Return(None)), p + 2))
    } else if 0 <= p + 1 < ts.len() && !starts_statement(ts[p + 1].kind) {
        match spec_expression(ts, p + 1) {
            Err(s) => Err(s),
            Ok((e, q)) => spec_semicolon(
                ts,
                q,
                SAst::Statement(SStmt::Return(Some(Box::new(e)))),
                semicolon_at_end(),
            ),
        }
    } else {
        Err(missing(bare(LexKind::SemiColon), ts[p]))
    }
}

/// exprStmt → expression ";"
pub open spec fn spec_expression_statement(ts: Seq<TokenView>, p: int) -> AstOutcome {
    match spec_expression(ts, p) {
        Err(s) => Err(s),
        Ok((e, q)) => spec_semicolon(ts, q, SAst::Statement(SStmt::Expression(e)), semicolon_at_end()),
    }
}

/// The declarations of a whole token sequence, in expression mode `em`.
pub open spec fn spec_parse_tokens(em: bool, ts: Seq<TokenView>) -> Result<Seq<SAst>, SStop> {
    if ts.len() == 0 {
        Ok(Seq::empty())
    } else {
        match spec_program(em, ts, 0, Seq::empty()) {
            Err(s) => Err(s),
            Ok((v, _)) => Ok(v),
        }
    }
}

/// A program that parses stops at the end-of-input token, or where the
/// tokens end: no declaration is left unread.
pub proof fn law_program_reads_to_end(em: bool, ts: Seq<TokenView>, p: int, acc: Seq<SAst>)
    requires
        0 <= p,
    ensures
        spec_program(em, ts, p, acc) matches Ok((_, q)) ==> q >= ts.len() || ts[q].kind == LexKind::Eof,
    decreases ts.len() - p,
{
    if 0 <= p < ts.len() && ts[p].kind != LexKind::Eof {
        match spec_declaration(em, ts, p) {
            Ok((a, q)) => {
                if beyond(ts, p, q) {
                    law_program_reads_to_end(em, ts, q, acc.push(a));
                }
            },
            Err(_) => {},
        }
    }
}

} // verus!
