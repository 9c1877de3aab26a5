//! Every tree the parser gives can be printed: it holds no class, each of
//! its variables is named by an identifier, and no token in it is the end
//! of input.
use crate::ast::{SAst, SExpr, SStmt};
use crate::grammar::{
    at, beyond, logical_op, spec_arguments, spec_assignment, spec_binary, spec_binary_rest,
    spec_block, spec_block_items, spec_call, spec_declaration, spec_expression,
    spec_expression_statement, spec_for, spec_for_body, spec_for_cond, spec_for_incr,
    spec_for_init, spec_fun_decl, spec_if, spec_logical, spec_logical_rest, spec_operand,
    spec_parse_tokens, spec_primary, spec_print, spec_program, spec_return, spec_statement,
    spec_unary, spec_var_decl, spec_while, within, AstOutcome, ExprOutcome,
};
use crate::model::{LexKind, TokenView};
use crate::parser::spec_parse;
use crate::render::{args_printable, ast_printable, expr_printable, lemma_lines_printable, lines_printable};
use vstd::prelude::*;

verus! {

/// A parsed expression, if any, can be printed.
pub open spec fn expr_ok(r: ExprOutcome) -> bool {
    r matches Ok((e, _)) ==> expr_printable(e)
}

/// A parsed declaration, if any, can be printed.
pub open spec fn ast_ok(r: AstOutcome) -> bool {
    r matches Ok((a, _)) ==> ast_printable(a)
}

proof fn lemma_args_push(args: Seq<SExpr>, a: SExpr)
    requires
        args_printable(args),
        expr_printable(a),
    ensures
        args_printable(args.push(a)),
{
    assert(args.push(a).drop_last() =~= args);
}

proof fn lemma_lines_push(v: Seq<SAst>, a: SAst)
    requires
        lines_printable(v),
        ast_printable(a),
    ensures
        lines_printable(v.push(a)),
{
    assert(v.push(a).drop_last() =~= v);
}

proof fn lemma_statement_node(st: SStmt)
    ensures
        ast_printable(SAst::Statement(st)) == crate::render::stmt_printable(st),
{
}

proof fn lemma_expression(ts: Seq<TokenView>, p: int)
    ensures
        expr_ok(spec_expression(ts, p)),
    decreases ts.len() - p, 12int,
{
    lemma_assignment(ts, p);
}

proof fn lemma_assignment(ts: Seq<TokenView>, p: int)
    ensures
        expr_ok(spec_assignment(ts, p)),
    decreases ts.len() - p, 11int,
{
    lemma_logical(ts, p, true);
    match spec_logical(ts, p, true) {
        Ok((_, q)) => {
            if within(ts, p, q) && at(ts, q, LexKind::Eq) {
                lemma_assignment(ts, q + 1);
            }
        },
        Err(_) => {},
    }
}

proof fn lemma_logical(ts: Seq<TokenView>, p: int, is_or: bool)
    ensures
        expr_ok(spec_logical(ts, p, is_or)),
    decreases ts.len() - p, if is_or { 10int } else { 9int },
{
    let first = if is_or {
        lemma_logical(ts, p, false);
        spec_logical(ts, p, false)
    } else {
        lemma_binary(ts, p, 0);
        spec_binary(ts, p, 0)
    };
    match first {
        Ok((left, q)) => {
            if within(ts, p, q) {
                lemma_logical_rest(ts, q, is_or, left);
            }
        },
        Err(_) => {},
    }
}

proof fn lemma_logical_rest(ts: Seq<TokenView>, q: int, is_or: bool, acc: SExpr)
    requires
        expr_printable(acc),
    ensures
        expr_ok(spec_logical_rest(ts, q, is_or, acc)),
    decreases ts.len() - q, 0int,
{
    if at(ts, q, logical_op(is_or)) {
        let right = if is_or {
            lemma_logical(ts, q + 1, false);
            spec_logical(ts, q + 1, false)
        } else {
            lemma_binary(ts, q + 1, 0);
            spec_binary(ts, q + 1, 0)
        };
        match right {
            Ok((r, q2)) => {
                if within(ts, q + 1, q2) {
                    lemma_logical_rest(
                        ts,
                        q2,
                        is_or,
                        SExpr::Logical { op: ts[q], left: Box::new(acc), right: Box::new(r) },
                    );
                }
            },
            Err(_) => {},
        }
    }
}

proof fn lemma_operand(ts: Seq<TokenView>, p: int, level: int)
    ensures
        expr_ok(spec_operand(ts, p, level)),
    decreases ts.len() - p, 8int,
{
    if 0 <= level < 3 {
        lemma_binary(ts, p, level + 1);
    } else {
        lemma_unary(ts, p);
    }
}

proof fn lemma_binary(ts: Seq<TokenView>, p: int, level: int)
    ensures
        expr_ok(spec_binary(ts, p, level)),
    decreases ts.len() - p, if 0 <= level < 3 { 8 - level } else { 5int },
{
    let first = if 0 <= level < 3 {
        lemma_binary(ts, p, level + 1);
        spec_binary(ts, p, level + 1)
    } else {
        lemma_unary(ts, p);
        spec_unary(ts, p)
    };
    match first {
        Ok((left, q)) => {
            if within(ts, p, q) {
                lemma_binary_rest(ts, q, level, left);
            }
        },
        Err(_) => {},
    }
}

proof fn lemma_binary_rest(ts: Seq<TokenView>, q: int, level: int, acc: SExpr)
    requires
        expr_printable(acc),
    ensures
        expr_ok(spec_binary_rest(ts, q, level, acc)),
    decreases ts.len() - q, 0int,
{
    if 0 <= q < ts.len() && crate::grammar::binary_op(level, ts[q].kind) {
        lemma_operand(ts, q + 1, level);
        match spec_operand(ts, q + 1, level) {
            Ok((r, q2)) => {
                if within(ts, q + 1, q2) {
                    lemma_binary_rest(
                        ts,
                        q2,
                        level,
                        SExpr::Binary { op: ts[q], left: Box::new(acc), right: Box::new(r) },
                    );
                }
            },
            Err(_) => {},
        }
    }
}

proof fn lemma_unary(ts: Seq<TokenView>, p: int)
    ensures
        expr_ok(spec_unary(ts, p)),
    decreases ts.len() - p, 4int,
{
    if at(ts, p, LexKind::Minus) || at(ts, p, LexKind::Bang) {
        lemma_unary(ts, p + 1);
    } else {
        lemma_call(ts, p);
    }
}

proof fn lemma_call(ts: Seq<TokenView>, p: int)
    ensures
        expr_ok(spec_call(ts, p)),
    decreases ts.len() - p, 3int,
{
    lemma_primary(ts, p);
    match spec_primary(ts, p) {
        Ok((e, q)) => {
            if within(ts, p, q) {
                match e {
                    SExpr::Terminal(t) => {
                        if t.kind == LexKind::Identifier && at(ts, q, LexKind::LeftParen) {
                            lemma_arguments(ts, q + 1, t, Seq::empty());
                        }
                    },
                    _ => {},
                }
            }
        },
        Err(_) => {},
    }
}

proof fn lemma_arguments(ts: Seq<TokenView>, q: int, callee: TokenView, args: Seq<SExpr>)
    requires
        callee.kind != LexKind::Eof,
        args_printable(args),
    ensures
        expr_ok(spec_arguments(ts, q, callee, args)),
    decreases ts.len() - q, 13int,
{
    if 0 <= q < ts.len() && ts[q].kind != LexKind::RightParen {
        lemma_expression(ts, q);
        match spec_expression(ts, q) {
            Ok((a, r)) => {
                lemma_args_push(args, a);
                let r2 = if at(ts, r, LexKind::Comma) {
                    r + 1
                } else {
                    r
                };
                if args.push(a).len() < 255 && beyond(ts, q, r2) {
                    lemma_arguments(ts, r2, callee, args.push(a));
                }
            },
            Err(_) => {},
        }
    }
}

proof fn lemma_primary(ts: Seq<TokenView>, p: int)
    ensures
        expr_ok(spec_primary(ts, p)),
    decreases ts.len() - p, 2int,
{
    if 0 <= p < ts.len() && ts[p].kind == LexKind::LeftParen {
        lemma_expression(ts, p + 1);
    }
}

proof fn lemma_program(em: bool, ts: Seq<TokenView>, p: int, acc: Seq<SAst>)
    requires
        lines_printable(acc),
    ensures
        spec_program(em, ts, p, acc) matches Ok((v, _)) ==> lines_printable(v),
    decreases ts.len() - p, 20int,
{
    if 0 <= p < ts.len() && ts[p].kind != LexKind::Eof {
        lemma_declaration(em, ts, p);
        match spec_declaration(em, ts, p) {
            Ok((a, q)) => {
                lemma_lines_push(acc, a);
                if beyond(ts, p, q) {
                    lemma_program(em, ts, q, acc.push(a));
                }
            },
            Err(_) => {},
        }
    }
}

proof fn lemma_declaration(em: bool, ts: Seq<TokenView>, p: int)
    ensures
        ast_ok(spec_declaration(em, ts, p)),
    decreases ts.len() - p, 19int,
{
    if 0 <= p < ts.len() {
        let k = ts[p].kind;
        if k == LexKind::Fun {
            lemma_fun_decl(em, ts, p);
        } else if k == LexKind::Var {
            lemma_var_decl(ts, p);
        } else if em {
            lemma_expression(ts, p);
        } else if k != LexKind::Class {
            lemma_statement(em, ts, p);
        }
    }
}

proof fn lemma_fun_decl(em: bool, ts: Seq<TokenView>, p: int)
    ensures
        ast_ok(spec_fun_decl(em, ts, p)),
    decreases ts.len() - p, 18int,
{
    match crate::grammar::spec_fun_name(ts, p + 1) {
        Ok((_, q1)) => {
            if at(ts, q1, LexKind::LeftParen) {
                match crate::grammar::spec_params(ts, q1 + 1, Seq::empty()) {
                    Ok((_, q2)) => {
                        if within(ts, p, q2) {
                            lemma_block(em, ts, q2);
                        }
                    },
                    Err(_) => {},
                }
            }
        },
        Err(_) => {},
    }
}

proof fn lemma_var_decl(ts: Seq<TokenView>, p: int)
    ensures
        ast_ok(spec_var_decl(ts, p)),
{
    lemma_expression(ts, p + 3);
}

proof fn lemma_statement(em: bool, ts: Seq<TokenView>, p: int)
    ensures
        ast_ok(spec_statement(em, ts, p)),
    decreases ts.len() - p, 16int,
{
    if 0 <= p < ts.len() {
        let k = ts[p].kind;
        if k == LexKind::LeftBrace {
            lemma_block(em, ts, p);
        } else if k == LexKind::For {
            lemma_for(em, ts, p);
        } else if k == LexKind::If {
            lemma_if(em, ts, p);
        } else if k == LexKind::Print {
            lemma_print(ts, p);
        } else if k == LexKind::Return {
            lemma_return(ts, p);
        } else if k == LexKind::While {
            lemma_while(em, ts, p);
        } else {
            lemma_expression_statement(ts, p);
        }
    }
}

proof fn lemma_block(em: bool, ts: Seq<TokenView>, p: int)
    ensures
        ast_ok(spec_block(em, ts, p)),
    decreases ts.len() - p, 15int,
{
    if 0 <= p < ts.len() && ts[p].kind == LexKind::LeftBrace {
        lemma_block_items(em, ts, p + 1, Seq::empty());
    }
}

proof fn lemma_block_items(em: bool, ts: Seq<TokenView>, q: int, acc: Seq<SAst>)
    requires
        lines_printable(acc),
    ensures
        ast_ok(spec_block_items(em, ts, q, acc)),
    decreases ts.len() - q, 21int,
{
    if 0 <= q < ts.len() && ts[q].kind != LexKind::RightBrace {
        lemma_declaration(em, ts, q);
        match spec_declaration(em, ts, q) {
            Ok((a, r)) => {
                lemma_lines_push(acc, a);
                if beyond(ts, q, r) {
                    lemma_block_items(em, ts, r, acc.push(a));
                }
            },
            Err(_) => {},
        }
    }
}

proof fn lemma_for_body(em: bool, ts: Seq<TokenView>, q: int)
    ensures
        ast_ok(spec_for_body(em, ts, q)),
    decreases ts.len() - q, 17int,
{
    if at(ts, q, LexKind::LeftBrace) {
        lemma_block(em, ts, q);
    } else {
        lemma_statement(em, ts, q);
    }
}

proof fn lemma_for_init(ts: Seq<TokenView>, q: int)
    ensures
        spec_for_init(ts, q) matches Ok((Some(a), _)) ==> ast_printable(a),
{
    lemma_var_decl(ts, q);
    lemma_expression_statement(ts, q);
}

proof fn lemma_for_cond(ts: Seq<TokenView>, q: int)
    ensures
        expr_ok(spec_for_cond(ts, q)),
{
    lemma_expression(ts, q);
}

proof fn lemma_for_incr(ts: Seq<TokenView>, q: int)
    ensures
        spec_for_incr(ts, q) matches Ok((Some(i), _)) ==> expr_printable(i),
{
    lemma_expression(ts, q);
}

proof fn lemma_desugar(init: Option<SAst>, cond: SExpr, incr: Option<SExpr>, b: SAst)
    requires
        init matches Some(a) ==> ast_printable(a),
        expr_printable(cond),
        incr matches Some(i) ==> expr_printable(i),
        ast_printable(b),
    ensures
        ast_printable(crate::grammar::desugar_for(init, cond, incr, b)),
{
    let body2 = match incr {
        Some(i) => {
            let two = seq![b, SAst::Expression(i)];
            assert(two.drop_last() =~= seq![b]);
            assert(seq![b].drop_last() =~= Seq::<SAst>::empty());
            assert(seq![b].last() == b);
            assert(two.last() == SAst::Expression(i));
            assert(lines_printable(Seq::<SAst>::empty()));
            assert(lines_printable(seq![b]));
            assert(expr_printable(i));
            assert(ast_printable(SAst::Expression(i)));
            assert(lines_printable(two));
            assert(ast_printable(SAst::Block(two)));
            SAst::Block(two)
        },
        None => b,
    };
    lemma_statement_node(SStmt::While(Box::new(cond), Box::new(body2)));
    let w = SAst::Statement(SStmt::While(Box::new(cond), Box::new(body2)));
    assert(ast_printable(body2));
    assert(crate::render::stmt_printable(SStmt::While(Box::new(cond), Box::new(body2))));
    assert(ast_printable(w));
    match init {
        Some(a) => {
            let two = seq![a, w];
            assert(two.drop_last() =~= seq![a]);
            assert(seq![a].drop_last() =~= Seq::<SAst>::empty());
            assert(seq![a].last() == a);
            assert(two.last() == w);
            assert(lines_printable(Seq::<SAst>::empty()));
            assert(lines_printable(seq![a]));
            assert(lines_printable(two));
            assert(ast_printable(SAst::Block(two)));
        },
        None => {},
    }
}

proof fn lemma_for(em: bool, ts: Seq<TokenView>, p: int)
    ensures
        ast_ok(spec_for(em, ts, p)),
    decreases ts.len() - p, 14int,
{
    if at(ts, p + 1, LexKind::LeftParen) {
        lemma_for_init(ts, p + 2);
        match spec_for_init(ts, p + 2) {
            Ok((init, q2)) => {
                lemma_for_cond(ts, q2);
                match spec_for_cond(ts, q2) {
                    Ok((cond, q3)) => {
                        lemma_for_incr(ts, q3);
                        match spec_for_incr(ts, q3) {
                            Ok((incr, q4)) => {
                                if beyond(ts, p, q4) {
                                    lemma_for_body(em, ts, q4);
                                    match spec_for_body(em, ts, q4) {
                                        Ok((b, _)) => lemma_desugar(init, cond, incr, b),
                                        Err(_) => {},
                                    }
                                }
                            },
                            Err(_) => {},
                        }
                    },
                    Err(_) => {},
                }
            },
            Err(_) => {},
        }
    }
}

proof fn lemma_if(em: bool, ts: Seq<TokenView>, p: int)
    ensures
        ast_ok(spec_if(em, ts, p)),
    decreases ts.len() - p, 14int,
{
    lemma_expression(ts, p + 1);
    match spec_expression(ts, p + 1) {
        Ok((c, q)) => {
            if beyond(ts, p, q) {
                lemma_statement(em, ts, q);
                match spec_statement(em, ts, q) {
                    Ok((th, q2)) => {
                        lemma_statement_node(
                            SStmt::If { condition: Box::new(c), then: Box::new(th), or_else: None },
                        );
                        if within(ts, q, q2) && at(ts, q2, LexKind::Else) {
                            lemma_statement(em, ts, q2 + 1);
                            match spec_statement(em, ts, q2 + 1) {
                                Ok((el, _)) => lemma_statement_node(
                                    SStmt::If {
                                        condition: Box::new(c),
                                        then: Box::new(th),
                                        or_else: Some(Box::new(el)),
                                    },
                                ),
                                Err(_) => {},
                            }
                        }
                    },
                    Err(_) => {},
                }
            }
        },
        Err(_) => {},
    }
}

proof fn lemma_while(em: bool, ts: Seq<TokenView>, p: int)
    ensures
        ast_ok(spec_while(em, ts, p)),
    decreases ts.len() - p, 14int,
{
    lemma_expression(ts, p + 1);
    match spec_expression(ts, p + 1) {
        Ok((c, q)) => {
            if beyond(ts, p, q) {
                lemma_statement(em, ts, q);
                match spec_statement(em, ts, q) {
                    Ok((b, _)) => lemma_statement_node(SStmt::While(Box::new(c), Box::new(b))),
                    Err(_) => {},
                }
            }
        },
        Err(_) => {},
    }
}

proof fn lemma_print(ts: Seq<TokenView>, p: int)
    ensures
        ast_ok(spec_print(ts, p)),
{
    lemma_expression(ts, p + 1);
    match spec_expression(ts, p + 1) {
        Ok((e, _)) => lemma_statement_node(SStmt::Print(e)),
        Err(_) => {},
    }
}

proof fn lemma_return(ts: Seq<TokenView>, p: int)
    ensures
        ast_ok(spec_return(ts, p)),
{
    lemma_expression(ts, p + 1);
    lemma_statement_node(SStmt::Return(None));
    match spec_expression(ts, p + 1) {
        Ok((e, _)) => lemma_statement_node(SStmt::Return(Some(Box::new(e)))),
        Err(_) => {},
    }
}

proof fn lemma_expression_statement(ts: Seq<TokenView>, p: int)
    ensures
        ast_ok(spec_expression_statement(ts, p)),
{
    lemma_expression(ts, p);
    match spec_expression(ts, p) {
        Ok((e, _)) => lemma_statement_node(SStmt::Expression(e)),
        Err(_) => {},
    }
}

/// Every declaration that parsing a source gives can be printed.
pub proof fn law_parse_printable(em: bool, source: Seq<char>, parsed: Seq<SAst>)
    requires
        spec_parse(em, source) == Ok::<Seq<SAst>, crate::grammar::SStop>(parsed),
    ensures
        forall|i: int| 0 <= i < parsed.len() ==> ast_printable(#[trigger] parsed[i]),
{
    let ts = crate::scanner::spec_scan(source).tokens;
    if ts.len() > 0 {
        lemma_program(em, ts, 0, Seq::empty());
    }
    assert(lines_printable(parsed));
    assert forall|i: int| 0 <= i < parsed.len() implies ast_printable(#[trigger] parsed[i]) by {
        lemma_lines_printable(parsed, i);
    }
}

} // verus!
