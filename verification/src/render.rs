//! The printed forms of tokens and syntax trees.
//!
//! A printed form is a sequence of pieces: texts, and slots for the values
//! of number literals. A number's value is shown as the shortest decimal
//! that reads back to the same double, with `.0` added where it is a whole
//! number; that step needs floating point, so the caller fills each slot
//! from the literal's text, and joins the pieces.
use crate::ast::{
    asts_view, exprs_view, lemma_block_members_view, lemma_call_args_view, strings_view, Ast,
    AstExpr, AstStmt, SAst, SExpr, SStmt,
};
use crate::model::{fixed_text, kind_label, LexKind, Lexeme, Token, TokenView};
use crate::text::{lowercase, string_of, to_lowercase};
use vstd::prelude::*;

verus! {

/// A piece of a printed form.
#[derive(Debug, Clone, PartialEq)]
pub enum Piece {
    /// Text printed as it is.
    Text(String),
    /// The value of the number literal with this text.
    Number(String),
}

/// The abstract value of a piece.
pub ghost enum SPiece {
    Text(Seq<char>),
    Number(Seq<char>),
}

impl View for Piece {
    type V = SPiece;

    open spec fn view(&self) -> SPiece {
        match self {
            Piece::Text(s) => SPiece::Text(s@),
            Piece::Number(s) => SPiece::Number(s@),
        }
    }
}

/// The abstract values of a sequence of pieces.
pub open spec fn pieces_view(v: Seq<Piece>) -> Seq<SPiece> {
    v.map_values(|p: Piece| p@)
}

/// A single text piece.
pub open spec fn text(s: Seq<char>) -> Seq<SPiece> {
    seq![SPiece::Text(s)]
}

/// The printed form of a token in a token listing: its kind's label, its
/// text, and its value (`null` for all but strings and numbers).
pub open spec fn token_pieces(t: TokenView) -> Seq<SPiece> {
    let label = text(kind_label(t.kind));
    if t.kind == LexKind::String {
        label + text(" \""@) + text(t.text) + text("\" "@) + text(t.text)
    } else if t.kind == LexKind::Number {
        label + text(" "@) + text(t.text) + text(" "@) + seq![SPiece::Number(t.text)]
    } else if t.kind == LexKind::Identifier {
        label + text(" "@) + text(t.text) + text(" null"@)
    } else if t.kind == LexKind::Eof {
        label + text("  null"@)
    } else {
        label + text(" "@) + text(fixed_text(t.kind)) + text(" null"@)
    }
}

/// The printed form of a token inside a tree: names and strings in lower
/// case, numbers by value, everything else as spelled.
pub open spec fn tree_token_pieces(t: TokenView) -> Seq<SPiece> {
    if t.kind == LexKind::Identifier || t.kind == LexKind::String {
        text(lowercase(t.text))
    } else if t.kind == LexKind::Number {
        seq![SPiece::Number(t.text)]
    } else {
        text(fixed_text(t.kind))
    }
}

/// The printed form of an expression.
pub open spec fn expr_pieces(e: SExpr) -> Seq<SPiece>
    decreases e,
{
    match e {
        SExpr::Call { func, args, site: _ } => text(func) + text("(["@) + args_pieces(args)
            + text("])"@),
        SExpr::Assignment { id, expr } => text(id) + text(" = "@) + expr_pieces(*expr),
        SExpr::Logical { op, left, right } => text("("@) + tree_token_pieces(op) + text(" "@)
            + expr_pieces(*left) + text(" "@) + expr_pieces(*right) + text(")"@),
        SExpr::Unary { op, exp } => text("("@) + tree_token_pieces(op) + text(" "@)
            + expr_pieces(*exp) + text(")"@),
        SExpr::Binary { op, left, right } => text("("@) + tree_token_pieces(op) + text(" "@)
            + expr_pieces(*left) + text(" "@) + expr_pieces(*right) + text(")"@),
        SExpr::Group(inner) => text("(group "@) + expr_pieces(*inner)
            + text(")"@),
        SExpr::Terminal(t) => tree_token_pieces(t),
    }
}

/// The printed forms of call arguments, separated by `, `.
pub open spec fn args_pieces(args: Seq<SExpr>) -> Seq<SPiece>
    decreases args,
{
    if args.len() == 0 {
        Seq::empty()
    } else if args.len() == 1 {
        expr_pieces(args[0])
    } else {
        args_pieces(args.drop_last()) + text(", "@) + expr_pieces(args.last())
    }
}

/// An expression can be printed: no token in it is the end of input.
pub open spec fn expr_printable(e: SExpr) -> bool
    decreases e,
{
    match e {
        SExpr::Call { func: _, args, site: _ } => args_printable(args),
        SExpr::Assignment { id: _, expr } => expr_printable(*expr),
        SExpr::Logical { op, left, right } => op.kind != LexKind::Eof && expr_printable(*left)
            && expr_printable(*right),
        SExpr::Unary { op, exp } => op.kind != LexKind::Eof && expr_printable(*exp),
        SExpr::Binary { op, left, right } => op.kind != LexKind::Eof && expr_printable(*left)
            && expr_printable(*right),
        SExpr::Group(inner) => expr_printable(*inner),
        SExpr::Terminal(t) => t.kind != LexKind::Eof,
    }
}

/// Every argument can be printed.
pub open spec fn args_printable(args: Seq<SExpr>) -> bool
    decreases args,
{
    if args.len() == 0 {
        true
    } else {
        args_printable(args.drop_last()) && expr_printable(args.last())
    }
}

/// Names separated by `, `.
pub open spec fn joined_names(names: Seq<Seq<char>>) -> Seq<SPiece>
    decreases names.len(),
{
    if names.len() == 0 {
        Seq::empty()
    } else if names.len() == 1 {
        text(names[0])
    } else {
        joined_names(names.drop_last()) + text(", "@) + text(names.last())
    }
}

/// The printed form of a declaration or statement.
pub open spec fn ast_pieces(a: SAst) -> Seq<SPiece>
    decreases a,
{
    match a {
        SAst::Class => Seq::empty(),
        SAst::Function { name, params, body } => text("fun "@) + text(name) + text(" ("@) + joined_names(params) + text(") {\n"@) + ast_pieces(*body) + text(" }\n"@),
        SAst::Variable { name, initializer } => text("var "@) + text(name.text) + (
        match initializer {
            Some(e) => text(" = "@) + expr_pieces(*e),
            None => Seq::empty(),
        }) + text(";"@),
        SAst::Block(v) => text("{\n"@) + lines_pieces(v) + text("}"@),
        SAst::Statement(s) => stmt_pieces(s),
        SAst::Expression(e) => expr_pieces(e),
    }
}

/// The printed forms of the members of a block, each followed by a new
/// line.
pub open spec fn lines_pieces(v: Seq<SAst>) -> Seq<SPiece>
    decreases v,
{
    if v.len() == 0 {
        Seq::empty()
    } else {
        lines_pieces(v.drop_last()) + ast_pieces(v.last()) + text("\n"@)
    }
}

/// The printed form of a statement.
pub open spec fn stmt_pieces(s: SStmt) -> Seq<SPiece>
    decreases s,
{
    match s {
        SStmt::If { condition, then, or_else } => text("if "@) + expr_pieces(*condition)
            + text(" "@) + ast_pieces(*then) + (match or_else {
            Some(e) => text(" else "@) + ast_pieces(*e),
            None => Seq::empty(),
        }),
        SStmt::While(c, b) => text("while "@) + expr_pieces(*c) + text(" "@) + ast_pieces(*b),
        SStmt::Return(e) => text("return"@) + (match e {
            Some(x) => text(" "@) + expr_pieces(*x),
            None => Seq::empty(),
        }) + text(";"@),
        SStmt::Print(e) => text("print "@) + expr_pieces(e) + text(";"@),
        SStmt::Expression(e) => expr_pieces(e),
    }
}

/// A declaration or statement can be printed: it holds no class, each
/// variable is named by an identifier, and no token in it is the end of
/// input.
pub open spec fn ast_printable(a: SAst) -> bool
    decreases a,
{
    match a {
        SAst::Class => false,
        SAst::Function { name: _, params: _, body } => ast_printable(*body),
        SAst::Variable { name, initializer } => name.kind == LexKind::Identifier && match initializer {
            Some(e) => expr_printable(*e),
            None => true,
        },
        SAst::Block(v) => lines_printable(v),
        SAst::Statement(s) => stmt_printable(s),
        SAst::Expression(e) => expr_printable(e),
    }
}

/// Every member of a block can be printed.
pub open spec fn lines_printable(v: Seq<SAst>) -> bool
    decreases v,
{
    if v.len() == 0 {
        true
    } else {
        lines_printable(v.drop_last()) && ast_printable(v.last())
    }
}

/// A statement can be printed.
pub open spec fn stmt_printable(s: SStmt) -> bool
    decreases s,
{
    match s {
        SStmt::If { condition, then, or_else } => expr_printable(*condition) && ast_printable(*then)
            && match or_else {
            Some(e) => ast_printable(*e),
            None => true,
        },
        SStmt::While(c, b) => expr_printable(*c) && ast_printable(*b),
        SStmt::Return(e) => match e {
            Some(x) => expr_printable(*x),
            None => true,
        },
        SStmt::Print(e) => expr_printable(e),
        SStmt::Expression(e) => expr_printable(e),
    }
}

/// A member of printable arguments is printable.
pub proof fn lemma_args_printable(args: Seq<SExpr>, i: int)
    requires
        args_printable(args),
        0 <= i < args.len(),
    ensures
        expr_printable(args[i]),
    decreases args.len(),
{
    if i < args.len() - 1 {
        lemma_args_printable(args.drop_last(), i);
    }
}

/// A member of a printable block is printable.
pub proof fn lemma_lines_printable(v: Seq<SAst>, i: int)
    requires
        lines_printable(v),
        0 <= i < v.len(),
    ensures
        ast_printable(v[i]),
    decreases v.len(),
{
    if i < v.len() - 1 {
        lemma_lines_printable(v.drop_last(), i);
    }
}

/// Appends a text piece.
fn push_text(out: &mut Vec<Piece>, s: String)
    ensures
        pieces_view(final(out)@) == pieces_view(old(out)@) + text(s@),
{
    let ghost before = out@;
    let ghost sv = s@;
    out.push(Piece::Text(s));
    proof {
        assert(pieces_view(out@) =~= pieces_view(before) + text(sv));
    }
}

/// Appends a text piece holding `s`.
fn push_lit(out: &mut Vec<Piece>, s: &str)
    ensures
        pieces_view(final(out)@) == pieces_view(old(out)@) + text(s@),
{
    push_text(out, string_of(s));
}

/// Appends the slot of a number literal's value.
fn push_number(out: &mut Vec<Piece>, raw: String)
    ensures
        pieces_view(final(out)@) == pieces_view(old(out)@) + seq![SPiece::Number(raw@)],
{
    let ghost before = out@;
    let ghost rv = raw@;
    out.push(Piece::Number(raw));
    proof {
        assert(pieces_view(out@) =~= pieces_view(before) + seq![SPiece::Number(rv)]);
    }
}

impl Token {
    /// The printed form of this token in a token listing, such as
    /// `NUMBER 42 42.0` or `LEFT_PAREN ( null`.
    pub fn display_pieces(&self) -> (r: Vec<Piece>)
        ensures
            pieces_view(r@) == token_pieces(self@),
    {
        let mut out: Vec<Piece> = Vec::new();
        proof {
            assert(pieces_view(out@) =~= Seq::<SPiece>::empty());
        }
        push_text(&mut out, self.lexeme.display_string());
        match &self.lexeme {
            Lexeme::String(v) => {
                push_lit(&mut out, " \"");
                push_text(&mut out, v.clone());
                push_lit(&mut out, "\" ");
                push_text(&mut out, v.clone());
            },
            Lexeme::Number(raw) => {
                push_lit(&mut out, " ");
                push_text(&mut out, raw.clone());
                push_lit(&mut out, " ");
                push_number(&mut out, raw.clone());
            },
            Lexeme::Identifier(v) => {
                push_lit(&mut out, " ");
                push_text(&mut out, v.clone());
                push_lit(&mut out, " null");
            },
            Lexeme::Eof => {
                push_lit(&mut out, "  null");
            },
            other => {
                push_lit(&mut out, " ");
                push_text(&mut out, other.to_source_string());
                push_lit(&mut out, " null");
            },
        }
        proof {
            assert(pieces_view(out@) =~= token_pieces(self@));
        }
        out
    }
}

/// Appends the printed form of a token inside a tree.
fn push_tree_token(t: &Token, out: &mut Vec<Piece>)
    requires
        t@.kind != LexKind::Eof,
    ensures
        pieces_view(final(out)@) == pieces_view(old(out)@) + tree_token_pieces(t@),
{
    match &t.lexeme {
        Lexeme::Identifier(s) => push_text(out, to_lowercase(s.as_str())),
        Lexeme::String(s) => push_text(out, to_lowercase(s.as_str())),
        Lexeme::Number(s) => push_number(out, s.clone()),
        other => push_text(out, other.to_source_string()),
    }
}

/// Appends the printed form of an expression.
fn push_expr(e: &AstExpr, out: &mut Vec<Piece>)
    requires
        expr_printable(e.sv()),
    ensures
        pieces_view(final(out)@) == pieces_view(old(out)@) + expr_pieces(e.sv()),
    decreases e,
{
    let ghost before = pieces_view(out@);
    match e {
        AstExpr::Call { func, args, site: _ } => {
            proof {
                lemma_call_args_view(*e);
            }
            push_text(out, func.clone());
            push_lit(out, "([");
            push_args(args, out);
            push_lit(out, "])");
        },
        AstExpr::Assignment { id, expr } => {
            push_text(out, id.clone());
            push_lit(out, " = ");
            push_expr(expr, out);
        },
        AstExpr::Logical { op, left, right } => {
            push_lit(out, "(");
            push_tree_token(op, out);
            push_lit(out, " ");
            push_expr(left, out);
            push_lit(out, " ");
            push_expr(right, out);
            push_lit(out, ")");
        },
        AstExpr::Unary { op, exp } => {
            push_lit(out, "(");
            push_tree_token(op, out);
            push_lit(out, " ");
            push_expr(exp, out);
            push_lit(out, ")");
        },
        AstExpr::Binary { op, left, right } => {
            push_lit(out, "(");
            push_tree_token(op, out);
            push_lit(out, " ");
            push_expr(left, out);
            push_lit(out, " ");
            push_expr(right, out);
            push_lit(out, ")");
        },
        AstExpr::Group(inner) => {
            push_lit(out, "(group ");
            push_expr(inner, out);
            push_lit(out, ")");
        },
        AstExpr::Terminal(t) => {
            push_tree_token(t, out);
        },
    }
    proof {
        assert(pieces_view(out@) =~= before + expr_pieces(e.sv()));
    }
}

/// Appends the printed forms of call arguments, separated by `, `.
fn push_args(args: &Vec<AstExpr>, out: &mut Vec<Piece>)
    requires
        args_printable(exprs_view(args@)),
    ensures
        pieces_view(final(out)@) == pieces_view(old(out)@) + args_pieces(exprs_view(args@)),
    decreases args,
{
    let ghost before = pieces_view(out@);
    let ghost all = exprs_view(args@);
    let mut i: usize = 0;
    proof {
        assert(all.take(0) =~= Seq::<SExpr>::empty());
        assert(pieces_view(out@) =~= before + args_pieces(all.take(0)));
    }
    while i < args.len()
        invariant
            0 <= i <= args.len(),
            all == exprs_view(args@),
            args_printable(all),
            pieces_view(out@) == before + args_pieces(all.take(i as int)),
        decreases args.len() - i,
    {
        proof {
            lemma_args_printable(all, i as int);
        }
        if i > 0 {
            push_lit(out, ", ");
        }
        push_expr(&args[i], out);
        proof {
            let t = all.take(i + 1);
            assert(t.drop_last() =~= all.take(i as int));
            assert(t.last() == all[i as int]);
            assert(pieces_view(out@) =~= before + args_pieces(t));
        }
        i = i + 1;
    }
    proof {
        assert(all.take(args.len() as int) =~= all);
    }
}

/// Appends names separated by `, `.
fn push_names(names: &Vec<String>, out: &mut Vec<Piece>)
    ensures
        pieces_view(final(out)@) == pieces_view(old(out)@) + joined_names(strings_view(names@)),
{
    let ghost before = pieces_view(out@);
    let ghost all = strings_view(names@);
    let mut i: usize = 0;
    proof {
        assert(all.take(0) =~= Seq::<Seq<char>>::empty());
        assert(pieces_view(out@) =~= before + joined_names(all.take(0)));
    }
    while i < names.len()
        invariant
            0 <= i <= names.len(),
            all == strings_view(names@),
            pieces_view(out@) == before + joined_names(all.take(i as int)),
        decreases names.len() - i,
    {
        if i > 0 {
            push_lit(out, ", ");
        }
        push_text(out, names[i].clone());
        proof {
            let t = all.take(i + 1);
            assert(t.drop_last() =~= all.take(i as int));
            assert(t.last() == all[i as int]);
            assert(pieces_view(out@) =~= before + joined_names(t));
        }
        i = i + 1;
    }
    proof {
        assert(all.take(names.len() as int) =~= all);
    }
}

/// Appends the printed form of a declaration or statement.
fn push_ast(a: &Ast, out: &mut Vec<Piece>)
    requires
        ast_printable(a.sv()),
    ensures
        pieces_view(final(out)@) == pieces_view(old(out)@) + ast_pieces(a.sv()),
    decreases a,
{
    let ghost before = pieces_view(out@);
    match a {
        Ast::Class => {},
        Ast::Function { name, params, body } => {
            push_lit(out, "fun ");
            push_text(out, name.clone());
            push_lit(out, " (");
            push_names(params, out);
            push_lit(out, ") {\n");
            push_ast(body, out);
            push_lit(out, " }\n");
        },
        Ast::Variable { name, initializer } => {
            push_lit(out, "var ");
            match &name.lexeme {
                Lexeme::Identifier(n) => push_text(out, n.clone()),
                _ => {},
            }
            match initializer {
                Some(e) => {
                    push_lit(out, " = ");
                    push_expr(e, out);
                },
                None => {},
            }
            push_lit(out, ";");
        },
        Ast::Block(v) => {
            proof {
                lemma_block_members_view(*a);
            }
            push_lit(out, "{\n");
            push_lines(v, out);
            push_lit(out, "}");
        },
        Ast::Statement(s) => push_stmt(s, out),
        Ast::Expression(e) => push_expr(e, out),
    }
    proof {
        assert(pieces_view(out@) =~= before + ast_pieces(a.sv()));
    }
}

/// Appends the printed forms of the members of a block, each followed by a
/// new line.
fn push_lines(v: &Vec<Ast>, out: &mut Vec<Piece>)
    requires
        lines_printable(asts_view(v@)),
    ensures
        pieces_view(final(out)@) == pieces_view(old(out)@) + lines_pieces(asts_view(v@)),
    decreases v,
{
    let ghost before = pieces_view(out@);
    let ghost all = asts_view(v@);
    let mut i: usize = 0;
    proof {
        assert(all.take(0) =~= Seq::<SAst>::empty());
        assert(pieces_view(out@) =~= before + lines_pieces(all.take(0)));
    }
    while i < v.len()
        invariant
            0 <= i <= v.len(),
            all == asts_view(v@),
            lines_printable(all),
            pieces_view(out@) == before + lines_pieces(all.take(i as int)),
        decreases v.len() - i,
    {
        proof {
            lemma_lines_printable(all, i as int);
        }
        push_ast(&v[i], out);
        push_lit(out, "\n");
        proof {
            let t = all.take(i + 1);
            assert(t.drop_last() =~= all.take(i as int));
            assert(t.last() == all[i as int]);
            assert(pieces_view(out@) =~= before + lines_pieces(t));
        }
        i = i + 1;
    }
    proof {
        assert(all.take(v.len() as int) =~= all);
    }
}

/// Appends the printed form of a statement.
fn push_stmt(s: &AstStmt, out: &mut Vec<Piece>)
    requires
        stmt_printable(s.sv()),
    ensures
        pieces_view(final(out)@) == pieces_view(old(out)@) + stmt_pieces(s.sv()),
    decreases s,
{
    let ghost before = pieces_view(out@);
    match s {
        AstStmt::If { condition, then, or_else } => {
            push_lit(out, "if ");
            push_expr(condition, out);
            push_lit(out, " ");
            push_ast(then, out);
            match or_else {
                Some(e) => {
                    push_lit(out, " else ");
                    push_ast(e, out);
                },
                None => {},
            }
        },
        AstStmt::While(c, b) => {
            push_lit(out, "while ");
            push_expr(c, out);
            push_lit(out, " ");
            push_ast(b, out);
        },
        AstStmt::Return(e) => {
            push_lit(out, "return");
            match e {
                Some(x) => {
                    push_lit(out, " ");
                    push_expr(x, out);
                },
                None => {},
            }
            push_lit(out, ";");
        },
        AstStmt::Print(e) => {
            push_lit(out, "print ");
            push_expr(e, out);
            push_lit(out, ";");
        },
        AstStmt::Expression(e) => push_expr(e, out),
    }
    proof {
        assert(pieces_view(out@) =~= before + stmt_pieces(s.sv()));
    }
}

impl AstExpr {
    /// The printed form of this expression, such as `(+ 1.0 2.0)`.
    pub fn display_pieces(&self) -> (r: Vec<Piece>)
        requires
            expr_printable(self.sv()),
        ensures
            pieces_view(r@) == expr_pieces(self.sv()),
    {
        let mut out: Vec<Piece> = Vec::new();
        proof {
            assert(pieces_view(out@) =~= Seq::<SPiece>::empty());
        }
        push_expr(self, &mut out);
        proof {
            assert(pieces_view(out@) =~= expr_pieces(self.sv()));
        }
        out
    }
}

impl AstStmt {
    /// The printed form of this statement, such as `print 42.0;`.
    pub fn display_pieces(&self) -> (r: Vec<Piece>)
        requires
            stmt_printable(self.sv()),
        ensures
            pieces_view(r@) == stmt_pieces(self.sv()),
    {
        let mut out: Vec<Piece> = Vec::new();
        proof {
            assert(pieces_view(out@) =~= Seq::<SPiece>::empty());
        }
        push_stmt(self, &mut out);
        proof {
            assert(pieces_view(out@) =~= stmt_pieces(self.sv()));
        }
        out
    }
}

impl Ast {
    /// The printed form of this declaration or statement.
    pub fn display_pieces(&self) -> (r: Vec<Piece>)
        requires
            ast_printable(self.sv()),
        ensures
            pieces_view(r@) == ast_pieces(self.sv()),
    {
        let mut out: Vec<Piece> = Vec::new();
        proof {
            assert(pieces_view(out@) =~= Seq::<SPiece>::empty());
        }
        push_ast(self, &mut out);
        proof {
            assert(pieces_view(out@) =~= ast_pieces(self.sv()));
        }
        out
    }
}

} // verus!
