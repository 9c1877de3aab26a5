//! The indented listing of syntax trees: one line per node, nested nodes
//! four spaces further in. Leaves are shown by their `Debug` form, which
//! the caller writes into the slots the listing leaves for them.
use crate::ast::{
    asts_view, exprs_view, lemma_block_members_view, lemma_call_args_view, strings_view, Ast,
    AstExpr, AstStmt, SAst, SExpr, SStmt,
};
use crate::model::{Token, TokenView};
use crate::text::{push_char, string_of};
use vstd::prelude::*;

verus! {

/// A piece of a tree listing.
#[derive(Debug)]
pub enum ListingPiece {
    /// Text printed as it is.
    Text(String),
    /// The `Debug` form of this token.
    Token(Token),
    /// The `Debug` form of this expression.
    Expr(AstExpr),
    /// The `Debug` form of this optional expression.
    OptExpr(Option<AstExpr>),
}

/// The abstract value of a listing piece.
pub ghost enum SListingPiece {
    Text(Seq<char>),
    Token(TokenView),
    Expr(SExpr),
    OptExpr(Option<SExpr>),
}

/// The abstract value of an optional expression.
pub open spec fn opt_sv(o: Option<AstExpr>) -> Option<SExpr> {
    match o {
        Some(e) => Some(e.sv()),
        None => None,
    }
}

/// The abstract value of an optional boxed expression.
pub open spec fn opt_box_sv(o: Option<Box<SExpr>>) -> Option<SExpr> {
    match o {
        Some(e) => Some(*e),
        None => None,
    }
}

impl View for ListingPiece {
    type V = SListingPiece;

    open spec fn view(&self) -> SListingPiece {
        match self {
            ListingPiece::Text(s) => SListingPiece::Text(s@),
            ListingPiece::Token(t) => SListingPiece::Token(t@),
            ListingPiece::Expr(e) => SListingPiece::Expr(e.sv()),
            ListingPiece::OptExpr(o) => SListingPiece::OptExpr(opt_sv(*o)),
        }
    }
}

/// The abstract values of a sequence of listing pieces.
pub open spec fn listing_view(v: Seq<ListingPiece>) -> Seq<SListingPiece> {
    v.map_values(|p: ListingPiece| p@)
}

/// A single text piece.
pub open spec fn lt(s: Seq<char>) -> Seq<SListingPiece> {
    seq![SListingPiece::Text(s)]
}

/// One step of indentation.
pub open spec fn step_in() -> Seq<char> {
    seq![' ', ' ', ' ', ' ']
}

/// The parameters of a function, each after the indentation `ind`,
/// separated by `, `.
pub open spec fn list_params(names: Seq<Seq<char>>, ind: Seq<char>) -> Seq<SListingPiece>
    decreases names.len(),
{
    if names.len() == 0 {
        Seq::empty()
    } else if names.len() == 1 {
        lt(ind) + lt(names[0])
    } else {
        list_params(names.drop_last(), ind) + lt(", "@) + lt(ind) + lt(names.last())
    }
}

/// The listing of a declaration or statement at indentation `ind`.
pub open spec fn list_node(a: SAst, ind: Seq<char>) -> Seq<SListingPiece>
    decreases a,
{
    match a {
        SAst::Class => lt(ind) + lt("Class\n"@),
        SAst::Function { name, params, body } => lt(ind) + lt("Function "@) + lt(name) + lt("("@)
            + list_params(params, ind) + lt(")\n"@) + list_node(*body, ind + step_in()),
        SAst::Variable { name, initializer } => lt(ind) + lt("Variable("@) + seq![
            SListingPiece::Token(name),
        ] + lt(", "@) + seq![SListingPiece::OptExpr(opt_box_sv(initializer))] + lt("),\n"@),
        SAst::Block(v) => lt(ind) + lt("Block(\n"@) + list_nodes(v, ind + step_in()) + lt(ind) + lt(
            ")\n"@,
        ),
        SAst::Statement(s) => lt(ind) + lt("Statement(\n"@) + list_stmt(s, ind + step_in()) + lt(ind)
            + lt(")\n"@),
        SAst::Expression(e) => lt(ind) + lt("Expression(\n"@) + list_expr(e, ind + step_in()) + lt(
            ind,
        ) + lt(")\n"@),
    }
}

/// The listings of several declarations, one after the other.
pub open spec fn list_nodes(v: Seq<SAst>, ind: Seq<char>) -> Seq<SListingPiece>
    decreases v,
{
    if v.len() == 0 {
        Seq::empty()
    } else {
        list_nodes(v.drop_last(), ind) + list_node(v.last(), ind)
    }
}

/// The listing of a statement at indentation `ind`.
pub open spec fn list_stmt(s: SStmt, ind: Seq<char>) -> Seq<SListingPiece>
    decreases s,
{
    match s {
        SStmt::If { condition, then, or_else } => lt(ind) + lt("If(\n"@) + list_expr(
            *condition,
            ind + step_in(),
        ) + lt(ind) + lt(",\n"@) + list_node(*then, ind + step_in()) + (match or_else {
            Some(e) => lt(ind) + lt(",\n"@) + list_node(*e, ind + step_in()),
            None => Seq::empty(),
        }) + lt(ind) + lt(")\n"@),
        SStmt::While(c, b) => lt(ind) + lt("While(\n"@) + list_expr(*c, ind + step_in()) + lt(ind)
            + lt(",\n"@) + list_node(*b, ind + step_in()) + lt(ind) + lt(")\n"@),
        SStmt::Return(e) => lt(ind) + lt("Return("@) + seq![SListingPiece::OptExpr(opt_box_sv(e))]
            + lt(")\n"@),
        SStmt::Print(e) => lt(ind) + lt("Print(\n"@) + list_expr(e, ind + step_in()) + lt(ind) + lt(
            ")\n"@,
        ),
        SStmt::Expression(e) => list_expr(e, ind),
    }
}

/// The listing of an expression at indentation `ind`.
pub open spec fn list_expr(e: SExpr, ind: Seq<char>) -> Seq<SListingPiece>
    decreases e,
{
    match e {
        SExpr::Call { func, args, site: _ } => lt(ind) + lt("Call {\n"@) + lt(ind) + lt(
            "    callee: "@,
        ) + lt(func) + lt("\n"@) + lt(ind) + lt("    args: [\n"@) + list_args(
            args,
            ind + step_in() + step_in(),
        ) + lt(ind) + lt("    ]\n"@) + lt(ind) + lt("}\n"@),
        SExpr::Assignment { id, expr } => lt(ind) + lt("Assignment { id: \""@) + lt(id) + lt(
            "\", expr: "@,
        ) + seq![SListingPiece::Expr(*expr)] + lt(" }\n"@),
        SExpr::Logical { op, left, right } => lt(ind) + lt("Logical { op: "@) + seq![
            SListingPiece::Token(op),
        ] + lt(", left: "@) + seq![SListingPiece::Expr(*left)] + lt(", right: "@) + seq![
            SListingPiece::Expr(*right),
        ] + lt(" }\n"@),
        SExpr::Terminal(t) => lt(ind) + lt("Terminal("@) + seq![SListingPiece::Token(t)] + lt(
            ")\n"@,
        ),
        SExpr::Group(inner) => lt(ind) + lt("Group(\n"@) + list_expr(*inner, ind + step_in()) + lt(
            ind,
        ) + lt(")\n"@),
        SExpr::Unary { op, exp } => lt(ind) + lt("Unary { op: "@) + seq![SListingPiece::Token(op)]
            + lt(", exp: "@) + seq![SListingPiece::Expr(*exp)] + lt(" }\n"@),
        SExpr::Binary { op, left, right } => lt(ind) + lt("Binary { op: "@) + seq![
            SListingPiece::Token(op),
        ] + lt(", left: "@) + seq![SListingPiece::Expr(*left)] + lt(", right: "@) + seq![
            SListingPiece::Expr(*right),
        ] + lt(" }\n"@),
    }
}

/// The listings of call arguments, one after the other.
pub open spec fn list_args(args: Seq<SExpr>, ind: Seq<char>) -> Seq<SListingPiece>
    decreases args,
{
    if args.len() == 0 {
        Seq::empty()
    } else {
        list_args(args.drop_last(), ind) + list_expr(args.last(), ind)
    }
}

/// The listing of the declarations `v`, under the heading `AST:`.
pub open spec fn spec_listing(v: Seq<SAst>) -> Seq<SListingPiece> {
    lt("AST:\n"@) + list_nodes(v, Seq::empty())
}

/// Appends a text piece.
fn push_text(out: &mut Vec<ListingPiece>, s: String)
    ensures
        listing_view(final(out)@) == listing_view(old(out)@) + lt(s@),
{
    let ghost before = out@;
    let ghost sv = s@;
    out.push(ListingPiece::Text(s));
    proof {
        assert(listing_view(out@) =~= listing_view(before) + lt(sv));
    }
}

/// Appends a text piece holding `s`.
fn push_lit(out: &mut Vec<ListingPiece>, s: &str)
    ensures
        listing_view(final(out)@) == listing_view(old(out)@) + lt(s@),
{
    push_text(out, string_of(s));
}

/// Appends the slot for the `Debug` form of a token.
fn push_token(out: &mut Vec<ListingPiece>, t: &Token)
    ensures
        listing_view(final(out)@) == listing_view(old(out)@) + seq![SListingPiece::Token(t@)],
{
    let ghost before = out@;
    out.push(ListingPiece::Token(t.duplicate()));
    proof {
        assert(listing_view(out@) =~= listing_view(before) + seq![SListingPiece::Token(t@)]);
    }
}

/// Appends the slot for the `Debug` form of an expression.
fn push_expr_slot(out: &mut Vec<ListingPiece>, e: &AstExpr)
    ensures
        listing_view(final(out)@) == listing_view(old(out)@) + seq![SListingPiece::Expr(e.sv())],
{
    let ghost before = out@;
    out.push(ListingPiece::Expr(e.duplicate()));
    proof {
        assert(listing_view(out@) =~= listing_view(before) + seq![SListingPiece::Expr(e.sv())]);
    }
}

/// Appends the slot for the `Debug` form of an optional expression.
fn push_opt_slot(out: &mut Vec<ListingPiece>, o: &Option<Box<AstExpr>>)
    ensures
        listing_view(final(out)@) == listing_view(old(out)@) + seq![
            SListingPiece::OptExpr(
                match o {
                    Some(e) => Some(e.sv()),
                    None => None,
                },
            ),
        ],
{
    let ghost before = out@;
    let copy = match o {
        Some(e) => Some(e.duplicate()),
        None => None,
    };
    out.push(ListingPiece::OptExpr(copy));
    proof {
        assert(listing_view(out@) =~= listing_view(before) + seq![
            SListingPiece::OptExpr(
                match o {
                    Some(e) => Some(e.sv()),
                    None => None,
                },
            ),
        ]);
    }
}

/// The indentation one step further in than `ind`.
fn deeper(ind: &String) -> (r: String)
    ensures
        r@ == ind@ + step_in(),
{
    let mut s = ind.clone();
    push_char(&mut s, ' ');
    push_char(&mut s, ' ');
    push_char(&mut s, ' ');
    push_char(&mut s, ' ');
    assert(s@ =~= ind@ + step_in());
    s
}

/// Appends the parameters of a function, each after the indentation.
fn push_params(names: &Vec<String>, ind: &String, out: &mut Vec<ListingPiece>)
    ensures
        listing_view(final(out)@) == listing_view(old(out)@) + list_params(strings_view(names@), ind@),
{
    let ghost before = listing_view(out@);
    let ghost all = strings_view(names@);
    let mut i: usize = 0;
    proof {
        assert(all.take(0) =~= Seq::<Seq<char>>::empty());
        assert(listing_view(out@) =~= before + list_params(all.take(0), ind@));
    }
    while i < names.len()
        invariant
            0 <= i <= names.len(),
            all == strings_view(names@),
            listing_view(out@) == before + list_params(all.take(i as int), ind@),
        decreases names.len() - i,
    {
        if i > 0 {
            push_lit(out, ", ");
        }
        push_text(out, ind.clone());
        push_text(out, names[i].clone());
        proof {
            let t = all.take(i + 1);
            assert(t.drop_last() =~= all.take(i as int));
            assert(t.last() == all[i as int]);
            assert(listing_view(out@) =~= before + list_params(t, ind@));
        }
        i = i + 1;
    }
    proof {
        assert(all.take(names.len() as int) =~= all);
    }
}

/// Appends the listing of a declaration or statement.
fn push_node(a: &Ast, ind: &String, out: &mut Vec<ListingPiece>)
    ensures
        listing_view(final(out)@) == listing_view(old(out)@) + list_node(a.sv(), ind@),
    decreases a,
{
    let ghost before = listing_view(out@);
    match a {
        Ast::Class => {
            push_text(out, ind.clone());
            push_lit(out, "Class\n");
        },
        Ast::Function { name, params, body } => {
            push_text(out, ind.clone());
            push_lit(out, "Function ");
            push_text(out, name.clone());
            push_lit(out, "(");
            push_params(params, ind, out);
            push_lit(out, ")\n");
            let child = deeper(ind);
            push_node(body, &child, out);
        },
        Ast::Variable { name, initializer } => {
            push_text(out, ind.clone());
            push_lit(out, "Variable(");
            push_token(out, name);
            push_lit(out, ", ");
            push_opt_slot(out, initializer);
            push_lit(out, "),\n");
        },
        Ast::Block(v) => {
            proof {
                lemma_block_members_view(*a);
            }
            push_text(out, ind.clone());
            push_lit(out, "Block(\n");
            let child = deeper(ind);
            push_nodes(v, &child, out);
            push_text(out, ind.clone());
            push_lit(out, ")\n");
        },
        Ast::Statement(st) => {
            push_text(out, ind.clone());
            push_lit(out, "Statement(\n");
            let child = deeper(ind);
            push_stmt(st, &child, out);
            push_text(out, ind.clone());
            push_lit(out, ")\n");
        },
        Ast::Expression(e) => {
            push_text(out, ind.clone());
            push_lit(out, "Expression(\n");
            let child = deeper(ind);
            push_expr(e, &child, out);
            push_text(out, ind.clone());
            push_lit(out, ")\n");
        },
    }
    proof {
        assert(listing_view(out@) =~= before + list_node(a.sv(), ind@));
    }
}

/// Appends the listings of several declarations.
fn push_nodes(v: &Vec<Ast>, ind: &String, out: &mut Vec<ListingPiece>)
    ensures
        listing_view(final(out)@) == listing_view(old(out)@) + list_nodes(asts_view(v@), ind@),
    decreases v,
{
    let ghost before = listing_view(out@);
    let ghost all = asts_view(v@);
    let mut i: usize = 0;
    proof {
        assert(all.take(0) =~= Seq::<SAst>::empty());
        assert(listing_view(out@) =~= before + list_nodes(all.take(0), ind@));
    }
    while i < v.len()
        invariant
            0 <= i <= v.len(),
            all == asts_view(v@),
            listing_view(out@) == before + list_nodes(all.take(i as int), ind@),
        decreases v.len() - i,
    {
        push_node(&v[i], ind, out);
        proof {
            let t = all.take(i + 1);
            assert(t.drop_last() =~= all.take(i as int));
            assert(t.last() == all[i as int]);
            assert(listing_view(out@) =~= before + list_nodes(t, ind@));
        }
        i = i + 1;
    }
    proof {
        assert(all.take(v.len() as int) =~= all);
    }
}

/// Appends the listing of a statement.
#[verifier::rlimit(50)]
fn push_stmt(st: &AstStmt, ind: &String, out: &mut Vec<ListingPiece>)
    ensures
        listing_view(final(out)@) == listing_view(old(out)@) + list_stmt(st.sv(), ind@),
    decreases st,
{
    let ghost before = listing_view(out@);
    match st {
        AstStmt::If { condition, then, or_else } => {
            let child = deeper(ind);
            push_text(out, ind.clone());
            push_lit(out, "If(\n");
            push_expr(condition, &child, out);
            push_text(out, ind.clone());
            push_lit(out, ",\n");
            push_node(then, &child, out);
            match or_else {
                Some(e) => {
                    push_text(out, ind.clone());
                    push_lit(out, ",\n");
                    push_node(e, &child, out);
                },
                None => {},
            }
            push_text(out, ind.clone());
            push_lit(out, ")\n");
        },
        AstStmt::While(c, b) => {
            let child = deeper(ind);
            push_text(out, ind.clone());
            push_lit(out, "While(\n");
            push_expr(c, &child, out);
            push_text(out, ind.clone());
            push_lit(out, ",\n");
            push_node(b, &child, out);
            push_text(out, ind.clone());
            push_lit(out, ")\n");
        },
        AstStmt::Return(e) => {
            push_text(out, ind.clone());
            push_lit(out, "Return(");
            push_opt_slot(out, e);
            push_lit(out, ")\n");
        },
        AstStmt::Print(e) => {
            let child = deeper(ind);
            push_text(out, ind.clone());
            push_lit(out, "Print(\n");
            push_expr(e, &child, out);
            push_text(out, ind.clone());
            push_lit(out, ")\n");
        },
        AstStmt::Expression(e) => push_expr(e, ind, out),
    }
    proof {
        assert(listing_view(out@) =~= before + list_stmt(st.sv(), ind@));
    }
}

/// Appends the listing of an expression.
fn push_expr(e: &AstExpr, ind: &String, out: &mut Vec<ListingPiece>)
    ensures
        listing_view(final(out)@) == listing_view(old(out)@) + list_expr(e.sv(), ind@),
    decreases e,
{
    let ghost before = listing_view(out@);
    match e {
        AstExpr::Call { func, args, site: _ } => {
            proof {
                lemma_call_args_view(*e);
            }
            push_text(out, ind.clone());
            push_lit(out, "Call {\n");
            push_text(out, ind.clone());
            push_lit(out, "    callee: ");
            push_text(out, func.clone());
            push_lit(out, "\n");
            push_text(out, ind.clone());
            push_lit(out, "    args: [\n");
            let child = deeper(ind);
            let grandchild = deeper(&child);
            push_args(args, &grandchild, out);
            push_text(out, ind.clone());
            push_lit(out, "    ]\n");
            push_text(out, ind.clone());
            push_lit(out, "}\n");
        },
        AstExpr::Assignment { id, expr } => {
            push_text(out, ind.clone());
            push_lit(out, "Assignment { id: \"");
            push_text(out, id.clone());
            push_lit(out, "\", expr: ");
            push_expr_slot(out, expr);
            push_lit(out, " }\n");
        },
        AstExpr::Logical { op, left, right } => {
            push_text(out, ind.clone());
            push_lit(out, "Logical { op: ");
            push_token(out, op);
            push_lit(out, ", left: ");
            push_expr_slot(out, left);
            push_lit(out, ", right: ");
            push_expr_slot(out, right);
            push_lit(out, " }\n");
        },
        AstExpr::Terminal(t) => {
            push_text(out, ind.clone());
            push_lit(out, "Terminal(");
            push_token(out, t);
            push_lit(out, ")\n");
        },
        AstExpr::Group(inner) => {
            let child = deeper(ind);
            push_text(out, ind.clone());
            push_lit(out, "Group(\n");
            push_expr(inner, &child, out);
            push_text(out, ind.clone());
            push_lit(out, ")\n");
        },
        AstExpr::Unary { op, exp } => {
            push_text(out, ind.clone());
            push_lit(out, "Unary { op: ");
            push_token(out, op);
            push_lit(out, ", exp: ");
            push_expr_slot(out, exp);
            push_lit(out, " }\n");
        },
        AstExpr::Binary { op, left, right } => {
            push_text(out, ind.clone());
            push_lit(out, "Binary { op: ");
            push_token(out, op);
            push_lit(out, ", left: ");
            push_expr_slot(out, left);
            push_lit(out, ", right: ");
            push_expr_slot(out, right);
            push_lit(out, " }\n");
        },
    }
    proof {
        assert(listing_view(out@) =~= before + list_expr(e.sv(), ind@));
    }
}

/// Appends the listings of call arguments.
fn push_args(args: &Vec<AstExpr>, ind: &String, out: &mut Vec<ListingPiece>)
    ensures
        listing_view(final(out)@) == listing_view(old(out)@) + list_args(exprs_view(args@), ind@),
    decreases args,
{
    let ghost before = listing_view(out@);
    let ghost all = exprs_view(args@);
    let mut i: usize = 0;
    proof {
        assert(all.take(0) =~= Seq::<SExpr>::empty());
        assert(listing_view(out@) =~= before + list_args(all.take(0), ind@));
    }
    while i < args.len()
        invariant
            0 <= i <= args.len(),
            all == exprs_view(args@),
            listing_view(out@) == before + list_args(all.take(i as int), ind@),
        decreases args.len() - i,
    {
        push_expr(&args[i], ind, out);
        proof {
            let t = all.take(i + 1);
            assert(t.drop_last() =~= all.take(i as int));
            assert(t.last() == all[i as int]);
            assert(listing_view(out@) =~= before + list_args(t, ind@));
        }
        i = i + 1;
    }
    proof {
        assert(all.take(args.len() as int) =~= all);
    }
}

/// The indented listing of the declarations `v`, under the heading
/// `AST:`, with slots for the `Debug` forms of its leaves.
pub fn listing(v: &Vec<Ast>) -> (r: Vec<ListingPiece>)
    ensures
        listing_view(r@) == spec_listing(asts_view(v@)),
{
    let mut out: Vec<ListingPiece> = Vec::new();
    proof {
        assert(listing_view(out@) =~= Seq::<SListingPiece>::empty());
    }
    push_lit(&mut out, "AST:\n");
    let ind = String::new();
    push_nodes(v, &ind, &mut out);
    proof {
        assert(ind@ =~= Seq::<char>::empty());
        assert(listing_view(out@) =~= spec_listing(asts_view(v@)));
    }
    out
}

} // verus!
