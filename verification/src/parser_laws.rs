use vstd::prelude::*;

use crate::ast::{ExprView, StmtView};
use crate::parser_spec::{
    arguments, assignment, at, binary, binary_rest, block, block_items, call, call_rest, check, class_declaration, consume,
    declaration, declarations, desugar_for, expression, literal_expr, expression_statement, finish_call, for_initializer, for_statement,
    function_declaration, if_statement, is_at_end, join, level_ops, level_rank, lone_expression, matches_any, methods,
    kind_body_msg, kind_name_msg, moved, operand, optional_expression, parameters, primary, print_statement, program, prompt_line, return_statement,
    statement, synchronize, ternary, unary, var_declaration, while_statement, FunctionKind, Level, PState,
    ParseErrorView,
};
use crate::token::{LiteralView, TokenType, TokenView};

verus! {

// ---------------------------------------------------------------------------
// The ids of the expressions of a tree.
// ---------------------------------------------------------------------------

/// The ids of the expression nodes of a tree, children before their parent.
pub open spec fn expr_ids(e: ExprView) -> Seq<nat>
    decreases e,
{
    match e {
        ExprView::Assign { value, id, .. } => expr_ids(*value).push(id),
        ExprView::Binary { left, right, id, .. } => (expr_ids(*left) + expr_ids(*right)).push(id),
        ExprView::Call { callee, arguments, id, .. } => (expr_ids(*callee) + exprs_ids(arguments)).push(id),
        ExprView::Get { object, id, .. } => expr_ids(*object).push(id),
        ExprView::Grouping { expression, id } => expr_ids(*expression).push(id),
        ExprView::Literal { id, .. } => seq![id],
        ExprView::Logical { left, right, id, .. } => (expr_ids(*left) + expr_ids(*right)).push(id),
        ExprView::SetProperty { object, value, id, .. } => (expr_ids(*object) + expr_ids(*value)).push(id),
        ExprView::Super { id, .. } => seq![id],
        ExprView::This { id, .. } => seq![id],
        ExprView::Unary { right, id, .. } => expr_ids(*right).push(id),
        ExprView::Ternary { condition, then_branch, else_branch, id } => (expr_ids(*condition) + expr_ids(*then_branch)
            + expr_ids(*else_branch)).push(id),
        ExprView::Variable { id, .. } => seq![id],
    }
}

/// The ids of the expression nodes of a sequence of trees, in order.
pub open spec fn exprs_ids(es: Seq<ExprView>) -> Seq<nat>
    decreases es,
{
    if es.len() == 0 {
        Seq::empty()
    } else {
        exprs_ids(es.drop_last()) + expr_ids(es.last())
    }
}

pub open spec fn opt_expr_ids(e: Option<ExprView>) -> Seq<nat> {
    match e {
        Some(x) => expr_ids(x),
        None => Seq::empty(),
    }
}

/// The ids of the expression nodes of a statement.
pub open spec fn stmt_ids(s: StmtView) -> Seq<nat>
    decreases s,
{
    match s {
        StmtView::Block { statements } => stmts_ids(statements),
        StmtView::Class { superclass, methods, .. } => (match superclass {
            Some(x) => expr_ids(x),
            None => Seq::empty(),
        }) + stmts_ids(methods),
        StmtView::Expression { expression } => expr_ids(expression),
        StmtView::Function { body, .. } => stmts_ids(body),
        StmtView::If { condition, then_branch, else_branch } => expr_ids(condition) + stmt_ids(*then_branch) + (
        match else_branch {
            Some(b) => stmt_ids(*b),
            None => Seq::empty(),
        }),
        StmtView::Print { expression } => expr_ids(expression),
        StmtView::Return { value, .. } => match value {
            Some(x) => expr_ids(x),
            None => Seq::empty(),
        },
        StmtView::Var { initializer, .. } => expr_ids(initializer),
        StmtView::While { condition, body } => expr_ids(condition) + stmt_ids(*body),
    }
}

/// The ids of the expression nodes of a sequence of statements, in order.
pub open spec fn stmts_ids(ss: Seq<StmtView>) -> Seq<nat>
    decreases ss,
{
    if ss.len() == 0 {
        Seq::empty()
    } else {
        stmts_ids(ss.drop_last()) + stmt_ids(ss.last())
    }
}

/// No id occurs twice, and every id lies in `[lo, hi)`.
pub open spec fn fresh(s: Seq<nat>, lo: nat, hi: nat) -> bool {
    &&& s.no_duplicates()
    &&& forall|i: int| 0 <= i < s.len() ==> lo <= #[trigger] s[i] < hi
}

proof fn lemma_fresh_empty(lo: nat, hi: nat)
    ensures
        fresh(Seq::empty(), lo, hi),
{
}

proof fn lemma_fresh_one(x: nat)
    ensures
        fresh(seq![x], x, x + 1),
{
}

proof fn lemma_fresh_weaken(s: Seq<nat>, lo: nat, hi: nat, lo2: nat, hi2: nat)
    requires
        fresh(s, lo, hi),
        lo2 <= lo,
        hi <= hi2,
    ensures
        fresh(s, lo2, hi2),
{
}

proof fn lemma_fresh_concat(a: Seq<nat>, lo1: nat, hi1: nat, b: Seq<nat>, lo2: nat, hi2: nat)
    requires
        fresh(a, lo1, hi1),
        fresh(b, lo2, hi2),
        hi1 <= lo2 || hi2 <= lo1,
    ensures
        fresh(a + b, if lo1 <= lo2 { lo1 } else { lo2 }, if hi1 <= hi2 { hi2 } else { hi1 }),
{
    let c = a + b;
    assert forall|i: int, j: int| 0 <= i < c.len() && 0 <= j < c.len() && i != j implies c[i] != c[j] by {
        if i < a.len() && j < a.len() {
        } else if i >= a.len() && j >= a.len() {
            assert(c[i] == b[i - a.len()]);
            assert(c[j] == b[j - a.len()]);
        } else if i < a.len() {
            assert(c[j] == b[j - a.len()]);
        } else {
            assert(c[i] == b[i - a.len()]);
        }
    }
    assert forall|i: int| 0 <= i < c.len() implies (if lo1 <= lo2 { lo1 } else { lo2 }) <= #[trigger] c[i] < (if hi1
        <= hi2 { hi2 } else { hi1 }) by {
        if i >= a.len() {
            assert(c[i] == b[i - a.len()]);
        }
    }
}

/// Two runs of ids, the second right after the first.
proof fn lemma_fresh_seq(a: Seq<nat>, lo: nat, mid: nat, b: Seq<nat>, hi: nat)
    requires
        fresh(a, lo, mid),
        fresh(b, mid, hi),
        lo <= mid <= hi,
    ensures
        fresh(a + b, lo, hi),
{
    lemma_fresh_concat(a, lo, mid, b, mid, hi);
}

/// A run of ids followed by the next id.
proof fn lemma_fresh_push(a: Seq<nat>, lo: nat, hi: nat)
    requires
        fresh(a, lo, hi),
        lo <= hi,
    ensures
        fresh(a.push(hi), lo, hi + 1),
{
    lemma_fresh_one(hi);
    lemma_fresh_concat(a, lo, hi, seq![hi], hi, hi + 1);
    assert(a + seq![hi] =~= a.push(hi));
}

proof fn lemma_fresh_drop_last(a: Seq<nat>, lo: nat, hi: nat)
    requires
        fresh(a, lo, hi),
        a.len() > 0,
    ensures
        fresh(a.drop_last(), lo, hi),
{
    assert forall|i: int| 0 <= i < a.drop_last().len() implies lo <= #[trigger] a.drop_last()[i] < hi by {
        assert(a.drop_last()[i] == a[i]);
    }
    assert forall|i: int, j: int|
        0 <= i < a.drop_last().len() && 0 <= j < a.drop_last().len() && i != j implies a.drop_last()[i]
        != a.drop_last()[j] by {
        assert(a.drop_last()[i] == a[i]);
        assert(a.drop_last()[j] == a[j]);
    }
}

proof fn lemma_exprs_ids_push(es: Seq<ExprView>, e: ExprView)
    ensures
        exprs_ids(es.push(e)) == exprs_ids(es) + expr_ids(e),
{
    assert(es.push(e).drop_last() =~= es);
}

proof fn lemma_stmts_ids_push(ss: Seq<StmtView>, s: StmtView)
    ensures
        stmts_ids(ss.push(s)) == stmts_ids(ss) + stmt_ids(s),
{
    assert(ss.push(s).drop_last() =~= ss);
}

// ---------------------------------------------------------------------------
// Expressions take fresh ids.
// ---------------------------------------------------------------------------

/// A parse result whose ids all lie in `[lo, end)`, where `end` (the next
/// free id after it) is at least `base`.
pub open spec fn fresh_expr(r: (Result<ExprView, ParseErrorView>, PState), lo: nat, base: nat) -> bool {
    &&& r.1.id >= base
    &&& r.0 matches Ok(e) ==> fresh(expr_ids(e), lo, r.1.id)
}

proof fn lemma_expression(t: Seq<TokenView>, st: PState)
    ensures
        fresh_expr(expression(t, st), st.id, st.id),
    decreases t.len() - st.pos, 100int,
{
    lemma_binary(Level::Comma, t, st);
}

proof fn lemma_operand(l: Level, t: Seq<TokenView>, st: PState)
    ensures
        fresh_expr(operand(l, t, st), st.id, st.id),
    decreases t.len() - st.pos, level_rank(l) - 2,
{
    match l {
        Level::Comma => lemma_assignment(t, st),
        Level::Or => lemma_binary(Level::And, t, st),
        Level::And => lemma_ternary(t, st),
        Level::Equality => lemma_binary(Level::Comparison, t, st),
        Level::Comparison => lemma_binary(Level::Term, t, st),
        Level::Term => lemma_binary(Level::Factor, t, st),
        Level::Factor => lemma_unary(t, st),
    }
}

proof fn lemma_binary(l: Level, t: Seq<TokenView>, st: PState)
    ensures
        fresh_expr(binary(l, t, st), st.id, st.id),
    decreases t.len() - st.pos, level_rank(l),
{
    let (r, st1) = operand(l, t, st);
    lemma_operand(l, t, st);
    if let Ok(left) = r {
        if st.pos <= st1.pos <= t.len() {
            lemma_binary_rest(l, t, left, st1, st.id);
        }
    }
}

proof fn lemma_join_ids(l: Level, left: ExprView, op: TokenView, right: ExprView, id: nat)
    ensures
        expr_ids(join(l, left, op, right, id)) == (expr_ids(left) + expr_ids(right)).push(id),
{
}

proof fn lemma_binary_rest(l: Level, t: Seq<TokenView>, left: ExprView, st: PState, lo: nat)
    requires
        lo <= st.id,
        fresh(expr_ids(left), lo, st.id),
    ensures
        fresh_expr(binary_rest(l, t, left, st), lo, st.id),
    decreases t.len() - st.pos, level_rank(l) - 1,
{
    if 0 <= st.pos < t.len() && matches_any(t, st.pos, level_ops(l)) {
        let op = t[st.pos];
        let (r, st2) = operand(l, t, at(st.pos + 1, st.id));
        lemma_operand(l, t, at(st.pos + 1, st.id));
        if let Ok(right) = r {
            let node = join(l, left, op, right, st2.id);
            lemma_join_ids(l, left, op, right, st2.id);
            lemma_fresh_seq(expr_ids(left), lo, st.id, expr_ids(right), st2.id);
            lemma_fresh_push(expr_ids(left) + expr_ids(right), lo, st2.id);
            let st3 = at(st2.pos, st2.id + 1);
            if st.pos < st3.pos <= t.len() {
                lemma_binary_rest(l, t, node, st3, lo);
            }
        }
    }
}

proof fn lemma_assignment(t: Seq<TokenView>, st: PState)
    ensures
        fresh_expr(assignment(t, st), st.id, st.id),
    decreases t.len() - st.pos, 96int,
{
    let (r, st1) = binary(Level::Or, t, st);
    lemma_binary(Level::Or, t, st);
    if let Ok(expr) = r {
        if st1.pos >= st.pos && 0 <= st1.pos < t.len() && matches_any(t, st1.pos, seq![TokenType::Equal]) {
            let (v, st2) = assignment(t, at(st1.pos + 1, st1.id));
            lemma_assignment(t, at(st1.pos + 1, st1.id));
            if let Ok(value) = v {
                match expr {
                    ExprView::Variable { .. } => {
                        lemma_fresh_push(expr_ids(value), st1.id, st2.id);
                        lemma_fresh_weaken(expr_ids(value).push(st2.id), st1.id, st2.id + 1, st.id, st2.id + 1);
                    },
                    ExprView::Get { object, .. } => {
                        lemma_fresh_drop_last(expr_ids(expr), st.id, st1.id);
                        assert(expr_ids(expr).drop_last() =~= expr_ids(*object));
                        lemma_fresh_seq(expr_ids(*object), st.id, st1.id, expr_ids(value), st2.id);
                        lemma_fresh_push(expr_ids(*object) + expr_ids(value), st.id, st2.id);
                    },
                    _ => {},
                }
            }
        }
    }
}

proof fn lemma_ternary(t: Seq<TokenView>, st: PState)
    ensures
        fresh_expr(ternary(t, st), st.id, st.id),
    decreases t.len() - st.pos, 89int,
{
    let (r, st1) = binary(Level::Equality, t, st);
    lemma_binary(Level::Equality, t, st);
    if let Ok(cond) = r {
        if st1.pos >= st.pos && 0 <= st1.pos < t.len() && matches_any(t, st1.pos, seq![TokenType::Question]) {
            let (r2, st2) = expression(t, at(st1.pos + 1, st1.id));
            lemma_expression(t, at(st1.pos + 1, st1.id));
            if let Ok(then_branch) = r2 {
                if 0 <= st2.pos < t.len() {
                    let (c, st3) = consume(
                        t,
                        st2,
                        TokenType::Colon,
                        "Expect ':' after then branch of ternary expression."@,
                    );
                    if c is Ok && st3.pos > st.pos {
                        let (r4, st4) = ternary(t, st3);
                        lemma_ternary(t, st3);
                        if let Ok(else_branch) = r4 {
                            lemma_fresh_seq(expr_ids(cond), st.id, st1.id, expr_ids(then_branch), st2.id);
                            lemma_fresh_seq(
                                expr_ids(cond) + expr_ids(then_branch),
                                st.id,
                                st2.id,
                                expr_ids(else_branch),
                                st4.id,
                            );
                            lemma_fresh_push(
                                expr_ids(cond) + expr_ids(then_branch) + expr_ids(else_branch),
                                st.id,
                                st4.id,
                            );
                        }
                    }
                }
            }
        }
    }
}

proof fn lemma_unary(t: Seq<TokenView>, st: PState)
    ensures
        fresh_expr(unary(t, st), st.id, st.id),
    decreases t.len() - st.pos, 76int,
{
    if 0 <= st.pos < t.len() && matches_any(t, st.pos, seq![TokenType::Bang, TokenType::Minus]) {
        let (r, st1) = unary(t, at(st.pos + 1, st.id));
        lemma_unary(t, at(st.pos + 1, st.id));
        if let Ok(right) = r {
            lemma_fresh_push(expr_ids(right), st.id, st1.id);
        }
    } else {
        lemma_call(t, st);
    }
}

proof fn lemma_call(t: Seq<TokenView>, st: PState)
    ensures
        fresh_expr(call(t, st), st.id, st.id),
    decreases t.len() - st.pos, 75int,
{
    let (r, st1) = primary(t, st);
    lemma_primary(t, st);
    if let Ok(e) = r {
        if st.pos <= st1.pos <= t.len() {
            lemma_call_rest(t, e, st1, st.id);
        }
    }
}

proof fn lemma_call_rest(t: Seq<TokenView>, callee: ExprView, st: PState, lo: nat)
    requires
        lo <= st.id,
        fresh(expr_ids(callee), lo, st.id),
    ensures
        fresh_expr(call_rest(t, callee, st), lo, st.id),
    decreases t.len() - st.pos, 74int,
{
    if !(0 <= st.pos < t.len()) {
    } else if matches_any(t, st.pos, seq![TokenType::LeftParen]) {
        let (r, st1) = finish_call(t, callee, at(st.pos + 1, st.id));
        lemma_finish_call(t, callee, at(st.pos + 1, st.id), lo);
        if let Ok(e) = r {
            if st.pos < st1.pos <= t.len() {
                lemma_call_rest(t, e, st1, lo);
            }
        }
    } else if matches_any(t, st.pos, seq![TokenType::Dot]) {
        let st0 = at(st.pos + 1, st.id);
        if st0.pos < t.len() {
            let (c, st1) = consume(t, st0, TokenType::Identifier, "Expect property name after '.'."@);
            if let Ok(name) = c {
                let get = ExprView::Get { object: Box::new(callee), name, id: st1.id };
                lemma_fresh_push(expr_ids(callee), lo, st.id);
                lemma_call_rest(t, get, at(st1.pos, st1.id + 1), lo);
            }
        }
    }
}

proof fn lemma_finish_call(t: Seq<TokenView>, callee: ExprView, st: PState, lo: nat)
    requires
        lo <= st.id,
        fresh(expr_ids(callee), lo, st.id),
    ensures
        fresh_expr(finish_call(t, callee, st), lo, st.id),
    decreases t.len() - st.pos, 99int,
{
    if 0 <= st.pos < t.len() {
        let (r, st1) = if !check(t, st.pos, TokenType::RightParen) {
            arguments(t, Seq::empty(), st)
        } else {
            (Ok(Seq::empty()), st)
        };
        if !check(t, st.pos, TokenType::RightParen) {
            lemma_fresh_empty(st.id, st.id);
            lemma_arguments(t, Seq::empty(), st, st.id);
        }
        if let Ok(args) = r {
            if 0 <= st1.pos < t.len() {
                let (c, st2) = consume(t, st1, TokenType::RightParen, "Expect ')' after arguments."@);
                if c is Ok {
                    lemma_fresh_seq(expr_ids(callee), lo, st.id, exprs_ids(args), st1.id);
                    lemma_fresh_push(expr_ids(callee) + exprs_ids(args), lo, st1.id);
                }
            }
        }
    }
}

proof fn lemma_arguments(t: Seq<TokenView>, args: Seq<ExprView>, st: PState, lo: nat)
    requires
        lo <= st.id,
        fresh(exprs_ids(args), lo, st.id),
    ensures
        arguments(t, args, st).1.id >= st.id,
        arguments(t, args, st).0 matches Ok(a) ==> fresh(exprs_ids(a), lo, arguments(t, args, st).1.id),
    decreases t.len() - st.pos, 97int,
{
    if 0 <= st.pos < t.len() && args.len() < 255 {
        let (r, st1) = assignment(t, st);
        lemma_assignment(t, st);
        if let Ok(a) = r {
            lemma_exprs_ids_push(args, a);
            lemma_fresh_seq(exprs_ids(args), lo, st.id, expr_ids(a), st1.id);
            if st1.pos >= st.pos && 0 <= st1.pos < t.len() && matches_any(t, st1.pos, seq![TokenType::Comma]) {
                lemma_arguments(t, args.push(a), at(st1.pos + 1, st1.id), lo);
            }
        }
    }
}

proof fn lemma_primary(t: Seq<TokenView>, st: PState)
    ensures
        fresh_expr(primary(t, st), st.id, st.id),
    decreases t.len() - st.pos, 70int,
{
    lemma_fresh_one(st.id);
    if 0 <= st.pos < t.len() {
        let p = st.pos;
        let next = at(p + 1, st.id);
        if matches_any(t, p, seq![TokenType::LeftParen]) && !matches_any(t, p, seq![TokenType::False])
            && !matches_any(t, p, seq![TokenType::True]) && !matches_any(t, p, seq![TokenType::Nil])
            && !matches_any(t, p, seq![TokenType::Number, TokenType::String]) && !matches_any(
            t,
            p,
            seq![TokenType::This],
        ) && !matches_any(t, p, seq![TokenType::Identifier]) {
            let (r, st1) = expression(t, next);
            lemma_expression(t, next);
            if let Ok(e) = r {
                lemma_fresh_push(expr_ids(e), st.id, st1.id);
            }
        }
    }
}

/// The expressions that parsing one expression builds take ids of their
/// own, no two the same, all from the ids that the parse used up.
pub proof fn law_expression_ids_fresh(t: Seq<TokenView>, st: PState)
    ensures
        expression(t, st).1.id >= st.id,
        expression(t, st).0 matches Ok(e) ==> fresh(expr_ids(e), st.id, expression(t, st).1.id),
{
    lemma_expression(t, st);
}

// ---------------------------------------------------------------------------
// Statements and programs take fresh ids.
// ---------------------------------------------------------------------------

pub open spec fn fresh_stmt(r: (Result<StmtView, ParseErrorView>, PState), lo: nat, base: nat) -> bool {
    &&& r.1.id >= base
    &&& r.0 matches Ok(s) ==> fresh(stmt_ids(s), lo, r.1.id)
}

pub open spec fn fresh_stmts(r: (Result<Seq<StmtView>, ParseErrorView>, PState), lo: nat, base: nat) -> bool {
    &&& r.1.id >= base
    &&& r.0 matches Ok(ss) ==> fresh(stmts_ids(ss), lo, r.1.id)
}

proof fn lemma_stmts_ids_one(a: StmtView)
    ensures
        stmts_ids(seq![a]) == stmt_ids(a),
{
    let one = seq![a];
    assert(one.drop_last() =~= Seq::<StmtView>::empty());
    assert(one.last() == a);
    assert(stmts_ids(Seq::<StmtView>::empty()) =~= Seq::<nat>::empty());
    assert(stmts_ids(one) == stmts_ids(one.drop_last()) + stmt_ids(one.last()));
    assert(Seq::<nat>::empty() + stmt_ids(a) =~= stmt_ids(a));
}

proof fn lemma_stmts_ids_two(a: StmtView, b: StmtView)
    ensures
        stmts_ids(seq![a, b]) == stmt_ids(a) + stmt_ids(b),
{
    assert(seq![a, b].drop_last() =~= seq![a]);
    lemma_stmts_ids_one(a);
}

proof fn lemma_parameters_id(t: Seq<TokenView>, params: Seq<TokenView>, st: PState)
    ensures
        parameters(t, params, st).1.id == st.id,
    decreases t.len() - st.pos,
{
    if params.len() < 255 {
        let (c, st1) = consume(t, st, TokenType::Identifier, "Expect parameter name."@);
        if let Ok(name) = c {
            if 0 <= st1.pos < t.len() && st.pos < st1.pos && matches_any(t, st1.pos, seq![TokenType::Comma]) {
                lemma_parameters_id(t, params.push(name), at(st1.pos + 1, st1.id));
            }
        }
    }
}

proof fn lemma_var_declaration(t: Seq<TokenView>, st: PState)
    ensures
        fresh_stmt(var_declaration(t, st), st.id, st.id),
{
    let (n, st1) = consume(t, st, TokenType::Identifier, "Expect variable name."@);
    if let Ok(name) = n {
        let st2 = at(st1.pos, st1.id + 1);
        lemma_fresh_one(st1.id);
        if matches_any(t, st2.pos, seq![TokenType::Equal]) {
            lemma_expression(t, at(st2.pos + 1, st2.id));
            let (r, st3) = expression(t, at(st2.pos + 1, st2.id));
            if let Ok(init) = r {
                lemma_fresh_weaken(expr_ids(init), st2.id, st3.id, st.id, st3.id);
            }
        }
    }
}

proof fn lemma_expression_statement(t: Seq<TokenView>, st: PState)
    ensures
        fresh_stmt(expression_statement(t, st), st.id, st.id),
{
    lemma_expression(t, st);
}

proof fn lemma_print_statement(t: Seq<TokenView>, st: PState)
    ensures
        fresh_stmt(print_statement(t, st), st.id, st.id),
{
    lemma_expression(t, st);
}

proof fn lemma_return_statement(t: Seq<TokenView>, keyword: TokenView, st: PState)
    ensures
        fresh_stmt(return_statement(t, keyword, st), st.id, st.id),
{
    lemma_expression(t, st);
    lemma_fresh_empty(st.id, st.id);
}

proof fn lemma_declaration(t: Seq<TokenView>, st: PState)
    ensures
        fresh_stmt(declaration(t, st), st.id, st.id),
    decreases t.len() - st.pos, 60int,
{
    let p = st.pos;
    if 0 <= p < t.len() {
        if matches_any(t, p, seq![TokenType::Var]) {
            lemma_var_declaration(t, at(p + 1, st.id));
        } else if matches_any(t, p, seq![TokenType::Fun]) {
            lemma_function_declaration(t, FunctionKind::Function, at(p + 1, st.id));
        } else if matches_any(t, p, seq![TokenType::Class]) {
            lemma_class_declaration(t, at(p + 1, st.id));
        } else {
            lemma_statement(t, st);
        }
    }
}

proof fn lemma_function_declaration(t: Seq<TokenView>, kind: FunctionKind, st: PState)
    ensures
        fresh_stmt(function_declaration(t, kind, st), st.id, st.id),
    decreases t.len() - st.pos, 44int,
{
    let (n, st1) = consume(t, st, TokenType::Identifier, kind_name_msg(kind));
    if n is Ok {
        let (c, st2) = consume(t, st1, TokenType::LeftParen, "Expect '(' after function name."@);
        if c is Ok {
            let (ps, st3) = if !check(t, st2.pos, TokenType::RightParen) {
                parameters(t, Seq::empty(), st2)
            } else {
                (Ok(Seq::empty()), st2)
            };
            lemma_parameters_id(t, Seq::empty(), st2);
            if ps is Ok {
                let (c2, st4) = consume(t, st3, TokenType::RightParen, "Expect ')' after parameters."@);
                if c2 is Ok {
                    let (c3, st5) = consume(t, st4, TokenType::LeftBrace, kind_body_msg(kind));
                    if c3 is Ok && moved(t, st, st5) {
                        lemma_block(t, st5);
                    }
                }
            }
        }
    }
}

proof fn lemma_class_declaration(t: Seq<TokenView>, st: PState)
    ensures
        fresh_stmt(class_declaration(t, st), st.id, st.id),
    decreases t.len() - st.pos, 46int,
{
    let (n, st1) = consume(t, st, TokenType::Identifier, "Expect class name."@);
    if n is Ok {
        let (sc, st2) = if matches_any(t, st1.pos, seq![TokenType::Less]) {
            let (c, s) = consume(t, at(st1.pos + 1, st1.id), TokenType::Identifier, "Expect superclass name."@);
            match c {
                Err(e) => (Err(e), s),
                Ok(sname) => (Ok(Some(ExprView::Variable { name: sname, id: s.id })), at(s.pos, s.id + 1)),
            }
        } else {
            (Ok(None), st1)
        };
        if let Ok(superclass) = sc {
            let sc_ids = match superclass {
                Some(x) => expr_ids(x),
                None => Seq::<nat>::empty(),
            };
            lemma_fresh_one(st.id);
            lemma_fresh_empty(st.id, st.id);
            assert(fresh(sc_ids, st.id, st2.id));
            let (c, st3) = consume(t, st2, TokenType::LeftBrace, "Expect '{' before class body."@);
            if c is Ok && moved(t, st, st3) {
                lemma_fresh_empty(st3.id, st3.id);
                lemma_methods(t, Seq::empty(), st3, st3.id);
                let (ms, st4) = methods(t, Seq::empty(), st3);
                if let Ok(methods) = ms {
                    lemma_fresh_seq(sc_ids, st.id, st2.id, stmts_ids(methods), st4.id);
                }
            }
        }
    }
}

proof fn lemma_methods(t: Seq<TokenView>, ms: Seq<StmtView>, st: PState, lo: nat)
    requires
        lo <= st.id,
        fresh(stmts_ids(ms), lo, st.id),
    ensures
        methods(t, ms, st).1.id >= st.id,
        methods(t, ms, st).0 matches Ok(all) ==> fresh(stmts_ids(all), lo, methods(t, ms, st).1.id),
    decreases t.len() - st.pos, 45int,
{
    if 0 <= st.pos < t.len() && !check(t, st.pos, TokenType::RightBrace) && !is_at_end(t, st.pos) {
        let (r, st1) = function_declaration(t, FunctionKind::Method, st);
        lemma_function_declaration(t, FunctionKind::Method, st);
        if let Ok(f) = r {
            lemma_stmts_ids_push(ms, f);
            lemma_fresh_seq(stmts_ids(ms), lo, st.id, stmt_ids(f), st1.id);
            if moved(t, st, st1) {
                lemma_methods(t, ms.push(f), st1, lo);
            }
        }
    }
}

proof fn lemma_statement(t: Seq<TokenView>, st: PState)
    ensures
        fresh_stmt(statement(t, st), st.id, st.id),
    decreases t.len() - st.pos, 59int,
{
    let p = st.pos;
    let next = at(p + 1, st.id);
    if !(0 <= p < t.len()) {
        lemma_expression_statement(t, st);
    } else if matches_any(t, p, seq![TokenType::Print]) {
        lemma_print_statement(t, next);
    } else if matches_any(t, p, seq![TokenType::LeftBrace]) {
        lemma_block(t, next);
    } else if matches_any(t, p, seq![TokenType::If]) {
        lemma_if_statement(t, next);
    } else if matches_any(t, p, seq![TokenType::While]) {
        lemma_while_statement(t, next);
    } else if matches_any(t, p, seq![TokenType::For]) {
        lemma_for_statement(t, next);
    } else if matches_any(t, p, seq![TokenType::Return]) {
        lemma_return_statement(t, t[p], next);
    } else {
        lemma_expression_statement(t, st);
    }
}

proof fn lemma_block(t: Seq<TokenView>, st: PState)
    ensures
        fresh_stmts(block(t, st), st.id, st.id),
    decreases t.len() - st.pos, 65int,
{
    lemma_fresh_empty(st.id, st.id);
    lemma_block_items(t, Seq::empty(), st, st.id);
}

proof fn lemma_block_items(t: Seq<TokenView>, ss: Seq<StmtView>, st: PState, lo: nat)
    requires
        lo <= st.id,
        fresh(stmts_ids(ss), lo, st.id),
    ensures
        block_items(t, ss, st).1.id >= st.id,
        block_items(t, ss, st).0 matches Ok(all) ==> fresh(stmts_ids(all), lo, block_items(t, ss, st).1.id),
    decreases t.len() - st.pos, 64int,
{
    if 0 <= st.pos < t.len() && !check(t, st.pos, TokenType::RightBrace) && !is_at_end(t, st.pos) {
        let (r, st1) = declaration(t, st);
        lemma_declaration(t, st);
        if let Ok(d) = r {
            lemma_stmts_ids_push(ss, d);
            lemma_fresh_seq(stmts_ids(ss), lo, st.id, stmt_ids(d), st1.id);
            if moved(t, st, st1) {
                lemma_block_items(t, ss.push(d), st1, lo);
            }
        }
    }
}

proof fn lemma_if_statement(t: Seq<TokenView>, st: PState)
    ensures
        fresh_stmt(if_statement(t, st), st.id, st.id),
    decreases t.len() - st.pos, 50int,
{
    let (c, st1) = consume(t, st, TokenType::LeftParen, "Expect '(' after 'if'."@);
    if c is Ok {
        let (r, st2) = expression(t, st1);
        lemma_expression(t, st1);
        if let Ok(condition) = r {
            let (c2, st3) = consume(t, st2, TokenType::RightParen, "Expect ')' after if condition."@);
            if c2 is Ok && moved(t, st, st3) {
                let (th, st4) = statement(t, st3);
                lemma_statement(t, st3);
                if let Ok(then_branch) = th {
                    lemma_fresh_seq(expr_ids(condition), st.id, st2.id, stmt_ids(then_branch), st4.id);
                    if moved(t, st, st4) && st4.pos < t.len() && matches_any(t, st4.pos, seq![TokenType::Else]) {
                        let (el, st5) = statement(t, at(st4.pos + 1, st4.id));
                        lemma_statement(t, at(st4.pos + 1, st4.id));
                        if let Ok(else_branch) = el {
                            lemma_fresh_seq(
                                expr_ids(condition) + stmt_ids(then_branch),
                                st.id,
                                st4.id,
                                stmt_ids(else_branch),
                                st5.id,
                            );
                        }
                    } else {
                        assert(expr_ids(condition) + stmt_ids(then_branch) + Seq::<nat>::empty() =~= expr_ids(
                            condition,
                        ) + stmt_ids(then_branch));
                    }
                }
            }
        }
    }
}

proof fn lemma_while_statement(t: Seq<TokenView>, st: PState)
    ensures
        fresh_stmt(while_statement(t, st), st.id, st.id),
    decreases t.len() - st.pos, 49int,
{
    let (c, st1) = consume(t, st, TokenType::LeftParen, "Expect '(' after 'while'."@);
    if c is Ok {
        let (r, st2) = expression(t, st1);
        lemma_expression(t, st1);
        if let Ok(condition) = r {
            let (c2, st3) = consume(t, st2, TokenType::RightParen, "Expect ')' after while condition."@);
            if c2 is Ok && moved(t, st, st3) {
                let (b, st4) = statement(t, st3);
                lemma_statement(t, st3);
                if let Ok(body) = b {
                    lemma_fresh_seq(expr_ids(condition), st.id, st2.id, stmt_ids(body), st4.id);
                }
            }
        }
    }
}

proof fn lemma_for_initializer(t: Seq<TokenView>, st: PState)
    ensures
        for_initializer(t, st).1.id >= st.id,
        for_initializer(t, st).0 matches Ok(i) ==> fresh(
            match i {
                Some(s) => stmt_ids(s),
                None => Seq::empty(),
            },
            st.id,
            for_initializer(t, st).1.id,
        ),
{
    lemma_var_declaration(t, at(st.pos + 1, st.id));
    lemma_expression_statement(t, st);
    lemma_fresh_empty(st.id, st.id);
}

proof fn lemma_optional_expression(t: Seq<TokenView>, st: PState, stop: TokenType)
    ensures
        optional_expression(t, st, stop).1.id >= st.id,
        optional_expression(t, st, stop).0 matches Ok(o) ==> fresh(
            opt_expr_ids(o),
            st.id,
            optional_expression(t, st, stop).1.id,
        ),
{
    lemma_expression(t, st);
    lemma_fresh_empty(st.id, st.id);
}

proof fn lemma_desugar_for(
    initializer: Option<StmtView>,
    condition: Option<ExprView>,
    increment: Option<ExprView>,
    body: StmtView,
    a: nat,
    b: nat,
    c: nat,
    d: nat,
    e: nat,
)
    requires
        a <= b <= c <= d <= e,
        fresh(
            match initializer {
                Some(s) => stmt_ids(s),
                None => Seq::empty(),
            },
            a,
            b,
        ),
        fresh(opt_expr_ids(condition), b, c),
        fresh(opt_expr_ids(increment), c, d),
        fresh(stmt_ids(body), d, e),
    ensures
        fresh(stmt_ids(desugar_for(initializer, condition, increment, body, e)), a, e + 1),
{
    let body1 = match increment {
        Some(inc) => StmtView::Block { statements: seq![body, StmtView::Expression { expression: inc }] },
        None => body,
    };
    match increment {
        Some(inc) => {
            lemma_stmts_ids_two(body, StmtView::Expression { expression: inc });
            lemma_fresh_concat(stmt_ids(body), d, e, expr_ids(inc), c, d);
        },
        None => {
            lemma_fresh_weaken(stmt_ids(body), d, e, c, e);
        },
    }
    assert(fresh(stmt_ids(body1), c, e));
    let cond = match condition {
        Some(x) => x,
        None => ExprView::Literal { value: LiteralView::Bool(true), id: e },
    };
    let looped = StmtView::While { condition: cond, body: Box::new(body1) };
    match condition {
        Some(x) => {
            lemma_fresh_seq(expr_ids(x), b, c, stmt_ids(body1), e);
            lemma_fresh_weaken(expr_ids(x) + stmt_ids(body1), b, e, b, e + 1);
        },
        None => {
            lemma_fresh_one(e);
            lemma_fresh_concat(seq![e], e, e + 1, stmt_ids(body1), c, e);
            lemma_fresh_weaken(seq![e] + stmt_ids(body1), c, e + 1, b, e + 1);
        },
    }
    assert(fresh(stmt_ids(looped), b, e + 1));
    match initializer {
        Some(init) => {
            lemma_stmts_ids_two(init, looped);
            lemma_fresh_seq(stmt_ids(init), a, b, stmt_ids(looped), e + 1);
        },
        None => {
            lemma_fresh_weaken(stmt_ids(looped), b, e + 1, a, e + 1);
        },
    }
}

proof fn lemma_for_statement(t: Seq<TokenView>, st: PState)
    ensures
        fresh_stmt(for_statement(t, st), st.id, st.id),
    decreases t.len() - st.pos, 48int,
{
    let (c, st1) = consume(t, st, TokenType::LeftParen, "Expect '(' after 'for'."@);
    if c is Ok {
        let (i, st2) = for_initializer(t, st1);
        lemma_for_initializer(t, st1);
        if let Ok(initializer) = i {
            let (cnd, st3) = optional_expression(t, st2, TokenType::Semicolon);
            lemma_optional_expression(t, st2, TokenType::Semicolon);
            if let Ok(condition) = cnd {
                let (c2, st4) = consume(t, st3, TokenType::Semicolon, "Expect ';' after loop condition."@);
                if c2 is Ok {
                    let (inc, st5) = optional_expression(t, st4, TokenType::RightParen);
                    lemma_optional_expression(t, st4, TokenType::RightParen);
                    if let Ok(increment) = inc {
                        let (c3, st6) = consume(t, st5, TokenType::RightParen, "Expect ')' after for clauses."@);
                        if c3 is Ok && moved(t, st, st6) {
                            let (b, st7) = statement(t, st6);
                            lemma_statement(t, st6);
                            if let Ok(body) = b {
                                lemma_desugar_for(
                                    initializer,
                                    condition,
                                    increment,
                                    body,
                                    st.id,
                                    st2.id,
                                    st3.id,
                                    st5.id,
                                    st7.id,
                                );
                            }
                        }
                    }
                }
            }
        }
    }
}

proof fn lemma_declarations(t: Seq<TokenView>, ss: Seq<StmtView>, errs: Seq<ParseErrorView>, st: PState, lo: nat)
    requires
        lo <= st.id,
        fresh(stmts_ids(ss), lo, st.id),
    ensures
        declarations(t, ss, errs, st).2.id >= st.id,
        fresh(stmts_ids(declarations(t, ss, errs, st).0), lo, declarations(t, ss, errs, st).2.id),
    decreases t.len() - st.pos,
{
    if 0 <= st.pos < t.len() && !is_at_end(t, st.pos) {
        let (r, st1) = declaration(t, st);
        lemma_declaration(t, st);
        match r {
            Ok(d) => {
                lemma_stmts_ids_push(ss, d);
                lemma_fresh_seq(stmts_ids(ss), lo, st.id, stmt_ids(d), st1.id);
                if moved(t, st, st1) {
                    lemma_declarations(t, ss.push(d), errs, st1, lo);
                }
            },
            Err(e) => {
                let st2 = at(synchronize(t, st1.pos), st1.id);
                lemma_fresh_weaken(stmts_ids(ss), lo, st.id, lo, st2.id);
                if moved(t, st, st2) {
                    lemma_declarations(t, ss, errs.push(e), st2, lo);
                }
            },
        }
    }
}

/// Every expression of a parsed program, or of a line parsed at the
/// prompt, has an id of its own: no two expressions of the result share one.
pub proof fn law_parsed_ids_unique(t: Seq<TokenView>, st: PState)
    ensures
        program(t, Seq::empty(), st).0 matches Ok(ss) ==> stmts_ids(ss).no_duplicates(),
        prompt_line(t, Seq::empty(), st).0 matches Ok(ss) ==> stmts_ids(ss).no_duplicates(),
{
    lemma_fresh_empty(st.id, st.id);
    lemma_declarations(t, Seq::empty(), Seq::empty(), st, st.id);
    lemma_expression(t, st);
    let st_retry = at(st.pos, expression(t, st).1.id);
    lemma_fresh_empty(st_retry.id, st_retry.id);
    lemma_declarations(t, Seq::empty(), Seq::empty(), st_retry, st_retry.id);
    if let Some((e, st2)) = lone_expression(t, st) {
        let print = StmtView::Print { expression: e };
        lemma_stmts_ids_one(print);
    }
}

// ---------------------------------------------------------------------------
// Binary operators between two numbers.
// ---------------------------------------------------------------------------

/// Which operators each level of left-associative operators takes.
proof fn lemma_level_ops(l: Level, tt: TokenType)
    ensures
        level_ops(l).contains(tt) <==> match l {
            Level::Comma => tt == TokenType::Comma,
            Level::Or => tt == TokenType::Or,
            Level::And => tt == TokenType::And,
            Level::Equality => tt == TokenType::BangEqual || tt == TokenType::EqualEqual,
            Level::Comparison => tt == TokenType::Greater || tt == TokenType::GreaterEqual || tt == TokenType::Less
                || tt == TokenType::LessEqual,
            Level::Term => tt == TokenType::Minus || tt == TokenType::Plus,
            Level::Factor => tt == TokenType::Slash || tt == TokenType::Star,
        },
{
    let s = level_ops(l);
    if s.contains(tt) {
        let k = choose|k: int| 0 <= k < s.len() && s[k] == tt;
        assert(0 <= k < s.len());
    }
    match l {
        Level::Comparison => {
            assert(s[0] == TokenType::Greater && s[1] == TokenType::GreaterEqual && s[2] == TokenType::Less && s[3]
                == TokenType::LessEqual);
            if tt == TokenType::Greater { assert(s[0] == tt); }
            if tt == TokenType::GreaterEqual { assert(s[1] == tt); }
            if tt == TokenType::Less { assert(s[2] == tt); }
            if tt == TokenType::LessEqual { assert(s[3] == tt); }
        },
        Level::Equality | Level::Term | Level::Factor => {
            assert(s.len() == 2);
            if tt == s[0] { assert(s.contains(tt)); }
            if tt == s[1] { assert(s.contains(tt)); }
        },
        _ => {
            assert(s.len() == 1);
            if tt == s[0] { assert(s.contains(tt)); }
        },
    }
}

/// A number token whose next token starts no call or property access
/// parses, at the level of unary operators, to its literal.
proof fn lemma_number_unary(t: Seq<TokenView>, st: PState)
    requires
        0 <= st.pos,
        st.pos + 1 < t.len(),
        t[st.pos].token_type == TokenType::Number,
        t[st.pos].literal is Some,
        t[st.pos + 1].token_type != TokenType::LeftParen,
        t[st.pos + 1].token_type != TokenType::Dot,
    ensures
        unary(t, st) == (
            Ok::<ExprView, ParseErrorView>(ExprView::Literal { value: t[st.pos].literal->0, id: st.id }),
            at(st.pos + 1, st.id + 1),
        ),
{
    let p = st.pos;
    assert(!seq![TokenType::Bang, TokenType::Minus].contains(TokenType::Number)) by {
        let s = seq![TokenType::Bang, TokenType::Minus];
        assert(s[0] != TokenType::Number && s[1] != TokenType::Number);
    }
    assert(!seq![TokenType::False].contains(TokenType::Number)) by {
        assert(seq![TokenType::False][0] != TokenType::Number);
    }
    assert(!seq![TokenType::True].contains(TokenType::Number)) by {
        assert(seq![TokenType::True][0] != TokenType::Number);
    }
    assert(!seq![TokenType::Nil].contains(TokenType::Number)) by {
        assert(seq![TokenType::Nil][0] != TokenType::Number);
    }
    assert(seq![TokenType::Number, TokenType::String].contains(TokenType::Number)) by {
        assert(seq![TokenType::Number, TokenType::String][0] == TokenType::Number);
    }
    let lit = ExprView::Literal { value: t[p].literal->0, id: st.id };
    assert(primary(t, st) == literal_expr(t[p].literal->0, at(p + 1, st.id)));
    let tt = t[p + 1].token_type;
    assert(!seq![TokenType::LeftParen].contains(tt)) by {
        assert(seq![TokenType::LeftParen][0] != tt);
    }
    assert(!seq![TokenType::Dot].contains(tt)) by {
        assert(seq![TokenType::Dot][0] != tt);
    }
    assert(call_rest(t, lit, at(p + 1, st.id + 1)) == (Ok::<ExprView, ParseErrorView>(lit), at(p + 1, st.id + 1)));
    assert(call(t, st) == (Ok::<ExprView, ParseErrorView>(lit), at(p + 1, st.id + 1)));
    assert(!matches_any(t, p, seq![TokenType::Bang, TokenType::Minus]));
}

/// A level whose operand ends before a token that is none of its operators
/// gives that operand.
proof fn lemma_binary_stops(l: Level, t: Seq<TokenView>, st: PState, x: ExprView, st1: PState)
    requires
        operand(l, t, st) == (Ok::<ExprView, ParseErrorView>(x), st1),
        0 <= st.pos <= st1.pos < t.len(),
        !level_ops(l).contains(t[st1.pos].token_type),
    ensures
        binary(l, t, st) == (Ok::<ExprView, ParseErrorView>(x), st1),
{
    assert(binary_rest(l, t, x, st1) == (Ok::<ExprView, ParseErrorView>(x), st1));
}

/// A level whose operand is followed by one of its operators and a second
/// operand, then a token that is none of its operators, joins the two.
proof fn lemma_binary_joins(l: Level, t: Seq<TokenView>, st: PState, x: ExprView, i1: nat, y: ExprView, i2: nat)
    requires
        0 <= st.pos,
        st.pos + 3 < t.len(),
        operand(l, t, st) == (Ok::<ExprView, ParseErrorView>(x), at(st.pos + 1, i1)),
        t[st.pos + 1].token_type != TokenType::Eof,
        level_ops(l).contains(t[st.pos + 1].token_type),
        operand(l, t, at(st.pos + 2, i1)) == (Ok::<ExprView, ParseErrorView>(y), at(st.pos + 3, i2)),
        !level_ops(l).contains(t[st.pos + 3].token_type),
    ensures
        binary(l, t, st) == (
            Ok::<ExprView, ParseErrorView>(join(l, x, t[st.pos + 1], y, i2)),
            at(st.pos + 3, i2 + 1),
        ),
{
    let node = join(l, x, t[st.pos + 1], y, i2);
    assert(binary_rest(l, t, node, at(st.pos + 3, i2 + 1)) == (
        Ok::<ExprView, ParseErrorView>(node),
        at(st.pos + 3, i2 + 1),
    ));
    assert(binary_rest(l, t, x, at(st.pos + 1, i1)) == (
        Ok::<ExprView, ParseErrorView>(node),
        at(st.pos + 3, i2 + 1),
    ));
}

/// Every binary operator of arithmetic, comparison and equality between two
/// numbers, followed by `;`, parses to one binary node: the left number, the
/// operator token itself, and the right number, with fresh ids in that
/// order; parsing stops at the `;`.
pub proof fn law_binary_operator_parses(t: Seq<TokenView>, st: PState)
    requires
        0 <= st.pos,
        st.pos + 3 < t.len(),
        t[st.pos].token_type == TokenType::Number,
        t[st.pos].literal is Some,
        t[st.pos + 2].token_type == TokenType::Number,
        t[st.pos + 2].literal is Some,
        t[st.pos + 3].token_type == TokenType::Semicolon,
        ({
            let tt = t[st.pos + 1].token_type;
            tt == TokenType::BangEqual || tt == TokenType::EqualEqual || tt == TokenType::Greater || tt
                == TokenType::GreaterEqual || tt == TokenType::Less || tt == TokenType::LessEqual || tt
                == TokenType::Minus || tt == TokenType::Plus || tt == TokenType::Slash || tt == TokenType::Star
        }),
    ensures
        expression(t, st) == (
            Ok::<ExprView, ParseErrorView>(
                ExprView::Binary {
                    left: Box::new(ExprView::Literal { value: t[st.pos].literal->0, id: st.id }),
                    operator: t[st.pos + 1],
                    right: Box::new(ExprView::Literal { value: t[st.pos + 2].literal->0, id: st.id + 1 }),
                    id: st.id + 2,
                },
            ),
            at(st.pos + 3, st.id + 3),
        ),
{
    let p = st.pos;
    let i = st.id;
    let op = t[p + 1].token_type;
    let semi = t[p + 3].token_type;
    let a = ExprView::Literal { value: t[p].literal->0, id: i };
    let b = ExprView::Literal { value: t[p + 2].literal->0, id: i + 1 };
    let left = (Ok::<ExprView, ParseErrorView>(a), at(p + 1, i + 1));
    let sr = at(p + 2, i + 1);
    let right = (Ok::<ExprView, ParseErrorView>(b), at(p + 3, i + 2));
    let node = ExprView::Binary { left: Box::new(a), operator: t[p + 1], right: Box::new(b), id: i + 2 };
    let whole = (Ok::<ExprView, ParseErrorView>(node), at(p + 3, i + 3));
    lemma_level_ops(Level::Comma, op);
    lemma_level_ops(Level::Or, op);
    lemma_level_ops(Level::And, op);
    lemma_level_ops(Level::Equality, op);
    lemma_level_ops(Level::Comparison, op);
    lemma_level_ops(Level::Term, op);
    lemma_level_ops(Level::Factor, op);
    lemma_level_ops(Level::Comma, semi);
    lemma_level_ops(Level::Or, semi);
    lemma_level_ops(Level::And, semi);
    lemma_level_ops(Level::Equality, semi);
    lemma_level_ops(Level::Comparison, semi);
    lemma_level_ops(Level::Term, semi);
    lemma_level_ops(Level::Factor, semi);
    lemma_number_unary(t, st);
    lemma_number_unary(t, sr);
    // The right operand, at every level up to comparison.
    lemma_binary_stops(Level::Factor, t, sr, b, at(p + 3, i + 2));
    lemma_binary_stops(Level::Term, t, sr, b, at(p + 3, i + 2));
    lemma_binary_stops(Level::Comparison, t, sr, b, at(p + 3, i + 2));
    // The left operand up to the operator's level, the join there, and the
    // node up to equality.
    if op == TokenType::Slash || op == TokenType::Star {
        lemma_binary_joins(Level::Factor, t, st, a, i + 1, b, i + 2);
        lemma_binary_stops(Level::Term, t, st, node, at(p + 3, i + 3));
        lemma_binary_stops(Level::Comparison, t, st, node, at(p + 3, i + 3));
        lemma_binary_stops(Level::Equality, t, st, node, at(p + 3, i + 3));
    } else if op == TokenType::Minus || op == TokenType::Plus {
        lemma_binary_stops(Level::Factor, t, st, a, at(p + 1, i + 1));
        lemma_binary_joins(Level::Term, t, st, a, i + 1, b, i + 2);
        lemma_binary_stops(Level::Comparison, t, st, node, at(p + 3, i + 3));
        lemma_binary_stops(Level::Equality, t, st, node, at(p + 3, i + 3));
    } else if op == TokenType::BangEqual || op == TokenType::EqualEqual {
        lemma_binary_stops(Level::Factor, t, st, a, at(p + 1, i + 1));
        lemma_binary_stops(Level::Term, t, st, a, at(p + 1, i + 1));
        lemma_binary_stops(Level::Comparison, t, st, a, at(p + 1, i + 1));
        lemma_binary_joins(Level::Equality, t, st, a, i + 1, b, i + 2);
    } else {
        lemma_binary_stops(Level::Factor, t, st, a, at(p + 1, i + 1));
        lemma_binary_stops(Level::Term, t, st, a, at(p + 1, i + 1));
        lemma_binary_joins(Level::Comparison, t, st, a, i + 1, b, i + 2);
        lemma_binary_stops(Level::Equality, t, st, node, at(p + 3, i + 3));
    }
    assert(binary(Level::Equality, t, st) == whole);
    // From equality up to a whole expression: `;` continues none of them.
    assert(!seq![TokenType::Question].contains(semi)) by {
        assert(seq![TokenType::Question][0] != semi);
    }
    assert(!seq![TokenType::Equal].contains(semi)) by {
        assert(seq![TokenType::Equal][0] != semi);
    }
    assert(ternary(t, st) == whole);
    lemma_binary_stops(Level::And, t, st, node, at(p + 3, i + 3));
    lemma_binary_stops(Level::Or, t, st, node, at(p + 3, i + 3));
    assert(assignment(t, st) == whole);
    lemma_binary_stops(Level::Comma, t, st, node, at(p + 3, i + 3));
}

} // verus!
