use vstd::prelude::*;

use crate::token::{Literal, LiteralView, Token, TokenView};

verus! {

/// An expression of Lox. Every node carries an id that is unique within a
/// parse, so that two nodes with the same shape can still be told apart:
/// two expressions are equal, and hash alike, exactly when their ids are.
#[derive(Debug)]
#[allow(inconsistent_fields)]
pub enum Expr {
    Assign { name: Token, value: Box<Expr>, id: usize },
    Binary { left: Box<Expr>, operator: Token, right: Box<Expr>, id: usize },
    Call { callee: Box<Expr>, paren: Token, arguments: Vec<Expr>, id: usize },
    Get { object: Box<Expr>, name: Token, id: usize },
    Grouping { expression: Box<Expr>, id: usize },
    Literal { value: Literal, id: usize },
    Logical { left: Box<Expr>, operator: Token, right: Box<Expr>, id: usize },
    SetProperty { object: Box<Expr>, name: Token, value: Box<Expr>, id: usize },
    Super { keyword: Token, method: Token, id: usize },
    This { keyword: Token, id: usize },
    Unary { operator: Token, right: Box<Expr>, id: usize },
    Ternary { condition: Box<Expr>, then_branch: Box<Expr>, else_branch: Box<Expr>, id: usize },
    Variable { name: Token, id: usize },
}

/// A statement of Lox.
#[derive(Debug)]
#[allow(inconsistent_fields)]
pub enum Stmt {
    Block { statements: Vec<Stmt> },
    Class { name: Token, superclass: Option<Box<Expr>>, methods: Vec<Stmt> },
    Expression { expression: Box<Expr> },
    Function { name: Token, params: Vec<Token>, body: Vec<Stmt> },
    If { condition: Box<Expr>, then_branch: Box<Stmt>, else_branch: Option<Box<Stmt>> },
    Print { expression: Box<Expr> },
    Return { keyword: Token, value: Option<Box<Expr>> },
    Var { name: Token, initializer: Box<Expr> },
    While { condition: Box<Expr>, body: Box<Stmt> },
}

/// The mathematical model of an [`Expr`].
#[allow(inconsistent_fields)]
pub enum ExprView {
    Assign { name: TokenView, value: Box<ExprView>, id: nat },
    Binary { left: Box<ExprView>, operator: TokenView, right: Box<ExprView>, id: nat },
    Call { callee: Box<ExprView>, paren: TokenView, arguments: Seq<ExprView>, id: nat },
    Get { object: Box<ExprView>, name: TokenView, id: nat },
    Grouping { expression: Box<ExprView>, id: nat },
    Literal { value: LiteralView, id: nat },
    Logical { left: Box<ExprView>, operator: TokenView, right: Box<ExprView>, id: nat },
    SetProperty { object: Box<ExprView>, name: TokenView, value: Box<ExprView>, id: nat },
    Super { keyword: TokenView, method: TokenView, id: nat },
    This { keyword: TokenView, id: nat },
    Unary { operator: TokenView, right: Box<ExprView>, id: nat },
    Ternary { condition: Box<ExprView>, then_branch: Box<ExprView>, else_branch: Box<ExprView>, id: nat },
    Variable { name: TokenView, id: nat },
}

/// The mathematical model of a [`Stmt`].
#[allow(inconsistent_fields)]
pub enum StmtView {
    Block { statements: Seq<StmtView> },
    Class { name: TokenView, superclass: Option<ExprView>, methods: Seq<StmtView> },
    Expression { expression: ExprView },
    Function { name: TokenView, params: Seq<TokenView>, body: Seq<StmtView> },
    If { condition: ExprView, then_branch: Box<StmtView>, else_branch: Option<Box<StmtView>> },
    Print { expression: ExprView },
    Return { keyword: TokenView, value: Option<ExprView> },
    Var { name: TokenView, initializer: ExprView },
    While { condition: ExprView, body: Box<StmtView> },
}

pub open spec fn exprs_view(es: Seq<Expr>) -> Seq<ExprView>
    decreases es,
{
    if es.len() == 0 {
        Seq::empty()
    } else {
        exprs_view(es.drop_last()).push(expr_view(es.last()))
    }
}

pub open spec fn expr_view(e: Expr) -> ExprView
    decreases e,
{
    match e {
        Expr::Assign { name, value, id } => ExprView::Assign { name: name@, value: Box::new(expr_view(*value)), id: id as nat },
        Expr::Binary { left, operator, right, id } => ExprView::Binary {
            left: Box::new(expr_view(*left)),
            operator: operator@,
            right: Box::new(expr_view(*right)),
            id: id as nat,
        },
        Expr::Call { callee, paren, arguments, id } => ExprView::Call {
            callee: Box::new(expr_view(*callee)),
            paren: paren@,
            arguments: exprs_view(arguments@),
            id: id as nat,
        },
        Expr::Get { object, name, id } => ExprView::Get { object: Box::new(expr_view(*object)), name: name@, id: id as nat },
        Expr::Grouping { expression, id } => ExprView::Grouping { expression: Box::new(expr_view(*expression)), id: id as nat },
        Expr::Literal { value, id } => ExprView::Literal { value: value@, id: id as nat },
        Expr::Logical { left, operator, right, id } => ExprView::Logical {
            left: Box::new(expr_view(*left)),
            operator: operator@,
            right: Box::new(expr_view(*right)),
            id: id as nat,
        },
        Expr::SetProperty { object, name, value, id } => ExprView::SetProperty {
            object: Box::new(expr_view(*object)),
            name: name@,
            value: Box::new(expr_view(*value)),
            id: id as nat,
        },
        Expr::Super { keyword, method, id } => ExprView::Super { keyword: keyword@, method: method@, id: id as nat },
        Expr::This { keyword, id } => ExprView::This { keyword: keyword@, id: id as nat },
        Expr::Unary { operator, right, id } => ExprView::Unary { operator: operator@, right: Box::new(expr_view(*right)), id: id as nat },
        Expr::Ternary { condition, then_branch, else_branch, id } => ExprView::Ternary {
            condition: Box::new(expr_view(*condition)),
            then_branch: Box::new(expr_view(*then_branch)),
            else_branch: Box::new(expr_view(*else_branch)),
            id: id as nat,
        },
        Expr::Variable { name, id } => ExprView::Variable { name: name@, id: id as nat },
    }
}

impl View for Expr {
    type V = ExprView;

    open spec fn view(&self) -> ExprView {
        expr_view(*self)
    }
}

pub open spec fn stmts_view(ss: Seq<Stmt>) -> Seq<StmtView>
    decreases ss,
{
    if ss.len() == 0 {
        Seq::empty()
    } else {
        stmts_view(ss.drop_last()).push(stmt_view(ss.last()))
    }
}

pub open spec fn stmt_view(s: Stmt) -> StmtView
    decreases s,
{
    match s {
        Stmt::Block { statements } => StmtView::Block { statements: stmts_view(statements@) },
        Stmt::Class { name, superclass, methods } => StmtView::Class {
            name: name@,
            superclass: match superclass {
                Some(e) => Some(expr_view(*e)),
                None => None,
            },
            methods: stmts_view(methods@),
        },
        Stmt::Expression { expression } => StmtView::Expression { expression: expr_view(*expression) },
        Stmt::Function { name, params, body } => StmtView::Function {
            name: name@,
            params: crate::token::tokens_view(params@),
            body: stmts_view(body@),
        },
        Stmt::If { condition, then_branch, else_branch } => StmtView::If {
            condition: expr_view(*condition),
            then_branch: Box::new(stmt_view(*then_branch)),
            else_branch: match else_branch {
                Some(b) => Some(Box::new(stmt_view(*b))),
                None => None,
            },
        },
        Stmt::Print { expression } => StmtView::Print { expression: expr_view(*expression) },
        Stmt::Return { keyword, value } => StmtView::Return {
            keyword: keyword@,
            value: match value {
                Some(e) => Some(expr_view(*e)),
                None => None,
            },
        },
        Stmt::Var { name, initializer } => StmtView::Var { name: name@, initializer: expr_view(*initializer) },
        Stmt::While { condition, body } => StmtView::While {
            condition: expr_view(*condition),
            body: Box::new(stmt_view(*body)),
        },
    }
}

impl View for Stmt {
    type V = StmtView;

    open spec fn view(&self) -> StmtView {
        stmt_view(*self)
    }
}

impl Expr {
    /// The id of the node.
    pub fn id(&self) -> (r: usize)
        ensures
            r as nat == expr_id(self@),
    {
        match self {
            Expr::Assign { id, .. } => *id,
            Expr::Binary { id, .. } => *id,
            Expr::Call { id, .. } => *id,
            Expr::Get { id, .. } => *id,
            Expr::Grouping { id, .. } => *id,
            Expr::Literal { id, .. } => *id,
            Expr::Logical { id, .. } => *id,
            Expr::SetProperty { id, .. } => *id,
            Expr::Super { id, .. } => *id,
            Expr::This { id, .. } => *id,
            Expr::Unary { id, .. } => *id,
            Expr::Ternary { id, .. } => *id,
            Expr::Variable { id, .. } => *id,
        }
    }
}

/// The model of a sequence of expressions has the same length and holds the
/// model of each expression at the same index.
pub proof fn lemma_exprs_view_index(v: Seq<Expr>)
    ensures
        exprs_view(v).len() == v.len(),
        forall|i: int| 0 <= i < v.len() ==> #[trigger] exprs_view(v)[i] == expr_view(v[i]),
    decreases v.len(),
{
    if v.len() > 0 {
        lemma_exprs_view_index(v.drop_last());
    }
}

/// The model of a sequence of statements has the same length and holds the
/// model of each statement at the same index.
pub proof fn lemma_stmts_view_index(v: Seq<Stmt>)
    ensures
        stmts_view(v).len() == v.len(),
        forall|i: int| 0 <= i < v.len() ==> #[trigger] stmts_view(v)[i] == stmt_view(v[i]),
    decreases v.len(),
{
    if v.len() > 0 {
        lemma_stmts_view_index(v.drop_last());
    }
}

impl PartialEq for Expr {
    fn eq(&self, other: &Self) -> (r: bool) {
        self.id() == other.id()
    }
}

impl vstd::std_specs::cmp::PartialEqSpecImpl for Expr {
    open spec fn obeys_eq_spec() -> bool {
        true
    }

    open spec fn eq_spec(&self, other: &Expr) -> bool {
        expr_id(self@) == expr_id(other@)
    }
}

impl Eq for Expr {

}

impl std::hash::Hash for Expr {
    /// Hashes the id alone, through `<usize as Hash>::hash`, so that equal
    /// expressions hash alike. Nothing is claimed of the hasher's state.
    #[verifier::external_body]
    fn hash<H: std::hash::Hasher>(&self, state: &mut H) {
        self.id().hash(state);
    }
}

/// The id of an expression node.
pub open spec fn expr_id(e: ExprView) -> nat {
    match e {
        ExprView::Assign { id, .. } => id,
        ExprView::Binary { id, .. } => id,
        ExprView::Call { id, .. } => id,
        ExprView::Get { id, .. } => id,
        ExprView::Grouping { id, .. } => id,
        ExprView::Literal { id, .. } => id,
        ExprView::Logical { id, .. } => id,
        ExprView::SetProperty { id, .. } => id,
        ExprView::Super { id, .. } => id,
        ExprView::This { id, .. } => id,
        ExprView::Unary { id, .. } => id,
        ExprView::Ternary { id, .. } => id,
        ExprView::Variable { id, .. } => id,
    }
}

fn clone_exprs(v: &Vec<Expr>) -> (r: Vec<Expr>)
    ensures
        exprs_view(r@) == exprs_view(v@),
    decreases v,
{
    proof {
        lemma_exprs_view_index(v@);
    }
    let mut r: Vec<Expr> = Vec::new();
    let mut i: usize = 0;
    while i < v.len()
        invariant
            i <= v@.len(),
            exprs_view(v@).len() == v@.len(),
            forall|k: int| 0 <= k < v@.len() ==> #[trigger] exprs_view(v@)[k] == expr_view(v@[k]),
            exprs_view(r@) == exprs_view(v@.subrange(0, i as int)),
        decreases v@.len() - i,
    {
        proof {
            assert(decreases_to!(v => v@));
            assert(decreases_to!(v@ => v@[i as int]));
        }
        let c = clone_expr(&v[i]);
        let ghost before = r@;
        r.push(c);
        proof {
            assert(r@.drop_last() =~= before);
            assert(v@.subrange(0, i + 1).drop_last() =~= v@.subrange(0, i as int));
        }
        i = i + 1;
    }
    assert(v@.subrange(0, i as int) =~= v@);
    r
}

fn clone_expr(e: &Expr) -> (r: Expr)
    ensures
        r@ == e@,
    decreases e,
{
    match e {
        Expr::Assign { name, value, id } => {
            let v = clone_expr(value);
            Expr::Assign { name: name.clone(), value: Box::new(v), id: *id }
        },
        Expr::Binary { left, operator, right, id } => Expr::Binary {
            left: Box::new(clone_expr(left)),
            operator: operator.clone(),
            right: Box::new(clone_expr(right)),
            id: *id,
        },
        Expr::Call { callee, paren, arguments, id } => Expr::Call {
            callee: Box::new(clone_expr(callee)),
            paren: paren.clone(),
            arguments: clone_exprs(arguments),
            id: *id,
        },
        Expr::Get { object, name, id } => Expr::Get { object: Box::new(clone_expr(object)), name: name.clone(), id: *id },
        Expr::Grouping { expression, id } => Expr::Grouping { expression: Box::new(clone_expr(expression)), id: *id },
        Expr::Literal { value, id } => Expr::Literal { value: value.clone(), id: *id },
        Expr::Logical { left, operator, right, id } => Expr::Logical {
            left: Box::new(clone_expr(left)),
            operator: operator.clone(),
            right: Box::new(clone_expr(right)),
            id: *id,
        },
        Expr::SetProperty { object, name, value, id } => Expr::SetProperty {
            object: Box::new(clone_expr(object)),
            name: name.clone(),
            value: Box::new(clone_expr(value)),
            id: *id,
        },
        Expr::Super { keyword, method, id } => Expr::Super { keyword: keyword.clone(), method: method.clone(), id: *id },
        Expr::This { keyword, id } => Expr::This { keyword: keyword.clone(), id: *id },
        Expr::Unary { operator, right, id } => Expr::Unary { operator: operator.clone(), right: Box::new(clone_expr(right)), id: *id },
        Expr::Ternary { condition, then_branch, else_branch, id } => Expr::Ternary {
            condition: Box::new(clone_expr(condition)),
            then_branch: Box::new(clone_expr(then_branch)),
            else_branch: Box::new(clone_expr(else_branch)),
            id: *id,
        },
        Expr::Variable { name, id } => Expr::Variable { name: name.clone(), id: *id },
    }
}

impl Clone for Expr {
    fn clone(&self) -> (r: Expr)
        ensures
            r@ == self@,
    {
        clone_expr(self)
    }
}

fn clone_tokens(v: &Vec<Token>) -> (r: Vec<Token>)
    ensures
        crate::token::tokens_view(r@) == crate::token::tokens_view(v@),
{
    let mut r: Vec<Token> = Vec::new();
    let mut i: usize = 0;
    while i < v.len()
        invariant
            i <= v@.len(),
            r@.len() == i,
            forall|k: int| 0 <= k < i ==> (#[trigger] r@[k])@ == v@[k]@,
        decreases v@.len() - i,
    {
        r.push(v[i].clone());
        i = i + 1;
    }
    assert(crate::token::tokens_view(r@) =~= crate::token::tokens_view(v@));
    r
}

fn clone_stmts(v: &Vec<Stmt>) -> (r: Vec<Stmt>)
    ensures
        stmts_view(r@) == stmts_view(v@),
    decreases v,
{
    proof {
        lemma_stmts_view_index(v@);
    }
    let mut r: Vec<Stmt> = Vec::new();
    let mut i: usize = 0;
    while i < v.len()
        invariant
            i <= v@.len(),
            stmts_view(v@).len() == v@.len(),
            forall|k: int| 0 <= k < v@.len() ==> #[trigger] stmts_view(v@)[k] == stmt_view(v@[k]),
            stmts_view(r@) == stmts_view(v@.subrange(0, i as int)),
        decreases v@.len() - i,
    {
        proof {
            assert(decreases_to!(v => v@));
            assert(decreases_to!(v@ => v@[i as int]));
        }
        let c = clone_stmt(&v[i]);
        let ghost before = r@;
        r.push(c);
        proof {
            assert(r@.drop_last() =~= before);
            assert(v@.subrange(0, i + 1).drop_last() =~= v@.subrange(0, i as int));
        }
        i = i + 1;
    }
    assert(v@.subrange(0, i as int) =~= v@);
    r
}

fn clone_opt_expr(e: &Option<Box<Expr>>) -> (r: Option<Box<Expr>>)
    ensures
        match (r, e) {
            (Some(a), Some(b)) => expr_view(*a) == expr_view(**b),
            (None, None) => true,
            _ => false,
        },
{
    match e {
        Some(b) => Some(Box::new(clone_expr(b))),
        None => None,
    }
}

fn clone_stmt(s: &Stmt) -> (r: Stmt)
    ensures
        r@ == s@,
    decreases s,
{
    match s {
        Stmt::Block { statements } => Stmt::Block { statements: clone_stmts(statements) },
        Stmt::Class { name, superclass, methods } => Stmt::Class {
            name: name.clone(),
            superclass: clone_opt_expr(superclass),
            methods: clone_stmts(methods),
        },
        Stmt::Expression { expression } => Stmt::Expression { expression: Box::new(clone_expr(expression)) },
        Stmt::Function { name, params, body } => Stmt::Function {
            name: name.clone(),
            params: clone_tokens(params),
            body: clone_stmts(body),
        },
        Stmt::If { condition, then_branch, else_branch } => Stmt::If {
            condition: Box::new(clone_expr(condition)),
            then_branch: Box::new(clone_stmt(then_branch)),
            else_branch: match else_branch {
                Some(b) => Some(Box::new(clone_stmt(b))),
                None => None,
            },
        },
        Stmt::Print { expression } => Stmt::Print { expression: Box::new(clone_expr(expression)) },
        Stmt::Return { keyword, value } => Stmt::Return { keyword: keyword.clone(), value: clone_opt_expr(value) },
        Stmt::Var { name, initializer } => Stmt::Var { name: name.clone(), initializer: Box::new(clone_expr(initializer)) },
        Stmt::While { condition, body } => Stmt::While {
            condition: Box::new(clone_expr(condition)),
            body: Box::new(clone_stmt(body)),
        },
    }
}

impl Clone for Stmt {
    fn clone(&self) -> (r: Stmt)
        ensures
            r@ == self@,
    {
        clone_stmt(self)
    }
}

} // verus!
