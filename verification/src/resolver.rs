use vstd::prelude::*;

use crate::ast::{expr_view, exprs_view, stmt_view, stmts_view, Expr, ExprView, Stmt, StmtView};
use crate::ast::{lemma_exprs_view_index, lemma_stmts_view_index};
use crate::text::{chars_eq, str_to_chars, str_to_string};
use std::collections::HashMap;
use crate::token::{tokens_view, Token, TokenView};

verus! {

/// The kind of function whose body is being resolved.
#[derive(Debug, Clone, Copy, PartialEq, Eq, Structural)]
pub enum FunctionType {
    Function,
    Method,
    Initializer,
}

/// The kind of class whose body is being resolved.
#[derive(Debug, Clone, Copy, PartialEq, Eq, Structural)]
pub enum ClassType {
    Class,
    Subclass,
}

/// Which rules a resolution follows: the compiler front end's, or the
/// tree-walk interpreter's. The two differ only in the wording of their
/// messages.
#[derive(Debug, Clone, Copy, PartialEq, Eq, Structural)]
pub enum Rules {
    Compiler,
    Interpreter,
}

pub open spec fn dup_msg(r: Rules) -> Seq<char> {
    if r == Rules::Compiler {
        "Already a variable with this name in this scope."@
    } else {
        "Variable with this name already declared in this scope."@
    }
}

pub open spec fn own_init_msg(r: Rules) -> Seq<char> {
    if r == Rules::Compiler {
        "Can't read local variable in its own initializer."@
    } else {
        "Cannot read local variable in its own initializer."@
    }
}

pub open spec fn super_outside_msg(r: Rules) -> Seq<char> {
    if r == Rules::Compiler {
        "Can't use 'super' outside of a class."@
    } else {
        "Cannot use 'super' outside of a class."@
    }
}

pub open spec fn super_no_superclass_msg(r: Rules) -> Seq<char> {
    if r == Rules::Compiler {
        "Can't use 'super' in a class with no superclass."@
    } else {
        "Cannot use 'super' in a class with no superclass."@
    }
}

pub open spec fn this_outside_msg(r: Rules) -> Seq<char> {
    if r == Rules::Compiler {
        "Can't use 'this' outside of a class."@
    } else {
        "Cannot use 'this' outside of a class."@
    }
}

pub open spec fn top_return_msg(r: Rules) -> Seq<char> {
    if r == Rules::Compiler {
        "Can't return from top-level code."@
    } else {
        "Cannot return from top-level code."@
    }
}

pub open spec fn init_return_msg(r: Rules) -> Seq<char> {
    if r == Rules::Compiler {
        "Can't return a value from an initializer."@
    } else {
        "Cannot return a value from an initializer."@
    }
}

pub open spec fn self_inherit_msg(r: Rules) -> Seq<char> {
    if r == Rules::Compiler {
        "A class can't inherit from itself."@
    } else {
        "A class cannot inherit from itself."@
    }
}

/// An error found while resolving: the offending token and a message.
#[derive(Debug)]
pub struct ResolveError {
    pub token: Token,
    pub message: String,
}

/// The model of a [`ResolveError`].
pub struct ResolveErrorView {
    pub token: TokenView,
    pub message: Seq<char>,
}

pub open spec fn rerr_view(e: ResolveError) -> ResolveErrorView {
    ResolveErrorView { token: e.token@, message: e.message@ }
}

pub open spec fn rerrs_view(es: Seq<ResolveError>) -> Seq<ResolveErrorView> {
    es.map_values(|e: ResolveError| rerr_view(e))
}

// ---------------------------------------------------------------------------
// Spec: static resolution over the syntax tree.
// ---------------------------------------------------------------------------

/// What the resolver knows: the scopes (innermost last; each maps a name to
/// whether its definition is complete), the enclosing function and class
/// kinds, the errors so far, and the depth found for each resolved
/// expression (by id: how many scopes out its variable lives).
pub struct ResolverView {
    pub rules: Rules,
    pub scopes: Seq<Map<Seq<char>, bool>>,
    pub current_function: Option<FunctionType>,
    pub current_class: Option<ClassType>,
    pub errors: Seq<ResolveErrorView>,
    pub locals: Map<usize, usize>,
}

pub open spec fn report(st: ResolverView, token: TokenView, message: Seq<char>) -> ResolverView {
    ResolverView { errors: st.errors.push(ResolveErrorView { token, message }), ..st }
}

/// Marks a name in the innermost scope (if any) as declared or defined.
pub open spec fn mark(st: ResolverView, name: Seq<char>, defined: bool) -> ResolverView {
    if st.scopes.len() == 0 {
        st
    } else {
        ResolverView {
            scopes: st.scopes.update(st.scopes.len() - 1, st.scopes.last().insert(name, defined)),
            ..st
        }
    }
}

pub open spec fn declare(st: ResolverView, name: TokenView) -> ResolverView {
    let dup = st.scopes.len() > 0 && st.scopes.last().contains_key(name.lexeme);
    let st1 = if dup {
        report(st, name, dup_msg(st.rules))
    } else {
        st
    };
    mark(st1, name.lexeme, false)
}

pub open spec fn define(st: ResolverView, name: TokenView) -> ResolverView {
    mark(st, name.lexeme, true)
}

pub open spec fn begin_scope(st: ResolverView) -> ResolverView {
    ResolverView { scopes: st.scopes.push(Map::empty()), ..st }
}

pub open spec fn end_scope(st: ResolverView) -> ResolverView {
    if st.scopes.len() == 0 {
        st
    } else {
        ResolverView { scopes: st.scopes.drop_last(), ..st }
    }
}

/// How many scopes out from the innermost one (among the first `n`) declares
/// `name`.
pub open spec fn depth_in(scopes: Seq<Map<Seq<char>, bool>>, n: int, name: Seq<char>) -> Option<nat>
    decreases n,
{
    if n <= 0 || n > scopes.len() {
        None
    } else if scopes[n - 1].contains_key(name) {
        Some((scopes.len() - n) as nat)
    } else {
        depth_in(scopes, n - 1, name)
    }
}

/// Records where the variable that expression `id` names lives, if it is local.
pub open spec fn resolve_local(st: ResolverView, id: nat, name: TokenView) -> ResolverView {
    match depth_in(st.scopes, st.scopes.len() as int, name.lexeme) {
        Some(d) => ResolverView { locals: st.locals.insert(id as usize, d as usize), ..st },
        None => st,
    }
}

pub open spec fn resolve_exprs_from(st: ResolverView, es: Seq<ExprView>, i: int) -> ResolverView
    decreases es, es.len() - i,
{
    if 0 <= i < es.len() {
        resolve_exprs_from(resolve_expr(st, es[i]), es, i + 1)
    } else {
        st
    }
}

/// Resolving an expression.
pub open spec fn resolve_expr(st: ResolverView, e: ExprView) -> ResolverView
    decreases e, 0int,
{
    match e {
        ExprView::Assign { name, value, id } => resolve_local(resolve_expr(st, *value), id, name),
        ExprView::Variable { name, id } => {
            let st1 = if st.scopes.len() > 0 && st.scopes.last().contains_key(name.lexeme) && st.scopes.last()[name.lexeme]
                == false {
                report(st, name, own_init_msg(st.rules))
            } else {
                st
            };
            resolve_local(st1, id, name)
        },
        ExprView::Binary { left, right, .. } => resolve_expr(resolve_expr(st, *left), *right),
        ExprView::Call { callee, arguments, .. } => resolve_exprs_from(resolve_expr(st, *callee), arguments, 0),
        ExprView::Get { object, .. } => resolve_expr(st, *object),
        ExprView::Grouping { expression, .. } => resolve_expr(st, *expression),
        ExprView::Literal { .. } => st,
        ExprView::Logical { left, right, .. } => resolve_expr(resolve_expr(st, *left), *right),
        ExprView::SetProperty { object, value, .. } => resolve_expr(resolve_expr(st, *object), *value),
        ExprView::Super { keyword, id, .. } => {
            let st1 = if st.current_class is None {
                report(st, keyword, super_outside_msg(st.rules))
            } else if st.current_class != Some(ClassType::Subclass) {
                report(st, keyword, super_no_superclass_msg(st.rules))
            } else {
                st
            };
            resolve_local(st1, id, keyword)
        },
        ExprView::This { keyword, id } => {
            let st1 = if st.current_class is None {
                report(st, keyword, this_outside_msg(st.rules))
            } else {
                st
            };
            resolve_local(st1, id, keyword)
        },
        ExprView::Unary { right, .. } => resolve_expr(st, *right),
        ExprView::Ternary { condition, then_branch, else_branch, .. } => resolve_expr(
            resolve_expr(resolve_expr(st, *condition), *then_branch),
            *else_branch,
        ),
    }
}

/// Declaring and defining the parameters from index `i` on.
pub open spec fn declare_params_from(st: ResolverView, params: Seq<TokenView>, i: int) -> ResolverView
    decreases params.len() - i,
{
    if 0 <= i < params.len() {
        declare_params_from(define(declare(st, params[i]), params[i]), params, i + 1)
    } else {
        st
    }
}

pub open spec fn resolve_stmts_from(st: ResolverView, ss: Seq<StmtView>, i: int) -> ResolverView
    decreases ss, ss.len() - i,
{
    if 0 <= i < ss.len() {
        resolve_stmts_from(resolve_stmt(st, ss[i]), ss, i + 1)
    } else {
        st
    }
}

/// Resolving a function body in a scope of its own that holds its parameters.
pub open spec fn resolve_function(st: ResolverView, params: Seq<TokenView>, body: Seq<StmtView>, ft: FunctionType) -> ResolverView
    decreases body, body.len() + 1,
{
    let st1 = ResolverView { current_function: Some(ft), ..st };
    let st2 = declare_params_from(begin_scope(st1), params, 0);
    let st3 = end_scope(resolve_stmts_from(st2, body, 0));
    ResolverView { current_function: st.current_function, ..st3 }
}

/// The kind of a method: the initializer is the method named `init`.
pub open spec fn method_type(name: Seq<char>) -> FunctionType {
    if name == "init"@ {
        FunctionType::Initializer
    } else {
        FunctionType::Method
    }
}

pub open spec fn resolve_methods_from(st: ResolverView, ms: Seq<StmtView>, i: int) -> ResolverView
    decreases ms, ms.len() - i,
{
    if 0 <= i < ms.len() {
        let st1 = match ms[i] {
            StmtView::Function { name, params, body } => resolve_function(
                st,
                params,
                body,
                method_type(name.lexeme),
            ),
            _ => st,
        };
        resolve_methods_from(st1, ms, i + 1)
    } else {
        st
    }
}

/// Marks a name as defined in the innermost scope.
pub open spec fn bind(st: ResolverView, name: Seq<char>) -> ResolverView {
    mark(st, name, true)
}

/// Resolving a class declaration.
pub open spec fn resolve_class(st: ResolverView, name: TokenView, superclass: Option<ExprView>, methods: Seq<StmtView>) -> ResolverView
    decreases methods, methods.len() + 1,
{
    let st1 = define(declare(ResolverView { current_class: Some(ClassType::Class), ..st }, name), name);
    let st2 = match superclass {
        Some(sc) => {
            let st_a = match sc {
                ExprView::Variable { name: sname, .. } => if name.lexeme == sname.lexeme {
                    report(st1, sname, self_inherit_msg(st.rules))
                } else {
                    st1
                },
                _ => st1,
            };
            let st_b = resolve_expr(ResolverView { current_class: Some(ClassType::Subclass), ..st_a }, sc);
            bind(begin_scope(st_b), "super"@)
        },
        None => st1,
    };
    let st3 = bind(begin_scope(st2), "this"@);
    let st4 = end_scope(resolve_methods_from(st3, methods, 0));
    let st5 = if superclass is Some {
        end_scope(st4)
    } else {
        st4
    };
    ResolverView { current_class: st.current_class, ..st5 }
}

/// Resolving a `return`: outside a function it is an error, and so is a
/// value returned from an initializer (a bare `return;` there is allowed).
pub open spec fn resolve_return(st: ResolverView, keyword: TokenView, value: Option<ExprView>) -> ResolverView {
    let st1 = if st.current_function is None {
        report(st, keyword, top_return_msg(st.rules))
    } else if st.current_function == Some(FunctionType::Initializer) && value is Some {
        report(st, keyword, init_return_msg(st.rules))
    } else {
        st
    };
    match value {
        Some(v) => resolve_expr(st1, v),
        None => st1,
    }
}

/// Resolving a statement.
pub open spec fn resolve_stmt(st: ResolverView, s: StmtView) -> ResolverView
    decreases s, 0int,
{
    match s {
        StmtView::Block { statements } => end_scope(resolve_stmts_from(begin_scope(st), statements, 0)),
        StmtView::Var { name, initializer } => define(resolve_expr(declare(st, name), initializer), name),
        StmtView::Function { name, params, body } => resolve_function(
            define(declare(st, name), name),
            params,
            body,
            FunctionType::Function,
        ),
        StmtView::Expression { expression } => resolve_expr(st, expression),
        StmtView::If { condition, then_branch, else_branch } => {
            let st1 = resolve_stmt(resolve_expr(st, condition), *then_branch);
            match else_branch {
                Some(e) => resolve_stmt(st1, *e),
                None => st1,
            }
        },
        StmtView::Print { expression } => resolve_expr(st, expression),
        StmtView::Return { keyword, value } => resolve_return(st, keyword, value),
        StmtView::While { condition, body } => resolve_stmt(resolve_expr(st, condition), *body),
        StmtView::Class { name, superclass, methods } => resolve_class(st, name, superclass, methods),
    }
}


// ---------------------------------------------------------------------------
// The resolver.
// ---------------------------------------------------------------------------

/// The names of one scope, each with whether its definition is complete; a
/// later entry for a name overrides an earlier one.
pub open spec fn scope_map(entries: Seq<(Vec<char>, bool)>) -> Map<Seq<char>, bool>
    decreases entries.len(),
{
    if entries.len() == 0 {
        Map::empty()
    } else {
        scope_map(entries.drop_last()).insert(entries.last().0@, entries.last().1)
    }
}

pub open spec fn scopes_view(scopes: Seq<Vec<(Vec<char>, bool)>>) -> Seq<Map<Seq<char>, bool>> {
    scopes.map_values(|sc: Vec<(Vec<char>, bool)>| scope_map(sc@))
}

proof fn lemma_scope_map_skip(e: Seq<(Vec<char>, bool)>, j: int, key: Seq<char>)
    requires
        0 <= j <= e.len(),
        forall|k: int| j <= k < e.len() ==> (#[trigger] e[k]).0@ != key,
    ensures
        scope_map(e).contains_key(key) == scope_map(e.subrange(0, j)).contains_key(key),
        scope_map(e).contains_key(key) ==> scope_map(e)[key] == scope_map(e.subrange(0, j))[key],
    decreases e.len() - j,
{
    if j < e.len() {
        let d = e.drop_last();
        assert forall|k: int| j <= k < d.len() implies (#[trigger] d[k]).0@ != key by {
            assert(d[k] == e[k]);
        }
        lemma_scope_map_skip(d, j, key);
        assert(d.subrange(0, j) =~= e.subrange(0, j));
    } else {
        assert(e.subrange(0, j) =~= e);
    }
}

/// Looks a name up in one scope.
fn scope_lookup(scope: &Vec<(Vec<char>, bool)>, name: &[char]) -> (r: Option<bool>)
    ensures
        r == (if scope_map(scope@).contains_key(name@) {
            Some(scope_map(scope@)[name@])
        } else {
            None
        }),
{
    let mut j = scope.len();
    while j > 0
        invariant
            j <= scope@.len(),
            forall|k: int| j <= k < scope@.len() ==> (#[trigger] scope@[k]).0@ != name@,
        decreases j,
    {
        let entry = &scope[j - 1];
        if chars_eq(entry.0.as_slice(), name) {
            proof {
                lemma_scope_map_skip(scope@, j as int, name@);
                assert(scope@.subrange(0, j as int).drop_last() =~= scope@.subrange(0, j - 1));
            }
            return Some(entry.1);
        }
        j = j - 1;
    }
    proof {
        lemma_scope_map_skip(scope@, 0, name@);
    }
    None
}

/// Resolves the variables of a program: finds for each local variable use
/// the number of scopes between the use and the declaration, and collects
/// the static errors of the program.
pub struct Resolver {
    rules: Rules,
    scopes: Vec<Vec<(Vec<char>, bool)>>,
    current_function: Option<FunctionType>,
    current_class: Option<ClassType>,
    errors: Vec<ResolveError>,
    locals: HashMap<usize, usize>,
}

impl View for Resolver {
    type V = ResolverView;

    closed spec fn view(&self) -> ResolverView {
        ResolverView {
            rules: self.rules,
            scopes: scopes_view(self.scopes@),
            current_function: self.current_function,
            current_class: self.current_class,
            errors: rerrs_view(self.errors@),
            locals: self.locals@,
        }
    }
}

/// The state of a resolver that has resolved nothing yet.
pub open spec fn initial_resolver(rules: Rules) -> ResolverView {
    ResolverView {
        rules,
        scopes: Seq::empty(),
        current_function: None,
        current_class: None,
        errors: Seq::empty(),
        locals: Map::empty(),
    }
}

fn dup_text(r: Rules) -> (s: &'static str)
    ensures
        s@ == dup_msg(r),
{
    match r {
        Rules::Compiler => "Already a variable with this name in this scope.",
        Rules::Interpreter => "Variable with this name already declared in this scope.",
    }
}

fn own_init_text(r: Rules) -> (s: &'static str)
    ensures
        s@ == own_init_msg(r),
{
    match r {
        Rules::Compiler => "Can't read local variable in its own initializer.",
        Rules::Interpreter => "Cannot read local variable in its own initializer.",
    }
}

fn super_outside_text(r: Rules) -> (s: &'static str)
    ensures
        s@ == super_outside_msg(r),
{
    match r {
        Rules::Compiler => "Can't use 'super' outside of a class.",
        Rules::Interpreter => "Cannot use 'super' outside of a class.",
    }
}

fn super_no_superclass_text(r: Rules) -> (s: &'static str)
    ensures
        s@ == super_no_superclass_msg(r),
{
    match r {
        Rules::Compiler => "Can't use 'super' in a class with no superclass.",
        Rules::Interpreter => "Cannot use 'super' in a class with no superclass.",
    }
}

fn this_outside_text(r: Rules) -> (s: &'static str)
    ensures
        s@ == this_outside_msg(r),
{
    match r {
        Rules::Compiler => "Can't use 'this' outside of a class.",
        Rules::Interpreter => "Cannot use 'this' outside of a class.",
    }
}

fn top_return_text(r: Rules) -> (s: &'static str)
    ensures
        s@ == top_return_msg(r),
{
    match r {
        Rules::Compiler => "Can't return from top-level code.",
        Rules::Interpreter => "Cannot return from top-level code.",
    }
}

fn init_return_text(r: Rules) -> (s: &'static str)
    ensures
        s@ == init_return_msg(r),
{
    match r {
        Rules::Compiler => "Can't return a value from an initializer.",
        Rules::Interpreter => "Cannot return a value from an initializer.",
    }
}

fn self_inherit_text(r: Rules) -> (s: &'static str)
    ensures
        s@ == self_inherit_msg(r),
{
    match r {
        Rules::Compiler => "A class can't inherit from itself.",
        Rules::Interpreter => "A class cannot inherit from itself.",
    }
}

impl Resolver {
    /// A resolver by the compiler front end's rules.
    pub fn new() -> (r: Resolver)
        ensures
            r@ == initial_resolver(Rules::Compiler),
    {
        Resolver::with_rules(Rules::Compiler)
    }

    /// A resolver by the given rules.
    pub fn with_rules(rules: Rules) -> (r: Resolver)
        ensures
            r@ == initial_resolver(rules),
    {
        let r = Resolver {
            rules,
            scopes: Vec::new(),
            current_function: None,
            current_class: None,
            errors: Vec::new(),
            locals: HashMap::new(),
        };
        assert(scopes_view(r.scopes@) =~= Seq::empty());
        assert(rerrs_view(r.errors@) =~= Seq::empty());
        r
    }

    /// The depth found for each resolved expression, by the expression's id.
    pub fn locals(&self) -> (r: &HashMap<usize, usize>)
        ensures
            r@ == self@.locals,
    {
        &self.locals
    }

    /// Resolves a program. On success the depths are in [`Resolver::locals`];
    /// otherwise every error found is returned, in the order found.
    pub fn resolve(&mut self, statements: &Vec<Stmt>) -> (r: Result<(), Vec<ResolveError>>)
        ensures
            ({
                let st = resolve_stmts_from(old(self)@, stmts_view(statements@), 0);
                &&& final(self)@ == ResolverView { errors: Seq::empty(), ..st }
                &&& match r {
                    Ok(()) => st.errors.len() == 0,
                    Err(es) => st.errors.len() > 0 && rerrs_view(es@) == st.errors,
                }
            }),
    {
        self.resolve_stmts_from(statements, 0);
        if self.errors.len() == 0 {
            assert(rerrs_view(self.errors@) =~= Seq::empty());
            Ok(())
        } else {
            let mut taken: Vec<ResolveError> = Vec::new();
            std::mem::swap(&mut taken, &mut self.errors);
            assert(rerrs_view(self.errors@) =~= Seq::empty());
            Err(taken)
        }
    }

    /// Resolves a program and stops at the first error: on failure returns
    /// the first error that a full resolution finds.
    pub fn resolve_first(&mut self, statements: &Vec<Stmt>) -> (r: Result<(), ResolveError>)
        ensures
            ({
                let st = resolve_stmts_from(old(self)@, stmts_view(statements@), 0);
                &&& final(self)@ == ResolverView { errors: Seq::empty(), ..st }
                &&& match r {
                    Ok(()) => st.errors.len() == 0,
                    Err(e) => st.errors.len() > 0 && rerr_view(e) == st.errors[0],
                }
            }),
    {
        match self.resolve(statements) {
            Ok(()) => Ok(()),
            Err(mut errors) => {
                let ghost all = errors@;
                let first = errors.remove(0);
                assert(rerr_view(first) == rerrs_view(all)[0]);
                Err(first)
            },
        }
    }

    fn error(&mut self, token: &Token, message: &str)
        ensures
            final(self)@ == report(old(self)@, token@, message@),
    {
        let e = ResolveError { token: token.clone(), message: str_to_string(message) };
        self.errors.push(e);
        assert(rerrs_view(self.errors@) =~= rerrs_view(old(self).errors@).push(rerr_view(e)));
    }

    fn mark(&mut self, name: &Token, defined: bool)
        ensures
            final(self)@ == mark(old(self)@, name@.lexeme, defined),
    {
        let n = self.scopes.len();
        if n > 0 {
            let mut last = self.scopes.pop().unwrap();
            let ghost before = last@;
            last.push((str_to_chars(name.lexeme()), defined));
            proof {
                assert(last@.drop_last() =~= before);
            }
            self.scopes.push(last);
            assert(scopes_view(self.scopes@) =~= scopes_view(old(self).scopes@).update(
                n - 1,
                scopes_view(old(self).scopes@).last().insert(name@.lexeme, defined),
            ));
        }
    }

    fn declare(&mut self, name: &Token)
        ensures
            final(self)@ == declare(old(self)@, name@),
    {
        let n = self.scopes.len();
        if n > 0 {
            let key = str_to_chars(name.lexeme());
            let found = scope_lookup(&self.scopes[n - 1], key.as_slice());
            if found.is_some() {
                self.error(name, dup_text(self.rules));
            }
        }
        self.mark(name, false);
    }

    fn define(&mut self, name: &Token)
        ensures
            final(self)@ == define(old(self)@, name@),
    {
        self.mark(name, true);
    }

    fn begin_scope(&mut self)
        ensures
            final(self)@ == begin_scope(old(self)@),
    {
        self.scopes.push(Vec::new());
        assert(scopes_view(self.scopes@) =~= scopes_view(old(self).scopes@).push(Map::empty()));
    }

    fn end_scope(&mut self)
        ensures
            final(self)@ == end_scope(old(self)@),
    {
        if self.scopes.len() > 0 {
            let _ = self.scopes.pop();
            assert(scopes_view(self.scopes@) =~= scopes_view(old(self).scopes@).drop_last());
        }
    }

    fn resolve_local(&mut self, id: usize, name: &Token)
        ensures
            final(self)@ == resolve_local(old(self)@, id as nat, name@),
    {
        broadcast use vstd::std_specs::hash::group_hash_axioms;

        let key = str_to_chars(name.lexeme());
        let len = self.scopes.len();
        let ghost sv = scopes_view(self.scopes@);
        let mut n = len;
        while n > 0
            invariant
                n <= len == self.scopes@.len(),
                sv == scopes_view(self.scopes@),
                key@ == name@.lexeme,
                depth_in(sv, sv.len() as int, key@) == depth_in(sv, n as int, key@),
                self@ == old(self)@,
                *self == *old(self),
            decreases n,
        {
            let found = scope_lookup(&self.scopes[n - 1], key.as_slice());
            assert(sv[n - 1] == scope_map(self.scopes@[n - 1]@));
            if found.is_some() {
                self.locals.insert(id, len - n);
                return;
            }
            n = n - 1;
        }
    }
    fn resolve_exprs_from(&mut self, es: &Vec<Expr>, i: usize)
        requires
            i <= es@.len(),
        ensures
            final(self)@ == resolve_exprs_from(old(self)@, exprs_view(es@), i as int),
        decreases exprs_view(es@), es@.len() - i,
    {
        proof {
            lemma_exprs_view_index(es@);
        }
        if i < es.len() {
            proof {
                assert(decreases_to!(exprs_view(es@) => exprs_view(es@)[i as int]));
            }
            self.resolve_expr(&es[i]);
            self.resolve_exprs_from(es, i + 1);
        }
    }

    fn resolve_expr(&mut self, expression: &Expr)
        ensures
            final(self)@ == resolve_expr(old(self)@, expression@),
        decreases expression@, 0int,
    {
        match expression {
            Expr::Assign { name, value, id } => {
                self.resolve_expr(value);
                self.resolve_local(*id, name);
            },
            Expr::Variable { name, id } => {
                let n = self.scopes.len();
                if n > 0 {
                    let key = str_to_chars(name.lexeme());
                    let found = scope_lookup(&self.scopes[n - 1], key.as_slice());
                    if found == Some(false) {
                        self.error(name, own_init_text(self.rules));
                    }
                }
                self.resolve_local(*id, name);
            },
            Expr::Binary { left, right, .. } => {
                self.resolve_expr(left);
                self.resolve_expr(right);
            },
            Expr::Call { callee, arguments, .. } => {
                self.resolve_expr(callee);
                self.resolve_exprs_from(arguments, 0);
            },
            Expr::Get { object, .. } => {
                self.resolve_expr(object);
            },
            Expr::Grouping { expression, .. } => {
                self.resolve_expr(expression);
            },
            Expr::Literal { .. } => {},
            Expr::Logical { left, right, .. } => {
                self.resolve_expr(left);
                self.resolve_expr(right);
            },
            Expr::SetProperty { object, value, .. } => {
                self.resolve_expr(object);
                self.resolve_expr(value);
            },
            Expr::Super { keyword, id, .. } => {
                if self.current_class.is_none() {
                    self.error(keyword, super_outside_text(self.rules));
                } else if self.current_class != Some(ClassType::Subclass) {
                    self.error(keyword, super_no_superclass_text(self.rules));
                }
                self.resolve_local(*id, keyword);
            },
            Expr::This { keyword, id } => {
                if self.current_class.is_none() {
                    self.error(keyword, this_outside_text(self.rules));
                }
                self.resolve_local(*id, keyword);
            },
            Expr::Unary { right, .. } => {
                self.resolve_expr(right);
            },
            Expr::Ternary { condition, then_branch, else_branch, .. } => {
                self.resolve_expr(condition);
                self.resolve_expr(then_branch);
                self.resolve_expr(else_branch);
            },
        }
    }

    fn declare_params_from(&mut self, params: &Vec<Token>, i: usize)
        requires
            i <= params@.len(),
        ensures
            final(self)@ == declare_params_from(old(self)@, tokens_view(params@), i as int),
        decreases params@.len() - i,
    {
        if i < params.len() {
            self.declare(&params[i]);
            self.define(&params[i]);
            self.declare_params_from(params, i + 1);
        }
    }

    fn resolve_stmts_from(&mut self, ss: &Vec<Stmt>, i: usize)
        requires
            i <= ss@.len(),
        ensures
            final(self)@ == resolve_stmts_from(old(self)@, stmts_view(ss@), i as int),
        decreases stmts_view(ss@), ss@.len() - i,
    {
        proof {
            lemma_stmts_view_index(ss@);
        }
        if i < ss.len() {
            proof {
                assert(decreases_to!(stmts_view(ss@) => stmts_view(ss@)[i as int]));
            }
            self.resolve_stmt(&ss[i]);
            self.resolve_stmts_from(ss, i + 1);
        }
    }

    fn resolve_function(&mut self, params: &Vec<Token>, body: &Vec<Stmt>, function_type: FunctionType)
        ensures
            final(self)@ == resolve_function(old(self)@, tokens_view(params@), stmts_view(body@), function_type),
        decreases stmts_view(body@), body@.len() + 1,
    {
        proof {
            lemma_stmts_view_index(body@);
        }
        let enclosing_function = self.current_function;
        self.current_function = Some(function_type);
        self.begin_scope();
        self.declare_params_from(params, 0);
        self.resolve_stmts_from(body, 0);
        self.end_scope();
        self.current_function = enclosing_function;
    }

    fn resolve_methods_from(&mut self, ms: &Vec<Stmt>, i: usize)
        requires
            i <= ms@.len(),
        ensures
            final(self)@ == resolve_methods_from(old(self)@, stmts_view(ms@), i as int),
        decreases stmts_view(ms@), ms@.len() - i,
    {
        proof {
            lemma_stmts_view_index(ms@);
        }
        if i < ms.len() {
            match &ms[i] {
                Stmt::Function { name, params, body } => {
                    let init = str_to_chars("init");
                    let lexeme = str_to_chars(name.lexeme());
                    let function_type = if chars_eq(lexeme.as_slice(), init.as_slice()) {
                        FunctionType::Initializer
                    } else {
                        FunctionType::Method
                    };
                    proof {
                        assert(decreases_to!(stmts_view(ms@) => stmts_view(ms@)[i as int]));
                    }
                    self.resolve_function(params, body, function_type);
                },
                _ => {},
            }
            self.resolve_methods_from(ms, i + 1);
        }
    }

    fn resolve_class(&mut self, name: &Token, superclass: &Option<Box<Expr>>, methods: &Vec<Stmt>)
        ensures
            final(self)@ == resolve_class(
                old(self)@,
                name@,
                match superclass {
                    Some(e) => Some(expr_view(**e)),
                    None => None,
                },
                stmts_view(methods@),
            ),
        decreases stmts_view(methods@), methods@.len() + 1,
    {
        let enclosing_class = self.current_class;
        self.current_class = Some(ClassType::Class);
        self.declare(name);
        self.define(name);
        match superclass {
            Some(superclass_expr) => {
                match &**superclass_expr {
                    Expr::Variable { name: superclass_name, .. } => {
                        let a = str_to_chars(name.lexeme());
                        let b = str_to_chars(superclass_name.lexeme());
                        if chars_eq(a.as_slice(), b.as_slice()) {
                            self.error(superclass_name, self_inherit_text(self.rules));
                        }
                    },
                    _ => {},
                }
                self.current_class = Some(ClassType::Subclass);
                self.resolve_expr(superclass_expr);
                self.begin_scope();
                self.bind_keyword("super");
            },
            None => {},
        }
        self.begin_scope();
        self.bind_keyword("this");
        self.resolve_methods_from(methods, 0);
        self.end_scope();
        if superclass.is_some() {
            self.end_scope();
        }
        self.current_class = enclosing_class;
    }

    fn bind_keyword(&mut self, keyword: &str)
        ensures
            final(self)@ == bind(old(self)@, keyword@),
    {
        let n = self.scopes.len();
        if n > 0 {
            let mut last = self.scopes.pop().unwrap();
            let ghost before = last@;
            last.push((str_to_chars(keyword), true));
            proof {
                assert(last@.drop_last() =~= before);
            }
            self.scopes.push(last);
            assert(scopes_view(self.scopes@) =~= scopes_view(old(self).scopes@).update(
                n - 1,
                scopes_view(old(self).scopes@).last().insert(keyword@, true),
            ));
        }
    }

    fn resolve_return(&mut self, keyword: &Token, value: &Option<Box<Expr>>)
        ensures
            final(self)@ == resolve_return(
                old(self)@,
                keyword@,
                match value {
                    Some(e) => Some(expr_view(**e)),
                    None => None,
                },
            ),
    {
        if self.current_function.is_none() {
            self.error(keyword, top_return_text(self.rules));
        } else if self.current_function == Some(FunctionType::Initializer) && value.is_some() {
            self.error(keyword, init_return_text(self.rules));
        }
        match value {
            Some(val) => self.resolve_expr(val),
            None => {},
        }
    }

    #[verifier::rlimit(100)]
    fn resolve_stmt(&mut self, statement: &Stmt)
        ensures
            final(self)@ == resolve_stmt(old(self)@, statement@),
        decreases statement@, 0int,
    {
        match statement {
            Stmt::Block { statements } => {
                self.begin_scope();
                self.resolve_stmts_from(statements, 0);
                self.end_scope();
            },
            Stmt::Var { name, initializer } => {
                self.declare(name);
                self.resolve_expr(initializer);
                self.define(name);
            },
            Stmt::Function { name, params, body } => {
                self.declare(name);
                self.define(name);
                self.resolve_function(params, body, FunctionType::Function);
            },
            Stmt::Expression { expression } => {
                self.resolve_expr(expression);
            },
            Stmt::If { condition, then_branch, else_branch } => {
                self.resolve_expr(condition);
                self.resolve_stmt(then_branch);
                match else_branch {
                    Some(else_stmt) => self.resolve_stmt(else_stmt),
                    None => {},
                }
            },
            Stmt::Print { expression } => {
                self.resolve_expr(expression);
            },
            Stmt::Return { keyword, value } => {
                self.resolve_return(keyword, value);
            },
            Stmt::While { condition, body } => {
                self.resolve_expr(condition);
                self.resolve_stmt(body);
            },
            Stmt::Class { name, superclass, methods } => {
                self.resolve_class(name, superclass, methods);
            },
        }
    }
}

// ---------------------------------------------------------------------------
// What every resolution step keeps.
// ---------------------------------------------------------------------------

/// `r` came from `st` by a resolution step that left the context as it was:
/// the same rules, the same number of scopes, the same enclosing function
/// and class kinds, and every error of `st` still first among the errors of
/// `r`.
pub open spec fn keeps_context(st: ResolverView, r: ResolverView) -> bool {
    &&& r.rules == st.rules
    &&& r.scopes.len() == st.scopes.len()
    &&& r.current_function == st.current_function
    &&& r.current_class == st.current_class
    &&& st.errors.len() <= r.errors.len()
    &&& r.errors.subrange(0, st.errors.len() as int) == st.errors
}

proof fn lemma_keeps_trans(a: ResolverView, b: ResolverView, c: ResolverView)
    requires
        keeps_context(a, b),
        keeps_context(b, c),
    ensures
        keeps_context(a, c),
{
    assert(c.errors.subrange(0, a.errors.len() as int) =~= c.errors.subrange(
        0,
        b.errors.len() as int,
    ).subrange(0, a.errors.len() as int));
}

proof fn lemma_keeps_refl(a: ResolverView)
    ensures
        keeps_context(a, a),
{
    assert(a.errors.subrange(0, a.errors.len() as int) =~= a.errors);
}

proof fn lemma_report_keeps(st: ResolverView, token: TokenView, message: Seq<char>)
    ensures
        keeps_context(st, report(st, token, message)),
        report(st, token, message).scopes == st.scopes,
{
    let r = report(st, token, message);
    assert(r.errors.subrange(0, st.errors.len() as int) =~= st.errors);
}

proof fn lemma_declare_keeps(st: ResolverView, name: TokenView)
    ensures
        keeps_context(st, declare(st, name)),
        keeps_context(st, define(st, name)),
{
    lemma_keeps_refl(st);
    let dup = st.scopes.len() > 0 && st.scopes.last().contains_key(name.lexeme);
    if dup {
        lemma_report_keeps(st, name, dup_msg(st.rules));
    }
}

proof fn lemma_local_keeps(st: ResolverView, id: nat, name: TokenView)
    ensures
        keeps_context(st, resolve_local(st, id, name)),
        resolve_local(st, id, name).scopes == st.scopes,
{
    lemma_keeps_refl(st);
}

proof fn lemma_exprs_keep(st: ResolverView, es: Seq<ExprView>, i: int)
    ensures
        keeps_context(st, resolve_exprs_from(st, es, i)),
        resolve_exprs_from(st, es, i).scopes == st.scopes,
    decreases es, es.len() - i,
{
    if 0 <= i < es.len() {
        let s1 = resolve_expr(st, es[i]);
        lemma_expr_keeps(st, es[i]);
        lemma_exprs_keep(s1, es, i + 1);
        lemma_keeps_trans(st, s1, resolve_exprs_from(s1, es, i + 1));
    } else {
        lemma_keeps_refl(st);
    }
}

proof fn lemma_expr_keeps(st: ResolverView, e: ExprView)
    ensures
        keeps_context(st, resolve_expr(st, e)),
        resolve_expr(st, e).scopes == st.scopes,
    decreases e, 0int,
{
    match e {
        ExprView::Assign { name, value, id } => {
            let s1 = resolve_expr(st, *value);
            lemma_expr_keeps(st, *value);
            lemma_local_keeps(s1, id, name);
            lemma_keeps_trans(st, s1, resolve_local(s1, id, name));
        },
        ExprView::Variable { name, id } => {
            let st1 = if st.scopes.len() > 0 && st.scopes.last().contains_key(name.lexeme)
                && st.scopes.last()[name.lexeme] == false {
                report(st, name, own_init_msg(st.rules))
            } else {
                st
            };
            lemma_keeps_refl(st);
            lemma_report_keeps(st, name, own_init_msg(st.rules));
            lemma_local_keeps(st1, id, name);
            lemma_keeps_trans(st, st1, resolve_local(st1, id, name));
        },
        ExprView::Binary { left, right, .. } => {
            let s1 = resolve_expr(st, *left);
            lemma_expr_keeps(st, *left);
            lemma_expr_keeps(s1, *right);
            lemma_keeps_trans(st, s1, resolve_expr(s1, *right));
        },
        ExprView::Call { callee, arguments, .. } => {
            let s1 = resolve_expr(st, *callee);
            lemma_expr_keeps(st, *callee);
            lemma_exprs_keep(s1, arguments, 0);
            lemma_keeps_trans(st, s1, resolve_exprs_from(s1, arguments, 0));
        },
        ExprView::Get { object, .. } => {
            lemma_expr_keeps(st, *object);
        },
        ExprView::Grouping { expression, .. } => {
            lemma_expr_keeps(st, *expression);
        },
        ExprView::Literal { .. } => {
            lemma_keeps_refl(st);
        },
        ExprView::Logical { left, right, .. } => {
            let s1 = resolve_expr(st, *left);
            lemma_expr_keeps(st, *left);
            lemma_expr_keeps(s1, *right);
            lemma_keeps_trans(st, s1, resolve_expr(s1, *right));
        },
        ExprView::SetProperty { object, value, .. } => {
            let s1 = resolve_expr(st, *object);
            lemma_expr_keeps(st, *object);
            lemma_expr_keeps(s1, *value);
            lemma_keeps_trans(st, s1, resolve_expr(s1, *value));
        },
        ExprView::Super { keyword, id, .. } => {
            let st1 = if st.current_class is None {
                report(st, keyword, super_outside_msg(st.rules))
            } else if st.current_class != Some(ClassType::Subclass) {
                report(st, keyword, super_no_superclass_msg(st.rules))
            } else {
                st
            };
            lemma_keeps_refl(st);
            lemma_report_keeps(st, keyword, super_outside_msg(st.rules));
            lemma_report_keeps(st, keyword, super_no_superclass_msg(st.rules));
            lemma_local_keeps(st1, id, keyword);
            lemma_keeps_trans(st, st1, resolve_local(st1, id, keyword));
        },
        ExprView::This { keyword, id } => {
            let st1 = if st.current_class is None {
                report(st, keyword, this_outside_msg(st.rules))
            } else {
                st
            };
            lemma_keeps_refl(st);
            lemma_report_keeps(st, keyword, this_outside_msg(st.rules));
            lemma_local_keeps(st1, id, keyword);
            lemma_keeps_trans(st, st1, resolve_local(st1, id, keyword));
        },
        ExprView::Unary { right, .. } => {
            lemma_expr_keeps(st, *right);
        },
        ExprView::Ternary { condition, then_branch, else_branch, .. } => {
            let s1 = resolve_expr(st, *condition);
            let s2 = resolve_expr(s1, *then_branch);
            lemma_expr_keeps(st, *condition);
            lemma_expr_keeps(s1, *then_branch);
            lemma_expr_keeps(s2, *else_branch);
            lemma_keeps_trans(st, s1, s2);
            lemma_keeps_trans(st, s2, resolve_expr(s2, *else_branch));
        },
    }
}

proof fn lemma_params_keep(st: ResolverView, params: Seq<TokenView>, i: int)
    ensures
        keeps_context(st, declare_params_from(st, params, i)),
    decreases params.len() - i,
{
    if 0 <= i < params.len() {
        let s1 = declare(st, params[i]);
        let s2 = define(s1, params[i]);
        lemma_declare_keeps(st, params[i]);
        lemma_declare_keeps(s1, params[i]);
        lemma_keeps_trans(st, s1, s2);
        lemma_params_keep(s2, params, i + 1);
        lemma_keeps_trans(st, s2, declare_params_from(s2, params, i + 1));
    } else {
        lemma_keeps_refl(st);
    }
}

proof fn lemma_stmts_keep(st: ResolverView, ss: Seq<StmtView>, i: int)
    ensures
        keeps_context(st, resolve_stmts_from(st, ss, i)),
    decreases ss, ss.len() - i,
{
    if 0 <= i < ss.len() {
        let s1 = resolve_stmt(st, ss[i]);
        lemma_stmt_keeps(st, ss[i]);
        lemma_stmts_keep(s1, ss, i + 1);
        lemma_keeps_trans(st, s1, resolve_stmts_from(s1, ss, i + 1));
    } else {
        lemma_keeps_refl(st);
    }
}

proof fn lemma_function_keeps(st: ResolverView, params: Seq<TokenView>, body: Seq<StmtView>, ft: FunctionType)
    ensures
        keeps_context(st, resolve_function(st, params, body, ft)),
    decreases body, body.len() + 1,
{
    let st1 = ResolverView { current_function: Some(ft), ..st };
    let b = begin_scope(st1);
    let st2 = declare_params_from(b, params, 0);
    let st3 = resolve_stmts_from(st2, body, 0);
    lemma_params_keep(b, params, 0);
    lemma_stmts_keep(st2, body, 0);
    lemma_keeps_trans(b, st2, st3);
    assert(st.errors =~= b.errors);
}

proof fn lemma_methods_keep(st: ResolverView, ms: Seq<StmtView>, i: int)
    ensures
        keeps_context(st, resolve_methods_from(st, ms, i)),
    decreases ms, ms.len() - i,
{
    if 0 <= i < ms.len() {
        let st1 = match ms[i] {
            StmtView::Function { name, params, body } => resolve_function(
                st,
                params,
                body,
                method_type(name.lexeme),
            ),
            _ => st,
        };
        match ms[i] {
            StmtView::Function { name, params, body } => {
                lemma_function_keeps(st, params, body, method_type(name.lexeme));
            },
            _ => {
                lemma_keeps_refl(st);
            },
        }
        lemma_methods_keep(st1, ms, i + 1);
        lemma_keeps_trans(st, st1, resolve_methods_from(st1, ms, i + 1));
    } else {
        lemma_keeps_refl(st);
    }
}

proof fn lemma_class_keeps(st: ResolverView, name: TokenView, superclass: Option<ExprView>, methods: Seq<StmtView>)
    ensures
        keeps_context(st, resolve_class(st, name, superclass, methods)),
    decreases methods, methods.len() + 1,
{
    let c0 = ResolverView { current_class: Some(ClassType::Class), ..st };
    let d1 = declare(c0, name);
    let st1 = define(d1, name);
    lemma_declare_keeps(c0, name);
    lemma_declare_keeps(d1, name);
    lemma_keeps_trans(c0, d1, st1);
    let st2 = match superclass {
        Some(sc) => {
            let st_a = match sc {
                ExprView::Variable { name: sname, .. } => if name.lexeme == sname.lexeme {
                    report(st1, sname, self_inherit_msg(st.rules))
                } else {
                    st1
                },
                _ => st1,
            };
            let st_b = resolve_expr(ResolverView { current_class: Some(ClassType::Subclass), ..st_a }, sc);
            bind(begin_scope(st_b), "super"@)
        },
        None => st1,
    };
    match superclass {
        Some(sc) => {
            let st_a = match sc {
                ExprView::Variable { name: sname, .. } => if name.lexeme == sname.lexeme {
                    report(st1, sname, self_inherit_msg(st.rules))
                } else {
                    st1
                },
                _ => st1,
            };
            match sc {
                ExprView::Variable { name: sname, .. } => {
                    lemma_report_keeps(st1, sname, self_inherit_msg(st.rules));
                    lemma_keeps_refl(st1);
                },
                _ => {
                    lemma_keeps_refl(st1);
                },
            }
            lemma_keeps_trans(c0, st1, st_a);
            let sub = ResolverView { current_class: Some(ClassType::Subclass), ..st_a };
            lemma_expr_keeps(sub, sc);
            let st_b = resolve_expr(sub, sc);
            assert(st_b.errors.subrange(0, c0.errors.len() as int) =~= st_b.errors.subrange(
                0,
                st_a.errors.len() as int,
            ).subrange(0, c0.errors.len() as int));
            assert(st2.scopes.len() == st.scopes.len() + 1);
            assert(st2.errors.subrange(0, st.errors.len() as int) == st.errors);
        },
        None => {},
    }
    let st3 = bind(begin_scope(st2), "this"@);
    let m = resolve_methods_from(st3, methods, 0);
    lemma_methods_keep(st3, methods, 0);
    assert(m.errors.subrange(0, st.errors.len() as int) =~= m.errors.subrange(
        0,
        st3.errors.len() as int,
    ).subrange(0, st.errors.len() as int));
}

proof fn lemma_return_keeps(st: ResolverView, keyword: TokenView, value: Option<ExprView>)
    ensures
        keeps_context(st, resolve_return(st, keyword, value)),
{
    let st1 = if st.current_function is None {
        report(st, keyword, top_return_msg(st.rules))
    } else if st.current_function == Some(FunctionType::Initializer) && value is Some {
        report(st, keyword, init_return_msg(st.rules))
    } else {
        st
    };
    lemma_keeps_refl(st);
    lemma_report_keeps(st, keyword, top_return_msg(st.rules));
    lemma_report_keeps(st, keyword, init_return_msg(st.rules));
    match value {
        Some(v) => {
            lemma_expr_keeps(st1, v);
            lemma_keeps_trans(st, st1, resolve_expr(st1, v));
        },
        None => {},
    }
}

#[verifier::rlimit(40)]
proof fn lemma_stmt_keeps(st: ResolverView, s: StmtView)
    ensures
        keeps_context(st, resolve_stmt(st, s)),
    decreases s, 0int,
{
    match s {
        StmtView::Block { statements } => {
            let b = begin_scope(st);
            lemma_stmts_keep(b, statements, 0);
        },
        StmtView::Var { name, initializer } => {
            let s1 = declare(st, name);
            let s2 = resolve_expr(s1, initializer);
            lemma_declare_keeps(st, name);
            lemma_expr_keeps(s1, initializer);
            lemma_declare_keeps(s2, name);
            lemma_keeps_trans(st, s1, s2);
            lemma_keeps_trans(st, s2, define(s2, name));
        },
        StmtView::Function { name, params, body } => {
            let s1 = declare(st, name);
            let s2 = define(s1, name);
            lemma_declare_keeps(st, name);
            lemma_declare_keeps(s1, name);
            lemma_keeps_trans(st, s1, s2);
            lemma_function_keeps(s2, params, body, FunctionType::Function);
            lemma_keeps_trans(st, s2, resolve_function(s2, params, body, FunctionType::Function));
        },
        StmtView::Expression { expression } => {
            lemma_expr_keeps(st, expression);
        },
        StmtView::If { condition, then_branch, else_branch } => {
            let s0 = resolve_expr(st, condition);
            let s1 = resolve_stmt(s0, *then_branch);
            lemma_expr_keeps(st, condition);
            lemma_stmt_keeps(s0, *then_branch);
            lemma_keeps_trans(st, s0, s1);
            match else_branch {
                Some(e) => {
                    lemma_stmt_keeps(s1, *e);
                    lemma_keeps_trans(st, s1, resolve_stmt(s1, *e));
                },
                None => {},
            }
        },
        StmtView::Print { expression } => {
            lemma_expr_keeps(st, expression);
        },
        StmtView::Return { keyword, value } => {
            lemma_return_keeps(st, keyword, value);
        },
        StmtView::While { condition, body } => {
            let s0 = resolve_expr(st, condition);
            lemma_expr_keeps(st, condition);
            lemma_stmt_keeps(s0, *body);
            lemma_keeps_trans(st, s0, resolve_stmt(s0, *body));
        },
        StmtView::Class { name, superclass, methods } => {
            lemma_class_keeps(st, name, superclass, methods);
        },
    }
}

// ---------------------------------------------------------------------------
// Laws of the resolver.
// ---------------------------------------------------------------------------

/// Resolving a program leaves the context as it found it: the scope stack
/// has its former depth, the enclosing function and class kinds are
/// restored, and every error found before is kept, first and in order.
pub proof fn law_resolution_keeps_context(st: ResolverView, program: Seq<StmtView>)
    ensures
        keeps_context(st, resolve_stmts_from(st, program, 0)),
{
    lemma_stmts_keep(st, program, 0);
}

proof fn lemma_errors_kept(a: ResolverView, b: ResolverView, e: ResolveErrorView)
    requires
        keeps_context(a, b),
        a.errors.contains(e),
    ensures
        b.errors.contains(e),
{
    let k = choose|k: int| 0 <= k < a.errors.len() && a.errors[k] == e;
    assert(b.errors.subrange(0, a.errors.len() as int)[k] == b.errors[k]);
}

#[verifier::rlimit(40)]
proof fn lemma_top_level_return_from(
    st: ResolverView,
    program: Seq<StmtView>,
    j: int,
    i: int,
    keyword: TokenView,
    value: Option<ExprView>,
)
    requires
        0 <= j <= i < program.len(),
        program[i] == (StmtView::Return { keyword, value }),
        st.current_function is None,
    ensures
        resolve_stmts_from(st, program, j).errors.contains(
            ResolveErrorView { token: keyword, message: top_return_msg(st.rules) },
        ),
    decreases i - j,
{
    let e = ResolveErrorView { token: keyword, message: top_return_msg(st.rules) };
    let s1 = resolve_stmt(st, program[j]);
    lemma_stmt_keeps(st, program[j]);
    assert(resolve_stmts_from(st, program, j) == resolve_stmts_from(s1, program, j + 1));
    if j == i {
        let r = report(st, keyword, top_return_msg(st.rules));
        assert(r.errors[st.errors.len() as int] == e);
        assert(s1 == resolve_return(st, keyword, value));
        match value {
            Some(v) => {
                lemma_expr_keeps(r, v);
                lemma_errors_kept(r, resolve_expr(r, v), e);
            },
            None => {},
        }
        lemma_stmts_keep(s1, program, j + 1);
        lemma_errors_kept(s1, resolve_stmts_from(s1, program, j + 1), e);
    } else {
        lemma_top_level_return_from(s1, program, j + 1, i, keyword, value);
    }
}

/// A `return` among the top-level statements of a program is always
/// reported, by either rules: "Can't return from top-level code."
pub proof fn law_top_level_return_rejected(
    rules: Rules,
    program: Seq<StmtView>,
    i: int,
    keyword: TokenView,
    value: Option<ExprView>,
)
    requires
        0 <= i < program.len(),
        program[i] == (StmtView::Return { keyword, value }),
    ensures
        resolve_stmts_from(initial_resolver(rules), program, 0).errors.contains(
            ResolveErrorView { token: keyword, message: top_return_msg(rules) },
        ),
{
    lemma_top_level_return_from(initial_resolver(rules), program, 0, i, keyword, value);
}

/// A class that names itself as its superclass is always reported, in any
/// context and by either rules: "A class can't inherit from itself."
pub proof fn law_self_inheritance_rejected(
    st: ResolverView,
    name: TokenView,
    superclass_name: TokenView,
    id: nat,
    methods: Seq<StmtView>,
)
    requires
        name.lexeme == superclass_name.lexeme,
    ensures
        resolve_stmt(
            st,
            StmtView::Class {
                name,
                superclass: Some(ExprView::Variable { name: superclass_name, id }),
                methods,
            },
        ).errors.contains(
            ResolveErrorView { token: superclass_name, message: self_inherit_msg(st.rules) },
        ),
{
    let e = ResolveErrorView { token: superclass_name, message: self_inherit_msg(st.rules) };
    let sc = ExprView::Variable { name: superclass_name, id };
    let c0 = ResolverView { current_class: Some(ClassType::Class), ..st };
    let st1 = define(declare(c0, name), name);
    let st_a = report(st1, superclass_name, self_inherit_msg(st.rules));
    assert(st_a.errors[st1.errors.len() as int] == e);
    let sub = ResolverView { current_class: Some(ClassType::Subclass), ..st_a };
    assert(sub.errors.contains(e));
    lemma_expr_keeps(sub, sc);
    let st_b = resolve_expr(sub, sc);
    lemma_errors_kept(sub, st_b, e);
    let st2 = bind(begin_scope(st_b), "super"@);
    let st3 = bind(begin_scope(st2), "this"@);
    assert(st3.errors == st_b.errors);
    lemma_methods_keep(st3, methods, 0);
    let m = resolve_methods_from(st3, methods, 0);
    lemma_errors_kept(st3, m, e);
    let class = StmtView::Class { name, superclass: Some(sc), methods };
    assert(resolve_stmt(st, class) == resolve_class(st, name, Some(sc), methods));
    assert(resolve_class(st, name, Some(sc), methods).errors == m.errors);
}

/// Whether expression `e` holds, anywhere inside it, a variable reference
/// with this id and name.
pub open spec fn names_variable(e: ExprView, id: nat, name: Seq<char>) -> bool
    decreases e, 0int,
{
    match e {
        ExprView::Variable { name: n, id: i } => i == id && n.lexeme == name,
        ExprView::Assign { value, .. } => names_variable(*value, id, name),
        ExprView::Binary { left, right, .. } => names_variable(*left, id, name) || names_variable(*right, id, name),
        ExprView::Call { callee, arguments, .. } => names_variable(*callee, id, name) || names_variable_in(
            arguments,
            0,
            id,
            name,
        ),
        ExprView::Get { object, .. } => names_variable(*object, id, name),
        ExprView::Grouping { expression, .. } => names_variable(*expression, id, name),
        ExprView::Literal { .. } => false,
        ExprView::Logical { left, right, .. } => names_variable(*left, id, name) || names_variable(*right, id, name),
        ExprView::SetProperty { object, value, .. } => names_variable(*object, id, name) || names_variable(
            *value,
            id,
            name,
        ),
        ExprView::Super { .. } => false,
        ExprView::This { .. } => false,
        ExprView::Unary { right, .. } => names_variable(*right, id, name),
        ExprView::Ternary { condition, then_branch, else_branch, .. } => names_variable(*condition, id, name)
            || names_variable(*then_branch, id, name) || names_variable(*else_branch, id, name),
    }
}

/// Whether one of the expressions from index `i` on holds such a reference.
pub open spec fn names_variable_in(es: Seq<ExprView>, i: int, id: nat, name: Seq<char>) -> bool
    decreases es, es.len() - i,
{
    if 0 <= i < es.len() {
        names_variable(es[i], id, name) || names_variable_in(es, i + 1, id, name)
    } else {
        false
    }
}

proof fn lemma_expr_locals_grow(st: ResolverView, e: ExprView, k: usize)
    requires
        st.locals.contains_key(k),
    ensures
        resolve_expr(st, e).locals.contains_key(k),
    decreases e, 0int,
{
    match e {
        ExprView::Assign { name, value, id } => {
            lemma_expr_locals_grow(st, *value, k);
        },
        ExprView::Binary { left, right, .. } => {
            lemma_expr_locals_grow(st, *left, k);
            lemma_expr_locals_grow(resolve_expr(st, *left), *right, k);
        },
        ExprView::Call { callee, arguments, .. } => {
            lemma_expr_locals_grow(st, *callee, k);
            lemma_exprs_locals_grow(resolve_expr(st, *callee), arguments, 0, k);
        },
        ExprView::Get { object, .. } => {
            lemma_expr_locals_grow(st, *object, k);
        },
        ExprView::Grouping { expression, .. } => {
            lemma_expr_locals_grow(st, *expression, k);
        },
        ExprView::Logical { left, right, .. } => {
            lemma_expr_locals_grow(st, *left, k);
            lemma_expr_locals_grow(resolve_expr(st, *left), *right, k);
        },
        ExprView::SetProperty { object, value, .. } => {
            lemma_expr_locals_grow(st, *object, k);
            lemma_expr_locals_grow(resolve_expr(st, *object), *value, k);
        },
        ExprView::Unary { right, .. } => {
            lemma_expr_locals_grow(st, *right, k);
        },
        ExprView::Ternary { condition, then_branch, else_branch, .. } => {
            lemma_expr_locals_grow(st, *condition, k);
            let s1 = resolve_expr(st, *condition);
            lemma_expr_locals_grow(s1, *then_branch, k);
            lemma_expr_locals_grow(resolve_expr(s1, *then_branch), *else_branch, k);
        },
        _ => {},
    }
}

proof fn lemma_exprs_locals_grow(st: ResolverView, es: Seq<ExprView>, i: int, k: usize)
    requires
        st.locals.contains_key(k),
    ensures
        resolve_exprs_from(st, es, i).locals.contains_key(k),
    decreases es, es.len() - i,
{
    if 0 <= i < es.len() {
        lemma_expr_locals_grow(st, es[i], k);
        lemma_exprs_locals_grow(resolve_expr(st, es[i]), es, i + 1, k);
    }
}

proof fn lemma_depth_found(scopes: Seq<Map<Seq<char>, bool>>, n: int, name: Seq<char>)
    requires
        0 <= n <= scopes.len(),
        exists|k: int| 0 <= k < n && #[trigger] scopes[k].contains_key(name),
    ensures
        depth_in(scopes, n, name) is Some,
    decreases n,
{
    if !scopes[n - 1].contains_key(name) {
        let k = choose|k: int| 0 <= k < n && #[trigger] scopes[k].contains_key(name);
        assert(k < n - 1);
        lemma_depth_found(scopes, n - 1, name);
    }
}

proof fn lemma_resolves_variable(st: ResolverView, e: ExprView, id: nat, name: Seq<char>)
    requires
        names_variable(e, id, name),
        depth_in(st.scopes, st.scopes.len() as int, name) is Some,
    ensures
        resolve_expr(st, e).locals.contains_key(id as usize),
    decreases e, 0int,
{
    match e {
        ExprView::Variable { name: n, id: i } => {},
        ExprView::Assign { name: n, value, id: i } => {
            lemma_resolves_variable(st, *value, id, name);
            lemma_expr_keeps(st, *value);
        },
        ExprView::Binary { left, right, .. } => {
            lemma_expr_keeps(st, *left);
            if names_variable(*left, id, name) {
                lemma_resolves_variable(st, *left, id, name);
                lemma_expr_locals_grow(resolve_expr(st, *left), *right, id as usize);
            } else {
                lemma_resolves_variable(resolve_expr(st, *left), *right, id, name);
            }
        },
        ExprView::Call { callee, arguments, .. } => {
            lemma_expr_keeps(st, *callee);
            if names_variable(*callee, id, name) {
                lemma_resolves_variable(st, *callee, id, name);
                lemma_exprs_locals_grow(resolve_expr(st, *callee), arguments, 0, id as usize);
            } else {
                lemma_resolves_variable_in(resolve_expr(st, *callee), arguments, 0, id, name);
            }
        },
        ExprView::Get { object, .. } => {
            lemma_resolves_variable(st, *object, id, name);
        },
        ExprView::Grouping { expression, .. } => {
            lemma_resolves_variable(st, *expression, id, name);
        },
        ExprView::Logical { left, right, .. } => {
            lemma_expr_keeps(st, *left);
            if names_variable(*left, id, name) {
                lemma_resolves_variable(st, *left, id, name);
                lemma_expr_locals_grow(resolve_expr(st, *left), *right, id as usize);
            } else {
                lemma_resolves_variable(resolve_expr(st, *left), *right, id, name);
            }
        },
        ExprView::SetProperty { object, value, .. } => {
            lemma_expr_keeps(st, *object);
            if names_variable(*object, id, name) {
                lemma_resolves_variable(st, *object, id, name);
                lemma_expr_locals_grow(resolve_expr(st, *object), *value, id as usize);
            } else {
                lemma_resolves_variable(resolve_expr(st, *object), *value, id, name);
            }
        },
        ExprView::Unary { right, .. } => {
            lemma_resolves_variable(st, *right, id, name);
        },
        ExprView::Ternary { condition, then_branch, else_branch, .. } => {
            lemma_expr_keeps(st, *condition);
            let s1 = resolve_expr(st, *condition);
            lemma_expr_keeps(s1, *then_branch);
            let s2 = resolve_expr(s1, *then_branch);
            if names_variable(*condition, id, name) {
                lemma_resolves_variable(st, *condition, id, name);
                lemma_expr_locals_grow(s1, *then_branch, id as usize);
                lemma_expr_locals_grow(s2, *else_branch, id as usize);
            } else if names_variable(*then_branch, id, name) {
                lemma_resolves_variable(s1, *then_branch, id, name);
                lemma_expr_locals_grow(s2, *else_branch, id as usize);
            } else {
                lemma_resolves_variable(s2, *else_branch, id, name);
            }
        },
        _ => {},
    }
}

proof fn lemma_resolves_variable_in(st: ResolverView, es: Seq<ExprView>, i: int, id: nat, name: Seq<char>)
    requires
        names_variable_in(es, i, id, name),
        depth_in(st.scopes, st.scopes.len() as int, name) is Some,
    ensures
        resolve_exprs_from(st, es, i).locals.contains_key(id as usize),
    decreases es, es.len() - i,
{
    lemma_expr_keeps(st, es[i]);
    if names_variable(es[i], id, name) {
        lemma_resolves_variable(st, es[i], id, name);
        lemma_exprs_locals_grow(resolve_expr(st, es[i]), es, i + 1, id as usize);
    } else {
        lemma_resolves_variable_in(resolve_expr(st, es[i]), es, i + 1, id, name);
    }
}

/// Resolving an expression resolves every part of it: each variable
/// reference anywhere inside it whose name some enclosing scope declares
/// gets a depth recorded under its id.
pub proof fn law_every_local_reference_resolved(st: ResolverView, e: ExprView, id: nat, name: Seq<char>)
    requires
        names_variable(e, id, name),
        exists|k: int| 0 <= k < st.scopes.len() && #[trigger] st.scopes[k].contains_key(name),
    ensures
        resolve_expr(st, e).locals.contains_key(id as usize),
{
    lemma_depth_found(st.scopes, st.scopes.len() as int, name);
    lemma_resolves_variable(st, e, id, name);
}

} // verus!
