use vstd::prelude::*;

use crate::ast::{expr_view, lemma_stmts_view_index, stmts_view, Expr, ExprView, Stmt, StmtView};
use crate::runtime::{bool_lox, nil_lox, truthy, LoxValue, TAG_BOOL, TAG_NIL, TAG_NUMBER, TAG_STRING};
use crate::text::str_to_string;
use crate::token::{Literal, LiteralView, Token, TokenType};

verus! {

/// One step of the code that the compiler emits, on a stack of Lox values.
#[derive(Debug)]
pub enum Instr {
    /// Push a number, given by its decimal text.
    Number(String),
    /// Push a boolean.
    Bool(bool),
    /// Push `nil`.
    Nil,
    /// Push a string.
    Str(String),
    /// Check that the value on top has the tag; otherwise report the message
    /// as a runtime error on the line and end the program with status 70.
    CheckType { tag: u8, line: usize, message: String },
    /// Replace the value on top by the boolean that it is not truthy.
    Not,
    /// Replace the number on top by its negation.
    Negate,
    /// Replace the two numbers on top by their sum, difference, product or
    /// quotient (the lower one is the left operand).
    Add,
    Subtract,
    Multiply,
    Divide,
    /// Pop the value on top and print it.
    Print,
}

/// The model of an [`Instr`].
pub enum InstrView {
    Number(Seq<char>),
    Bool(bool),
    Nil,
    Str(Seq<char>),
    CheckType { tag: u8, line: nat, message: Seq<char> },
    Not,
    Negate,
    Add,
    Subtract,
    Multiply,
    Divide,
    Print,
}

impl View for Instr {
    type V = InstrView;

    open spec fn view(&self) -> InstrView {
        match self {
            Instr::Number(s) => InstrView::Number(s@),
            Instr::Bool(b) => InstrView::Bool(*b),
            Instr::Nil => InstrView::Nil,
            Instr::Str(s) => InstrView::Str(s@),
            Instr::CheckType { tag, line, message } => InstrView::CheckType {
                tag: *tag,
                line: *line as nat,
                message: message@,
            },
            Instr::Not => InstrView::Not,
            Instr::Negate => InstrView::Negate,
            Instr::Add => InstrView::Add,
            Instr::Subtract => InstrView::Subtract,
            Instr::Multiply => InstrView::Multiply,
            Instr::Divide => InstrView::Divide,
            Instr::Print => InstrView::Print,
        }
    }
}

pub open spec fn instrs_view(v: Seq<Instr>) -> Seq<InstrView> {
    v.map_values(|i: Instr| i@)
}

/// Why a program could not be compiled.
#[derive(Debug)]
pub enum CodeGenError {
    /// A construct that the compiler does not handle.
    Unsupported { token: Option<Token>, message: String },
    /// A failure reported by the code generator's back end.
    Llvm { message: String },
}

pub open spec fn push_literal(l: LiteralView) -> InstrView {
    match l {
        LiteralView::Number(s) => InstrView::Number(s),
        LiteralView::Bool(b) => InstrView::Bool(b),
        LiteralView::Nil => InstrView::Nil,
        LiteralView::String(s) => InstrView::Str(s),
    }
}

/// The code for an expression, or the message of the construct that the
/// compiler does not handle. The code leaves the value of the expression on
/// top of the stack.
pub open spec fn lower_expr(e: ExprView) -> Result<Seq<InstrView>, Seq<char>>
    decreases e,
{
    match e {
        ExprView::Literal { value, .. } => Ok(seq![push_literal(value)]),
        ExprView::Grouping { expression, .. } => lower_expr(*expression),
        ExprView::Unary { operator, right, .. } => match lower_expr(*right) {
            Ok(code) => if operator.token_type == TokenType::Bang {
                Ok(code.push(InstrView::Not))
            } else if operator.token_type == TokenType::Minus {
                Ok(
                    code.push(
                        InstrView::CheckType {
                            tag: TAG_NUMBER,
                            line: operator.line,
                            message: "Operand must be a number."@,
                        },
                    ).push(InstrView::Negate),
                )
            } else {
                Err("unsupported unary operator"@)
            },
            Err(m) => Err(m),
        },
        ExprView::Binary { left, operator, right, .. } => match lower_expr(*left) {
            Ok(l) => match lower_expr(*right) {
                Ok(r) => if operator.token_type == TokenType::Plus {
                    Ok((l + r).push(InstrView::Add))
                } else if operator.token_type == TokenType::Minus {
                    Ok((l + r).push(InstrView::Subtract))
                } else if operator.token_type == TokenType::Star {
                    Ok((l + r).push(InstrView::Multiply))
                } else if operator.token_type == TokenType::Slash {
                    Ok((l + r).push(InstrView::Divide))
                } else {
                    Err("unsupported binary operator"@)
                },
                Err(m) => Err(m),
            },
            Err(m) => Err(m),
        },
        _ => Err("unsupported expression"@),
    }
}

/// The code for a statement: only `print` is handled.
pub open spec fn lower_stmt(s: StmtView) -> Result<Seq<InstrView>, Seq<char>> {
    match s {
        StmtView::Print { expression } => match lower_expr(expression) {
            Ok(code) => Ok(code.push(InstrView::Print)),
            Err(m) => Err(m),
        },
        _ => Err("unsupported statement"@),
    }
}

/// The code for the statements from index `i` on, in order, or the message
/// of the first construct that the compiler does not handle.
pub open spec fn lower_stmts_from(ss: Seq<StmtView>, i: int) -> Result<Seq<InstrView>, Seq<char>>
    decreases ss.len() - i,
{
    if 0 <= i < ss.len() {
        match lower_stmt(ss[i]) {
            Ok(code) => match lower_stmts_from(ss, i + 1) {
                Ok(rest) => Ok(code + rest),
                Err(m) => Err(m),
            },
            Err(m) => Err(m),
        }
    } else {
        Ok(Seq::empty())
    }
}

fn unsupported(message: &str) -> (e: CodeGenError)
    ensures
        e matches CodeGenError::Unsupported { token: None, message: m } && m@ == message@,
{
    CodeGenError::Unsupported { token: None, message: str_to_string(message) }
}

/// The result of lowering, compared with its model.
pub open spec fn lowered_as(r: Result<Vec<Instr>, CodeGenError>, m: Result<Seq<InstrView>, Seq<char>>) -> bool {
    match (r, m) {
        (Ok(code), Ok(mc)) => instrs_view(code@) == mc,
        (Err(CodeGenError::Unsupported { token: None, message }), Err(mm)) => message@ == mm,
        _ => false,
    }
}

fn clone_literal_push(value: &Literal) -> (i: Instr)
    ensures
        i@ == push_literal(value@),
{
    match value {
        Literal::Number(s) => Instr::Number(s.clone()),
        Literal::Bool(b) => Instr::Bool(*b),
        Literal::Nil => Instr::Nil,
        Literal::String(s) => Instr::Str(s.clone()),
    }
}

fn append_code(code: &mut Vec<Instr>, mut more: Vec<Instr>)
    ensures
        instrs_view(final(code)@) == instrs_view(old(code)@) + instrs_view(more@),
{
    let ghost a = code@;
    let ghost b = more@;
    code.append(&mut more);
    assert(instrs_view(code@) =~= instrs_view(a) + instrs_view(b));
}

fn push_code(code: &mut Vec<Instr>, i: Instr)
    ensures
        instrs_view(final(code)@) == instrs_view(old(code)@).push(i@),
{
    code.push(i);
    assert(instrs_view(final(code)@) =~= instrs_view(old(code)@).push(i@));
}

/// Lowers an expression to code that leaves its value on the stack.
pub fn lower_expr_code(expr: &Expr) -> (r: Result<Vec<Instr>, CodeGenError>)
    ensures
        lowered_as(r, lower_expr(expr@)),
    decreases expr,
{
    match expr {
        Expr::Literal { value, .. } => {
            let mut code: Vec<Instr> = Vec::new();
            push_code(&mut code, clone_literal_push(value));
            assert(instrs_view(code@) =~= seq![push_literal(value@)]);
            Ok(code)
        },
        Expr::Grouping { expression, .. } => lower_expr_code(expression),
        Expr::Unary { operator, right, .. } => {
            let mut code = match lower_expr_code(right) {
                Ok(c) => c,
                Err(e) => {
                    return Err(e);
                },
            };
            match operator.token_type() {
                TokenType::Bang => {
                    push_code(&mut code, Instr::Not);
                    Ok(code)
                },
                TokenType::Minus => {
                    push_code(
                        &mut code,
                        Instr::CheckType {
                            tag: TAG_NUMBER,
                            line: operator.line(),
                            message: str_to_string("Operand must be a number."),
                        },
                    );
                    push_code(&mut code, Instr::Negate);
                    Ok(code)
                },
                _ => Err(unsupported("unsupported unary operator")),
            }
        },
        Expr::Binary { left, operator, right, .. } => {
            let mut code = match lower_expr_code(left) {
                Ok(c) => c,
                Err(e) => {
                    return Err(e);
                },
            };
            let r = match lower_expr_code(right) {
                Ok(c) => c,
                Err(e) => {
                    return Err(e);
                },
            };
            append_code(&mut code, r);
            match operator.token_type() {
                TokenType::Plus => {
                    push_code(&mut code, Instr::Add);
                    Ok(code)
                },
                TokenType::Minus => {
                    push_code(&mut code, Instr::Subtract);
                    Ok(code)
                },
                TokenType::Star => {
                    push_code(&mut code, Instr::Multiply);
                    Ok(code)
                },
                TokenType::Slash => {
                    push_code(&mut code, Instr::Divide);
                    Ok(code)
                },
                _ => Err(unsupported("unsupported binary operator")),
            }
        },
        _ => Err(unsupported("unsupported expression")),
    }
}

/// Lowers a statement.
pub fn lower_stmt_code(statement: &Stmt) -> (r: Result<Vec<Instr>, CodeGenError>)
    ensures
        lowered_as(r, lower_stmt(statement@)),
{
    match statement {
        Stmt::Print { expression } => {
            let mut code = match lower_expr_code(expression) {
                Ok(c) => c,
                Err(e) => {
                    return Err(e);
                },
            };
            push_code(&mut code, Instr::Print);
            Ok(code)
        },
        _ => Err(unsupported("unsupported statement")),
    }
}

/// Lowers the body of the program's main function: the code of each
/// statement in turn. The first statement that cannot be compiled ends the
/// lowering with its error.
pub fn lower_main(statements: &Vec<Stmt>) -> (r: Result<Vec<Instr>, CodeGenError>)
    ensures
        lowered_as(r, lower_stmts_from(stmts_view(statements@), 0)),
{
    proof {
        lemma_stmts_view_index(statements@);
    }
    let ghost sv = stmts_view(statements@);
    let mut code: Vec<Instr> = Vec::new();
    let mut i: usize = 0;
    while i < statements.len()
        invariant
            i <= statements@.len(),
            sv == stmts_view(statements@),
            sv.len() == statements@.len(),
            forall|k: int| 0 <= k < statements@.len() ==> #[trigger] sv[k] == statements@[k]@,
            lower_stmts_from(sv, 0) matches Ok(all) ==> lower_stmts_from(sv, i as int) matches Ok(rest)
                && all == instrs_view(code@) + rest,
            lower_stmts_from(sv, 0) is Err ==> lower_stmts_from(sv, i as int) == lower_stmts_from(sv, 0),
            lower_stmts_from(sv, 0) is Ok <==> lower_stmts_from(sv, i as int) is Ok,
        decreases statements@.len() - i,
    {
        let c = match lower_stmt_code(&statements[i]) {
            Ok(c) => c,
            Err(e) => {
                assert(lower_stmts_from(sv, i as int) == lower_stmt(sv[i as int]));
                return Err(e);
            },
        };
        proof {
            let rest = lower_stmts_from(sv, i as int + 1);
            if rest is Ok {
                assert(instrs_view(code@) + (instrs_view(c@) + rest->Ok_0) =~= (instrs_view(code@)
                    + instrs_view(c@)) + rest->Ok_0);
            }
        }
        append_code(&mut code, c);
        i = i + 1;
    }
    assert(instrs_view(code@) + Seq::<InstrView>::empty() =~= instrs_view(code@));
    Ok(code)
}

// ---------------------------------------------------------------------------
// The stack discipline of the emitted code.
// ---------------------------------------------------------------------------

/// How many values an instruction needs on the stack.
pub open spec fn needs(i: InstrView) -> int {
    match i {
        InstrView::Number(_) | InstrView::Bool(_) | InstrView::Nil | InstrView::Str(_) => 0,
        InstrView::CheckType { .. } | InstrView::Not | InstrView::Negate | InstrView::Print => 1,
        InstrView::Add | InstrView::Subtract | InstrView::Multiply | InstrView::Divide => 2,
    }
}

/// By how much an instruction changes the height of the stack.
pub open spec fn effect(i: InstrView) -> int {
    match i {
        InstrView::Number(_) | InstrView::Bool(_) | InstrView::Nil | InstrView::Str(_) => 1,
        InstrView::CheckType { .. } | InstrView::Not | InstrView::Negate => 0,
        InstrView::Add | InstrView::Subtract | InstrView::Multiply | InstrView::Divide | InstrView::Print => -1,
    }
}

/// By how much a run of code changes the height of the stack.
pub open spec fn net_effect(code: Seq<InstrView>) -> int
    decreases code.len(),
{
    if code.len() == 0 {
        0
    } else {
        effect(code[0]) + net_effect(code.drop_first())
    }
}

/// Whether code run on a stack of `height` values always finds the values
/// each instruction needs.
pub open spec fn safe_from(code: Seq<InstrView>, height: int) -> bool
    decreases code.len(),
{
    code.len() == 0 || (height >= needs(code[0]) && safe_from(code.drop_first(), height + effect(code[0])))
}

proof fn lemma_concat(a: Seq<InstrView>, b: Seq<InstrView>, h: int)
    ensures
        net_effect(a + b) == net_effect(a) + net_effect(b),
        safe_from(a, h) && safe_from(b, h + net_effect(a)) ==> safe_from(a + b, h),
    decreases a.len(),
{
    if a.len() == 0 {
        assert(a + b =~= b);
    } else {
        assert((a + b).drop_first() =~= a.drop_first() + b);
        assert((a + b)[0] == a[0]);
        lemma_concat(a.drop_first(), b, h + effect(a[0]));
    }
}

proof fn lemma_safe_higher(code: Seq<InstrView>, h: int, k: int)
    requires
        safe_from(code, h),
        h <= k,
    ensures
        safe_from(code, k),
    decreases code.len(),
{
    if code.len() > 0 {
        lemma_safe_higher(code.drop_first(), h + effect(code[0]), k + effect(code[0]));
    }
}

proof fn lemma_one(x: InstrView)
    ensures
        net_effect(seq![x]) == effect(x),
        safe_from(seq![x], needs(x)),
{
    let one = seq![x];
    assert(one.drop_first() =~= Seq::<InstrView>::empty());
    assert(one[0] == x);
    assert(net_effect(one.drop_first()) == 0);
    assert(safe_from(one.drop_first(), needs(x) + effect(x)));
}

proof fn lemma_push(a: Seq<InstrView>, x: InstrView, h: int)
    requires
        safe_from(a, h),
        h + net_effect(a) >= needs(x),
    ensures
        safe_from(a.push(x), h),
        net_effect(a.push(x)) == net_effect(a) + effect(x),
{
    lemma_one(x);
    lemma_safe_higher(seq![x], needs(x), h + net_effect(a));
    lemma_concat(a, seq![x], h);
    assert(a + seq![x] =~= a.push(x));
}

/// The code for an expression needs nothing already on the stack, never
/// takes a value that is not there, and leaves exactly one value: the
/// expression's.
pub proof fn law_expression_code_pushes_one(e: ExprView)
    ensures
        lower_expr(e) matches Ok(code) ==> net_effect(code) == 1 && safe_from(code, 0),
    decreases e,
{
    match e {
        ExprView::Literal { value, .. } => {
            lemma_one(push_literal(value));
        },
        ExprView::Grouping { expression, .. } => {
            law_expression_code_pushes_one(*expression);
        },
        ExprView::Unary { operator, right, .. } => {
            law_expression_code_pushes_one(*right);
            if let Ok(code) = lower_expr(*right) {
                let check = InstrView::CheckType {
                    tag: TAG_NUMBER,
                    line: operator.line,
                    message: "Operand must be a number."@,
                };
                lemma_push(code, InstrView::Not, 0);
                lemma_push(code, check, 0);
                lemma_push(code.push(check), InstrView::Negate, 0);
            }
        },
        ExprView::Binary { left, right, .. } => {
            law_expression_code_pushes_one(*left);
            law_expression_code_pushes_one(*right);
            if let Ok(l) = lower_expr(*left) {
                if let Ok(r) = lower_expr(*right) {
                    lemma_safe_higher(r, 0, 1);
                    lemma_concat(l, r, 0);
                    lemma_push(l + r, InstrView::Add, 0);
                    lemma_push(l + r, InstrView::Subtract, 0);
                    lemma_push(l + r, InstrView::Multiply, 0);
                    lemma_push(l + r, InstrView::Divide, 0);
                }
            }
        },
        _ => {},
    }
}

/// The code for a statement, and for a whole program, leaves the stack as
/// it found it and never takes a value that is not there.
pub proof fn law_statement_code_balanced(ss: Seq<StmtView>, i: int)
    ensures
        lower_stmts_from(ss, i) matches Ok(code) ==> net_effect(code) == 0 && safe_from(code, 0),
    decreases ss.len() - i,
{
    if 0 <= i < ss.len() {
        law_statement_code_balanced(ss, i + 1);
        if let StmtView::Print { expression } = ss[i] {
            law_expression_code_pushes_one(expression);
            if let Ok(c) = lower_expr(expression) {
                lemma_push(c, InstrView::Print, 0);
                if let Ok(rest) = lower_stmts_from(ss, i + 1) {
                    lemma_concat(c.push(InstrView::Print), rest, 0);
                }
            }
        }
    } else {
        assert(net_effect(Seq::<InstrView>::empty()) == 0);
    }
}

/// The expressions that the compiler handles: literals, groupings, `!` and
/// unary `-`, and the four arithmetic operators, built of such expressions.
pub open spec fn compilable(e: ExprView) -> bool
    decreases e,
{
    match e {
        ExprView::Literal { .. } => true,
        ExprView::Grouping { expression, .. } => compilable(*expression),
        ExprView::Unary { operator, right, .. } => (operator.token_type == TokenType::Bang || operator.token_type
            == TokenType::Minus) && compilable(*right),
        ExprView::Binary { left, operator, right, .. } => (operator.token_type == TokenType::Plus
            || operator.token_type == TokenType::Minus || operator.token_type == TokenType::Star
            || operator.token_type == TokenType::Slash) && compilable(*left) && compilable(*right),
        _ => false,
    }
}

/// The number of `Print` instructions in a run of code.
pub open spec fn prints(code: Seq<InstrView>) -> int
    decreases code.len(),
{
    if code.len() == 0 {
        0
    } else {
        (if code[0] is Print {
            1int
        } else {
            0int
        }) + prints(code.drop_first())
    }
}

proof fn lemma_prints_concat(a: Seq<InstrView>, b: Seq<InstrView>)
    ensures
        prints(a + b) == prints(a) + prints(b),
    decreases a.len(),
{
    if a.len() == 0 {
        assert(a + b =~= b);
    } else {
        assert((a + b).drop_first() =~= a.drop_first() + b);
        assert((a + b)[0] == a[0]);
        lemma_prints_concat(a.drop_first(), b);
    }
}

proof fn lemma_prints_push(a: Seq<InstrView>, x: InstrView)
    ensures
        prints(a.push(x)) == prints(a) + if x is Print {
            1int
        } else {
            0int
        },
{
    let one = seq![x];
    assert(one.drop_first() =~= Seq::<InstrView>::empty());
    assert(one[0] == x);
    assert(prints(one.drop_first()) == 0);
    lemma_prints_concat(a, one);
    assert(a + one =~= a.push(x));
}

/// An expression compiles exactly when it is built of the constructs that
/// the compiler handles; its code prints nothing.
pub proof fn law_expression_compiles_iff_supported(e: ExprView)
    ensures
        lower_expr(e) is Ok <==> compilable(e),
        lower_expr(e) matches Ok(code) ==> prints(code) == 0,
    decreases e,
{
    match e {
        ExprView::Literal { value, .. } => {
            lemma_prints_push(Seq::empty(), push_literal(value));
            assert(Seq::<InstrView>::empty().push(push_literal(value)) =~= seq![push_literal(value)]);
        },
        ExprView::Grouping { expression, .. } => {
            law_expression_compiles_iff_supported(*expression);
        },
        ExprView::Unary { operator, right, .. } => {
            law_expression_compiles_iff_supported(*right);
            if let Ok(code) = lower_expr(*right) {
                let check = InstrView::CheckType {
                    tag: TAG_NUMBER,
                    line: operator.line,
                    message: "Operand must be a number."@,
                };
                lemma_prints_push(code, InstrView::Not);
                lemma_prints_push(code, check);
                lemma_prints_push(code.push(check), InstrView::Negate);
            }
        },
        ExprView::Binary { left, right, .. } => {
            law_expression_compiles_iff_supported(*left);
            law_expression_compiles_iff_supported(*right);
            if let Ok(l) = lower_expr(*left) {
                if let Ok(r) = lower_expr(*right) {
                    lemma_prints_concat(l, r);
                    lemma_prints_push(l + r, InstrView::Add);
                    lemma_prints_push(l + r, InstrView::Subtract);
                    lemma_prints_push(l + r, InstrView::Multiply);
                    lemma_prints_push(l + r, InstrView::Divide);
                }
            }
        },
        _ => {},
    }
}

/// Whether the statement is a `print` of an expression that the compiler
/// handles.
pub open spec fn compilable_stmt(s: StmtView) -> bool {
    s matches StmtView::Print { expression } && compilable(expression)
}

/// A program compiles exactly when each of its statements, from index `i`
/// on, prints an expression that the compiler handles; its code then prints
/// once per statement. Otherwise the lowering fails with the error of the
/// first statement that does not compile ("unsupported statement" for one
/// that is not a `print`).
pub proof fn law_program_compiles_iff_supported(ss: Seq<StmtView>, i: int)
    requires
        0 <= i <= ss.len(),
    ensures
        lower_stmts_from(ss, i) is Ok <==> forall|k: int| i <= k < ss.len() ==> #[trigger] compilable_stmt(ss[k]),
        lower_stmts_from(ss, i) matches Ok(code) ==> prints(code) == ss.len() - i,
        forall|j: int|
            i <= j < ss.len() && !compilable_stmt(#[trigger] ss[j]) && (forall|k: int| i <= k < j ==> compilable_stmt(
                ss[k],
            )) ==> lower_stmts_from(ss, i) == lower_stmt(ss[j]),
        forall|s: StmtView| !(s is Print) ==> #[trigger] lower_stmt(s) == Err::<Seq<InstrView>, Seq<char>>(
            "unsupported statement"@,
        ),
    decreases ss.len() - i,
{
    if i < ss.len() {
        law_program_compiles_iff_supported(ss, i + 1);
        let s = ss[i];
        if let StmtView::Print { expression } = s {
            law_expression_compiles_iff_supported(expression);
            if let Ok(c) = lower_expr(expression) {
                lemma_prints_push(c, InstrView::Print);
                if let Ok(rest) = lower_stmts_from(ss, i + 1) {
                    lemma_prints_concat(c.push(InstrView::Print), rest);
                }
            }
        }
        assert(lower_stmt(s) is Ok <==> compilable_stmt(s));
        if forall|k: int| i <= k < ss.len() ==> #[trigger] compilable_stmt(ss[k]) {
            assert(compilable_stmt(ss[i]));
            assert forall|k: int| i + 1 <= k < ss.len() implies #[trigger] compilable_stmt(ss[k]) by {
                assert(compilable_stmt(ss[k]));
            }
        }
        if forall|k: int| i + 1 <= k < ss.len() ==> #[trigger] compilable_stmt(ss[k]) {
            if compilable_stmt(s) {
                assert forall|k: int| i <= k < ss.len() implies #[trigger] compilable_stmt(ss[k]) by {
                    if k > i {
                        assert(compilable_stmt(ss[k]));
                    }
                }
            }
        }
        assert forall|j: int|
            i <= j < ss.len() && !compilable_stmt(#[trigger] ss[j]) && (forall|k: int| i <= k < j ==> compilable_stmt(
                ss[k],
            )) implies lower_stmts_from(ss, i) == lower_stmt(ss[j]) by {
            if j > i {
                assert(compilable_stmt(ss[i]));
                assert forall|k: int| i + 1 <= k < j implies compilable_stmt(ss[k]) by {
                    assert(compilable_stmt(ss[k]));
                }
            }
        }
    } else {
        assert(prints(Seq::<InstrView>::empty()) == 0);
    }
}

// ---------------------------------------------------------------------------
// What the emitted code does to a stack of Lox values.
// ---------------------------------------------------------------------------

/// Where running compiled code ends: the stack (its top at the end) and the
/// values printed so far, or a runtime error with its line and message.
pub enum Outcome {
    Done { stack: Seq<LoxValue>, printed: Seq<LoxValue> },
    Fault { line: nat, message: Seq<char> },
}

/// The payloads that the machine computes in floating point or takes from
/// memory, which the library leaves open: the bits of a number literal or
/// the address of a string (`literal`), the bits of a negation (`negate`),
/// and the bits of an arithmetic result from its operands' bits (`arith`).
/// What is stated below holds whatever they are.
pub struct Payloads {
    pub literal: spec_fn(InstrView) -> u64,
    pub negate: spec_fn(u64) -> u64,
    pub arith: spec_fn(InstrView, u64, u64) -> u64,
}

/// What one instruction does; `None` where the stack lacks the values it
/// needs. Literals push their value (a number or string with its tag), a
/// type check stops with its error unless the top has the tag, `Not`
/// replaces the top by the boolean that it is not truthy, `Negate` and the
/// arithmetic replace their operands by a number, and `Print` pops the top
/// and prints it.
pub open spec fn step(i: InstrView, stack: Seq<LoxValue>, printed: Seq<LoxValue>, p: Payloads) -> Option<Outcome> {
    let n = stack.len();
    match i {
        InstrView::Number(_) => Some(
            Outcome::Done { stack: stack.push(LoxValue { tag: TAG_NUMBER, bits: (p.literal)(i) }), printed },
        ),
        InstrView::Bool(b) => Some(Outcome::Done { stack: stack.push(bool_lox(b)), printed }),
        InstrView::Nil => Some(Outcome::Done { stack: stack.push(nil_lox()), printed }),
        InstrView::Str(_) => Some(
            Outcome::Done { stack: stack.push(LoxValue { tag: TAG_STRING, bits: (p.literal)(i) }), printed },
        ),
        InstrView::CheckType { tag, line, message } => if n < 1 {
            None
        } else if stack.last().tag == tag {
            Some(Outcome::Done { stack, printed })
        } else {
            Some(Outcome::Fault { line, message })
        },
        InstrView::Not => if n < 1 {
            None
        } else {
            Some(Outcome::Done { stack: stack.drop_last().push(bool_lox(!truthy(stack.last()))), printed })
        },
        InstrView::Negate => if n < 1 {
            None
        } else {
            Some(
                Outcome::Done {
                    stack: stack.drop_last().push(LoxValue { tag: TAG_NUMBER, bits: (p.negate)(stack.last().bits) }),
                    printed,
                },
            )
        },
        InstrView::Add | InstrView::Subtract | InstrView::Multiply | InstrView::Divide => if n < 2 {
            None
        } else {
            Some(
                Outcome::Done {
                    stack: stack.subrange(0, n - 2).push(
                        LoxValue { tag: TAG_NUMBER, bits: (p.arith)(i, stack[n - 2].bits, stack[n - 1].bits) },
                    ),
                    printed,
                },
            )
        },
        InstrView::Print => if n < 1 {
            None
        } else {
            Some(Outcome::Done { stack: stack.drop_last(), printed: printed.push(stack.last()) })
        },
    }
}

/// Running code from the given stack and printed values: each instruction in
/// turn, up to the first runtime error.
pub open spec fn run(code: Seq<InstrView>, stack: Seq<LoxValue>, printed: Seq<LoxValue>, p: Payloads) -> Option<Outcome>
    decreases code.len(),
{
    if code.len() == 0 {
        Some(Outcome::Done { stack, printed })
    } else {
        match step(code[0], stack, printed, p) {
            Some(Outcome::Done { stack: s2, printed: p2 }) => run(code.drop_first(), s2, p2, p),
            other => other,
        }
    }
}

/// The instruction of an arithmetic operator.
pub open spec fn arith_instr(tt: TokenType) -> InstrView {
    if tt == TokenType::Plus {
        InstrView::Add
    } else if tt == TokenType::Minus {
        InstrView::Subtract
    } else if tt == TokenType::Star {
        InstrView::Multiply
    } else {
        InstrView::Divide
    }
}

/// The value of an expression that the compiler handles, or the runtime
/// error (line and message) that evaluating it raises: `!` gives the boolean
/// that its operand is not truthy, unary `-` needs a number, and the operands
/// of an operator are evaluated left first.
pub open spec fn eval(e: ExprView, p: Payloads) -> Result<LoxValue, (nat, Seq<char>)>
    decreases e,
{
    match e {
        ExprView::Literal { value, .. } => Ok(
            match value {
                LiteralView::Number(_) => LoxValue { tag: TAG_NUMBER, bits: (p.literal)(push_literal(value)) },
                LiteralView::Bool(b) => bool_lox(b),
                LiteralView::Nil => nil_lox(),
                LiteralView::String(_) => LoxValue { tag: TAG_STRING, bits: (p.literal)(push_literal(value)) },
            },
        ),
        ExprView::Grouping { expression, .. } => eval(*expression, p),
        ExprView::Unary { operator, right, .. } => match eval(*right, p) {
            Ok(v) => if operator.token_type == TokenType::Bang {
                Ok(bool_lox(!truthy(v)))
            } else if v.tag == TAG_NUMBER {
                Ok(LoxValue { tag: TAG_NUMBER, bits: (p.negate)(v.bits) })
            } else {
                Err((operator.line, "Operand must be a number."@))
            },
            Err(f) => Err(f),
        },
        ExprView::Binary { left, operator, right, .. } => match eval(*left, p) {
            Ok(l) => match eval(*right, p) {
                Ok(r) => Ok(LoxValue { tag: TAG_NUMBER, bits: (p.arith)(arith_instr(operator.token_type), l.bits, r.bits) }),
                Err(f) => Err(f),
            },
            Err(f) => Err(f),
        },
        _ => Err((0, Seq::empty())),
    }
}

/// The outcome of evaluating an expression on top of a stack.
pub open spec fn pushed(r: Result<LoxValue, (nat, Seq<char>)>, stack: Seq<LoxValue>, printed: Seq<LoxValue>) -> Outcome {
    match r {
        Ok(v) => Outcome::Done { stack: stack.push(v), printed },
        Err((line, message)) => Outcome::Fault { line, message },
    }
}

proof fn lemma_run_concat(a: Seq<InstrView>, b: Seq<InstrView>, stack: Seq<LoxValue>, printed: Seq<LoxValue>, p: Payloads)
    ensures
        run(a + b, stack, printed, p) == match run(a, stack, printed, p) {
            Some(Outcome::Done { stack: s2, printed: p2 }) => run(b, s2, p2, p),
            other => other,
        },
    decreases a.len(),
{
    if a.len() == 0 {
        assert(a + b =~= b);
    } else {
        assert((a + b).drop_first() =~= a.drop_first() + b);
        assert((a + b)[0] == a[0]);
        if let Some(Outcome::Done { stack: s2, printed: p2 }) = step(a[0], stack, printed, p) {
            lemma_run_concat(a.drop_first(), b, s2, p2, p);
        }
    }
}

proof fn lemma_run_push(a: Seq<InstrView>, x: InstrView, stack: Seq<LoxValue>, printed: Seq<LoxValue>, p: Payloads)
    ensures
        run(a.push(x), stack, printed, p) == match run(a, stack, printed, p) {
            Some(Outcome::Done { stack: s2, printed: p2 }) => step(x, s2, p2, p),
            other => other,
        },
{
    let one = seq![x];
    assert(a + one =~= a.push(x));
    lemma_run_concat(a, one, stack, printed, p);
    assert(one.drop_first() =~= Seq::<InstrView>::empty());
    assert(one[0] == x);
    if let Some(Outcome::Done { stack: s2, printed: p2 }) = run(a, stack, printed, p) {
        if let Some(Outcome::Done { stack: s3, printed: p3 }) = step(x, s2, p2, p) {
            assert(run(one.drop_first(), s3, p3, p) == Some(Outcome::Done { stack: s3, printed: p3 }));
        }
    }
}

/// The code of an expression that the compiler handles, run on any stack,
/// ends with the expression's value pushed on that stack and nothing printed,
/// or with the runtime error that evaluating the expression raises.
pub proof fn law_expression_code_evaluates(e: ExprView, stack: Seq<LoxValue>, printed: Seq<LoxValue>, p: Payloads)
    requires
        compilable(e),
    ensures
        lower_expr(e) is Ok,
        run(lower_expr(e)->Ok_0, stack, printed, p) == Some(pushed(eval(e, p), stack, printed)),
    decreases e,
{
    law_expression_compiles_iff_supported(e);
    match e {
        ExprView::Literal { value, .. } => {
            lemma_run_push(Seq::empty(), push_literal(value), stack, printed, p);
            assert(Seq::<InstrView>::empty().push(push_literal(value)) =~= seq![push_literal(value)]);
        },
        ExprView::Grouping { expression, .. } => {
            law_expression_code_evaluates(*expression, stack, printed, p);
        },
        ExprView::Unary { operator, right, .. } => {
            law_expression_code_evaluates(*right, stack, printed, p);
            let code = lower_expr(*right)->Ok_0;
            let check = InstrView::CheckType { tag: TAG_NUMBER, line: operator.line, message: "Operand must be a number."@ };
            lemma_run_push(code, InstrView::Not, stack, printed, p);
            lemma_run_push(code, check, stack, printed, p);
            lemma_run_push(code.push(check), InstrView::Negate, stack, printed, p);
            if let Ok(v) = eval(*right, p) {
                assert(stack.push(v).drop_last() =~= stack);
            }
        },
        ExprView::Binary { left, operator, right, .. } => {
            law_expression_code_evaluates(*left, stack, printed, p);
            let l = lower_expr(*left)->Ok_0;
            let r = lower_expr(*right)->Ok_0;
            lemma_run_concat(l, r, stack, printed, p);
            lemma_run_push(l + r, arith_instr(operator.token_type), stack, printed, p);
            if let Ok(lv) = eval(*left, p) {
                law_expression_code_evaluates(*right, stack.push(lv), printed, p);
                if let Ok(rv) = eval(*right, p) {
                    let st = stack.push(lv).push(rv);
                    assert(st.subrange(0, st.len() - 2) =~= stack);
                    assert(st[st.len() - 2] == lv);
                }
            }
        },
        _ => {},
    }
}

/// The values that the statements from index `i` on print, in order, or
/// the runtime error of the first one that raises one.
pub open spec fn print_all(ss: Seq<StmtView>, i: int, p: Payloads) -> Result<Seq<LoxValue>, (nat, Seq<char>)>
    decreases ss.len() - i,
{
    if 0 <= i < ss.len() {
        match ss[i] {
            StmtView::Print { expression } => match eval(expression, p) {
                Ok(v) => match print_all(ss, i + 1, p) {
                    Ok(rest) => Ok(seq![v] + rest),
                    Err(f) => Err(f),
                },
                Err(f) => Err(f),
            },
            _ => Err((0, Seq::empty())),
        }
    } else {
        Ok(Seq::empty())
    }
}

/// The code of a program that compiles, run on any stack, leaves the stack
/// as it was and prints the value of each statement's expression in turn,
/// or stops at the first runtime error.
pub proof fn law_program_code_prints(ss: Seq<StmtView>, i: int, stack: Seq<LoxValue>, printed: Seq<LoxValue>, p: Payloads)
    requires
        0 <= i <= ss.len(),
        lower_stmts_from(ss, i) is Ok,
    ensures
        run(lower_stmts_from(ss, i)->Ok_0, stack, printed, p) == Some(
            match print_all(ss, i, p) {
                Ok(vs) => Outcome::Done { stack, printed: printed + vs },
                Err((line, message)) => Outcome::Fault { line, message },
            },
        ),
    decreases ss.len() - i,
{
    if i < ss.len() {
        law_program_compiles_iff_supported(ss, i);
        assert(compilable_stmt(ss[i]));
        let expression = ss[i]->Print_expression;
        law_expression_code_evaluates(expression, stack, printed, p);
        let c = lower_expr(expression)->Ok_0;
        lemma_run_push(c, InstrView::Print, stack, printed, p);
        let rest = lower_stmts_from(ss, i + 1)->Ok_0;
        lemma_run_concat(c.push(InstrView::Print), rest, stack, printed, p);
        if let Ok(v) = eval(expression, p) {
            assert(stack.push(v).drop_last() =~= stack);
            law_program_code_prints(ss, i + 1, stack, printed.push(v), p);
            if let Ok(vs) = print_all(ss, i + 1, p) {
                assert(printed.push(v) + vs =~= printed + (seq![v] + vs));
            }
        }
    } else {
        assert(printed + Seq::<LoxValue>::empty() =~= printed);
    }
}

} // verus!
