use vstd::prelude::*;

use crate::ast::{ExprView, StmtView};
use crate::token::{LiteralView, TokenType, TokenView};

verus! {

// ---------------------------------------------------------------------------
// The grammar of Lox, as spec functions over a token sequence.
//
// Each function takes the position of the next token and the next free
// expression id, and gives back its result together with the position and the
// next free id after it; on an error these are where parsing stopped.
// Recursive calls are measured by the remaining tokens and a rank. Where a
// call follows a sub-parse, its measure needs the position not to have moved
// back: the definitions test that, and the parser proves the test always
// holds (its positions only move forward).
// ---------------------------------------------------------------------------

/// An error found while parsing: the offending token and a message.
pub struct ParseErrorView {
    pub token: TokenView,
    pub message: Seq<char>,
}

/// Where parsing stands: the next token, and the next free expression id.
pub struct PState {
    pub pos: int,
    pub id: nat,
}

pub open spec fn at(pos: int, id: nat) -> PState {
    PState { pos, id }
}

pub open spec fn perr(token: TokenView, message: Seq<char>) -> ParseErrorView {
    ParseErrorView { token, message }
}

pub open spec fn is_at_end(t: Seq<TokenView>, p: int) -> bool {
    t[p].token_type == TokenType::Eof
}

pub open spec fn check(t: Seq<TokenView>, p: int, tt: TokenType) -> bool {
    !is_at_end(t, p) && t[p].token_type == tt
}

/// Whether the next token is of one of the given kinds (it is then consumed).
pub open spec fn matches_any(t: Seq<TokenView>, p: int, types: Seq<TokenType>) -> bool {
    !is_at_end(t, p) && types.contains(t[p].token_type)
}

pub open spec fn advance(t: Seq<TokenView>, p: int) -> int {
    if !is_at_end(t, p) {
        p + 1
    } else {
        p
    }
}

/// Consuming a token of the given kind, or failing with the message.
pub open spec fn consume(t: Seq<TokenView>, st: PState, tt: TokenType, msg: Seq<char>) -> (
    Result<TokenView, ParseErrorView>,
    PState,
) {
    if check(t, st.pos, tt) {
        (Ok(t[st.pos]), at(st.pos + 1, st.id))
    } else {
        (Err(perr(t[st.pos], msg)), st)
    }
}

// -- Expressions -----------------------------------------------------------

/// The levels of left-associative binary operators, loosest first.
#[derive(Clone, Copy, PartialEq, Eq, Structural)]
pub enum Level {
    Comma,
    Or,
    And,
    Equality,
    Comparison,
    Term,
    Factor,
}

pub open spec fn level_ops(l: Level) -> Seq<TokenType> {
    match l {
        Level::Comma => seq![TokenType::Comma],
        Level::Or => seq![TokenType::Or],
        Level::And => seq![TokenType::And],
        Level::Equality => seq![TokenType::BangEqual, TokenType::EqualEqual],
        Level::Comparison => seq![
            TokenType::Greater,
            TokenType::GreaterEqual,
            TokenType::Less,
            TokenType::LessEqual,
        ],
        Level::Term => seq![TokenType::Minus, TokenType::Plus],
        Level::Factor => seq![TokenType::Slash, TokenType::Star],
    }
}

pub open spec fn level_rank(l: Level) -> int {
    match l {
        Level::Comma => 99,
        Level::Or => 95,
        Level::And => 92,
        Level::Equality => 88,
        Level::Comparison => 85,
        Level::Term => 82,
        Level::Factor => 79,
    }
}

/// The node that joins two operands at a level: logical for `and`/`or`,
/// binary otherwise.
pub open spec fn join(l: Level, left: ExprView, op: TokenView, right: ExprView, id: nat) -> ExprView {
    match l {
        Level::Or => ExprView::Logical { left: Box::new(left), operator: op, right: Box::new(right), id },
        Level::And => ExprView::Logical { left: Box::new(left), operator: op, right: Box::new(right), id },
        _ => ExprView::Binary { left: Box::new(left), operator: op, right: Box::new(right), id },
    }
}

/// `expression → comma`
pub open spec fn expression(t: Seq<TokenView>, st: PState) -> (Result<ExprView, ParseErrorView>, PState)
    decreases t.len() - st.pos, 100int,
{
    binary(Level::Comma, t, st)
}

/// The operand of a level.
pub open spec fn operand(l: Level, t: Seq<TokenView>, st: PState) -> (Result<ExprView, ParseErrorView>, PState)
    decreases t.len() - st.pos, level_rank(l) - 2,
{
    match l {
        Level::Comma => assignment(t, st),
        Level::Or => binary(Level::And, t, st),
        Level::And => ternary(t, st),
        Level::Equality => binary(Level::Comparison, t, st),
        Level::Comparison => binary(Level::Term, t, st),
        Level::Term => binary(Level::Factor, t, st),
        Level::Factor => unary(t, st),
    }
}

/// `level → operand ( op operand )*`
pub open spec fn binary(l: Level, t: Seq<TokenView>, st: PState) -> (Result<ExprView, ParseErrorView>, PState)
    decreases t.len() - st.pos, level_rank(l),
{
    let (r, st1) = operand(l, t, st);
    match r {
        Err(e) => (Err(e), st1),
        Ok(left) => if st.pos <= st1.pos <= t.len() {
            binary_rest(l, t, left, st1)
        } else {
            (Ok(left), st1)
        },
    }
}

pub open spec fn binary_rest(l: Level, t: Seq<TokenView>, left: ExprView, st: PState) -> (
    Result<ExprView, ParseErrorView>,
    PState,
)
    decreases t.len() - st.pos, level_rank(l) - 1,
{
    if 0 <= st.pos < t.len() && matches_any(t, st.pos, level_ops(l)) {
        let op = t[st.pos];
        let (r, st2) = operand(l, t, at(st.pos + 1, st.id));
        match r {
            Err(e) => (Err(e), st2),
            Ok(right) => {
                let node = join(l, left, op, right, st2.id);
                let st3 = at(st2.pos, st2.id + 1);
                if st.pos < st3.pos <= t.len() {
                    binary_rest(l, t, node, st3)
                } else {
                    (Ok(node), st3)
                }
            },
        }
    } else {
        (Ok(left), st)
    }
}

/// `assignment → ( call "." )? IDENTIFIER "=" assignment | or`
pub open spec fn assignment(t: Seq<TokenView>, st: PState) -> (Result<ExprView, ParseErrorView>, PState)
    decreases t.len() - st.pos, 96int,
{
    let (r, st1) = binary(Level::Or, t, st);
    match r {
        Err(e) => (Err(e), st1),
        Ok(expr) => if st1.pos >= st.pos && 0 <= st1.pos < t.len() && matches_any(t, st1.pos, seq![TokenType::Equal]) {
            let equals = t[st1.pos];
            let (v, st2) = assignment(t, at(st1.pos + 1, st1.id));
            match v {
                Err(e) => (Err(e), st2),
                Ok(value) => match expr {
                    ExprView::Variable { name, .. } => (
                        Ok(ExprView::Assign { name, value: Box::new(value), id: st2.id }),
                        at(st2.pos, st2.id + 1),
                    ),
                    ExprView::Get { object, name, .. } => (
                        Ok(ExprView::SetProperty { object, name, value: Box::new(value), id: st2.id }),
                        at(st2.pos, st2.id + 1),
                    ),
                    _ => (Err(perr(equals, "Invalid assignment target."@)), st2),
                },
            }
        } else {
            (Ok(expr), st1)
        },
    }
}

/// `ternary → equality ( "?" expression ":" ternary )?`
pub open spec fn ternary(t: Seq<TokenView>, st: PState) -> (Result<ExprView, ParseErrorView>, PState)
    decreases t.len() - st.pos, 89int,
{
    let (r, st1) = binary(Level::Equality, t, st);
    match r {
        Err(e) => (Err(e), st1),
        Ok(cond) => if st1.pos >= st.pos && 0 <= st1.pos < t.len() && matches_any(t, st1.pos, seq![TokenType::Question]) {
            let (r2, st2) = expression(t, at(st1.pos + 1, st1.id));
            match r2 {
                Err(e) => (Err(e), st2),
                Ok(then_branch) => {
                    if 0 <= st2.pos < t.len() {
                        let (c, st3) = consume(
                            t,
                            st2,
                            TokenType::Colon,
                            "Expect ':' after then branch of ternary expression."@,
                        );
                        match c {
                            Err(e) => (Err(e), st3),
                            Ok(_) => if st3.pos > st.pos {
                                let (r4, st4) = ternary(t, st3);
                                match r4 {
                                    Err(e) => (Err(e), st4),
                                    Ok(else_branch) => (
                                        Ok(
                                            ExprView::Ternary {
                                                condition: Box::new(cond),
                                                then_branch: Box::new(then_branch),
                                                else_branch: Box::new(else_branch),
                                                id: st4.id,
                                            },
                                        ),
                                        at(st4.pos, st4.id + 1),
                                    ),
                                }
                            } else {
                                (Ok(cond), st3)
                            },
                        }
                    } else {
                        (Ok(cond), st2)
                    }
                },
            }
        } else {
            (Ok(cond), st1)
        },
    }
}

/// `unary → ( "!" | "-" ) unary | call`
pub open spec fn unary(t: Seq<TokenView>, st: PState) -> (Result<ExprView, ParseErrorView>, PState)
    decreases t.len() - st.pos, 76int,
{
    if 0 <= st.pos < t.len() && matches_any(t, st.pos, seq![TokenType::Bang, TokenType::Minus]) {
        let op = t[st.pos];
        let (r, st1) = unary(t, at(st.pos + 1, st.id));
        match r {
            Err(e) => (Err(e), st1),
            Ok(right) => (Ok(ExprView::Unary { operator: op, right: Box::new(right), id: st1.id }), at(st1.pos, st1.id + 1)),
        }
    } else {
        call(t, st)
    }
}

/// `call → primary ( "(" arguments? ")" | "." IDENTIFIER )*`
pub open spec fn call(t: Seq<TokenView>, st: PState) -> (Result<ExprView, ParseErrorView>, PState)
    decreases t.len() - st.pos, 75int,
{
    let (r, st1) = primary(t, st);
    match r {
        Err(e) => (Err(e), st1),
        Ok(e) => if st.pos <= st1.pos <= t.len() {
            call_rest(t, e, st1)
        } else {
            (Ok(e), st1)
        },
    }
}

pub open spec fn call_rest(t: Seq<TokenView>, callee: ExprView, st: PState) -> (Result<ExprView, ParseErrorView>, PState)
    decreases t.len() - st.pos, 74int,
{
    if !(0 <= st.pos < t.len()) {
        (Ok(callee), st)
    } else if matches_any(t, st.pos, seq![TokenType::LeftParen]) {
        let (r, st1) = finish_call(t, callee, at(st.pos + 1, st.id));
        match r {
            Err(e) => (Err(e), st1),
            Ok(e) => if st.pos < st1.pos <= t.len() {
                call_rest(t, e, st1)
            } else {
                (Ok(e), st1)
            },
        }
    } else if matches_any(t, st.pos, seq![TokenType::Dot]) {
        let st0 = at(st.pos + 1, st.id);
        if st0.pos < t.len() {
            let (c, st1) = consume(t, st0, TokenType::Identifier, "Expect property name after '.'."@);
            match c {
                Err(e) => (Err(e), st1),
                Ok(name) => call_rest(
                    t,
                    ExprView::Get { object: Box::new(callee), name, id: st1.id },
                    at(st1.pos, st1.id + 1),
                ),
            }
        } else {
            (Ok(callee), st0)
        }
    } else {
        (Ok(callee), st)
    }
}

/// The arguments and closing parenthesis of a call.
pub open spec fn finish_call(t: Seq<TokenView>, callee: ExprView, st: PState) -> (
    Result<ExprView, ParseErrorView>,
    PState,
)
    decreases t.len() - st.pos, 99int,
{
    if !(0 <= st.pos < t.len()) {
        (Ok(callee), st)
    } else {
        let (r, st1) = if !check(t, st.pos, TokenType::RightParen) {
            arguments(t, Seq::empty(), st)
        } else {
            (Ok(Seq::empty()), st)
        };
        match r {
            Err(e) => (Err(e), st1),
            Ok(args) => if 0 <= st1.pos < t.len() {
                let (c, st2) = consume(t, st1, TokenType::RightParen, "Expect ')' after arguments."@);
                match c {
                    Err(e) => (Err(e), st2),
                    Ok(paren) => (
                        Ok(ExprView::Call { callee: Box::new(callee), paren, arguments: args, id: st2.id }),
                        at(st2.pos, st2.id + 1),
                    ),
                }
            } else {
                (Ok(callee), st1)
            },
        }
    }
}

/// A comma-separated list of arguments, after the ones in `args`.
pub open spec fn arguments(t: Seq<TokenView>, args: Seq<ExprView>, st: PState) -> (
    Result<Seq<ExprView>, ParseErrorView>,
    PState,
)
    decreases t.len() - st.pos, 97int,
{
    if !(0 <= st.pos < t.len()) {
        (Ok(args), st)
    } else if args.len() >= 255 {
        (Err(perr(t[st.pos], "Cannot have more than 255 arguments."@)), st)
    } else {
        let (r, st1) = assignment(t, st);
        match r {
            Err(e) => (Err(e), st1),
            Ok(a) => if st1.pos >= st.pos && 0 <= st1.pos < t.len() && matches_any(t, st1.pos, seq![TokenType::Comma]) {
                arguments(t, args.push(a), at(st1.pos + 1, st1.id))
            } else {
                (Ok(args.push(a)), st1)
            },
        }
    }
}

pub open spec fn literal_expr(v: LiteralView, st: PState) -> (Result<ExprView, ParseErrorView>, PState) {
    (Ok(ExprView::Literal { value: v, id: st.id }), at(st.pos, st.id + 1))
}

/// `primary → "true" | "false" | "nil" | NUMBER | STRING | "this" | IDENTIFIER
///           | "(" expression ")" | "super" "." IDENTIFIER`
pub open spec fn primary(t: Seq<TokenView>, st: PState) -> (Result<ExprView, ParseErrorView>, PState)
    decreases t.len() - st.pos, 70int,
{
    if !(0 <= st.pos < t.len()) {
        (Err(perr(t[st.pos], "Expected expression."@)), st)
    } else {
        let p = st.pos;
        let next = at(p + 1, st.id);
        if matches_any(t, p, seq![TokenType::False]) {
            literal_expr(LiteralView::Bool(false), next)
        } else if matches_any(t, p, seq![TokenType::True]) {
            literal_expr(LiteralView::Bool(true), next)
        } else if matches_any(t, p, seq![TokenType::Nil]) {
            literal_expr(LiteralView::Nil, next)
        } else if matches_any(t, p, seq![TokenType::Number, TokenType::String]) {
            match t[p].literal {
                Some(v) => literal_expr(v, next),
                None => (Err(perr(t[p], "Expected a literal value."@)), next),
            }
        } else if matches_any(t, p, seq![TokenType::This]) {
            (Ok(ExprView::This { keyword: t[p], id: st.id }), at(p + 1, st.id + 1))
        } else if matches_any(t, p, seq![TokenType::Identifier]) {
            (Ok(ExprView::Variable { name: t[p], id: st.id }), at(p + 1, st.id + 1))
        } else if matches_any(t, p, seq![TokenType::LeftParen]) {
            let (r, st1) = expression(t, next);
            match r {
                Err(e) => (Err(e), st1),
                Ok(e) => if 0 <= st1.pos < t.len() {
                    let (c, st2) = consume(t, st1, TokenType::RightParen, "Expect ')' after expression."@);
                    match c {
                        Err(err) => (Err(err), st2),
                        Ok(_) => (Ok(ExprView::Grouping { expression: Box::new(e), id: st2.id }), at(st2.pos, st2.id + 1)),
                    }
                } else {
                    (Ok(e), st1)
                },
            }
        } else if matches_any(t, p, seq![TokenType::Super]) {
            let keyword = t[p];
            if p + 1 < t.len() {
                let (c, st1) = consume(t, next, TokenType::Dot, "Expect '.' after 'super'."@);
                match c {
                    Err(e) => (Err(e), st1),
                    Ok(_) => if st1.pos < t.len() {
                        let (m, st2) = consume(t, st1, TokenType::Identifier, "Expect superclass method name."@);
                        match m {
                            Err(e) => (Err(e), st2),
                            Ok(method) => (Ok(ExprView::Super { keyword, method, id: st2.id }), at(st2.pos, st2.id + 1)),
                        }
                    } else {
                        (Err(perr(keyword, "Expect superclass method name."@)), st1)
                    },
                }
            } else {
                (Err(perr(keyword, "Expect '.' after 'super'."@)), next)
            }
        } else {
            (Err(perr(t[p], "Expected expression."@)), st)
        }
    }
}


// -- Statements ------------------------------------------------------------

/// What a function declaration declares: a function or a method (only the
/// messages differ).
#[derive(Clone, Copy, PartialEq, Eq, Structural)]
pub enum FunctionKind {
    Function,
    Method,
}

pub open spec fn kind_name_msg(k: FunctionKind) -> Seq<char> {
    match k {
        FunctionKind::Function => "Expect function name."@,
        FunctionKind::Method => "Expect method name."@,
    }
}

pub open spec fn kind_body_msg(k: FunctionKind) -> Seq<char> {
    match k {
        FunctionKind::Function => "Expect function body."@,
        FunctionKind::Method => "Expect method body."@,
    }
}

/// Whether `new` lies strictly after `old` and inside the tokens.
pub open spec fn moved(t: Seq<TokenView>, old: PState, new: PState) -> bool {
    old.pos < new.pos <= t.len()
}

/// `declaration → classDecl | funDecl | varDecl | statement`
pub open spec fn declaration(t: Seq<TokenView>, st: PState) -> (Result<StmtView, ParseErrorView>, PState)
    decreases t.len() - st.pos, 60int,
{
    let p = st.pos;
    if !(0 <= p < t.len()) {
        (Err(perr(t[p], "Expected expression."@)), st)
    } else if matches_any(t, p, seq![TokenType::Var]) {
        var_declaration(t, at(p + 1, st.id))
    } else if matches_any(t, p, seq![TokenType::Fun]) {
        function_declaration(t, FunctionKind::Function, at(p + 1, st.id))
    } else if matches_any(t, p, seq![TokenType::Class]) {
        class_declaration(t, at(p + 1, st.id))
    } else {
        statement(t, st)
    }
}

/// `varDecl → "var" IDENTIFIER ( "=" expression )? ";"` (after `var`). The
/// default `nil` initializer takes an id even when an initializer follows.
pub open spec fn var_declaration(t: Seq<TokenView>, st: PState) -> (Result<StmtView, ParseErrorView>, PState) {
    let (n, st1) = consume(t, st, TokenType::Identifier, "Expect variable name."@);
    match n {
        Err(e) => (Err(e), st1),
        Ok(name) => {
            let nil = ExprView::Literal { value: LiteralView::Nil, id: st1.id };
            let st2 = at(st1.pos, st1.id + 1);
            let (r, st3) = if matches_any(t, st2.pos, seq![TokenType::Equal]) {
                expression(t, at(st2.pos + 1, st2.id))
            } else {
                (Ok(nil), st2)
            };
            match r {
                Err(e) => (Err(e), st3),
                Ok(init) => {
                    let (c, st4) = consume(t, st3, TokenType::Semicolon, "Expect ';' after variable declaration."@);
                    match c {
                        Err(e) => (Err(e), st4),
                        Ok(_) => (Ok(StmtView::Var { name, initializer: init }), st4),
                    }
                },
            }
        },
    }
}

/// The parameter names of a function, after the ones in `params`.
pub open spec fn parameters(t: Seq<TokenView>, params: Seq<TokenView>, st: PState) -> (
    Result<Seq<TokenView>, ParseErrorView>,
    PState,
)
    decreases t.len() - st.pos,
{
    if params.len() >= 255 {
        (Err(perr(t[st.pos], "Cannot have more than 255 parameters."@)), st)
    } else {
        let (c, st1) = consume(t, st, TokenType::Identifier, "Expect parameter name."@);
        match c {
            Err(e) => (Err(e), st1),
            Ok(name) => if 0 <= st1.pos < t.len() && st.pos < st1.pos && matches_any(t, st1.pos, seq![TokenType::Comma]) {
                parameters(t, params.push(name), at(st1.pos + 1, st1.id))
            } else {
                (Ok(params.push(name)), st1)
            },
        }
    }
}

/// `function → IDENTIFIER "(" parameters? ")" block`
pub open spec fn function_declaration(t: Seq<TokenView>, kind: FunctionKind, st: PState) -> (
    Result<StmtView, ParseErrorView>,
    PState,
)
    decreases t.len() - st.pos, 44int,
{
    let (n, st1) = consume(t, st, TokenType::Identifier, kind_name_msg(kind));
    match n {
        Err(e) => (Err(e), st1),
        Ok(name) => {
            let (c, st2) = consume(t, st1, TokenType::LeftParen, "Expect '(' after function name."@);
            match c {
                Err(e) => (Err(e), st2),
                Ok(_) => {
                    let (ps, st3) = if !check(t, st2.pos, TokenType::RightParen) {
                        parameters(t, Seq::empty(), st2)
                    } else {
                        (Ok(Seq::empty()), st2)
                    };
                    match ps {
                        Err(e) => (Err(e), st3),
                        Ok(params) => {
                            let (c2, st4) = consume(t, st3, TokenType::RightParen, "Expect ')' after parameters."@);
                            match c2 {
                                Err(e) => (Err(e), st4),
                                Ok(_) => {
                                    let (c3, st5) = consume(t, st4, TokenType::LeftBrace, kind_body_msg(kind));
                                    match c3 {
                                        Err(e) => (Err(e), st5),
                                        Ok(_) => if moved(t, st, st5) {
                                            let (b, st6) = block(t, st5);
                                            match b {
                                                Err(e) => (Err(e), st6),
                                                Ok(body) => (Ok(StmtView::Function { name, params, body }), st6),
                                            }
                                        } else {
                                            (Err(perr(t[st5.pos], kind_body_msg(kind))), st5)
                                        },
                                    }
                                },
                            }
                        },
                    }
                },
            }
        },
    }
}

/// `classDecl → "class" IDENTIFIER ( "<" IDENTIFIER )? "{" function* "}"` (after `class`)
pub open spec fn class_declaration(t: Seq<TokenView>, st: PState) -> (Result<StmtView, ParseErrorView>, PState)
    decreases t.len() - st.pos, 46int,
{
    let (n, st1) = consume(t, st, TokenType::Identifier, "Expect class name."@);
    match n {
        Err(e) => (Err(e), st1),
        Ok(name) => {
            let (sc, st2) = if matches_any(t, st1.pos, seq![TokenType::Less]) {
                let (c, s) = consume(t, at(st1.pos + 1, st1.id), TokenType::Identifier, "Expect superclass name."@);
                match c {
                    Err(e) => (Err(e), s),
                    Ok(sname) => (Ok(Some(ExprView::Variable { name: sname, id: s.id })), at(s.pos, s.id + 1)),
                }
            } else {
                (Ok(None), st1)
            };
            match sc {
                Err(e) => (Err(e), st2),
                Ok(superclass) => {
                    let (c, st3) = consume(t, st2, TokenType::LeftBrace, "Expect '{' before class body."@);
                    match c {
                        Err(e) => (Err(e), st3),
                        Ok(_) => if moved(t, st, st3) {
                            let (ms, st4) = methods(t, Seq::empty(), st3);
                            match ms {
                                Err(e) => (Err(e), st4),
                                Ok(methods) => {
                                    let (c2, st5) = consume(t, st4, TokenType::RightBrace, "Expect '}' after class body."@);
                                    match c2 {
                                        Err(e) => (Err(e), st5),
                                        Ok(_) => (Ok(StmtView::Class { name, superclass, methods }), st5),
                                    }
                                },
                            }
                        } else {
                            (Err(perr(t[st3.pos], "Expect '{' before class body."@)), st3)
                        },
                    }
                },
            }
        },
    }
}

/// The methods of a class body, after the ones in `ms`.
pub open spec fn methods(t: Seq<TokenView>, ms: Seq<StmtView>, st: PState) -> (
    Result<Seq<StmtView>, ParseErrorView>,
    PState,
)
    decreases t.len() - st.pos, 45int,
{
    if 0 <= st.pos < t.len() && !check(t, st.pos, TokenType::RightBrace) && !is_at_end(t, st.pos) {
        let (r, st1) = function_declaration(t, FunctionKind::Method, st);
        match r {
            Err(e) => (Err(e), st1),
            Ok(f) => if moved(t, st, st1) {
                methods(t, ms.push(f), st1)
            } else {
                (Ok(ms.push(f)), st1)
            },
        }
    } else {
        (Ok(ms), st)
    }
}

/// `statement → exprStmt | forStmt | ifStmt | printStmt | returnStmt | whileStmt | block`
pub open spec fn statement(t: Seq<TokenView>, st: PState) -> (Result<StmtView, ParseErrorView>, PState)
    decreases t.len() - st.pos, 59int,
{
    let p = st.pos;
    let next = at(p + 1, st.id);
    if !(0 <= p < t.len()) {
        expression_statement(t, st)
    } else if matches_any(t, p, seq![TokenType::Print]) {
        print_statement(t, next)
    } else if matches_any(t, p, seq![TokenType::LeftBrace]) {
        let (r, st1) = block(t, next);
        match r {
            Err(e) => (Err(e), st1),
            Ok(statements) => (Ok(StmtView::Block { statements }), st1),
        }
    } else if matches_any(t, p, seq![TokenType::If]) {
        if_statement(t, next)
    } else if matches_any(t, p, seq![TokenType::While]) {
        while_statement(t, next)
    } else if matches_any(t, p, seq![TokenType::For]) {
        for_statement(t, next)
    } else if matches_any(t, p, seq![TokenType::Return]) {
        return_statement(t, t[p], next)
    } else {
        expression_statement(t, st)
    }
}

/// `printStmt → "print" expression ";"` (after `print`)
pub open spec fn print_statement(t: Seq<TokenView>, st: PState) -> (Result<StmtView, ParseErrorView>, PState) {
    let (r, st1) = expression(t, st);
    match r {
        Err(e) => (Err(e), st1),
        Ok(value) => {
            let (c, st2) = consume(t, st1, TokenType::Semicolon, "Expect ';' after value."@);
            match c {
                Err(e) => (Err(e), st2),
                Ok(_) => (Ok(StmtView::Print { expression: value }), st2),
            }
        },
    }
}

/// `exprStmt → expression ";"`
pub open spec fn expression_statement(t: Seq<TokenView>, st: PState) -> (Result<StmtView, ParseErrorView>, PState) {
    let (r, st1) = expression(t, st);
    match r {
        Err(e) => (Err(e), st1),
        Ok(expr) => {
            let (c, st2) = consume(t, st1, TokenType::Semicolon, "Expect ';' after expression."@);
            match c {
                Err(e) => (Err(e), st2),
                Ok(_) => (Ok(StmtView::Expression { expression: expr }), st2),
            }
        },
    }
}

/// `returnStmt → "return" expression? ";"` (after `return`)
pub open spec fn return_statement(t: Seq<TokenView>, keyword: TokenView, st: PState) -> (
    Result<StmtView, ParseErrorView>,
    PState,
) {
    let (r, st1) = if !check(t, st.pos, TokenType::Semicolon) {
        let (v, s) = expression(t, st);
        match v {
            Err(e) => (Err(e), s),
            Ok(x) => (Ok(Some(x)), s),
        }
    } else {
        (Ok(None), st)
    };
    match r {
        Err(e) => (Err(e), st1),
        Ok(value) => {
            let (c, st2) = consume(t, st1, TokenType::Semicolon, "Expect ';' after return value."@);
            match c {
                Err(e) => (Err(e), st2),
                Ok(_) => (Ok(StmtView::Return { keyword, value }), st2),
            }
        },
    }
}

/// `block → "{" declaration* "}"` (after `{`)
pub open spec fn block(t: Seq<TokenView>, st: PState) -> (Result<Seq<StmtView>, ParseErrorView>, PState)
    decreases t.len() - st.pos, 65int,
{
    let (r, st1) = block_items(t, Seq::empty(), st);
    match r {
        Err(e) => (Err(e), st1),
        Ok(statements) => {
            let (c, st2) = consume(t, st1, TokenType::RightBrace, "Expect '}' after block."@);
            match c {
                Err(e) => (Err(e), st2),
                Ok(_) => (Ok(statements), st2),
            }
        },
    }
}

/// The declarations of a block, after the ones in `ss`.
pub open spec fn block_items(t: Seq<TokenView>, ss: Seq<StmtView>, st: PState) -> (
    Result<Seq<StmtView>, ParseErrorView>,
    PState,
)
    decreases t.len() - st.pos, 64int,
{
    if 0 <= st.pos < t.len() && !check(t, st.pos, TokenType::RightBrace) && !is_at_end(t, st.pos) {
        let (r, st1) = declaration(t, st);
        match r {
            Err(e) => (Err(e), st1),
            Ok(d) => if moved(t, st, st1) {
                block_items(t, ss.push(d), st1)
            } else {
                (Ok(ss.push(d)), st1)
            },
        }
    } else {
        (Ok(ss), st)
    }
}

/// `ifStmt → "if" "(" expression ")" statement ( "else" statement )?` (after `if`)
pub open spec fn if_statement(t: Seq<TokenView>, st: PState) -> (Result<StmtView, ParseErrorView>, PState)
    decreases t.len() - st.pos, 50int,
{
    let (c, st1) = consume(t, st, TokenType::LeftParen, "Expect '(' after 'if'."@);
    match c {
        Err(e) => (Err(e), st1),
        Ok(_) => {
            let (r, st2) = expression(t, st1);
            match r {
                Err(e) => (Err(e), st2),
                Ok(condition) => {
                    let (c2, st3) = consume(t, st2, TokenType::RightParen, "Expect ')' after if condition."@);
                    match c2 {
                        Err(e) => (Err(e), st3),
                        Ok(_) => if moved(t, st, st3) {
                            let (th, st4) = statement(t, st3);
                            match th {
                                Err(e) => (Err(e), st4),
                                Ok(then_branch) => if moved(t, st, st4) && st4.pos < t.len() && matches_any(
                                    t,
                                    st4.pos,
                                    seq![TokenType::Else],
                                ) {
                                    let (el, st5) = statement(t, at(st4.pos + 1, st4.id));
                                    match el {
                                        Err(e) => (Err(e), st5),
                                        Ok(else_branch) => (
                                            Ok(
                                                StmtView::If {
                                                    condition,
                                                    then_branch: Box::new(then_branch),
                                                    else_branch: Some(Box::new(else_branch)),
                                                },
                                            ),
                                            st5,
                                        ),
                                    }
                                } else {
                                    (
                                        Ok(
                                            StmtView::If {
                                                condition,
                                                then_branch: Box::new(then_branch),
                                                else_branch: None,
                                            },
                                        ),
                                        st4,
                                    )
                                },
                            }
                        } else {
                            (Err(perr(t[st3.pos], "Expect ')' after if condition."@)), st3)
                        },
                    }
                },
            }
        },
    }
}

/// `whileStmt → "while" "(" expression ")" statement` (after `while`)
pub open spec fn while_statement(t: Seq<TokenView>, st: PState) -> (Result<StmtView, ParseErrorView>, PState)
    decreases t.len() - st.pos, 49int,
{
    let (c, st1) = consume(t, st, TokenType::LeftParen, "Expect '(' after 'while'."@);
    match c {
        Err(e) => (Err(e), st1),
        Ok(_) => {
            let (r, st2) = expression(t, st1);
            match r {
                Err(e) => (Err(e), st2),
                Ok(condition) => {
                    let (c2, st3) = consume(t, st2, TokenType::RightParen, "Expect ')' after while condition."@);
                    match c2 {
                        Err(e) => (Err(e), st3),
                        Ok(_) => if moved(t, st, st3) {
                            let (b, st4) = statement(t, st3);
                            match b {
                                Err(e) => (Err(e), st4),
                                Ok(body) => (Ok(StmtView::While { condition, body: Box::new(body) }), st4),
                            }
                        } else {
                            (Err(perr(t[st3.pos], "Expect ')' after while condition."@)), st3)
                        },
                    }
                },
            }
        },
    }
}

/// The initializer clause of a `for` loop.
pub open spec fn for_initializer(t: Seq<TokenView>, st: PState) -> (Result<Option<StmtView>, ParseErrorView>, PState) {
    if matches_any(t, st.pos, seq![TokenType::Semicolon]) {
        (Ok(None), at(st.pos + 1, st.id))
    } else {
        let (r, st1) = if matches_any(t, st.pos, seq![TokenType::Var]) {
            var_declaration(t, at(st.pos + 1, st.id))
        } else {
            expression_statement(t, st)
        };
        match r {
            Err(e) => (Err(e), st1),
            Ok(s) => (Ok(Some(s)), st1),
        }
    }
}

/// An optional expression, present unless the next token is of kind `stop`.
pub open spec fn optional_expression(t: Seq<TokenView>, st: PState, stop: TokenType) -> (
    Result<Option<ExprView>, ParseErrorView>,
    PState,
) {
    if !check(t, st.pos, stop) {
        let (r, st1) = expression(t, st);
        match r {
            Err(e) => (Err(e), st1),
            Ok(x) => (Ok(Some(x)), st1),
        }
    } else {
        (Ok(None), st)
    }
}

/// The loop a `for` statement stands for: the body followed by the increment,
/// repeated while the condition (by default `true`) holds, after the
/// initializer.
pub open spec fn desugar_for(
    initializer: Option<StmtView>,
    condition: Option<ExprView>,
    increment: Option<ExprView>,
    body: StmtView,
    true_id: nat,
) -> StmtView {
    let body1 = match increment {
        Some(inc) => StmtView::Block { statements: seq![body, StmtView::Expression { expression: inc }] },
        None => body,
    };
    let cond = match condition {
        Some(c) => c,
        None => ExprView::Literal { value: LiteralView::Bool(true), id: true_id },
    };
    let looped = StmtView::While { condition: cond, body: Box::new(body1) };
    match initializer {
        Some(init) => StmtView::Block { statements: seq![init, looped] },
        None => looped,
    }
}

/// `forStmt → "for" "(" ( varDecl | exprStmt | ";" ) expression? ";" expression? ")" statement`
/// (after `for`). The default condition takes an id even when a condition is given.
pub open spec fn for_statement(t: Seq<TokenView>, st: PState) -> (Result<StmtView, ParseErrorView>, PState)
    decreases t.len() - st.pos, 48int,
{
    let (c, st1) = consume(t, st, TokenType::LeftParen, "Expect '(' after 'for'."@);
    match c {
        Err(e) => (Err(e), st1),
        Ok(_) => {
            let (i, st2) = for_initializer(t, st1);
            match i {
                Err(e) => (Err(e), st2),
                Ok(initializer) => {
                    let (cnd, st3) = optional_expression(t, st2, TokenType::Semicolon);
                    match cnd {
                        Err(e) => (Err(e), st3),
                        Ok(condition) => {
                            let (c2, st4) = consume(t, st3, TokenType::Semicolon, "Expect ';' after loop condition."@);
                            match c2 {
                                Err(e) => (Err(e), st4),
                                Ok(_) => {
                                    let (inc, st5) = optional_expression(t, st4, TokenType::RightParen);
                                    match inc {
                                        Err(e) => (Err(e), st5),
                                        Ok(increment) => {
                                            let (c3, st6) = consume(
                                                t,
                                                st5,
                                                TokenType::RightParen,
                                                "Expect ')' after for clauses."@,
                                            );
                                            match c3 {
                                                Err(e) => (Err(e), st6),
                                                Ok(_) => if moved(t, st, st6) {
                                                    let (b, st7) = statement(t, st6);
                                                    match b {
                                                        Err(e) => (Err(e), st7),
                                                        Ok(body) => (
                                                            Ok(desugar_for(initializer, condition, increment, body, st7.id)),
                                                            at(st7.pos, st7.id + 1),
                                                        ),
                                                    }
                                                } else {
                                                    (Err(perr(t[st6.pos], "Expect ')' after for clauses."@)), st6)
                                                },
                                            }
                                        },
                                    }
                                },
                            }
                        },
                    }
                },
            }
        },
    }
}

// -- Programs --------------------------------------------------------------

/// Whether a token starts a statement, where error recovery stops.
pub open spec fn starts_statement(tt: TokenType) -> bool {
    tt == TokenType::Class || tt == TokenType::Fun || tt == TokenType::Var || tt == TokenType::For || tt
        == TokenType::If || tt == TokenType::While || tt == TokenType::Print || tt == TokenType::Return
}

/// Skipping tokens after an error, from `p` on, up to a statement boundary.
pub open spec fn sync_from(t: Seq<TokenView>, p: int) -> int
    decreases t.len() - p,
{
    if !(0 <= p < t.len()) || is_at_end(t, p) {
        p
    } else if p >= 1 && t[p - 1].token_type == TokenType::Semicolon {
        p
    } else if starts_statement(t[p].token_type) {
        p
    } else {
        sync_from(t, p + 1)
    }
}

/// Error recovery: drop the current token, then skip to a statement boundary.
pub open spec fn synchronize(t: Seq<TokenView>, p: int) -> int {
    sync_from(t, if 0 <= p < t.len() {
        advance(t, p)
    } else {
        p
    })
}

/// The declarations from a position up to the end, with the errors met on the
/// way (each followed by error recovery).
pub open spec fn declarations(t: Seq<TokenView>, ss: Seq<StmtView>, errs: Seq<ParseErrorView>, st: PState) -> (
    Seq<StmtView>,
    Seq<ParseErrorView>,
    PState,
)
    decreases t.len() - st.pos,
{
    if !(0 <= st.pos < t.len()) || is_at_end(t, st.pos) {
        (ss, errs, st)
    } else {
        let (r, st1) = declaration(t, st);
        match r {
            Ok(d) => if moved(t, st, st1) {
                declarations(t, ss.push(d), errs, st1)
            } else {
                (ss.push(d), errs, st1)
            },
            Err(e) => {
                let st2 = at(synchronize(t, st1.pos), st1.id);
                if moved(t, st, st2) {
                    declarations(t, ss, errs.push(e), st2)
                } else {
                    (ss, errs.push(e), st2)
                }
            },
        }
    }
}

/// Parsing a whole program after the errors `errs0` were recorded: the
/// declarations, or all the errors if there are any; the errors recorded
/// afterwards; and where parsing stopped.
pub open spec fn program(t: Seq<TokenView>, errs0: Seq<ParseErrorView>, st: PState) -> (
    Result<Seq<StmtView>, Seq<ParseErrorView>>,
    Seq<ParseErrorView>,
    PState,
) {
    let (ss, es, st1) = declarations(t, Seq::empty(), Seq::empty(), st);
    let all = errs0 + es;
    (
        if all.len() == 0 {
            Ok(ss)
        } else {
            Err(all)
        },
        all,
        st1,
    )
}

/// A prompt line that is a lone expression (maybe followed by `;`): the
/// expression and where parsing stopped.
pub open spec fn lone_expression(t: Seq<TokenView>, st: PState) -> Option<(ExprView, PState)> {
    let (r, st1) = expression(t, st);
    match r {
        Ok(e) => {
            let p2 = if check(t, st1.pos, TokenType::Semicolon) {
                st1.pos + 1
            } else {
                st1.pos
            };
            if is_at_end(t, p2) {
                Some((e, at(p2, st1.id)))
            } else {
                None
            }
        },
        Err(_) => None,
    }
}

/// Parsing a prompt line: a lone expression is printed; anything else is
/// parsed as a program from the same position (the ids used by the attempt
/// stay used).
pub open spec fn prompt_line(t: Seq<TokenView>, errs0: Seq<ParseErrorView>, st: PState) -> (
    Result<Seq<StmtView>, Seq<ParseErrorView>>,
    Seq<ParseErrorView>,
    PState,
) {
    match lone_expression(t, st) {
        Some((e, st2)) => (Ok(seq![StmtView::Print { expression: e }]), errs0, st2),
        None => program(t, errs0, at(st.pos, expression(t, st).1.id)),
    }
}

} // verus!
