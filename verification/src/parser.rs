use vstd::prelude::*;

use crate::ast::{expr_view, exprs_view, stmt_view, stmts_view, Expr, ExprView, Stmt, StmtView};
use crate::parser_spec::{
    advance, arguments, assignment, at, binary, binary_rest, block, block_items, call, call_rest, check,
    class_declaration, consume, declaration, declarations, desugar_for, expression, expression_statement,
    finish_call, for_initializer, for_statement, function_declaration, if_statement, is_at_end, join, level_ops,
    level_rank, lone_expression, matches_any, methods, moved, operand, program, prompt_line, optional_expression, parameters, perr, primary,
    print_statement, return_statement, starts_statement, statement, sync_from, synchronize, ternary, unary,
    var_declaration, while_statement, FunctionKind, Level, PState, ParseErrorView,
};
use crate::text::str_to_string;
use crate::token::{tokens_view, Literal, LiteralView, Token, TokenType, TokenView};

verus! {

/// An error found while parsing: the offending token and a message.
#[derive(Debug)]
pub struct ParseError {
    pub token: Token,
    pub message: String,
}

pub open spec fn perr_view(e: ParseError) -> ParseErrorView {
    ParseErrorView { token: e.token@, message: e.message@ }
}

pub open spec fn perrs_view(es: Seq<ParseError>) -> Seq<ParseErrorView> {
    es.map_values(|e: ParseError| perr_view(e))
}

impl Clone for ParseError {
    fn clone(&self) -> (r: ParseError)
        ensures
            perr_view(r) == perr_view(*self),
    {
        ParseError { token: self.token.clone(), message: self.message.clone() }
    }
}

pub open spec fn res_expr(r: Result<Expr, ParseError>) -> Result<ExprView, ParseErrorView> {
    match r {
        Ok(e) => Ok(e@),
        Err(x) => Err(perr_view(x)),
    }
}

pub open spec fn res_stmt(r: Result<Stmt, ParseError>) -> Result<StmtView, ParseErrorView> {
    match r {
        Ok(s) => Ok(s@),
        Err(x) => Err(perr_view(x)),
    }
}

pub open spec fn res_stmts(r: Result<Vec<Stmt>, ParseError>) -> Result<Seq<StmtView>, ParseErrorView> {
    match r {
        Ok(s) => Ok(stmts_view(s@)),
        Err(x) => Err(perr_view(x)),
    }
}

pub open spec fn res_exprs(r: Result<Vec<Expr>, ParseError>) -> Result<Seq<ExprView>, ParseErrorView> {
    match r {
        Ok(s) => Ok(exprs_view(s@)),
        Err(x) => Err(perr_view(x)),
    }
}

pub open spec fn res_tokens(r: Result<Vec<Token>, ParseError>) -> Result<Seq<TokenView>, ParseErrorView> {
    match r {
        Ok(s) => Ok(tokens_view(s@)),
        Err(x) => Err(perr_view(x)),
    }
}

pub open spec fn res_token(r: Result<Token, ParseError>) -> Result<TokenView, ParseErrorView> {
    match r {
        Ok(s) => Ok(s@),
        Err(x) => Err(perr_view(x)),
    }
}

/// Whether an end-of-file token comes at or after position `p`.
pub open spec fn has_eof_from(t: Seq<TokenView>, p: int) -> bool {
    exists|k: int| p <= k < t.len() && #[trigger] t[k].token_type == TokenType::Eof
}

proof fn lemma_exprs_view_push(v: Seq<Expr>, e: Expr)
    ensures
        exprs_view(v.push(e)) == exprs_view(v).push(e@),
{
    assert(v.push(e).drop_last() =~= v);
}

proof fn lemma_exprs_view_len(v: Seq<Expr>)
    ensures
        exprs_view(v).len() == v.len(),
    decreases v.len(),
{
    if v.len() > 0 {
        lemma_exprs_view_len(v.drop_last());
    }
}

proof fn lemma_stmts_view_len(v: Seq<Stmt>)
    ensures
        stmts_view(v).len() == v.len(),
    decreases v.len(),
{
    if v.len() > 0 {
        lemma_stmts_view_len(v.drop_last());
    }
}

proof fn lemma_stmts_view_push(v: Seq<Stmt>, s: Stmt)
    ensures
        stmts_view(v.push(s)) == stmts_view(v).push(s@),
{
    assert(v.push(s).drop_last() =~= v);
}

proof fn lemma_stmts_view_two(a: Stmt, b: Stmt)
    ensures
        stmts_view(seq![a, b]) == seq![a@, b@],
{
    assert(seq![a, b].drop_last() =~= seq![a]);
    assert(seq![a].drop_last() =~= Seq::<Stmt>::empty());
    assert(seq![a].last() == a);
    assert(seq![a, b].last() == b);
    assert(stmts_view(Seq::<Stmt>::empty()) == Seq::<StmtView>::empty());
    assert(stmts_view(seq![a]) == stmts_view(Seq::<Stmt>::empty()).push(a@));
    assert(stmts_view(seq![a]) =~= seq![a@]);
    assert(stmts_view(seq![a, b]) =~= seq![a@, b@]);
}

proof fn lemma_stmts_view_empty()
    ensures
        stmts_view(Seq::<Stmt>::empty()) == Seq::<StmtView>::empty(),
{
}

proof fn lemma_tokens_view_push(v: Seq<Token>, t: Token)
    ensures
        tokens_view(v.push(t)) == tokens_view(v).push(t@),
{
    assert(tokens_view(v.push(t)) =~= tokens_view(v).push(t@));
}

/// A recursive-descent parser over the tokens of a source text.
pub struct Parser {
    tokens: Vec<Token>,
    errors: Vec<ParseError>,
    current: usize,
    expr_id_counter: usize,
}

impl Parser {
    /// The tokens being parsed.
    pub closed spec fn toks(&self) -> Seq<TokenView> {
        tokens_view(self.tokens@)
    }

    /// The position of the next token and the next free expression id.
    pub closed spec fn st(&self) -> PState {
        at(self.current as int, self.expr_id_counter as nat)
    }

    /// The errors recorded so far.
    pub closed spec fn errs(&self) -> Seq<ParseErrorView> {
        perrs_view(self.errors@)
    }

    /// The parser's invariant: the position is inside the tokens, an
    /// end-of-file token follows it, and the ids still to hand out fit.
    pub closed spec fn wf(&self) -> bool {
        &&& self.current < self.tokens@.len()
        &&& has_eof_from(self.toks(), self.current as int)
        &&& self.expr_id_counter + (self.tokens@.len() - self.current) <= usize::MAX
    }

    /// Whether the ids still to hand out fit even when the rest of the tokens
    /// is parsed twice (as a prompt line may be).
    pub closed spec fn room_to_retry(&self) -> bool {
        self.expr_id_counter + 2 * (self.tokens@.len() - self.current) <= usize::MAX
    }

    /// `self` is `old` after a parsing step: same tokens and errors, the
    /// position moved forward, and no more ids handed out than tokens consumed.
    pub closed spec fn stepped_from(&self, old: Parser) -> bool {
        &&& self.tokens@ == old.tokens@
        &&& self.errors@ == old.errors@
        &&& self.wf()
        &&& old.current <= self.current
        &&& self.expr_id_counter + (self.tokens@.len() - self.current) <= old.expr_id_counter + (old.tokens@.len()
            - old.current)
    }

    /// A parser at the start of `tokens`.
    pub fn new(tokens: Vec<Token>) -> (p: Parser)
        ensures
            p.toks() == tokens_view(tokens@),
            p.st() == at(0, 0),
            p.errs() == Seq::<ParseErrorView>::empty(),
            has_eof_from(tokens_view(tokens@), 0) ==> p.wf(),
            2 * tokens@.len() <= usize::MAX ==> p.room_to_retry(),
    {
        let n = tokens.len();
        let p = Parser { tokens, errors: Vec::new(), current: 0, expr_id_counter: 0 };
        assert(p.errs() =~= Seq::<ParseErrorView>::empty());
        p
    }

    proof fn lemma_not_end_next(&self)
        requires
            self.wf(),
            !is_at_end(self.toks(), self.current as int),
        ensures
            self.current + 1 < self.tokens@.len(),
            has_eof_from(self.toks(), self.current + 1),
    {
        let k = choose|k: int|
            self.current <= k < self.toks().len() && #[trigger] self.toks()[k].token_type == TokenType::Eof;
        assert(k != self.current);
    }

    fn next_expr_id(&mut self) -> (id: usize)
        requires
            old(self).expr_id_counter < usize::MAX,
        ensures
            id == old(self).expr_id_counter,
            final(self).expr_id_counter == old(self).expr_id_counter + 1,
            final(self).tokens == old(self).tokens,
            final(self).errors == old(self).errors,
            final(self).current == old(self).current,
    {
        let id = self.expr_id_counter;
        self.expr_id_counter = self.expr_id_counter + 1;
        id
    }

    fn peek_type(&self) -> (r: TokenType)
        requires
            self.current < self.tokens@.len(),
        ensures
            r == self.toks()[self.current as int].token_type,
    {
        self.tokens[self.current].token_type()
    }

    fn peek_token(&self) -> (r: Token)
        requires
            self.current < self.tokens@.len(),
        ensures
            r@ == self.toks()[self.current as int],
    {
        self.tokens[self.current].clone()
    }

    fn previous_token(&self) -> (r: Token)
        requires
            1 <= self.current <= self.tokens@.len(),
        ensures
            r@ == self.toks()[self.current - 1],
    {
        self.tokens[self.current - 1].clone()
    }

    fn is_at_end(&self) -> (r: bool)
        requires
            self.current < self.tokens@.len(),
        ensures
            r == is_at_end(self.toks(), self.current as int),
    {
        self.peek_type() == TokenType::Eof
    }

    fn check(&self, token_type: TokenType) -> (r: bool)
        requires
            self.current < self.tokens@.len(),
        ensures
            r == check(self.toks(), self.current as int, token_type),
    {
        if self.is_at_end() {
            return false;
        }
        self.peek_type() == token_type
    }

    fn advance(&mut self)
        requires
            old(self).wf(),
        ensures
            final(self).wf(),
            final(self).current == advance(old(self).toks(), old(self).current as int),
            final(self).tokens == old(self).tokens,
            final(self).errors == old(self).errors,
            final(self).expr_id_counter == old(self).expr_id_counter,
    {
        if !self.is_at_end() {
            proof {
                self.lemma_not_end_next();
            }
            let n = self.tokens.len();
            self.current = self.current + 1;
        }
    }

    /// Consumes the next token if it is of kind `a`.
    fn match1(&mut self, a: TokenType) -> (r: bool)
        requires
            old(self).wf(),
        ensures
            final(self).wf(),
            r == matches_any(old(self).toks(), old(self).current as int, seq![a]),
            final(self).current == old(self).current + if r {
                1int
            } else {
                0int
            },
            final(self).tokens == old(self).tokens,
            final(self).errors == old(self).errors,
            final(self).expr_id_counter == old(self).expr_id_counter,
    {
        let ghost tt = self.toks()[self.current as int].token_type;
        if self.check(a) {
            assert(seq![a][0] == tt);
            self.advance();
            true
        } else {
            assert(!seq![a].contains(tt) || is_at_end(self.toks(), self.current as int)) by {
                if seq![a].contains(tt) {
                    let k = choose|k: int| 0 <= k < 1 && seq![a][k] == tt;
                    assert(k == 0);
                }
            }
            false
        }
    }

    /// Consumes the next token if it is of kind `a` or `b`.
    fn match2(&mut self, a: TokenType, b: TokenType) -> (r: bool)
        requires
            old(self).wf(),
        ensures
            final(self).wf(),
            r == matches_any(old(self).toks(), old(self).current as int, seq![a, b]),
            final(self).current == old(self).current + if r {
                1int
            } else {
                0int
            },
            final(self).tokens == old(self).tokens,
            final(self).errors == old(self).errors,
            final(self).expr_id_counter == old(self).expr_id_counter,
    {
        let ghost tt = self.toks()[self.current as int].token_type;
        if self.check(a) || self.check(b) {
            assert(seq![a, b][0] == a && seq![a, b][1] == b);
            self.advance();
            true
        } else {
            assert(!seq![a, b].contains(tt) || is_at_end(self.toks(), self.current as int)) by {
                if seq![a, b].contains(tt) {
                    let k = choose|k: int| 0 <= k < 2 && seq![a, b][k] == tt;
                    assert(k == 0 || k == 1);
                }
            }
            false
        }
    }

    /// Consumes the next token if it is of one of four kinds.
    fn match4(&mut self, a: TokenType, b: TokenType, c: TokenType, d: TokenType) -> (r: bool)
        requires
            old(self).wf(),
        ensures
            final(self).wf(),
            r == matches_any(old(self).toks(), old(self).current as int, seq![a, b, c, d]),
            final(self).current == old(self).current + if r {
                1int
            } else {
                0int
            },
            final(self).tokens == old(self).tokens,
            final(self).errors == old(self).errors,
            final(self).expr_id_counter == old(self).expr_id_counter,
    {
        let ghost tt = self.toks()[self.current as int].token_type;
        let ghost s = seq![a, b, c, d];
        if self.check(a) || self.check(b) || self.check(c) || self.check(d) {
            assert(s[0] == a && s[1] == b && s[2] == c && s[3] == d);
            self.advance();
            true
        } else {
            assert(!s.contains(tt) || is_at_end(self.toks(), self.current as int)) by {
                if s.contains(tt) {
                    let k = choose|k: int| 0 <= k < 4 && s[k] == tt;
                    assert(k == 0 || k == 1 || k == 2 || k == 3);
                }
            }
            false
        }
    }

    fn error(&self, token: &Token, message: &str) -> (e: ParseError)
        ensures
            perr_view(e) == perr(token@, message@),
    {
        ParseError { token: token.clone(), message: str_to_string(message) }
    }

    fn consume(&mut self, token_type: TokenType, message: &str) -> (r: Result<Token, ParseError>)
        requires
            old(self).wf(),
        ensures
            final(self).wf(),
            (res_token(r), final(self).st()) == consume(old(self).toks(), old(self).st(), token_type, message@),
            final(self).tokens == old(self).tokens,
            final(self).errors == old(self).errors,
            final(self).expr_id_counter == old(self).expr_id_counter,
    {
        if self.check(token_type) {
            let tok = self.peek_token();
            self.advance();
            return Ok(tok);
        }
        let tok = self.peek_token();
        Err(self.error(&tok, message))
    }

    // -- Expressions --------------------------------------------------------

    /// `expression → comma`
    fn expression(&mut self) -> (r: Result<Expr, ParseError>)
        requires
            old(self).wf(),
        ensures
            final(self).stepped_from(*old(self)),
            (res_expr(r), final(self).st()) == expression(old(self).toks(), old(self).st()),
            r is Ok ==> final(self).current > old(self).current,
        decreases old(self).tokens@.len() - old(self).current, 100int,
    {
        self.binary(Level::Comma)
    }

    fn operand(&mut self, l: Level) -> (r: Result<Expr, ParseError>)
        requires
            old(self).wf(),
        ensures
            final(self).stepped_from(*old(self)),
            (res_expr(r), final(self).st()) == operand(l, old(self).toks(), old(self).st()),
            r is Ok ==> final(self).current > old(self).current,
        decreases old(self).tokens@.len() - old(self).current, level_rank(l) - 2,
    {
        match l {
            Level::Comma => self.assignment(),
            Level::Or => self.binary(Level::And),
            Level::And => self.ternary(),
            Level::Equality => self.binary(Level::Comparison),
            Level::Comparison => self.binary(Level::Term),
            Level::Term => self.binary(Level::Factor),
            Level::Factor => self.unary(),
        }
    }

    /// One level of left-associative binary operators (comma, `or`, `and`,
    /// equality, comparison, term, factor).
    fn binary(&mut self, l: Level) -> (r: Result<Expr, ParseError>)
        requires
            old(self).wf(),
        ensures
            final(self).stepped_from(*old(self)),
            (res_expr(r), final(self).st()) == binary(l, old(self).toks(), old(self).st()),
            r is Ok ==> final(self).current > old(self).current,
        decreases old(self).tokens@.len() - old(self).current, level_rank(l),
    {
        let left = self.operand(l)?;
        self.binary_rest(l, left)
    }

    /// Consumes the next token if it is an operator of level `l`.
    fn match_level(&mut self, l: Level) -> (r: bool)
        requires
            old(self).wf(),
        ensures
            final(self).wf(),
            r == matches_any(old(self).toks(), old(self).current as int, level_ops(l)),
            final(self).current == old(self).current + if r {
                1int
            } else {
                0int
            },
            final(self).tokens == old(self).tokens,
            final(self).errors == old(self).errors,
            final(self).expr_id_counter == old(self).expr_id_counter,
    {
        match l {
            Level::Comma => self.match1(TokenType::Comma),
            Level::Or => self.match1(TokenType::Or),
            Level::And => self.match1(TokenType::And),
            Level::Equality => self.match2(TokenType::BangEqual, TokenType::EqualEqual),
            Level::Comparison => self.match4(
                TokenType::Greater,
                TokenType::GreaterEqual,
                TokenType::Less,
                TokenType::LessEqual,
            ),
            Level::Term => self.match2(TokenType::Minus, TokenType::Plus),
            Level::Factor => self.match2(TokenType::Slash, TokenType::Star),
        }
    }

    fn join(l: &Level, left: Expr, operator: Token, right: Expr, id: usize) -> (r: Expr)
        ensures
            r@ == join(*l, left@, operator@, right@, id as nat),
    {
        match l {
            Level::Or => Expr::Logical { left: Box::new(left), operator, right: Box::new(right), id },
            Level::And => Expr::Logical { left: Box::new(left), operator, right: Box::new(right), id },
            _ => Expr::Binary { left: Box::new(left), operator, right: Box::new(right), id },
        }
    }

    fn binary_rest(&mut self, l: Level, left: Expr) -> (r: Result<Expr, ParseError>)
        requires
            old(self).wf(),
        ensures
            final(self).stepped_from(*old(self)),
            (res_expr(r), final(self).st()) == binary_rest(l, old(self).toks(), left@, old(self).st()),
        decreases old(self).tokens@.len() - old(self).current, level_rank(l) - 1,
    {
        if self.match_level(l) {
            let operator = self.previous_token();
            let right = self.operand(l)?;
            let id = self.next_expr_id();
            let expr = Self::join(&l, left, operator, right, id);
            self.binary_rest(l, expr)
        } else {
            Ok(left)
        }
    }

    /// `assignment → ( call "." )? IDENTIFIER "=" assignment | or`
    fn assignment(&mut self) -> (r: Result<Expr, ParseError>)
        requires
            old(self).wf(),
        ensures
            final(self).stepped_from(*old(self)),
            (res_expr(r), final(self).st()) == assignment(old(self).toks(), old(self).st()),
            r is Ok ==> final(self).current > old(self).current,
        decreases old(self).tokens@.len() - old(self).current, 96int,
    {
        let expr = self.binary(Level::Or)?;
        if self.match1(TokenType::Equal) {
            let equals = self.previous_token();
            let value = self.assignment()?;
            match expr {
                Expr::Variable { name, .. } => {
                    let id = self.next_expr_id();
                    return Ok(Expr::Assign { name, value: Box::new(value), id });
                },
                Expr::Get { object, name, .. } => {
                    let id = self.next_expr_id();
                    return Ok(Expr::SetProperty { object, name, value: Box::new(value), id });
                },
                _ => {},
            }
            return Err(self.error(&equals, "Invalid assignment target."));
        }
        Ok(expr)
    }

    /// `ternary → equality ( "?" expression ":" ternary )?`
    fn ternary(&mut self) -> (r: Result<Expr, ParseError>)
        requires
            old(self).wf(),
        ensures
            final(self).stepped_from(*old(self)),
            (res_expr(r), final(self).st()) == ternary(old(self).toks(), old(self).st()),
            r is Ok ==> final(self).current > old(self).current,
        decreases old(self).tokens@.len() - old(self).current, 89int,
    {
        let mut expr = self.binary(Level::Equality)?;
        if self.match1(TokenType::Question) {
            let then_branch = self.expression()?;
            self.consume(TokenType::Colon, "Expect ':' after then branch of ternary expression.")?;
            let else_branch = self.ternary()?;
            let id = self.next_expr_id();
            expr = Expr::Ternary {
                condition: Box::new(expr),
                then_branch: Box::new(then_branch),
                else_branch: Box::new(else_branch),
                id,
            };
        }
        Ok(expr)
    }

    /// `unary → ( "!" | "-" ) unary | call`
    fn unary(&mut self) -> (r: Result<Expr, ParseError>)
        requires
            old(self).wf(),
        ensures
            final(self).stepped_from(*old(self)),
            (res_expr(r), final(self).st()) == unary(old(self).toks(), old(self).st()),
            r is Ok ==> final(self).current > old(self).current,
        decreases old(self).tokens@.len() - old(self).current, 76int,
    {
        if self.match2(TokenType::Bang, TokenType::Minus) {
            let operator = self.previous_token();
            let right = self.unary()?;
            let id = self.next_expr_id();
            return Ok(Expr::Unary { operator, right: Box::new(right), id });
        }
        self.call()
    }

    /// `call → primary ( "(" arguments? ")" | "." IDENTIFIER )*`
    fn call(&mut self) -> (r: Result<Expr, ParseError>)
        requires
            old(self).wf(),
        ensures
            final(self).stepped_from(*old(self)),
            (res_expr(r), final(self).st()) == call(old(self).toks(), old(self).st()),
            r is Ok ==> final(self).current > old(self).current,
        decreases old(self).tokens@.len() - old(self).current, 75int,
    {
        let expr = self.primary()?;
        self.call_rest(expr)
    }

    fn call_rest(&mut self, callee: Expr) -> (r: Result<Expr, ParseError>)
        requires
            old(self).wf(),
        ensures
            final(self).stepped_from(*old(self)),
            (res_expr(r), final(self).st()) == call_rest(old(self).toks(), callee@, old(self).st()),
        decreases old(self).tokens@.len() - old(self).current, 74int,
    {
        if self.match1(TokenType::LeftParen) {
            let expr = self.finish_call(callee)?;
            self.call_rest(expr)
        } else if self.match1(TokenType::Dot) {
            let name = self.consume(TokenType::Identifier, "Expect property name after '.'.")?;
            let id = self.next_expr_id();
            let expr = Expr::Get { object: Box::new(callee), name, id };
            self.call_rest(expr)
        } else {
            Ok(callee)
        }
    }

    /// The arguments and the closing parenthesis of a call.
    fn finish_call(&mut self, callee: Expr) -> (r: Result<Expr, ParseError>)
        requires
            old(self).wf(),
        ensures
            final(self).stepped_from(*old(self)),
            (res_expr(r), final(self).st()) == finish_call(old(self).toks(), callee@, old(self).st()),
            r is Ok ==> final(self).current > old(self).current,
        decreases old(self).tokens@.len() - old(self).current, 99int,
    {
        let mut arguments: Vec<Expr> = Vec::new();
        if !self.check(TokenType::RightParen) {
            arguments = self.arguments(arguments)?;
        }
        let paren = self.consume(TokenType::RightParen, "Expect ')' after arguments.")?;
        let id = self.next_expr_id();
        Ok(Expr::Call { callee: Box::new(callee), paren, arguments, id })
    }

    fn arguments(&mut self, args: Vec<Expr>) -> (r: Result<Vec<Expr>, ParseError>)
        requires
            old(self).wf(),
        ensures
            final(self).stepped_from(*old(self)),
            (res_exprs(r), final(self).st()) == arguments(old(self).toks(), exprs_view(args@), old(self).st()),
            r is Ok ==> final(self).current > old(self).current,
        decreases old(self).tokens@.len() - old(self).current, 97int,
    {
        let mut args = args;
        proof {
            lemma_exprs_view_len(args@);
        }
        if args.len() >= 255 {
            let tok = self.peek_token();
            return Err(self.error(&tok, "Cannot have more than 255 arguments."));
        }
        let a = self.assignment()?;
        let ghost before = args@;
        args.push(a);
        proof {
            lemma_exprs_view_push(before, a);
        }
        if self.match1(TokenType::Comma) {
            return self.arguments(args);
        }
        Ok(args)
    }

    /// `primary → literal | "this" | IDENTIFIER | "(" expression ")" | "super" "." IDENTIFIER`
    fn primary(&mut self) -> (r: Result<Expr, ParseError>)
        requires
            old(self).wf(),
        ensures
            final(self).stepped_from(*old(self)),
            (res_expr(r), final(self).st()) == primary(old(self).toks(), old(self).st()),
            r is Ok ==> final(self).current > old(self).current,
        decreases old(self).tokens@.len() - old(self).current, 70int,
    {
        if self.match1(TokenType::False) {
            let id = self.next_expr_id();
            return Ok(Expr::Literal { value: Literal::Bool(false), id });
        }
        if self.match1(TokenType::True) {
            let id = self.next_expr_id();
            return Ok(Expr::Literal { value: Literal::Bool(true), id });
        }
        if self.match1(TokenType::Nil) {
            let id = self.next_expr_id();
            return Ok(Expr::Literal { value: Literal::Nil, id });
        }
        if self.match2(TokenType::Number, TokenType::String) {
            let prev = self.previous_token();
            let literal = match prev.literal() {
                Some(l) => l.clone(),
                None => {
                    return Err(self.error(&prev, "Expected a literal value."));
                },
            };
            let id = self.next_expr_id();
            return Ok(Expr::Literal { value: literal, id });
        }
        if self.match1(TokenType::This) {
            let keyword = self.previous_token();
            let id = self.next_expr_id();
            return Ok(Expr::This { keyword, id });
        }
        if self.match1(TokenType::Identifier) {
            let name = self.previous_token();
            let id = self.next_expr_id();
            return Ok(Expr::Variable { name, id });
        }
        if self.match1(TokenType::LeftParen) {
            let expr = self.expression()?;
            self.consume(TokenType::RightParen, "Expect ')' after expression.")?;
            let id = self.next_expr_id();
            return Ok(Expr::Grouping { expression: Box::new(expr), id });
        }
        if self.match1(TokenType::Super) {
            let keyword = self.previous_token();
            self.consume(TokenType::Dot, "Expect '.' after 'super'.")?;
            let method = self.consume(TokenType::Identifier, "Expect superclass method name.")?;
            let id = self.next_expr_id();
            return Ok(Expr::Super { keyword, method, id });
        }
        let tok = self.peek_token();
        Err(self.error(&tok, "Expected expression."))
    }

    // -- Statements ---------------------------------------------------------

    /// `declaration → classDecl | funDecl | varDecl | statement`
    fn declaration(&mut self) -> (r: Result<Stmt, ParseError>)
        requires
            old(self).wf(),
        ensures
            final(self).stepped_from(*old(self)),
            (res_stmt(r), final(self).st()) == declaration(old(self).toks(), old(self).st()),
            r is Ok ==> final(self).current > old(self).current,
        decreases old(self).tokens@.len() - old(self).current, 60int,
    {
        if self.match1(TokenType::Var) {
            return self.var_declaration();
        } else if self.match1(TokenType::Fun) {
            return self.function_declaration(FunctionKind::Function);
        } else if self.match1(TokenType::Class) {
            return self.class_declaration();
        }
        self.statement()
    }

    /// `classDecl → "class" IDENTIFIER ( "<" IDENTIFIER )? "{" function* "}"` (after `class`)
    fn class_declaration(&mut self) -> (r: Result<Stmt, ParseError>)
        requires
            old(self).wf(),
        ensures
            final(self).stepped_from(*old(self)),
            (res_stmt(r), final(self).st()) == class_declaration(old(self).toks(), old(self).st()),
            r is Ok ==> final(self).current > old(self).current,
        decreases old(self).tokens@.len() - old(self).current, 46int,
    {
        let name = self.consume(TokenType::Identifier, "Expect class name.")?;
        let superclass = if self.match1(TokenType::Less) {
            let superclass_name = self.consume(TokenType::Identifier, "Expect superclass name.")?;
            let id = self.next_expr_id();
            Some(Box::new(Expr::Variable { name: superclass_name, id }))
        } else {
            None
        };
        self.consume(TokenType::LeftBrace, "Expect '{' before class body.")?;
        let methods = self.methods(Vec::new())?;
        self.consume(TokenType::RightBrace, "Expect '}' after class body.")?;
        Ok(Stmt::Class { name, superclass, methods })
    }

    /// The methods of a class body, after the ones in `ms`.
    fn methods(&mut self, ms: Vec<Stmt>) -> (r: Result<Vec<Stmt>, ParseError>)
        requires
            old(self).wf(),
        ensures
            final(self).stepped_from(*old(self)),
            (res_stmts(r), final(self).st()) == methods(old(self).toks(), stmts_view(ms@), old(self).st()),
        decreases old(self).tokens@.len() - old(self).current, 45int,
    {
        let mut ms = ms;
        if !self.check(TokenType::RightBrace) && !self.is_at_end() {
            let f = self.function_declaration(FunctionKind::Method)?;
            let ghost before = ms@;
            ms.push(f);
            proof {
                lemma_stmts_view_push(before, f);
            }
            return self.methods(ms);
        }
        Ok(ms)
    }

    /// `function → IDENTIFIER "(" parameters? ")" block`
    fn function_declaration(&mut self, kind: FunctionKind) -> (r: Result<Stmt, ParseError>)
        requires
            old(self).wf(),
        ensures
            final(self).stepped_from(*old(self)),
            (res_stmt(r), final(self).st()) == function_declaration(old(self).toks(), kind, old(self).st()),
            r is Ok ==> final(self).current > old(self).current,
        decreases old(self).tokens@.len() - old(self).current, 44int,
    {
        let name_msg = match kind {
            FunctionKind::Function => "Expect function name.",
            FunctionKind::Method => "Expect method name.",
        };
        let body_msg = match kind {
            FunctionKind::Function => "Expect function body.",
            FunctionKind::Method => "Expect method body.",
        };
        let name = self.consume(TokenType::Identifier, name_msg)?;
        self.consume(TokenType::LeftParen, "Expect '(' after function name.")?;
        let mut params: Vec<Token> = Vec::new();
        assert(tokens_view(params@) =~= Seq::<TokenView>::empty());
        if !self.check(TokenType::RightParen) {
            params = self.parameters(params)?;
        }
        self.consume(TokenType::RightParen, "Expect ')' after parameters.")?;
        self.consume(TokenType::LeftBrace, body_msg)?;
        let body = self.block()?;
        Ok(Stmt::Function { name, params, body })
    }

    /// The parameter names of a function, after the ones in `params`.
    fn parameters(&mut self, params: Vec<Token>) -> (r: Result<Vec<Token>, ParseError>)
        requires
            old(self).wf(),
        ensures
            final(self).stepped_from(*old(self)),
            (res_tokens(r), final(self).st()) == parameters(old(self).toks(), tokens_view(params@), old(self).st()),
            r is Ok ==> final(self).current > old(self).current,
        decreases old(self).tokens@.len() - old(self).current,
    {
        let mut params = params;
        if params.len() >= 255 {
            let tok = self.peek_token();
            return Err(self.error(&tok, "Cannot have more than 255 parameters."));
        }
        let name = self.consume(TokenType::Identifier, "Expect parameter name.")?;
        let ghost before = params@;
        params.push(name);
        proof {
            lemma_tokens_view_push(before, name);
        }
        if self.match1(TokenType::Comma) {
            return self.parameters(params);
        }
        Ok(params)
    }

    /// `varDecl → "var" IDENTIFIER ( "=" expression )? ";"` (after `var`)
    fn var_declaration(&mut self) -> (r: Result<Stmt, ParseError>)
        requires
            old(self).wf(),
        ensures
            final(self).stepped_from(*old(self)),
            (res_stmt(r), final(self).st()) == var_declaration(old(self).toks(), old(self).st()),
            r is Ok ==> final(self).current > old(self).current,
    {
        let name = self.consume(TokenType::Identifier, "Expect variable name.")?;
        let id = self.next_expr_id();
        let mut initializer = Expr::Literal { value: Literal::Nil, id };
        if self.match1(TokenType::Equal) {
            initializer = self.expression()?;
        }
        self.consume(TokenType::Semicolon, "Expect ';' after variable declaration.")?;
        Ok(Stmt::Var { name, initializer: Box::new(initializer) })
    }

    /// `statement → exprStmt | forStmt | ifStmt | printStmt | returnStmt | whileStmt | block`
    fn statement(&mut self) -> (r: Result<Stmt, ParseError>)
        requires
            old(self).wf(),
        ensures
            final(self).stepped_from(*old(self)),
            (res_stmt(r), final(self).st()) == statement(old(self).toks(), old(self).st()),
            r is Ok ==> final(self).current > old(self).current,
        decreases old(self).tokens@.len() - old(self).current, 59int,
    {
        if self.match1(TokenType::Print) {
            return self.print_statement();
        } else if self.match1(TokenType::LeftBrace) {
            let statements = self.block()?;
            return Ok(Stmt::Block { statements });
        } else if self.match1(TokenType::If) {
            return self.if_statement();
        } else if self.match1(TokenType::While) {
            return self.while_statement();
        } else if self.match1(TokenType::For) {
            return self.for_statement();
        } else if self.match1(TokenType::Return) {
            return self.return_statement();
        }
        self.expression_statement()
    }

    /// `returnStmt → "return" expression? ";"` (after `return`)
    fn return_statement(&mut self) -> (r: Result<Stmt, ParseError>)
        requires
            old(self).wf(),
            old(self).current >= 1,
        ensures
            final(self).stepped_from(*old(self)),
            (res_stmt(r), final(self).st()) == return_statement(
                old(self).toks(),
                old(self).toks()[old(self).current - 1],
                old(self).st(),
            ),
            r is Ok ==> final(self).current > old(self).current,
    {
        let keyword = self.previous_token();
        let value = if !self.check(TokenType::Semicolon) {
            Some(Box::new(self.expression()?))
        } else {
            None
        };
        self.consume(TokenType::Semicolon, "Expect ';' after return value.")?;
        Ok(Stmt::Return { keyword, value })
    }

    /// `forStmt → "for" "(" ( varDecl | exprStmt | ";" ) expression? ";" expression? ")" statement`
    /// (after `for`), turned into the equivalent `while` loop.
    fn for_statement(&mut self) -> (r: Result<Stmt, ParseError>)
        requires
            old(self).wf(),
        ensures
            final(self).stepped_from(*old(self)),
            (res_stmt(r), final(self).st()) == for_statement(old(self).toks(), old(self).st()),
            r is Ok ==> final(self).current > old(self).current,
        decreases old(self).tokens@.len() - old(self).current, 48int,
    {
        self.consume(TokenType::LeftParen, "Expect '(' after 'for'.")?;
        let initializer = self.for_initializer()?;
        let condition = self.optional_expression(TokenType::Semicolon)?;
        self.consume(TokenType::Semicolon, "Expect ';' after loop condition.")?;
        let increment = self.optional_expression(TokenType::RightParen)?;
        self.consume(TokenType::RightParen, "Expect ')' after for clauses.")?;
        let body = self.statement()?;
        let true_id = self.next_expr_id();
        Ok(Self::desugar_for(initializer, condition, increment, body, true_id))
    }

    /// The initializer clause of a `for` loop.
    fn for_initializer(&mut self) -> (r: Result<Option<Stmt>, ParseError>)
        requires
            old(self).wf(),
        ensures
            final(self).stepped_from(*old(self)),
            (match r {
                Ok(Some(s)) => Ok(Some(s@)),
                Ok(None) => Ok(None),
                Err(e) => Err(perr_view(e)),
            }, final(self).st()) == for_initializer(old(self).toks(), old(self).st()),
    {
        if self.match1(TokenType::Semicolon) {
            Ok(None)
        } else if self.match1(TokenType::Var) {
            Ok(Some(self.var_declaration()?))
        } else {
            Ok(Some(self.expression_statement()?))
        }
    }

    /// An expression, unless the next token is of kind `stop`.
    fn optional_expression(&mut self, stop: TokenType) -> (r: Result<Option<Expr>, ParseError>)
        requires
            old(self).wf(),
        ensures
            final(self).stepped_from(*old(self)),
            (match r {
                Ok(Some(e)) => Ok(Some(e@)),
                Ok(None) => Ok(None),
                Err(e) => Err(perr_view(e)),
            }, final(self).st()) == optional_expression(old(self).toks(), old(self).st(), stop),
    {
        if !self.check(stop) {
            Ok(Some(self.expression()?))
        } else {
            Ok(None)
        }
    }

    /// The `while` loop that a `for` loop stands for.
    fn desugar_for(
        initializer: Option<Stmt>,
        condition: Option<Expr>,
        increment: Option<Expr>,
        body: Stmt,
        true_id: usize,
    ) -> (r: Stmt)
        ensures
            r@ == desugar_for(
                match initializer {
                    Some(s) => Some(s@),
                    None => None,
                },
                match condition {
                    Some(e) => Some(e@),
                    None => None,
                },
                match increment {
                    Some(e) => Some(e@),
                    None => None,
                },
                body@,
                true_id as nat,
            ),
    {
        let ghost bv = body@;
        let ghost iv = match &increment {
            Some(e) => Some(e@),
            None => None::<ExprView>,
        };
        let body1 = match increment {
            Some(inc) => {
                let mut statements: Vec<Stmt> = Vec::new();
                let ghost b0 = body;
                statements.push(body);
                let e = Stmt::Expression { expression: Box::new(inc) };
                statements.push(e);
                proof {
                    assert(statements@ =~= seq![b0, e]);
                    lemma_stmts_view_two(b0, e);
                }
                Stmt::Block { statements }
            },
            None => body,
        };
        assert(body1@ == match iv {
            Some(inc) => StmtView::Block { statements: seq![bv, StmtView::Expression { expression: inc }] },
            None => bv,
        });
        let condition = match condition {
            Some(c) => c,
            None => Expr::Literal { value: Literal::Bool(true), id: true_id },
        };
        let looped = Stmt::While { condition: Box::new(condition), body: Box::new(body1) };
        match initializer {
            Some(init) => {
                let mut statements: Vec<Stmt> = Vec::new();
                let ghost i0 = init;
                statements.push(init);
                let ghost l0 = looped;
                statements.push(looped);
                proof {
                    assert(statements@ =~= seq![i0, l0]);
                    lemma_stmts_view_two(i0, l0);
                }
                Stmt::Block { statements }
            },
            None => looped,
        }
    }

    /// `ifStmt → "if" "(" expression ")" statement ( "else" statement )?` (after `if`)
    fn if_statement(&mut self) -> (r: Result<Stmt, ParseError>)
        requires
            old(self).wf(),
        ensures
            final(self).stepped_from(*old(self)),
            (res_stmt(r), final(self).st()) == if_statement(old(self).toks(), old(self).st()),
            r is Ok ==> final(self).current > old(self).current,
        decreases old(self).tokens@.len() - old(self).current, 50int,
    {
        self.consume(TokenType::LeftParen, "Expect '(' after 'if'.")?;
        let condition = self.expression()?;
        self.consume(TokenType::RightParen, "Expect ')' after if condition.")?;
        let then_branch = Box::new(self.statement()?);
        let else_branch = if self.match1(TokenType::Else) {
            Some(Box::new(self.statement()?))
        } else {
            None
        };
        Ok(Stmt::If { condition: Box::new(condition), then_branch, else_branch })
    }

    /// `whileStmt → "while" "(" expression ")" statement` (after `while`)
    fn while_statement(&mut self) -> (r: Result<Stmt, ParseError>)
        requires
            old(self).wf(),
        ensures
            final(self).stepped_from(*old(self)),
            (res_stmt(r), final(self).st()) == while_statement(old(self).toks(), old(self).st()),
            r is Ok ==> final(self).current > old(self).current,
        decreases old(self).tokens@.len() - old(self).current, 49int,
    {
        self.consume(TokenType::LeftParen, "Expect '(' after 'while'.")?;
        let condition = self.expression()?;
        self.consume(TokenType::RightParen, "Expect ')' after while condition.")?;
        let body = Box::new(self.statement()?);
        Ok(Stmt::While { condition: Box::new(condition), body })
    }

    /// `exprStmt → expression ";"`
    fn expression_statement(&mut self) -> (r: Result<Stmt, ParseError>)
        requires
            old(self).wf(),
        ensures
            final(self).stepped_from(*old(self)),
            (res_stmt(r), final(self).st()) == expression_statement(old(self).toks(), old(self).st()),
            r is Ok ==> final(self).current > old(self).current,
    {
        let expr = self.expression()?;
        self.consume(TokenType::Semicolon, "Expect ';' after expression.")?;
        Ok(Stmt::Expression { expression: Box::new(expr) })
    }

    /// `block → "{" declaration* "}"` (after `{`)
    fn block(&mut self) -> (r: Result<Vec<Stmt>, ParseError>)
        requires
            old(self).wf(),
        ensures
            final(self).stepped_from(*old(self)),
            (res_stmts(r), final(self).st()) == block(old(self).toks(), old(self).st()),
            r is Ok ==> final(self).current > old(self).current,
        decreases old(self).tokens@.len() - old(self).current, 65int,
    {
        proof {
            lemma_stmts_view_empty();
        }
        let statements = self.block_items(Vec::new())?;
        self.consume(TokenType::RightBrace, "Expect '}' after block.")?;
        Ok(statements)
    }

    /// The declarations of a block, after the ones in `ss`.
    fn block_items(&mut self, ss: Vec<Stmt>) -> (r: Result<Vec<Stmt>, ParseError>)
        requires
            old(self).wf(),
        ensures
            final(self).stepped_from(*old(self)),
            (res_stmts(r), final(self).st()) == block_items(old(self).toks(), stmts_view(ss@), old(self).st()),
        decreases old(self).tokens@.len() - old(self).current, 64int,
    {
        let mut ss = ss;
        if !self.check(TokenType::RightBrace) && !self.is_at_end() {
            let d = self.declaration()?;
            let ghost before = ss@;
            ss.push(d);
            proof {
                lemma_stmts_view_push(before, d);
            }
            return self.block_items(ss);
        }
        Ok(ss)
    }

    /// `printStmt → "print" expression ";"` (after `print`)
    fn print_statement(&mut self) -> (r: Result<Stmt, ParseError>)
        requires
            old(self).wf(),
        ensures
            final(self).stepped_from(*old(self)),
            (res_stmt(r), final(self).st()) == print_statement(old(self).toks(), old(self).st()),
            r is Ok ==> final(self).current > old(self).current,
    {
        let value = self.expression()?;
        self.consume(TokenType::Semicolon, "Expect ';' after value.")?;
        Ok(Stmt::Print { expression: Box::new(value) })
    }

    // -- Programs -----------------------------------------------------------

    proof fn lemma_sync_from(t: Seq<TokenView>, p: int)
        requires
            0 <= p <= t.len(),
        ensures
            p <= sync_from(t, p) <= t.len(),
            sync_from(t, p) < t.len() ==> sync_from(t, p) == p || !is_at_end(t, p),
            has_eof_from(t, p) ==> sync_from(t, p) < t.len() && has_eof_from(t, sync_from(t, p)),
        decreases t.len() - p,
    {
        if 0 <= p < t.len() && !is_at_end(t, p) && !(p >= 1 && t[p - 1].token_type == TokenType::Semicolon)
            && !starts_statement(t[p].token_type) {
            Self::lemma_sync_from(t, p + 1);
            if has_eof_from(t, p) {
                let k = choose|k: int| p <= k < t.len() && #[trigger] t[k].token_type == TokenType::Eof;
                assert(k != p);
                assert(has_eof_from(t, p + 1));
            }
        } else if has_eof_from(t, p) && p >= t.len() {
            let k = choose|k: int| p <= k < t.len() && #[trigger] t[k].token_type == TokenType::Eof;
        }
    }

    /// Error recovery: drops the current token, then skips tokens up to a
    /// statement boundary.
    fn synchronize(&mut self)
        requires
            old(self).wf(),
        ensures
            final(self).wf(),
            final(self).current == synchronize(old(self).toks(), old(self).current as int),
            final(self).tokens == old(self).tokens,
            final(self).errors == old(self).errors,
            final(self).expr_id_counter == old(self).expr_id_counter,
    {
        let ghost t = self.toks();
        self.advance();
        let ghost target = sync_from(t, self.current as int);
        proof {
            Self::lemma_sync_from(t, self.current as int);
        }
        while !self.is_at_end()
            invariant
                self.wf(),
                self.toks() == t,
                self.tokens == old(self).tokens,
                self.errors == old(self).errors,
                self.expr_id_counter == old(self).expr_id_counter,
                is_at_end(t, self.current as int) || self.current >= 1,
                sync_from(t, self.current as int) == target,
                target == synchronize(t, old(self).current as int),
            decreases t.len() - self.current,
        {
            if self.previous_token().token_type() == TokenType::Semicolon {
                return;
            }
            match self.peek_type() {
                TokenType::Class | TokenType::Fun | TokenType::Var | TokenType::For | TokenType::If
                | TokenType::While | TokenType::Print | TokenType::Return => {
                    return;
                },
                _ => {},
            }
            self.advance();
        }
    }

    /// Parses declarations up to the end of the tokens, recovering after
    /// each error. Returns the declarations, or every error recorded so far.
    pub fn parse(&mut self) -> (r: Result<Vec<Stmt>, Vec<ParseError>>)
        requires
            old(self).wf(),
        ensures
            final(self).wf(),
            final(self).toks() == old(self).toks(),
            ({
                let (res, all, st) = program(old(self).toks(), old(self).errs(), old(self).st());
                &&& final(self).errs() == all
                &&& final(self).st() == st
                &&& match r {
                    Ok(v) => res == Ok::<Seq<StmtView>, Seq<ParseErrorView>>(stmts_view(v@)),
                    Err(v) => res == Err::<Seq<StmtView>, Seq<ParseErrorView>>(perrs_view(v@)),
                }
            }),
    {
        let ghost t = self.toks();
        let ghost st0 = self.st();
        let ghost errs0 = self.errs();
        let ghost total = declarations(t, Seq::empty(), Seq::empty(), st0);
        let mut statements: Vec<Stmt> = Vec::new();
        let ghost mut new_errs: Seq<ParseErrorView> = Seq::empty();
        proof {
            lemma_stmts_view_empty();
        }
        while !self.is_at_end()
            invariant
                self.wf(),
                self.toks() == t,
                self.errs() == errs0 + new_errs,
                declarations(t, stmts_view(statements@), new_errs, self.st()) == total,
            decreases t.len() - self.current,
        {
            let ghost st_before = self.st();
            let ghost errors_before = self.errors@;
            match self.declaration() {
                Ok(stmt) => {
                    let ghost before = statements@;
                    statements.push(stmt);
                    proof {
                        lemma_stmts_view_push(before, stmt);
                    }
                },
                Err(err) => {
                    let ghost ev = perr_view(err);
                    let ghost st1 = self.st();
                    self.errors.push(err);
                    proof {
                        assert(perrs_view(self.errors@) =~= perrs_view(errors_before).push(ev));
                        assert(errs0 + new_errs.push(ev) =~= (errs0 + new_errs).push(ev));
                        new_errs = new_errs.push(ev);
                        Self::lemma_sync_from(t, advance(t, st1.pos));
                    }
                    self.synchronize();
                },
            }
        }
        proof {
            assert(total == (stmts_view(statements@), new_errs, self.st()));
        }
        if self.errors.len() == 0 {
            proof {
                assert(perrs_view(self.errors@).len() == 0);
            }
            Ok(statements)
        } else {
            let mut all: Vec<ParseError> = Vec::new();
            let mut i: usize = 0;
            while i < self.errors.len()
                invariant
                    i <= self.errors@.len(),
                    perrs_view(all@) == perrs_view(self.errors@).subrange(0, i as int),
                decreases self.errors@.len() - i,
            {
                let e = self.errors[i].clone();
                let ghost before = all@;
                assert(perr_view(e) == perr_view(self.errors@[i as int]));
                all.push(e);
                assert(all@ == before.push(e));
                assert(perrs_view(all@) =~= perrs_view(before).push(perr_view(e)));
                assert(perrs_view(self.errors@).subrange(0, i + 1) =~= perrs_view(self.errors@).subrange(
                    0,
                    i as int,
                ).push(perr_view(self.errors@[i as int])));
                i = i + 1;
            }
            assert(perrs_view(self.errors@).subrange(0, i as int) =~= perrs_view(self.errors@));
            Err(all)
        }
    }

    /// Parses a line typed at the prompt: a lone expression (maybe followed
    /// by `;`) becomes a print statement; anything else is parsed as a
    /// program from the same position.
    pub fn parse_prompt_line(&mut self) -> (r: Result<Vec<Stmt>, Vec<ParseError>>)
        requires
            old(self).wf(),
            old(self).room_to_retry(),
        ensures
            final(self).wf(),
            final(self).toks() == old(self).toks(),
            ({
                let (res, all, st) = prompt_line(old(self).toks(), old(self).errs(), old(self).st());
                &&& final(self).errs() == all
                &&& final(self).st() == st
                &&& match r {
                    Ok(v) => res == Ok::<Seq<StmtView>, Seq<ParseErrorView>>(stmts_view(v@)),
                    Err(v) => res == Err::<Seq<StmtView>, Seq<ParseErrorView>>(perrs_view(v@)),
                }
            }),
    {
        let checkpoint = self.current;
        match self.expression() {
            Ok(expr) => {
                if self.check(TokenType::Semicolon) {
                    self.advance();
                }
                if self.is_at_end() {
                    let mut v: Vec<Stmt> = Vec::new();
                    let s = Stmt::Print { expression: Box::new(expr) };
                    v.push(s);
                    proof {
                        assert(v@ =~= Seq::<Stmt>::empty().push(s));
                        lemma_stmts_view_push(Seq::<Stmt>::empty(), s);
                        lemma_stmts_view_empty();
                    }
                    return Ok(v);
                }
            },
            Err(_) => {},
        }
        self.current = checkpoint;
        self.parse()
    }
}

} // verus!
