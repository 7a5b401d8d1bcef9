use vstd::prelude::*;

verus! {

/// The kinds of lexical tokens of Lox.
#[derive(Debug, Clone, Copy, PartialEq, Eq, Hash, Structural)]
pub enum TokenType {
    // Single-character tokens.
    LeftParen,
    RightParen,
    LeftBrace,
    RightBrace,
    Comma,
    Dot,
    Minus,
    Plus,
    Semicolon,
    Slash,
    Star,
    Question,
    Colon,
    // One or two character tokens.
    Bang,
    BangEqual,
    Equal,
    EqualEqual,
    Greater,
    GreaterEqual,
    Less,
    LessEqual,
    // Literals.
    Identifier,
    String,
    Number,
    // Keywords.
    And,
    Class,
    Else,
    False,
    Fun,
    For,
    If,
    Nil,
    Or,
    Print,
    Return,
    Super,
    This,
    True,
    Var,
    While,
    Eof,
}

/// A literal value carried by a token or an expression.
///
/// A number is kept as its decimal source text (digits, optionally followed by
/// a dot and more digits); turning it into a machine number is left to the
/// back ends.
#[derive(Debug, Hash, PartialEq, Eq)]
pub enum Literal {
    Bool(bool),
    String(String),
    Number(String),
    Nil,
}

/// The mathematical model of a [`Literal`].
pub enum LiteralView {
    Bool(bool),
    String(Seq<char>),
    Number(Seq<char>),
    Nil,
}

impl View for Literal {
    type V = LiteralView;

    open spec fn view(&self) -> LiteralView {
        match self {
            Literal::Bool(b) => LiteralView::Bool(*b),
            Literal::String(s) => LiteralView::String(s@),
            Literal::Number(s) => LiteralView::Number(s@),
            Literal::Nil => LiteralView::Nil,
        }
    }
}

/// A lexical token: its kind, the source text it was scanned from, the
/// literal value it denotes (if any) and the line it ends on. Two tokens are
/// equal, and hash alike, when their kind, text and line are; the literal is
/// left out.
#[derive(Debug)]
pub struct Token {
    token_type: TokenType,
    lexeme: String,
    literal: Option<Literal>,
    line: usize,
}

/// The mathematical model of a [`Token`].
pub struct TokenView {
    pub token_type: TokenType,
    pub lexeme: Seq<char>,
    pub literal: Option<LiteralView>,
    pub line: nat,
}

pub open spec fn literal_opt_view(l: Option<Literal>) -> Option<LiteralView> {
    match l {
        Some(x) => Some(x@),
        None => None,
    }
}

impl View for Token {
    type V = TokenView;

    closed spec fn view(&self) -> TokenView {
        TokenView {
            token_type: self.token_type,
            lexeme: self.lexeme@,
            literal: literal_opt_view(self.literal),
            line: self.line as nat,
        }
    }
}

/// The views of a sequence of tokens.
pub open spec fn tokens_view(ts: Seq<Token>) -> Seq<TokenView> {
    ts.map_values(|t: Token| t@)
}

/// Two tokens are equal when they have the same kind, text and line; the
/// literal is not compared.
pub open spec fn token_eq(a: TokenView, b: TokenView) -> bool {
    a.token_type == b.token_type && a.lexeme == b.lexeme && a.line == b.line
}

impl Clone for Literal {
    fn clone(&self) -> (r: Literal)
        ensures
            r@ == self@,
    {
        match self {
            Literal::Bool(b) => Literal::Bool(*b),
            Literal::String(s) => Literal::String(s.clone()),
            Literal::Number(s) => Literal::Number(s.clone()),
            Literal::Nil => Literal::Nil,
        }
    }
}

impl Clone for Token {
    fn clone(&self) -> (r: Token)
        ensures
            r@ == self@,
    {
        let literal = match &self.literal {
            Some(l) => Some(l.clone()),
            None => None,
        };
        Token { token_type: self.token_type, lexeme: self.lexeme.clone(), literal, line: self.line }
    }
}

impl PartialEq for Token {
    fn eq(&self, other: &Self) -> (res: bool) {
        self.token_type == other.token_type && self.lexeme == other.lexeme && self.line == other.line
    }
}

impl vstd::std_specs::cmp::PartialEqSpecImpl for Token {
    open spec fn obeys_eq_spec() -> bool {
        true
    }

    open spec fn eq_spec(&self, other: &Token) -> bool {
        token_eq(self@, other@)
    }
}

impl Eq for Token {

}

impl std::hash::Hash for Token {
    /// Hashes the kind, text and line, through the `Hash` of the tuple of
    /// the three. Nothing is claimed of the hasher's state.
    #[verifier::external_body]
    fn hash<H: std::hash::Hasher>(&self, state: &mut H) {
        (self.token_type, &self.lexeme, self.line).hash(state);
    }
}

impl Token {
    /// Makes a token from its parts.
    pub fn new(token_type: TokenType, lexeme: String, literal: Option<Literal>, line: usize) -> (t: Token)
        ensures
            t@ == (TokenView {
                token_type,
                lexeme: lexeme@,
                literal: literal_opt_view(literal),
                line: line as nat,
            }),
    {
        Token { token_type, lexeme, literal, line }
    }

    /// An identifier token with the given name, on line 0, without literal.
    pub fn identifier(name: &str) -> (t: Token)
        ensures
            t@ == (TokenView {
                token_type: TokenType::Identifier,
                lexeme: name@,
                literal: None,
                line: 0,
            }),
    {
        Token::new(TokenType::Identifier, crate::text::str_to_string(name), None, 0)
    }

    pub fn token_type(&self) -> (r: TokenType)
        ensures
            r == self@.token_type,
    {
        self.token_type
    }

    pub fn lexeme(&self) -> (r: &str)
        ensures
            r@ == self@.lexeme,
    {
        self.lexeme.as_str()
    }

    pub fn literal(&self) -> (r: Option<&Literal>)
        ensures
            match r {
                Some(l) => self@.literal == Some(l@),
                None => self@.literal is None,
            },
    {
        match &self.literal {
            Some(l) => Some(l),
            None => None,
        }
    }

    pub fn line(&self) -> (r: usize)
        ensures
            r == self@.line,
    {
        self.line
    }
}

/// An error found while scanning: the line and a message.
#[derive(Debug)]
pub struct LexError {
    pub line: usize,
    pub message: String,
}

} // verus!
