use vstd::prelude::*;

use crate::ast::{stmts_view, Stmt, StmtView};
use crate::lexer::{law_tokens_end_with_eof, lex_errors_view, scan_source, scan_source_errors, LexErrorView, Lexer};
use crate::parser::{has_eof_from, perrs_view, ParseError, Parser};
use crate::parser_spec::{at, program, prompt_line, ParseErrorView};
use crate::resolver::{initial_resolver, rerrs_view, resolve_stmts_from, ResolveError, ResolveErrorView, Resolver, Rules};
use crate::text::{append_str, decimal, str_to_string, usize_to_string};
use crate::token::{tokens_view, LexError, Token, TokenType, TokenView};
use std::collections::HashMap;

verus! {

/// Where an error was found, as a report shows it: " at end" for the end of
/// the input, else " at '" and the token's text and "'".
pub open spec fn location(t: TokenView) -> Seq<char> {
    if t.token_type == TokenType::Eof {
        " at end"@
    } else {
        " at '"@ + t.lexeme + "'"@
    }
}

/// A report line: "[line N] Error" then where, ": " and the message.
pub open spec fn report_text(line: nat, where_: Seq<char>, message: Seq<char>) -> Seq<char> {
    "[line "@ + decimal(line) + "] Error"@ + where_ + ": "@ + message
}

pub open spec fn lex_report(e: LexErrorView) -> Seq<char> {
    report_text(e.line, Seq::empty(), e.message)
}

pub open spec fn parse_report(e: ParseErrorView) -> Seq<char> {
    report_text(e.token.line, location(e.token), e.message)
}

pub open spec fn resolve_report(e: ResolveErrorView) -> Seq<char> {
    report_text(e.token.line, location(e.token), e.message)
}

/// The text of where an error was found at a token.
pub fn error_location(token: &Token) -> (r: String)
    ensures
        r@ == location(token@),
{
    if token.token_type() == TokenType::Eof {
        str_to_string(" at end")
    } else {
        let mut r = str_to_string(" at '");
        append_str(&mut r, token.lexeme());
        append_str(&mut r, "'");
        r
    }
}

/// A report line for an error.
pub fn format_report(line: usize, where_: &str, message: &str) -> (r: String)
    ensures
        r@ == report_text(line as nat, where_@, message@),
{
    let mut r = str_to_string("[line ");
    let n = usize_to_string(line);
    append_str(&mut r, n.as_str());
    append_str(&mut r, "] Error");
    append_str(&mut r, where_);
    append_str(&mut r, ": ");
    append_str(&mut r, message);
    r
}

pub fn lex_error_report(error: &LexError) -> (r: String)
    ensures
        r@ == lex_report(crate::lexer::lex_error_view(*error)),
{
    proof {
        reveal_strlit("");
    }
    format_report(error.line, "", error.message.as_str())
}

pub fn parse_error_report(error: &ParseError) -> (r: String)
    ensures
        r@ == parse_report(crate::parser::perr_view(*error)),
{
    let where_ = error_location(&error.token);
    format_report(error.token.line(), where_.as_str(), error.message.as_str())
}

pub fn resolve_error_report(error: &ResolveError) -> (r: String)
    ensures
        r@ == resolve_report(crate::resolver::rerr_view(*error)),
{
    let where_ = error_location(&error.token);
    format_report(error.token.line(), where_.as_str(), error.message.as_str())
}

/// The statements that parsing the tokens gives, in a script or at the
/// prompt.
pub open spec fn parsed(t: Seq<TokenView>, prompt: bool) -> Result<Seq<StmtView>, Seq<ParseErrorView>> {
    if prompt {
        prompt_line(t, Seq::empty(), at(0, 0)).0
    } else {
        program(t, Seq::empty(), at(0, 0)).0
    }
}

/// A resolution error as the interpreter reports it: without the place.
pub open spec fn plain_resolve_report(e: ResolveErrorView) -> Seq<char> {
    report_text(e.token.line, Seq::empty(), e.message)
}

/// What resolution reports: by the compiler's rules every error, with its
/// place; by the interpreter's rules the first error alone, without it.
pub open spec fn resolution_reports(ss: Seq<StmtView>, rules: Rules) -> Seq<Seq<char>> {
    let errors = resolve_stmts_from(initial_resolver(rules), ss, 0).errors;
    if rules == Rules::Compiler {
        errors.map_values(|e: ResolveErrorView| resolve_report(e))
    } else if errors.len() > 0 {
        seq![plain_resolve_report(errors[0])]
    } else {
        Seq::empty()
    }
}

/// What the front end reports for a source text, phase by phase: the errors
/// of the first phase that finds any.
pub open spec fn front_end_reports(src: Seq<char>, prompt: bool, rules: Rules) -> Seq<Seq<char>> {
    let lex_errors = scan_source_errors(src);
    if lex_errors.len() > 0 {
        lex_errors.map_values(|e: LexErrorView| lex_report(e))
    } else {
        match parsed(scan_source(src), prompt) {
            Err(es) => es.map_values(|e: ParseErrorView| parse_report(e)),
            Ok(ss) => resolution_reports(ss, rules),
        }
    }
}

/// What the front end hands on to the back end: the statements and the
/// depth of each resolved expression.
pub struct Program {
    pub statements: Vec<Stmt>,
    pub locals: HashMap<usize, usize>,
}

/// The front end, as run on a script or on each line typed at the prompt,
/// by the compiler's or the interpreter's rules.
pub struct Lox {
    had_error: bool,
    prompt: bool,
    rules: Rules,
}

impl Lox {
    pub closed spec fn had_error_spec(&self) -> bool {
        self.had_error
    }

    pub closed spec fn prompt_spec(&self) -> bool {
        self.prompt
    }

    pub closed spec fn rules_spec(&self) -> Rules {
        self.rules
    }

    /// The compiler's front end.
    pub fn new() -> (r: Lox)
        ensures
            !r.had_error_spec(),
            !r.prompt_spec(),
            r.rules_spec() == Rules::Compiler,
    {
        Lox::with_rules(Rules::Compiler)
    }

    /// A front end by the given rules.
    pub fn with_rules(rules: Rules) -> (r: Lox)
        ensures
            !r.had_error_spec(),
            !r.prompt_spec(),
            r.rules_spec() == rules,
    {
        Lox { had_error: false, prompt: false, rules }
    }

    /// Whether an error has been reported since the last reset.
    pub fn had_error(&self) -> (r: bool)
        ensures
            r == self.had_error_spec(),
    {
        self.had_error
    }

    /// Chooses between a script (parsed as a whole program) and the prompt
    /// (where a lone expression is printed).
    pub fn set_prompt(&mut self, prompt: bool)
        ensures
            final(self).prompt_spec() == prompt,
            final(self).had_error_spec() == old(self).had_error_spec(),
            final(self).rules_spec() == old(self).rules_spec(),
    {
        self.prompt = prompt;
    }

    /// Forgets the errors reported so far (after each line at the prompt).
    pub fn clear_error(&mut self)
        ensures
            !final(self).had_error_spec(),
            final(self).prompt_spec() == old(self).prompt_spec(),
            final(self).rules_spec() == old(self).rules_spec(),
    {
        self.had_error = false;
    }

    /// Scans, parses and resolves a source text. Returns the report lines of
    /// the first phase that found errors, for the caller to print, and the
    /// program when every phase passed.
    pub fn run(&mut self, source: &str) -> (r: (Vec<String>, Option<Program>))
        requires
            source@.len() + 2 < usize::MAX,
            old(self).prompt_spec() ==> 2 * (source@.len() + 1) <= usize::MAX,
        ensures
            r.0@.map_values(|s: String| s@) == front_end_reports(source@, old(self).prompt_spec(), old(self).rules_spec()),
            final(self).had_error_spec() == (old(self).had_error_spec() || r.0@.len() > 0),
            final(self).prompt_spec() == old(self).prompt_spec(),
            final(self).rules_spec() == old(self).rules_spec(),
            match r.1 {
                Some(p) => r.0@.len() == 0 && parsed(scan_source(source@), old(self).prompt_spec()) == Ok::<
                    Seq<StmtView>,
                    Seq<ParseErrorView>,
                >(stmts_view(p.statements@)) && p.locals@ == resolve_stmts_from(
                    initial_resolver(old(self).rules_spec()),
                    stmts_view(p.statements@),
                    0,
                ).locals,
                None => r.0@.len() > 0,
            },
    {
        let mut lexer = Lexer::new(str_to_string(source));
        let (tokens, lex_errors) = lexer.scan_tokens();
        proof {
            law_tokens_end_with_eof(source@);
            assert(tokens_view(tokens@) =~= scan_source(source@));
        }
        if lex_errors.len() > 0 {
            let mut reports: Vec<String> = Vec::new();
            let mut i: usize = 0;
            while i < lex_errors.len()
                invariant
                    i <= lex_errors@.len(),
                    reports@.len() == i,
                    lex_errors_view(lex_errors@) == scan_source_errors(source@),
                    forall|k: int| 0 <= k < i ==> (#[trigger] reports@[k])@ == lex_report(
                        crate::lexer::lex_error_view(lex_errors@[k]),
                    ),
                decreases lex_errors@.len() - i,
            {
                reports.push(lex_error_report(&lex_errors[i]));
                i = i + 1;
            }
            assert(reports@.map_values(|s: String| s@) =~= front_end_reports(source@, self.prompt, self.rules));
            self.had_error = true;
            return (reports, None);
        }
        assert(scan_source_errors(source@) =~= Seq::<LexErrorView>::empty());
        let ghost t = tokens_view(tokens@);
        assert(has_eof_from(t, 0)) by {
            assert(t[t.len() - 1].token_type == TokenType::Eof);
        }
        let mut parser = Parser::new(tokens);
        let parsed_result = if self.prompt {
            parser.parse_prompt_line()
        } else {
            parser.parse()
        };
        let statements = match parsed_result {
            Ok(statements) => statements,
            Err(parse_errors) => {
                let mut reports: Vec<String> = Vec::new();
                let mut i: usize = 0;
                while i < parse_errors.len()
                    invariant
                        i <= parse_errors@.len(),
                        reports@.len() == i,
                        forall|k: int| 0 <= k < i ==> (#[trigger] reports@[k])@ == parse_report(
                            crate::parser::perr_view(parse_errors@[k]),
                        ),
                    decreases parse_errors@.len() - i,
                {
                    reports.push(parse_error_report(&parse_errors[i]));
                    i = i + 1;
                }
                assert(reports@.map_values(|s: String| s@) =~= perrs_view(parse_errors@).map_values(
                    |e: ParseErrorView| parse_report(e),
                ));
                self.had_error = true;
                return (reports, None);
            },
        };
        let mut resolver = Resolver::with_rules(self.rules);
        if self.rules == Rules::Compiler {
            match resolver.resolve(&statements) {
                Ok(()) => {
                    let locals = resolver.locals().clone();
                    let reports: Vec<String> = Vec::new();
                    assert(reports@.map_values(|s: String| s@) =~= front_end_reports(source@, self.prompt, self.rules));
                    (reports, Some(Program { statements, locals }))
                },
                Err(errors) => {
                    let mut reports: Vec<String> = Vec::new();
                    let mut i: usize = 0;
                    while i < errors.len()
                        invariant
                            i <= errors@.len(),
                            reports@.len() == i,
                            forall|k: int| 0 <= k < i ==> (#[trigger] reports@[k])@ == resolve_report(
                                crate::resolver::rerr_view(errors@[k]),
                            ),
                        decreases errors@.len() - i,
                    {
                        reports.push(resolve_error_report(&errors[i]));
                        i = i + 1;
                    }
                    assert(reports@.map_values(|s: String| s@) =~= rerrs_view(errors@).map_values(
                        |e: ResolveErrorView| resolve_report(e),
                    ));
                    self.had_error = true;
                    (reports, None)
                },
            }
        } else {
            match resolver.resolve_first(&statements) {
                Ok(()) => {
                    let locals = resolver.locals().clone();
                    let reports: Vec<String> = Vec::new();
                    assert(reports@.map_values(|s: String| s@) =~= front_end_reports(source@, self.prompt, self.rules));
                    (reports, Some(Program { statements, locals }))
                },
                Err(error) => {
                    let mut reports: Vec<String> = Vec::new();
                    reports.push(format_report(error.token.line(), "", error.message.as_str()));
                    proof {
                        reveal_strlit("");
                    }
                    assert(reports@.map_values(|s: String| s@) =~= front_end_reports(source@, self.prompt, self.rules));
                    self.had_error = true;
                    (reports, None)
                },
            }
        }
    }
}

} // verus!
