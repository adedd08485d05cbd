//! The parser: a Pratt parser that reads tokens from the lexer as it needs
//! them, one token ahead, and stops at the first error.
//!
//! Every parsing function starts with the current token at the first token
//! of what it parses and ends, where it succeeds, with the current token at
//! the last one. Where it fails, the error that is held is the one that
//! the grammar names, and nothing is reported after it: what a parse
//! gives, with or without an error, is a function of the tokens.

use crate::ast::{
    exprs_view, params_syntax, stmts_view, BlockStmt, Expr, ExprType, ExprView, Identifier, Infix,
    Literal, ParamSyntax, Postfix, Precedence, Prefix, Program, Stmt, StmtView,
};
use crate::grammar::{
    alternative_at, block_at, block_rest, expect_next, expr_at, expr_list_at, fail_message,
    first_at, for_at, func_at, if_at, infix_loop, infix_of, lemma_rejection_step, lemma_rest_step,
    lemma_stream_unfold, let_at, list_rest, moves, operator_at, params_at, params_rest,
    precedence_of, program_from, program_of, rejection, rest, return_at, stmt_at, tok,
    token_stream, type_at, Fail, Found,
};
use crate::lexer::{lemma_lex_advances, Lexer};
use crate::parser_error::{
    assignment_message, expected_message, identifier_message, reported, type_annot_message,
    unexpected_message, ParserError, ParserErrorHandler, ParserErrorKind, ParserErrorView,
};
use crate::text::{join, owned};
use crate::token::{Token, TokenView};
use std::rc::Rc;
use vstd::prelude::*;

verus! {

/// The model of an expression that may be missing.
pub open spec fn some_expr(r: Option<Expr>) -> Option<ExprView> {
    match r {
        Some(e) => Some(e@),
        None => None,
    }
}

/// The model of a statement that may be missing.
pub open spec fn some_stmt(r: Option<Stmt>) -> Option<StmtView> {
    match r {
        Some(s) => Some(s@),
        None => None,
    }
}

/// The models of expressions that may be missing.
pub open spec fn some_exprs(r: Option<Vec<Expr>>) -> Option<Seq<ExprView>> {
    match r {
        Some(list) => Some(exprs_view(list@)),
        None => None,
    }
}

/// The models of statements that may be missing.
pub open spec fn some_stmts(r: Option<Vec<Stmt>>) -> Option<Seq<StmtView>> {
    match r {
        Some(list) => Some(stmts_view(list@)),
        None => None,
    }
}

/// The models of parameters that may be missing.
pub open spec fn some_params(r: Option<Vec<(Identifier, ExprType)>>) -> Option<Seq<ParamSyntax>> {
    match r {
        Some(list) => Some(params_syntax(list@)),
        None => None,
    }
}

/// Whether a parsing function did what the grammar says. It went from the
/// state `before` to the state `after` and returned `got`; `expected` is
/// what the grammar finds at the token that was the current one.
///
/// Where the grammar finds something, the function returns it without an
/// error, and the current token is then the last one of what was found.
/// Where the grammar finds nothing, the function returns nothing and the
/// error that is held says why. With an error held before, the function
/// returns nothing.
pub open spec fn parsed<'a, T>(
    before: &Parser<'a>,
    after: &Parser<'a>,
    expected: Found<T>,
    got: Option<T>,
) -> bool {
    &&& after.follows(before)
    &&& before.error() is Some ==> got is None
    &&& before.error() is None ==> match expected {
        Ok((value, count)) => {
            &&& got == Some(value)
            &&& after.error() is None
            &&& after.at() == before.at() + count
            &&& !(after.current() is Eof)
        },
        Err(fail) => got is None && after.error() == before.blamed(fail),
    }
}

/// The parser's state: the lexer, the current token, the token after it,
/// and the slot for the first error.
pub struct Parser<'a> {
    l: Lexer<'a>,
    curr_token: Token,
    next_token: Token,
    error_handler: ParserErrorHandler,
    at: Ghost<nat>,
    origin: Ghost<int>,
}

impl<'a> Parser<'a> {
    /// The source text.
    pub closed spec fn source(&self) -> Seq<char> {
        self.l.source()
    }

    /// The tokens that the parser is to read: those of the source from
    /// where the lexer stood when the parser was made.
    pub closed spec fn tokens(&self) -> Seq<Option<TokenView>> {
        token_stream(self.l.source(), self.origin@)
    }

    /// The number of the current token.
    pub closed spec fn at(&self) -> nat {
        self.at@
    }

    /// The current token.
    pub closed spec fn current(&self) -> TokenView {
        self.curr_token@
    }

    /// The token after the current one.
    pub closed spec fn following(&self) -> TokenView {
        self.next_token@
    }

    /// The error that is held, if any.
    pub closed spec fn error(&self) -> Option<ParserErrorView> {
        self.error_handler@
    }

    /// The message of the text that the lexer rejects first among what the
    /// parser is to read.
    pub closed spec fn rejected(&self) -> Seq<char> {
        rejection(self.l.source(), self.origin@)
    }

    /// The error that says why the grammar finds nothing.
    pub open spec fn blamed(&self, fail: Fail) -> Option<ParserErrorView> {
        reported(fail_message(self.rejected(), fail))
    }

    /// The state is consistent: the lexer is, and as long as no error is
    /// held, the two tokens at hand are the current token and the one
    /// after it, and the lexer stands before the token after those.
    #[verifier::opaque]
    pub closed spec fn wf(&self) -> bool {
        &&& self.l.wf()
        &&& 0 <= self.origin@ <= self.l.source().len()
        &&& 0 <= self.l.position() <= self.l.source().len()
        &&& self.error_handler@ is None ==> {
            &&& tok(self.tokens(), self.at@) == Some(self.curr_token@)
            &&& tok(self.tokens(), self.at@ + 1) == Some(self.next_token@)
            &&& rest(self.tokens(), self.at@ + 2) == token_stream(
                self.l.source(),
                self.l.position(),
            )
            &&& rejection(self.l.source(), self.origin@) == rejection(
                self.l.source(),
                self.l.position(),
            )
            &&& forall|k: int|
                0 <= k < self.tokens().len() && k < self.at@ + 2 ==> (#[trigger] self.tokens()[k]) is Some
        }
    }

    /// In a consistent state without an error, the current token and the
    /// one after it are those of the source at the parser's place.
    pub proof fn lemma_tokens_at_hand(&self)
        requires
            self.wf(),
            self.error() is None,
        ensures
            self.at_hand(),
    {
        reveal(Parser::wf);
    }

    /// Whether the two tokens at hand are those of the source at the
    /// parser's place: the current token and the one after it.
    pub open spec fn at_hand(&self) -> bool {
        &&& tok(self.tokens(), self.at()) == Some(self.current())
        &&& tok(self.tokens(), self.at() + 1) == Some(self.following())
    }

    /// How much is left to read: the characters that the lexer has not
    /// read, and the two tokens at hand where they are not the end of the
    /// input.
    pub closed spec fn measure(&self) -> nat {
        (self.l.source().len() - self.l.position() + if self.next_token@ is Eof {
            0int
        } else {
            1int
        } + if self.curr_token@ is Eof {
            0int
        } else {
            1int
        }) as nat
    }

    /// Whether the state comes after the state `before` in a parse of the
    /// same tokens: nothing is read again, and an error that was held is
    /// still held.
    pub open spec fn follows(&self, before: &Self) -> bool {
        &&& self.wf()
        &&& self.source() == before.source()
        &&& self.tokens() == before.tokens()
        &&& self.rejected() == before.rejected()
        &&& self.measure() <= before.measure()
        &&& before.error() is Some ==> self.error() == before.error()
        &&& self.error() is None ==> self.at_hand()
    }

    /// A parser on the tokens that `l` has not read yet, with the first of
    /// them as the current one. An error is held exactly where the lexer
    /// rejects one of the first two, and it is the lexer's.
    pub fn new(l: Lexer<'a>) -> (p: Self)
        requires
            l.wf(),
        ensures
            p.wf(),
            p.source() == l.source(),
            p.tokens() == token_stream(l.source(), l.position()),
            p.rejected() == rejection(l.source(), l.position()),
            p.at() == 0,
            p.error() is None ==> p.at_hand(),
            p.error() is None <==> tok(p.tokens(), 0) is Some && tok(p.tokens(), 1) is Some,
            p.error() is Some ==> p.error() == p.blamed(Fail::Rejected),
    {
        reveal(Parser::wf);
        proof {
            l.lemma_position_bound();
        }
        let ghost origin = l.position();
        let ghost ts = token_stream(l.source(), origin);
        let mut l = l;
        let mut error_handler = ParserErrorHandler::new();
        proof {
            lemma_stream_unfold(l.source(), origin);
            assert(ts.skip(0) =~= ts);
            lemma_rest_step(l.source(), ts, 0, l.position());
            lemma_rejection_step(l.source(), l.position());
        }
        let first = match l.next_token() {
            Ok(token) => token,
            Err(msg) => {
                error_handler.set_error(ParserErrorKind::SyntaxError, msg);
                proof {
                    l.lemma_position_bound();
                    assert(ts[0] is None);
                }
                return Parser {
                    l,
                    curr_token: Token::Eof,
                    next_token: Token::Eof,
                    error_handler,
                    at: Ghost(0),
                    origin: Ghost(origin),
                };
            },
        };
        proof {
            l.lemma_position_bound();
            lemma_rest_step(l.source(), ts, 1, l.position());
            lemma_rejection_step(l.source(), l.position());
        }
        let second = match l.next_token() {
            Ok(token) => token,
            Err(msg) => {
                error_handler.set_error(ParserErrorKind::SyntaxError, msg);
                proof {
                    l.lemma_position_bound();
                    assert(ts[1] is None);
                }
                return Parser {
                    l,
                    curr_token: first,
                    next_token: Token::Eof,
                    error_handler,
                    at: Ghost(0),
                    origin: Ghost(origin),
                };
            },
        };
        proof {
            l.lemma_position_bound();
        }
        Parser {
            l,
            curr_token: first,
            next_token: second,
            error_handler,
            at: Ghost(0),
            origin: Ghost(origin),
        }
    }

    /// Moves one token on: the token after the current one becomes the
    /// current one, and the lexer gives the next. Where the lexer rejects
    /// the text, its error is recorded and the tokens stay.
    fn bump(&mut self)
        requires
            old(self).wf(),
        ensures
            final(self).follows(old(self)),
            final(self).error() is None ==> final(self).curr_token@ == old(self).next_token@
                && final(self).at() == old(self).at() + 1,
            final(self).error() is None && !(old(self).curr_token@ is Eof) ==> final(self).measure() < old(self).measure(),
            old(self).error() is None ==> (final(self).error() is None <==> moves(
                old(self).tokens(),
                old(self).at(),
            )),
            old(self).error() is None && final(self).error() is Some ==> final(self).error()
                == old(self).blamed(Fail::Rejected),
    {
        reveal(Parser::wf);
        proof {
            self.l.lemma_position_bound();
            lemma_lex_advances(self.l.source(), self.l.position());
            if self.error_handler@ is None {
                lemma_rest_step(self.l.source(), self.tokens(), self.at@ + 2, self.l.position());
                lemma_rejection_step(self.l.source(), self.l.position());
            }
        }
        let ghost ts = self.tokens();
        let next_token = self.l.next_token();
        proof {
            self.l.lemma_position_bound();
        }
        match next_token {
            Err(msg) => {
                if !self.error_handler.has_error() {
                    self.error_handler.set_error(ParserErrorKind::SyntaxError, msg);
                }
                proof {
                    if old(self).error() is None {
                        assert(ts[old(self).at@ as int + 2] is None);
                    }
                }
            },
            Ok(token) => {
                let mut token = token;
                std::mem::swap(&mut self.next_token, &mut token);
                self.curr_token = token;
                self.at = Ghost((self.at@ + 1) as nat);
            },
        }
    }

    /// Records a syntax error with the message `msg`, unless an error is
    /// held already: the first error stays.
    fn note_error(&mut self, msg: String)
        requires
            old(self).wf(),
        ensures
            final(self).follows(old(self)),
            final(self).error() is Some,
            old(self).error() is None ==> final(self).error() == reported(msg@),
    {
        reveal(Parser::wf);
        if !self.error_handler.has_error() {
            self.error_handler.set_error(ParserErrorKind::SyntaxError, msg);
        }
    }

    /// Reports that the current token stands where a name is expected.
    fn note_identifier(&mut self)
        requires
            old(self).wf(),
        ensures
            final(self).follows(old(self)),
            final(self).error() is Some,
            old(self).error() is None ==> final(self).error() == reported(
                identifier_message(old(self).current()),
            ),
    {
        reveal(Parser::wf);
        if !self.error_handler.has_error() {
            self.error_handler.set_identifier_error(&self.curr_token);
        }
    }

    /// Reports that the token after the current one stands where a name is
    /// expected.
    fn note_next_identifier(&mut self)
        requires
            old(self).wf(),
        ensures
            final(self).follows(old(self)),
            final(self).error() is Some,
            old(self).error() is None ==> final(self).error() == reported(
                identifier_message(old(self).following()),
            ),
    {
        reveal(Parser::wf);
        if !self.error_handler.has_error() {
            self.error_handler.set_identifier_error(&self.next_token);
        }
    }

    /// Reports that the current token can start nothing where it stands.
    fn note_unexpected(&mut self)
        requires
            old(self).wf(),
        ensures
            final(self).follows(old(self)),
            final(self).error() is Some,
            old(self).error() is None ==> final(self).error() == reported(
                unexpected_message(old(self).current()),
            ),
    {
        reveal(Parser::wf);
        if !self.error_handler.has_error() {
            self.error_handler.set_unexpexted_token_error(&self.curr_token);
        }
    }

    /// Reports that the current token stands where a type is expected.
    fn note_type(&mut self)
        requires
            old(self).wf(),
        ensures
            final(self).follows(old(self)),
            final(self).error() is Some,
            old(self).error() is None ==> final(self).error() == reported(
                type_annot_message(old(self).current()),
            ),
    {
        reveal(Parser::wf);
        if !self.error_handler.has_error() {
            self.error_handler.set_not_type_annot_error(&self.curr_token);
        }
    }

    /// Reports an assignment whose left side is no name.
    fn note_assignment(&mut self)
        requires
            old(self).wf(),
        ensures
            final(self).follows(old(self)),
            final(self).error() is Some,
            old(self).error() is None ==> final(self).error() == reported(assignment_message()),
    {
        reveal(Parser::wf);
        if !self.error_handler.has_error() {
            self.error_handler.set_invalid_left_side_of_assignment_error();
        }
    }

    /// Reports that the current token stands where `expected` is expected.
    fn note_expected_here(&mut self, expected: &Token)
        requires
            old(self).wf(),
        ensures
            final(self).follows(old(self)),
            final(self).error() is Some,
            old(self).error() is None ==> final(self).error() == reported(
                expected_message(expected@, old(self).current()),
            ),
    {
        reveal(Parser::wf);
        if !self.error_handler.has_error() {
            self.error_handler.set_expected_but_provided_error(expected, &self.curr_token);
        }
    }

    /// Reports that the token after the current one stands where
    /// `expected` is expected.
    fn note_expected_next(&mut self, expected: &Token)
        requires
            old(self).wf(),
        ensures
            final(self).follows(old(self)),
            final(self).error() is Some,
            old(self).error() is None ==> final(self).error() == reported(
                expected_message(expected@, old(self).following()),
            ),
    {
        reveal(Parser::wf);
        if !self.error_handler.has_error() {
            self.error_handler.set_expected_but_provided_error(expected, &self.next_token);
        }
    }

    /// Parses the statements from the current token to the end of the
    /// input, or up to the first error.
    ///
    /// Without an error held before, the result is the program that the
    /// grammar finds from the current token on, and no error is held
    /// then; or, where the grammar finds none, the statements that were
    /// read before the one that is none, and the error says why.
    #[verifier::rlimit(60)]
    pub fn parse(&mut self) -> (program: Program)
        requires
            old(self).wf(),
        ensures
            final(self).follows(old(self)),
            old(self).error() is Some ==> program@.len() == 0,
            old(self).error() is None ==> match program_from(
                old(self).tokens(),
                Seq::empty(),
                old(self).at(),
            ) {
                Ok(found) => final(self).error() is None && stmts_view(program@) == found,
                Err(halt) => final(self).error() == old(self).blamed(halt.fail) && stmts_view(
                    program@,
                ) == halt.read,
            },
    {
        reveal_with_fuel(program_from, 1);
        proof {
            if self.error() is None {
                self.lemma_tokens_at_hand();
            }
        }
        let mut program: Program = Vec::new();
        let ghost ts = self.tokens();
        let ghost start = self.at();
        proof {
            assert(stmts_view(program@) =~= Seq::<StmtView>::empty());
        }
        while !self.current_token_is(&Token::Eof) && !self.error_handler.has_error()
            invariant
                self.follows(old(self)),
                ts == old(self).tokens(),
                start == old(self).at(),
                old(self).error() is Some ==> program@.len() == 0,
                old(self).error() is None && self.error() is None ==> program_from(
                    ts,
                    Seq::empty(),
                    start,
                ) == program_from(ts, stmts_view(program@), self.at()),
                old(self).error() is None && self.error() is Some ==> program_from(
                    ts,
                    Seq::empty(),
                    start,
                ) is Err && self.error() == old(self).blamed(
                    program_from(ts, Seq::empty(), start)->Err_0.fail,
                ) && stmts_view(program@) == program_from(ts, Seq::empty(), start)->Err_0.read,
            decreases
                    self.measure(),
                    if self.error() is None {
                        1nat
                    } else {
                        0nat
                    },
        {
            reveal_with_fuel(program_from, 1);
            let ghost before = stmts_view(program@);
            proof {
                self.lemma_tokens_at_hand();
            }
            match self.parse_stmt() {
                Some(stmt) => {
                    program.push(stmt);
                    proof {
                        assert(stmts_view(program@) =~= before.push(stmt@));
                    }
                    self.bump();
                },
                None => {},
            }
        }
        proof {
            if self.error() is None {
                self.lemma_tokens_at_hand();
            }
        }
        program
    }

    /// Parses one statement.
    #[verifier::rlimit(60)]
    fn parse_stmt(&mut self) -> (r: Option<Stmt>)
        requires
            old(self).wf(),
            old(self).error() is None,
        ensures
            parsed(old(self), final(self), stmt_at(old(self).tokens(), old(self).at()), some_stmt(r)),
        decreases old(self).measure(), 10nat,
    {
        reveal_with_fuel(stmt_at, 1);
        reveal_with_fuel(if_at, 1);
        reveal_with_fuel(for_at, 1);
        reveal_with_fuel(func_at, 1);
        proof {
            if self.error() is None {
                self.lemma_tokens_at_hand();
            }
        }
        match self.curr_token {
            Token::Let => parse_let_stmt(self),
            Token::Func => parse_func_stmt(self),
            Token::Return => self.parse_return_stmt(),
            Token::If => parse_if_stmt(self),
            Token::For => parse_forloop_stmt(self),
            _ => self.parse_expr_stmt(),
        }
    }

    /// Parses the statements between two braces; the current token is the
    /// opening brace.
    #[verifier::rlimit(60)]
    fn parse_block_stmt(&mut self) -> (r: Option<Vec<Stmt>>)
        requires
            old(self).wf(),
            old(self).error() is None,
            !(old(self).curr_token@ is Eof),
        ensures
            parsed(
                old(self),
                final(self),
                block_at(old(self).tokens(), old(self).at()),
                some_stmts(r),
            ),
        decreases old(self).measure(), 8nat,
    {
        reveal_with_fuel(block_at, 1);
        reveal_with_fuel(block_rest, 1);
        reveal_with_fuel(stmt_at, 1);
        proof {
            if self.error() is None {
                self.lemma_tokens_at_hand();
            }
        }
        let ghost ts = self.tokens();
        let ghost i = self.at();
        self.bump();
        if self.has_error() {
            return None;
        }
        let mut block: Vec<Stmt> = Vec::new();
        proof {
            assert(stmts_view(block@) =~= Seq::<StmtView>::empty());
        }
        while !self.current_token_is(&Token::Rbrace) && !self.current_token_is(&Token::Eof)
            invariant
                self.follows(old(self)),
                self.measure() < old(self).measure(),
                self.error() is None,
                ts == old(self).tokens(),
                i == old(self).at(),
                old(self).error() is None,
                self.at() >= i + 1,
                block_at(ts, i) == block_rest(
                    ts,
                    stmts_view(block@),
                    i,
                    (self.at() - i - 1) as nat,
                ),
            decreases self.measure(),
        {
            reveal_with_fuel(block_at, 1);
            reveal_with_fuel(block_rest, 1);
            reveal_with_fuel(stmt_at, 1);
            let ghost before = stmts_view(block@);
            match self.parse_stmt() {
                Some(stmt) => {
                    block.push(stmt);
                    proof {
                        assert(stmts_view(block@) =~= before.push(stmt@));
                    }
                },
                None => return None,
            }
            self.bump();
            if self.has_error() {
                return None;
            }
        }
        if !self.current_token_is(&Token::Rbrace) {
            self.note_expected_here(&Token::Rbrace);
            return None;
        }
        Some(block)
    }

    /// Parses a `return` statement. The expression is left out before a
    /// closing brace and at the end of the input.
    fn parse_return_stmt(&mut self) -> (r: Option<Stmt>)
        requires
            old(self).wf(),
            old(self).error() is None,
            old(self).curr_token@ is Return,
        ensures
            parsed(
                old(self),
                final(self),
                return_at(old(self).tokens(), old(self).at()),
                some_stmt(r),
            ),
        decreases old(self).measure(), 9nat,
    {
        reveal_with_fuel(return_at, 1);
        proof {
            if self.error() is None {
                self.lemma_tokens_at_hand();
            }
        }
        if self.next_token_is(&Token::Rbrace) || self.next_token_is(&Token::Eof) {
            return Some(Stmt::Return(None));
        }
        self.bump();
        if self.has_error() {
            return None;
        }
        let expr = match self.parse_expr(Precedence::Lowest) {
            Some(expr) => expr,
            None => return None,
        };
        Some(Stmt::Return(Some(expr)))
    }

    /// The name that the current token is, if it is one.
    fn parse_identifier(&self) -> (r: Option<Identifier>)
        ensures
            match self.curr_token@ {
                TokenView::Identifier(name) => r is Some && r->Some_0.0@ == name,
                _ => r is None,
            },
    {
        match &self.curr_token {
            Token::Identifier(name) => Some(Identifier(name.clone())),
            _ => None,
        }
    }

    /// Parses an expression that stands as a statement.
    fn parse_expr_stmt(&mut self) -> (r: Option<Stmt>)
        requires
            old(self).wf(),
            old(self).error() is None,
            !(old(self).curr_token@ is Let),
            !(old(self).curr_token@ is Func),
            !(old(self).curr_token@ is Return),
            !(old(self).curr_token@ is If),
            !(old(self).curr_token@ is For),
        ensures
            parsed(old(self), final(self), stmt_at(old(self).tokens(), old(self).at()), some_stmt(r)),
        decreases old(self).measure(), 9nat,
    {
        reveal_with_fuel(stmt_at, 1);
        proof {
            if self.error() is None {
                self.lemma_tokens_at_hand();
            }
        }
        match self.parse_expr(Precedence::Lowest) {
            Some(expr) => Some(Stmt::Expr(expr)),
            None => None,
        }
    }

    /// Parses an expression whose operators bind more tightly than
    /// `precedence`.
    #[verifier::rlimit(60)]
    fn parse_expr(&mut self, precedence: Precedence) -> (r: Option<Expr>)
        requires
            old(self).wf(),
            old(self).error() is None,
        ensures
            parsed(
                old(self),
                final(self),
                expr_at(old(self).tokens(), old(self).at(), precedence),
                some_expr(r),
            ),
        decreases old(self).measure(), 5nat,
    {
        reveal_with_fuel(expr_at, 1);
        reveal_with_fuel(first_at, 1);
        reveal_with_fuel(infix_loop, 1);
        reveal_with_fuel(operator_at, 1);
        proof {
            if self.error() is None {
                self.lemma_tokens_at_hand();
            }
        }
        let ghost ts = self.tokens();
        let ghost i = self.at();
        let first = match &self.curr_token {
            Token::Identifier(name) => Some(Expr::Identifier(Identifier(name.clone()))),
            Token::String(val) => Some(Expr::Literal(Literal::String(val.clone()))),
            Token::Int(val) => Some(Expr::Literal(Literal::Int(*val))),
            Token::Float(val) => Some(Expr::Literal(Literal::Float(val.clone()))),
            Token::True => Some(Expr::Literal(Literal::Boolean(true))),
            Token::False => Some(Expr::Literal(Literal::Boolean(false))),
            Token::Null => Some(Expr::Literal(Literal::Null)),
            _ => None,
        };
        let mut left = match first {
            Some(expr) => expr,
            None => {
                let parsed = match self.curr_token {
                    Token::Bang | Token::Plus | Token::Minus => self.parse_prefix_expr(),
                    Token::Lparen => self.parse_grouped_expr(),
                    Token::Lbracket => self.parse_array_literal(),
                    _ => {
                        self.note_unexpected();
                        None
                    },
                };
                match parsed {
                    Some(expr) => expr,
                    None => return None,
                }
            },
        };
        while precedence.lower_than(&self.next_token_precedence())
            invariant
                self.follows(old(self)),
                self.error() is None,
                old(self).error() is None,
                !(self.curr_token@ is Eof),
                ts == old(self).tokens(),
                i == old(self).at(),
                self.at() >= i,
                expr_at(ts, i, precedence) == infix_loop(
                    ts,
                    left@,
                    i,
                    (self.at() - i) as nat,
                    precedence,
                ),
            decreases self.measure(),
        {
            reveal_with_fuel(expr_at, 1);
            reveal_with_fuel(first_at, 1);
            reveal_with_fuel(infix_loop, 1);
            reveal_with_fuel(operator_at, 1);
            self.bump();
            if self.has_error() {
                return None;
            }
            let parsed = match self.curr_token {
                Token::Plus
                | Token::Minus
                | Token::Asterisk
                | Token::Slash
                | Token::DoubleEqual
                | Token::NotEqual
                | Token::GratherThan
                | Token::LessThan
                | Token::Percet
                | Token::GratherOrEqual
                | Token::LessOrEqual => self.parse_infix_expr(left),
                Token::Lparen => self.parse_call_expr(left),
                Token::Equal => self.parse_assign_expr(left),
                Token::DoublePlus | Token::DoubleMinus => self.parse_postfix_expr(left),
                Token::Dot => self.parse_field_access(left),
                _ => {
                    self.note_unexpected();
                    None
                },
            };
            left = match parsed {
                Some(expr) => expr,
                None => return None,
            };
        }
        Some(left)
    }

    /// Parses an expression between parentheses; the current token is the
    /// opening one.
    fn parse_grouped_expr(&mut self) -> (r: Option<Expr>)
        requires
            old(self).wf(),
            old(self).error() is None,
            old(self).curr_token@ is Lparen,
        ensures
            parsed(
                old(self),
                final(self),
                first_at(old(self).tokens(), old(self).at()),
                some_expr(r),
            ),
        decreases old(self).measure(), 4nat,
    {
        reveal_with_fuel(first_at, 1);
        reveal_with_fuel(expr_at, 1);
        proof {
            if self.error() is None {
                self.lemma_tokens_at_hand();
            }
        }
        self.bump();
        if self.has_error() {
            return None;
        }
        let expr = match self.parse_expr(Precedence::Lowest) {
            Some(expr) => expr,
            None => return None,
        };
        if !self.bump_expected_next(&Token::Rparen) {
            return None;
        }
        Some(expr)
    }

    /// Parses an array literal; the current token is the opening bracket.
    fn parse_array_literal(&mut self) -> (r: Option<Expr>)
        requires
            old(self).wf(),
            old(self).error() is None,
            old(self).curr_token@ is Lbracket,
        ensures
            parsed(
                old(self),
                final(self),
                first_at(old(self).tokens(), old(self).at()),
                some_expr(r),
            ),
        decreases old(self).measure(), 4nat,
    {
        reveal_with_fuel(first_at, 1);
        reveal_with_fuel(expr_list_at, 1);
        proof {
            if self.error() is None {
                self.lemma_tokens_at_hand();
            }
        }
        match self.parse_expr_list(Token::Rbracket) {
            Some(items) => Some(Expr::Literal(Literal::Array(items))),
            None => None,
        }
    }

    /// Parses a postfix operator after `left`; the current token is the
    /// operator.
    fn parse_postfix_expr(&mut self, left: Expr) -> (r: Option<Expr>)
        requires
            old(self).wf(),
            old(self).error() is None,
            old(self).curr_token@ is DoublePlus || old(self).curr_token@ is DoubleMinus,
        ensures
            parsed(
                old(self),
                final(self),
                operator_at(old(self).tokens(), left@, old(self).at()),
                some_expr(r),
            ),
    {
        reveal_with_fuel(operator_at, 1);
        proof {
            self.lemma_tokens_at_hand();
        }
        let postfix = match self.curr_token {
            Token::DoublePlus => Postfix::Increment,
            _ => Postfix::Decrement,
        };
        Some(Expr::Postfix(Box::new(left), postfix))
    }

    /// Parses a prefix operator and its operand; the current token is the
    /// operator.
    fn parse_prefix_expr(&mut self) -> (r: Option<Expr>)
        requires
            old(self).wf(),
            old(self).error() is None,
            old(self).curr_token@ is Bang || old(self).curr_token@ is Plus || old(self).curr_token@ is Minus,
        ensures
            parsed(
                old(self),
                final(self),
                first_at(old(self).tokens(), old(self).at()),
                some_expr(r),
            ),
        decreases old(self).measure(), 4nat,
    {
        reveal_with_fuel(first_at, 1);
        reveal_with_fuel(expr_at, 1);
        proof {
            if self.error() is None {
                self.lemma_tokens_at_hand();
            }
        }
        let prefix = match self.curr_token {
            Token::Bang => Prefix::Not,
            Token::Plus => Prefix::Plus,
            _ => Prefix::Minus,
        };
        self.bump();
        if self.has_error() {
            return None;
        }
        let expr = match self.parse_expr(Precedence::Prefix) {
            Some(expr) => expr,
            None => return None,
        };
        Some(Expr::Prefix(prefix, Box::new(expr)))
    }

    /// Parses the right side of an assignment to `left`, which must be a
    /// name; the current token is the `=`.
    fn parse_assign_expr(&mut self, left: Expr) -> (r: Option<Expr>)
        requires
            old(self).wf(),
            old(self).error() is None,
            old(self).curr_token@ is Equal,
        ensures
            parsed(
                old(self),
                final(self),
                operator_at(old(self).tokens(), left@, old(self).at()),
                some_expr(r),
            ),
        decreases old(self).measure(), 4nat,
    {
        reveal_with_fuel(operator_at, 1);
        reveal_with_fuel(expr_at, 1);
        proof {
            if self.error() is None {
                self.lemma_tokens_at_hand();
            }
        }
        let identifier = match left {
            Expr::Identifier(identifier) => identifier,
            _ => {
                self.note_assignment();
                return None;
            },
        };
        self.bump();
        if self.has_error() {
            return None;
        }
        let expr = match self.parse_expr(Precedence::Lowest) {
            Some(expr) => expr,
            None => return None,
        };
        Some(Expr::Assign(identifier, Box::new(expr)))
    }

    /// Parses the right operand of an infix operator after `left`; the
    /// current token is the operator.
    fn parse_infix_expr(&mut self, left: Expr) -> (r: Option<Expr>)
        requires
            old(self).wf(),
            old(self).error() is None,
            infix_of(old(self).curr_token@) is Some,
        ensures
            parsed(
                old(self),
                final(self),
                operator_at(old(self).tokens(), left@, old(self).at()),
                some_expr(r),
            ),
        decreases old(self).measure(), 4nat,
    {
        reveal_with_fuel(operator_at, 1);
        reveal_with_fuel(expr_at, 1);
        proof {
            if self.error() is None {
                self.lemma_tokens_at_hand();
            }
        }
        let infix = match self.curr_token {
            Token::Plus => Infix::Plus,
            Token::Minus => Infix::Minus,
            Token::Asterisk => Infix::Multiply,
            Token::Slash => Infix::Devide,
            Token::Percet => Infix::Remainder,
            Token::NotEqual => Infix::NotEqual,
            Token::DoubleEqual => Infix::Equal,
            Token::LessThan => Infix::LessThan,
            Token::LessOrEqual => Infix::LessOrEqual,
            Token::GratherThan => Infix::GratherThan,
            _ => Infix::GratherOrEqual,
        };
        let precedence = self.current_token_precedence();
        self.bump();
        if self.has_error() {
            return None;
        }
        match self.parse_expr(precedence) {
            Some(expr) => Some(Expr::Infix(Box::new(left), infix, Box::new(expr))),
            None => None,
        }
    }

    /// Parses the arguments of a call of `func`; the current token is the
    /// opening parenthesis.
    fn parse_call_expr(&mut self, func: Expr) -> (r: Option<Expr>)
        requires
            old(self).wf(),
            old(self).error() is None,
            old(self).curr_token@ is Lparen,
        ensures
            parsed(
                old(self),
                final(self),
                operator_at(old(self).tokens(), func@, old(self).at()),
                some_expr(r),
            ),
        decreases old(self).measure(), 4nat,
    {
        reveal_with_fuel(operator_at, 1);
        reveal_with_fuel(expr_list_at, 1);
        proof {
            if self.error() is None {
                self.lemma_tokens_at_hand();
            }
        }
        let args = match self.parse_expr_list(Token::Rparen) {
            Some(exprs) => exprs,
            None => return None,
        };
        Some(Expr::Call(Box::new(func), args))
    }

    /// Parses the target of a field access on `left`: a name, or a call of
    /// a name; the current token is the dot.
    #[verifier::rlimit(60)]
    fn parse_field_access(&mut self, left: Expr) -> (r: Option<Expr>)
        requires
            old(self).wf(),
            old(self).error() is None,
            old(self).curr_token@ is Dot,
        ensures
            parsed(
                old(self),
                final(self),
                operator_at(old(self).tokens(), left@, old(self).at()),
                some_expr(r),
            ),
        decreases old(self).measure(), 4nat,
    {
        reveal_with_fuel(operator_at, 1);
        reveal_with_fuel(expr_list_at, 1);
        proof {
            if self.error() is None {
                self.lemma_tokens_at_hand();
            }
        }
        self.bump();
        if self.has_error() {
            return None;
        }
        let name = match self.parse_identifier() {
            Some(identifier) => identifier,
            None => {
                self.note_identifier();
                return None;
            },
        };
        let ghost name_view = name.0@;
        let target = Expr::Identifier(name);
        assert(target@ == ExprView::Identifier(name_view));
        if !self.next_token_is(&Token::Lparen) {
            return Some(Expr::FieldAcc(Box::new(left), Box::new(target)));
        }
        self.bump();
        if self.has_error() {
            return None;
        }
        let args = match self.parse_expr_list(Token::Rparen) {
            Some(exprs) => exprs,
            None => return None,
        };
        let call = Expr::Call(Box::new(target), args);
        assert(call@ == ExprView::Call(Box::new(ExprView::Identifier(name_view)), exprs_view(args@)));
        Some(Expr::FieldAcc(Box::new(left), Box::new(call)))
    }

    /// Parses expressions separated by commas up to the token `stop`; the
    /// current token is the one that opens the list. A comma before `stop`
    /// is an error.
    #[verifier::rlimit(60)]
    fn parse_expr_list(&mut self, stop: Token) -> (r: Option<Vec<Expr>>)
        requires
            old(self).wf(),
            old(self).error() is None,
            !(old(self).curr_token@ is Eof),
            !(stop@ is Eof),
        ensures
            parsed(
                old(self),
                final(self),
                expr_list_at(old(self).tokens(), old(self).at(), stop@),
                some_exprs(r),
            ),
        decreases old(self).measure(), 3nat,
    {
        reveal_with_fuel(expr_list_at, 1);
        reveal_with_fuel(list_rest, 1);
        reveal_with_fuel(expr_at, 1);
        proof {
            if self.error() is None {
                self.lemma_tokens_at_hand();
            }
        }
        let ghost ts = self.tokens();
        let ghost i = self.at();
        let mut list: Vec<Expr> = Vec::new();
        proof {
            assert(exprs_view(list@) =~= Seq::<ExprView>::empty());
        }
        if self.next_token_is(&stop) {
            self.bump();
            if self.has_error() {
                return None;
            }
            return Some(list);
        }
        self.bump();
        if self.has_error() {
            return None;
        }
        match self.parse_expr(Precedence::Lowest) {
            Some(expr) => {
                list.push(expr);
                proof {
                    assert(exprs_view(list@) =~= seq![expr@]);
                }
            },
            None => return None,
        }
        while self.next_token_is(&Token::Comma)
            invariant
                self.follows(old(self)),
                self.measure() < old(self).measure(),
                self.error() is None,
                old(self).error() is None,
                !(self.curr_token@ is Eof),
                !(stop@ is Eof),
                ts == old(self).tokens(),
                i == old(self).at(),
                self.at() >= i,
                expr_list_at(ts, i, stop@) == list_rest(
                    ts,
                    exprs_view(list@),
                    i,
                    (self.at() - i) as nat,
                    stop@,
                ),
            decreases self.measure(),
        {
            reveal_with_fuel(expr_list_at, 1);
            reveal_with_fuel(list_rest, 1);
            reveal_with_fuel(expr_at, 1);
            self.bump();
            if self.has_error() {
                return None;
            }
            self.bump();
            if self.has_error() {
                return None;
            }
            let ghost before = exprs_view(list@);
            match self.parse_expr(Precedence::Lowest) {
                Some(expr) => {
                    list.push(expr);
                    proof {
                        assert(exprs_view(list@) =~= before.push(expr@));
                    }
                },
                None => return None,
            }
        }
        if !self.bump_expected_next(&stop) {
            return None;
        }
        Some(list)
    }

    /// Parses a type; the current token is its first one.
    fn parse_type(&mut self) -> (r: Option<ExprType>)
        requires
            old(self).wf(),
            old(self).error() is None,
        ensures
            parsed(old(self), final(self), type_at(old(self).tokens(), old(self).at()), r),
        decreases old(self).measure(), 0nat,
    {
        reveal_with_fuel(type_at, 1);
        proof {
            if self.error() is None {
                self.lemma_tokens_at_hand();
            }
        }
        match self.curr_token {
            Token::TypeInt => Some(ExprType::Int),
            Token::TypeVoid => Some(ExprType::Void),
            Token::TypeFloat => Some(ExprType::Float),
            Token::TypeString => Some(ExprType::String),
            Token::TypeBoolean => Some(ExprType::Boolean),
            Token::ClassArray => {
                if !self.bump_expected_next(&Token::LessThan) {
                    return None;
                }
                self.bump();
                if self.has_error() {
                    return None;
                }
                let inner = match self.parse_type() {
                    Some(inner) => inner,
                    None => return None,
                };
                if !self.bump_expected_next(&Token::GratherThan) {
                    return None;
                }
                Some(ExprType::Array(Box::new(inner)))
            },
            _ => {
                self.note_type();
                None
            },
        }
    }

    /// The precedence of a token where it stands after an expression.
    pub fn token_to_precedence(token: &Token) -> (r: Precedence)
        ensures
            r == precedence_of(token@),
    {
        match token {
            Token::Plus | Token::Minus => Precedence::Sum,
            Token::Asterisk | Token::Slash | Token::Percet => Precedence::Product,
            Token::Lparen | Token::Dot => Precedence::Call,
            Token::Equal => Precedence::Assign,
            Token::DoubleEqual
            | Token::NotEqual
            | Token::LessThan
            | Token::LessOrEqual
            | Token::GratherThan
            | Token::GratherOrEqual => Precedence::Comparison,
            Token::DoublePlus | Token::DoubleMinus => Precedence::Postfix,
            _ => Precedence::Lowest,
        }
    }

    fn current_token_precedence(&self) -> (r: Precedence)
        ensures
            r == precedence_of(self.curr_token@),
    {
        Self::token_to_precedence(&self.curr_token)
    }

    fn next_token_precedence(&self) -> (r: Precedence)
        ensures
            r == precedence_of(self.next_token@),
    {
        Self::token_to_precedence(&self.next_token)
    }

    /// Moves on to the next token where it is `token`; else reports what
    /// stands there instead. Says whether it moved.
    fn bump_expected_next(&mut self, token: &Token) -> (r: bool)
        requires
            old(self).wf(),
            old(self).error() is None,
            !(token@ is Eof),
        ensures
            final(self).follows(old(self)),
            r <==> final(self).error() is None,
            r ==> final(self).curr_token@ == token@ && final(self).at() == old(self).at() + 1
                && tok(old(self).tokens(), old(self).at() + 1) == Some(token@),
            r && !(old(self).curr_token@ is Eof) ==> final(self).measure() < old(self).measure(),
            match expect_next(old(self).tokens(), old(self).at(), token@) {
                Some(fail) => !r && final(self).error() == old(self).blamed(fail),
                None => r,
            },
    {
        proof {
            self.lemma_tokens_at_hand();
        }
        if self.next_token_is(token) {
            self.bump();
            return !self.has_error();
        }
        self.note_expected_next(token);
        false
    }

    fn current_token_is(&self, token: &Token) -> (r: bool)
        ensures
            r == (self.curr_token@ == token@),
    {
        self.curr_token.same(token)
    }

    fn next_token_is(&self, token: &Token) -> (r: bool)
        ensures
            r == (self.next_token@ == token@),
    {
        self.next_token.same(token)
    }

    /// A copy of the error that is held, if any.
    pub fn get_error(&self) -> (r: Option<ParserError>)
        ensures
            match self.error() {
                Some(e) => r is Some && r->Some_0@ == e,
                None => r is None,
            },
    {
        self.error_handler.get_error()
    }

    /// Whether an error is held.
    pub fn has_error(&self) -> (r: bool)
        ensures
            r == (self.error() is Some),
    {
        self.error_handler.has_error()
    }
}

/// The error that a parse of the source `input` gives where it stops for
/// `fail`.
pub open spec fn parse_error(input: Seq<char>, fail: Fail) -> ParserErrorView {
    ParserErrorView {
        kind: ParserErrorKind::SyntaxError,
        msg: fail_message(rejection(input, 0), fail),
    }
}

/// Whether `r` is what the parse of the source `input` gives: the program
/// that the text spells, or the error that says why it spells none.
pub open spec fn parse_outcome(input: Seq<char>, r: Result<Program, ParserError>) -> bool {
    match program_of(token_stream(input, 0)) {
        Ok(program) => r is Ok && stmts_view(r->Ok_0@) == program,
        Err(halt) => r is Err && r->Err_0@ == parse_error(input, halt.fail),
    }
}

/// Parsing is a function of the source: two parses of one text both give
/// a program, and then the two programs are the same tree, or both fail,
/// and then with the same error.
pub proof fn law_parse_deterministic(
    input: Seq<char>,
    first: Result<Program, ParserError>,
    second: Result<Program, ParserError>,
)
    requires
        parse_outcome(input, first),
        parse_outcome(input, second),
    ensures
        first is Ok <==> second is Ok,
        first is Ok ==> stmts_view(first->Ok_0@) == stmts_view(second->Ok_0@),
        first is Err ==> first->Err_0@ == second->Err_0@,
{
}

/// Parses a source text as a whole. The result is the program that the
/// text spells, or the error that says why it spells none.
pub fn parse_program(input: &[char]) -> (r: Result<Program, ParserError>)
    ensures
        parse_outcome(input@, r),
{
    let l = Lexer::new(input);
    let mut p = Parser::new(l);
    let program = p.parse();
    match p.get_error() {
        Some(error) => Err(error),
        None => Ok(program),
    }
}

/// Parses a `for` statement; the current token is `for`.
#[verifier::rlimit(60)]
pub fn parse_forloop_stmt(p: &mut Parser) -> (r: Option<Stmt>)
    requires
        old(p).wf(),
    ensures
        parsed(old(p), final(p), for_at(old(p).tokens(), old(p).at()), some_stmt(r)),
    decreases old(p).measure(), 9nat,
{
    reveal_with_fuel(for_at, 1);
    reveal_with_fuel(block_at, 1);
    proof {
        if p.error() is None {
            p.lemma_tokens_at_hand();
        }
    }
    if p.has_error() {
        return None;
    }
    p.bump();
    if p.has_error() {
        return None;
    }
    let loop_cursor_name = match p.parse_identifier() {
        Some(identifier) => {
            let Identifier(name) = identifier;
            name
        },
        None => {
            p.note_identifier();
            return None;
        },
    };
    if !p.bump_expected_next(&Token::In) {
        return None;
    }
    p.bump();
    if p.has_error() {
        return None;
    }
    let iterable = match p.parse_expr(Precedence::Lowest) {
        Some(expr) => expr,
        None => return None,
    };
    if !p.bump_expected_next(&Token::Lbrace) {
        return None;
    }
    let block = match p.parse_block_stmt() {
        Some(block) => block,
        None => return None,
    };
    Some(Stmt::ForLoop { cursor: loop_cursor_name, iterable, block })
}

/// The models of statements that may be missing, where they were looked
/// for.
pub open spec fn some_alternative(r: Option<Option<BlockStmt>>) -> Option<Option<Seq<StmtView>>> {
    match r {
        Some(Some(block)) => Some(Some(stmts_view(block@))),
        Some(None) => Some(None),
        None => None,
    }
}

/// Parses the alternative of an `if` statement, if `else` follows; the
/// current token is the closing brace of the consequence.
#[verifier::rlimit(60)]
fn parse_alternative(p: &mut Parser) -> (r: Option<Option<BlockStmt>>)
    requires
        old(p).wf(),
        old(p).error() is None,
        !(old(p).current() is Eof),
    ensures
        parsed(
            old(p),
            final(p),
            alternative_at(old(p).tokens(), old(p).at()),
            some_alternative(r),
        ),
    decreases old(p).measure(), 8nat,
{
    reveal_with_fuel(alternative_at, 1);
    reveal_with_fuel(block_at, 1);
    proof {
        p.lemma_tokens_at_hand();
    }
    if !p.next_token_is(&Token::Else) {
        return Some(None);
    }
    p.bump();
    if p.has_error() {
        return None;
    }
    if !p.bump_expected_next(&Token::Lbrace) {
        return None;
    }
    match p.parse_block_stmt() {
        Some(block) => Some(Some(block)),
        None => None,
    }
}

/// Parses an `if` statement; the current token is `if`.
#[verifier::rlimit(60)]
pub fn parse_if_stmt(p: &mut Parser) -> (r: Option<Stmt>)
    requires
        old(p).wf(),
    ensures
        parsed(old(p), final(p), if_at(old(p).tokens(), old(p).at()), some_stmt(r)),
    decreases old(p).measure(), 9nat,
{
    reveal_with_fuel(if_at, 1);
    reveal_with_fuel(block_at, 1);
    reveal_with_fuel(alternative_at, 1);
    proof {
        if p.error() is None {
            p.lemma_tokens_at_hand();
        }
    }
    if p.has_error() {
        return None;
    }
    p.bump();
    if p.has_error() {
        return None;
    }
    let condition = match p.parse_expr(Precedence::Lowest) {
        Some(expr) => expr,
        None => return None,
    };
    if !p.bump_expected_next(&Token::Lbrace) {
        return None;
    }
    let consequence = match p.parse_block_stmt() {
        Some(block) => block,
        None => return None,
    };
    let alternative = match parse_alternative(p) {
        Some(alternative) => alternative,
        None => return None,
    };
    Some(Stmt::If { condition, consequence, alternative })
}

/// Parses a declaration; the current token is `let`. The type or the
/// initializer must be there, and the type must not be `void`.
#[verifier::rlimit(60)]
pub fn parse_let_stmt(p: &mut Parser) -> (r: Option<Stmt>)
    requires
        old(p).wf(),
    ensures
        parsed(old(p), final(p), let_at(old(p).tokens(), old(p).at()), some_stmt(r)),
    decreases old(p).measure(), 9nat,
{
    reveal_with_fuel(let_at, 1);
    proof {
        if p.error() is None {
            p.lemma_tokens_at_hand();
        }
    }
    if p.has_error() {
        return None;
    }
    p.bump();
    if p.has_error() {
        return None;
    }
    let var_name = match &p.curr_token {
        Token::Identifier(val) => val.clone(),
        _ => {
            p.note_identifier();
            return None;
        },
    };
    if p.next_token_is(&Token::Colon) {
        p.bump();
        if p.has_error() {
            return None;
        }
        p.bump();
        if p.has_error() {
            return None;
        }
        let var_type = match p.parse_type() {
            Some(type_) => type_,
            None => return None,
        };
        match var_type {
            ExprType::Void => {
                let mut msg = join("Variable '", var_name.as_str());
                msg.append("' can't be of type 'void'");
                p.note_error(msg);
                return None;
            },
            _ => {},
        }
        if !p.next_token_is(&Token::Equal) {
            return Some(Stmt::Let(Identifier(var_name), Some(var_type), None));
        }
        p.bump();
        if p.has_error() {
            return None;
        }
        p.bump();
        if p.has_error() {
            return None;
        }
        let expr = match p.parse_expr(Precedence::Lowest) {
            Some(expr) => expr,
            None => return None,
        };
        return Some(Stmt::Let(Identifier(var_name), Some(var_type), Some(expr)));
    }
    if !p.next_token_is(&Token::Equal) {
        let mut msg = join("Missing type of '", var_name.as_str());
        msg.append("', provide it's type or initialize it");
        p.note_error(msg);
        return None;
    }
    p.bump();
    if p.has_error() {
        return None;
    }
    p.bump();
    if p.has_error() {
        return None;
    }
    let expr = match p.parse_expr(Precedence::Lowest) {
        Some(expr) => expr,
        None => return None,
    };
    Some(Stmt::Let(Identifier(var_name), None, Some(expr)))
}

/// Parses a function definition; the current token is `define`.
#[verifier::rlimit(60)]
pub fn parse_func_stmt(p: &mut Parser) -> (r: Option<Stmt>)
    requires
        old(p).wf(),
    ensures
        parsed(old(p), final(p), func_at(old(p).tokens(), old(p).at()), some_stmt(r)),
    decreases old(p).measure(), 9nat,
{
    reveal_with_fuel(func_at, 1);
    reveal_with_fuel(block_at, 1);
    proof {
        if p.error() is None {
            p.lemma_tokens_at_hand();
        }
    }
    if p.has_error() {
        return None;
    }
    let fn_identifier = match &p.next_token {
        Token::Identifier(val) => Identifier(val.clone()),
        _ => {
            p.note_next_identifier();
            return None;
        },
    };
    p.bump();
    if p.has_error() {
        return None;
    }
    if !p.bump_expected_next(&Token::Lparen) {
        return None;
    }
    let fn_params = match parse_func_params(p) {
        Some(params) => params,
        None => return None,
    };
    if !p.bump_expected_next(&Token::Colon) {
        return None;
    }
    p.bump();
    if p.has_error() {
        return None;
    }
    let return_type = match p.parse_type() {
        Some(ret_type) => ret_type,
        None => return None,
    };
    if !p.bump_expected_next(&Token::Lbrace) {
        return None;
    }
    let body = match p.parse_block_stmt() {
        Some(block) => block,
        None => return None,
    };
    Some(Stmt::Func(fn_identifier, fn_params, Rc::new(body), return_type))
}

/// Parses the parameters of a function definition, each a name, a colon
/// and a type that is not `void`; the current token is the opening
/// parenthesis.
#[verifier::rlimit(60)]
fn parse_func_params(p: &mut Parser) -> (r: Option<Vec<(Identifier, ExprType)>>)
    requires
        old(p).wf(),
        old(p).error() is None,
        old(p).current() is Lparen,
    ensures
        parsed(old(p), final(p), params_at(old(p).tokens(), old(p).at()), some_params(r)),
{
    reveal_with_fuel(params_at, 1);
    reveal_with_fuel(params_rest, 1);
    proof {
        p.lemma_tokens_at_hand();
    }
    let ghost ts = p.tokens();
    let ghost i = p.at();
    let mut params: Vec<(Identifier, ExprType)> = Vec::new();
    proof {
        assert(params_syntax(params@) =~= Seq::<ParamSyntax>::empty());
    }
    if p.next_token_is(&Token::Rparen) {
        p.bump();
        if p.has_error() {
            return None;
        }
        return Some(params);
    }
    loop
        invariant
            p.follows(old(p)),
            p.error() is None,
            old(p).error() is None,
            !(p.current() is Eof),
            ts == old(p).tokens(),
            i == old(p).at(),
            p.at() >= i,
            tok(ts, i + 1) != Some(TokenView::Rparen),
            params_at(ts, i) == params_rest(ts, params_syntax(params@), i, (p.at() - i) as nat),
        decreases p.measure(),
    {
        reveal_with_fuel(params_at, 1);
        reveal_with_fuel(params_rest, 1);
        p.bump();
        if p.has_error() {
            return None;
        }
        let identifier = match p.parse_identifier() {
            Some(identifier) => identifier,
            None => {
                p.note_identifier();
                return None;
            },
        };
        if !p.bump_expected_next(&Token::Colon) {
            return None;
        }
        p.bump();
        if p.has_error() {
            return None;
        }
        let param_type = match p.parse_type() {
            Some(type_) => type_,
            None => return None,
        };
        match param_type {
            ExprType::Void => {
                p.note_error(owned("Function parameter can't not be of type 'void'"));
                return None;
            },
            _ => {},
        }
        let ghost before = params_syntax(params@);
        let ghost entry = ParamSyntax { name: identifier.0@, type_: param_type };
        params.push((identifier, param_type));
        proof {
            assert(params_syntax(params@) =~= before.push(entry));
        }
        if !p.next_token_is(&Token::Comma) {
            if !p.bump_expected_next(&Token::Rparen) {
                return None;
            }
            return Some(params);
        }
        p.bump();
        if p.has_error() {
            return None;
        }
    }
}

} // verus!
