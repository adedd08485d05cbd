//! The grammar of the language, as functions on the tokens of a source.
//!
//! The tokens of a source are numbered from zero. Each function says what
//! stands at a token: the syntax tree of the construct that starts there,
//! and how many tokens after the first the construct takes; or else why
//! nothing is found there.
//!
//! The parser reads one token ahead of the token after the current one, so
//! it meets text that the lexer rejects two tokens before it stands there.
//! The grammar says so: wherever the parser moves on by a token, the token
//! that it reads then must be one that the lexer accepts.

use crate::ast::{
    ExprType, ExprView, Infix, LiteralView, ParamSyntax, Postfix, Precedence, Prefix, StmtView,
};
use crate::lexer::{
    lemma_lex_advances, lemma_lex_kinds, lemma_run_end_bounds, lex, lex_message, run_end,
    CharClass,
};
use crate::parser_error::{
    assignment_message, expected_message, identifier_message, missing_type_message,
    type_annot_message, unexpected_message, void_parameter_message, void_variable_message,
};
use crate::token::TokenView;
use vstd::prelude::*;

verus! {

/// The tokens of `input` from the position `pos` on, up to and including
/// the end of the input, or up to the first text that the lexer rejects,
/// which stands as `None`.
pub open spec fn token_stream(input: Seq<char>, pos: int) -> Seq<Option<TokenView>>
    decreases input.len() - pos,
{
    let l = lex(input, pos);
    match l.token {
        None => seq![None],
        Some(TokenView::Eof) => seq![Some(TokenView::Eof)],
        Some(t) => if pos < l.next && l.next <= input.len() {
            seq![Some(t)] + token_stream(input, l.next)
        } else {
            seq![Some(t)]
        },
    }
}

/// The tokens of a source are its first token, followed, unless that is
/// the end of the input or rejected text, by the tokens after it.
pub proof fn lemma_stream_unfold(input: Seq<char>, pos: int)
    requires
        0 <= pos <= input.len(),
    ensures
        pos <= lex(input, pos).next <= input.len(),
        token_stream(input, pos) == match lex(input, pos).token {
            None => seq![None],
            Some(TokenView::Eof) => seq![Some(TokenView::Eof)],
            Some(t) => seq![Some(t)] + token_stream(input, lex(input, pos).next),
        },
        token_stream(input, pos).len() >= 1,
        token_stream(input, pos)[0] == lex(input, pos).token,
{
    lemma_lex_advances(input, pos);
}

/// Once the lexer has met the end of the input, it meets it again and
/// stays where it is.
pub proof fn lemma_eof_stays(input: Seq<char>, pos: int)
    requires
        0 <= pos <= input.len(),
        lex(input, pos).token == Some(TokenView::Eof),
    ensures
        lex(input, lex(input, pos).next).token == Some(TokenView::Eof),
        lex(input, lex(input, pos).next).next == lex(input, pos).next,
        token_stream(input, lex(input, pos).next) == seq![Some(TokenView::Eof)],
{
    lemma_run_end_bounds(input, pos, CharClass::Space);
    let p = run_end(input, pos, CharClass::Space);
    assert(p >= input.len()) by {
        if p < input.len() {
            lemma_lex_kinds(input, pos);
        }
    }
    assert(lex(input, pos).next == p);
    assert(run_end(input, p, CharClass::Space) == p);
}

/// Every token but the last is a token that is not the end of the input.
pub proof fn lemma_stream_shape(input: Seq<char>, pos: int)
    requires
        0 <= pos <= input.len(),
    ensures
        forall|k: int|
            0 <= k < token_stream(input, pos).len() - 1 ==> (#[trigger] token_stream(
                input,
                pos,
            )[k]) is Some && token_stream(input, pos)[k] != Some(TokenView::Eof),
    decreases input.len() - pos,
{
    lemma_stream_unfold(input, pos);
    let l = lex(input, pos);
    match l.token {
        None => {},
        Some(TokenView::Eof) => {},
        Some(t) => {
            lemma_stream_shape(input, l.next);
            let rest = token_stream(input, l.next);
            let all = token_stream(input, pos);
            assert forall|k: int| 0 <= k < all.len() - 1 implies (#[trigger] all[k]) is Some
                && all[k] != Some(TokenView::Eof) by {
                if k > 0 {
                    assert(all[k] == rest[k - 1]);
                }
            }
        },
    }
}

/// The tokens from the token number `k` on; past the last token, the end
/// of the input.
pub open spec fn rest(ts: Seq<Option<TokenView>>, k: nat) -> Seq<Option<TokenView>> {
    if k < ts.len() {
        ts.skip(k as int)
    } else {
        seq![Some(TokenView::Eof)]
    }
}

/// Where the lexer stands before the token number `k`, it reads that
/// token, and then stands before the token after it.
pub proof fn lemma_rest_step(input: Seq<char>, ts: Seq<Option<TokenView>>, k: nat, pos: int)
    requires
        0 <= pos <= input.len(),
        rest(ts, k) == token_stream(input, pos),
    ensures
        tok(ts, k) == lex(input, pos).token,
        0 <= lex(input, pos).next <= input.len(),
        lex(input, pos).token is Some ==> rest(ts, k + 1) == token_stream(
            input,
            lex(input, pos).next,
        ),
        lex(input, pos).token is None ==> k < ts.len(),
{
    lemma_stream_unfold(input, pos);
    let l = lex(input, pos);
    let s = token_stream(input, pos);
    if k < ts.len() {
        assert(s[0] == ts[k as int]);
        match l.token {
            None => {},
            Some(TokenView::Eof) => {
                lemma_eof_stays(input, pos);
                assert(s.len() == 1);
            },
            Some(t) => {
                let after = token_stream(input, l.next);
                lemma_stream_unfold(input, l.next);
                assert(s.len() == 1 + after.len());
                assert(ts.skip(k as int).len() == ts.len() - k);
                assert(ts.skip(k as int + 1) =~= s.skip(1));
                assert(s.skip(1) =~= after);
            },
        }
    } else {
        assert(s[0] == Some(TokenView::Eof));
        assert(s.len() == 1);
        match l.token {
            None => {},
            Some(TokenView::Eof) => {
                lemma_eof_stays(input, pos);
            },
            Some(t) => {
                lemma_stream_unfold(input, l.next);
            },
        }
    }
}

/// The token number `i`; past the last token, the end of the input.
pub open spec fn tok(ts: Seq<Option<TokenView>>, i: nat) -> Option<TokenView> {
    if i < ts.len() {
        ts[i as int]
    } else {
        Some(TokenView::Eof)
    }
}

/// How many tokens there are from the token number `i` on.
pub open spec fn remaining(ts: Seq<Option<TokenView>>, i: nat) -> nat {
    if i <= ts.len() {
        (ts.len() - i) as nat
    } else {
        0
    }
}

/// The precedence of what stands at a token after an expression.
pub open spec fn precedence_at(token: Option<TokenView>) -> Precedence {
    match token {
        Some(t) => precedence_of(t),
        None => Precedence::Lowest,
    }
}

/// The precedence of a token where it stands after an expression.
pub open spec fn precedence_of(token: TokenView) -> Precedence {
    match token {
        TokenView::Plus | TokenView::Minus => Precedence::Sum,
        TokenView::Asterisk | TokenView::Slash | TokenView::Percet => Precedence::Product,
        TokenView::Lparen | TokenView::Dot => Precedence::Call,
        TokenView::Equal => Precedence::Assign,
        TokenView::DoubleEqual
        | TokenView::NotEqual
        | TokenView::LessThan
        | TokenView::LessOrEqual
        | TokenView::GratherThan
        | TokenView::GratherOrEqual => Precedence::Comparison,
        TokenView::DoublePlus | TokenView::DoubleMinus => Precedence::Postfix,
        _ => Precedence::Lowest,
    }
}

/// The infix operator that a token denotes, if it denotes one.
pub open spec fn infix_of(token: TokenView) -> Option<Infix> {
    match token {
        TokenView::Plus => Some(Infix::Plus),
        TokenView::Minus => Some(Infix::Minus),
        TokenView::Asterisk => Some(Infix::Multiply),
        TokenView::Slash => Some(Infix::Devide),
        TokenView::Percet => Some(Infix::Remainder),
        TokenView::NotEqual => Some(Infix::NotEqual),
        TokenView::DoubleEqual => Some(Infix::Equal),
        TokenView::LessThan => Some(Infix::LessThan),
        TokenView::LessOrEqual => Some(Infix::LessOrEqual),
        TokenView::GratherThan => Some(Infix::GratherThan),
        TokenView::GratherOrEqual => Some(Infix::GratherOrEqual),
        _ => None,
    }
}

/// The prefix operator that a token denotes, if it denotes one.
pub open spec fn prefix_of(token: TokenView) -> Option<Prefix> {
    match token {
        TokenView::Bang => Some(Prefix::Not),
        TokenView::Plus => Some(Prefix::Plus),
        TokenView::Minus => Some(Prefix::Minus),
        _ => None,
    }
}

/// Why the grammar finds nothing.
pub enum Fail {
    /// The lexer rejects the text of the token that is read next.
    Rejected,
    /// A token stands where the grammar has no use for it: the message that
    /// says so.
    Syntax(Seq<char>),
}

/// What the grammar finds at a token: a value and the number of tokens
/// that it takes after the first, or why there is none.
pub type Found<T> = Result<(T, nat), Fail>;

/// What the grammar finds where it finds `value` on `count` tokens after
/// the first.
pub open spec fn found<T>(value: T, count: nat) -> Found<T> {
    Ok((value, count))
}

/// The token number `i` as messages show it.
pub open spec fn seen(ts: Seq<Option<TokenView>>, i: nat) -> TokenView {
    match tok(ts, i) {
        Some(t) => t,
        None => TokenView::Eof,
    }
}

/// Whether the lexer rejects no text of the source.
pub open spec fn clean(ts: Seq<Option<TokenView>>) -> bool {
    forall|j: nat| (#[trigger] tok(ts, j)) is Some
}

/// Whether the parser can move on from the token `j` to the next: the
/// token that it reads then, two further on, is one that the lexer accepts.
pub open spec fn moves(ts: Seq<Option<TokenView>>, j: nat) -> bool {
    tok(ts, j + 2) is Some
}

/// Why the parser cannot move on from the token `j` to the token `token`
/// after it, if it cannot.
pub open spec fn expect_next(ts: Seq<Option<TokenView>>, j: nat, token: TokenView) -> Option<Fail> {
    if tok(ts, j + 1) != Some(token) {
        Some(Fail::Syntax(expected_message(token, seen(ts, j + 1))))
    } else if !moves(ts, j) {
        Some(Fail::Rejected)
    } else {
        None
    }
}

/// The type that starts at the token `i`: a name of a type, or `Array`
/// with its element type between `<` and `>`.
#[verifier::opaque]
pub open spec fn type_at(ts: Seq<Option<TokenView>>, i: nat) -> Found<ExprType>
    decreases remaining(ts, i),
{
    match tok(ts, i) {
        Some(TokenView::TypeInt) => Ok((ExprType::Int, 0)),
        Some(TokenView::TypeVoid) => Ok((ExprType::Void, 0)),
        Some(TokenView::TypeFloat) => Ok((ExprType::Float, 0)),
        Some(TokenView::TypeString) => Ok((ExprType::String, 0)),
        Some(TokenView::TypeBoolean) => Ok((ExprType::Boolean, 0)),
        Some(TokenView::ClassArray) => match expect_next(ts, i, TokenView::LessThan) {
            Some(fail) => Err(fail),
            None => if !moves(ts, i + 1) {
                Err(Fail::Rejected)
            } else {
                match type_at(ts, i + 2) {
                    Ok((inner, c)) => match expect_next(ts, i + 2 + c, TokenView::GratherThan) {
                        Some(fail) => Err(fail),
                        None => Ok((ExprType::Array(Box::new(inner)), 3 + c)),
                    },
                    Err(fail) => Err(fail),
                }
            },
        },
        _ => Err(Fail::Syntax(type_annot_message(seen(ts, i)))),
    }
}

/// The expression that starts at the token `i` and takes every operator
/// after it that binds more tightly than `precedence`.
#[verifier::opaque]
pub open spec fn expr_at(ts: Seq<Option<TokenView>>, i: nat, precedence: Precedence) -> Found<
    ExprView,
>
    decreases remaining(ts, i), 5nat,
{
    match first_at(ts, i) {
        Ok((left, c)) => infix_loop(ts, left, i, c, precedence),
        Err(fail) => Err(fail),
    }
}

/// The expression without an operator after it that starts at the token
/// `i`: a name, a literal, a prefix operator with its operand, an expression
/// between parentheses, or an array literal.
#[verifier::opaque]
pub open spec fn first_at(ts: Seq<Option<TokenView>>, i: nat) -> Found<ExprView>
    decreases remaining(ts, i), 4nat,
{
    match tok(ts, i) {
        Some(TokenView::Identifier(name)) => Ok((ExprView::Identifier(name), 0)),
        Some(TokenView::String(s)) => Ok((ExprView::Literal(LiteralView::String(s)), 0)),
        Some(TokenView::Int(v)) => Ok((ExprView::Literal(LiteralView::Int(v)), 0)),
        Some(TokenView::Float(s)) => Ok((ExprView::Literal(LiteralView::Float(s)), 0)),
        Some(TokenView::True) => Ok((ExprView::Literal(LiteralView::Boolean(true)), 0)),
        Some(TokenView::False) => Ok((ExprView::Literal(LiteralView::Boolean(false)), 0)),
        Some(TokenView::Null) => Ok((ExprView::Literal(LiteralView::Null), 0)),
        Some(TokenView::Lparen) => if !moves(ts, i) {
            Err(Fail::Rejected)
        } else {
            match expr_at(ts, i + 1, Precedence::Lowest) {
                Ok((e, c)) => match expect_next(ts, i + 1 + c, TokenView::Rparen) {
                    Some(fail) => Err(fail),
                    None => Ok((e, 2 + c)),
                },
                Err(fail) => Err(fail),
            }
        },
        Some(TokenView::Lbracket) => match expr_list_at(ts, i, TokenView::Rbracket) {
            Ok((items, c)) => Ok((ExprView::Literal(LiteralView::Array(items)), c)),
            Err(fail) => Err(fail),
        },
        Some(t) => match prefix_of(t) {
            Some(prefix) => if !moves(ts, i) {
                Err(Fail::Rejected)
            } else {
                match expr_at(ts, i + 1, Precedence::Prefix) {
                    Ok((e, c)) => Ok((ExprView::Prefix(prefix, Box::new(e)), 1 + c)),
                    Err(fail) => Err(fail),
                }
            },
            None => Err(Fail::Syntax(unexpected_message(t))),
        },
        None => Err(Fail::Rejected),
    }
}

/// The expression that `left` grows into by the operator at the token
/// `k`: an infix operator with its right operand, a call with its
/// arguments, an assignment to `left`, which must be a name, a postfix
/// operator, or a field access.
#[verifier::opaque]
pub open spec fn operator_at(ts: Seq<Option<TokenView>>, left: ExprView, k: nat) -> Found<ExprView>
    decreases remaining(ts, k), 6nat,
{
    match tok(ts, k) {
        Some(TokenView::Lparen) => match expr_list_at(ts, k, TokenView::Rparen) {
            Ok((args, c)) => Ok((ExprView::Call(Box::new(left), args), c)),
            Err(fail) => Err(fail),
        },
        Some(TokenView::Equal) => match left {
            ExprView::Identifier(name) => if !moves(ts, k) {
                Err(Fail::Rejected)
            } else {
                match expr_at(ts, k + 1, Precedence::Lowest) {
                    Ok((value, c)) => Ok((ExprView::Assign(name, Box::new(value)), 1 + c)),
                    Err(fail) => Err(fail),
                }
            },
            _ => Err(Fail::Syntax(assignment_message())),
        },
        Some(TokenView::DoublePlus) => Ok(
            (ExprView::Postfix(Box::new(left), Postfix::Increment), 0),
        ),
        Some(TokenView::DoubleMinus) => Ok(
            (ExprView::Postfix(Box::new(left), Postfix::Decrement), 0),
        ),
        Some(TokenView::Dot) => if !moves(ts, k) {
            Err(Fail::Rejected)
        } else {
            match tok(ts, k + 1) {
                Some(TokenView::Identifier(name)) => if tok(ts, k + 2) == Some(
                    TokenView::Lparen,
                ) {
                    if !moves(ts, k + 1) {
                        Err(Fail::Rejected)
                    } else {
                        match expr_list_at(ts, k + 2, TokenView::Rparen) {
                            Ok((args, c)) => Ok(
                                (
                                    ExprView::FieldAcc(
                                        Box::new(left),
                                        Box::new(
                                            ExprView::Call(
                                                Box::new(ExprView::Identifier(name)),
                                                args,
                                            ),
                                        ),
                                    ),
                                    2 + c,
                                ),
                            ),
                            Err(fail) => Err(fail),
                        }
                    }
                } else {
                    Ok(
                        (
                            ExprView::FieldAcc(
                                Box::new(left),
                                Box::new(ExprView::Identifier(name)),
                            ),
                            1,
                        ),
                    )
                },
                _ => Err(Fail::Syntax(identifier_message(seen(ts, k + 1)))),
            }
        },
        Some(t) => match infix_of(t) {
            Some(infix) => if !moves(ts, k) {
                Err(Fail::Rejected)
            } else {
                match expr_at(ts, k + 1, precedence_of(t)) {
                    Ok((right, c)) => Ok(
                        (ExprView::Infix(Box::new(left), infix, Box::new(right)), 1 + c),
                    ),
                    Err(fail) => Err(fail),
                }
            },
            None => Err(Fail::Syntax(unexpected_message(t))),
        },
        None => Err(Fail::Rejected),
    }
}

/// The expression that `left`, which runs from the token `i` to the token
/// `i + c`, grows into by the operators after it that bind more tightly
/// than `precedence`.
#[verifier::opaque]
pub open spec fn infix_loop(
    ts: Seq<Option<TokenView>>,
    left: ExprView,
    i: nat,
    c: nat,
    precedence: Precedence,
) -> Found<ExprView>
    decreases remaining(ts, i + c), 2nat,
{
    if !(precedence.level() < precedence_at(tok(ts, i + c + 1)).level()) {
        Ok((left, c))
    } else if !moves(ts, i + c) {
        Err(Fail::Rejected)
    } else {
        match operator_at(ts, left, i + c + 1) {
            Ok((grown, c2)) => infix_loop(ts, grown, i, c + 1 + c2, precedence),
            Err(fail) => Err(fail),
        }
    }
}

/// The expressions, separated by commas, between the token `i`, which
/// opens the list, and the token `stop`, which closes it. A comma before
/// `stop` is not accepted.
#[verifier::opaque]
pub open spec fn expr_list_at(ts: Seq<Option<TokenView>>, i: nat, stop: TokenView) -> Found<
    Seq<ExprView>,
>
    decreases remaining(ts, i), 3nat,
{
    if !(i < ts.len()) || !moves(ts, i) {
        Err(Fail::Rejected)
    } else if tok(ts, i + 1) == Some(stop) {
        Ok((Seq::empty(), 1))
    } else {
        match expr_at(ts, i + 1, Precedence::Lowest) {
            Ok((e, c)) => list_rest(ts, seq![e], i, 1 + c, stop),
            Err(fail) => Err(fail),
        }
    }
}

/// The rest of a list of expressions that was opened at the token `i` and
/// holds `acc` up to the token `i + c`.
#[verifier::opaque]
pub open spec fn list_rest(
    ts: Seq<Option<TokenView>>,
    acc: Seq<ExprView>,
    i: nat,
    c: nat,
    stop: TokenView,
) -> Found<Seq<ExprView>>
    decreases remaining(ts, i + c), 2nat,
{
    if tok(ts, i + c + 1) == Some(TokenView::Comma) {
        if !moves(ts, i + c) || !moves(ts, i + c + 1) {
            Err(Fail::Rejected)
        } else {
            match expr_at(ts, i + c + 2, Precedence::Lowest) {
                Ok((e, c2)) => list_rest(ts, acc.push(e), i, c + 2 + c2, stop),
                Err(fail) => Err(fail),
            }
        }
    } else {
        match expect_next(ts, i + c, stop) {
            Some(fail) => Err(fail),
            None => Ok((acc, c + 1)),
        }
    }
}

/// The declaration that starts at the token `i`, which is `let`: a name,
/// then a colon and a type, or `=` and an expression, or both. The type is
/// not `void`.
#[verifier::opaque]
pub open spec fn let_at(ts: Seq<Option<TokenView>>, i: nat) -> Found<StmtView> {
    if !moves(ts, i) {
        Err(Fail::Rejected)
    } else {
        match tok(ts, i + 1) {
            Some(TokenView::Identifier(name)) => if tok(ts, i + 2) == Some(TokenView::Colon) {
                if !moves(ts, i + 1) || !moves(ts, i + 2) {
                    Err(Fail::Rejected)
                } else {
                    match type_at(ts, i + 3) {
                        Ok((t, c)) => if t is Void {
                            Err(Fail::Syntax(void_variable_message(name)))
                        } else if tok(ts, i + 4 + c) == Some(TokenView::Equal) {
                            if !moves(ts, i + 3 + c) || !moves(ts, i + 4 + c) {
                                Err(Fail::Rejected)
                            } else {
                                match expr_at(ts, i + 5 + c, Precedence::Lowest) {
                                    Ok((e, c2)) => Ok(
                                        (StmtView::Let(name, Some(t), Some(e)), 5 + c + c2),
                                    ),
                                    Err(fail) => Err(fail),
                                }
                            }
                        } else {
                            Ok((StmtView::Let(name, Some(t), None), 3 + c))
                        },
                        Err(fail) => Err(fail),
                    }
                }
            } else if tok(ts, i + 2) == Some(TokenView::Equal) {
                if !moves(ts, i + 1) || !moves(ts, i + 2) {
                    Err(Fail::Rejected)
                } else {
                    match expr_at(ts, i + 3, Precedence::Lowest) {
                        Ok((e, c)) => Ok((StmtView::Let(name, None, Some(e)), 3 + c)),
                        Err(fail) => Err(fail),
                    }
                }
            } else {
                Err(Fail::Syntax(missing_type_message(name)))
            },
            _ => Err(Fail::Syntax(identifier_message(seen(ts, i + 1)))),
        }
    }
}

/// The `return` statement that starts at the token `i`. The expression is
/// left out before a closing brace and at the end of the input.
#[verifier::opaque]
pub open spec fn return_at(ts: Seq<Option<TokenView>>, i: nat) -> Found<StmtView> {
    if tok(ts, i + 1) == Some(TokenView::Rbrace) || tok(ts, i + 1) == Some(TokenView::Eof) {
        Ok((StmtView::Return(None), 0))
    } else if !moves(ts, i) {
        Err(Fail::Rejected)
    } else {
        match expr_at(ts, i + 1, Precedence::Lowest) {
            Ok((e, c)) => Ok((StmtView::Return(Some(e)), 1 + c)),
            Err(fail) => Err(fail),
        }
    }
}

/// The parameters of a function definition, between the token `i`, an
/// opening parenthesis, and the closing one: each a name, a colon and a
/// type that is not `void`, with commas between them.
#[verifier::opaque]
pub open spec fn params_at(ts: Seq<Option<TokenView>>, i: nat) -> Found<Seq<ParamSyntax>> {
    if tok(ts, i + 1) == Some(TokenView::Rparen) {
        if !moves(ts, i) {
            Err(Fail::Rejected)
        } else {
            Ok((Seq::empty(), 1))
        }
    } else {
        params_rest(ts, Seq::empty(), i, 0)
    }
}

/// The rest of a list of parameters that was opened at the token `i` and
/// holds `acc` up to the token `i + c`, an opening parenthesis or a comma.
#[verifier::opaque]
pub open spec fn params_rest(
    ts: Seq<Option<TokenView>>,
    acc: Seq<ParamSyntax>,
    i: nat,
    c: nat,
) -> Found<Seq<ParamSyntax>>
    decreases remaining(ts, i + c),
{
    if !moves(ts, i + c) {
        Err(Fail::Rejected)
    } else {
        match tok(ts, i + c + 1) {
            Some(TokenView::Identifier(name)) => match expect_next(
                ts,
                i + c + 1,
                TokenView::Colon,
            ) {
                Some(fail) => Err(fail),
                None => if !moves(ts, i + c + 2) {
                    Err(Fail::Rejected)
                } else {
                    match type_at(ts, i + c + 3) {
                        Ok((t, c2)) => if t is Void {
                            Err(Fail::Syntax(void_parameter_message()))
                        } else if tok(ts, i + c + 4 + c2) == Some(TokenView::Comma) {
                            if !moves(ts, i + c + 3 + c2) {
                                Err(Fail::Rejected)
                            } else {
                                params_rest(
                                    ts,
                                    acc.push(ParamSyntax { name, type_: t }),
                                    i,
                                    c + 4 + c2,
                                )
                            }
                        } else {
                            match expect_next(ts, i + c + 3 + c2, TokenView::Rparen) {
                                Some(fail) => Err(fail),
                                None => Ok((acc.push(ParamSyntax { name, type_: t }), c + 4 + c2)),
                            }
                        },
                        Err(fail) => Err(fail),
                    }
                },
            },
            _ => Err(Fail::Syntax(identifier_message(seen(ts, i + c + 1)))),
        }
    }
}

/// The statement that starts at the token `i`.
#[verifier::opaque]
pub open spec fn stmt_at(ts: Seq<Option<TokenView>>, i: nat) -> Found<StmtView>
    decreases remaining(ts, i), 10nat,
{
    match tok(ts, i) {
        Some(TokenView::Let) => let_at(ts, i),
        Some(TokenView::Func) => func_at(ts, i),
        Some(TokenView::Return) => return_at(ts, i),
        Some(TokenView::If) => if_at(ts, i),
        Some(TokenView::For) => for_at(ts, i),
        _ => match expr_at(ts, i, Precedence::Lowest) {
            Ok((e, c)) => Ok((StmtView::Expr(e), c)),
            Err(fail) => Err(fail),
        },
    }
}

/// The statements between the token `i`, an opening brace, and the brace
/// that closes it.
#[verifier::opaque]
pub open spec fn block_at(ts: Seq<Option<TokenView>>, i: nat) -> Found<Seq<StmtView>>
    decreases remaining(ts, i), 8nat,
{
    if !moves(ts, i) {
        Err(Fail::Rejected)
    } else {
        block_rest(ts, Seq::empty(), i, 0)
    }
}

/// The rest of a block that was opened at the token `i` and holds `acc` up
/// to the token `i + c`.
#[verifier::opaque]
pub open spec fn block_rest(
    ts: Seq<Option<TokenView>>,
    acc: Seq<StmtView>,
    i: nat,
    c: nat,
) -> Found<Seq<StmtView>>
    decreases remaining(ts, i + c), 7nat,
{
    match tok(ts, i + c + 1) {
        Some(TokenView::Rbrace) => Ok((acc, c + 1)),
        Some(TokenView::Eof) => Err(
            Fail::Syntax(expected_message(TokenView::Rbrace, TokenView::Eof)),
        ),
        _ => match stmt_at(ts, i + c + 1) {
            Ok((s, c2)) => if !moves(ts, i + c + 1 + c2) {
                Err(Fail::Rejected)
            } else {
                block_rest(ts, acc.push(s), i, c + 1 + c2)
            },
            Err(fail) => Err(fail),
        },
    }
}

/// The alternative of an `if` statement whose consequence ends at the
/// token `k`: after `else`, a block; without `else`, none.
#[verifier::opaque]
pub open spec fn alternative_at(ts: Seq<Option<TokenView>>, k: nat) -> Found<
    Option<Seq<StmtView>>,
>
    decreases remaining(ts, k), 8nat,
{
    if tok(ts, k + 1) == Some(TokenView::Else) {
        if !moves(ts, k) {
            Err(Fail::Rejected)
        } else {
            match expect_next(ts, k + 1, TokenView::Lbrace) {
                Some(fail) => Err(fail),
                None => match block_at(ts, k + 2) {
                    Ok((alternative, c)) => Ok((Some(alternative), 2 + c)),
                    Err(fail) => Err(fail),
                },
            }
        }
    } else {
        Ok((None, 0))
    }
}

/// The `if` statement that starts at the token `i`: the condition, the
/// block of the consequence and, after `else`, the block of the
/// alternative.
#[verifier::opaque]
pub open spec fn if_at(ts: Seq<Option<TokenView>>, i: nat) -> Found<StmtView>
    decreases remaining(ts, i), 9nat,
{
    if !moves(ts, i) {
        Err(Fail::Rejected)
    } else {
        match expr_at(ts, i + 1, Precedence::Lowest) {
            Ok((condition, c)) => match expect_next(ts, i + 1 + c, TokenView::Lbrace) {
                Some(fail) => Err(fail),
                None => match block_at(ts, i + 2 + c) {
                    Ok((consequence, c2)) => match alternative_at(ts, i + 2 + c + c2) {
                        Ok((alternative, c3)) => Ok(
                            (
                                StmtView::If { condition, consequence, alternative },
                                2 + c + c2 + c3,
                            ),
                        ),
                        Err(fail) => Err(fail),
                    },
                    Err(fail) => Err(fail),
                },
            },
            Err(fail) => Err(fail),
        }
    }
}

/// The `for` statement that starts at the token `i`: the name of the
/// cursor, `in`, the iterable and the block.
#[verifier::opaque]
pub open spec fn for_at(ts: Seq<Option<TokenView>>, i: nat) -> Found<StmtView>
    decreases remaining(ts, i), 9nat,
{
    if !moves(ts, i) {
        Err(Fail::Rejected)
    } else {
        match tok(ts, i + 1) {
            Some(TokenView::Identifier(cursor)) => match expect_next(ts, i + 1, TokenView::In) {
                Some(fail) => Err(fail),
                None => if !moves(ts, i + 2) {
                    Err(Fail::Rejected)
                } else {
                    match expr_at(ts, i + 3, Precedence::Lowest) {
                        Ok((iterable, c)) => match expect_next(
                            ts,
                            i + 3 + c,
                            TokenView::Lbrace,
                        ) {
                            Some(fail) => Err(fail),
                            None => match block_at(ts, i + 4 + c) {
                                Ok((block, c2)) => Ok(
                                    (StmtView::ForLoop { cursor, iterable, block }, 4 + c + c2),
                                ),
                                Err(fail) => Err(fail),
                            },
                        },
                        Err(fail) => Err(fail),
                    }
                },
            },
            _ => Err(Fail::Syntax(identifier_message(seen(ts, i + 1)))),
        }
    }
}

/// The function definition that starts at the token `i`, which is
/// `define`: the name, the parameters, a colon, the return type and the
/// body.
#[verifier::opaque]
pub open spec fn func_at(ts: Seq<Option<TokenView>>, i: nat) -> Found<StmtView>
    decreases remaining(ts, i), 9nat,
{
    match tok(ts, i + 1) {
        Some(TokenView::Identifier(name)) => if !moves(ts, i) {
            Err(Fail::Rejected)
        } else {
            match expect_next(ts, i + 1, TokenView::Lparen) {
                Some(fail) => Err(fail),
                None => match params_at(ts, i + 2) {
                    Ok((params, c)) => match expect_next(ts, i + 2 + c, TokenView::Colon) {
                        Some(fail) => Err(fail),
                        None => if !moves(ts, i + 3 + c) {
                            Err(Fail::Rejected)
                        } else {
                            match type_at(ts, i + 4 + c) {
                                Ok((ret, c2)) => match expect_next(
                                    ts,
                                    i + 4 + c + c2,
                                    TokenView::Lbrace,
                                ) {
                                    Some(fail) => Err(fail),
                                    None => match block_at(ts, i + 5 + c + c2) {
                                        Ok((body, c3)) => Ok(
                                            (
                                                StmtView::Func(name, params, body, ret),
                                                5 + c + c2 + c3,
                                            ),
                                        ),
                                        Err(fail) => Err(fail),
                                    },
                                },
                                Err(fail) => Err(fail),
                            }
                        },
                    },
                    Err(fail) => Err(fail),
                },
            }
        },
        _ => Err(Fail::Syntax(identifier_message(seen(ts, i + 1)))),
    }
}

/// Parentheses leave no node in the tree: an expression between
/// parentheses is the expression itself, with the two parentheses among
/// its tokens.
pub proof fn law_parentheses_leave_no_node(ts: Seq<Option<TokenView>>, i: nat, e: ExprView, c: nat)
    requires
        clean(ts),
        tok(ts, i) == Some(TokenView::Lparen),
        expr_at(ts, i + 1, Precedence::Lowest) == found(e, c),
        tok(ts, i + 2 + c) == Some(TokenView::Rparen),
    ensures
        first_at(ts, i) == found(e, 2 + c),
{
    reveal_with_fuel(first_at, 1);
    reveal_with_fuel(expr_at, 1);
    assert(moves(ts, i));
    assert(moves(ts, i + 1 + c));
}

/// What a parse gives where it fails: the statements that were read
/// before, and why the next was not.
pub struct Halt {
    pub read: Seq<StmtView>,
    pub fail: Fail,
}

/// What the grammar finds where the tokens spell `program`.
pub open spec fn spelt(program: Seq<StmtView>) -> Result<Seq<StmtView>, Halt> {
    Ok(program)
}

/// The statements from the token `j` to the end of the input, after the
/// statements `acc`.
#[verifier::opaque]
pub open spec fn program_from(ts: Seq<Option<TokenView>>, acc: Seq<StmtView>, j: nat) -> Result<
    Seq<StmtView>,
    Halt,
>
    decreases remaining(ts, j),
{
    match tok(ts, j) {
        Some(TokenView::Eof) => Ok(acc),
        _ => match stmt_at(ts, j) {
            Ok((s, c)) => if !moves(ts, j + c) {
                Err(Halt { read: acc.push(s), fail: Fail::Rejected })
            } else {
                program_from(ts, acc.push(s), j + c + 1)
            },
            Err(fail) => Err(Halt { read: acc, fail }),
        },
    }
}

/// The program that the tokens `ts` spell, if they spell one. The parser
/// starts with two tokens read.
pub open spec fn program_of(ts: Seq<Option<TokenView>>) -> Result<Seq<StmtView>, Halt> {
    if tok(ts, 0) is None || tok(ts, 1) is None {
        Err(Halt { read: Seq::empty(), fail: Fail::Rejected })
    } else {
        program_from(ts, Seq::empty(), 0)
    }
}

/// The program that a source text spells, if it spells one.
pub open spec fn parse_source(input: Seq<char>) -> Option<Seq<StmtView>> {
    match program_of(token_stream(input, 0)) {
        Ok(program) => Some(program),
        Err(_) => None,
    }
}

/// The message of the text that the lexer rejects first from the position
/// `pos` on; nothing where it rejects none.
pub open spec fn rejection(input: Seq<char>, pos: int) -> Seq<char>
    decreases input.len() - pos,
{
    let l = lex(input, pos);
    match l.token {
        None => lex_message(input, pos),
        Some(TokenView::Eof) => Seq::empty(),
        Some(t) => if pos < l.next && l.next <= input.len() {
            rejection(input, l.next)
        } else {
            Seq::empty()
        },
    }
}

/// The message of a failure: that of the rejected text, or its own.
pub open spec fn fail_message(rejected: Seq<char>, fail: Fail) -> Seq<char> {
    match fail {
        Fail::Rejected => rejected,
        Fail::Syntax(msg) => msg,
    }
}

/// Past a token that the lexer accepts, the text that it rejects first is
/// the same.
pub proof fn lemma_rejection_step(input: Seq<char>, pos: int)
    requires
        0 <= pos <= input.len(),
    ensures
        lex(input, pos).token is None ==> rejection(input, pos) == lex_message(input, pos),
        lex(input, pos).token is Some ==> rejection(input, pos) == rejection(
            input,
            lex(input, pos).next,
        ),
{
    lemma_lex_advances(input, pos);
    if lex(input, pos).token == Some(TokenView::Eof) {
        lemma_eof_stays(input, pos);
    }
}


/// Whether the token `n` stands before the text that the lexer rejects,
/// where it rejects some: the tokens end with what is rejected.
pub open spec fn loaded(ts: Seq<Option<TokenView>>, n: nat) -> bool {
    ts.len() > 0 && ts.last() is None ==> n + 1 < ts.len()
}

/// A type that the grammar finds has been read, with the token after it.
pub proof fn lemma_type_loaded(ts: Seq<Option<TokenView>>, i: nat)
    requires
        loaded(ts, i + 1),
        type_at(ts, i) is Ok,
    ensures
        loaded(ts, i + type_at(ts, i)->Ok_0.1 + 1),
    decreases remaining(ts, i),
{
    reveal_with_fuel(type_at, 1);
    if tok(ts, i) == Some(TokenView::ClassArray) {
        lemma_type_loaded(ts, i + 2);
    }
}

/// An expression that the grammar finds has been read, with the token
/// after it.
pub proof fn lemma_expr_loaded(ts: Seq<Option<TokenView>>, i: nat, precedence: Precedence)
    requires
        loaded(ts, i + 1),
        expr_at(ts, i, precedence) is Ok,
    ensures
        loaded(ts, i + expr_at(ts, i, precedence)->Ok_0.1 + 1),
    decreases remaining(ts, i), 5nat,
{
    reveal_with_fuel(expr_at, 1);
    reveal_with_fuel(first_at, 1);
    reveal_with_fuel(infix_loop, 1);
    reveal_with_fuel(operator_at, 1);
    reveal_with_fuel(expr_list_at, 1);
    reveal_with_fuel(list_rest, 1);
    lemma_first_loaded(ts, i);
    let (left, c) = first_at(ts, i)->Ok_0;
    lemma_loop_loaded(ts, left, i, c, precedence);
}

/// An expression without an operator after it that the grammar finds has
/// been read, with the token after it.
pub proof fn lemma_first_loaded(ts: Seq<Option<TokenView>>, i: nat)
    requires
        loaded(ts, i + 1),
        first_at(ts, i) is Ok,
    ensures
        loaded(ts, i + first_at(ts, i)->Ok_0.1 + 1),
    decreases remaining(ts, i), 4nat,
{
    reveal_with_fuel(expr_at, 1);
    reveal_with_fuel(first_at, 1);
    reveal_with_fuel(infix_loop, 1);
    reveal_with_fuel(operator_at, 1);
    reveal_with_fuel(expr_list_at, 1);
    reveal_with_fuel(list_rest, 1);
    match tok(ts, i) {
        Some(TokenView::Identifier(_)) => {},
        Some(TokenView::String(_)) => {},
        Some(TokenView::Int(_)) => {},
        Some(TokenView::Float(_)) => {},
        Some(TokenView::True) => {},
        Some(TokenView::False) => {},
        Some(TokenView::Null) => {},
        Some(TokenView::Lparen) => {
            lemma_expr_loaded(ts, i + 1, Precedence::Lowest);
        },
        Some(TokenView::Lbracket) => {
            lemma_list_loaded(ts, i, TokenView::Rbracket);
        },
        Some(t) => {
            if prefix_of(t) is Some {
                lemma_expr_loaded(ts, i + 1, Precedence::Prefix);
            }
        },
        None => {},
    }
}

/// What an expression grows into by the operator after it has been read,
/// with the token after it.
pub proof fn lemma_operator_loaded(ts: Seq<Option<TokenView>>, left: ExprView, k: nat)
    requires
        loaded(ts, k + 1),
        operator_at(ts, left, k) is Ok,
    ensures
        loaded(ts, k + operator_at(ts, left, k)->Ok_0.1 + 1),
    decreases remaining(ts, k), 6nat,
{
    reveal_with_fuel(expr_at, 1);
    reveal_with_fuel(first_at, 1);
    reveal_with_fuel(infix_loop, 1);
    reveal_with_fuel(operator_at, 1);
    reveal_with_fuel(expr_list_at, 1);
    reveal_with_fuel(list_rest, 1);
    match tok(ts, k) {
        Some(TokenView::Lparen) => {
            lemma_list_loaded(ts, k, TokenView::Rparen);
        },
        Some(TokenView::Equal) => {
            lemma_expr_loaded(ts, k + 1, Precedence::Lowest);
        },
        Some(TokenView::DoublePlus) => {},
        Some(TokenView::DoubleMinus) => {},
        Some(TokenView::Dot) => {
            if tok(ts, k + 2) == Some(TokenView::Lparen) && tok(ts, k + 1) is Some && tok(
                ts,
                k + 1,
            )->Some_0 is Identifier {
                lemma_list_loaded(ts, k + 2, TokenView::Rparen);
            }
        },
        Some(t) => {
            if infix_of(t) is Some {
                lemma_expr_loaded(ts, k + 1, precedence_of(t));
            }
        },
        None => {},
    }
}

/// What an expression grows into by the operators after it has been
/// read, with the token after it.
pub proof fn lemma_loop_loaded(
    ts: Seq<Option<TokenView>>,
    left: ExprView,
    i: nat,
    c: nat,
    precedence: Precedence,
)
    requires
        loaded(ts, i + c + 1),
        infix_loop(ts, left, i, c, precedence) is Ok,
    ensures
        loaded(ts, i + infix_loop(ts, left, i, c, precedence)->Ok_0.1 + 1),
    decreases remaining(ts, i + c), 2nat,
{
    reveal_with_fuel(expr_at, 1);
    reveal_with_fuel(first_at, 1);
    reveal_with_fuel(infix_loop, 1);
    reveal_with_fuel(operator_at, 1);
    reveal_with_fuel(expr_list_at, 1);
    reveal_with_fuel(list_rest, 1);
    if precedence.level() < precedence_at(tok(ts, i + c + 1)).level() {
        lemma_operator_loaded(ts, left, i + c + 1);
        let (grown, c2) = operator_at(ts, left, i + c + 1)->Ok_0;
        lemma_loop_loaded(ts, grown, i, c + 1 + c2, precedence);
    }
}

/// A list of expressions that the grammar finds has been read, with the
/// token after it.
pub proof fn lemma_list_loaded(ts: Seq<Option<TokenView>>, i: nat, stop: TokenView)
    requires
        loaded(ts, i + 1),
        expr_list_at(ts, i, stop) is Ok,
    ensures
        loaded(ts, i + expr_list_at(ts, i, stop)->Ok_0.1 + 1),
    decreases remaining(ts, i), 3nat,
{
    reveal_with_fuel(expr_at, 1);
    reveal_with_fuel(first_at, 1);
    reveal_with_fuel(infix_loop, 1);
    reveal_with_fuel(operator_at, 1);
    reveal_with_fuel(expr_list_at, 1);
    reveal_with_fuel(list_rest, 1);
    if tok(ts, i + 1) != Some(stop) {
        lemma_expr_loaded(ts, i + 1, Precedence::Lowest);
        let (e, c) = expr_at(ts, i + 1, Precedence::Lowest)->Ok_0;
        lemma_list_rest_loaded(ts, seq![e], i, 1 + c, stop);
    }
}

/// The rest of a list of expressions that the grammar finds has been
/// read, with the token after it.
pub proof fn lemma_list_rest_loaded(
    ts: Seq<Option<TokenView>>,
    acc: Seq<ExprView>,
    i: nat,
    c: nat,
    stop: TokenView,
)
    requires
        loaded(ts, i + c + 1),
        list_rest(ts, acc, i, c, stop) is Ok,
    ensures
        loaded(ts, i + list_rest(ts, acc, i, c, stop)->Ok_0.1 + 1),
    decreases remaining(ts, i + c), 2nat,
{
    reveal_with_fuel(expr_at, 1);
    reveal_with_fuel(first_at, 1);
    reveal_with_fuel(infix_loop, 1);
    reveal_with_fuel(operator_at, 1);
    reveal_with_fuel(expr_list_at, 1);
    reveal_with_fuel(list_rest, 1);
    if tok(ts, i + c + 1) == Some(TokenView::Comma) {
        lemma_expr_loaded(ts, i + c + 2, Precedence::Lowest);
        let (e, c2) = expr_at(ts, i + c + 2, Precedence::Lowest)->Ok_0;
        lemma_list_rest_loaded(ts, acc.push(e), i, c + 2 + c2, stop);
    }
}

/// The parameters that the grammar finds have been read, with the token
/// after them.
pub proof fn lemma_params_loaded(ts: Seq<Option<TokenView>>, acc: Seq<ParamSyntax>, i: nat, c: nat)
    requires
        loaded(ts, i + c + 1),
        params_rest(ts, acc, i, c) is Ok,
    ensures
        loaded(ts, i + params_rest(ts, acc, i, c)->Ok_0.1 + 1),
    decreases remaining(ts, i + c),
{
    reveal_with_fuel(params_rest, 1);
    match tok(ts, i + c + 1) {
        Some(TokenView::Identifier(name)) => {
            lemma_type_loaded(ts, i + c + 3);
            let (t, c2) = type_at(ts, i + c + 3)->Ok_0;
            if tok(ts, i + c + 4 + c2) == Some(TokenView::Comma) {
                lemma_params_loaded(
                    ts,
                    acc.push(ParamSyntax { name, type_: t }),
                    i,
                    c + 4 + c2,
                );
            }
        },
        _ => {},
    }
}

/// A statement that the grammar finds has been read, with the token after
/// it.
pub proof fn lemma_stmt_loaded(ts: Seq<Option<TokenView>>, i: nat)
    requires
        loaded(ts, i + 1),
        stmt_at(ts, i) is Ok,
    ensures
        loaded(ts, i + stmt_at(ts, i)->Ok_0.1 + 1),
    decreases remaining(ts, i), 10nat,
{
    reveal_with_fuel(stmt_at, 1);
    reveal_with_fuel(if_at, 1);
    reveal_with_fuel(for_at, 1);
    reveal_with_fuel(func_at, 1);
    reveal_with_fuel(block_at, 1);
    reveal_with_fuel(block_rest, 1);
    reveal_with_fuel(alternative_at, 1);
    reveal_with_fuel(expr_at, 1);
    reveal_with_fuel(first_at, 1);
    match tok(ts, i) {
        Some(TokenView::Let) => lemma_let_loaded(ts, i),
        Some(TokenView::Func) => lemma_func_loaded(ts, i),
        Some(TokenView::Return) => lemma_return_loaded(ts, i),
        Some(TokenView::If) => lemma_if_loaded(ts, i),
        Some(TokenView::For) => lemma_for_loaded(ts, i),
        _ => {
            lemma_expr_loaded(ts, i, Precedence::Lowest);
        },
    }
}

/// A declaration that the grammar finds has been read, with the token after it.
proof fn lemma_let_loaded(ts: Seq<Option<TokenView>>, i: nat)
    requires
        loaded(ts, i + 1),
        tok(ts, i) == Some(TokenView::Let),
        let_at(ts, i) is Ok,
    ensures
        loaded(ts, i + let_at(ts, i)->Ok_0.1 + 1),
{
    reveal_with_fuel(let_at, 1);
    reveal_with_fuel(expr_at, 1);
    if tok(ts, i + 2) == Some(TokenView::Colon) {
        lemma_type_loaded(ts, i + 3);
        let (t, c) = type_at(ts, i + 3)->Ok_0;
        if tok(ts, i + 4 + c) == Some(TokenView::Equal) {
            lemma_expr_loaded(ts, i + 5 + c, Precedence::Lowest);
        }
    } else {
        lemma_expr_loaded(ts, i + 3, Precedence::Lowest);
    }
}

/// A `return` statement that the grammar finds has been read, with the token after it.
proof fn lemma_return_loaded(ts: Seq<Option<TokenView>>, i: nat)
    requires
        loaded(ts, i + 1),
        tok(ts, i) == Some(TokenView::Return),
        return_at(ts, i) is Ok,
    ensures
        loaded(ts, i + return_at(ts, i)->Ok_0.1 + 1),
{
    reveal_with_fuel(return_at, 1);
    reveal_with_fuel(expr_at, 1);
    if !(tok(ts, i + 1) == Some(TokenView::Rbrace) || tok(ts, i + 1) == Some(TokenView::Eof)) {
        lemma_expr_loaded(ts, i + 1, Precedence::Lowest);
    }
}

/// The alternative of an `if` statement that the grammar finds has been
/// read, with the token after it.
proof fn lemma_alternative_loaded(ts: Seq<Option<TokenView>>, k: nat)
    requires
        loaded(ts, k + 1),
        alternative_at(ts, k) is Ok,
    ensures
        loaded(ts, k + alternative_at(ts, k)->Ok_0.1 + 1),
    decreases remaining(ts, k), 8nat,
{
    reveal_with_fuel(alternative_at, 1);
    reveal_with_fuel(block_at, 1);
    if tok(ts, k + 1) == Some(TokenView::Else) {
        lemma_block_loaded(ts, k + 2);
    }
}

/// An `if` statement that the grammar finds has been read, with the token after it.
proof fn lemma_if_loaded(ts: Seq<Option<TokenView>>, i: nat)
    requires
        loaded(ts, i + 1),
        tok(ts, i) == Some(TokenView::If),
        if_at(ts, i) is Ok,
    ensures
        loaded(ts, i + if_at(ts, i)->Ok_0.1 + 1),
    decreases remaining(ts, i), 9nat,
{
    reveal_with_fuel(if_at, 1);
    reveal_with_fuel(alternative_at, 1);
    reveal_with_fuel(expr_at, 1);
    reveal_with_fuel(block_at, 1);
    lemma_expr_loaded(ts, i + 1, Precedence::Lowest);
    let (condition, c) = expr_at(ts, i + 1, Precedence::Lowest)->Ok_0;
    assert(loaded(ts, i + 1 + c + 1));
    lemma_block_loaded(ts, i + 2 + c);
    let (consequence, c2) = block_at(ts, i + 2 + c)->Ok_0;
    let k = i + 2 + c + c2;
    assert(loaded(ts, k + 1));
    lemma_alternative_loaded(ts, k);
    let c3 = alternative_at(ts, k)->Ok_0.1;
    assert(if_at(ts, i)->Ok_0.1 == 2 + c + c2 + c3);
}

/// A `for` statement that the grammar finds has been read, with the token after it.
proof fn lemma_for_loaded(ts: Seq<Option<TokenView>>, i: nat)
    requires
        loaded(ts, i + 1),
        tok(ts, i) == Some(TokenView::For),
        for_at(ts, i) is Ok,
    ensures
        loaded(ts, i + for_at(ts, i)->Ok_0.1 + 1),
    decreases remaining(ts, i), 9nat,
{
    reveal_with_fuel(for_at, 1);
    reveal_with_fuel(expr_at, 1);
    reveal_with_fuel(block_at, 1);
    lemma_expr_loaded(ts, i + 3, Precedence::Lowest);
    let (iterable, c) = expr_at(ts, i + 3, Precedence::Lowest)->Ok_0;
    lemma_block_loaded(ts, i + 4 + c);
}

/// A function definition that the grammar finds has been read, with the token after it.
proof fn lemma_func_loaded(ts: Seq<Option<TokenView>>, i: nat)
    requires
        loaded(ts, i + 1),
        tok(ts, i) == Some(TokenView::Func),
        func_at(ts, i) is Ok,
    ensures
        loaded(ts, i + func_at(ts, i)->Ok_0.1 + 1),
    decreases remaining(ts, i), 9nat,
{
    reveal_with_fuel(func_at, 1);
    reveal_with_fuel(params_at, 1);
    reveal_with_fuel(block_at, 1);
    if tok(ts, i + 3) != Some(TokenView::Rparen) {
        lemma_params_loaded(ts, Seq::empty(), i + 2, 0);
    }
    let (params, c) = params_at(ts, i + 2)->Ok_0;
    lemma_type_loaded(ts, i + 4 + c);
    let (ret, c2) = type_at(ts, i + 4 + c)->Ok_0;
    lemma_block_loaded(ts, i + 5 + c + c2);
}

/// A block that the grammar finds has been read, with the token after it.
pub proof fn lemma_block_loaded(ts: Seq<Option<TokenView>>, i: nat)
    requires
        loaded(ts, i + 1),
        block_at(ts, i) is Ok,
        i < ts.len(),
    ensures
        loaded(ts, i + block_at(ts, i)->Ok_0.1 + 1),
    decreases remaining(ts, i), 8nat,
{
    reveal_with_fuel(stmt_at, 1);
    reveal_with_fuel(if_at, 1);
    reveal_with_fuel(for_at, 1);
    reveal_with_fuel(func_at, 1);
    reveal_with_fuel(block_at, 1);
    reveal_with_fuel(block_rest, 1);
    reveal_with_fuel(alternative_at, 1);
    reveal_with_fuel(expr_at, 1);
    reveal_with_fuel(first_at, 1);
    lemma_block_rest_loaded(ts, Seq::empty(), i, 0);
}

/// The rest of a block that the grammar finds has been read, with the
/// token after it.
pub proof fn lemma_block_rest_loaded(
    ts: Seq<Option<TokenView>>,
    acc: Seq<StmtView>,
    i: nat,
    c: nat,
)
    requires
        loaded(ts, i + c + 2),
        block_rest(ts, acc, i, c) is Ok,
        i + c < ts.len(),
    ensures
        loaded(ts, i + block_rest(ts, acc, i, c)->Ok_0.1 + 1),
    decreases remaining(ts, i + c), 7nat,
{
    reveal_with_fuel(stmt_at, 1);
    reveal_with_fuel(if_at, 1);
    reveal_with_fuel(for_at, 1);
    reveal_with_fuel(func_at, 1);
    reveal_with_fuel(block_at, 1);
    reveal_with_fuel(block_rest, 1);
    reveal_with_fuel(alternative_at, 1);
    reveal_with_fuel(expr_at, 1);
    reveal_with_fuel(first_at, 1);
    match tok(ts, i + c + 1) {
        Some(TokenView::Rbrace) => {},
        Some(TokenView::Eof) => {},
        _ => {
            lemma_stmt_loaded(ts, i + c + 1);
            let (s, c2) = stmt_at(ts, i + c + 1)->Ok_0;
            lemma_block_rest_loaded(ts, acc.push(s), i, c + 1 + c2);
        },
    }
}

/// Where the grammar finds a program, the parser has read every token up
/// to the end of the input and one more.
pub proof fn lemma_program_loaded(ts: Seq<Option<TokenView>>, acc: Seq<StmtView>, j: nat)
    requires
        loaded(ts, j + 1),
        program_from(ts, acc, j) is Ok,
    ensures
        exists|end: nat| loaded(ts, end + 1) && #[trigger] tok(ts, end) == Some(TokenView::Eof),
    decreases remaining(ts, j),
{
    reveal_with_fuel(program_from, 1);
    reveal_with_fuel(stmt_at, 1);
    reveal_with_fuel(if_at, 1);
    reveal_with_fuel(for_at, 1);
    reveal_with_fuel(func_at, 1);
    reveal_with_fuel(block_at, 1);
    reveal_with_fuel(block_rest, 1);
    reveal_with_fuel(alternative_at, 1);
    reveal_with_fuel(expr_at, 1);
    reveal_with_fuel(first_at, 1);
    match tok(ts, j) {
        Some(TokenView::Eof) => {},
        _ => {
            lemma_stmt_loaded(ts, j);
            let (s, c) = stmt_at(ts, j)->Ok_0;
            lemma_program_loaded(ts, acc.push(s), j + c + 1);
        },
    }
}

/// A source that spells a program holds no text that the lexer rejects.
pub proof fn law_spelt_source_is_clean(input: Seq<char>)
    requires
        parse_source(input) is Some,
    ensures
        clean(token_stream(input, 0)),
{
    let ts = token_stream(input, 0);
    lemma_stream_unfold(input, 0);
    lemma_stream_shape(input, 0);
    assert(tok(ts, 0) is Some && tok(ts, 1) is Some);
    assert(loaded(ts, 1));
    lemma_program_loaded(ts, Seq::empty(), 0);
    let end = choose|end: nat|
        loaded(ts, end + 1) && #[trigger] tok(ts, end) == Some(TokenView::Eof);
    if ts.last() is None {
        assert(ts[end as int] == Some(TokenView::Eof));
    }
    assert forall|j: nat| (#[trigger] tok(ts, j)) is Some by {
        if j < ts.len() - 1 {
            assert(ts[j as int] is Some);
        }
    }
}

} // verus!
