//! What the parser reads can be written: a program that the grammar finds
//! in the tokens of a source is of the forms that are written, and its
//! names and literals are those of tokens that the lexer read. So the text
//! of every parsed program parses back to the program.

use crate::ast::{
    stmts_view, ExprType, ExprView, LiteralView, ParamSyntax, Precedence, Program, StmtView,
};
use crate::grammar::{
    alternative_at, block_at, block_rest, expr_at, expr_list_at, first_at, for_at, func_at, if_at,
    infix_loop, infix_of, let_at, list_rest, operator_at, params_at, params_rest, parse_source,
    precedence_at, precedence_of, prefix_of, program_from, remaining, return_at, seen,
    stmt_at, tok, token_stream, type_at,
};
use crate::lexer::{lemma_lex_advances, lex};
use crate::parser::parse_outcome;
use crate::parser_error::ParserError;
use crate::notation::{
    all_writable, callee, infix_level, infix_token, is_loose, left_operand, names_field, operand,
    head_token, lemma_shown_starts, postfix_token, prefix_token, shown, shown_block, shown_list,
    shown_param, shown_params, shown_params_from, shown_stmt, shown_stmts, shown_tail,
    shown_type, token_after, unwrapped, writable, writable_params, writable_stmt,
    writable_stmts,
};
use crate::spelling::{
    all_spellable, law_lexed_token_is_spellable, law_written_text_parses, program_text, spellable,
};
use crate::token::TokenView;
use vstd::prelude::*;

verus! {

/// Whether every token of a stream is one that some text gives, but for
/// the end of the input and an illegal character.
pub open spec fn lexed(ts: Seq<Option<TokenView>>) -> bool {
    forall|j: nat|
        match #[trigger] tok(ts, j) {
            Some(token) => spellable(token) || token is Eof || token is Illegal,
            None => true,
        }
}

/// The tokens of a source are tokens that the lexer read.
pub proof fn lemma_stream_lexed(input: Seq<char>, pos: int)
    requires
        0 <= pos <= input.len(),
    ensures
        lexed(token_stream(input, pos)),
    decreases input.len() - pos,
{
    let ts = token_stream(input, pos);
    let l = lex(input, pos);
    lemma_lex_advances(input, pos);
    law_lexed_token_is_spellable(input, pos);
    match l.token {
        None => {},
        Some(TokenView::Eof) => {},
        Some(t) => {
            let after = token_stream(input, l.next);
            lemma_stream_lexed(input, l.next);
            assert(ts == seq![Some(t)] + after);
            assert forall|j: nat|
                match #[trigger] tok(ts, j) {
                    Some(token) => spellable(token) || token is Eof || token is Illegal,
                    None => true,
                } by {
                if j > 0 {
                    assert(tok(ts, j) == tok(after, (j - 1) as nat));
                }
            }
        },
    }
}

/// Whether a name is one that the lexer reads as a name.
pub open spec fn name_ok(name: Seq<char>) -> bool {
    spellable(TokenView::Identifier(name))
}

/// Whether every expression of a list is legible.
pub open spec fn all_legible(items: Seq<ExprView>) -> bool
    decreases items, 0nat,
{
    forall|k: int| 0 <= k < items.len() ==> legible(#[trigger] items[k])
}

/// Whether an expression is of a form that the grammar yields, with names
/// and literals that the lexer reads.
pub open spec fn legible(e: ExprView) -> bool
    decreases e, 0nat,
{
    match e {
        ExprView::Literal(LiteralView::Int(v)) => v >= 0,
        ExprView::Literal(LiteralView::Float(s)) => spellable(TokenView::Float(s)),
        ExprView::Literal(LiteralView::String(s)) => spellable(TokenView::String(s)),
        ExprView::Literal(LiteralView::Array(items)) => all_legible(items),
        ExprView::Literal(_) => true,
        ExprView::Identifier(name) => name_ok(name),
        ExprView::Prefix(_, inner) => legible(*inner),
        ExprView::Infix(lhs, _, rhs) => legible(*lhs) && legible(*rhs),
        ExprView::Postfix(inner, _) => legible(*inner),
        ExprView::Assign(name, value) => name_ok(name) && legible(*value),
        ExprView::Call(func, args) => legible(*func) && all_legible(args),
        ExprView::FieldAcc(src, target) => legible(*src) && match *target {
            ExprView::Identifier(name) => name_ok(name),
            ExprView::Call(method, args) => match *method {
                ExprView::Identifier(name) => name_ok(name) && all_legible(args),
                _ => false,
            },
            _ => false,
        },
    }
}

/// Whether every statement of a list is legible.
pub open spec fn all_legible_stmts(stmts: Seq<StmtView>) -> bool
    decreases stmts, 0nat,
{
    forall|k: int| 0 <= k < stmts.len() ==> legible_stmt(#[trigger] stmts[k])
}

/// Whether the names and literals of a statement are such that the lexer
/// reads, and its expressions of forms that the grammar yields.
pub open spec fn legible_stmt(s: StmtView) -> bool
    decreases s, 0nat,
{
    match s {
        StmtView::Expr(e) => legible(e),
        StmtView::Let(name, _, Some(e)) => name_ok(name) && legible(e),
        StmtView::Let(name, _, None) => name_ok(name),
        StmtView::Return(Some(e)) => legible(e),
        StmtView::Return(None) => true,
        StmtView::If { condition, consequence, alternative } => legible(condition)
            && all_legible_stmts(consequence) && match alternative {
            Some(block) => all_legible_stmts(block),
            None => true,
        },
        StmtView::ForLoop { cursor, iterable, block } => name_ok(cursor) && legible(iterable)
            && all_legible_stmts(block),
        StmtView::Func(name, params, body, _) => name_ok(name) && legible_params(params)
            && all_legible_stmts(body),
    }
}

/// Whether the names of parameters are names that the lexer reads.
pub open spec fn legible_params(params: Seq<ParamSyntax>) -> bool {
    forall|k: int| 0 <= k < params.len() ==> name_ok((#[trigger] params[k]).name)
}

/// Tokens that some text gives, one list after another, are tokens that
/// some text gives.
pub proof fn lemma_spellable_concat(a: Seq<TokenView>, b: Seq<TokenView>)
    requires
        all_spellable(a),
        all_spellable(b),
    ensures
        all_spellable(a + b),
{
    assert forall|k: int| 0 <= k < (a + b).len() implies spellable(#[trigger] (a + b)[k]) by {
        if k < a.len() {
            assert((a + b)[k] == a[k]);
        } else {
            assert((a + b)[k] == b[k - a.len()]);
        }
    }
}

/// A legible expression is of a form that is written.
pub proof fn lemma_legible_writable(e: ExprView)
    requires
        legible(e),
    ensures
        writable(e),
    decreases e,
{
    match e {
        ExprView::Literal(LiteralView::Array(items)) => {
            lemma_all_legible_writable(items);
        },
        ExprView::Literal(_) => {},
        ExprView::Identifier(_) => {},
        ExprView::Prefix(_, inner) => {
            lemma_legible_writable(*inner);
        },
        ExprView::Infix(lhs, _, rhs) => {
            lemma_legible_writable(*lhs);
            lemma_legible_writable(*rhs);
        },
        ExprView::Postfix(inner, _) => {
            lemma_legible_writable(*inner);
        },
        ExprView::Assign(_, value) => {
            lemma_legible_writable(*value);
        },
        ExprView::Call(func, args) => {
            lemma_legible_writable(*func);
            lemma_all_legible_writable(args);
        },
        ExprView::FieldAcc(src, target) => {
            lemma_legible_writable(*src);
            match *target {
                ExprView::Call(method, args) => {
                    lemma_all_legible_writable(args);
                },
                _ => {},
            }
        },
    }
}

/// Legible expressions are of forms that are written.
pub proof fn lemma_all_legible_writable(items: Seq<ExprView>)
    requires
        all_legible(items),
    ensures
        all_writable(items),
    decreases items,
{
    assert forall|k: int| 0 <= k < items.len() implies writable(#[trigger] items[k]) by {
        lemma_legible_writable(items[k]);
    }
}


/// The tokens of a legible expression, written as an operand, are tokens
/// that some text gives.
pub proof fn lemma_operand_spellable(e: ExprView)
    requires
        legible(e),
    ensures
        all_spellable(operand(e)),
    decreases e, 1nat,
{
    let lp = seq![TokenView::Lparen];
    let rp = seq![TokenView::Rparen];
    match e {
        ExprView::Literal(LiteralView::Array(items)) => {
            lemma_list_spellable(TokenView::Lbracket, items, TokenView::Rbracket);
        },
        ExprView::Literal(_) => {},
        ExprView::Identifier(_) => {},
        ExprView::Call(func, args) => {
            lemma_callee_spellable(*func);
            lemma_list_spellable(TokenView::Lparen, args, TokenView::Rparen);
            lemma_spellable_concat(
                callee(*func),
                shown_list(TokenView::Lparen, args, TokenView::Rparen),
            );
        },
        ExprView::Postfix(inner, postfix) => {
            lemma_operand_spellable(*inner);
            lemma_spellable_concat(operand(*inner), seq![postfix_token(postfix)]);
        },
        ExprView::FieldAcc(src, target) => {
            lemma_operand_spellable(*src);
            match *target {
                ExprView::Identifier(name) => {
                    let o = seq![TokenView::Dot, TokenView::Identifier(name)];
                    lemma_spellable_concat(operand(*src), o);
                },
                ExprView::Call(method, args) => {
                    match *method {
                        ExprView::Identifier(name) => {
                            let o = seq![TokenView::Dot, TokenView::Identifier(name)];
                            let l = shown_list(TokenView::Lparen, args, TokenView::Rparen);
                            lemma_list_spellable(TokenView::Lparen, args, TokenView::Rparen);
                            lemma_spellable_concat(operand(*src), o);
                            lemma_spellable_concat(operand(*src) + o, l);
                        },
                        _ => {},
                    }
                },
                _ => {},
            }
        },
        _ => {
            lemma_unwrapped_spellable(e);
            lemma_spellable_concat(lp, unwrapped(e));
            lemma_spellable_concat(lp + unwrapped(e), rp);
        },
    }
}

/// The tokens of a legible assignment or operator with its operands are
/// tokens that some text gives.
pub proof fn lemma_unwrapped_spellable(e: ExprView)
    requires
        legible(e),
    ensures
        all_spellable(unwrapped(e)),
    decreases e, 0nat,
{
    match e {
        ExprView::Assign(name, value) => {
            let a = seq![TokenView::Identifier(name), TokenView::Equal];
            lemma_shown_spellable(*value);
            lemma_spellable_concat(a, shown(*value));
        },
        ExprView::Infix(lhs, infix, rhs) => {
            let a = left_operand(*lhs, infix_level(infix));
            let o = seq![infix_token(infix)];
            lemma_left_spellable(*lhs, infix_level(infix));
            lemma_operand_spellable(*rhs);
            lemma_spellable_concat(a, o);
            lemma_spellable_concat(a + o, operand(*rhs));
        },
        ExprView::Prefix(prefix, inner) => {
            lemma_operand_spellable(*inner);
            lemma_spellable_concat(seq![prefix_token(prefix)], operand(*inner));
        },
        _ => {},
    }
}

/// The tokens of a legible left operand are tokens that some text gives.
pub proof fn lemma_left_spellable(e: ExprView, level: int)
    requires
        legible(e),
    ensures
        all_spellable(left_operand(e, level)),
    decreases e, 2nat,
{
    match e {
        ExprView::Infix(lhs, infix, rhs) => {
            if infix_level(infix) >= level {
                let a = left_operand(*lhs, infix_level(infix));
                let o = seq![infix_token(infix)];
                lemma_left_spellable(*lhs, infix_level(infix));
                lemma_operand_spellable(*rhs);
                lemma_spellable_concat(a, o);
                lemma_spellable_concat(a + o, operand(*rhs));
            } else {
                lemma_operand_spellable(e);
            }
        },
        ExprView::Prefix(prefix, inner) => {
            lemma_operand_spellable(*inner);
            lemma_spellable_concat(seq![prefix_token(prefix)], operand(*inner));
        },
        _ => {
            lemma_operand_spellable(e);
        },
    }
}

/// The tokens of what a call calls are tokens that some text gives.
pub proof fn lemma_callee_spellable(e: ExprView)
    requires
        legible(e),
    ensures
        all_spellable(callee(e)),
    decreases e, 2nat,
{
    lemma_operand_spellable(e);
    if names_field(e) {
        let lp = seq![TokenView::Lparen];
        let rp = seq![TokenView::Rparen];
        lemma_spellable_concat(lp, operand(e));
        lemma_spellable_concat(lp + operand(e), rp);
    }
}

/// The tokens of a legible expression are tokens that some text gives.
pub proof fn lemma_shown_spellable(e: ExprView)
    requires
        legible(e),
    ensures
        all_spellable(shown(e)),
    decreases e, 2nat,
{
    if is_loose(e) {
        lemma_unwrapped_spellable(e);
    } else {
        lemma_operand_spellable(e);
    }
}

/// The tokens of a list of legible expressions are tokens that some text
/// gives.
pub proof fn lemma_list_spellable(open: TokenView, items: Seq<ExprView>, stop: TokenView)
    requires
        all_legible(items),
        spellable(open),
        spellable(stop),
    ensures
        all_spellable(shown_list(open, items, stop)),
    decreases items, items.len() + 1,
{
    if items.len() > 0 {
        assert(legible(items[0]));
        lemma_shown_spellable(items[0]);
        lemma_tail_spellable(items, 1, stop);
        lemma_spellable_concat(seq![open], shown(items[0]));
        lemma_spellable_concat(seq![open] + shown(items[0]), shown_tail(items, 1, stop));
    }
}

/// The tokens of the rest of a list of legible expressions are tokens that
/// some text gives.
pub proof fn lemma_tail_spellable(items: Seq<ExprView>, n: nat, stop: TokenView)
    requires
        all_legible(items),
        spellable(stop),
    ensures
        all_spellable(shown_tail(items, n, stop)),
    decreases items, items.len() - n,
{
    if n < items.len() {
        let comma = seq![TokenView::Comma];
        assert(legible(items[n as int]));
        lemma_shown_spellable(items[n as int]);
        lemma_tail_spellable(items, n + 1, stop);
        lemma_spellable_concat(comma, shown(items[n as int]));
        lemma_spellable_concat(comma + shown(items[n as int]), shown_tail(items, n + 1, stop));
    }
}

/// The tokens of a type are tokens that some text gives.
pub proof fn lemma_type_spellable(t: ExprType)
    ensures
        all_spellable(shown_type(t)),
    decreases t,
{
    match t {
        ExprType::Array(inner) => {
            let a = seq![TokenView::ClassArray, TokenView::LessThan];
            lemma_type_spellable(*inner);
            lemma_spellable_concat(a, shown_type(*inner));
            lemma_spellable_concat(a + shown_type(*inner), seq![TokenView::GratherThan]);
        },
        _ => {},
    }
}

/// The tokens of parameters with legible names are tokens that some text
/// gives.
pub proof fn lemma_params_spellable(params: Seq<ParamSyntax>, n: nat)
    requires
        legible_params(params),
    ensures
        all_spellable(shown_params_from(params, n)),
        n == 0 ==> all_spellable(shown_params(params)),
    decreases params.len() - n,
{
    if n < params.len() {
        let param = params[n as int];
        let head = seq![TokenView::Identifier(param.name), TokenView::Colon];
        assert(name_ok(param.name));
        lemma_type_spellable(param.type_);
        lemma_spellable_concat(head, shown_type(param.type_));
        if n + 1 < params.len() {
            lemma_params_spellable(params, n + 1);
            lemma_spellable_concat(shown_param(param), seq![TokenView::Comma]);
            lemma_spellable_concat(
                shown_param(param) + seq![TokenView::Comma],
                shown_params_from(params, n + 1),
            );
        } else {
            lemma_spellable_concat(shown_param(param), seq![TokenView::Rparen]);
        }
    }
    if n == 0 {
        lemma_spellable_concat(seq![TokenView::Lparen], shown_params_from(params, 0));
    }
}

/// The tokens of a legible statement are tokens that some text gives.
pub proof fn lemma_stmt_spellable(s: StmtView)
    requires
        legible_stmt(s),
    ensures
        all_spellable(shown_stmt(s)),
    decreases s, 0nat,
{
    match s {
        StmtView::Expr(e) => {
            lemma_shown_spellable(e);
        },
        StmtView::Let(name, Some(t), Some(e)) => {
            let a = seq![TokenView::Let, TokenView::Identifier(name), TokenView::Colon];
            let o = seq![TokenView::Equal];
            lemma_type_spellable(t);
            lemma_shown_spellable(e);
            lemma_spellable_concat(a, shown_type(t));
            lemma_spellable_concat(a + shown_type(t), o);
            lemma_spellable_concat(a + shown_type(t) + o, shown(e));
        },
        StmtView::Let(name, Some(t), None) => {
            let a = seq![TokenView::Let, TokenView::Identifier(name), TokenView::Colon];
            lemma_type_spellable(t);
            lemma_spellable_concat(a, shown_type(t));
        },
        StmtView::Let(name, None, Some(e)) => {
            let a = seq![TokenView::Let, TokenView::Identifier(name), TokenView::Equal];
            lemma_shown_spellable(e);
            lemma_spellable_concat(a, shown(e));
        },
        StmtView::Let(name, None, None) => {},
        StmtView::Return(None) => {},
        StmtView::Return(Some(e)) => {
            lemma_shown_spellable(e);
            lemma_spellable_concat(seq![TokenView::Return], shown(e));
        },
        StmtView::If { condition, consequence, alternative } => {
            let a = seq![TokenView::If];
            lemma_shown_spellable(condition);
            lemma_block_spellable(consequence);
            lemma_spellable_concat(a, shown(condition));
            lemma_spellable_concat(a + shown(condition), shown_block(consequence));
            let most = a + shown(condition) + shown_block(consequence);
            match alternative {
                Some(block) => {
                    lemma_block_spellable(block);
                    lemma_spellable_concat(seq![TokenView::Else], shown_block(block));
                    lemma_spellable_concat(most, seq![TokenView::Else] + shown_block(block));
                },
                None => {
                    assert(most + Seq::<TokenView>::empty() =~= most);
                },
            }
        },
        StmtView::ForLoop { cursor, iterable, block } => {
            let a = seq![TokenView::For, TokenView::Identifier(cursor), TokenView::In];
            lemma_shown_spellable(iterable);
            lemma_block_spellable(block);
            lemma_spellable_concat(a, shown(iterable));
            lemma_spellable_concat(a + shown(iterable), shown_block(block));
        },
        StmtView::Func(name, params, body, ret) => {
            let a = seq![TokenView::Func, TokenView::Identifier(name)];
            let o = seq![TokenView::Colon];
            lemma_params_spellable(params, 0);
            lemma_type_spellable(ret);
            lemma_block_spellable(body);
            lemma_spellable_concat(a, shown_params(params));
            lemma_spellable_concat(a + shown_params(params), o);
            lemma_spellable_concat(a + shown_params(params) + o, shown_type(ret));
            lemma_spellable_concat(
                a + shown_params(params) + o + shown_type(ret),
                shown_block(body),
            );
        },
    }
}

/// The tokens of legible statements are tokens that some text gives.
pub proof fn lemma_stmts_spellable(stmts: Seq<StmtView>, n: nat)
    requires
        all_legible_stmts(stmts),
    ensures
        all_spellable(shown_stmts(stmts, n)),
    decreases stmts, stmts.len() - n,
{
    if n < stmts.len() {
        assert(legible_stmt(stmts[n as int]));
        lemma_stmt_spellable(stmts[n as int]);
        lemma_stmts_spellable(stmts, n + 1);
        lemma_spellable_concat(shown_stmt(stmts[n as int]), shown_stmts(stmts, n + 1));
    }
}

/// The tokens of a block of legible statements are tokens that some text
/// gives.
pub proof fn lemma_block_spellable(stmts: Seq<StmtView>)
    requires
        all_legible_stmts(stmts),
    ensures
        all_spellable(shown_block(stmts)),
    decreases stmts, stmts.len() + 1,
{
    let lb = seq![TokenView::Lbrace];
    lemma_stmts_spellable(stmts, 0);
    lemma_spellable_concat(lb, shown_stmts(stmts, 0));
    lemma_spellable_concat(lb + shown_stmts(stmts, 0), seq![TokenView::Rbrace]);
}


/// The first token of an expression that is written from its first
/// operand on.
pub open spec fn lead(e: ExprView) -> TokenView
    decreases e,
{
    match e {
        ExprView::Identifier(name) => TokenView::Identifier(name),
        ExprView::Literal(LiteralView::Int(v)) => TokenView::Int(v),
        ExprView::Literal(LiteralView::Float(s)) => TokenView::Float(s),
        ExprView::Literal(LiteralView::String(s)) => TokenView::String(s),
        ExprView::Literal(LiteralView::Boolean(b)) => if b {
            TokenView::True
        } else {
            TokenView::False
        },
        ExprView::Literal(LiteralView::Null) => TokenView::Null,
        ExprView::Literal(LiteralView::Array(_)) => TokenView::Lbracket,
        ExprView::Prefix(prefix, _) => prefix_token(prefix),
        ExprView::Infix(lhs, _, _) => lead(*lhs),
        ExprView::Postfix(inner, _) => lead(*inner),
        ExprView::Assign(name, _) => TokenView::Identifier(name),
        ExprView::Call(func, _) => lead(*func),
        ExprView::FieldAcc(src, _) => lead(*src),
    }
}

/// Whether an expression, as an operand, is written from its first operand
/// on: no parenthesis opens it.
pub open spec fn opens_bare(e: ExprView) -> bool
    decreases e,
{
    match e {
        ExprView::Identifier(_) => true,
        ExprView::Literal(_) => true,
        ExprView::Call(func, _) => !names_field(*func) && opens_bare(*func),
        ExprView::Postfix(inner, _) => opens_bare(*inner),
        ExprView::FieldAcc(src, _) => opens_bare(*src),
        _ => false,
    }
}

/// Whether an expression, as the left operand of an operator that binds at
/// `level`, is written from its first operand on.
pub open spec fn left_bare(e: ExprView, level: int) -> bool
    decreases e,
{
    match e {
        ExprView::Infix(lhs, infix, _) => infix_level(infix) >= level && left_bare(
            *lhs,
            infix_level(infix),
        ),
        ExprView::Prefix(..) => true,
        _ => opens_bare(e),
    }
}

/// Whether an expression is written from its first operand on.
pub open spec fn top_bare(e: ExprView) -> bool {
    match e {
        ExprView::Assign(..) => true,
        ExprView::Prefix(..) => true,
        ExprView::Infix(lhs, infix, _) => left_bare(*lhs, infix_level(infix)),
        _ => opens_bare(e),
    }
}

/// Whether the token `next` after an expression leaves it as it is: it is
/// no operator that the grammar would have given to a part of the
/// expression.
pub open spec fn keeps_off(e: ExprView, next: Option<TokenView>) -> bool {
    let level = precedence_at(next).level();
    match e {
        ExprView::Infix(_, infix, _) => level <= infix_level(infix),
        ExprView::Prefix(..) => level <= Precedence::Prefix.level(),
        ExprView::Assign(..) => level <= Precedence::Lowest.level(),
        _ => names_field(e) ==> next != Some(TokenView::Lparen),
    }
}

/// An operand that is written from its first operand on starts with it.
pub proof fn lemma_operand_lead(e: ExprView)
    requires
        writable(e),
        opens_bare(e),
    ensures
        operand(e).len() >= 1,
        operand(e)[0] == lead(e),
    decreases e,
{
    match e {
        ExprView::Literal(LiteralView::Array(items)) => {
            let list = shown_list(TokenView::Lbracket, items, TokenView::Rbracket);
            assert(list.len() >= 1 && list[0] == TokenView::Lbracket);
        },
        ExprView::Call(func, args) => {
            lemma_operand_lead(*func);
            assert(callee(*func) == operand(*func));
        },
        ExprView::Postfix(inner, _) => {
            lemma_operand_lead(*inner);
        },
        ExprView::FieldAcc(src, target) => {
            lemma_operand_lead(*src);
        },
        _ => {},
    }
}

/// A left operand that is written from its first operand on starts with
/// it.
pub proof fn lemma_left_lead(e: ExprView, level: int)
    requires
        writable(e),
        left_bare(e, level),
    ensures
        left_operand(e, level).len() >= 1,
        left_operand(e, level)[0] == lead(e),
    decreases e,
{
    match e {
        ExprView::Infix(lhs, infix, _) => {
            lemma_left_lead(*lhs, infix_level(infix));
        },
        ExprView::Prefix(..) => {},
        _ => {
            lemma_operand_lead(e);
        },
    }
}

/// An expression that is written from its first operand on starts with
/// it.
pub proof fn lemma_shown_lead(e: ExprView)
    requires
        writable(e),
        top_bare(e),
    ensures
        shown(e).len() >= 1,
        shown(e)[0] == lead(e),
{
    match e {
        ExprView::Infix(lhs, infix, _) => {
            lemma_left_lead(*lhs, infix_level(infix));
        },
        ExprView::Assign(..) => {},
        ExprView::Prefix(..) => {},
        _ => {
            lemma_operand_lead(e);
        },
    }
}

/// What the grammar reads as an expression is legible, and it ends before
/// a token that binds no more tightly than what it was read for.
pub proof fn lemma_expr_read(ts: Seq<Option<TokenView>>, i: nat, precedence: Precedence)
    requires
        lexed(ts),
        expr_at(ts, i, precedence) is Ok,
    ensures
        legible(expr_at(ts, i, precedence)->Ok_0.0),
        precedence_at(tok(ts, i + expr_at(ts, i, precedence)->Ok_0.1 + 1)).level()
            <= precedence.level(),
        !(tok(ts, i) is Some && tok(ts, i)->Some_0 is Lparen) ==> top_bare(
            expr_at(ts, i, precedence)->Ok_0.0,
        ) && lead(expr_at(ts, i, precedence)->Ok_0.0) == seen(ts, i),
    decreases remaining(ts, i), 5nat,
{
    reveal_with_fuel(expr_at, 1);
    reveal_with_fuel(first_at, 1);
    reveal_with_fuel(infix_loop, 1);
    lemma_first_read(ts, i);
    let (left, c) = first_at(ts, i)->Ok_0;
    lemma_loop_read(ts, left, i, c, precedence);
}

/// What the grammar reads as an expression without an operator after it
/// is legible.
pub proof fn lemma_first_read(ts: Seq<Option<TokenView>>, i: nat)
    requires
        lexed(ts),
        first_at(ts, i) is Ok,
    ensures
        legible(first_at(ts, i)->Ok_0.0),
        !(tok(ts, i) is Some && tok(ts, i)->Some_0 is Lparen) ==> top_bare(
            first_at(ts, i)->Ok_0.0,
        ) && lead(first_at(ts, i)->Ok_0.0) == seen(ts, i) && keeps_off(
            first_at(ts, i)->Ok_0.0,
            tok(ts, i + first_at(ts, i)->Ok_0.1 + 1),
        ),
    decreases remaining(ts, i), 4nat,
{
    reveal_with_fuel(expr_at, 1);
    reveal_with_fuel(first_at, 1);
    reveal_with_fuel(expr_list_at, 1);
    match tok(ts, i) {
        Some(TokenView::Identifier(name)) => {},
        Some(TokenView::String(s)) => {},
        Some(TokenView::Int(v)) => {},
        Some(TokenView::Float(s)) => {},
        Some(TokenView::True) => {},
        Some(TokenView::False) => {},
        Some(TokenView::Null) => {},
        Some(TokenView::Lparen) => {
            lemma_expr_read(ts, i + 1, Precedence::Lowest);
        },
        Some(TokenView::Lbracket) => {
            lemma_list_read(ts, i, TokenView::Rbracket);
        },
        Some(t) => {
            if prefix_of(t) is Some {
                lemma_expr_read(ts, i + 1, Precedence::Prefix);
            }
        },
        None => {},
    }
}

/// What an expression grows into by the operator after it is legible, and
/// the token after it leaves it as it is.
pub proof fn lemma_operator_read(ts: Seq<Option<TokenView>>, left: ExprView, k: nat)
    requires
        lexed(ts),
        legible(left),
        operator_at(ts, left, k) is Ok,
    ensures
        legible(operator_at(ts, left, k)->Ok_0.0),
        keeps_off(
            operator_at(ts, left, k)->Ok_0.0,
            tok(ts, k + operator_at(ts, left, k)->Ok_0.1 + 1),
        ),
        lead(operator_at(ts, left, k)->Ok_0.0) == lead(left),
        top_bare(left) && keeps_off(left, tok(ts, k)) ==> top_bare(
            operator_at(ts, left, k)->Ok_0.0,
        ),
    decreases remaining(ts, k), 6nat,
{
    reveal_with_fuel(expr_at, 1);
    reveal_with_fuel(operator_at, 1);
    reveal_with_fuel(expr_list_at, 1);
    match tok(ts, k) {
        Some(TokenView::Lparen) => {
            lemma_list_read(ts, k, TokenView::Rparen);
        },
        Some(TokenView::Equal) => {
            lemma_expr_read(ts, k + 1, Precedence::Lowest);
        },
        Some(TokenView::DoublePlus) => {},
        Some(TokenView::DoubleMinus) => {},
        Some(TokenView::Dot) => {
            match tok(ts, k + 1) {
                Some(TokenView::Identifier(name)) => {
                    if tok(ts, k + 2) == Some(TokenView::Lparen) {
                        lemma_list_read(ts, k + 2, TokenView::Rparen);
                    }
                },
                _ => {},
            }
        },
        Some(t) => {
            if infix_of(t) is Some {
                lemma_expr_read(ts, k + 1, precedence_of(t));
                assert(infix_token(infix_of(t)->Some_0) == t);
            }
        },
        None => {},
    }
}

/// What an expression grows into by the operators after it is legible; it
/// ends before a token that binds no more tightly than what it was read
/// for; and it is written from its first operand on where what it grew
/// from is.
pub proof fn lemma_loop_read(
    ts: Seq<Option<TokenView>>,
    left: ExprView,
    i: nat,
    c: nat,
    precedence: Precedence,
)
    requires
        lexed(ts),
        legible(left),
        infix_loop(ts, left, i, c, precedence) is Ok,
    ensures
        legible(infix_loop(ts, left, i, c, precedence)->Ok_0.0),
        precedence_at(tok(ts, i + infix_loop(ts, left, i, c, precedence)->Ok_0.1 + 1)).level()
            <= precedence.level(),
        lead(infix_loop(ts, left, i, c, precedence)->Ok_0.0) == lead(left),
        top_bare(left) && keeps_off(left, tok(ts, i + c + 1)) ==> top_bare(
            infix_loop(ts, left, i, c, precedence)->Ok_0.0,
        ),
    decreases remaining(ts, i + c), 2nat,
{
    reveal_with_fuel(infix_loop, 1);
    reveal_with_fuel(operator_at, 1);
    if precedence.level() < precedence_at(tok(ts, i + c + 1)).level() {
        lemma_operator_read(ts, left, i + c + 1);
        let (grown, c2) = operator_at(ts, left, i + c + 1)->Ok_0;
        lemma_loop_read(ts, grown, i, c + 1 + c2, precedence);
    }
}

/// What the grammar reads as a list of expressions is legible.
pub proof fn lemma_list_read(ts: Seq<Option<TokenView>>, i: nat, stop: TokenView)
    requires
        lexed(ts),
        expr_list_at(ts, i, stop) is Ok,
    ensures
        all_legible(expr_list_at(ts, i, stop)->Ok_0.0),
    decreases remaining(ts, i), 3nat,
{
    reveal_with_fuel(expr_list_at, 1);
    reveal_with_fuel(list_rest, 1);
    reveal_with_fuel(expr_at, 1);
    if tok(ts, i + 1) != Some(stop) {
        lemma_expr_read(ts, i + 1, Precedence::Lowest);
        let (e, c) = expr_at(ts, i + 1, Precedence::Lowest)->Ok_0;
        lemma_list_rest_read(ts, seq![e], i, 1 + c, stop);
    }
}

/// What the grammar reads as the rest of a list of expressions is
/// legible.
pub proof fn lemma_list_rest_read(
    ts: Seq<Option<TokenView>>,
    acc: Seq<ExprView>,
    i: nat,
    c: nat,
    stop: TokenView,
)
    requires
        lexed(ts),
        all_legible(acc),
        list_rest(ts, acc, i, c, stop) is Ok,
    ensures
        all_legible(list_rest(ts, acc, i, c, stop)->Ok_0.0),
    decreases remaining(ts, i + c), 2nat,
{
    reveal_with_fuel(list_rest, 1);
    reveal_with_fuel(expr_at, 1);
    if tok(ts, i + c + 1) == Some(TokenView::Comma) {
        lemma_expr_read(ts, i + c + 2, Precedence::Lowest);
        let (e, c2) = expr_at(ts, i + c + 2, Precedence::Lowest)->Ok_0;
        assert forall|k: int| 0 <= k < acc.push(e).len() implies legible(
            #[trigger] acc.push(e)[k],
        ) by {
            if k < acc.len() {
                assert(acc.push(e)[k] == acc[k]);
            }
        }
        lemma_list_rest_read(ts, acc.push(e), i, c + 2 + c2, stop);
    }
}


/// Whether the token `next` can be written after a statement that the
/// source has before the token `src`: where `src` is no operator, it is
/// `next`; and `next` is neither `=` nor `else`.
pub open spec fn comes_after(src: Option<TokenView>, next: TokenView) -> bool {
    &&& precedence_at(src).level() <= Precedence::Lowest.level() ==> src == Some(next)
    &&& next != TokenView::Equal
    &&& next != TokenView::Else
}

/// What the grammar reads as parameters has legible names and no type
/// `void`.
pub proof fn lemma_params_read(ts: Seq<Option<TokenView>>, acc: Seq<ParamSyntax>, i: nat, c: nat)
    requires
        lexed(ts),
        legible_params(acc),
        writable_params(acc),
        params_rest(ts, acc, i, c) is Ok,
    ensures
        legible_params(params_rest(ts, acc, i, c)->Ok_0.0),
        writable_params(params_rest(ts, acc, i, c)->Ok_0.0),
    decreases remaining(ts, i + c),
{
    reveal_with_fuel(params_rest, 1);
    match tok(ts, i + c + 1) {
        Some(TokenView::Identifier(name)) => {
            let (t, c2) = type_at(ts, i + c + 3)->Ok_0;
            let more = acc.push(ParamSyntax { name, type_: t });
            assert forall|k: int| 0 <= k < more.len() implies name_ok((#[trigger] more[k]).name)
                && !(more[k].type_ is Void) by {
                if k < acc.len() {
                    assert(more[k] == acc[k]);
                }
            }
            if tok(ts, i + c + 4 + c2) == Some(TokenView::Comma) {
                lemma_params_read(ts, more, i, c + 4 + c2);
            }
        },
        _ => {},
    }
}

/// What the grammar reads as a statement is legible, and it is of a form
/// that is written before any token that can be written after it. Where
/// the statement starts with a token that is no operator, it is written
/// with that token first.
pub proof fn lemma_stmt_read(ts: Seq<Option<TokenView>>, i: nat)
    requires
        lexed(ts),
        stmt_at(ts, i) is Ok,
    ensures
        legible_stmt(stmt_at(ts, i)->Ok_0.0),
        forall|next: TokenView| #[trigger]
            comes_after(tok(ts, i + stmt_at(ts, i)->Ok_0.1 + 1), next) ==> writable_stmt(
                stmt_at(ts, i)->Ok_0.0,
                next,
            ),
        precedence_at(tok(ts, i)).level() <= Precedence::Lowest.level() ==> head_token(
            stmt_at(ts, i)->Ok_0.0,
        ) == seen(ts, i),
        head_token(stmt_at(ts, i)->Ok_0.0) != TokenView::Equal,
        head_token(stmt_at(ts, i)->Ok_0.0) != TokenView::Else,
        tok(ts, i) is Some,
    decreases remaining(ts, i), 10nat,
{
    reveal_with_fuel(stmt_at, 1);
    reveal_with_fuel(if_at, 1);
    reveal_with_fuel(for_at, 1);
    reveal_with_fuel(func_at, 1);
    reveal_with_fuel(block_at, 1);
    reveal_with_fuel(block_rest, 1);
    reveal_with_fuel(alternative_at, 1);
    reveal_with_fuel(expr_at, 1);
    reveal_with_fuel(first_at, 1);
    match tok(ts, i) {
        Some(TokenView::Let) => lemma_let_read(ts, i),
        Some(TokenView::Func) => lemma_func_read(ts, i),
        Some(TokenView::Return) => lemma_return_read(ts, i),
        Some(TokenView::If) => lemma_if_read(ts, i),
        Some(TokenView::For) => lemma_for_read(ts, i),
        _ => {
            lemma_expr_read(ts, i, Precedence::Lowest);
            let e = expr_at(ts, i, Precedence::Lowest)->Ok_0.0;
            lemma_legible_writable(e);
            lemma_shown_starts(e);
            if !(tok(ts, i) is Some && tok(ts, i)->Some_0 is Lparen) {
                lemma_shown_lead(e);
            }
        },
    }
}

/// What the grammar reads as a declaration is legible and of a form that is
/// written.
proof fn lemma_let_read(ts: Seq<Option<TokenView>>, i: nat)
    requires
        lexed(ts),
        tok(ts, i) == Some(TokenView::Let),
        let_at(ts, i) is Ok,
    ensures
        legible_stmt(let_at(ts, i)->Ok_0.0),
        forall|next: TokenView| #[trigger]
            comes_after(tok(ts, i + let_at(ts, i)->Ok_0.1 + 1), next) ==> writable_stmt(
                let_at(ts, i)->Ok_0.0,
                next,
            ),
        let_at(ts, i)->Ok_0.0 is Let,
{
    reveal_with_fuel(let_at, 1);
    reveal_with_fuel(expr_at, 1);
    match tok(ts, i + 1) {
        Some(TokenView::Identifier(name)) => {
            if tok(ts, i + 2) == Some(TokenView::Colon) {
                let (t, c) = type_at(ts, i + 3)->Ok_0;
                if tok(ts, i + 4 + c) == Some(TokenView::Equal) {
                    lemma_expr_read(ts, i + 5 + c, Precedence::Lowest);
                    lemma_legible_writable(expr_at(ts, i + 5 + c, Precedence::Lowest)->Ok_0.0);
                }
            } else {
                lemma_expr_read(ts, i + 3, Precedence::Lowest);
                lemma_legible_writable(expr_at(ts, i + 3, Precedence::Lowest)->Ok_0.0);
            }
        },
        _ => {},
    }
}

/// What the grammar reads as a `return` statement is legible and of a form that is
/// written.
proof fn lemma_return_read(ts: Seq<Option<TokenView>>, i: nat)
    requires
        lexed(ts),
        tok(ts, i) == Some(TokenView::Return),
        return_at(ts, i) is Ok,
    ensures
        legible_stmt(return_at(ts, i)->Ok_0.0),
        forall|next: TokenView| #[trigger]
            comes_after(tok(ts, i + return_at(ts, i)->Ok_0.1 + 1), next) ==> writable_stmt(
                return_at(ts, i)->Ok_0.0,
                next,
            ),
        return_at(ts, i)->Ok_0.0 is Return,
{
    reveal_with_fuel(return_at, 1);
    reveal_with_fuel(expr_at, 1);
    if !(tok(ts, i + 1) == Some(TokenView::Rbrace) || tok(ts, i + 1) == Some(TokenView::Eof)) {
        lemma_expr_read(ts, i + 1, Precedence::Lowest);
        lemma_legible_writable(expr_at(ts, i + 1, Precedence::Lowest)->Ok_0.0);
    }
}

/// What the grammar reads as an `if` statement is legible and of a form that is
/// written.
proof fn lemma_if_read(ts: Seq<Option<TokenView>>, i: nat)
    requires
        lexed(ts),
        tok(ts, i) == Some(TokenView::If),
        if_at(ts, i) is Ok,
    ensures
        legible_stmt(if_at(ts, i)->Ok_0.0),
        forall|next: TokenView| #[trigger]
            comes_after(tok(ts, i + if_at(ts, i)->Ok_0.1 + 1), next) ==> writable_stmt(
                if_at(ts, i)->Ok_0.0,
                next,
            ),
        if_at(ts, i)->Ok_0.0 is If,
    decreases remaining(ts, i), 9nat,
{
    reveal_with_fuel(if_at, 1);
    reveal_with_fuel(alternative_at, 1);
    reveal_with_fuel(expr_at, 1);
    reveal_with_fuel(block_at, 1);
    lemma_expr_read(ts, i + 1, Precedence::Lowest);
    let (condition, c) = expr_at(ts, i + 1, Precedence::Lowest)->Ok_0;
    lemma_legible_writable(condition);
    lemma_block_read(ts, i + 2 + c);
    let (consequence, c2) = block_at(ts, i + 2 + c)->Ok_0;
    let k = i + 2 + c + c2;
    if tok(ts, k + 1) == Some(TokenView::Else) {
        lemma_block_read(ts, k + 2);
    }
}

/// What the grammar reads as a `for` statement is legible and of a form that is
/// written.
proof fn lemma_for_read(ts: Seq<Option<TokenView>>, i: nat)
    requires
        lexed(ts),
        tok(ts, i) == Some(TokenView::For),
        for_at(ts, i) is Ok,
    ensures
        legible_stmt(for_at(ts, i)->Ok_0.0),
        forall|next: TokenView| #[trigger]
            comes_after(tok(ts, i + for_at(ts, i)->Ok_0.1 + 1), next) ==> writable_stmt(
                for_at(ts, i)->Ok_0.0,
                next,
            ),
        for_at(ts, i)->Ok_0.0 is ForLoop,
    decreases remaining(ts, i), 9nat,
{
    reveal_with_fuel(for_at, 1);
    reveal_with_fuel(expr_at, 1);
    reveal_with_fuel(block_at, 1);
    lemma_expr_read(ts, i + 3, Precedence::Lowest);
    let (iterable, c) = expr_at(ts, i + 3, Precedence::Lowest)->Ok_0;
    lemma_legible_writable(iterable);
    lemma_block_read(ts, i + 4 + c);
}

/// What the grammar reads as a function definition is legible and of a form that is
/// written.
proof fn lemma_func_read(ts: Seq<Option<TokenView>>, i: nat)
    requires
        lexed(ts),
        tok(ts, i) == Some(TokenView::Func),
        func_at(ts, i) is Ok,
    ensures
        legible_stmt(func_at(ts, i)->Ok_0.0),
        forall|next: TokenView| #[trigger]
            comes_after(tok(ts, i + func_at(ts, i)->Ok_0.1 + 1), next) ==> writable_stmt(
                func_at(ts, i)->Ok_0.0,
                next,
            ),
        func_at(ts, i)->Ok_0.0 is Func,
    decreases remaining(ts, i), 9nat,
{
    reveal_with_fuel(func_at, 1);
    reveal_with_fuel(params_at, 1);
    reveal_with_fuel(block_at, 1);
    let (params, c) = params_at(ts, i + 2)->Ok_0;
    if tok(ts, i + 3) != Some(TokenView::Rparen) {
        lemma_params_read(ts, Seq::empty(), i + 2, 0);
    }
    let (ret, c2) = type_at(ts, i + 4 + c)->Ok_0;
    lemma_block_read(ts, i + 5 + c + c2);
}

/// What the grammar reads as a block is legible, and its statements are of
/// forms that are written, each before the next.
proof fn lemma_block_read(ts: Seq<Option<TokenView>>, i: nat)
    requires
        lexed(ts),
        block_at(ts, i) is Ok,
        i < ts.len(),
    ensures
        all_legible_stmts(block_at(ts, i)->Ok_0.0),
        writable_stmts(block_at(ts, i)->Ok_0.0, 0, TokenView::Rbrace),
    decreases remaining(ts, i), 8nat,
{
    reveal_with_fuel(stmt_at, 1);
    reveal_with_fuel(if_at, 1);
    reveal_with_fuel(for_at, 1);
    reveal_with_fuel(func_at, 1);
    reveal_with_fuel(block_at, 1);
    reveal_with_fuel(block_rest, 1);
    reveal_with_fuel(alternative_at, 1);
    reveal_with_fuel(expr_at, 1);
    reveal_with_fuel(first_at, 1);
    lemma_block_rest_read(ts, Seq::empty(), i, 0);
}

/// What the grammar reads as the rest of a block is legible, and its
/// statements are of forms that are written, each before the next.
proof fn lemma_block_rest_read(ts: Seq<Option<TokenView>>, acc: Seq<StmtView>, i: nat, c: nat)
    requires
        lexed(ts),
        all_legible_stmts(acc),
        block_rest(ts, acc, i, c) is Ok,
        i + c < ts.len(),
    ensures
        ({
            let all = block_rest(ts, acc, i, c)->Ok_0.0;
            let n = acc.len();
            &&& all.len() >= n
            &&& all.subrange(0, n as int) == acc
            &&& all_legible_stmts(all)
            &&& writable_stmts(all, n, TokenView::Rbrace)
            &&& all.len() > n ==> {
                &&& precedence_at(tok(ts, i + c + 1)).level() <= Precedence::Lowest.level()
                    ==> head_token(all[n as int]) == seen(ts, i + c + 1)
                &&& head_token(all[n as int]) != TokenView::Equal
                &&& head_token(all[n as int]) != TokenView::Else
                &&& tok(ts, i + c + 1) is Some
            }
            &&& all.len() == n ==> tok(ts, i + c + 1) == Some(TokenView::Rbrace)
        }),
    decreases remaining(ts, i + c), 7nat,
{
    reveal_with_fuel(stmt_at, 1);
    reveal_with_fuel(if_at, 1);
    reveal_with_fuel(for_at, 1);
    reveal_with_fuel(func_at, 1);
    reveal_with_fuel(block_at, 1);
    reveal_with_fuel(block_rest, 1);
    reveal_with_fuel(alternative_at, 1);
    reveal_with_fuel(expr_at, 1);
    reveal_with_fuel(first_at, 1);
    let all = block_rest(ts, acc, i, c)->Ok_0.0;
    let n = acc.len();
    match tok(ts, i + c + 1) {
        Some(TokenView::Rbrace) => {
            assert(all.subrange(0, n as int) =~= acc);
        },
        Some(TokenView::Eof) => {},
        _ => {
            lemma_stmt_read(ts, i + c + 1);
            let (s, c2) = stmt_at(ts, i + c + 1)->Ok_0;
            let more = acc.push(s);
            assert forall|k: int| 0 <= k < more.len() implies legible_stmt(#[trigger] more[k]) by {
                if k < acc.len() {
                    assert(more[k] == acc[k]);
                }
            }
            lemma_block_rest_read(ts, more, i, c + 1 + c2);
            lemma_prefix_grown(all, acc, s);
            let after = tok(ts, i + c + 1 + c2 + 1);
            let next = token_after(all, n, TokenView::Rbrace);
            assert(comes_after(after, next));
        },
    }
}

/// A list that starts with a list and one more starts with the list, and
/// has the one after it.
proof fn lemma_prefix_grown(all: Seq<StmtView>, acc: Seq<StmtView>, s: StmtView)
    requires
        all.len() >= acc.len() + 1,
        all.subrange(0, acc.len() as int + 1) == acc.push(s),
    ensures
        all.subrange(0, acc.len() as int) == acc,
        all[acc.len() as int] == s,
{
    let n = acc.len() as int;
    assert(all.subrange(0, n + 1)[n] == acc.push(s)[n]);
    assert forall|k: int| 0 <= k < n implies all[k] == acc[k] by {
        assert(all.subrange(0, n + 1)[k] == acc.push(s)[k]);
    }
    assert(all.subrange(0, n) =~= acc);
}


/// What the grammar reads as the rest of a program is legible, and its
/// statements are of forms that are written, each before the next.
proof fn lemma_program_read(ts: Seq<Option<TokenView>>, acc: Seq<StmtView>, j: nat)
    requires
        lexed(ts),
        all_legible_stmts(acc),
        program_from(ts, acc, j) is Ok,
    ensures
        ({
            let all = program_from(ts, acc, j)->Ok_0;
            let n = acc.len();
            &&& all.len() >= n
            &&& all.subrange(0, n as int) == acc
            &&& all_legible_stmts(all)
            &&& writable_stmts(all, n, TokenView::Eof)
            &&& all.len() > n ==> {
                &&& precedence_at(tok(ts, j)).level() <= Precedence::Lowest.level() ==> head_token(
                    all[n as int],
                ) == seen(ts, j)
                &&& head_token(all[n as int]) != TokenView::Equal
                &&& head_token(all[n as int]) != TokenView::Else
                &&& tok(ts, j) is Some
            }
            &&& all.len() == n ==> tok(ts, j) == Some(TokenView::Eof)
        }),
    decreases remaining(ts, j),
{
    reveal_with_fuel(program_from, 1);
    reveal_with_fuel(stmt_at, 1);
    reveal_with_fuel(if_at, 1);
    reveal_with_fuel(for_at, 1);
    reveal_with_fuel(func_at, 1);
    reveal_with_fuel(block_at, 1);
    reveal_with_fuel(block_rest, 1);
    reveal_with_fuel(alternative_at, 1);
    reveal_with_fuel(expr_at, 1);
    reveal_with_fuel(first_at, 1);
    let all = program_from(ts, acc, j)->Ok_0;
    let n = acc.len();
    match tok(ts, j) {
        Some(TokenView::Eof) => {
            assert(all.subrange(0, n as int) =~= acc);
        },
        _ => {
            lemma_stmt_read(ts, j);
            let (s, c) = stmt_at(ts, j)->Ok_0;
            let more = acc.push(s);
            assert forall|k: int| 0 <= k < more.len() implies legible_stmt(#[trigger] more[k]) by {
                if k < acc.len() {
                    assert(more[k] == acc[k]);
                }
            }
            lemma_program_read(ts, more, j + c + 1);
            lemma_prefix_grown(all, acc, s);
            let after = tok(ts, j + c + 1);
            let next = token_after(all, n, TokenView::Eof);
            assert(comes_after(after, next));
        },
    }
}

/// Every program that a source spells is of the forms that are written,
/// each statement before the next, and its names and literals are such
/// that some text gives.
pub proof fn law_parsed_program_is_written(input: Seq<char>)
    requires
        parse_source(input) is Some,
    ensures
        writable_stmts(parse_source(input)->Some_0, 0, TokenView::Eof),
        all_spellable(shown_stmts(parse_source(input)->Some_0, 0)),
{
    let ts = token_stream(input, 0);
    lemma_stream_lexed(input, 0);
    lemma_program_read(ts, Seq::empty(), 0);
    let program = parse_source(input)->Some_0;
    assert(program == program_from(ts, Seq::empty(), 0)->Ok_0);
    lemma_stmts_spellable(program, 0);
}

/// Every program that a source spells parses back from its text: the text
/// of the program spells the program itself.
pub proof fn law_parsed_text_parses_back(input: Seq<char>)
    requires
        parse_source(input) is Some,
    ensures
        parse_source(program_text(parse_source(input)->Some_0)) == parse_source(input),
{
    law_parsed_program_is_written(input);
    law_written_text_parses(parse_source(input)->Some_0);
}


/// Parsing, writing and parsing again gives the same tree: where a parse
/// of a source gives a program, a parse of the text of that program gives
/// a program with the same tree.
pub proof fn law_parse_write_parse(
    input: Seq<char>,
    first: Result<Program, ParserError>,
    second: Result<Program, ParserError>,
)
    requires
        parse_outcome(input, first),
        first is Ok,
        parse_outcome(program_text(stmts_view(first->Ok_0@)), second),
    ensures
        second is Ok,
        stmts_view(second->Ok_0@) == stmts_view(first->Ok_0@),
{
    law_parsed_text_parses_back(input);
}

} // verus!
