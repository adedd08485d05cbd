//! How a program is written as tokens, and that the grammar reads it back.
//!
//! An expression is written with parentheses round an operand that is an
//! assignment or has an operator of its own, but for a left operand that
//! the grammar reads first anyway. The grammar yields the expression
//! itself wherever its tokens stand, and so for statements and programs.
//!
//! The language has no mark between two statements. A statement that ends
//! with an expression can therefore be written only before a token that is
//! no operator, and a `return` without a value only at the end of a block
//! or of the program: [`writable_stmt`] says so.

use crate::ast::{
    ExprType, ExprView, Infix, LiteralView, ParamSyntax, Postfix, Precedence, Prefix, StmtView,
};
use crate::grammar::{
    alternative_at, block_at, block_rest, clean, expr_at, expr_list_at, first_at, for_at, found,
    func_at, if_at, infix_loop, infix_of, law_parentheses_leave_no_node, let_at, list_rest,
    operator_at, params_at, params_rest, parse_source, precedence_at, precedence_of, prefix_of,
    program_from, program_of, return_at, spelt, stmt_at, tok, token_stream, type_at,
};
use crate::token::TokenView;
use vstd::prelude::*;

verus! {

/// The token of an infix operator.
pub open spec fn infix_token(infix: Infix) -> TokenView {
    match infix {
        Infix::Plus => TokenView::Plus,
        Infix::Minus => TokenView::Minus,
        Infix::Multiply => TokenView::Asterisk,
        Infix::Devide => TokenView::Slash,
        Infix::Remainder => TokenView::Percet,
        Infix::NotEqual => TokenView::NotEqual,
        Infix::Equal => TokenView::DoubleEqual,
        Infix::LessThan => TokenView::LessThan,
        Infix::LessOrEqual => TokenView::LessOrEqual,
        Infix::GratherThan => TokenView::GratherThan,
        Infix::GratherOrEqual => TokenView::GratherOrEqual,
    }
}

/// The token of a prefix operator.
pub open spec fn prefix_token(prefix: Prefix) -> TokenView {
    match prefix {
        Prefix::Not => TokenView::Bang,
        Prefix::Plus => TokenView::Plus,
        Prefix::Minus => TokenView::Minus,
    }
}

/// The token of a postfix operator.
pub open spec fn postfix_token(postfix: Postfix) -> TokenView {
    match postfix {
        Postfix::Increment => TokenView::DoublePlus,
        Postfix::Decrement => TokenView::DoubleMinus,
    }
}

/// Whether every expression of a list can be written.
pub open spec fn all_writable(items: Seq<ExprView>) -> bool
    decreases items, 0nat,
{
    forall|k: int| 0 <= k < items.len() ==> writable(#[trigger] items[k])
}

/// Whether an expression is of a form that the grammar yields: what a
/// field access names is a field, or a method with its arguments.
pub open spec fn writable(e: ExprView) -> bool
    decreases e, 0nat,
{
    match e {
        ExprView::Literal(LiteralView::Array(items)) => all_writable(items),
        ExprView::Literal(_) => true,
        ExprView::Identifier(_) => true,
        ExprView::Prefix(_, operand) => writable(*operand),
        ExprView::Infix(lhs, _, rhs) => writable(*lhs) && writable(*rhs),
        ExprView::Postfix(operand, _) => writable(*operand),
        ExprView::Assign(_, value) => writable(*value),
        ExprView::Call(func, args) => writable(*func) && all_writable(args),
        ExprView::FieldAcc(src, target) => writable(*src) && match *target {
            ExprView::Identifier(_) => true,
            ExprView::Call(method, args) => *method is Identifier && all_writable(args),
            _ => false,
        },
    }
}

/// Whether an expression is an assignment, or an operator before its
/// operand or between its operands: what binds more loosely than a call,
/// a field access or a postfix operator.
pub open spec fn is_loose(e: ExprView) -> bool {
    e is Assign || e is Infix || e is Prefix
}

/// Whether an expression is a field access that names a field.
pub open spec fn names_field(e: ExprView) -> bool {
    match e {
        ExprView::FieldAcc(_, target) => *target is Identifier,
        _ => false,
    }
}

/// The tokens of an assignment or of an operator with its operands,
/// without parentheses round it.
pub open spec fn unwrapped(e: ExprView) -> Seq<TokenView>
    decreases e, 0nat,
{
    match e {
        ExprView::Assign(name, value) => seq![TokenView::Identifier(name), TokenView::Equal]
            + shown(*value),
        ExprView::Infix(lhs, infix, rhs) => left_operand(*lhs, infix_level(infix))
            + seq![infix_token(infix)] + operand(*rhs),
        ExprView::Prefix(prefix, inner) => seq![prefix_token(prefix)] + operand(*inner),
        _ => Seq::empty(),
    }
}

/// The level at which an infix operator binds.
pub open spec fn infix_level(infix: Infix) -> int {
    precedence_of(infix_token(infix)).level()
}

/// The tokens of an expression where it stands as the left operand of an
/// infix operator that binds at `level`. It stands without parentheses
/// where the grammar reads it first anyway: where it is a prefix operator
/// with its operand, or an infix operator that binds no more loosely than
/// `level`.
pub open spec fn left_operand(e: ExprView, level: int) -> Seq<TokenView>
    decreases e, 2nat,
{
    match e {
        ExprView::Infix(lhs, infix, rhs) => if infix_level(infix) >= level {
            left_operand(*lhs, infix_level(infix)) + seq![infix_token(infix)] + operand(*rhs)
        } else {
            operand(e)
        },
        ExprView::Prefix(prefix, inner) => seq![prefix_token(prefix)] + operand(*inner),
        _ => operand(e),
    }
}

/// The tokens of an expression where it stands as an operand: a name, a
/// literal, a call, a field access and a postfix operator as they are,
/// anything else between parentheses.
pub open spec fn operand(e: ExprView) -> Seq<TokenView>
    decreases e, 1nat,
{
    match e {
        ExprView::Identifier(name) => seq![TokenView::Identifier(name)],
        ExprView::Literal(LiteralView::Int(v)) => seq![TokenView::Int(v)],
        ExprView::Literal(LiteralView::Float(s)) => seq![TokenView::Float(s)],
        ExprView::Literal(LiteralView::String(s)) => seq![TokenView::String(s)],
        ExprView::Literal(LiteralView::Boolean(b)) => if b {
            seq![TokenView::True]
        } else {
            seq![TokenView::False]
        },
        ExprView::Literal(LiteralView::Null) => seq![TokenView::Null],
        ExprView::Literal(LiteralView::Array(items)) => shown_list(
            TokenView::Lbracket,
            items,
            TokenView::Rbracket,
        ),
        ExprView::Call(func, args) => callee(*func) + shown_list(
            TokenView::Lparen,
            args,
            TokenView::Rparen,
        ),
        ExprView::Postfix(inner, postfix) => operand(*inner) + seq![postfix_token(postfix)],
        ExprView::FieldAcc(src, target) => match *target {
            ExprView::Identifier(name) => operand(*src) + seq![
                TokenView::Dot,
                TokenView::Identifier(name),
            ],
            ExprView::Call(method, args) => match *method {
                ExprView::Identifier(name) => operand(*src) + seq![
                    TokenView::Dot,
                    TokenView::Identifier(name),
                ] + shown_list(TokenView::Lparen, args, TokenView::Rparen),
                _ => Seq::empty(),
            },
            _ => Seq::empty(),
        },
        _ => seq![TokenView::Lparen] + unwrapped(e) + seq![TokenView::Rparen],
    }
}

/// The tokens of what a call calls: an operand, between parentheses where
/// it is a field access that names a field, which would else read as a
/// call of a method.
pub open spec fn callee(e: ExprView) -> Seq<TokenView>
    decreases e, 2nat,
{
    if names_field(e) {
        seq![TokenView::Lparen] + operand(e) + seq![TokenView::Rparen]
    } else {
        operand(e)
    }
}

/// The tokens of an expression as it is written: with parentheses round
/// an operand that is an assignment or has an operator of its own, but for
/// a left operand that the grammar reads first anyway.
pub open spec fn shown(e: ExprView) -> Seq<TokenView>
    decreases e, 2nat,
{
    if is_loose(e) {
        unwrapped(e)
    } else {
        operand(e)
    }
}

/// The tokens of a list of expressions between `open` and `stop`, with a
/// comma between two of them.
pub open spec fn shown_list(open: TokenView, items: Seq<ExprView>, stop: TokenView) -> Seq<
    TokenView,
>
    decreases items, items.len() + 1,
{
    if items.len() == 0 {
        seq![open, stop]
    } else {
        seq![open] + shown(items[0]) + shown_tail(items, 1, stop)
    }
}

/// The tokens of a list after its first `n` expressions: a comma before
/// each expression that is left, then `stop`.
pub open spec fn shown_tail(items: Seq<ExprView>, n: nat, stop: TokenView) -> Seq<TokenView>
    decreases items, items.len() - n,
{
    if n >= items.len() {
        seq![stop]
    } else {
        seq![TokenView::Comma] + shown(items[n as int]) + shown_tail(items, n + 1, stop)
    }
}

/// Whether the tokens `s` stand in `ts` from the token `i` on.
pub open spec fn stands(ts: Seq<Option<TokenView>>, i: nat, s: Seq<TokenView>) -> bool {
    forall|j: int| 0 <= j < s.len() ==> tok(ts, (i + j) as nat) == Some(#[trigger] s[j])
}

/// Whether a token can start an operand.
pub open spec fn opens(token: TokenView) -> bool {
    token is Identifier || token is Int || token is Float || token is String || token is True
        || token is False || token is Null || token is Lbracket || token is Lparen
}

/// Whether a token can start an expression that is written.
pub open spec fn starts(token: TokenView) -> bool {
    opens(token) || token is Bang || token is Plus || token is Minus
}

/// Whether a token closes a list of expressions.
pub open spec fn closes(token: TokenView) -> bool {
    token is Rparen || token is Rbracket
}

/// Whether an expression ends before the token `next`: the grammar takes
/// no operator from it.
pub open spec fn ends_before(next: TokenView) -> bool {
    precedence_of(next) == Precedence::Lowest
}

/// Tokens that stand one list after another stand list by list.
proof fn lemma_stands_split(
    ts: Seq<Option<TokenView>>,
    i: nat,
    a: Seq<TokenView>,
    b: Seq<TokenView>,
)
    requires
        clean(ts),
        stands(ts, i, a + b),
    ensures
        stands(ts, i, a),
        stands(ts, i + a.len(), b),
{
    assert forall|j: int| 0 <= j < a.len() implies tok(ts, (i + j) as nat) == Some(
        #[trigger] a[j],
    ) by {
        assert((a + b)[j] == a[j]);
    }
    assert forall|j: int| 0 <= j < b.len() implies tok(ts, (i + a.len() + j) as nat) == Some(
        #[trigger] b[j],
    ) by {
        assert((a + b)[a.len() + j] == b[j]);
    }
}

/// Each of the tokens that stand is the token at its place.
proof fn lemma_stands_at(ts: Seq<Option<TokenView>>, i: nat, s: Seq<TokenView>, j: nat)
    requires
        clean(ts),
        stands(ts, i, s),
        j < s.len(),
    ensures
        tok(ts, i + j) == Some(s[j as int]),
{
    assert(tok(ts, (i + j as int) as nat) == Some(s[j as int]));
}

/// An operand starts with a token that starts an operand.
proof fn lemma_operand_opens(e: ExprView)
    requires
        writable(e),
    ensures
        operand(e).len() >= 1,
        opens(operand(e)[0]),
    decreases e,
{
    match e {
        ExprView::Literal(LiteralView::Array(items)) => {
            let list = shown_list(TokenView::Lbracket, items, TokenView::Rbracket);
            assert(operand(e) == list);
            assert(list.len() >= 1 && list[0] == TokenView::Lbracket);
        },
        ExprView::Call(func, args) => {
            lemma_operand_opens(*func);
            let a = callee(*func);
            assert(a.len() >= 1 && opens(a[0]));
        },
        ExprView::Postfix(inner, _) => {
            lemma_operand_opens(*inner);
        },
        ExprView::FieldAcc(src, target) => {
            lemma_operand_opens(*src);
        },
        ExprView::Literal(_) => {},
        ExprView::Identifier(_) => {},
        _ => {
            let wrapped = seq![TokenView::Lparen] + unwrapped(e) + seq![TokenView::Rparen];
            assert(operand(e) == wrapped);
            assert(wrapped[0] == TokenView::Lparen);
        },
    }
}

/// A left operand starts with a token that starts an expression.
proof fn lemma_left_starts(e: ExprView, level: int)
    requires
        writable(e),
    ensures
        left_operand(e, level).len() >= 1,
        starts(left_operand(e, level)[0]),
    decreases e,
{
    match e {
        ExprView::Infix(lhs, infix, _) => {
            if infix_level(infix) >= level {
                lemma_left_starts(*lhs, infix_level(infix));
            } else {
                lemma_operand_opens(e);
            }
        },
        ExprView::Prefix(..) => {},
        _ => {
            lemma_operand_opens(e);
        },
    }
}

/// An expression that is written starts with a token that starts one.
pub proof fn lemma_shown_starts(e: ExprView)
    requires
        writable(e),
    ensures
        shown(e).len() >= 1,
        starts(shown(e)[0]),
{
    match e {
        ExprView::Infix(lhs, infix, _) => {
            lemma_left_starts(*lhs, infix_level(infix));
        },
        ExprView::Assign(..) => {},
        ExprView::Prefix(..) => {},
        _ => {
            lemma_operand_opens(e);
        },
    }
}

/// A list that is written ends with a token, and after its first `n`
/// expressions a comma or the closing token is next.
proof fn lemma_tail_starts(items: Seq<ExprView>, n: nat, stop: TokenView)
    requires
        closes(stop),
    ensures
        shown_tail(items, n, stop).len() >= 1,
        ends_before(shown_tail(items, n, stop)[0]),
        n >= items.len() ==> shown_tail(items, n, stop) == seq![stop],
        n < items.len() ==> shown_tail(items, n, stop)[0] == TokenView::Comma,
{
}

/// An expression is read from what stands first in it.
proof fn lemma_from_first(
    ts: Seq<Option<TokenView>>,
    i: nat,
    precedence: Precedence,
    e: ExprView,
    c: nat,
)
    requires
        clean(ts),
        first_at(ts, i) == found(e, c),
    ensures
        expr_at(ts, i, precedence) == infix_loop(ts, e, i, c, precedence),
{
    reveal_with_fuel(expr_at, 1);
    reveal_with_fuel(first_at, 1);
    reveal_with_fuel(infix_loop, 1);
}

/// An expression ends before a token that binds no more tightly than
/// what it is read for.
proof fn lemma_expr_stops(
    ts: Seq<Option<TokenView>>,
    i: nat,
    precedence: Precedence,
    e: ExprView,
    c: nat,
)
    requires
        clean(ts),
        expr_at(ts, i, precedence) == infix_loop(ts, e, i, c, precedence),
        precedence_at(tok(ts, i + c + 1)).level() <= precedence.level(),
    ensures
        expr_at(ts, i, precedence) == found(e, c),
{
    reveal_with_fuel(expr_at, 1);
    reveal_with_fuel(infix_loop, 1);
    reveal_with_fuel(operator_at, 1);
}

/// An expression grows by the operator after it that binds more tightly
/// than what it is read for.
proof fn lemma_expr_grows(
    ts: Seq<Option<TokenView>>,
    i: nat,
    precedence: Precedence,
    left: ExprView,
    c: nat,
    grown: ExprView,
    c2: nat,
)
    requires
        clean(ts),
        expr_at(ts, i, precedence) == infix_loop(ts, left, i, c, precedence),
        precedence.level() < precedence_at(tok(ts, i + c + 1)).level(),
        operator_at(ts, left, i + c + 1) == found(grown, c2),
    ensures
        expr_at(ts, i, precedence) == infix_loop(ts, grown, i, c + 1 + c2, precedence),
{
    reveal_with_fuel(expr_at, 1);
    reveal_with_fuel(infix_loop, 1);
    reveal_with_fuel(operator_at, 1);
}

/// An infix operator takes the expression after it as its right operand.
proof fn lemma_infix_operator(
    ts: Seq<Option<TokenView>>,
    left: ExprView,
    k: nat,
    infix: Infix,
    right: ExprView,
    c: nat,
)
    requires
        clean(ts),
        tok(ts, k) == Some(infix_token(infix)),
        expr_at(ts, k + 1, precedence_of(infix_token(infix))) == found(right, c),
    ensures
        operator_at(ts, left, k) == found(
            ExprView::Infix(Box::new(left), infix, Box::new(right)),
            1 + c,
        ),
        infix_of(infix_token(infix)) == Some(infix),
        Precedence::Lowest.level() < precedence_of(infix_token(infix)).level(),
{
    reveal_with_fuel(operator_at, 1);
    reveal_with_fuel(expr_at, 1);
    reveal_with_fuel(expr_list_at, 1);
}

/// An opening parenthesis after an expression makes a call of it.
proof fn lemma_call_operator(
    ts: Seq<Option<TokenView>>,
    left: ExprView,
    k: nat,
    args: Seq<ExprView>,
    c: nat,
)
    requires
        clean(ts),
        tok(ts, k) == Some(TokenView::Lparen),
        expr_list_at(ts, k, TokenView::Rparen) == found(args, c),
    ensures
        operator_at(ts, left, k) == found(ExprView::Call(Box::new(left), args), c),
{
    reveal_with_fuel(operator_at, 1);
    reveal_with_fuel(expr_at, 1);
    reveal_with_fuel(expr_list_at, 1);
}

/// An equals sign after a name makes an assignment to it.
proof fn lemma_assign_operator(
    ts: Seq<Option<TokenView>>,
    name: Seq<char>,
    k: nat,
    value: ExprView,
    c: nat,
)
    requires
        clean(ts),
        tok(ts, k) == Some(TokenView::Equal),
        expr_at(ts, k + 1, Precedence::Lowest) == found(value, c),
    ensures
        operator_at(ts, ExprView::Identifier(name), k) == found(
            ExprView::Assign(name, Box::new(value)),
            1 + c,
        ),
{
    reveal_with_fuel(operator_at, 1);
    reveal_with_fuel(expr_at, 1);
    reveal_with_fuel(expr_list_at, 1);
}

/// A postfix operator after an expression applies to it.
proof fn lemma_postfix_operator(
    ts: Seq<Option<TokenView>>,
    left: ExprView,
    k: nat,
    postfix: Postfix,
)
    requires
        clean(ts),
        tok(ts, k) == Some(postfix_token(postfix)),
    ensures
        operator_at(ts, left, k) == found(ExprView::Postfix(Box::new(left), postfix), 0nat),
{
    reveal_with_fuel(operator_at, 1);
    reveal_with_fuel(expr_at, 1);
    reveal_with_fuel(expr_list_at, 1);
}

/// A dot and a name after an expression name a field of it.
proof fn lemma_field_operator(ts: Seq<Option<TokenView>>, left: ExprView, k: nat, name: Seq<char>)
    requires
        clean(ts),
        tok(ts, k) == Some(TokenView::Dot),
        tok(ts, k + 1) == Some(TokenView::Identifier(name)),
        tok(ts, k + 2) != Some(TokenView::Lparen),
    ensures
        operator_at(ts, left, k) == found(
            ExprView::FieldAcc(Box::new(left), Box::new(ExprView::Identifier(name))),
            1nat,
        ),
{
    reveal_with_fuel(operator_at, 1);
    reveal_with_fuel(expr_at, 1);
    reveal_with_fuel(expr_list_at, 1);
}

/// A dot, a name and arguments after an expression call a method of it.
proof fn lemma_method_operator(
    ts: Seq<Option<TokenView>>,
    left: ExprView,
    k: nat,
    name: Seq<char>,
    args: Seq<ExprView>,
    c: nat,
)
    requires
        clean(ts),
        tok(ts, k) == Some(TokenView::Dot),
        tok(ts, k + 1) == Some(TokenView::Identifier(name)),
        tok(ts, k + 2) == Some(TokenView::Lparen),
        expr_list_at(ts, k + 2, TokenView::Rparen) == found(args, c),
    ensures
        operator_at(ts, left, k) == found(
                ExprView::FieldAcc(
                    Box::new(left),
                    Box::new(ExprView::Call(Box::new(ExprView::Identifier(name)), args)),
                ),
                2 + c,
            ),
{
    reveal_with_fuel(operator_at, 1);
    reveal_with_fuel(expr_at, 1);
    reveal_with_fuel(expr_list_at, 1);
}

/// A prefix operator takes the expression after it as its operand.
proof fn lemma_prefix_first(
    ts: Seq<Option<TokenView>>,
    i: nat,
    prefix: Prefix,
    operand: ExprView,
    c: nat,
)
    requires
        clean(ts),
        tok(ts, i) == Some(prefix_token(prefix)),
        expr_at(ts, i + 1, Precedence::Prefix) == found(operand, c),
    ensures
        first_at(ts, i) == found(ExprView::Prefix(prefix, Box::new(operand)), 1 + c),
{
    reveal_with_fuel(first_at, 1);
    reveal_with_fuel(expr_at, 1);
    reveal_with_fuel(expr_list_at, 1);
    assert(prefix_of(prefix_token(prefix)) == Some(prefix));
}

/// A list between brackets is an array literal.
proof fn lemma_array_first(ts: Seq<Option<TokenView>>, i: nat, items: Seq<ExprView>, c: nat)
    requires
        clean(ts),
        tok(ts, i) == Some(TokenView::Lbracket),
        expr_list_at(ts, i, TokenView::Rbracket) == found(items, c),
    ensures
        first_at(ts, i) == found(ExprView::Literal(LiteralView::Array(items)), c),
{
    reveal_with_fuel(first_at, 1);
    reveal_with_fuel(expr_at, 1);
    reveal_with_fuel(expr_list_at, 1);
}

/// A list that closes at once is empty.
proof fn lemma_empty_list(ts: Seq<Option<TokenView>>, i: nat, stop: TokenView)
    requires
        clean(ts),
        i < ts.len(),
        tok(ts, i + 1) == Some(stop),
    ensures
        expr_list_at(ts, i, stop) == found(Seq::<ExprView>::empty(), 1nat),
{
    reveal_with_fuel(expr_list_at, 1);
    reveal_with_fuel(expr_at, 1);
    reveal_with_fuel(list_rest, 1);
}

/// A list that does not close at once starts with an expression.
proof fn lemma_list_starts(
    ts: Seq<Option<TokenView>>,
    i: nat,
    stop: TokenView,
    head: ExprView,
    c: nat,
)
    requires
        clean(ts),
        i < ts.len(),
        tok(ts, i + 1) != Some(stop),
        expr_at(ts, i + 1, Precedence::Lowest) == found(head, c),
    ensures
        expr_list_at(ts, i, stop) == list_rest(ts, seq![head], i, 1 + c, stop),
{
    reveal_with_fuel(expr_list_at, 1);
    reveal_with_fuel(expr_at, 1);
    reveal_with_fuel(list_rest, 1);
}

/// A list ends at its closing token.
proof fn lemma_list_ends(
    ts: Seq<Option<TokenView>>,
    acc: Seq<ExprView>,
    i: nat,
    c: nat,
    stop: TokenView,
)
    requires
        clean(ts),
        closes(stop),
        tok(ts, i + c + 1) == Some(stop),
    ensures
        list_rest(ts, acc, i, c, stop) == found(acc, c + 1),
{
    reveal_with_fuel(list_rest, 1);
    reveal_with_fuel(expr_at, 1);
}

/// A list goes on after a comma.
proof fn lemma_list_goes_on(
    ts: Seq<Option<TokenView>>,
    acc: Seq<ExprView>,
    i: nat,
    c: nat,
    stop: TokenView,
    next: ExprView,
    c2: nat,
)
    requires
        clean(ts),
        tok(ts, i + c + 1) == Some(TokenView::Comma),
        expr_at(ts, i + c + 2, Precedence::Lowest) == found(next, c2),
    ensures
        list_rest(ts, acc, i, c, stop) == list_rest(ts, acc.push(next), i, c + 2 + c2, stop),
{
    reveal_with_fuel(list_rest, 1);
    reveal_with_fuel(expr_at, 1);
}

/// An operand that is written reads back: wherever its tokens stand, the
/// grammar reads the expression itself from them, and goes on from there
/// as the grammar does after that expression.
pub proof fn law_written_operand_reads_back(
    ts: Seq<Option<TokenView>>,
    i: nat,
    e: ExprView,
    precedence: Precedence,
)
    requires
        clean(ts),
        writable(e),
        stands(ts, i, operand(e)),
        precedence.level() <= Precedence::Prefix.level(),
        names_field(e) ==> tok(ts, i + operand(e).len()) != Some(TokenView::Lparen),
    ensures
        operand(e).len() >= 1,
        expr_at(ts, i, precedence) == infix_loop(
            ts,
            e,
            i,
            (operand(e).len() - 1) as nat,
            precedence,
        ),
    decreases e, 3nat,
{
    match e {
        ExprView::Literal(LiteralView::Array(items)) => {
            lemma_list_reads_back(ts, i, TokenView::Lbracket, items, TokenView::Rbracket);
            lemma_stands_at(ts, i, operand(e), 0);
            lemma_array_first(ts, i, items, (operand(e).len() - 1) as nat);
            lemma_from_first(ts, i, precedence, e, (operand(e).len() - 1) as nat);
        },
        ExprView::Literal(_) => {
            lemma_stands_at(ts, i, operand(e), 0);
            assert(first_at(ts, i) == found(e, 0nat)) by {
                reveal_with_fuel(first_at, 1);
            }
            lemma_from_first(ts, i, precedence, e, 0);
        },
        ExprView::Identifier(_) => {
            lemma_stands_at(ts, i, operand(e), 0);
            assert(first_at(ts, i) == found(e, 0nat)) by {
                reveal_with_fuel(first_at, 1);
            }
            lemma_from_first(ts, i, precedence, e, 0);
        },
        ExprView::Call(..) => lemma_call_operand(ts, i, e, precedence),
        ExprView::Postfix(..) => lemma_postfix_operand(ts, i, e, precedence),
        ExprView::FieldAcc(..) => lemma_field_operand(ts, i, e, precedence),
        _ => lemma_wrapped_operand(ts, i, e, precedence),
    }
}

/// A left operand that is written reads back: before an operator that
/// binds no more tightly than `level`, the grammar reads the expression
/// itself from its tokens, and goes on from there.
proof fn lemma_left_reads_back(ts: Seq<Option<TokenView>>, i: nat, e: ExprView, level: int)
    requires
        clean(ts),
        writable(e),
        stands(ts, i, left_operand(e, level)),
        precedence_at(tok(ts, i + left_operand(e, level).len())).level() <= level,
        level <= Precedence::Product.level(),
    ensures
        left_operand(e, level).len() >= 1,
        expr_at(ts, i, Precedence::Lowest) == infix_loop(
            ts,
            e,
            i,
            (left_operand(e, level).len() - 1) as nat,
            Precedence::Lowest,
        ),
    decreases e, 4nat,
{
    match e {
        ExprView::Infix(lhs, infix, rhs) => {
            if infix_level(infix) >= level {
                let a = left_operand(*lhs, infix_level(infix));
                let o = seq![infix_token(infix)];
                let b = operand(*rhs);
                lemma_stands_split(ts, i, a + o, b);
                lemma_stands_split(ts, i, a, o);
                lemma_stands_at(ts, i + a.len(), o, 0);
                lemma_left_reads_back(ts, i, *lhs, infix_level(infix));
                let k = i + a.len();
                let within = precedence_of(infix_token(infix));
                law_written_operand_reads_back(ts, k + 1, *rhs, within);
                let ca = (a.len() - 1) as nat;
                let cb = (b.len() - 1) as nat;
                lemma_expr_stops(ts, k + 1, within, *rhs, cb);
                lemma_infix_operator(ts, *lhs, k, infix, *rhs, cb);
                lemma_expr_grows(ts, i, Precedence::Lowest, *lhs, ca, e, 1 + cb);
            } else {
                law_written_operand_reads_back(ts, i, e, Precedence::Lowest);
            }
        },
        ExprView::Prefix(prefix, inner) => {
            let a = seq![prefix_token(prefix)];
            let b = operand(*inner);
            lemma_stands_split(ts, i, a, b);
            lemma_stands_at(ts, i, a, 0);
            law_written_operand_reads_back(ts, i + 1, *inner, Precedence::Prefix);
            let cb = (b.len() - 1) as nat;
            lemma_expr_stops(ts, i + 1, Precedence::Prefix, *inner, cb);
            lemma_prefix_first(ts, i, prefix, *inner, cb);
            lemma_from_first(ts, i, Precedence::Lowest, e, 1 + cb);
        },
        _ => {
            law_written_operand_reads_back(ts, i, e, Precedence::Lowest);
        },
    }
}

/// What a call calls, as it is written, reads back.
proof fn lemma_callee_reads_back(
    ts: Seq<Option<TokenView>>,
    i: nat,
    e: ExprView,
    precedence: Precedence,
)
    requires
        clean(ts),
        writable(e),
        stands(ts, i, callee(e)),
        precedence.level() <= Precedence::Prefix.level(),
    ensures
        callee(e).len() >= 1,
        expr_at(ts, i, precedence) == infix_loop(
            ts,
            e,
            i,
            (callee(e).len() - 1) as nat,
            precedence,
        ),
    decreases e, 4nat,
{
    if names_field(e) {
        let lp = seq![TokenView::Lparen];
        let rp = seq![TokenView::Rparen];
        let a = operand(e);
        lemma_stands_split(ts, i, lp + a, rp);
        lemma_stands_split(ts, i, lp, a);
        lemma_stands_at(ts, i, lp, 0);
        lemma_stands_at(ts, i + (lp + a).len(), rp, 0);
        law_written_operand_reads_back(ts, i + 1, e, Precedence::Lowest);
        let c = (a.len() - 1) as nat;
        lemma_expr_stops(ts, i + 1, Precedence::Lowest, e, c);
        law_parentheses_leave_no_node(ts, i, e, c);
        lemma_from_first(ts, i, precedence, e, 2 + c);
    } else {
        law_written_operand_reads_back(ts, i, e, precedence);
    }
}

/// An expression that is written reads back: wherever its tokens stand
/// before a token that is no operator, the grammar yields the expression
/// itself, on exactly those tokens.
pub proof fn law_written_expression_reads_back(ts: Seq<Option<TokenView>>, i: nat, e: ExprView)
    requires
        clean(ts),
        writable(e),
        stands(ts, i, shown(e)),
        precedence_at(tok(ts, i + shown(e).len())) == Precedence::Lowest,
    ensures
        shown(e).len() >= 1,
        expr_at(ts, i, Precedence::Lowest) == found(e, (shown(e).len() - 1) as nat),
    decreases e, 4nat,
{
    if is_loose(e) {
        lemma_unwrapped_reads_back(ts, i, e);
    } else {
        law_written_operand_reads_back(ts, i, e, Precedence::Lowest);
        lemma_expr_stops(ts, i, Precedence::Lowest, e, (operand(e).len() - 1) as nat);
    }
}

/// An assignment or an operator with its operands, written without
/// parentheses, reads back.
proof fn lemma_unwrapped_reads_back(ts: Seq<Option<TokenView>>, i: nat, e: ExprView)
    requires
        clean(ts),
        is_loose(e),
        writable(e),
        stands(ts, i, unwrapped(e)),
        precedence_at(tok(ts, i + unwrapped(e).len())) == Precedence::Lowest,
    ensures
        unwrapped(e).len() >= 1,
        expr_at(ts, i, Precedence::Lowest) == found(e, (unwrapped(e).len() - 1) as nat),
    decreases e, 1nat,
{
    match e {
        ExprView::Assign(..) => lemma_assign_unwrapped(ts, i, e),
        ExprView::Infix(..) => lemma_infix_unwrapped(ts, i, e),
        ExprView::Prefix(..) => lemma_prefix_unwrapped(ts, i, e),
        _ => {},
    }
}

/// An expression between parentheses, written as an operand, reads back.
proof fn lemma_wrapped_operand(
    ts: Seq<Option<TokenView>>,
    i: nat,
    e: ExprView,
    precedence: Precedence,
)
    requires
        clean(ts),
        is_loose(e),
        writable(e),
        stands(ts, i, operand(e)),
        precedence.level() <= Precedence::Prefix.level(),
        names_field(e) ==> tok(ts, i + operand(e).len()) != Some(TokenView::Lparen),
    ensures
        operand(e).len() >= 1,
        expr_at(ts, i, precedence) == infix_loop(
            ts,
            e,
            i,
            (operand(e).len() - 1) as nat,
            precedence,
        ),
    decreases e, 2nat,
{
    match e {
        ExprView::Assign(..) | ExprView::Infix(..) | ExprView::Prefix(..) => {
            let lp = seq![TokenView::Lparen];
            let rp = seq![TokenView::Rparen];
            let a = unwrapped(e);
            lemma_stands_split(ts, i, lp + a, rp);
            lemma_stands_split(ts, i, lp, a);
            lemma_stands_at(ts, i, lp, 0);
            lemma_stands_at(ts, i + (lp + a).len(), rp, 0);
            lemma_unwrapped_reads_back(ts, i + 1, e);
            let c = (a.len() - 1) as nat;
            law_parentheses_leave_no_node(ts, i, e, c);
            lemma_from_first(ts, i, precedence, e, 2 + c);
        },
        _ => {},
    }
}

/// A call, written as an operand, reads back.
proof fn lemma_call_operand(
    ts: Seq<Option<TokenView>>,
    i: nat,
    e: ExprView,
    precedence: Precedence,
)
    requires
        clean(ts),
        e is Call,
        writable(e),
        stands(ts, i, operand(e)),
        precedence.level() <= Precedence::Prefix.level(),
        names_field(e) ==> tok(ts, i + operand(e).len()) != Some(TokenView::Lparen),
    ensures
        operand(e).len() >= 1,
        expr_at(ts, i, precedence) == infix_loop(
            ts,
            e,
            i,
            (operand(e).len() - 1) as nat,
            precedence,
        ),
    decreases e, 2nat,
{
    match e {
        ExprView::Call(func, args) => {
            let a = callee(*func);
            let l = shown_list(TokenView::Lparen, args, TokenView::Rparen);
            lemma_stands_split(ts, i, a, l);
            lemma_callee_reads_back(ts, i, *func, precedence);
            let k = i + a.len();
            lemma_list_reads_back(ts, k, TokenView::Lparen, args, TokenView::Rparen);
            lemma_stands_at(ts, k, l, 0);
            let ca = (a.len() - 1) as nat;
            let cl = (l.len() - 1) as nat;
            lemma_call_operator(ts, *func, k, args, cl);
            lemma_expr_grows(ts, i, precedence, *func, ca, e, cl);
        },
        _ => {},
    }
}

/// A postfix operator with its operand, written as an operand, reads back.
proof fn lemma_postfix_operand(
    ts: Seq<Option<TokenView>>,
    i: nat,
    e: ExprView,
    precedence: Precedence,
)
    requires
        clean(ts),
        e is Postfix,
        writable(e),
        stands(ts, i, operand(e)),
        precedence.level() <= Precedence::Prefix.level(),
        names_field(e) ==> tok(ts, i + operand(e).len()) != Some(TokenView::Lparen),
    ensures
        operand(e).len() >= 1,
        expr_at(ts, i, precedence) == infix_loop(
            ts,
            e,
            i,
            (operand(e).len() - 1) as nat,
            precedence,
        ),
    decreases e, 2nat,
{
    match e {
        ExprView::Postfix(inner, postfix) => {
            let a = operand(*inner);
            let o = seq![postfix_token(postfix)];
            lemma_stands_split(ts, i, a, o);
            lemma_stands_at(ts, i + a.len(), o, 0);
            law_written_operand_reads_back(ts, i, *inner, precedence);
            let k = i + a.len();
            let ca = (a.len() - 1) as nat;
            lemma_postfix_operator(ts, *inner, k, postfix);
            lemma_expr_grows(ts, i, precedence, *inner, ca, e, 0);
        },
        _ => {},
    }
}

/// A field access, written as an operand, reads back.
proof fn lemma_field_operand(
    ts: Seq<Option<TokenView>>,
    i: nat,
    e: ExprView,
    precedence: Precedence,
)
    requires
        clean(ts),
        e is FieldAcc,
        writable(e),
        stands(ts, i, operand(e)),
        precedence.level() <= Precedence::Prefix.level(),
        names_field(e) ==> tok(ts, i + operand(e).len()) != Some(TokenView::Lparen),
    ensures
        operand(e).len() >= 1,
        expr_at(ts, i, precedence) == infix_loop(
            ts,
            e,
            i,
            (operand(e).len() - 1) as nat,
            precedence,
        ),
    decreases e, 2nat,
{
    match e {
        ExprView::FieldAcc(src, target) => {
            let a = operand(*src);
            let ca = (a.len() - 1) as nat;
            let k = i + a.len();
            match *target {
                ExprView::Identifier(name) => {
                    let o = seq![TokenView::Dot, TokenView::Identifier(name)];
                    lemma_stands_split(ts, i, a, o);
                    lemma_stands_at(ts, k, o, 0);
                    lemma_stands_at(ts, k, o, 1);
                    law_written_operand_reads_back(ts, i, *src, precedence);
                    lemma_field_operator(ts, *src, k, name);
                    lemma_expr_grows(ts, i, precedence, *src, ca, e, 1);
                },
                ExprView::Call(method, args) => {
                    match *method {
                        ExprView::Identifier(name) => {
                            let o = seq![TokenView::Dot, TokenView::Identifier(name)];
                            let l = shown_list(TokenView::Lparen, args, TokenView::Rparen);
                            lemma_stands_split(ts, i, a + o, l);
                            lemma_stands_split(ts, i, a, o);
                            lemma_stands_at(ts, k, o, 0);
                            lemma_stands_at(ts, k, o, 1);
                            law_written_operand_reads_back(ts, i, *src, precedence);
                            lemma_list_reads_back(
                                ts,
                                k + 2,
                                TokenView::Lparen,
                                args,
                                TokenView::Rparen,
                            );
                            lemma_stands_at(ts, k + 2, l, 0);
                            let cl = (l.len() - 1) as nat;
                            lemma_method_operator(ts, *src, k, name, args, cl);
                            lemma_expr_grows(ts, i, precedence, *src, ca, e, 2 + cl);
                        },
                        _ => {},
                    }
                },
                _ => {},
            }
        },
        _ => {},
    }
}

/// An assignment, written without parentheses, reads back.
proof fn lemma_assign_unwrapped(ts: Seq<Option<TokenView>>, i: nat, e: ExprView)
    requires
        clean(ts),
        e is Assign,
        writable(e),
        stands(ts, i, unwrapped(e)),
        precedence_at(tok(ts, i + unwrapped(e).len())) == Precedence::Lowest,
    ensures
        unwrapped(e).len() >= 1,
        expr_at(ts, i, Precedence::Lowest) == found(e, (unwrapped(e).len() - 1) as nat),
    decreases e, 0nat,
{
    match e {
        ExprView::Assign(name, value) => {
            let a = seq![TokenView::Identifier(name), TokenView::Equal];
            let b = shown(*value);
            lemma_stands_split(ts, i, a, b);
            lemma_stands_at(ts, i, a, 0);
            lemma_stands_at(ts, i, a, 1);
            law_written_expression_reads_back(ts, i + 2, *value);
            let cb = (b.len() - 1) as nat;
            lemma_assign_operator(ts, name, i + 1, *value, cb);
            assert(first_at(ts, i) == found(ExprView::Identifier(name), 0nat)) by {
                reveal_with_fuel(first_at, 1);
            }
            lemma_from_first(ts, i, Precedence::Lowest, ExprView::Identifier(name), 0);
            lemma_expr_grows(
                ts,
                i,
                Precedence::Lowest,
                ExprView::Identifier(name),
                0,
                e,
                1 + cb,
            );
            lemma_expr_stops(ts, i, Precedence::Lowest, e, 2 + cb);
        },
        _ => {},
    }
}

/// An infix operator with its operands, written without parentheses, reads back.
proof fn lemma_infix_unwrapped(ts: Seq<Option<TokenView>>, i: nat, e: ExprView)
    requires
        clean(ts),
        e is Infix,
        writable(e),
        stands(ts, i, unwrapped(e)),
        precedence_at(tok(ts, i + unwrapped(e).len())) == Precedence::Lowest,
    ensures
        unwrapped(e).len() >= 1,
        expr_at(ts, i, Precedence::Lowest) == found(e, (unwrapped(e).len() - 1) as nat),
    decreases e, 0nat,
{
    match e {
        ExprView::Infix(lhs, infix, rhs) => {
            let a = left_operand(*lhs, infix_level(infix));
            let o = seq![infix_token(infix)];
            let b = operand(*rhs);
            lemma_stands_split(ts, i, a + o, b);
            lemma_stands_split(ts, i, a, o);
            lemma_stands_at(ts, i + a.len(), o, 0);
            lemma_left_reads_back(ts, i, *lhs, infix_level(infix));
            let k = i + a.len();
            let within = precedence_of(infix_token(infix));
            law_written_operand_reads_back(ts, k + 1, *rhs, within);
            let ca = (a.len() - 1) as nat;
            let cb = (b.len() - 1) as nat;
            lemma_expr_stops(ts, k + 1, within, *rhs, cb);
            lemma_infix_operator(ts, *lhs, k, infix, *rhs, cb);
            lemma_expr_grows(ts, i, Precedence::Lowest, *lhs, ca, e, 1 + cb);
            lemma_expr_stops(ts, i, Precedence::Lowest, e, ca + 2 + cb);
        },
        _ => {},
    }
}

/// A prefix operator with its operand, written without parentheses, reads back.
proof fn lemma_prefix_unwrapped(ts: Seq<Option<TokenView>>, i: nat, e: ExprView)
    requires
        clean(ts),
        e is Prefix,
        writable(e),
        stands(ts, i, unwrapped(e)),
        precedence_at(tok(ts, i + unwrapped(e).len())) == Precedence::Lowest,
    ensures
        unwrapped(e).len() >= 1,
        expr_at(ts, i, Precedence::Lowest) == found(e, (unwrapped(e).len() - 1) as nat),
    decreases e, 0nat,
{
    match e {
        ExprView::Prefix(prefix, inner) => {
            let a = seq![prefix_token(prefix)];
            let b = operand(*inner);
            lemma_stands_split(ts, i, a, b);
            lemma_stands_at(ts, i, a, 0);
            law_written_operand_reads_back(ts, i + 1, *inner, Precedence::Prefix);
            let cb = (b.len() - 1) as nat;
            lemma_expr_stops(ts, i + 1, Precedence::Prefix, *inner, cb);
            lemma_prefix_first(ts, i, prefix, *inner, cb);
            lemma_from_first(ts, i, Precedence::Lowest, e, 1 + cb);
            lemma_expr_stops(ts, i, Precedence::Lowest, e, 1 + cb);
        },
        _ => {},
    }
}

/// A list of expressions that is written reads back.
proof fn lemma_list_reads_back(
    ts: Seq<Option<TokenView>>,
    i: nat,
    open: TokenView,
    items: Seq<ExprView>,
    stop: TokenView,
)
    requires
        clean(ts),
        all_writable(items),
        closes(stop),
        stands(ts, i, shown_list(open, items, stop)),
    ensures
        shown_list(open, items, stop).len() >= 2,
        shown_list(open, items, stop)[0] == open,
        expr_list_at(ts, i, stop) == found(items, (shown_list(open, items, stop).len() - 1) as nat),
    decreases items, items.len() + 1,
{
    let whole = shown_list(open, items, stop);
    if items.len() == 0 {
        lemma_stands_at(ts, i, whole, 0);
        lemma_stands_at(ts, i, whole, 1);
        lemma_empty_list(ts, i, stop);
        assert(items =~= Seq::<ExprView>::empty());
    } else {
        let head = items[0];
        let a = shown(head);
        let rest = shown_tail(items, 1, stop);
        assert(writable(head));
        lemma_shown_starts(head);
        lemma_tail_starts(items, 1, stop);
        lemma_stands_split(ts, i, seq![open] + a, rest);
        lemma_stands_split(ts, i, seq![open], a);
        lemma_stands_at(ts, i, seq![open], 0);
        lemma_stands_at(ts, i + 1, a, 0);
        lemma_stands_at(ts, i + 1 + a.len(), rest, 0);
        law_written_expression_reads_back(ts, i + 1, head);
        let ca = (a.len() - 1) as nat;
        lemma_list_starts(ts, i, stop, head, ca);
        assert(items.take(1) =~= seq![head]);
        lemma_tail_reads_back(ts, i, 1 + ca, items, 1, stop);
    }
}

/// The rest of a list that is written reads back, after its first `n`
/// expressions.
proof fn lemma_tail_reads_back(
    ts: Seq<Option<TokenView>>,
    i: nat,
    c: nat,
    items: Seq<ExprView>,
    n: nat,
    stop: TokenView,
)
    requires
        clean(ts),
        all_writable(items),
        closes(stop),
        1 <= n <= items.len(),
        stands(ts, i + c + 1, shown_tail(items, n, stop)),
    ensures
        list_rest(ts, items.take(n as int), i, c, stop) == found(
            items,
            c + shown_tail(items, n, stop).len(),
        ),
    decreases items, items.len() - n,
{
    let whole = shown_tail(items, n, stop);
    lemma_tail_starts(items, n, stop);
    lemma_stands_at(ts, i + c + 1, whole, 0);
    if n >= items.len() {
        lemma_list_ends(ts, items.take(n as int), i, c, stop);
        assert(items.take(n as int) =~= items);
    } else {
        let next = items[n as int];
        let a = shown(next);
        let rest = shown_tail(items, n + 1, stop);
        assert(writable(next));
        lemma_shown_starts(next);
        lemma_tail_starts(items, n + 1, stop);
        lemma_stands_split(ts, i + c + 1, seq![TokenView::Comma] + a, rest);
        lemma_stands_split(ts, i + c + 1, seq![TokenView::Comma], a);
        lemma_stands_at(ts, i + c + 2 + a.len(), rest, 0);
        law_written_expression_reads_back(ts, i + c + 2, next);
        let ca = (a.len() - 1) as nat;
        lemma_list_goes_on(ts, items.take(n as int), i, c, stop, next, ca);
        assert(items.take(n as int).push(next) =~= items.take(n as int + 1));
        lemma_tail_reads_back(ts, i, c + 2 + ca, items, n + 1, stop);
    }
}

/// The tokens of a type.
pub open spec fn shown_type(t: ExprType) -> Seq<TokenView>
    decreases t,
{
    match t {
        ExprType::Int => seq![TokenView::TypeInt],
        ExprType::Float => seq![TokenView::TypeFloat],
        ExprType::String => seq![TokenView::TypeString],
        ExprType::Boolean => seq![TokenView::TypeBoolean],
        ExprType::Void => seq![TokenView::TypeVoid],
        ExprType::Array(inner) => seq![TokenView::ClassArray, TokenView::LessThan] + shown_type(
            *inner,
        ) + seq![TokenView::GratherThan],
    }
}

/// The tokens of one parameter: its name, a colon and its type.
pub open spec fn shown_param(param: ParamSyntax) -> Seq<TokenView> {
    seq![TokenView::Identifier(param.name), TokenView::Colon] + shown_type(param.type_)
}

/// The tokens of the parameters from the parameter `n` on, with a comma
/// between two of them, and the closing parenthesis.
pub open spec fn shown_params_from(params: Seq<ParamSyntax>, n: nat) -> Seq<TokenView>
    decreases params.len() - n,
{
    if n + 1 < params.len() {
        shown_param(params[n as int]) + seq![TokenView::Comma] + shown_params_from(params, n + 1)
    } else if n < params.len() {
        shown_param(params[n as int]) + seq![TokenView::Rparen]
    } else {
        seq![TokenView::Rparen]
    }
}

/// The tokens of the parameters of a function definition, between
/// parentheses.
pub open spec fn shown_params(params: Seq<ParamSyntax>) -> Seq<TokenView> {
    seq![TokenView::Lparen] + shown_params_from(params, 0)
}

/// Whether no parameter has the type `void`.
pub open spec fn writable_params(params: Seq<ParamSyntax>) -> bool {
    forall|k: int| 0 <= k < params.len() ==> !((#[trigger] params[k]).type_ is Void)
}

/// The tokens of a statement as it is written.
pub open spec fn shown_stmt(s: StmtView) -> Seq<TokenView>
    decreases s, 0nat,
{
    match s {
        StmtView::Expr(e) => shown(e),
        StmtView::Let(name, Some(t), Some(e)) => seq![
            TokenView::Let,
            TokenView::Identifier(name),
            TokenView::Colon,
        ] + shown_type(t) + seq![TokenView::Equal] + shown(e),
        StmtView::Let(name, Some(t), None) => seq![
            TokenView::Let,
            TokenView::Identifier(name),
            TokenView::Colon,
        ] + shown_type(t),
        StmtView::Let(name, None, Some(e)) => seq![
            TokenView::Let,
            TokenView::Identifier(name),
            TokenView::Equal,
        ] + shown(e),
        StmtView::Let(name, None, None) => Seq::empty(),
        StmtView::Return(None) => seq![TokenView::Return],
        StmtView::Return(Some(e)) => seq![TokenView::Return] + shown(e),
        StmtView::If { condition, consequence, alternative } => seq![TokenView::If] + shown(
            condition,
        ) + shown_block(consequence) + match alternative {
            Some(block) => seq![TokenView::Else] + shown_block(block),
            None => Seq::empty(),
        },
        StmtView::ForLoop { cursor, iterable, block } => seq![
            TokenView::For,
            TokenView::Identifier(cursor),
            TokenView::In,
        ] + shown(iterable) + shown_block(block),
        StmtView::Func(name, params, body, ret) => seq![
            TokenView::Func,
            TokenView::Identifier(name),
        ] + shown_params(params) + seq![TokenView::Colon] + shown_type(ret) + shown_block(body),
    }
}

/// The tokens of the statements from the statement `n` on, one after the
/// other.
pub open spec fn shown_stmts(stmts: Seq<StmtView>, n: nat) -> Seq<TokenView>
    decreases stmts, stmts.len() - n,
{
    if n >= stmts.len() {
        Seq::empty()
    } else {
        shown_stmt(stmts[n as int]) + shown_stmts(stmts, n + 1)
    }
}

/// The tokens of a block: its statements between braces.
pub open spec fn shown_block(stmts: Seq<StmtView>) -> Seq<TokenView>
    decreases stmts, stmts.len() + 1,
{
    seq![TokenView::Lbrace] + shown_stmts(stmts, 0) + seq![TokenView::Rbrace]
}

/// The first token of a statement.
pub open spec fn head_token(s: StmtView) -> TokenView {
    match s {
        StmtView::Expr(e) => shown(e)[0],
        StmtView::Let(..) => TokenView::Let,
        StmtView::Return(_) => TokenView::Return,
        StmtView::If { .. } => TokenView::If,
        StmtView::ForLoop { .. } => TokenView::For,
        StmtView::Func(..) => TokenView::Func,
    }
}

/// Whether a statement is of a form that the grammar yields where the
/// token `next` comes after it. The language has no mark between two
/// statements, so an expression ends only before a token that is no
/// operator, and a `return` without a value only before a closing brace or
/// the end of the input.
pub open spec fn writable_stmt(s: StmtView, next: TokenView) -> bool
    decreases s, 0nat,
{
    match s {
        StmtView::Expr(e) => writable(e) && ends_before(next),
        StmtView::Let(_, Some(t), Some(e)) => !(t is Void) && writable(e) && ends_before(next),
        StmtView::Let(_, Some(t), None) => !(t is Void) && next != TokenView::Equal,
        StmtView::Let(_, None, Some(e)) => writable(e) && ends_before(next),
        StmtView::Let(_, None, None) => false,
        StmtView::Return(None) => next is Rbrace || next is Eof,
        StmtView::Return(Some(e)) => writable(e) && ends_before(next),
        StmtView::If { condition, consequence, alternative } => writable(condition)
            && writable_stmts(consequence, 0, TokenView::Rbrace) && match alternative {
            Some(block) => writable_stmts(block, 0, TokenView::Rbrace),
            None => next != TokenView::Else,
        },
        StmtView::ForLoop { cursor, iterable, block } => writable(iterable) && writable_stmts(
            block,
            0,
            TokenView::Rbrace,
        ),
        StmtView::Func(_, params, body, _) => writable_params(params) && writable_stmts(
            body,
            0,
            TokenView::Rbrace,
        ),
    }
}

/// The token after the statement `n` of statements that end before `end`.
pub open spec fn token_after(stmts: Seq<StmtView>, n: nat, end: TokenView) -> TokenView {
    if n + 1 < stmts.len() {
        head_token(stmts[n as int + 1])
    } else {
        end
    }
}

/// Whether the statements from the statement `n` on are of forms that the
/// grammar yields, each before the next and the last before `end`.
pub open spec fn writable_stmts(stmts: Seq<StmtView>, n: nat, end: TokenView) -> bool
    decreases stmts, stmts.len() - n,
{
    if n >= stmts.len() {
        true
    } else {
        writable_stmt(stmts[n as int], token_after(stmts, n, end)) && writable_stmts(
            stmts,
            n + 1,
            end,
        )
    }
}

/// A type that is written reads back.
proof fn lemma_type_reads_back(ts: Seq<Option<TokenView>>, i: nat, t: ExprType)
    requires
        clean(ts),
        stands(ts, i, shown_type(t)),
    ensures
        shown_type(t).len() >= 1,
        type_at(ts, i) == found(t, (shown_type(t).len() - 1) as nat),
    decreases t,
{
    reveal_with_fuel(type_at, 1);
    lemma_stands_at(ts, i, shown_type(t), 0);
    match t {
        ExprType::Array(inner) => {
            let a = seq![TokenView::ClassArray, TokenView::LessThan];
            let b = shown_type(*inner);
            let z = seq![TokenView::GratherThan];
            lemma_stands_split(ts, i, a + b, z);
            lemma_stands_split(ts, i, a, b);
            lemma_stands_at(ts, i, a, 0);
            lemma_stands_at(ts, i, a, 1);
            lemma_stands_at(ts, i + (a + b).len(), z, 0);
            lemma_type_reads_back(ts, i + 2, *inner);
        },
        _ => {},
    }
}

/// The parameters that are written read back, from the parameter `n` on.
proof fn lemma_params_rest_read_back(
    ts: Seq<Option<TokenView>>,
    i: nat,
    c: nat,
    params: Seq<ParamSyntax>,
    n: nat,
)
    requires
        clean(ts),
        n < params.len(),
        writable_params(params),
        stands(ts, i + c + 1, shown_params_from(params, n)),
    ensures
        params_rest(ts, params.take(n as int), i, c) == found(
            params,
            c + shown_params_from(params, n).len(),
        ),
    decreases params.len() - n,
{
    reveal_with_fuel(params_rest, 1);
    let param = params[n as int];
    let head = seq![TokenView::Identifier(param.name), TokenView::Colon];
    let t = shown_type(param.type_);
    let acc = params.take(n as int);
    assert(!(param.type_ is Void));
    if n + 1 < params.len() {
        let comma = seq![TokenView::Comma];
        let rest = shown_params_from(params, n + 1);
        lemma_stands_split(ts, i + c + 1, head + t + comma, rest);
        lemma_stands_split(ts, i + c + 1, head + t, comma);
        lemma_stands_split(ts, i + c + 1, head, t);
        lemma_stands_at(ts, i + c + 1, head, 0);
        lemma_stands_at(ts, i + c + 1, head, 1);
        lemma_stands_at(ts, i + c + 1 + (head + t).len(), comma, 0);
        lemma_type_reads_back(ts, i + c + 3, param.type_);
        let c2 = (t.len() - 1) as nat;
        assert(acc.push(ParamSyntax { name: param.name, type_: param.type_ }) =~= params.take(
            n as int + 1,
        ));
        lemma_params_rest_read_back(ts, i, c + 4 + c2, params, n + 1);
    } else {
        let stop = seq![TokenView::Rparen];
        lemma_stands_split(ts, i + c + 1, head + t, stop);
        lemma_stands_split(ts, i + c + 1, head, t);
        lemma_stands_at(ts, i + c + 1, head, 0);
        lemma_stands_at(ts, i + c + 1, head, 1);
        lemma_stands_at(ts, i + c + 1 + (head + t).len(), stop, 0);
        lemma_type_reads_back(ts, i + c + 3, param.type_);
        assert(acc.push(ParamSyntax { name: param.name, type_: param.type_ }) =~= params);
    }
}

/// The parameters of a function definition that are written read back.
proof fn lemma_params_read_back(ts: Seq<Option<TokenView>>, i: nat, params: Seq<ParamSyntax>)
    requires
        clean(ts),
        writable_params(params),
        stands(ts, i, shown_params(params)),
    ensures
        shown_params(params).len() >= 2,
        shown_params(params)[0] == TokenView::Lparen,
        params_at(ts, i) == found(params, (shown_params(params).len() - 1) as nat),
{
    reveal_with_fuel(params_at, 1);
    let open = seq![TokenView::Lparen];
    let rest = shown_params_from(params, 0);
    lemma_stands_split(ts, i, open, rest);
    lemma_stands_at(ts, i + 1, rest, 0);
    if params.len() == 0 {
        assert(params =~= Seq::<ParamSyntax>::empty());
    } else {
        assert(params.take(0) =~= Seq::<ParamSyntax>::empty());
        lemma_params_rest_read_back(ts, i, 0, params, 0);
    }
}

/// A statement that is written starts with its first token, which is
/// neither a closing brace nor the end of the input.
pub proof fn lemma_stmt_head(s: StmtView, next: TokenView)
    requires
        writable_stmt(s, next),
    ensures
        shown_stmt(s).len() >= 1,
        shown_stmt(s)[0] == head_token(s),
        !(head_token(s) is Rbrace),
        !(head_token(s) is Eof),
        s is Expr ==> starts(head_token(s)),
{
    match s {
        StmtView::Expr(e) => {
            lemma_shown_starts(e);
        },
        _ => {},
    }
}

/// Where the statements from the statement `n` on can be written, the
/// statement `n` can, before the token after it, and so can those after it.
proof fn lemma_writable_unfold(stmts: Seq<StmtView>, n: nat, end: TokenView)
    requires
        n < stmts.len(),
        writable_stmts(stmts, n, end),
    ensures
        writable_stmt(stmts[n as int], token_after(stmts, n, end)),
        writable_stmts(stmts, n + 1, end),
{
}

/// The token after the statement `n` is the first of what is written
/// after it.
proof fn lemma_token_after(stmts: Seq<StmtView>, n: nat, end: TokenView)
    requires
        n < stmts.len(),
        writable_stmts(stmts, n, end),
    ensures
        (shown_stmts(stmts, n + 1) + seq![end])[0] == token_after(stmts, n, end),
{
    lemma_writable_unfold(stmts, n, end);
    if n + 1 < stmts.len() {
        lemma_writable_unfold(stmts, n + 1, end);
        lemma_stmt_head(stmts[n as int + 1], token_after(stmts, n + 1, end));
    }
}

/// A statement that is written reads back: wherever its tokens stand
/// before the token `next`, the grammar yields the statement itself, on
/// exactly those tokens.
pub proof fn law_written_statement_reads_back(
    ts: Seq<Option<TokenView>>,
    i: nat,
    s: StmtView,
    next: TokenView,
)
    requires
        clean(ts),
        writable_stmt(s, next),
        stands(ts, i, shown_stmt(s)),
        tok(ts, i + shown_stmt(s).len()) == Some(next),
    ensures
        shown_stmt(s).len() >= 1,
        stmt_at(ts, i) == found(s, (shown_stmt(s).len() - 1) as nat),
    decreases s, 1nat,
{
    match s {
        StmtView::Expr(_) => lemma_expression_statement_reads_back(ts, i, s, next),
        StmtView::Let(..) => lemma_let_reads_back(ts, i, s, next),
        StmtView::Return(_) => lemma_return_reads_back(ts, i, s, next),
        StmtView::If { .. } => lemma_if_reads_back(ts, i, s, next),
        StmtView::ForLoop { .. } => lemma_for_reads_back(ts, i, s, next),
        StmtView::Func(..) => lemma_func_reads_back(ts, i, s, next),
    }
}

/// An expression that stands as a statement, as it is written, reads back.
proof fn lemma_expression_statement_reads_back(
    ts: Seq<Option<TokenView>>,
    i: nat,
    s: StmtView,
    next: TokenView,
)
    requires
        clean(ts),
        s is Expr,
        writable_stmt(s, next),
        stands(ts, i, shown_stmt(s)),
        tok(ts, i + shown_stmt(s).len()) == Some(next),
    ensures
        shown_stmt(s).len() >= 1,
        stmt_at(ts, i) == found(s, (shown_stmt(s).len() - 1) as nat),
    decreases s, 0nat,
{
    reveal_with_fuel(stmt_at, 1);
    reveal_with_fuel(let_at, 1);
    reveal_with_fuel(return_at, 1);
    reveal_with_fuel(if_at, 1);
    reveal_with_fuel(for_at, 1);
    reveal_with_fuel(func_at, 1);
    reveal_with_fuel(block_at, 1);
    reveal_with_fuel(block_rest, 1);
    reveal_with_fuel(alternative_at, 1);
    reveal_with_fuel(expr_at, 1);
    match s {
        StmtView::Expr(e) => {
            lemma_shown_starts(e);
            lemma_stands_at(ts, i, shown(e), 0);
            law_written_expression_reads_back(ts, i, e);
        },
        _ => {},
    }
}

/// A declaration, as it is written, reads back.
#[verifier::rlimit(40)]
proof fn lemma_let_reads_back(
    ts: Seq<Option<TokenView>>,
    i: nat,
    s: StmtView,
    next: TokenView,
)
    requires
        clean(ts),
        s is Let,
        writable_stmt(s, next),
        stands(ts, i, shown_stmt(s)),
        tok(ts, i + shown_stmt(s).len()) == Some(next),
    ensures
        shown_stmt(s).len() >= 1,
        stmt_at(ts, i) == found(s, (shown_stmt(s).len() - 1) as nat),
    decreases s, 0nat,
{
    reveal_with_fuel(stmt_at, 1);
    reveal_with_fuel(let_at, 1);
    reveal_with_fuel(return_at, 1);
    reveal_with_fuel(if_at, 1);
    reveal_with_fuel(for_at, 1);
    reveal_with_fuel(func_at, 1);
    reveal_with_fuel(block_at, 1);
    reveal_with_fuel(block_rest, 1);
    reveal_with_fuel(alternative_at, 1);
    reveal_with_fuel(expr_at, 1);
    match s {
        StmtView::Let(name, Some(t), Some(e)) => {
            let a = seq![TokenView::Let, TokenView::Identifier(name), TokenView::Colon];
            let b = shown_type(t);
            let o = seq![TokenView::Equal];
            let d = shown(e);
            lemma_stands_split(ts, i, a + b + o, d);
            lemma_stands_split(ts, i, a + b, o);
            lemma_stands_split(ts, i, a, b);
            lemma_stands_at(ts, i, a, 0);
            lemma_stands_at(ts, i, a, 1);
            lemma_stands_at(ts, i, a, 2);
            lemma_stands_at(ts, i + (a + b).len(), o, 0);
            lemma_type_reads_back(ts, i + 3, t);
            let c = (b.len() - 1) as nat;
            law_written_expression_reads_back(ts, i + 5 + c, e);
        },
        StmtView::Let(name, Some(t), None) => {
            let a = seq![TokenView::Let, TokenView::Identifier(name), TokenView::Colon];
            let b = shown_type(t);
            lemma_stands_split(ts, i, a, b);
            lemma_stands_at(ts, i, a, 0);
            lemma_stands_at(ts, i, a, 1);
            lemma_stands_at(ts, i, a, 2);
            lemma_type_reads_back(ts, i + 3, t);
        },
        StmtView::Let(name, None, Some(e)) => {
            let a = seq![TokenView::Let, TokenView::Identifier(name), TokenView::Equal];
            let d = shown(e);
            lemma_stands_split(ts, i, a, d);
            lemma_stands_at(ts, i, a, 0);
            lemma_stands_at(ts, i, a, 1);
            lemma_stands_at(ts, i, a, 2);
            law_written_expression_reads_back(ts, i + 3, e);
        },
        _ => {},
    }
}

/// A `return` statement, as it is written, reads back.
proof fn lemma_return_reads_back(
    ts: Seq<Option<TokenView>>,
    i: nat,
    s: StmtView,
    next: TokenView,
)
    requires
        clean(ts),
        s is Return,
        writable_stmt(s, next),
        stands(ts, i, shown_stmt(s)),
        tok(ts, i + shown_stmt(s).len()) == Some(next),
    ensures
        shown_stmt(s).len() >= 1,
        stmt_at(ts, i) == found(s, (shown_stmt(s).len() - 1) as nat),
    decreases s, 0nat,
{
    reveal_with_fuel(stmt_at, 1);
    reveal_with_fuel(let_at, 1);
    reveal_with_fuel(return_at, 1);
    reveal_with_fuel(if_at, 1);
    reveal_with_fuel(for_at, 1);
    reveal_with_fuel(func_at, 1);
    reveal_with_fuel(block_at, 1);
    reveal_with_fuel(block_rest, 1);
    reveal_with_fuel(alternative_at, 1);
    reveal_with_fuel(expr_at, 1);
    match s {
        StmtView::Return(None) => {
            lemma_stands_at(ts, i, shown_stmt(s), 0);
        },
        StmtView::Return(Some(e)) => {
            let a = seq![TokenView::Return];
            let d = shown(e);
            lemma_stands_split(ts, i, a, d);
            lemma_stands_at(ts, i, a, 0);
            lemma_shown_starts(e);
            lemma_stands_at(ts, i + 1, d, 0);
            law_written_expression_reads_back(ts, i + 1, e);
        },
        _ => {},
    }
}

/// An `if` statement, as it is written, reads back.
#[verifier::rlimit(40)]
proof fn lemma_if_reads_back(
    ts: Seq<Option<TokenView>>,
    i: nat,
    s: StmtView,
    next: TokenView,
)
    requires
        clean(ts),
        s is If,
        writable_stmt(s, next),
        stands(ts, i, shown_stmt(s)),
        tok(ts, i + shown_stmt(s).len()) == Some(next),
    ensures
        shown_stmt(s).len() >= 1,
        stmt_at(ts, i) == found(s, (shown_stmt(s).len() - 1) as nat),
    decreases s, 0nat,
{
    reveal_with_fuel(stmt_at, 1);
    reveal_with_fuel(let_at, 1);
    reveal_with_fuel(return_at, 1);
    reveal_with_fuel(if_at, 1);
    reveal_with_fuel(for_at, 1);
    reveal_with_fuel(func_at, 1);
    reveal_with_fuel(block_at, 1);
    reveal_with_fuel(block_rest, 1);
    reveal_with_fuel(alternative_at, 1);
    reveal_with_fuel(expr_at, 1);
    match s {
        StmtView::If { condition, consequence, alternative } => {
            let a = seq![TokenView::If];
            let d = shown(condition);
            let b = shown_block(consequence);
            let rest = match alternative {
                Some(block) => seq![TokenView::Else] + shown_block(block),
                None => Seq::empty(),
            };
            lemma_stands_split(ts, i, a + d + b, rest);
            lemma_stands_split(ts, i, a + d, b);
            lemma_stands_split(ts, i, a, d);
            lemma_stands_at(ts, i, a, 0);
            lemma_shown_starts(condition);
            let c = (d.len() - 1) as nat;
            lemma_block_reads_back(ts, i + 2 + c, consequence);
            lemma_stands_at(ts, i + 2 + c, b, 0);
            law_written_expression_reads_back(ts, i + 1, condition);
            let c2 = (b.len() - 1) as nat;
            let k = i + 2 + c + c2;
            match alternative {
                Some(block) => {
                    let o = seq![TokenView::Else];
                    let b2 = shown_block(block);
                    lemma_stands_split(ts, k + 1, o, b2);
                    lemma_stands_at(ts, k + 1, o, 0);
                    lemma_block_reads_back(ts, k + 2, block);
                    lemma_stands_at(ts, k + 2, b2, 0);
                    assert(alternative_at(ts, k) == found(Some(block), 2 + (b2.len() - 1) as nat));
                },
                None => {
                    assert(alternative_at(ts, k) == found(None::<Seq<StmtView>>, 0nat));
                },
            }
        },
        _ => {},
    }
}

/// A `for` statement, as it is written, reads back.
#[verifier::rlimit(40)]
proof fn lemma_for_reads_back(
    ts: Seq<Option<TokenView>>,
    i: nat,
    s: StmtView,
    next: TokenView,
)
    requires
        clean(ts),
        s is ForLoop,
        writable_stmt(s, next),
        stands(ts, i, shown_stmt(s)),
        tok(ts, i + shown_stmt(s).len()) == Some(next),
    ensures
        shown_stmt(s).len() >= 1,
        stmt_at(ts, i) == found(s, (shown_stmt(s).len() - 1) as nat),
    decreases s, 0nat,
{
    reveal_with_fuel(stmt_at, 1);
    reveal_with_fuel(let_at, 1);
    reveal_with_fuel(return_at, 1);
    reveal_with_fuel(if_at, 1);
    reveal_with_fuel(for_at, 1);
    reveal_with_fuel(func_at, 1);
    reveal_with_fuel(block_at, 1);
    reveal_with_fuel(block_rest, 1);
    reveal_with_fuel(alternative_at, 1);
    reveal_with_fuel(expr_at, 1);
    match s {
        StmtView::ForLoop { cursor, iterable, block } => {
            let a = seq![TokenView::For, TokenView::Identifier(cursor), TokenView::In];
            let d = shown(iterable);
            let b = shown_block(block);
            lemma_stands_split(ts, i, a + d, b);
            lemma_stands_split(ts, i, a, d);
            lemma_stands_at(ts, i, a, 0);
            lemma_stands_at(ts, i, a, 1);
            lemma_stands_at(ts, i, a, 2);
            lemma_shown_starts(iterable);
            let c = (d.len() - 1) as nat;
            lemma_block_reads_back(ts, i + 4 + c, block);
            lemma_stands_at(ts, i + 4 + c, b, 0);
            law_written_expression_reads_back(ts, i + 3, iterable);
        },
        _ => {},
    }
}

/// A function definition, as it is written, reads back.
#[verifier::rlimit(40)]
proof fn lemma_func_reads_back(
    ts: Seq<Option<TokenView>>,
    i: nat,
    s: StmtView,
    next: TokenView,
)
    requires
        clean(ts),
        s is Func,
        writable_stmt(s, next),
        stands(ts, i, shown_stmt(s)),
        tok(ts, i + shown_stmt(s).len()) == Some(next),
    ensures
        shown_stmt(s).len() >= 1,
        stmt_at(ts, i) == found(s, (shown_stmt(s).len() - 1) as nat),
    decreases s, 0nat,
{
    reveal_with_fuel(stmt_at, 1);
    reveal_with_fuel(let_at, 1);
    reveal_with_fuel(return_at, 1);
    reveal_with_fuel(if_at, 1);
    reveal_with_fuel(for_at, 1);
    reveal_with_fuel(func_at, 1);
    reveal_with_fuel(block_at, 1);
    reveal_with_fuel(block_rest, 1);
    reveal_with_fuel(alternative_at, 1);
    reveal_with_fuel(expr_at, 1);
    match s {
        StmtView::Func(name, params, body, ret) => {
            let a = seq![TokenView::Func, TokenView::Identifier(name)];
            let p = shown_params(params);
            let o = seq![TokenView::Colon];
            let t = shown_type(ret);
            let b = shown_block(body);
            lemma_stands_split(ts, i, a + p + o + t, b);
            lemma_stands_split(ts, i, a + p + o, t);
            lemma_stands_split(ts, i, a + p, o);
            lemma_stands_split(ts, i, a, p);
            lemma_stands_at(ts, i, a, 0);
            lemma_stands_at(ts, i, a, 1);
            lemma_params_read_back(ts, i + 2, params);
            lemma_stands_at(ts, i + 2, p, 0);
            let c = (p.len() - 1) as nat;
            lemma_stands_at(ts, i + 3 + c, o, 0);
            lemma_type_reads_back(ts, i + 4 + c, ret);
            let c2 = (t.len() - 1) as nat;
            lemma_block_reads_back(ts, i + 5 + c + c2, body);
            lemma_stands_at(ts, i + 5 + c + c2, b, 0);
        },
        _ => {},
    }
}

/// A block that is written reads back.
proof fn lemma_block_reads_back(ts: Seq<Option<TokenView>>, i: nat, stmts: Seq<StmtView>)
    requires
        clean(ts),
        writable_stmts(stmts, 0, TokenView::Rbrace),
        stands(ts, i, shown_block(stmts)),
    ensures
        shown_block(stmts).len() >= 2,
        shown_block(stmts)[0] == TokenView::Lbrace,
        block_at(ts, i) == found(stmts, (shown_block(stmts).len() - 1) as nat),
    decreases stmts, stmts.len() + 1,
{
    reveal_with_fuel(block_at, 1);
    reveal_with_fuel(block_rest, 1);
    let open = seq![TokenView::Lbrace];
    let inner = shown_stmts(stmts, 0);
    let stop = seq![TokenView::Rbrace];
    assert(open + inner + stop =~= open + (inner + stop));
    lemma_stands_split(ts, i, open, inner + stop);
    assert(stmts.take(0) =~= Seq::<StmtView>::empty());
    lemma_stmts_read_back(ts, i, 0, stmts, 0);
}

/// The statements of a block that is written read back, from the
/// statement `n` on.
proof fn lemma_stmts_read_back(
    ts: Seq<Option<TokenView>>,
    i: nat,
    c: nat,
    stmts: Seq<StmtView>,
    n: nat,
)
    requires
        clean(ts),
        n <= stmts.len(),
        writable_stmts(stmts, n, TokenView::Rbrace),
        stands(ts, i + c + 1, shown_stmts(stmts, n) + seq![TokenView::Rbrace]),
    ensures
        block_rest(ts, stmts.take(n as int), i, c) == found(
            stmts,
            c + shown_stmts(stmts, n).len() + 1,
        ),
    decreases stmts, stmts.len() - n,
{
    reveal_with_fuel(block_rest, 1);
    reveal_with_fuel(stmt_at, 1);
    let stop = seq![TokenView::Rbrace];
    lemma_stands_at(ts, i + c + 1, shown_stmts(stmts, n) + stop, 0);
    if n >= stmts.len() {
        assert(stmts.take(n as int) =~= stmts);
    } else {
        let s = stmts[n as int];
        let a = shown_stmt(s);
        let rest = shown_stmts(stmts, n + 1);
        let next = token_after(stmts, n, TokenView::Rbrace);
        lemma_writable_unfold(stmts, n, TokenView::Rbrace);
        lemma_stmt_head(s, next);
        lemma_token_after(stmts, n, TokenView::Rbrace);
        assert(a + rest + stop =~= a + (rest + stop));
        lemma_stands_split(ts, i + c + 1, a, rest + stop);
        lemma_stands_at(ts, i + c + 1 + a.len(), rest + stop, 0);
        law_written_statement_reads_back(ts, i + c + 1, s, next);
        assert(stmts.take(n as int).push(s) =~= stmts.take(n as int + 1));
        lemma_stmts_read_back(ts, i, c + a.len(), stmts, n + 1);
    }
}

/// The statements of a program that is written read back, from the
/// statement `n` on.
proof fn lemma_program_reads_back(
    ts: Seq<Option<TokenView>>,
    j: nat,
    program: Seq<StmtView>,
    n: nat,
)
    requires
        clean(ts),
        n <= program.len(),
        writable_stmts(program, n, TokenView::Eof),
        stands(ts, j, shown_stmts(program, n) + seq![TokenView::Eof]),
    ensures
        program_from(ts, program.take(n as int), j) == spelt(program),
    decreases program.len() - n,
{
    reveal_with_fuel(program_from, 1);
    let stop = seq![TokenView::Eof];
    lemma_stands_at(ts, j, shown_stmts(program, n) + stop, 0);
    if n >= program.len() {
        assert(program.take(n as int) =~= program);
    } else {
        let s = program[n as int];
        let a = shown_stmt(s);
        let rest = shown_stmts(program, n + 1);
        let next = token_after(program, n, TokenView::Eof);
        lemma_writable_unfold(program, n, TokenView::Eof);
        lemma_stmt_head(s, next);
        lemma_token_after(program, n, TokenView::Eof);
        assert(a + rest + stop =~= a + (rest + stop));
        lemma_stands_split(ts, j, a, rest + stop);
        lemma_stands_at(ts, j + a.len(), rest + stop, 0);
        law_written_statement_reads_back(ts, j, s, next);
        assert(program.take(n as int).push(s) =~= program.take(n as int + 1));
        lemma_program_reads_back(ts, j + a.len(), program, n + 1);
    }
}

/// A program that is written reads back: where the tokens of a source are
/// those of the program, each statement before the next and the last
/// before the end of the input, the grammar yields the program itself.
pub proof fn law_written_program_reads_back(ts: Seq<Option<TokenView>>, program: Seq<StmtView>)
    requires
        clean(ts),
        writable_stmts(program, 0, TokenView::Eof),
        stands(ts, 0, shown_stmts(program, 0) + seq![TokenView::Eof]),
    ensures
        program_of(ts) == spelt(program),
{
    assert(program.take(0) =~= Seq::<StmtView>::empty());
    lemma_program_reads_back(ts, 0, program, 0);
}

/// A source whose tokens are those of a program that is written spells
/// that program.
pub proof fn law_written_source_parses(input: Seq<char>, program: Seq<StmtView>)
    requires
        writable_stmts(program, 0, TokenView::Eof),
        stands(token_stream(input, 0), 0, shown_stmts(program, 0) + seq![TokenView::Eof]),
        clean(token_stream(input, 0)),
    ensures
        parse_source(input) == Some(program),
{
    law_written_program_reads_back(token_stream(input, 0), program);
}

} // verus!
