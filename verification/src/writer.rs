//! Writing a program as a text that parses back to it.

use crate::ast::{
    expr_view, exprs_view, params_syntax, stmts_view, Expr, ExprType, Identifier, Infix, Literal,
    Postfix, Prefix, Program, Stmt,
};
use crate::grammar::parse_source;
use crate::notation::{
    callee, infix_level, infix_token, left_operand, names_field, operand, postfix_token,
    prefix_token, shown, shown_block, shown_list, shown_param, shown_params, shown_params_from,
    shown_stmt, shown_stmts, shown_tail, shown_type, unwrapped, writable_stmts,
};
use crate::parser::Parser;
use crate::spelling::{
    all_spellable, law_written_text_parses, lemma_text_concat, lemma_text_one, program_text,
    spelled, spelling,
};
use crate::text::{chars_of, int_to_string};
use crate::token::{Token, TokenView};
use vstd::prelude::*;

verus! {

/// Appends the characters of `s` to `out`.
fn put_text(out: &mut Vec<char>, s: &str)
    ensures
        final(out)@ == old(out)@ + s@,
{
    let chars = chars_of(s);
    let mut i: usize = 0;
    while i < chars.len()
        invariant
            i <= chars@.len(),
            chars@ == s@,
            out@ == old(out)@ + chars@.subrange(0, i as int),
        decreases chars@.len() - i,
    {
        out.push(chars[i]);
        i = i + 1;
        assert(chars@.subrange(0, i as int) =~= chars@.subrange(0, i as int - 1).push(
            chars@[i as int - 1],
        ));
    }
    assert(chars@.subrange(0, i as int) =~= chars@);
}

/// Appends the spelling of a token to `out`.
fn put_spelling(out: &mut Vec<char>, token: &Token)
    ensures
        final(out)@ == old(out)@ + spelling(token@),
{
    match token {
        Token::Illegal(_) => {},
        Token::Eof => {},
        Token::Lbracket => out.push('['),
        Token::Rbracket => out.push(']'),
        Token::Lparen => out.push('('),
        Token::Rparen => out.push(')'),
        Token::Lbrace => out.push('{'),
        Token::Rbrace => out.push('}'),
        Token::Comma => out.push(','),
        Token::Colon => out.push(':'),
        Token::Dot => out.push('.'),
        Token::Plus => out.push('+'),
        Token::Minus => out.push('-'),
        Token::Asterisk => out.push('*'),
        Token::Slash => out.push('/'),
        Token::Equal => out.push('='),
        Token::Percet => out.push('%'),
        Token::DoubleEqual => {
            out.push('=');
            out.push('=');
        },
        Token::GratherThan => out.push('>'),
        Token::GratherOrEqual => {
            out.push('>');
            out.push('=');
        },
        Token::LessThan => out.push('<'),
        Token::LessOrEqual => {
            out.push('<');
            out.push('=');
        },
        Token::Bang => out.push('!'),
        Token::NotEqual => {
            out.push('!');
            out.push('=');
        },
        Token::DoublePlus => {
            out.push('+');
            out.push('+');
        },
        Token::DoubleMinus => {
            out.push('-');
            out.push('-');
        },
        Token::Int(v) => {
            let text = int_to_string(*v);
            put_text(out, text.as_str());
        },
        Token::Float(s) => put_text(out, s.as_str()),
        Token::String(s) => {
            out.push('"');
            put_text(out, s.as_str());
            out.push('"');
        },
        Token::True => put_text(out, "true"),
        Token::False => put_text(out, "false"),
        Token::Let => put_text(out, "let"),
        Token::If => put_text(out, "if"),
        Token::For => put_text(out, "for"),
        Token::In => put_text(out, "in"),
        Token::Else => put_text(out, "else"),
        Token::Func => put_text(out, "define"),
        Token::Null => put_text(out, "null"),
        Token::Import => put_text(out, "import"),
        Token::Return => put_text(out, "return"),
        Token::ClassArray => put_text(out, "Array"),
        Token::Identifier(s) => put_text(out, s.as_str()),
        Token::TypeInt => put_text(out, "int"),
        Token::TypeFloat => put_text(out, "float"),
        Token::TypeString => put_text(out, "string"),
        Token::TypeBoolean => put_text(out, "boolean"),
        Token::TypeVoid => put_text(out, "void"),
    }
    assert(out@ =~= old(out)@ + spelling(token@));
}

/// Appends a token to a text that holds the tokens `done` after `base`: a
/// space and the token's spelling.
fn put_token(
    out: &mut Vec<char>,
    token: &Token,
    Ghost(base): Ghost<Seq<char>>,
    Ghost(done): Ghost<Seq<TokenView>>,
)
    requires
        old(out)@ == base + spelled(done, 0),
    ensures
        final(out)@ == base + spelled(done + seq![token@], 0),
{
    out.push(' ');
    put_spelling(out, token);
    proof {
        lemma_text_one(token@);
        lemma_text_concat(done, seq![token@]);
        assert(out@ =~= base + spelled(done + seq![token@], 0));
    }
}

/// Appends a name as a token.
fn put_name(
    out: &mut Vec<char>,
    name: &String,
    Ghost(base): Ghost<Seq<char>>,
    Ghost(done): Ghost<Seq<TokenView>>,
)
    requires
        old(out)@ == base + spelled(done, 0),
    ensures
        final(out)@ == base + spelled(done + seq![TokenView::Identifier(name@)], 0),
{
    let token = Token::Identifier(name.clone());
    put_token(out, &token, Ghost(base), Ghost(done));
}


/// The token of an infix operator.
fn infix_token_of(infix: Infix) -> (r: Token)
    ensures
        r@ == infix_token(infix),
{
    match infix {
        Infix::Plus => Token::Plus,
        Infix::Minus => Token::Minus,
        Infix::Multiply => Token::Asterisk,
        Infix::Devide => Token::Slash,
        Infix::Remainder => Token::Percet,
        Infix::NotEqual => Token::NotEqual,
        Infix::Equal => Token::DoubleEqual,
        Infix::LessThan => Token::LessThan,
        Infix::LessOrEqual => Token::LessOrEqual,
        Infix::GratherThan => Token::GratherThan,
        Infix::GratherOrEqual => Token::GratherOrEqual,
    }
}

/// The token of a prefix operator.
fn prefix_token_of(prefix: Prefix) -> (r: Token)
    ensures
        r@ == prefix_token(prefix),
{
    match prefix {
        Prefix::Not => Token::Bang,
        Prefix::Plus => Token::Plus,
        Prefix::Minus => Token::Minus,
    }
}

/// The token of a postfix operator.
fn postfix_token_of(postfix: Postfix) -> (r: Token)
    ensures
        r@ == postfix_token(postfix),
{
    match postfix {
        Postfix::Increment => Token::DoublePlus,
        Postfix::Decrement => Token::DoubleMinus,
    }
}

/// Whether an expression is a field access that names a field.
fn is_field_name(e: &Expr) -> (r: bool)
    ensures
        r == names_field(e@),
{
    proof {
        reveal_with_fuel(expr_view, 2);
    }
    match e {
        Expr::FieldAcc(_, target) => match &**target {
            Expr::Identifier(_) => true,
            _ => false,
        },
        _ => false,
    }
}

/// Appends an assignment or an operator with its operands, without
/// parentheses round it.
fn write_unwrapped(
    e: &Expr,
    out: &mut Vec<char>,
    Ghost(base): Ghost<Seq<char>>,
    Ghost(done): Ghost<Seq<TokenView>>,
)
    requires
        old(out)@ == base + spelled(done, 0),
    ensures
        final(out)@ == base + spelled(done + unwrapped(e@), 0),
    decreases e, 0nat,
{
    let ghost mut d = done;
    match e {
        Expr::Assign(name, value) => {
            put_name(out, &name.0, Ghost(base), Ghost(d));
            proof {
                d = d + seq![TokenView::Identifier(name.0@)];
            }
            put_token(out, &Token::Equal, Ghost(base), Ghost(d));
            proof {
                d = d + seq![TokenView::Equal];
            }
            write_expr(&**value, out, Ghost(base), Ghost(d));
            proof {
                d = d + shown((**value)@);
            }
        },
        Expr::Infix(lhs, infix, rhs) => {
            write_left(&**lhs, level_of(*infix), out, Ghost(base), Ghost(d));
            proof {
                d = d + left_operand((**lhs)@, infix_level(*infix));
            }
            let token = infix_token_of(*infix);
            put_token(out, &token, Ghost(base), Ghost(d));
            proof {
                d = d + seq![infix_token(*infix)];
            }
            write_operand(&**rhs, out, Ghost(base), Ghost(d));
            proof {
                d = d + operand((**rhs)@);
            }
        },
        Expr::Prefix(prefix, inner) => {
            let token = prefix_token_of(*prefix);
            put_token(out, &token, Ghost(base), Ghost(d));
            proof {
                d = d + seq![prefix_token(*prefix)];
            }
            write_operand(&**inner, out, Ghost(base), Ghost(d));
            proof {
                d = d + operand((**inner)@);
            }
        },
        _ => {},
    }
    proof {
        assert(d =~= done + unwrapped(e@));
    }
}

/// The level at which an infix operator binds.
fn level_of(infix: Infix) -> (r: u8)
    ensures
        r == infix_level(infix),
{
    let token = infix_token_of(infix);
    Parser::token_to_precedence(&token).rank()
}

/// Appends an expression as the left operand of an infix operator that
/// binds at `level`.
fn write_left(
    e: &Expr,
    level: u8,
    out: &mut Vec<char>,
    Ghost(base): Ghost<Seq<char>>,
    Ghost(done): Ghost<Seq<TokenView>>,
)
    requires
        old(out)@ == base + spelled(done, 0),
    ensures
        final(out)@ == base + spelled(done + left_operand(e@, level as int), 0),
    decreases e, 2nat,
{
    let ghost mut d = done;
    match e {
        Expr::Infix(lhs, infix, rhs) => {
            let own = level_of(*infix);
            if own >= level {
                write_left(&**lhs, own, out, Ghost(base), Ghost(d));
                proof {
                    d = d + left_operand((**lhs)@, own as int);
                }
                let token = infix_token_of(*infix);
                put_token(out, &token, Ghost(base), Ghost(d));
                proof {
                    d = d + seq![infix_token(*infix)];
                }
                write_operand(&**rhs, out, Ghost(base), Ghost(d));
                proof {
                    d = d + operand((**rhs)@);
                }
            } else {
                write_operand(e, out, Ghost(base), Ghost(d));
                proof {
                    d = d + operand(e@);
                }
            }
        },
        Expr::Prefix(prefix, inner) => {
            let token = prefix_token_of(*prefix);
            put_token(out, &token, Ghost(base), Ghost(d));
            proof {
                d = d + seq![prefix_token(*prefix)];
            }
            write_operand(&**inner, out, Ghost(base), Ghost(d));
            proof {
                d = d + operand((**inner)@);
            }
        },
        _ => {
            write_operand(e, out, Ghost(base), Ghost(d));
            proof {
                d = d + operand(e@);
            }
        },
    }
    proof {
        assert(d =~= done + left_operand(e@, level as int));
    }
}

/// Appends an expression as an operand.
fn write_operand(
    e: &Expr,
    out: &mut Vec<char>,
    Ghost(base): Ghost<Seq<char>>,
    Ghost(done): Ghost<Seq<TokenView>>,
)
    requires
        old(out)@ == base + spelled(done, 0),
    ensures
        final(out)@ == base + spelled(done + operand(e@), 0),
    decreases e, 1nat,
{
    proof {
        reveal_with_fuel(expr_view, 3);
    }
    let ghost mut d = done;
    match e {
        Expr::Identifier(name) => {
            put_name(out, &name.0, Ghost(base), Ghost(d));
            proof {
                d = d + seq![TokenView::Identifier(name.0@)];
            }
        },
        Expr::Literal(literal) => {
            match literal {
                Literal::Int(v) => {
                    put_token(out, &Token::Int(*v), Ghost(base), Ghost(d));
                    proof {
                        d = d + seq![TokenView::Int(*v)];
                    }
                },
                Literal::Float(s) => {
                    put_token(out, &Token::Float(s.clone()), Ghost(base), Ghost(d));
                    proof {
                        d = d + seq![TokenView::Float(s@)];
                    }
                },
                Literal::String(s) => {
                    put_token(out, &Token::String(s.clone()), Ghost(base), Ghost(d));
                    proof {
                        d = d + seq![TokenView::String(s@)];
                    }
                },
                Literal::Boolean(b) => {
                    if *b {
                        put_token(out, &Token::True, Ghost(base), Ghost(d));
                        proof {
                            d = d + seq![TokenView::True];
                        }
                    } else {
                        put_token(out, &Token::False, Ghost(base), Ghost(d));
                        proof {
                            d = d + seq![TokenView::False];
                        }
                    }
                },
                Literal::Null => {
                    put_token(out, &Token::Null, Ghost(base), Ghost(d));
                    proof {
                        d = d + seq![TokenView::Null];
                    }
                },
                Literal::Array(items) => {
                    write_list(
                        &Token::Lbracket,
                        items,
                        &Token::Rbracket,
                        out,
                        Ghost(base),
                        Ghost(d),
                    );
                    proof {
                        d = d + shown_list(
                            TokenView::Lbracket,
                            exprs_view(items@),
                            TokenView::Rbracket,
                        );
                    }
                },
            }
        },
        Expr::Call(func, args) => {
            write_callee(&**func, out, Ghost(base), Ghost(d));
            proof {
                d = d + callee((**func)@);
            }
            write_list(&Token::Lparen, args, &Token::Rparen, out, Ghost(base), Ghost(d));
            proof {
                d = d + shown_list(TokenView::Lparen, exprs_view(args@), TokenView::Rparen);
            }
        },
        Expr::Postfix(inner, postfix) => {
            write_operand(&**inner, out, Ghost(base), Ghost(d));
            proof {
                d = d + operand((**inner)@);
            }
            let token = postfix_token_of(*postfix);
            put_token(out, &token, Ghost(base), Ghost(d));
            proof {
                d = d + seq![postfix_token(*postfix)];
            }
        },
        Expr::FieldAcc(src, target) => {
            match &**target {
                Expr::Identifier(name) => {
                    write_operand(&**src, out, Ghost(base), Ghost(d));
                    proof {
                        d = d + operand((**src)@);
                    }
                    put_token(out, &Token::Dot, Ghost(base), Ghost(d));
                    proof {
                        d = d + seq![TokenView::Dot];
                    }
                    put_name(out, &name.0, Ghost(base), Ghost(d));
                    proof {
                        d = d + seq![TokenView::Identifier(name.0@)];
                    }
                },
                Expr::Call(method, args) => {
                    match &**method {
                        Expr::Identifier(name) => {
                            write_operand(&**src, out, Ghost(base), Ghost(d));
                            proof {
                                d = d + operand((**src)@);
                            }
                            put_token(out, &Token::Dot, Ghost(base), Ghost(d));
                            proof {
                                d = d + seq![TokenView::Dot];
                            }
                            put_name(out, &name.0, Ghost(base), Ghost(d));
                            proof {
                                d = d + seq![TokenView::Identifier(name.0@)];
                            }
                            write_list(
                                &Token::Lparen,
                                args,
                                &Token::Rparen,
                                out,
                                Ghost(base),
                                Ghost(d),
                            );
                            proof {
                                d = d + shown_list(
                                    TokenView::Lparen,
                                    exprs_view(args@),
                                    TokenView::Rparen,
                                );
                            }
                        },
                        _ => {},
                    }
                },
                _ => {},
            }
        },
        _ => {
            put_token(out, &Token::Lparen, Ghost(base), Ghost(d));
            proof {
                d = d + seq![TokenView::Lparen];
            }
            write_unwrapped(e, out, Ghost(base), Ghost(d));
            proof {
                d = d + unwrapped(e@);
            }
            put_token(out, &Token::Rparen, Ghost(base), Ghost(d));
            proof {
                d = d + seq![TokenView::Rparen];
            }
        },
    }
    proof {
        assert(d =~= done + operand(e@));
    }
}

/// Appends what a call calls.
fn write_callee(
    e: &Expr,
    out: &mut Vec<char>,
    Ghost(base): Ghost<Seq<char>>,
    Ghost(done): Ghost<Seq<TokenView>>,
)
    requires
        old(out)@ == base + spelled(done, 0),
    ensures
        final(out)@ == base + spelled(done + callee(e@), 0),
    decreases e, 2nat,
{
    let ghost mut d = done;
    if is_field_name(e) {
        put_token(out, &Token::Lparen, Ghost(base), Ghost(d));
        proof {
            d = d + seq![TokenView::Lparen];
        }
        write_operand(e, out, Ghost(base), Ghost(d));
        proof {
            d = d + operand(e@);
        }
        put_token(out, &Token::Rparen, Ghost(base), Ghost(d));
        proof {
            d = d + seq![TokenView::Rparen];
        }
    } else {
        write_operand(e, out, Ghost(base), Ghost(d));
        proof {
            d = d + operand(e@);
        }
    }
    proof {
        assert(d =~= done + callee(e@));
    }
}

/// Appends an expression as it is written.
fn write_expr(
    e: &Expr,
    out: &mut Vec<char>,
    Ghost(base): Ghost<Seq<char>>,
    Ghost(done): Ghost<Seq<TokenView>>,
)
    requires
        old(out)@ == base + spelled(done, 0),
    ensures
        final(out)@ == base + spelled(done + shown(e@), 0),
    decreases e, 2nat,
{
    match e {
        Expr::Assign(..) | Expr::Infix(..) | Expr::Prefix(..) => {
            write_unwrapped(e, out, Ghost(base), Ghost(done));
        },
        _ => {
            write_operand(e, out, Ghost(base), Ghost(done));
        },
    }
}

/// Appends a list of expressions between `open` and `stop`.
fn write_list(
    open: &Token,
    items: &Vec<Expr>,
    stop: &Token,
    out: &mut Vec<char>,
    Ghost(base): Ghost<Seq<char>>,
    Ghost(done): Ghost<Seq<TokenView>>,
)
    requires
        old(out)@ == base + spelled(done, 0),
    ensures
        final(out)@ == base + spelled(
            done + shown_list(open@, exprs_view(items@), stop@),
            0,
        ),
    decreases items, 0nat,
{
    let ghost mut d = done;
    let ghost views = exprs_view(items@);
    let ghost whole = done + shown_list(open@, views, stop@);
    put_token(out, open, Ghost(base), Ghost(d));
    proof {
        d = d + seq![open@];
    }
    if items.len() > 0 {
        write_expr(&items[0], out, Ghost(base), Ghost(d));
        proof {
            d = d + shown(views[0]);
            assert(d + shown_tail(views, 1, stop@) =~= whole);
        }
        let mut i: usize = 1;
        while i < items.len()
            invariant
                1 <= i <= items.len(),
                views == exprs_view(items@),
                out@ == base + spelled(d, 0),
                d + shown_tail(views, i as nat, stop@) =~= whole,
            decreases items.len() - i,
        {
            put_token(out, &Token::Comma, Ghost(base), Ghost(d));
            proof {
                d = d + seq![TokenView::Comma];
            }
            write_expr(&items[i], out, Ghost(base), Ghost(d));
            proof {
                d = d + shown(views[i as int]);
            }
            i = i + 1;
        }
    }
    put_token(out, stop, Ghost(base), Ghost(d));
    proof {
        d = d + seq![stop@];
        assert(d =~= whole);
    }
}


/// Appends a type.
fn write_type(
    t: &ExprType,
    out: &mut Vec<char>,
    Ghost(base): Ghost<Seq<char>>,
    Ghost(done): Ghost<Seq<TokenView>>,
)
    requires
        old(out)@ == base + spelled(done, 0),
    ensures
        final(out)@ == base + spelled(done + shown_type(*t), 0),
    decreases t,
{
    let ghost mut d = done;
    match t {
        ExprType::Int => {
            put_token(out, &Token::TypeInt, Ghost(base), Ghost(d));
            proof {
                d = d + seq![TokenView::TypeInt];
            }
        },
        ExprType::Float => {
            put_token(out, &Token::TypeFloat, Ghost(base), Ghost(d));
            proof {
                d = d + seq![TokenView::TypeFloat];
            }
        },
        ExprType::String => {
            put_token(out, &Token::TypeString, Ghost(base), Ghost(d));
            proof {
                d = d + seq![TokenView::TypeString];
            }
        },
        ExprType::Boolean => {
            put_token(out, &Token::TypeBoolean, Ghost(base), Ghost(d));
            proof {
                d = d + seq![TokenView::TypeBoolean];
            }
        },
        ExprType::Void => {
            put_token(out, &Token::TypeVoid, Ghost(base), Ghost(d));
            proof {
                d = d + seq![TokenView::TypeVoid];
            }
        },
        ExprType::Array(inner) => {
            put_token(out, &Token::ClassArray, Ghost(base), Ghost(d));
            proof {
                d = d + seq![TokenView::ClassArray];
            }
            put_token(out, &Token::LessThan, Ghost(base), Ghost(d));
            proof {
                d = d + seq![TokenView::LessThan];
            }
            write_type(&**inner, out, Ghost(base), Ghost(d));
            proof {
                d = d + shown_type(**inner);
            }
            put_token(out, &Token::GratherThan, Ghost(base), Ghost(d));
            proof {
                d = d + seq![TokenView::GratherThan];
            }
        },
    }
    proof {
        assert(d =~= done + shown_type(*t));
    }
}

/// Appends the parameters of a function definition, between parentheses.
fn write_params(
    params: &Vec<(Identifier, ExprType)>,
    out: &mut Vec<char>,
    Ghost(base): Ghost<Seq<char>>,
    Ghost(done): Ghost<Seq<TokenView>>,
)
    requires
        old(out)@ == base + spelled(done, 0),
    ensures
        final(out)@ == base + spelled(done + shown_params(params_syntax(params@)), 0),
{
    let ghost mut d = done;
    let ghost views = params_syntax(params@);
    let ghost whole = done + shown_params(views);
    put_token(out, &Token::Lparen, Ghost(base), Ghost(d));
    proof {
        d = d + seq![TokenView::Lparen];
    }
    let mut i: usize = 0;
    while i < params.len()
        invariant
            i <= params.len(),
            views == params_syntax(params@),
            out@ == base + spelled(d, 0),
            d + shown_params_from(views, i as nat) =~= whole,
        decreases params.len() - i,
    {
        let ghost before = d;
        put_name(out, &params[i].0.0, Ghost(base), Ghost(d));
        proof {
            d = d + seq![TokenView::Identifier(views[i as int].name)];
        }
        put_token(out, &Token::Colon, Ghost(base), Ghost(d));
        proof {
            d = d + seq![TokenView::Colon];
        }
        write_type(&params[i].1, out, Ghost(base), Ghost(d));
        proof {
            d = d + shown_type(views[i as int].type_);
            assert(d =~= before + shown_param(views[i as int]));
        }
        if i + 1 < params.len() {
            put_token(out, &Token::Comma, Ghost(base), Ghost(d));
            proof {
                d = d + seq![TokenView::Comma];
            }
        }
        i = i + 1;
    }
    put_token(out, &Token::Rparen, Ghost(base), Ghost(d));
    proof {
        d = d + seq![TokenView::Rparen];
    }
    proof {
        assert(d =~= whole);
    }
}

/// Appends a statement.
fn write_stmt(
    s: &Stmt,
    out: &mut Vec<char>,
    Ghost(base): Ghost<Seq<char>>,
    Ghost(done): Ghost<Seq<TokenView>>,
)
    requires
        old(out)@ == base + spelled(done, 0),
    ensures
        final(out)@ == base + spelled(done + shown_stmt(s@), 0),
    decreases s, 0nat,
{
    let ghost mut d = done;
    match s {
        Stmt::Expr(e) => {
            write_expr(e, out, Ghost(base), Ghost(d));
            proof {
                d = d + shown(e@);
            }
        },
        Stmt::Let(name, type_, init) => {
            match (type_, init) {
                (Some(t), Some(e)) => {
                    put_token(out, &Token::Let, Ghost(base), Ghost(d));
                    proof {
                        d = d + seq![TokenView::Let];
                    }
                    put_name(out, &name.0, Ghost(base), Ghost(d));
                    proof {
                        d = d + seq![TokenView::Identifier(name.0@)];
                    }
                    put_token(out, &Token::Colon, Ghost(base), Ghost(d));
                    proof {
                        d = d + seq![TokenView::Colon];
                    }
                    write_type(t, out, Ghost(base), Ghost(d));
                    proof {
                        d = d + shown_type(*t);
                    }
                    put_token(out, &Token::Equal, Ghost(base), Ghost(d));
                    proof {
                        d = d + seq![TokenView::Equal];
                    }
                    write_expr(e, out, Ghost(base), Ghost(d));
                    proof {
                        d = d + shown(e@);
                    }
                },
                (Some(t), None) => {
                    put_token(out, &Token::Let, Ghost(base), Ghost(d));
                    proof {
                        d = d + seq![TokenView::Let];
                    }
                    put_name(out, &name.0, Ghost(base), Ghost(d));
                    proof {
                        d = d + seq![TokenView::Identifier(name.0@)];
                    }
                    put_token(out, &Token::Colon, Ghost(base), Ghost(d));
                    proof {
                        d = d + seq![TokenView::Colon];
                    }
                    write_type(t, out, Ghost(base), Ghost(d));
                    proof {
                        d = d + shown_type(*t);
                    }
                },
                (None, Some(e)) => {
                    put_token(out, &Token::Let, Ghost(base), Ghost(d));
                    proof {
                        d = d + seq![TokenView::Let];
                    }
                    put_name(out, &name.0, Ghost(base), Ghost(d));
                    proof {
                        d = d + seq![TokenView::Identifier(name.0@)];
                    }
                    put_token(out, &Token::Equal, Ghost(base), Ghost(d));
                    proof {
                        d = d + seq![TokenView::Equal];
                    }
                    write_expr(e, out, Ghost(base), Ghost(d));
                    proof {
                        d = d + shown(e@);
                    }
                },
                (None, None) => {},
            }
        },
        Stmt::Return(value) => {
            put_token(out, &Token::Return, Ghost(base), Ghost(d));
            proof {
                d = d + seq![TokenView::Return];
            }
            match value {
                Some(e) => {
                    write_expr(e, out, Ghost(base), Ghost(d));
                    proof {
                        d = d + shown(e@);
                    }
                },
                None => {},
            }
        },
        Stmt::If { condition, consequence, alternative } => {
            put_token(out, &Token::If, Ghost(base), Ghost(d));
            proof {
                d = d + seq![TokenView::If];
            }
            write_expr(condition, out, Ghost(base), Ghost(d));
            proof {
                d = d + shown(condition@);
            }
            write_block(consequence, out, Ghost(base), Ghost(d));
            proof {
                d = d + shown_block(stmts_view(consequence@));
            }
            match alternative {
                Some(block) => {
                    put_token(out, &Token::Else, Ghost(base), Ghost(d));
                    proof {
                        d = d + seq![TokenView::Else];
                    }
                    write_block(block, out, Ghost(base), Ghost(d));
                    proof {
                        d = d + shown_block(stmts_view(block@));
                    }
                },
                None => {},
            }
        },
        Stmt::ForLoop { cursor, iterable, block } => {
            put_token(out, &Token::For, Ghost(base), Ghost(d));
            proof {
                d = d + seq![TokenView::For];
            }
            put_name(out, cursor, Ghost(base), Ghost(d));
            proof {
                d = d + seq![TokenView::Identifier(cursor@)];
            }
            put_token(out, &Token::In, Ghost(base), Ghost(d));
            proof {
                d = d + seq![TokenView::In];
            }
            write_expr(iterable, out, Ghost(base), Ghost(d));
            proof {
                d = d + shown(iterable@);
            }
            write_block(block, out, Ghost(base), Ghost(d));
            proof {
                d = d + shown_block(stmts_view(block@));
            }
        },
        Stmt::Func(name, params, body, ret) => {
            put_token(out, &Token::Func, Ghost(base), Ghost(d));
            proof {
                d = d + seq![TokenView::Func];
            }
            put_name(out, &name.0, Ghost(base), Ghost(d));
            proof {
                d = d + seq![TokenView::Identifier(name.0@)];
            }
            write_params(params, out, Ghost(base), Ghost(d));
            proof {
                d = d + shown_params(params_syntax(params@));
            }
            put_token(out, &Token::Colon, Ghost(base), Ghost(d));
            proof {
                d = d + seq![TokenView::Colon];
            }
            write_type(ret, out, Ghost(base), Ghost(d));
            proof {
                d = d + shown_type(*ret);
            }
            write_block(&**body, out, Ghost(base), Ghost(d));
            proof {
                d = d + shown_block(stmts_view((**body)@));
            }
        },
    }
    proof {
        assert(d =~= done + shown_stmt(s@));
    }
}

/// Appends statements, one after the other.
fn write_stmts(
    stmts: &Vec<Stmt>,
    out: &mut Vec<char>,
    Ghost(base): Ghost<Seq<char>>,
    Ghost(done): Ghost<Seq<TokenView>>,
)
    requires
        old(out)@ == base + spelled(done, 0),
    ensures
        final(out)@ == base + spelled(done + shown_stmts(stmts_view(stmts@), 0), 0),
    decreases stmts, 0nat,
{
    let ghost mut d = done;
    let ghost views = stmts_view(stmts@);
    let ghost whole = done + shown_stmts(views, 0);
    let mut i: usize = 0;
    while i < stmts.len()
        invariant
            i <= stmts.len(),
            views == stmts_view(stmts@),
            out@ == base + spelled(d, 0),
            d + shown_stmts(views, i as nat) =~= whole,
        decreases stmts.len() - i,
    {
        write_stmt(&stmts[i], out, Ghost(base), Ghost(d));
        proof {
            d = d + shown_stmt(views[i as int]);
        }
        i = i + 1;
    }
    proof {
        assert(d =~= whole);
    }
}

/// Appends a block: its statements between braces.
fn write_block(
    stmts: &Vec<Stmt>,
    out: &mut Vec<char>,
    Ghost(base): Ghost<Seq<char>>,
    Ghost(done): Ghost<Seq<TokenView>>,
)
    requires
        old(out)@ == base + spelled(done, 0),
    ensures
        final(out)@ == base + spelled(done + shown_block(stmts_view(stmts@)), 0),
    decreases stmts, 1nat,
{
    let ghost mut d = done;
    put_token(out, &Token::Lbrace, Ghost(base), Ghost(d));
    proof {
        d = d + seq![TokenView::Lbrace];
    }
    write_stmts(stmts, out, Ghost(base), Ghost(d));
    proof {
        d = d + shown_stmts(stmts_view(stmts@), 0);
    }
    put_token(out, &Token::Rbrace, Ghost(base), Ghost(d));
    proof {
        d = d + seq![TokenView::Rbrace];
    }
    proof {
        assert(d =~= done + shown_block(stmts_view(stmts@)));
    }
}

/// Writes a program as a text: each token after a space, and parentheses
/// round an operand that is an assignment or has an operator of its own,
/// but for a left operand that the grammar reads first anyway. The text of
/// a program that the grammar can yield, whose names and literals some
/// text gives, spells the program itself.
pub fn write_program(program: &Program) -> (r: Vec<char>)
    ensures
        r@ == program_text(stmts_view(program@)),
        writable_stmts(stmts_view(program@), 0, TokenView::Eof) && all_spellable(
            shown_stmts(stmts_view(program@), 0),
        ) ==> parse_source(r@) == Some(stmts_view(program@)),
{
    let mut out: Vec<char> = Vec::new();
    let ghost none = Seq::<TokenView>::empty();
    proof {
        assert(out@ =~= Seq::<char>::empty() + spelled(none, 0));
    }
    write_stmts(program, &mut out, Ghost(Seq::empty()), Ghost(none));
    proof {
        let views = stmts_view(program@);
        assert(none + shown_stmts(views, 0) =~= shown_stmts(views, 0));
        assert(out@ =~= program_text(views));
        if writable_stmts(views, 0, TokenView::Eof) && all_spellable(shown_stmts(views, 0)) {
            law_written_text_parses(views);
        }
    }
    out
}

} // verus!
