//! How tokens are spelled in a source, and that the lexer reads the
//! spelling back.
//!
//! A list of tokens is spelled with a space before each token. The lexer
//! reads the tokens back, one by one, and a program that is written and
//! spelled so parses to itself.

use crate::ast::StmtView;
use crate::grammar::{clean, parse_source, tok, token_stream};
use crate::lexer::{
    char_at, count_dots, in_class, is_letter, is_space, keyword, lemma_run_end_bounds,
    lemma_run_end_step, lex, number_token, punctuation, run_end, word_token, CharClass, Lexed,
    NULL_CHAR,
};
use crate::notation::{law_written_program_reads_back, shown_stmts, stands, writable_stmts};
use crate::text::{decimal, digits, digits_value, is_digit};
use crate::token::TokenView;
use vstd::prelude::*;

verus! {

/// The text of a token as a source writes it. A token that no text gives,
/// the end of the input or an illegal character, has none.
pub open spec fn spelling(token: TokenView) -> Seq<char> {
    match token {
        TokenView::Illegal(_) => Seq::empty(),
        TokenView::Eof => Seq::empty(),
        TokenView::Lbracket => seq!['['],
        TokenView::Rbracket => seq![']'],
        TokenView::Lparen => seq!['('],
        TokenView::Rparen => seq![')'],
        TokenView::Lbrace => seq!['{'],
        TokenView::Rbrace => seq!['}'],
        TokenView::Comma => seq![','],
        TokenView::Colon => seq![':'],
        TokenView::Dot => seq!['.'],
        TokenView::Plus => seq!['+'],
        TokenView::Minus => seq!['-'],
        TokenView::Asterisk => seq!['*'],
        TokenView::Slash => seq!['/'],
        TokenView::Equal => seq!['='],
        TokenView::Percet => seq!['%'],
        TokenView::DoubleEqual => seq!['=', '='],
        TokenView::GratherThan => seq!['>'],
        TokenView::GratherOrEqual => seq!['>', '='],
        TokenView::LessThan => seq!['<'],
        TokenView::LessOrEqual => seq!['<', '='],
        TokenView::Bang => seq!['!'],
        TokenView::NotEqual => seq!['!', '='],
        TokenView::DoublePlus => seq!['+', '+'],
        TokenView::DoubleMinus => seq!['-', '-'],
        TokenView::Int(v) => decimal(v as int),
        TokenView::Float(s) => s,
        TokenView::String(s) => seq!['"'] + s + seq!['"'],
        TokenView::True => "true"@,
        TokenView::False => "false"@,
        TokenView::Let => "let"@,
        TokenView::If => "if"@,
        TokenView::For => "for"@,
        TokenView::In => "in"@,
        TokenView::Else => "else"@,
        TokenView::Func => "define"@,
        TokenView::Null => "null"@,
        TokenView::Import => "import"@,
        TokenView::Return => "return"@,
        TokenView::ClassArray => "Array"@,
        TokenView::Identifier(s) => s,
        TokenView::TypeInt => "int"@,
        TokenView::TypeFloat => "float"@,
        TokenView::TypeString => "string"@,
        TokenView::TypeBoolean => "boolean"@,
        TokenView::TypeVoid => "void"@,
    }
}

/// Whether a token is one that some text gives: a name starts with a
/// letter, holds letters and digits and is no reserved word; an integer is
/// not negative; a float starts with a digit and holds digits and one dot;
/// a string holds no double quote.
pub open spec fn spellable(token: TokenView) -> bool {
    match token {
        TokenView::Illegal(_) => false,
        TokenView::Eof => false,
        TokenView::Identifier(s) => s.len() > 0 && is_letter(s[0]) && keyword(s) is None && forall|
            k: int,
        |
            0 <= k < s.len() ==> in_class(CharClass::Word, #[trigger] s[k]),
        TokenView::Int(v) => v >= 0,
        TokenView::Float(s) => s.len() > 0 && is_digit(s[0]) && count_dots(s) == 1 && forall|
            k: int,
        |
            0 <= k < s.len() ==> in_class(CharClass::Number, #[trigger] s[k]),
        TokenView::String(s) => forall|k: int| 0 <= k < s.len() ==> #[trigger] s[k] != '"',
        _ => true,
    }
}

/// Whether every token of a list is one that some text gives.
pub open spec fn all_spellable(tokens: Seq<TokenView>) -> bool {
    forall|k: int| 0 <= k < tokens.len() ==> spellable(#[trigger] tokens[k])
}

/// The text of the tokens from the token `n` on, a space before each.
pub open spec fn spelled(tokens: Seq<TokenView>, n: nat) -> Seq<char>
    decreases tokens.len() - n,
{
    if n >= tokens.len() {
        Seq::empty()
    } else {
        seq![' '] + spelling(tokens[n as int]) + spelled(tokens, n + 1)
    }
}

/// The decimal digits of a number are digits, and there is at least one.
pub proof fn lemma_digits_are_digits(n: nat)
    ensures
        digits(n).len() >= 1,
        forall|k: int| 0 <= k < digits(n).len() ==> is_digit(#[trigger] digits(n)[k]),
    decreases n,
{
    if n >= 10 {
        lemma_digits_are_digits(n / 10);
    }
}

/// The decimal digits of a number denote the number.
pub proof fn lemma_digits_denote(n: nat)
    ensures
        digits_value(digits(n)) == n,
    decreases n,
{
    if n < 10 {
        assert(digits(n).drop_last() =~= Seq::<char>::empty());
        assert(digits_value(digits(n).drop_last()) == 0);
    } else {
        lemma_digits_denote(n / 10);
        assert(digits(n).drop_last() =~= digits(n / 10));
    }
}

/// A text of digits holds no dot.
pub proof fn lemma_digits_hold_no_dot(text: Seq<char>)
    requires
        forall|k: int| 0 <= k < text.len() ==> is_digit(#[trigger] text[k]),
    ensures
        count_dots(text) == 0,
    decreases text.len(),
{
    if text.len() > 0 {
        assert forall|k: int| 0 <= k < text.drop_last().len() implies is_digit(
            #[trigger] text.drop_last()[k],
        ) by {
            assert(text.drop_last()[k] == text[k]);
        }
        lemma_digits_hold_no_dot(text.drop_last());
        assert(is_digit(text[text.len() - 1]));
    }
}

/// Whether `text` stands in `input` after a space at `pos`, before another
/// space or the end of the input.
pub open spec fn fits(input: Seq<char>, pos: int, text: Seq<char>) -> bool {
    0 <= pos && pos + 1 + text.len() <= input.len() && input[pos] == ' ' && input.subrange(
        pos + 1,
        pos + 1 + text.len(),
    ) == text && (pos + 1 + text.len() == input.len() || input[pos + 1 + text.len()] == ' ')
}

/// Each character of a text that fits is the character of the source at its place.
proof fn lemma_fits_char(input: Seq<char>, pos: int, text: Seq<char>, k: int)
    requires
        fits(input, pos, text),
        0 <= k < text.len(),
    ensures
        input[pos + 1 + k] == text[k],
        char_at(input, pos + 1 + k) == text[k],
{
    assert(input.subrange(pos + 1, pos + 1 + text.len())[k] == input[pos + 1 + k]);
}

/// What comes after a text that fits is a space or, past the end of the
/// input, the null character.
proof fn lemma_fits_end(input: Seq<char>, pos: int, text: Seq<char>)
    requires
        fits(input, pos, text),
    ensures
        char_at(input, pos + 1 + text.len()) == ' ' || char_at(input, pos + 1 + text.len())
            == NULL_CHAR,
{
}

/// The space before a text is skipped, and no more.
proof fn lemma_space_run(input: Seq<char>, pos: int)
    requires
        0 <= pos,
        pos + 1 < input.len(),
        input[pos] == ' ',
        !is_space(input[pos + 1]),
    ensures
        run_end(input, pos, CharClass::Space) == pos + 1,
{
    assert(is_space(' '));
    lemma_run_end_step(input, pos, pos + 1, CharClass::Space);
}

/// A run of characters of a class that ends before a space or at the end
/// of the input ends there.
proof fn lemma_run_to(input: Seq<char>, from: int, to: int, class: CharClass)
    requires
        0 <= from <= to <= input.len(),
        forall|k: int|
            from <= k < to ==> in_class(class, #[trigger] input[k]),
        to == input.len() || !in_class(class, input[to]),
    ensures
        run_end(input, from, class) == to,
{
    lemma_run_end_step(input, from, to, class);
}

/// Whether a token is a punctuation mark or an operator.
pub open spec fn is_mark(token: TokenView) -> bool {
    token is Lbracket || token is Rbracket || token is Lparen || token is Rparen || token is Lbrace
        || token is Rbrace || token is Comma || token is Colon || token is Dot || token is Plus
        || token is Minus || token is Asterisk || token is Slash || token is Equal
        || token is Percet || token is DoubleEqual || token is GratherThan
        || token is GratherOrEqual || token is LessThan || token is LessOrEqual || token is Bang
        || token is NotEqual || token is DoublePlus || token is DoubleMinus
}

/// Whether a token is a reserved word.
pub open spec fn is_reserved(token: TokenView) -> bool {
    token is True || token is False || token is Let || token is If || token is For || token is In
        || token is Else || token is Func || token is Null || token is Import || token is Return
        || token is ClassArray || token is TypeInt || token is TypeFloat || token is TypeString
        || token is TypeBoolean || token is TypeVoid
}

/// The lexer reads a mark that is spelled.
proof fn lemma_lex_mark(input: Seq<char>, pos: int, token: TokenView)
    requires
        is_mark(token),
        fits(input, pos, spelling(token)),
    ensures
        lex(input, pos) == (Lexed { token: Some(token), next: pos + 1 + spelling(token).len() }),
{
    let text = spelling(token);
    lemma_fits_char(input, pos, text, 0);
    lemma_fits_end(input, pos, text);
    if text.len() == 2 {
        lemma_fits_char(input, pos, text, 1);
    }
    lemma_space_run(input, pos);
}

/// A reserved word is spelled with letters, and is the word of its token.
proof fn lemma_reserved_words(token: TokenView)
    requires
        is_reserved(token),
    ensures
        spelling(token).len() > 0,
        forall|k: int| 0 <= k < spelling(token).len() ==> is_letter(#[trigger] spelling(token)[k]),
        keyword(spelling(token)) == Some(token),
{
    reveal_strlit("let");
    reveal_strlit("define");
    reveal_strlit("return");
    reveal_strlit("true");
    reveal_strlit("false");
    reveal_strlit("null");
    reveal_strlit("string");
    reveal_strlit("int");
    reveal_strlit("float");
    reveal_strlit("boolean");
    reveal_strlit("if");
    reveal_strlit("else");
    reveal_strlit("for");
    reveal_strlit("in");
    reveal_strlit("void");
    reveal_strlit("Array");
    reveal_strlit("import");
    assert("let"@.len() == 3 && "let"@[0] == 'l' && "let"@[1] == 'e');
    assert("define"@.len() == 6 && "define"@[0] == 'd' && "define"@[1] == 'e');
    assert("return"@.len() == 6 && "return"@[0] == 'r' && "return"@[1] == 'e');
    assert("true"@.len() == 4 && "true"@[0] == 't' && "true"@[1] == 'r');
    assert("false"@.len() == 5 && "false"@[0] == 'f' && "false"@[1] == 'a');
    assert("null"@.len() == 4 && "null"@[0] == 'n' && "null"@[1] == 'u');
    assert("string"@.len() == 6 && "string"@[0] == 's' && "string"@[1] == 't');
    assert("int"@.len() == 3 && "int"@[0] == 'i' && "int"@[1] == 'n');
    assert("float"@.len() == 5 && "float"@[0] == 'f' && "float"@[1] == 'l');
    assert("boolean"@.len() == 7 && "boolean"@[0] == 'b' && "boolean"@[1] == 'o');
    assert("if"@.len() == 2 && "if"@[0] == 'i' && "if"@[1] == 'f');
    assert("else"@.len() == 4 && "else"@[0] == 'e' && "else"@[1] == 'l');
    assert("for"@.len() == 3 && "for"@[0] == 'f' && "for"@[1] == 'o');
    assert("in"@.len() == 2 && "in"@[0] == 'i' && "in"@[1] == 'n');
    assert("void"@.len() == 4 && "void"@[0] == 'v' && "void"@[1] == 'o');
    assert("Array"@.len() == 5 && "Array"@[0] == 'A' && "Array"@[1] == 'r');
    assert("import"@.len() == 6 && "import"@[0] == 'i' && "import"@[1] == 'm');
    assert forall|k: int| 0 <= k < spelling(token).len() implies is_letter(
        #[trigger] spelling(token)[k],
    ) by {}
}

/// The lexer reads a word that is spelled.
proof fn lemma_lex_word(input: Seq<char>, pos: int, word: Seq<char>)
    requires
        word.len() > 0,
        is_letter(word[0]),
        forall|k: int| 0 <= k < word.len() ==> in_class(CharClass::Word, #[trigger] word[k]),
        fits(input, pos, word),
    ensures
        lex(input, pos) == (Lexed {
            token: Some(word_token(word)),
            next: pos + 1 + word.len(),
        }),
{
    let p = pos + 1;
    let q = p + word.len();
    lemma_fits_char(input, pos, word, 0);
    lemma_space_run(input, pos);
    assert forall|k: int| p <= k < q implies in_class(CharClass::Word, #[trigger] input[k]) by {
        lemma_fits_char(input, pos, word, k - p);
        assert(in_class(CharClass::Word, word[k - p]));
    }
    lemma_run_to(input, p, q, CharClass::Word);
}

/// The lexer reads a number that is spelled.
proof fn lemma_lex_number(input: Seq<char>, pos: int, text: Seq<char>)
    requires
        text.len() > 0,
        is_digit(text[0]),
        forall|k: int| 0 <= k < text.len() ==> in_class(CharClass::Number, #[trigger] text[k]),
        fits(input, pos, text),
    ensures
        lex(input, pos) == (Lexed { token: number_token(text), next: pos + 1 + text.len() }),
{
    let p = pos + 1;
    let q = p + text.len();
    lemma_fits_char(input, pos, text, 0);
    lemma_space_run(input, pos);
    assert forall|k: int| p <= k < q implies in_class(CharClass::Number, #[trigger] input[k]) by {
        lemma_fits_char(input, pos, text, k - p);
        assert(in_class(CharClass::Number, text[k - p]));
    }
    lemma_run_to(input, p, q, CharClass::Number);
}

/// The lexer reads a string literal that is spelled.
proof fn lemma_lex_string(input: Seq<char>, pos: int, s: Seq<char>)
    requires
        forall|k: int| 0 <= k < s.len() ==> #[trigger] s[k] != '"',
        fits(input, pos, seq!['"'] + s + seq!['"']),
    ensures
        lex(input, pos) == (Lexed {
            token: Some(TokenView::String(s)),
            next: pos + 1 + (s.len() + 2),
        }),
{
    let text = seq!['"'] + s + seq!['"'];
    let p = pos + 1;
    let q = p + 1 + s.len();
    lemma_fits_char(input, pos, text, 0);
    lemma_fits_char(input, pos, text, s.len() as int + 1);
    lemma_space_run(input, pos);
    assert forall|k: int| p + 1 <= k < q implies in_class(CharClass::NotQuote, #[trigger] input[k]) by {
        lemma_fits_char(input, pos, text, k - p);
        assert(text[k - p] == s[k - p - 1]);
    }
    lemma_run_to(input, p + 1, q, CharClass::NotQuote);
    assert(input.subrange(p + 1, q) =~= s) by {
        assert forall|k: int| 0 <= k < s.len() implies input[p + 1 + k] == s[k] by {
            lemma_fits_char(input, pos, text, k + 1);
        }
    }
}

/// The lexer reads a token that is spelled: after the space before it,
/// the token itself, up to the end of its text.
pub proof fn lemma_lex_spelled(input: Seq<char>, pos: int, token: TokenView)
    requires
        spellable(token),
        fits(input, pos, spelling(token)),
    ensures
        spelling(token).len() >= 1,
        lex(input, pos) == (Lexed { token: Some(token), next: pos + 1 + spelling(token).len() }),
{
    match token {
        TokenView::Identifier(s) => {
            lemma_lex_word(input, pos, s);
        },
        TokenView::Int(v) => {
            lemma_digits_are_digits(v as nat);
            lemma_digits_denote(v as nat);
            lemma_digits_hold_no_dot(digits(v as nat));
            lemma_lex_number(input, pos, digits(v as nat));
        },
        TokenView::Float(s) => {
            lemma_lex_number(input, pos, s);
        },
        TokenView::String(s) => {
            lemma_lex_string(input, pos, s);
        },
        _ => {
            if is_mark(token) {
                lemma_lex_mark(input, pos, token);
            } else {
                lemma_reserved_words(token);
                lemma_lex_word(input, pos, spelling(token));
            }
        },
    }
}

/// The tokens from the token `n` on, each as read, and the end of the
/// input after them.
pub open spec fn read_back(tokens: Seq<TokenView>, n: nat) -> Seq<Option<TokenView>> {
    Seq::new(
        (tokens.len() - n + 1) as nat,
        |k: int|
            if 0 <= k < tokens.len() - n {
                Some(tokens[n + k])
            } else {
                Some(TokenView::Eof)
            },
    )
}

/// The tokens of a text that spells tokens from the position `pos` on are
/// those tokens.
proof fn lemma_stream_spelled(input: Seq<char>, pos: int, tokens: Seq<TokenView>, n: nat)
    requires
        all_spellable(tokens),
        n <= tokens.len(),
        0 <= pos <= input.len(),
        input.subrange(pos, input.len() as int) == spelled(tokens, n),
    ensures
        token_stream(input, pos) == read_back(tokens, n),
    decreases tokens.len() - n,
{
    let tail = input.subrange(pos, input.len() as int);
    if n >= tokens.len() {
        assert(tail.len() == 0);
        assert(token_stream(input, pos) =~= read_back(tokens, n));
    } else {
        let token = tokens[n as int];
        let text = spelling(token);
        let rest = spelled(tokens, n + 1);
        let next = pos + 1 + text.len();
        assert(spellable(token));
        assert(tail == seq![' '] + text + rest);
        assert(tail.len() == 1 + text.len() + rest.len());
        assert(input[pos] == ' ') by {
            assert(tail[0] == input[pos]);
            assert(tail[0] == ' ');
        }
        assert(input.subrange(pos + 1, next) =~= text) by {
            assert forall|k: int| 0 <= k < text.len() implies input[pos + 1 + k] == text[k] by {
                assert(tail[1 + k] == input[pos + 1 + k]);
                assert(tail[1 + k] == text[k]);
            }
        }
        assert(input.subrange(next, input.len() as int) =~= rest) by {
            assert forall|k: int| 0 <= k < rest.len() implies input[next + k] == rest[k] by {
                assert(tail[1 + text.len() + k] == input[next + k]);
                assert(tail[1 + text.len() + k] == rest[k]);
            }
        }
        if n + 1 < tokens.len() {
            assert(rest == seq![' '] + spelling(tokens[n as int + 1]) + spelled(tokens, n + 2));
            assert(rest[0] == ' ');
            assert(input.subrange(next, input.len() as int)[0] == input[next]);
        } else {
            assert(rest.len() == 0);
        }
        assert(fits(input, pos, text));
        lemma_lex_spelled(input, pos, token);
        lemma_stream_spelled(input, next, tokens, n + 1);
        assert(token_stream(input, pos) == seq![Some(token)] + token_stream(input, next));
        assert(token_stream(input, pos) =~= read_back(tokens, n));
    }
}

/// Tokens that are spelled are read back: the tokens of the text are the
/// tokens themselves, and the end of the input after them.
pub proof fn law_spelled_tokens_read_back(tokens: Seq<TokenView>)
    requires
        all_spellable(tokens),
    ensures
        token_stream(spelled(tokens, 0), 0) == read_back(tokens, 0),
{
    let input = spelled(tokens, 0);
    assert(input.subrange(0, input.len() as int) =~= input);
    lemma_stream_spelled(input, 0, tokens, 0);
}

/// The text of a program: its statements as they are written, and the tokens
/// spelled.
pub open spec fn program_text(program: Seq<StmtView>) -> Seq<char> {
    spelled(shown_stmts(program, 0), 0)
}

/// A program that is written parses back: the text of a program that the
/// grammar can yield, whose names and literals some text gives, spells the
/// program itself.
pub proof fn law_written_text_parses(program: Seq<StmtView>)
    requires
        writable_stmts(program, 0, TokenView::Eof),
        all_spellable(shown_stmts(program, 0)),
    ensures
        parse_source(program_text(program)) == Some(program),
{
    let tokens = shown_stmts(program, 0);
    let ts = token_stream(program_text(program), 0);
    law_spelled_tokens_read_back(tokens);
    assert(clean(ts)) by {
        assert forall|j: nat| (#[trigger] tok(ts, j)) is Some by {
            if j < ts.len() {
                assert(ts[j as int] == read_back(tokens, 0)[j as int]);
            }
        }
    }
    assert(stands(ts, 0, tokens + seq![TokenView::Eof])) by {
        let all = tokens + seq![TokenView::Eof];
        assert forall|j: int| 0 <= j < all.len() implies tok(ts, (0 + j) as nat) == Some(
            #[trigger] all[j],
        ) by {
            assert(ts[j] == read_back(tokens, 0)[j]);
        }
    }
    law_written_program_reads_back(ts, program);
}

/// The text of tokens that stand after others is the text of those
/// tokens alone.
proof fn lemma_spelled_shift(a: Seq<TokenView>, b: Seq<TokenView>, m: nat)
    ensures
        spelled(a + b, a.len() + m) == spelled(b, m),
    decreases b.len() - m,
{
    if m < b.len() {
        lemma_spelled_shift(a, b, m + 1);
        assert((a + b)[a.len() as int + m as int] == b[m as int]);
    }
}

/// The text of two lists of tokens from the token `n` of the first on.
proof fn lemma_spelled_concat(a: Seq<TokenView>, b: Seq<TokenView>, n: nat)
    requires
        n <= a.len(),
    ensures
        spelled(a + b, n) =~= spelled(a, n) + spelled(b, 0),
    decreases a.len() - n,
{
    if n < a.len() {
        lemma_spelled_concat(a, b, n + 1);
        assert((a + b)[n as int] == a[n as int]);
    } else {
        lemma_spelled_shift(a, b, 0);
    }
}

/// The text of two lists of tokens, one after the other, is the text of
/// the first followed by the text of the second.
pub proof fn lemma_text_concat(a: Seq<TokenView>, b: Seq<TokenView>)
    ensures
        spelled(a + b, 0) == spelled(a, 0) + spelled(b, 0),
{
    lemma_spelled_concat(a, b, 0);
}

/// The text of one token is a space and its spelling.
pub proof fn lemma_text_one(token: TokenView)
    ensures
        spelled(seq![token], 0) == seq![' '] + spelling(token),
{
    reveal_with_fuel(spelled, 2);
    assert(spelled(seq![token], 1) =~= Seq::<char>::empty());
    assert(spelled(seq![token], 0) =~= seq![' '] + spelling(token));
}


/// What the lexer reads is a token that some text gives, but for the end
/// of the input and an illegal character.
pub proof fn law_lexed_token_is_spellable(input: Seq<char>, pos: int)
    requires
        0 <= pos <= input.len(),
    ensures
        match lex(input, pos).token {
            Some(token) => spellable(token) || token is Eof || token is Illegal,
            None => true,
        },
{
    lemma_run_end_bounds(input, pos, CharClass::Space);
    let p = run_end(input, pos, CharClass::Space);
    let c = char_at(input, p);
    if p >= input.len() {
    } else if punctuation(c, char_at(input, p + 1)) is Some {
    } else if c == '"' {
        lemma_run_end_bounds(input, p + 1, CharClass::NotQuote);
        let q = run_end(input, p + 1, CharClass::NotQuote);
        let s = input.subrange(p + 1, q);
        assert forall|k: int| 0 <= k < s.len() implies #[trigger] s[k] != '"' by {
            assert(in_class(CharClass::NotQuote, input[p + 1 + k]));
        }
    } else if is_letter(c) {
        lemma_run_end_bounds(input, p, CharClass::Word);
        let q = run_end(input, p, CharClass::Word);
        let word = input.subrange(p, q);
        assert(q > p);
        assert forall|k: int| 0 <= k < word.len() implies in_class(
            CharClass::Word,
            #[trigger] word[k],
        ) by {
            assert(in_class(CharClass::Word, input[p + k]));
        }
        assert(word[0] == c);
    } else if is_digit(c) {
        lemma_run_end_bounds(input, p, CharClass::Number);
        let q = run_end(input, p, CharClass::Number);
        let text = input.subrange(p, q);
        assert(q > p);
        assert forall|k: int| 0 <= k < text.len() implies in_class(
            CharClass::Number,
            #[trigger] text[k],
        ) by {
            assert(in_class(CharClass::Number, input[p + k]));
        }
        assert(text[0] == c);
    } else {
    }
}

} // verus!
