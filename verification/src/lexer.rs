//! The lexer: a cursor over the source characters that hands out one token
//! at a time.

use crate::text::{chars_spell, digits_value, is_digit, owned, parse_magnitude, string_from_chars};
use crate::token::{Token, TokenView};
use vstd::prelude::*;

verus! {

/// The character that the lexer holds where the source has none: past its
/// end. In the source it is a character like any other.
pub const NULL_CHAR: char = '\0';

/// The classes of characters that the lexer reads in runs.
#[derive(Clone, Copy, Debug)]
pub enum CharClass {
    /// White space between tokens.
    Space,
    /// Letters and digits: the body of a name.
    Word,
    /// Digits and dots: the body of a number.
    Number,
    /// Anything but a double quote: the body of a string literal.
    NotQuote,
}

/// White space, as Unicode defines the property `White_Space`.
pub open spec fn is_space(c: char) -> bool {
    let n = c as u32;
    (0x09 <= n <= 0x0d) || n == 0x20 || n == 0x85 || n == 0xa0 || n == 0x1680 || (0x2000 <= n
        <= 0x200a) || n == 0x2028 || n == 0x2029 || n == 0x202f || n == 0x205f || n == 0x3000
}

/// An ASCII letter.
pub open spec fn is_letter(c: char) -> bool {
    let n = c as u32;
    (0x41 <= n <= 0x5a) || (0x61 <= n <= 0x7a)
}

/// Whether `c` belongs to `class`.
pub open spec fn in_class(class: CharClass, c: char) -> bool {
    match class {
        CharClass::Space => is_space(c),
        CharClass::Word => is_letter(c) || is_digit(c),
        CharClass::Number => is_digit(c) || c == '.',
        CharClass::NotQuote => c != '"',
    }
}

/// The character at `pos`, or the null character past the end.
pub open spec fn char_at(input: Seq<char>, pos: int) -> char {
    if 0 <= pos < input.len() {
        input[pos]
    } else {
        NULL_CHAR
    }
}

/// Where the run of `class` characters that starts at `pos` ends: the first
/// position from `pos` on that holds a character outside the class, or
/// nothing.
pub open spec fn run_end(input: Seq<char>, pos: int, class: CharClass) -> int
    decreases input.len() - pos,
{
    if 0 <= pos < input.len() && in_class(class, input[pos]) {
        run_end(input, pos + 1, class)
    } else {
        pos
    }
}

/// The token of a reserved word, if `word` is one.
pub open spec fn keyword(word: Seq<char>) -> Option<TokenView> {
    if word == "let"@ {
        Some(TokenView::Let)
    } else if word == "define"@ {
        Some(TokenView::Func)
    } else if word == "return"@ {
        Some(TokenView::Return)
    } else if word == "true"@ {
        Some(TokenView::True)
    } else if word == "false"@ {
        Some(TokenView::False)
    } else if word == "null"@ {
        Some(TokenView::Null)
    } else if word == "string"@ {
        Some(TokenView::TypeString)
    } else if word == "int"@ {
        Some(TokenView::TypeInt)
    } else if word == "float"@ {
        Some(TokenView::TypeFloat)
    } else if word == "boolean"@ {
        Some(TokenView::TypeBoolean)
    } else if word == "if"@ {
        Some(TokenView::If)
    } else if word == "else"@ {
        Some(TokenView::Else)
    } else if word == "for"@ {
        Some(TokenView::For)
    } else if word == "in"@ {
        Some(TokenView::In)
    } else if word == "void"@ {
        Some(TokenView::TypeVoid)
    } else if word == "Array"@ {
        Some(TokenView::ClassArray)
    } else if word == "import"@ {
        Some(TokenView::Import)
    } else {
        None
    }
}

/// The token of a word: its keyword, or an identifier.
pub open spec fn word_token(word: Seq<char>) -> TokenView {
    match keyword(word) {
        Some(t) => t,
        None => TokenView::Identifier(word),
    }
}

/// How many dots `text` holds.
pub open spec fn count_dots(text: Seq<char>) -> nat
    decreases text.len(),
{
    if text.len() == 0 {
        0
    } else {
        count_dots(text.drop_last()) + if text.last() == '.' {
            1nat
        } else {
            0nat
        }
    }
}

/// The token of a number's text, a run of digits and dots that starts with a
/// digit: without a dot an integer, unless it overflows; with one dot a
/// float; with more dots nothing.
pub open spec fn number_token(text: Seq<char>) -> Option<TokenView> {
    if count_dots(text) == 0 {
        if digits_value(text) <= i64::MAX {
            Some(TokenView::Int(digits_value(text) as i64))
        } else {
            None
        }
    } else if count_dots(text) == 1 {
        Some(TokenView::Float(text))
    } else {
        None
    }
}

/// What the lexer reads at a position: the token, or nothing where the text
/// is rejected, and the position after it.
pub struct Lexed {
    pub token: Option<TokenView>,
    pub next: int,
}

/// The token of one or two punctuation characters, if `c` starts one; `d` is
/// the character after `c`. The second component is the token's length.
pub open spec fn punctuation(c: char, d: char) -> Option<(TokenView, int)> {
    if c == '(' {
        Some((TokenView::Lparen, 1))
    } else if c == ')' {
        Some((TokenView::Rparen, 1))
    } else if c == '{' {
        Some((TokenView::Lbrace, 1))
    } else if c == '}' {
        Some((TokenView::Rbrace, 1))
    } else if c == '[' {
        Some((TokenView::Lbracket, 1))
    } else if c == ']' {
        Some((TokenView::Rbracket, 1))
    } else if c == ',' {
        Some((TokenView::Comma, 1))
    } else if c == '*' {
        Some((TokenView::Asterisk, 1))
    } else if c == '/' {
        Some((TokenView::Slash, 1))
    } else if c == ':' {
        Some((TokenView::Colon, 1))
    } else if c == '%' {
        Some((TokenView::Percet, 1))
    } else if c == '.' {
        Some((TokenView::Dot, 1))
    } else if c == '-' {
        if d == '-' {
            Some((TokenView::DoubleMinus, 2))
        } else {
            Some((TokenView::Minus, 1))
        }
    } else if c == '+' {
        if d == '+' {
            Some((TokenView::DoublePlus, 2))
        } else {
            Some((TokenView::Plus, 1))
        }
    } else if c == '!' {
        if d == '=' {
            Some((TokenView::NotEqual, 2))
        } else {
            Some((TokenView::Bang, 1))
        }
    } else if c == '>' {
        if d == '=' {
            Some((TokenView::GratherOrEqual, 2))
        } else {
            Some((TokenView::GratherThan, 1))
        }
    } else if c == '<' {
        if d == '=' {
            Some((TokenView::LessOrEqual, 2))
        } else {
            Some((TokenView::LessThan, 1))
        }
    } else if c == '=' {
        if d == '=' {
            Some((TokenView::DoubleEqual, 2))
        } else {
            Some((TokenView::Equal, 1))
        }
    } else {
        None
    }
}

/// The token that starts at or after `pos`, once white space is skipped.
///
/// The end of the input, and nothing else, gives `Eof` without moving on.
/// A string literal runs to the next double quote and is rejected where there
/// is none. A word is a letter followed by letters and digits. A number is a
/// digit followed by digits and dots. Any other character is `Illegal`.
pub open spec fn lex(input: Seq<char>, pos: int) -> Lexed {
    let p = run_end(input, pos, CharClass::Space);
    let c = char_at(input, p);
    if p >= input.len() {
        Lexed { token: Some(TokenView::Eof), next: p }
    } else if punctuation(c, char_at(input, p + 1)) is Some {
        let (token, len) = punctuation(c, char_at(input, p + 1))->Some_0;
        Lexed { token: Some(token), next: p + len }
    } else if c == '"' {
        let q = run_end(input, p + 1, CharClass::NotQuote);
        Lexed {
            token: if char_at(input, q) == '"' {
                Some(TokenView::String(input.subrange(p + 1, q)))
            } else {
                None
            },
            next: if q < input.len() {
                q + 1
            } else {
                q
            },
        }
    } else if is_letter(c) {
        let q = run_end(input, p, CharClass::Word);
        Lexed { token: Some(word_token(input.subrange(p, q))), next: q }
    } else if is_digit(c) {
        let q = run_end(input, p, CharClass::Number);
        Lexed { token: number_token(input.subrange(p, q)), next: q }
    } else {
        Lexed { token: Some(TokenView::Illegal(c)), next: p + 1 }
    }
}

/// The message for the text that the lexer rejects at or after `pos`: a
/// string literal without its closing quote, an integer that is too large,
/// or a number with more than one dot.
pub open spec fn lex_message(input: Seq<char>, pos: int) -> Seq<char> {
    let p = run_end(input, pos, CharClass::Space);
    if char_at(input, p) == '"' {
        "Unbalanced '\"'"@
    } else if count_dots(input.subrange(p, run_end(input, p, CharClass::Number))) == 0 {
        "Integer literal is too large"@
    } else {
        "Malformed number"@
    }
}

/// A run ends between its start and the end of the input, and every
/// character before its end belongs to the class.
pub proof fn lemma_run_end_bounds(input: Seq<char>, pos: int, class: CharClass)
    requires
        0 <= pos <= input.len(),
    ensures
        pos <= run_end(input, pos, class) <= input.len(),
        forall|k: int|
            pos <= k < run_end(input, pos, class) ==> in_class(class, #[trigger] input[k]),
        run_end(input, pos, class) < input.len() ==> !in_class(
            class,
            input[run_end(input, pos, class)],
        ),
    decreases input.len() - pos,
{
    if pos < input.len() && in_class(class, input[pos]) {
        lemma_run_end_bounds(input, pos + 1, class);
    }
}

/// A run that is entered at any of its positions ends where it ends.
pub proof fn lemma_run_end_step(input: Seq<char>, pos: int, mid: int, class: CharClass)
    requires
        0 <= pos <= mid <= input.len(),
        forall|k: int| pos <= k < mid ==> in_class(class, #[trigger] input[k]),
    ensures
        run_end(input, pos, class) == run_end(input, mid, class),
    decreases mid - pos,
{
    if pos < mid {
        lemma_run_end_step(input, pos + 1, mid, class);
    }
}

/// The lexer never moves back, and stops at the end of the input.
pub proof fn lemma_lex_advances(input: Seq<char>, pos: int)
    requires
        0 <= pos <= input.len(),
    ensures
        pos <= lex(input, pos).next <= input.len(),
        lex(input, pos).token != Some(TokenView::Eof) ==> pos < lex(input, pos).next,
{
    lemma_run_end_bounds(input, pos, CharClass::Space);
    let p = run_end(input, pos, CharClass::Space);
    if p + 1 <= input.len() {
        lemma_run_end_bounds(input, p + 1, CharClass::NotQuote);
    }
    lemma_run_end_bounds(input, p, CharClass::Word);
    lemma_run_end_bounds(input, p, CharClass::Number);
    let c = char_at(input, p);
    if p < input.len() && punctuation(c, char_at(input, p + 1)) is Some {
        if punctuation(c, char_at(input, p + 1))->Some_0.1 == 2 {
            assert(char_at(input, p + 1) != NULL_CHAR);
        }
    }
    if p < input.len() && is_letter(c) {
        assert(in_class(CharClass::Word, input[p]));
    }
    if p < input.len() && is_digit(c) {
        assert(in_class(CharClass::Number, input[p]));
    }
}

/// The end of the input is read exactly where nothing but white space is
/// left.
pub proof fn law_eof_at_the_end_only(input: Seq<char>, pos: int)
    requires
        0 <= pos <= input.len(),
    ensures
        lex(input, pos).token == Some(TokenView::Eof) <==> forall|k: int|
            pos <= k < input.len() ==> is_space(#[trigger] input[k]),
        lex(input, pos).token == Some(TokenView::Eof) ==> lex(input, pos).next == input.len(),
{
    lemma_run_end_bounds(input, pos, CharClass::Space);
    let p = run_end(input, pos, CharClass::Space);
    if p < input.len() {
        assert(!is_space(input[p]));
        lemma_lex_kinds(input, pos);
    } else {
        assert forall|k: int| pos <= k < input.len() implies is_space(#[trigger] input[k]) by {
            assert(in_class(CharClass::Space, input[k]));
        }
    }
}

/// Before the end of the input the lexer reads a token that is not `Eof`.
pub proof fn lemma_lex_kinds(input: Seq<char>, pos: int)
    requires
        0 <= pos <= input.len(),
        run_end(input, pos, CharClass::Space) < input.len(),
    ensures
        lex(input, pos).token != Some(TokenView::Eof),
{
}

pub(crate) fn class_holds(class: CharClass, c: char) -> (r: bool)
    ensures
        r == in_class(class, c),
{
    let n = c as u32;
    match class {
        CharClass::Space => (0x09 <= n && n <= 0x0d) || n == 0x20 || n == 0x85 || n == 0xa0 || n
            == 0x1680 || (0x2000 <= n && n <= 0x200a) || n == 0x2028 || n == 0x2029 || n == 0x202f
            || n == 0x205f || n == 0x3000,
        CharClass::Word => (0x41 <= n && n <= 0x5a) || (0x61 <= n && n <= 0x7a) || (0x30 <= n && n
            <= 0x39),
        CharClass::Number => (0x30 <= n && n <= 0x39) || c == '.',
        CharClass::NotQuote => c != '"',
    }
}

/// The lexer's state: the source and the position of the current character.
pub struct Lexer<'a> {
    input: &'a [char],
    curr_char: char,
    pos: usize,
    read_pos: usize,
    line: usize,
    colm: usize,
}

impl<'a> Lexer<'a> {
    /// The source text.
    pub closed spec fn source(&self) -> Seq<char> {
        self.input@
    }

    /// The position of the current character; the length of the source once
    /// all of it is read.
    pub closed spec fn position(&self) -> int {
        self.pos as int
    }

    /// The state is consistent: the current character is the one at the
    /// position, and the read position is one further, up to the end.
    pub closed spec fn wf(&self) -> bool {
        &&& self.pos <= self.input@.len()
        &&& self.curr_char == char_at(self.input@, self.pos as int)
        &&& self.read_pos == if self.pos < self.input@.len() {
            self.pos + 1
        } else {
            self.pos as int
        }
    }

    /// The position of a consistent lexer is within the source.
    pub proof fn lemma_position_bound(&self)
        requires
            self.wf(),
        ensures
            0 <= self.position() <= self.source().len(),
    {
    }

    /// A lexer at the start of `input`.
    pub fn new(input: &'a [char]) -> (l: Self)
        ensures
            l.wf(),
            l.source() == input@,
            l.position() == 0,
    {
        let mut l = Lexer { input, curr_char: NULL_CHAR, pos: 0, read_pos: 0, line: 1, colm: 1 };
        l.load();
        l
    }

    /// Loads the character at the read position, or the null character
    /// past the end of the input, and keeps count of lines and columns.
    fn load(&mut self)
        requires
            old(self).read_pos <= old(self).input@.len(),
        ensures
            final(self).wf(),
            final(self).input == old(self).input,
            final(self).pos == old(self).read_pos,
    {
        if self.read_pos >= self.input.len() {
            self.pos = self.read_pos;
            self.curr_char = NULL_CHAR;
            return ;
        }
        self.curr_char = self.input[self.read_pos];
        self.pos = self.read_pos;
        self.read_pos += 1;

        if self.curr_char == '\n' {
            if self.line < usize::MAX {
                self.line += 1;
            }
            self.colm = 1;
        } else if self.colm < usize::MAX {
            self.colm += 1;
        }
    }

    /// Moves one character on; at the end of the input, stays.
    pub fn read_char(&mut self)
        requires
            old(self).wf(),
        ensures
            final(self).wf(),
            final(self).source() == old(self).source(),
            final(self).position() == if old(self).position() < old(self).source().len() {
                old(self).position() + 1
            } else {
                old(self).position()
            },
    {
        self.load();
    }

    /// Whether the input has ended: the position is past its last
    /// character.
    pub fn eof(&self) -> (r: bool)
        requires
            self.wf(),
        ensures
            r == (self.position() >= self.source().len()),
    {
        self.pos >= self.input.len()
    }

    /// Whether the character after the current one is `x`.
    pub fn next_char_is(&self, x: char) -> (r: bool)
        requires
            self.wf(),
        ensures
            r == (self.position() + 1 < self.source().len() && self.source()[self.position() + 1]
                == x),
    {
        if self.read_pos >= self.input.len() {
            return false;
        }
        if self.pos >= self.input.len() {
            return false;
        }
        self.input[self.read_pos] == x
    }

    /// Moves to the end of the run of `class` characters at the current
    /// position and returns where the run started.
    fn skip_run(&mut self, class: CharClass) -> (start: usize)
        requires
            old(self).wf(),
        ensures
            final(self).wf(),
            final(self).input == old(self).input,
            start == old(self).pos,
            final(self).pos == run_end(old(self).input@, old(self).pos as int, class),
            start <= final(self).pos <= final(self).input@.len(),
    {
        let start = self.pos;
        proof {
            lemma_run_end_bounds(self.input@, start as int, class);
        }
        while !self.eof() && class_holds(class, self.curr_char)
            invariant
                self.wf(),
                self.input == old(self).input,
                start <= self.pos <= self.input@.len(),
                run_end(self.input@, start as int, class) == run_end(
                    self.input@,
                    self.pos as int,
                    class,
                ),
            decreases self.input@.len() - self.pos,
        {
            self.read_char();
        }
        start
    }

    /// Skips the white space at the current position.
    pub fn skip_whitespace(&mut self)
        requires
            old(self).wf(),
        ensures
            final(self).wf(),
            final(self).source() == old(self).source(),
            final(self).position() == run_end(
                old(self).source(),
                old(self).position(),
                CharClass::Space,
            ),
    {
        self.skip_run(CharClass::Space);
    }

    /// Reads characters from the current position on for as long as
    /// `predicate` holds of them, and returns their text: the predicate
    /// holds of every character of the text and not of the next, if there
    /// is one.
    pub fn chop_while<P: Fn(char) -> bool>(&mut self, predicate: P) -> (r: String)
        requires
            old(self).wf(),
            forall|c: char| predicate.requires((c,)),
        ensures
            final(self).wf(),
            final(self).source() == old(self).source(),
            old(self).position() <= final(self).position() <= final(self).source().len(),
            r@ == old(self).source().subrange(old(self).position(), final(self).position()),
            forall|k: int|
                old(self).position() <= k < final(self).position() ==> predicate.ensures(
                    (#[trigger] old(self).source()[k],),
                    true,
                ),
            final(self).position() < final(self).source().len() ==> predicate.ensures(
                (final(self).source()[final(self).position()],),
                false,
            ),
    {
        let start = self.pos;
        while !self.eof() && predicate(self.curr_char)
            invariant
                self.wf(),
                self.input == old(self).input,
                start == old(self).pos,
                start <= self.pos <= self.input@.len(),
                forall|c: char| predicate.requires((c,)),
                forall|k: int|
                    start <= k < self.pos ==> predicate.ensures((#[trigger] self.input@[k],), true),
            decreases self.input@.len() - self.pos,
        {
            self.read_char();
        }
        self.chop(start, self.pos)
    }

    /// Reads the run of `class` characters at the current position and
    /// returns its text.
    fn chop_run(&mut self, class: CharClass) -> (r: String)
        requires
            old(self).wf(),
        ensures
            final(self).wf(),
            final(self).source() == old(self).source(),
            final(self).position() == run_end(old(self).source(), old(self).position(), class),
            old(self).position() <= final(self).position() <= final(self).source().len(),
            r@ == old(self).source().subrange(old(self).position(), final(self).position()),
    {
        let start = self.skip_run(class);
        self.chop(start, self.pos)
    }

    /// The text between two positions of the source.
    pub fn chop(&self, begin: usize, end: usize) -> (r: String)
        requires
            begin <= end <= self.source().len(),
        ensures
            r@ == self.source().subrange(begin as int, end as int),
    {
        string_from_chars(self.input, begin, end)
    }

    /// The keyword that the source spells between two positions, if any.
    fn read_keyword(&self, begin: usize, end: usize) -> (r: Option<Token>)
        requires
            begin <= end <= self.input@.len(),
        ensures
            match keyword(self.input@.subrange(begin as int, end as int)) {
                Some(t) => r is Some && r->Some_0@ == t,
                None => r is None,
            },
    {
        let s = self.input;
        if chars_spell(s, begin, end, "let") {
            Some(Token::Let)
        } else if chars_spell(s, begin, end, "define") {
            Some(Token::Func)
        } else if chars_spell(s, begin, end, "return") {
            Some(Token::Return)
        } else if chars_spell(s, begin, end, "true") {
            Some(Token::True)
        } else if chars_spell(s, begin, end, "false") {
            Some(Token::False)
        } else if chars_spell(s, begin, end, "null") {
            Some(Token::Null)
        } else if chars_spell(s, begin, end, "string") {
            Some(Token::TypeString)
        } else if chars_spell(s, begin, end, "int") {
            Some(Token::TypeInt)
        } else if chars_spell(s, begin, end, "float") {
            Some(Token::TypeFloat)
        } else if chars_spell(s, begin, end, "boolean") {
            Some(Token::TypeBoolean)
        } else if chars_spell(s, begin, end, "if") {
            Some(Token::If)
        } else if chars_spell(s, begin, end, "else") {
            Some(Token::Else)
        } else if chars_spell(s, begin, end, "for") {
            Some(Token::For)
        } else if chars_spell(s, begin, end, "in") {
            Some(Token::In)
        } else if chars_spell(s, begin, end, "void") {
            Some(Token::TypeVoid)
        } else if chars_spell(s, begin, end, "Array") {
            Some(Token::ClassArray)
        } else if chars_spell(s, begin, end, "import") {
            Some(Token::Import)
        } else {
            None
        }
    }

    /// Reads a word: a keyword or an identifier.
    fn read_identifier(&mut self) -> (r: Token)
        requires
            old(self).wf(),
        ensures
            final(self).wf(),
            final(self).input == old(self).input,
            final(self).pos == run_end(old(self).input@, old(self).pos as int, CharClass::Word),
            r@ == word_token(
                old(self).input@.subrange(old(self).pos as int, final(self).pos as int),
            ),
    {
        let start = self.skip_run(CharClass::Word);
        match self.read_keyword(start, self.pos) {
            Some(token) => token,
            None => Token::Identifier(self.chop(start, self.pos)),
        }
    }

    /// Reads a string literal; the current character is its opening quote.
    fn read_string(&mut self) -> (r: Result<Token, String>)
        requires
            old(self).wf(),
            old(self).pos < old(self).input@.len(),
        ensures
            final(self).wf(),
            final(self).input == old(self).input,
            final(self).pos == run_end(
                old(self).input@,
                old(self).pos + 1,
                CharClass::NotQuote,
            ),
            old(self).pos < final(self).pos <= final(self).input@.len(),
            char_at(final(self).input@, final(self).pos as int) == '"' ==> r is Ok
                && r->Ok_0@ == TokenView::String(
                old(self).input@.subrange(old(self).pos + 1, final(self).pos as int),
            ),
            char_at(final(self).input@, final(self).pos as int) != '"' ==> r is Err && r->Err_0@
                == "Unbalanced '\"'"@,
    {
        self.read_char();
        let literal = self.chop_run(CharClass::NotQuote);
        if self.eof() {
            return Err(owned("Unbalanced '\"'"));
        }
        proof {
            lemma_run_end_bounds(old(self).input@, old(self).pos + 1, CharClass::NotQuote);
        }
        Ok(Token::String(literal))
    }

    /// Reads a number; the current character is its first digit.
    fn read_number(&mut self) -> (r: Result<Token, String>)
        requires
            old(self).wf(),
        ensures
            final(self).wf(),
            final(self).input == old(self).input,
            final(self).pos == run_end(old(self).input@, old(self).pos as int, CharClass::Number),
            match number_token(
                old(self).input@.subrange(old(self).pos as int, final(self).pos as int),
            ) {
                Some(t) => r is Ok && r->Ok_0@ == t,
                None => r is Err && r->Err_0@ == if count_dots(
                    old(self).input@.subrange(old(self).pos as int, final(self).pos as int),
                ) == 0 {
                    "Integer literal is too large"@
                } else {
                    "Malformed number"@
                },
            },
    {
        let start = self.skip_run(CharClass::Number);
        let end = self.pos;
        let dots = count_dots_in(self.input, start, end);
        if dots == 0 {
            proof {
                let text = self.input@.subrange(start as int, end as int);
                lemma_run_end_bounds(self.input@, start as int, CharClass::Number);
                lemma_no_dots(text);
                assert forall|k: int| start <= k < end implies is_digit(
                    #[trigger] self.input@[k],
                ) by {
                    assert(text[k - start] == self.input@[k]);
                }
            }
            match parse_magnitude(self.input, start, end, 0x7fff_ffff_ffff_ffff) {
                Some(value) => Ok(Token::Int(value as i64)),
                None => Err(owned("Integer literal is too large")),
            }
        } else if dots == 1 {
            Ok(Token::Float(self.chop(start, end)))
        } else {
            Err(owned("Malformed number"))
        }
    }

    /// Reads the token of one or two punctuation characters at the current
    /// position, if there is one, and moves to its last character.
    fn read_punctuation(&mut self) -> (r: Option<Token>)
        requires
            old(self).wf(),
            old(self).pos < old(self).input@.len(),
        ensures
            final(self).wf(),
            final(self).input == old(self).input,
            match punctuation(
                old(self).input@[old(self).pos as int],
                char_at(old(self).input@, old(self).pos + 1),
            ) {
                Some((t, len)) => r is Some && r->Some_0@ == t && final(self).pos == old(self).pos
                    + len - 1 && final(self).pos < final(self).input@.len(),
                None => r is None && final(self).pos == old(self).pos,
            },
    {
        let c = self.curr_char;
        if c == '(' {
            Some(Token::Lparen)
        } else if c == ')' {
            Some(Token::Rparen)
        } else if c == '{' {
            Some(Token::Lbrace)
        } else if c == '}' {
            Some(Token::Rbrace)
        } else if c == '[' {
            Some(Token::Lbracket)
        } else if c == ']' {
            Some(Token::Rbracket)
        } else if c == ',' {
            Some(Token::Comma)
        } else if c == '*' {
            Some(Token::Asterisk)
        } else if c == '/' {
            Some(Token::Slash)
        } else if c == ':' {
            Some(Token::Colon)
        } else if c == '%' {
            Some(Token::Percet)
        } else if c == '.' {
            Some(Token::Dot)
        } else if c == '-' {
            if self.next_char_is('-') {
                self.read_char();
                Some(Token::DoubleMinus)
            } else {
                Some(Token::Minus)
            }
        } else if c == '+' {
            if self.next_char_is('+') {
                self.read_char();
                Some(Token::DoublePlus)
            } else {
                Some(Token::Plus)
            }
        } else if c == '!' {
            if self.next_char_is('=') {
                self.read_char();
                Some(Token::NotEqual)
            } else {
                Some(Token::Bang)
            }
        } else if c == '>' {
            if self.next_char_is('=') {
                self.read_char();
                Some(Token::GratherOrEqual)
            } else {
                Some(Token::GratherThan)
            }
        } else if c == '<' {
            if self.next_char_is('=') {
                self.read_char();
                Some(Token::LessOrEqual)
            } else {
                Some(Token::LessThan)
            }
        } else if c == '=' {
            if self.next_char_is('=') {
                self.read_char();
                Some(Token::DoubleEqual)
            } else {
                Some(Token::Equal)
            }
        } else {
            None
        }
    }

    /// Reads the next token and moves past it.
    ///
    /// The result and the new position are those of [`lex`] at the old
    /// position; where `lex` rejects the text, the result is the message
    /// of [`lex_message`].
    pub fn next_token(&mut self) -> (r: Result<Token, String>)
        requires
            old(self).wf(),
        ensures
            final(self).wf(),
            final(self).source() == old(self).source(),
            final(self).position() == lex(old(self).source(), old(self).position()).next,
            match lex(old(self).source(), old(self).position()).token {
                Some(t) => r is Ok && r->Ok_0@ == t,
                None => r is Err && r->Err_0@ == lex_message(
                    old(self).source(),
                    old(self).position(),
                ),
            },
    {
        self.skip_whitespace();
        if self.eof() {
            return Ok(Token::Eof);
        }
        match self.read_punctuation() {
            Some(token) => {
                self.read_char();
                return Ok(token);
            },
            None => {},
        }
        let c = self.curr_char;
        if c == '"' {
            let token = self.read_string();
            self.read_char();
            return token;
        }
        let n = c as u32;
        if (0x41 <= n && n <= 0x5a) || (0x61 <= n && n <= 0x7a) {
            return Ok(self.read_identifier());
        }
        if 0x30 <= n && n <= 0x39 {
            return self.read_number();
        }
        let illegal = Token::Illegal(c);
        self.read_char();
        Ok(illegal)
    }
}

/// Counts the dots in `chars[begin..end]`, up to two.
fn count_dots_in(chars: &[char], begin: usize, end: usize) -> (r: u8)
    requires
        begin <= end <= chars@.len(),
    ensures
        r <= 2,
        r < 2 ==> r == count_dots(chars@.subrange(begin as int, end as int)),
        r == 2 ==> count_dots(chars@.subrange(begin as int, end as int)) >= 2,
{
    let mut dots: u8 = 0;
    let mut i: usize = begin;
    assert(chars@.subrange(begin as int, begin as int) =~= Seq::<char>::empty());
    while i < end
        invariant
            begin <= i <= end <= chars@.len(),
            dots <= 2,
            dots < 2 ==> dots == count_dots(chars@.subrange(begin as int, i as int)),
            dots == 2 ==> count_dots(chars@.subrange(begin as int, i as int)) >= 2,
        decreases end - i,
    {
        assert(chars@.subrange(begin as int, i + 1).drop_last() =~= chars@.subrange(
            begin as int,
            i as int,
        ));
        if chars[i] == '.' && dots < 2 {
            dots = dots + 1;
        }
        i = i + 1;
    }
    dots
}

/// A text without dots holds no dot.
pub proof fn lemma_no_dots(text: Seq<char>)
    requires
        count_dots(text) == 0,
    ensures
        forall|k: int| 0 <= k < text.len() ==> #[trigger] text[k] != '.',
    decreases text.len(),
{
    if text.len() > 0 {
        lemma_no_dots(text.drop_last());
        assert forall|k: int| 0 <= k < text.len() implies #[trigger] text[k] != '.' by {
            if k < text.len() - 1 {
                assert(text.drop_last()[k] == text[k]);
            }
        }
    }
}

} // verus!
