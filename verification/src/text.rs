//! Building and comparing strings character by character.

use vstd::prelude::*;

verus! {

/// `String::push` appends the given character to the end of the string and
/// leaves the characters before it as they were.
pub assume_specification[ std::string::String::push ](s: &mut std::string::String, ch: char)
    ensures
        final(s)@ == old(s)@.push(ch),
;

/// The character of the decimal digit `d`.
pub open spec fn digit_char(d: int) -> char {
    if d == 0 {
        '0'
    } else if d == 1 {
        '1'
    } else if d == 2 {
        '2'
    } else if d == 3 {
        '3'
    } else if d == 4 {
        '4'
    } else if d == 5 {
        '5'
    } else if d == 6 {
        '6'
    } else if d == 7 {
        '7'
    } else if d == 8 {
        '8'
    } else {
        '9'
    }
}

/// The decimal digits of `n`, most significant first, without leading zeros.
pub open spec fn digits(n: nat) -> Seq<char>
    decreases n,
{
    if n < 10 {
        seq![digit_char(n as int)]
    } else {
        digits(n / 10).push(digit_char((n % 10) as int))
    }
}

/// The decimal rendering of `v`: a minus sign for negative numbers, then the
/// digits of the magnitude.
pub open spec fn decimal(v: int) -> Seq<char> {
    if v < 0 {
        seq!['-'] + digits((-v) as nat)
    } else {
        digits(v as nat)
    }
}

/// The text of a boolean: `true` or `false`.
pub open spec fn bool_text(b: bool) -> Seq<char> {
    if b {
        "true"@
    } else {
        "false"@
    }
}

fn digit_of(d: u64) -> (c: char)
    requires
        d < 10,
    ensures
        c == digit_char(d as int),
{
    if d == 0 {
        '0'
    } else if d == 1 {
        '1'
    } else if d == 2 {
        '2'
    } else if d == 3 {
        '3'
    } else if d == 4 {
        '4'
    } else if d == 5 {
        '5'
    } else if d == 6 {
        '6'
    } else if d == 7 {
        '7'
    } else if d == 8 {
        '8'
    } else {
        '9'
    }
}

/// An owned copy of a string slice.
pub fn owned(s: &str) -> (r: String)
    ensures
        r@ == s@,
{
    s.to_owned()
}

/// Appends the characters `chars[begin..end]` to `out`.
pub fn push_chars(out: &mut String, chars: &[char], begin: usize, end: usize)
    requires
        begin <= end <= chars@.len(),
    ensures
        final(out)@ == old(out)@ + chars@.subrange(begin as int, end as int),
{
    let mut i: usize = begin;
    while i < end
        invariant
            begin <= i <= end <= chars@.len(),
            out@ == old(out)@ + chars@.subrange(begin as int, i as int),
        decreases end - i,
    {
        out.push(chars[i]);
        i = i + 1;
        assert(chars@.subrange(begin as int, i as int) =~= chars@.subrange(
            begin as int,
            i as int - 1,
        ).push(chars@[i as int - 1]));
    }
}

/// The string made of the characters `chars[begin..end]`.
pub fn string_from_chars(chars: &[char], begin: usize, end: usize) -> (r: String)
    requires
        begin <= end <= chars@.len(),
    ensures
        r@ == chars@.subrange(begin as int, end as int),
{
    let mut out = String::new();
    push_chars(&mut out, chars, begin, end);
    out
}

/// Whether the characters `chars[begin..end]` spell `word`.
pub fn chars_spell(chars: &[char], begin: usize, end: usize, word: &str) -> (r: bool)
    requires
        begin <= end <= chars@.len(),
    ensures
        r == (chars@.subrange(begin as int, end as int) == word@),
{
    let n = word.unicode_len();
    if end - begin != n {
        return false;
    }
    let mut i: usize = 0;
    while i < n
        invariant
            begin <= end <= chars@.len(),
            end - begin == n,
            n == word@.len(),
            i <= n,
            forall|k: int| 0 <= k < i ==> chars@[begin + k] == word@[k],
        decreases n - i,
    {
        if chars[begin + i] != word.get_char(i) {
            assert(chars@.subrange(begin as int, end as int)[i as int] != word@[i as int]);
            return false;
        }
        i = i + 1;
    }
    assert(chars@.subrange(begin as int, end as int) =~= word@);
    true
}

/// The decimal rendering of `v` as a string.
pub fn int_to_string(v: i64) -> (r: String)
    ensures
        r@ == decimal(v as int),
{
    let negative = v < 0;
    let magnitude: u64 = if negative {
        ((-(v + 1)) as u64) + 1
    } else {
        v as u64
    };
    let mut rest: u64 = magnitude / 10;
    let mut out: Vec<char> = Vec::new();
    out.push(digit_of(magnitude % 10));
    while rest > 0
        invariant
            digits(magnitude as nat) == (if rest > 0 {
                digits(rest as nat)
            } else {
                Seq::<char>::empty()
            }) + out@,
        decreases rest,
    {
        let ghost before = out@;
        out.insert(0, digit_of(rest % 10));
        assert(out@ =~= seq![digit_char((rest % 10) as int)] + before);
        proof {
            if rest >= 10 {
                assert(digits(rest as nat) + before =~= digits((rest / 10) as nat) + out@);
            } else {
                assert(digits(rest as nat) + before =~= Seq::<char>::empty() + out@);
            }
        }
        rest = rest / 10;
    }
    assert(out@ =~= digits(magnitude as nat));
    let mut text = String::new();
    if negative {
        text.push('-');
    }
    let n = out.len();
    push_chars(&mut text, out.as_slice(), 0, n);
    assert(out@.subrange(0, n as int) =~= out@);
    assert(Seq::<char>::empty().push('-') =~= seq!['-']);
    assert(Seq::<char>::empty() + out@ =~= out@);
    text
}

/// The text of a boolean as a string.
pub fn bool_to_string(b: bool) -> (r: String)
    ensures
        r@ == bool_text(b),
{
    if b {
        owned("true")
    } else {
        owned("false")
    }
}

/// `a` followed by `b`.
pub fn join(a: &str, b: &str) -> (r: String)
    ensures
        r@ == a@ + b@,
{
    let mut out = owned(a);
    out.append(b);
    out
}

/// The characters of a string.
pub fn chars_of(s: &str) -> (r: Vec<char>)
    ensures
        r@ == s@,
{
    let mut out: Vec<char> = Vec::new();
    for c in it: s.chars()
        invariant
            out@ == it.history(),
            it.seq() == s@,
    {
        out.push(c);
    }
    assert(out@ =~= s@);
    out
}

/// An ASCII digit.
pub open spec fn is_digit(c: char) -> bool {
    let n = c as u32;
    0x30 <= n <= 0x39
}

/// The number that a run of decimal digits denotes.
pub open spec fn digits_value(text: Seq<char>) -> nat
    decreases text.len(),
{
    if text.len() == 0 {
        0
    } else {
        (digits_value(text.drop_last()) * 10 + (text.last() as u32 - 0x30)) as nat
    }
}

/// The value of the digits `chars[begin..end]`, unless it exceeds `limit`.
pub fn parse_magnitude(chars: &[char], begin: usize, end: usize, limit: u64) -> (r: Option<u64>)
    requires
        begin <= end <= chars@.len(),
        forall|k: int| begin <= k < end ==> is_digit(#[trigger] chars@[k]),
    ensures
        match r {
            Some(v) => v == digits_value(chars@.subrange(begin as int, end as int)) && v <= limit,
            None => digits_value(chars@.subrange(begin as int, end as int)) > limit,
        },
{
    let mut value: u64 = 0;
    let mut i: usize = begin;
    assert(chars@.subrange(begin as int, begin as int) =~= Seq::<char>::empty());
    while i < end
        invariant
            begin <= i <= end <= chars@.len(),
            forall|k: int| begin <= k < end ==> is_digit(#[trigger] chars@[k]),
            value <= limit,
            value == digits_value(chars@.subrange(begin as int, i as int)),
        decreases end - i,
    {
        assert(chars@.subrange(begin as int, i + 1).drop_last() =~= chars@.subrange(
            begin as int,
            i as int,
        ));
        assert(is_digit(chars@[i as int]));
        let d: u64 = (chars[i] as u32 - 0x30) as u64;
        if d > limit || value > (limit - d) / 10 {
            proof {
                lemma_digits_value_grows(chars@.subrange(begin as int, end as int), i + 1 - begin);
                assert(chars@.subrange(begin as int, end as int).subrange(0, i + 1 - begin)
                    =~= chars@.subrange(begin as int, i + 1));
            }
            return None;
        }
        value = value * 10 + d;
        i = i + 1;
    }
    Some(value)
}

/// The value of a prefix of a run of digits is at most the value of the run.
pub proof fn lemma_digits_value_grows(text: Seq<char>, k: int)
    requires
        0 <= k <= text.len(),
        forall|j: int| 0 <= j < text.len() ==> is_digit(#[trigger] text[j]),
    ensures
        digits_value(text.subrange(0, k)) <= digits_value(text),
    decreases text.len() - k,
{
    if k == text.len() {
        assert(text.subrange(0, k) =~= text);
    } else {
        lemma_digits_value_grows(text, k + 1);
        assert(text.subrange(0, k + 1).drop_last() =~= text.subrange(0, k));
        assert(is_digit(text[k]));
    }
}

} // verus!
