//! The native functions: what each returns for its arguments.
//!
//! The first argument of a method is its receiver. Each function checks the
//! number and the kinds of its arguments itself and answers with an error
//! where they are wrong.

use crate::host::Host;
use crate::lexer::{class_holds, is_space, CharClass};
use crate::flstdlib::{byte_len, len_value};
use crate::object::{
    infos_view, BuiltIn, BuiltInFuncReturnValue, Object, ObjectInfo, ObjectInfoView, ObjectView,
    ReturnView,
};
use crate::runtime_error::{ErrorKind, RuntimeError, RuntimeErrorView};
use crate::text::{
    chars_of, decimal, digits_value, int_to_string, is_digit, join, owned, parse_magnitude,
    string_from_chars,
};
use crate::type_system::Type;
use rand::Rng;
use vstd::prelude::*;

verus! {

/// Whether `r` is what `expected` asks for: that value, or an error of that
/// class.
pub open spec fn agrees(r: ReturnView, expected: Result<ObjectView, ErrorKind>) -> bool {
    match expected {
        Ok(o) => r == ReturnView::Object(o),
        Err(kind) => fails_with(r, kind),
    }
}

/// Whether `r` is an error of the class `kind`.
pub open spec fn fails_with(r: ReturnView, kind: ErrorKind) -> bool {
    r matches ReturnView::Error(e) && e.kind == kind
}

/// The integer that a value holds, or zero for any other value.
pub open spec fn int_or_zero(o: ObjectView) -> i64 {
    match o {
        ObjectView::Int(v) => v,
        _ => 0,
    }
}

/// `typeof(x)`: the declared type of its one argument.
pub open spec fn typeof_result(args: Seq<ObjectInfoView>) -> Result<ObjectView, ErrorKind> {
    if args.len() != 1 {
        Err(ErrorKind::ArgumentError)
    } else {
        Ok(ObjectView::Type(args[0].type_))
    }
}

/// `range(start, end [, step])`: the range of its two or three integers,
/// with the step 1 where none is given. A step of zero is a bad value.
pub open spec fn range_result(args: Seq<ObjectInfoView>) -> Result<ObjectView, ErrorKind> {
    if args.len() > 3 || args.len() < 2 {
        Err(ErrorKind::ArgumentError)
    } else if exists|i: int| 0 <= i < args.len() && (#[trigger] args[i]).type_ != Type::Int {
        Err(ErrorKind::ArgumentError)
    } else {
        let step = if args.len() == 3 {
            int_or_zero(args[2].value)
        } else {
            1
        };
        if step == 0 {
            Err(ErrorKind::ValueError)
        } else {
            Ok(
                ObjectView::Range {
                    start: int_or_zero(args[0].value),
                    end: int_or_zero(args[1].value),
                    step,
                },
            )
        }
    }
}

/// `len(s)`: the length in bytes of its one argument, a string.
pub open spec fn len_result(args: Seq<ObjectInfoView>) -> Result<ObjectView, ErrorKind> {
    if args.len() != 1 {
        Err(ErrorKind::ArgumentError)
    } else {
        match args[0].value {
            ObjectView::String(s) => Ok(ObjectView::Int(len_value(byte_len(s)))),
            _ => Err(ErrorKind::ArgumentError),
        }
    }
}

/// `exit([code])`: null, once the host was asked to end the process; the
/// code is zero where none is given. More than one argument, or one that is
/// no integer, is an argument error.
pub open spec fn exit_result(args: Seq<ObjectInfoView>) -> Result<ObjectView, ErrorKind> {
    if args.len() == 0 {
        Ok(ObjectView::Null)
    } else if args.len() != 1 {
        Err(ErrorKind::ArgumentError)
    } else if args[0].value is Int {
        Ok(ObjectView::Null)
    } else {
        Err(ErrorKind::ArgumentError)
    }
}

/// `array.length()`: the number of elements of the receiver.
pub open spec fn array_length_result(args: Seq<ObjectInfoView>) -> Result<ObjectView, ErrorKind> {
    if args.len() != 1 {
        Err(ErrorKind::ArgumentError)
    } else {
        match args[0].value {
            ObjectView::Array { inner, items_type } => Ok(ObjectView::Int(len_value(inner.len()))),
            _ => Err(ErrorKind::ArgumentError),
        }
    }
}

/// Whether every character is a digit.
pub open spec fn all_digits(s: Seq<char>) -> bool {
    forall|i: int| 0 <= i < s.len() ==> is_digit(#[trigger] s[i])
}

/// The integer that a text spells: an optional sign, then one digit or
/// more, with a value that an integer can hold.
pub open spec fn int_of_text(s: Seq<char>) -> Option<i64> {
    let signed = s.len() > 0 && (s[0] == '-' || s[0] == '+');
    let body = if signed {
        s.subrange(1, s.len() as int)
    } else {
        s
    };
    if body.len() == 0 || !all_digits(body) {
        None
    } else if s[0] == '-' {
        if digits_value(body) <= 0x8000_0000_0000_0000 {
            Some((-(digits_value(body) as int)) as i64)
        } else {
            None
        }
    } else if digits_value(body) <= i64::MAX {
        Some(digits_value(body) as i64)
    } else {
        None
    }
}

/// The text of the receiver of `as_int`: that of a string, the empty text
/// for any other value.
pub open spec fn text_or_empty(o: ObjectView) -> Seq<char> {
    match o {
        ObjectView::String(s) => s,
        _ => Seq::empty(),
    }
}

/// `string.as_int()`: the integer that the receiver spells; a bad value
/// where it spells none.
pub open spec fn as_int_result(args: Seq<ObjectInfoView>) -> Result<ObjectView, ErrorKind> {
    if args.len() != 1 {
        Err(ErrorKind::ArgumentError)
    } else {
        match int_of_text(text_or_empty(args[0].value)) {
            Some(v) => Ok(ObjectView::Int(v)),
            None => Err(ErrorKind::ValueError),
        }
    }
}

/// The bounds that `random.randint` is asked for: two integers, the first
/// below the second.
pub open spec fn randint_bounds(args: Seq<ObjectInfoView>) -> Result<(i64, i64), ErrorKind> {
    if args.len() != 2 {
        Err(ErrorKind::ArgumentError)
    } else {
        match (args[0].value, args[1].value) {
            (ObjectView::Int(begin), ObjectView::Int(end)) => if begin < end {
                Ok((begin, end))
            } else {
                Err(ErrorKind::ValueError)
            },
            _ => Err(ErrorKind::ArgumentError),
        }
    }
}

/// The prompt that `io.gets` is asked to show: none, or one string.
pub open spec fn gets_prompt(args: Seq<ObjectInfoView>) -> Result<Seq<char>, ErrorKind> {
    if args.len() == 0 {
        Ok(Seq::empty())
    } else if args.len() == 1 {
        match args[0].value {
            ObjectView::String(s) => Ok(s),
            _ => Err(ErrorKind::ArgumentError),
        }
    } else {
        Err(ErrorKind::ArgumentError)
    }
}

/// Whether `math.sqrt` takes the arguments: one number.
pub open spec fn sqrt_takes(args: Seq<ObjectInfoView>) -> bool {
    args.len() == 1 && (args[0].value is Int || args[0].value is Float)
}

/// A text without the white space at its start.
pub open spec fn trim_start(s: Seq<char>) -> Seq<char>
    decreases s.len(),
{
    if s.len() > 0 && is_space(s[0]) {
        trim_start(s.drop_first())
    } else {
        s
    }
}

/// A text without the white space at its end.
pub open spec fn trim_end(s: Seq<char>) -> Seq<char>
    decreases s.len(),
{
    if s.len() > 0 && is_space(s.last()) {
        trim_end(s.drop_last())
    } else {
        s
    }
}

/// A text without the white space at its start and at its end.
pub open spec fn trimmed(s: Seq<char>) -> Seq<char> {
    trim_end(trim_start(s))
}

/// What `io.gets` returns once the host has written the prompt and read a
/// line: the line without the white space around it, or an error where
/// either failed.
pub open spec fn gets_result(flushed: bool, line: Option<Seq<char>>) -> Result<
    ObjectView,
    ErrorKind,
> {
    if !flushed {
        Err(ErrorKind::IOError)
    } else {
        match line {
            Some(text) => Ok(ObjectView::String(trimmed(text))),
            None => Err(ErrorKind::IOError),
        }
    }
}

/// The line that `print` writes: the plain forms of the arguments one after
/// another, then a line end.
pub open spec fn print_text(args: Seq<ObjectInfoView>) -> Seq<char>
    decreases args.len(),
{
    if args.len() == 0 {
        "\n"@
    } else {
        args[0].value.plain() + print_text(args.drop_first())
    }
}

/// What a native function may return for its arguments. Where the host
/// decides, this says what holds of every outcome.
pub open spec fn native_outcome(which: BuiltIn, args: Seq<ObjectInfoView>, r: ReturnView) -> bool {
    match which {
        BuiltIn::TypeOf => agrees(r, typeof_result(args)),
        BuiltIn::Range => agrees(r, range_result(args)),
        BuiltIn::Len => agrees(r, len_result(args)),
        BuiltIn::StringAsInt => agrees(r, as_int_result(args)),
        BuiltIn::ArrayLength => agrees(r, array_length_result(args)),
        BuiltIn::Exit | BuiltIn::SysExit => agrees(r, exit_result(args)),
        BuiltIn::Print | BuiltIn::IoPuts => r == ReturnView::Object(ObjectView::Null),
        BuiltIn::IoGets => match gets_prompt(args) {
            Ok(_) => fails_with(r, ErrorKind::IOError) || (r matches ReturnView::Object(
                ObjectView::String(_),
            )),
            Err(kind) => fails_with(r, kind),
        },
        BuiltIn::MathSqrt => if sqrt_takes(args) {
            r matches ReturnView::Object(ObjectView::Float(_))
        } else {
            fails_with(r, ErrorKind::ArgumentError)
        },
        BuiltIn::IntAsFloat => if args.len() == 1 {
            r matches ReturnView::Object(ObjectView::Float(_))
        } else {
            fails_with(r, ErrorKind::ArgumentError)
        },
        BuiltIn::RandInt => match randint_bounds(args) {
            Ok((begin, end)) => r matches ReturnView::Object(ObjectView::Int(v)) && begin <= v
                < end,
            Err(kind) => fails_with(r, kind),
        },
    }
}

/// The value that a native function returns is well formed, is not on its
/// way out of a function, and is no array.
pub proof fn lemma_native_value(which: BuiltIn, args: Seq<ObjectInfoView>, o: ObjectView)
    requires
        native_outcome(which, args, ReturnView::Object(o)),
    ensures
        o.wf(),
        !(o is RetVal),
        !(o is Array),
{
}

/// A random integer of the range from `begin` up to, not including, `end`:
/// `rand::Rng::gen_range` on the generator of the thread, which returns a
/// value of the range it is given and panics on an empty range.
#[verifier::external_body]
fn random_between(begin: i64, end: i64) -> (r: i64)
    requires
        begin < end,
    ensures
        begin <= r < end,
{
    rand::thread_rng().gen_range(begin..end)
}

fn fail(kind: ErrorKind, msg: String) -> (r: BuiltInFuncReturnValue)
    ensures
        r@ == ReturnView::Error(RuntimeErrorView { kind, msg: msg@ }),
{
    BuiltInFuncReturnValue::Error(RuntimeError { kind, msg })
}

/// A message that ends in a count: `before`, the count in decimal, `after`.
fn count_message(before: &str, count: usize, after: &str) -> (r: String)
    ensures
        r@ == before@ + decimal(len_value(count as nat) as int) + after@,
{
    let shown = int_to_string(crate::flstdlib::length_to_int(count));
    let mut out = join(before, shown.as_str());
    out.append(after);
    out
}

/// `typeof(x)`.
pub fn filipe_typeof(args: Vec<ObjectInfo>) -> (r: BuiltInFuncReturnValue)
    ensures
        agrees(r@, typeof_result(infos_view(args@))),
{
    if args.len() != 1 {
        return fail(
            ErrorKind::ArgumentError,
            count_message("'typeof' expects 1 arg but ", args.len(), " were provided"),
        );
    }
    BuiltInFuncReturnValue::Object(Object::Type(args[0].type_.clone()))
}

/// `range(start, end [, step])`.
pub fn filipe_range(args: Vec<ObjectInfo>) -> (r: BuiltInFuncReturnValue)
    ensures
        agrees(r@, range_result(infos_view(args@))),
{
    if args.len() > 3 || args.len() < 2 {
        return fail(
            ErrorKind::ArgumentError,
            count_message("function 'range' takes 2 or 3 argus but ", args.len(), " were provided"),
        );
    }
    let mut i: usize = 0;
    while i < args.len()
        invariant
            i <= args@.len(),
            forall|k: int| 0 <= k < i ==> (#[trigger] infos_view(args@)[k]).type_ == Type::Int,
        decreases args@.len() - i,
    {
        if !args[i].type_.same(&Type::Int) {
            assert(infos_view(args@)[i as int].type_ != Type::Int);
            return fail(
                ErrorKind::ArgumentError,
                owned("args for function 'range' must be of type number"),
            );
        }
        i = i + 1;
    }
    let start = int_or(&args[0].value);
    let end = int_or(&args[1].value);
    let step = if args.len() == 3 {
        int_or(&args[2].value)
    } else {
        1
    };
    if step == 0 {
        return fail(ErrorKind::ValueError, owned("the step of a range must not be 0"));
    }
    BuiltInFuncReturnValue::Object(Object::Range { start, end, step })
}

fn int_or(value: &Object) -> (r: i64)
    ensures
        r == int_or_zero(value@),
{
    match value {
        Object::Int(x) => *x,
        _ => 0,
    }
}

/// `len(s)`.
pub fn filipe_len(args: Vec<ObjectInfo>) -> (r: BuiltInFuncReturnValue)
    ensures
        agrees(r@, len_result(infos_view(args@))),
{
    if args.len() != 1 {
        return fail(
            ErrorKind::ArgumentError,
            count_message("'len' expects 1 arg but ", args.len(), " were provided"),
        );
    }
    match &args[0].value {
        Object::String(val) => BuiltInFuncReturnValue::Object(
            Object::Int(crate::flstdlib::length_to_int(val.as_str().len())),
        ),
        _ => fail(ErrorKind::ArgumentError, owned("'len' only accepts iterable types")),
    }
}

/// The low 32 bits of an integer, taken as a signed integer. An integer
/// that fits into 32 bits is itself.
pub fn low_word(value: i64) -> (r: i32)
    ensures
        r == value as i32,
        i32::MIN <= value <= i32::MAX ==> r == value,
{
    let r = #[verifier::truncate] (value as i32);
    proof {
        assert(-0x8000_0000 <= value <= 0x7fff_ffff ==> (value as i32) as i64 == value)
            by (bit_vector);
    }
    r
}

/// The exit code that `exit` hands to the host: zero without an argument,
/// the low 32 bits of its one integer; nothing for other arguments.
pub open spec fn exit_code_of(args: Seq<ObjectInfoView>) -> Option<i32> {
    if args.len() == 0 {
        Some(0)
    } else if args.len() != 1 {
        None
    } else {
        match args[0].value {
            ObjectView::Int(v) => Some(v as i32),
            _ => None,
        }
    }
}

/// The exit code that `exit` hands to the host for `args`, or the argument
/// error where it takes them not.
pub fn exit_code(args: &Vec<ObjectInfo>) -> (r: Result<i32, RuntimeError>)
    ensures
        match exit_code_of(infos_view(args@)) {
            Some(code) => r is Ok && r->Ok_0 == code,
            None => r is Err && r->Err_0@.kind == ErrorKind::ArgumentError,
        },
        exit_code_of(infos_view(args@)) is Some <==> exit_result(infos_view(args@)) is Ok,
{
    if args.len() == 0 {
        return Ok(0);
    }
    if args.len() != 1 {
        return Err(
            RuntimeError {
                kind: ErrorKind::ArgumentError,
                msg: count_message(
                    "'exit' expects 0 or 1 argument but ",
                    args.len(),
                    " were provided",
                ),
            },
        );
    }
    match &args[0].value {
        Object::Int(val) => Ok(low_word(*val)),
        _ => Err(
            RuntimeError {
                kind: ErrorKind::ArgumentError,
                msg: owned("'exit' only accepts an integer argument"),
            },
        ),
    }
}

/// `exit([code])`: asks the host to end the process with the code of
/// [`exit_code`].
pub fn filipe_exit<H: Host>(host: &mut H, args: Vec<ObjectInfo>) -> (r: BuiltInFuncReturnValue)
    ensures
        agrees(r@, exit_result(infos_view(args@))),
{
    match exit_code(&args) {
        Ok(code) => {
            host.exit(code);
            BuiltInFuncReturnValue::Object(Object::Null)
        },
        Err(error) => BuiltInFuncReturnValue::Error(error),
    }
}

/// How many arguments a method was given besides its receiver.
fn given(args: &Vec<ObjectInfo>) -> (r: usize)
    ensures
        r == if args@.len() > 0 {
            args@.len() - 1
        } else {
            0
        },
{
    if args.len() > 0 {
        args.len() - 1
    } else {
        0
    }
}

/// `array.length()`.
pub fn array_length(args: Vec<ObjectInfo>) -> (r: BuiltInFuncReturnValue)
    ensures
        agrees(r@, array_length_result(infos_view(args@))),
{
    if args.len() != 1 {
        return fail(
            ErrorKind::ArgumentError,
            count_message("method length takes 0 args but provided ", given(&args), ""),
        );
    }
    assert(infos_view(args@)[0] == args@[0]@);
    match &args[0].value {
        Object::Array { inner, items_type } => {
            assert(args@[0].value@ == ObjectView::Array {
                inner: crate::object::objects_view(inner@),
                items_type: *items_type,
            });
            BuiltInFuncReturnValue::Object(
                Object::Int(crate::flstdlib::length_to_int(inner.len())),
            )
        },
        _ => fail(ErrorKind::ArgumentError, owned("method length accept arrays only")),
    }
}

/// The integer that a text spells, if it spells one.
#[verifier::loop_isolation(false)]
pub fn parse_int(text: &str) -> (r: Option<i64>)
    ensures
        r == int_of_text(text@),
{
    let chars = chars_of(text);
    let n = chars.len();
    let negative = n > 0 && chars[0] == '-';
    let start: usize = if n > 0 && (chars[0] == '-' || chars[0] == '+') {
        1
    } else {
        0
    };
    let ghost body = chars@.subrange(start as int, n as int);
    assert(start == 0 ==> body =~= chars@);
    if start == n {
        return None;
    }
    let mut i: usize = start;
    while i < n
        invariant
            start <= i <= n,
            n == chars@.len(),
            body == chars@.subrange(start as int, n as int),
            forall|k: int| start <= k < i ==> is_digit(#[trigger] chars@[k]),
        decreases n - i,
    {
        let code = chars[i] as u32;
        if !(0x30 <= code && code <= 0x39) {
            assert(!is_digit(body[i - start]));
            return None;
        }
        i = i + 1;
    }
    assert(all_digits(body)) by {
        assert forall|k: int| 0 <= k < body.len() implies is_digit(#[trigger] body[k]) by {
            assert(body[k] == chars@[k + start]);
        }
    }
    let limit: u64 = if negative {
        0x8000_0000_0000_0000
    } else {
        0x7fff_ffff_ffff_ffff
    };
    match parse_magnitude(chars.as_slice(), start, n, limit) {
        Some(m) => {
            if negative {
                if m == 0x8000_0000_0000_0000 {
                    Some(i64::MIN)
                } else {
                    Some(-(m as i64))
                }
            } else {
                Some(m as i64)
            }
        },
        None => None,
    }
}

/// `string.as_int()`.
pub fn string_as_integer(args: Vec<ObjectInfo>) -> (r: BuiltInFuncReturnValue)
    ensures
        agrees(r@, as_int_result(infos_view(args@))),
{
    if args.len() != 1 {
        return fail(
            ErrorKind::ArgumentError,
            count_message("str.as_int takes 0 args but provided ", given(&args), ""),
        );
    }
    let parsed = match &args[0].value {
        Object::String(val) => parse_int(val.as_str()),
        _ => parse_int(""),
    };
    proof {
        reveal_strlit("");
        assert(""@ =~= Seq::<char>::empty());
    }
    match parsed {
        Some(val) => BuiltInFuncReturnValue::Object(Object::Int(val)),
        None => {
            let mut msg = owned("Couldn't convert '");
            match &args[0].value {
                Object::String(val) => msg.append(val.as_str()),
                _ => {},
            }
            msg.append("' to int");
            fail(ErrorKind::ValueError, msg)
        },
    }
}

/// The integer that `int.as_float()` hands to the host: the low 32 bits
/// of the receiver, taken as a signed integer; nothing where the method is
/// given arguments.
pub open spec fn as_float_operand(args: Seq<ObjectInfoView>) -> Option<i64> {
    if args.len() != 1 {
        None
    } else {
        Some((int_or_zero(args[0].value) as i32) as i64)
    }
}

/// The integer that `int.as_float()` hands to the host for `args`, or the
/// argument error where it takes them not.
pub fn float_operand(args: &Vec<ObjectInfo>) -> (r: Result<i64, RuntimeError>)
    ensures
        match as_float_operand(infos_view(args@)) {
            Some(v) => r is Ok && r->Ok_0 == v,
            None => r is Err && r->Err_0@.kind == ErrorKind::ArgumentError,
        },
{
    if args.len() != 1 {
        return Err(
            RuntimeError {
                kind: ErrorKind::ArgumentError,
                msg: count_message("'int.as_float' takes 0 args but provided ", given(args), ""),
            },
        );
    }
    let value: i64 = match &args[0].value {
        Object::Int(val) => *val,
        _ => 0,
    };
    Ok(low_word(value) as i64)
}

/// An integer that fits into 32 bits is handed to the host as it is when
/// it is made a float.
pub proof fn law_as_float_keeps_small_integers(receiver: ObjectInfoView)
    requires
        receiver.value matches ObjectView::Int(v) && i32::MIN <= v <= i32::MAX,
    ensures
        as_float_operand(seq![receiver]) == Some(receiver.value->Int_0),
{
    let v = receiver.value->Int_0;
    assert(-0x8000_0000 <= v <= 0x7fff_ffff ==> (v as i32) as i64 == v) by (bit_vector);
}

/// `int.as_float()`: the float of the integer of [`float_operand`]; the
/// host converts.
pub fn integer_as_float<H: Host>(host: &H, args: Vec<ObjectInfo>) -> (r: BuiltInFuncReturnValue)
    ensures
        native_outcome(BuiltIn::IntAsFloat, infos_view(args@), r@),
{
    match float_operand(&args) {
        Ok(value) => BuiltInFuncReturnValue::Object(Object::Float(host.float_from_int(value))),
        Err(error) => BuiltInFuncReturnValue::Error(error),
    }
}

/// `math.sqrt(x)`: the square root of an integer or a float; the host
/// computes it.
pub fn module_math_sqrt<H: Host>(host: &H, args: Vec<ObjectInfo>) -> (r: BuiltInFuncReturnValue)
    ensures
        native_outcome(BuiltIn::MathSqrt, infos_view(args@), r@),
{
    if args.len() != 1 {
        return fail(
            ErrorKind::ArgumentError,
            count_message("Math.sqrt(x) expects 1 argument but provided ", args.len(), ""),
        );
    }
    match &args[0].value {
        Object::Int(x) => {
            let as_float = host.float_from_int(*x);
            BuiltInFuncReturnValue::Object(Object::Float(host.float_sqrt(as_float)))
        },
        Object::Float(x) => BuiltInFuncReturnValue::Object(Object::Float(host.float_sqrt(*x))),
        _ => fail(
            ErrorKind::ArgumentError,
            owned("Math.sqrt(x) expects argument of type int or float"),
        ),
    }
}

/// `random.randint(begin, end)`: a random integer from `begin` up to, not
/// including, `end`.
pub fn randint(args: Vec<ObjectInfo>) -> (r: BuiltInFuncReturnValue)
    ensures
        native_outcome(BuiltIn::RandInt, infos_view(args@), r@),
{
    if args.len() != 2 {
        return fail(
            ErrorKind::ArgumentError,
            count_message("randint expects 2 arguments but provided ", args.len(), ""),
        );
    }
    let (begin, end) = match (&args[0].value, &args[1].value) {
        (Object::Int(begin), Object::Int(end)) => (*begin, *end),
        _ => {
            return fail(ErrorKind::ArgumentError, owned("randint expects values of type int"));
        },
    };
    if begin >= end {
        return fail(
            ErrorKind::ValueError,
            owned("Invalid range: end must be bigger than start"),
        );
    }
    let out = random_between(begin, end);
    BuiltInFuncReturnValue::Object(Object::Int(out))
}

/// The line that `print` writes for `args`; `host` renders the floats.
pub fn print_line<H: Host>(args: &Vec<ObjectInfo>, host: &H) -> (r: String)
    ensures
        (forall|i: int| 0 <= i < args@.len() ==> (#[trigger] infos_view(args@)[i]).value.float_free())
            ==> r@ == print_text(infos_view(args@)),
{
    let mut out = String::new();
    let mut i: usize = 0;
    let ghost all = infos_view(args@);
    proof {
        assert(all.subrange(0, all.len() as int) =~= all);
        assert(out@ + print_text(all) =~= print_text(all));
    }
    while i < args.len()
        invariant
            i <= args@.len(),
            all == infos_view(args@),
            (forall|k: int| 0 <= k < args@.len() ==> (#[trigger] all[k]).value.float_free())
                ==> out@ + print_text(all.subrange(i as int, all.len() as int)) == print_text(all),
        decreases args@.len() - i,
    {
        let shown = args[i].value.to_plain_string(host);
        proof {
            let rest = all.subrange(i as int, all.len() as int);
            assert(rest.drop_first() =~= all.subrange(i + 1, all.len() as int));
            assert(rest[0] == all[i as int]);
            if forall|k: int| 0 <= k < args@.len() ==> (#[trigger] all[k]).value.float_free() {
                assert(all[i as int].value.float_free());
                assert((out@ + shown@) + print_text(rest.drop_first()) =~= out@ + (shown@
                    + print_text(rest.drop_first())));
            }
        }
        out.append(shown.as_str());
        i = i + 1;
    }
    proof {
        assert(all.subrange(all.len() as int, all.len() as int) =~= Seq::<ObjectInfoView>::empty());
    }
    out.append("\n");
    out
}

/// `print(...)` and `io.puts(...)`: writes the line of the arguments.
pub fn io_puts<H: Host>(host: &mut H, args: Vec<ObjectInfo>) -> (r: BuiltInFuncReturnValue)
    ensures
        r@ == ReturnView::Object(ObjectView::Null),
{
    let line = print_line(&args, host);
    host.write(line.as_str());
    BuiltInFuncReturnValue::Object(Object::Null)
}

/// `line` without the white space at its start and at its end.
pub fn trim(line: &str) -> (r: String)
    ensures
        r@ == trimmed(line@),
{
    let chars = chars_of(line);
    let n = chars.len();
    let mut a: usize = 0;
    assert(chars@.subrange(0, n as int) =~= chars@);
    while a < n && class_holds(CharClass::Space, chars[a])
        invariant
            a <= n,
            n == chars@.len(),
            trim_start(chars@) == trim_start(chars@.subrange(a as int, n as int)),
        decreases n - a,
    {
        assert(chars@.subrange(a as int, n as int).drop_first() =~= chars@.subrange(
            a + 1,
            n as int,
        ));
        a = a + 1;
    }
    assert(trim_start(chars@) == chars@.subrange(a as int, n as int));
    let mut b: usize = n;
    while b > a && class_holds(CharClass::Space, chars[b - 1])
        invariant
            a <= b <= n,
            n == chars@.len(),
            trimmed(chars@) == trim_end(chars@.subrange(a as int, b as int)),
        decreases b,
    {
        assert(chars@.subrange(a as int, b as int).drop_last() =~= chars@.subrange(
            a as int,
            b - 1,
        ));
        b = b - 1;
    }
    string_from_chars(chars.as_slice(), a, b)
}

/// What `io.gets` returns once the host has written the prompt, which
/// `flushed` tells, and read the line `line`.
pub fn gets_outcome(flushed: bool, line: Option<String>) -> (r: BuiltInFuncReturnValue)
    ensures
        agrees(
            r@,
            gets_result(
                flushed,
                match line {
                    Some(text) => Some(text@),
                    None => None,
                },
            ),
        ),
{
    if !flushed {
        return fail(ErrorKind::IOError, owned("Couldn't flush stdout"));
    }
    match line {
        Some(buf) => BuiltInFuncReturnValue::Object(Object::String(trim(buf.as_str()))),
        None => fail(ErrorKind::IOError, owned("Couldn't read from stdin")),
    }
}

/// `io.gets([prompt])`: writes the prompt, then reads a line.
pub fn io_gets<H: Host>(host: &mut H, args: Vec<ObjectInfo>) -> (r: BuiltInFuncReturnValue)
    ensures
        native_outcome(BuiltIn::IoGets, infos_view(args@), r@),
{
    if args.len() > 1 {
        return fail(
            ErrorKind::ArgumentError,
            count_message("'io.gets' expects 0 or 1 argument but provided '", args.len(), "'"),
        );
    }
    let flushed = if args.len() == 0 {
        host.write("")
    } else {
        match &args[0].value {
            Object::String(val) => host.write(val.as_str()),
            other => {
                let shown = other.ask_type().to_string();
                return fail(
                    ErrorKind::ArgumentError,
                    join(
                        "'io.gets' expects argument of type string but provided type ",
                        shown.as_str(),
                    ),
                );
            },
        }
    };
    let line = if flushed {
        host.read_line()
    } else {
        None
    };
    gets_outcome(flushed, line)
}

/// Runs the native function `which` on `args`.
pub fn call_builtin<H: Host>(host: &mut H, which: BuiltIn, args: Vec<ObjectInfo>) -> (r:
    BuiltInFuncReturnValue)
    ensures
        native_outcome(which, infos_view(args@), r@),
{
    match which {
        BuiltIn::Print => io_puts(host, args),
        BuiltIn::Exit => filipe_exit(host, args),
        BuiltIn::TypeOf => filipe_typeof(args),
        BuiltIn::Range => filipe_range(args),
        BuiltIn::Len => filipe_len(args),
        BuiltIn::MathSqrt => module_math_sqrt(host, args),
        BuiltIn::IoPuts => io_puts(host, args),
        BuiltIn::IoGets => io_gets(host, args),
        BuiltIn::SysExit => filipe_exit(host, args),
        BuiltIn::RandInt => randint(args),
        BuiltIn::StringAsInt => string_as_integer(args),
        BuiltIn::IntAsFloat => integer_as_float(host, args),
        BuiltIn::ArrayLength => array_length(args),
    }
}

/// The type of a value is what `typeof` shows of it: for a value `x` bound
/// with its own type, `typeof` returns a type value whose echo form is the
/// name of the type of `x`.
pub proof fn law_typeof_shows_type(x: ObjectView, is_mut: bool)
    ensures
        typeof_result(seq![ObjectInfoView { is_mut, type_: x.type_of(), value: x }]) is Ok,
        typeof_result(
            seq![ObjectInfoView { is_mut, type_: x.type_of(), value: x }],
        )->Ok_0.echo() == x.type_of().text(),
{
}

} // verus!
