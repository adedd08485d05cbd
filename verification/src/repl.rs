//! Running source text: a file as a whole, or the lines of an interactive
//! session one after another.

use crate::ast::{stmts_view, Stmt, StmtView};
use crate::context::extends;
use crate::grammar::parse_source;
use crate::host::Host;
use crate::object::Object;
use crate::parser::parse_program;
use crate::runtime::Runtime;
use crate::object::ObjectView;
use crate::semantics::{program_step, Machine, Step};
use crate::text::{chars_of, owned};
use vstd::prelude::*;

verus! {

/// What `.help` shows in an interactive session.
pub const REPL_HELPER: &'static str = "
Helper
    // define variable
    // @Note: type annotation is optional
    //     when variables are initialized

    let name = \"Jonh Harvard\"
    let age: int = 85
    let lovesCoffe = true
    let height: float = 1.87

    // Arrays

    let xs: Array<int> = [1, 2, 3]
    let ys = [\"y1\", \"y2\", \"y3\"]

    // define function

    define sum(x: int, y: int): int {
        let result = x + y
        return result
    }

    define sayHello(subject: string): void {
        print(\"Hello, \", subject)
    }

    // if-else statments

    if true {
        // do something
    } else {
        // do something else
    }

    // for loops
    for counter in range(0, 10) {
        print(counter)
    }

    // Built-in functions

    len(\"Hello\")
    typeof(10)

    // More: ...
    // arthimetics: +, -, /, *
    // postfix: x++, x--
    // prefix: !x, -x

    Note: in case of bug:
       report to: dev.258.edilson@gmail.com
       open issue: https://github.com/edilson258/filipe

    Happy Hacking!
";

/// How often `c` occurs in `text`.
pub open spec fn count_char(text: Seq<char>, c: char) -> nat
    decreases text.len(),
{
    if text.len() == 0 {
        0
    } else {
        count_char(text.drop_last(), c) + if text.last() == c {
            1nat
        } else {
            0nat
        }
    }
}

/// Whether the text closes every brace that it opens: it holds at most as
/// many opening braces as closing ones.
pub open spec fn balanced(text: Seq<char>) -> bool {
    count_char(text, '{') <= count_char(text, '}')
}

/// Whether the buffer of an interactive session can be run: it closes
/// every brace that it opens. Until then the session reads on.
pub fn is_buf_balanced(buf: &str) -> (r: bool)
    ensures
        r == balanced(buf@),
{
    let chars = chars_of(buf);
    let mut open: usize = 0;
    let mut close: usize = 0;
    let mut i: usize = 0;
    assert(chars@.subrange(0, 0) =~= Seq::<char>::empty());
    while i < chars.len()
        invariant
            i <= chars@.len(),
            open == count_char(chars@.subrange(0, i as int), '{'),
            close == count_char(chars@.subrange(0, i as int), '}'),
            open <= i,
            close <= i,
        decreases chars@.len() - i,
    {
        assert(chars@.subrange(0, i + 1).drop_last() =~= chars@.subrange(0, i as int));
        if chars[i] == '{' {
            open = open + 1;
        }
        if chars[i] == '}' {
            close = close + 1;
        }
        i = i + 1;
    }
    assert(chars@.subrange(0, chars@.len() as int) =~= chars@);
    open <= close
}

/// Runs a source text as a whole: parses it, then evaluates the program.
/// The result is the exit code: 0 where all went well, 1 after an error of
/// the lexer, the parser or the evaluation. A syntax error is written to
/// the standard output, an error of the evaluation to the standard error.
///
/// A text that spells no program leaves the state as it was. Else the
/// program that the text spells is evaluated: the state after the run is
/// that of one of its outcomes, as [`program_step`] has them.
pub fn run_source<H: Host>(rt: &mut Runtime<H>, source: &str) -> (code: i32)
    requires
        old(rt).wf(),
    ensures
        final(rt).wf(),
        extends(old(rt).scopes(), final(rt).scopes()),
        code == 0 || code == 1,
        final(rt).error() is Some ==> code == 1,
        parse_source(source@) is None ==> code == 1 && final(rt).machine() == old(rt).machine(),
        parse_source(source@) matches Some(parsed) ==> (code == 1 <==> final(rt).error() is Some)
            && ran(old(rt).machine(), parsed, final(rt).machine()),
{
    let input = chars_of(source);
    let program = match parse_program(input.as_slice()) {
        Ok(program) => program,
        Err(error) => {
            let mut line = error.to_string();
            line.append("\n");
            rt.host_mut().write(line.as_str());
            proof {
                crate::context::lemma_extends_refl(rt.scopes());
            }
            return 1;
        },
    };
    rt.eval(&program);
    proof {
        assert(stmts_view(program@) == parse_source(source@)->Some_0);
    }
    if rt.has_error() {
        1
    } else {
        0
    }
}

/// Whether the evaluation of the program with the model `parsed` can end
/// in the state `after` from the state `before`.
pub open spec fn ran(before: Machine, parsed: Seq<StmtView>, after: Machine) -> bool {
    exists|program: Seq<Stmt>, value: Option<ObjectView>| #[trigger]
        program_step(before, program, 0, None, Step { value, after }) && stmts_view(program)
            == parsed
}

/// The state at the start of an entry of a session: the context as it is,
/// no error, and the largest budget.
pub open spec fn fresh(m: Machine) -> Machine {
    Machine { scopes: m.scopes, error: None, fuel: u64::MAX as nat }
}

/// Runs one entry of an interactive session on the evaluator of the
/// session. `.help` shows the help text and `exit()` ends the process; any
/// other entry is parsed and evaluated with an empty error slot, and the
/// echo form of its value is written, unless it has none or the value is
/// null. A syntax error is written to the standard output.
///
/// The two special entries, and an entry that spells no program, leave the
/// state as it was. Else the program that the entry spells is evaluated
/// from a fresh state.
pub fn eval_repl_line<H: Host>(line: &str, rt: &mut Runtime<H>)
    requires
        old(rt).wf(),
    ensures
        final(rt).wf(),
        extends(old(rt).scopes(), final(rt).scopes()),
        line@ == ".help"@ || line@ == "exit()"@ || parse_source(line@) is None ==> final(rt).machine() == old(rt).machine(),
        line@ != ".help"@ && line@ != "exit()"@ ==> (parse_source(line@) matches Some(parsed)
            ==> ran(fresh(old(rt).machine()), parsed, final(rt).machine())),
{
    let entry = owned(line);
    if entry == owned(".help") {
        let mut text = owned(REPL_HELPER);
        text.append("\n");
        rt.host_mut().write(text.as_str());
        proof {
            crate::context::lemma_extends_refl(rt.scopes());
        }
        return ;
    }
    if entry == owned("exit()") {
        rt.host_mut().write("Exiting...\n");
        rt.host_mut().exit(0);
        proof {
            crate::context::lemma_extends_refl(rt.scopes());
        }
        return ;
    }
    let input = chars_of(line);
    let program = match parse_program(input.as_slice()) {
        Ok(program) => program,
        Err(error) => {
            let mut shown = error.to_string();
            shown.append("\n");
            rt.host_mut().write(shown.as_str());
            proof {
                crate::context::lemma_extends_refl(rt.scopes());
            }
            return ;
        },
    };
    rt.reset();
    let evaluated = rt.eval(&program);
    proof {
        assert(stmts_view(program@) == parse_source(line@)->Some_0);
    }
    match evaluated {
        Some(Object::Null) => {},
        Some(value) => {
            let mut shown = value.to_string(rt.host());
            shown.append("\n");
            rt.host_mut().write(shown.as_str());
        },
        None => {},
    }
}

} // verus!
