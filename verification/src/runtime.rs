//! The evaluator: a recursive walk over the syntax tree that runs the
//! statements of a program against a context.
//!
//! An evaluation has a budget of steps. Every statement, every expression
//! and every round of a loop costs one step; when the budget is spent, the
//! evaluation ends with an error. So every evaluation ends.
//!
//! The evaluator is generic over its host, of which nothing is assumed:
//! what the contracts say holds whatever the host does, and a caller that
//! is generic over the host can rely on them as they stand. After every
//! statement but a declaration and a function definition the evaluator
//! rests ([`Runtime::rests`]): the scopes that were open are open again
//! with the names that they had, so that what an `if`, a loop or a call
//! declared resolves no more ([`Runtime::law_names_rest`]).

use crate::ast::{
    BlockStmt, Expr, ExprType, Identifier, Infix, Literal, Postfix, Prefix, Program, Stmt,
};
use crate::binding::{
    assign_value, bind_inferred, check_argument, check_declared_type, check_return,
    default_value,
};
use crate::context::{
    extends, law_names_stay, law_scope_exit, lemma_extends_trans, lemma_sound_drop,
    lemma_sound_insert, lemma_sound_push, lookup, same_names, sound, within_from, Context,
    ContextType, ScopeView,
};
use crate::flstdlib::fields_of;
use crate::host::Host;
use crate::natives::{call_builtin, lemma_native_value, native_outcome};
use crate::semantics::{
    applied_step, args_step, argument, array_step, assign_step, bind_params, block_step,
    branch_step, call_expr_step, call_step, closed, cursor_value, declare, declared, expr_step,
    field_access_step, for_step, func_step, function_of, function_step, if_step, infix_step,
    items_step, let_step, literal_step, loop_step, name_step, opened, opened_function,
    postfix_step, prefix_step, program_step, reached, reached_with, receiver, return_step,
    rounds_step, stmt_step, stored, target_step, variable, Machine, Step,
};
use crate::object::{
    infos_view, objects_view, outcome_ok, share_block, value_ok, BuiltInFuncReturnValue,
    FieldsManager, FunctionParam, Object, ObjectInfo, ObjectInfoView, ObjectView, ParamView,
    ReturnView,
};
use crate::operators::{eval_infix, eval_postfix, eval_prefix, is_truthy};
use crate::runtime_error::{ErrorKind, RuntimeError, RuntimeErrorHandler};
use crate::text::{join, owned};
use crate::type_system::{expr_type_to_object_type, Type};
use std::rc::Rc;
use vstd::prelude::*;

verus! {

/// The evaluator's state: the context, the slot for the first error, the
/// host and what is left of the budget.
pub struct Runtime<H: Host> {
    env: Context,
    pub error_handler: RuntimeErrorHandler,
    host: H,
    fuel: u64,
}

/// The error of a `return` that stands outside of any function.
pub open spec fn return_outside_error() -> crate::runtime_error::RuntimeErrorView {
    crate::runtime_error::RuntimeErrorView {
        kind: ErrorKind::NameError,
        msg: "'return' outside of function"@,
    }
}

/// The model of a value that may be missing.
pub open spec fn some_value(r: Option<Object>) -> Option<ObjectView> {
    match r {
        Some(o) => Some(o@),
        None => None,
    }
}

/// The models of argument bindings that may be missing.
pub open spec fn some_infos(r: Option<Vec<ObjectInfo>>) -> Option<Seq<ObjectInfoView>> {
    match r {
        Some(list) => Some(infos_view(list@)),
        None => None,
    }
}

/// Whether a binding can be an argument of a call: it is in order as an
/// expression's value, bound with its own type.
pub open spec fn argument_ok(arg: ObjectInfoView) -> bool {
    value_ok(arg.value) && arg.type_ == arg.value.type_of()
}

impl<H: Host> Runtime<H> {
    /// The scopes of the context, the global scope first.
    pub closed spec fn scopes(&self) -> Seq<ScopeView> {
        self.env@
    }

    /// The error that is held, if any.
    pub closed spec fn error(&self) -> Option<crate::runtime_error::RuntimeErrorView> {
        self.error_handler@
    }

    /// How many steps are left.
    pub closed spec fn budget(&self) -> nat {
        self.fuel as nat
    }

    /// The state of the evaluation: the context, the class of the error
    /// that is held, and the budget.
    pub closed spec fn machine(&self) -> Machine {
        Machine {
            scopes: self.env@,
            error: match self.error_handler@ {
                Some(e) => Some(e.kind),
                None => None,
            },
            fuel: self.fuel as nat,
        }
    }

    /// The state of the evaluation is made of the context, the class of
    /// the error and the budget.
    pub proof fn lemma_machine(&self)
        ensures
            self.machine().scopes == self.scopes(),
            self.machine().fuel == self.budget(),
            self.machine().error == match self.error() {
                Some(e) => Some(e.kind),
                None => None,
            },
    {
    }

    /// The state is consistent: the context is, and every binding in it is
    /// in order.
    pub closed spec fn wf(&self) -> bool {
        self.env.wf() && sound(self.env@)
    }

    /// Whether the state comes after the state `before` in an evaluation:
    /// it is consistent, the context continues the earlier one, the budget
    /// has not grown, and an error that was held is still held.
    pub open spec fn follows(&self, before: &Self) -> bool {
        &&& self.wf()
        &&& extends(before.scopes(), self.scopes())
        &&& self.budget() <= before.budget()
        &&& before.error() is Some ==> self.error() == before.error()
    }

    /// Whether the state comes after the state `before` in an evaluation
    /// that declares nothing: it follows it, and every scope declares the
    /// names that it declared. So it is after an expression, a call, an
    /// `if` and a loop: what they declare is gone with their scopes.
    pub open spec fn rests(&self, before: &Self) -> bool {
        self.follows(before) && same_names(before.scopes(), self.scopes())
    }

    /// A state follows what a state before it follows; and where nothing
    /// was declared on either part of the way, nothing was declared.
    pub proof fn lemma_follows_trans(&self, mid: &Self, before: &Self)
        requires
            mid.follows(before),
            self.follows(mid),
        ensures
            self.follows(before),
            mid.rests(before) && self.rests(mid) ==> self.rests(before),
    {
        lemma_extends_trans(before.scopes(), mid.scopes(), self.scopes());
    }

    /// After an evaluation that declares nothing a name resolves exactly
    /// where it resolved before, and in the same scope: what a call, an
    /// `if` or a loop declared resolves no more.
    pub proof fn law_names_rest(&self, before: &Self, name: Seq<char>)
        requires
            self.rests(before),
        ensures
            lookup(self.scopes(), name) is Some <==> lookup(before.scopes(), name) is Some,
            lookup(self.scopes(), name) is Some ==> lookup(self.scopes(), name)->Some_0.0
                == lookup(before.scopes(), name)->Some_0.0,
    {
        law_names_stay(before.scopes(), self.scopes(), before.scopes().len() - 1, name);
    }

    /// A consistent state has its global scope, without a parent; the
    /// parent of any other scope is an older scope; and every binding is in
    /// order.
    pub proof fn lemma_wf_scopes(&self)
        requires
            self.wf(),
        ensures
            self.scopes().len() >= 1,
            self.scopes()[0].parent is None,
            forall|i: int|
                0 < i < self.scopes().len() ==> (#[trigger] self.scopes()[i]).parent is Some && 0
                    <= self.scopes()[i].parent->Some_0 < i,
            sound(self.scopes()),
    {
        self.env.lemma_wf_view();
    }

    /// An evaluator on the context `env` with the largest budget.
    pub fn new(env: Context, host: H) -> (r: Self)
        requires
            env.wf(),
            sound(env@),
        ensures
            r.wf(),
            r.scopes() == env@,
            r.error() is None,
            r.budget() == u64::MAX,
            r.the_host() == host,
    {
        Self { env, error_handler: RuntimeErrorHandler::new(), host, fuel: u64::MAX }
    }

    /// An evaluator on a new context whose global scope holds the standard
    /// library, with the largest budget.
    pub fn with_builtins(host: H) -> (r: Self)
        ensures
            r.wf(),
            r.scopes() == seq![crate::flstdlib::global_scope()],
            forall|i: int|
                0 <= i < crate::flstdlib::builtins_view().len() ==> lookup(
                    r.scopes(),
                    (#[trigger] crate::flstdlib::builtins_view()[i]).0,
                ) == Some((0int, crate::flstdlib::builtins_view()[i].1)),
            r.error() is None,
            r.budget() == u64::MAX,
            r.the_host() == host,
    {
        let store = crate::flstdlib::builtins();
        proof {
            crate::context::lemma_first_wins_views(store@);
            assert(crate::context::entry_views(store@) =~= crate::flstdlib::builtins_view());
            assert forall|i: int| 0 <= i < crate::flstdlib::builtins_view().len() implies lookup(
                seq![crate::flstdlib::global_scope()],
                (#[trigger] crate::flstdlib::builtins_view()[i]).0,
            ) == Some((0int, crate::flstdlib::builtins_view()[i].1)) by {
                crate::flstdlib::lemma_builtins_resolve(i);
            }
        }
        let env = Context::make_global(store);
        Self { env, error_handler: RuntimeErrorHandler::new(), host, fuel: u64::MAX }
    }

    /// An evaluator on the context `env` with a budget of `budget` steps.
    pub fn with_budget(env: Context, host: H, budget: u64) -> (r: Self)
        requires
            env.wf(),
            sound(env@),
        ensures
            r.wf(),
            r.scopes() == env@,
            r.error() is None,
            r.budget() == budget,
            r.the_host() == host,
    {
        Self { env, error_handler: RuntimeErrorHandler::new(), host, fuel: budget }
    }

    /// Whether an error is held.
    pub fn has_error(&self) -> (r: bool)
        ensures
            r == (self.error() is Some),
            r == (self.machine().error is Some),
    {
        self.error_handler.has_error()
    }

    /// A copy of the error that is held, if any.
    pub fn get_error(&self) -> (r: Option<RuntimeError>)
        ensures
            match self.error() {
                Some(e) => r is Some && r->Some_0@ == e,
                None => r is None,
            },
    {
        self.error_handler.get_error()
    }

    /// Empties the error slot and gives the budget its largest value, as
    /// before a new entry of a session.
    pub fn reset(&mut self)
        ensures
            final(self).scopes() == old(self).scopes(),
            final(self).error() is None,
            final(self).budget() == u64::MAX,
            final(self).machine() == (Machine {
                scopes: old(self).machine().scopes,
                error: None,
                fuel: u64::MAX as nat,
            }),
            old(self).wf() ==> final(self).wf(),
    {
        self.error_handler.clear();
        self.fuel = u64::MAX;
    }

    /// The context and the host, once the evaluator is done.
    pub fn into_parts(self) -> (r: (Context, H))
        requires
            self.wf(),
        ensures
            r.0.wf(),
            sound(r.0@),
            r.0@ == self.scopes(),
            r.1 == self.the_host(),
    {
        (self.env, self.host)
    }

    /// The context. That of a consistent evaluator is consistent, and
    /// every binding in it is in order.
    pub fn context(&self) -> (r: &Context)
        ensures
            r@ == self.scopes(),
            self.wf() ==> r.wf() && sound(r@),
    {
        &self.env
    }

    /// The host.
    pub fn host(&self) -> (r: &H)
        ensures
            *r == self.the_host(),
    {
        &self.host
    }

    /// The host, to be changed: what is done to it through the reference is
    /// done to the host of the evaluator, and nothing else of the evaluator
    /// changes.
    pub fn host_mut(&mut self) -> (r: &mut H)
        ensures
            *r == old(self).the_host(),
            final(self).the_host() == *final(r),
            final(self).scopes() == old(self).scopes(),
            final(self).error() == old(self).error(),
            final(self).budget() == old(self).budget(),
            final(self).machine() == old(self).machine(),
            old(self).wf() ==> final(self).wf(),
    {
        &mut self.host
    }

    /// The host that the evaluator holds.
    pub closed spec fn the_host(&self) -> H {
        self.host
    }

    /// Takes one step off the budget; says whether there was one. Where
    /// there was none, or an error is held already, the evaluation is over.
    fn spend(&mut self) -> (r: bool)
        requires
            old(self).wf(),
        ensures
            final(self).rests(old(self)),
            final(self).machine() == old(self).machine().spend(),
            r == old(self).machine().can_spend(),
            r ==> final(self).fuel < old(self).fuel && final(self).error() is None,
            !r ==> final(self).error() is Some,
    {
        if self.error_handler.has_error() {
            return false;
        }
        if self.fuel == 0 {
            self.error_handler.set_error(
                ErrorKind::ValueError,
                owned("the evaluation took more steps than its budget has"),
            );
            return false;
        }
        self.fuel = self.fuel - 1;
        true
    }

    /// Records `error` and gives no value.
    fn fail(&mut self, error: RuntimeError) -> (r: Option<Object>)
        requires
            old(self).wf(),
        ensures
            final(self).rests(old(self)),
            final(self).machine() == old(self).machine().fail(error@.kind),
            final(self).error() is Some,
            r is None,
    {
        self.error_handler.set_error(error.kind, error.msg);
        None
    }

    /// Records an error of the class `kind` with the message `msg` and
    /// gives no value.
    fn raise(&mut self, kind: ErrorKind, msg: String) -> (r: Option<Object>)
        requires
            old(self).wf(),
        ensures
            final(self).rests(old(self)),
            final(self).machine() == old(self).machine().fail(kind),
            final(self).error() is Some,
            old(self).error() is None ==> final(self).error() == Some(
                crate::runtime_error::RuntimeErrorView { kind, msg: msg@ },
            ),
            r is None,
    {
        self.error_handler.set_error(kind, msg);
        None
    }

    /// Declares `name` in the current scope, unless it is declared there.
    fn declare(&mut self, name: String, type_: Type, value: Object, is_mut: bool) -> (r: bool)
        requires
            old(self).wf(),
            (ObjectInfoView { is_mut, type_, value: value@ }).wf(),
        ensures
            final(self).follows(old(self)),
            r == !old(self).machine().scopes.last().bindings.contains_key(name@),
            r ==> final(self).machine() == old(self).machine().with_scopes(
                declared(
                    old(self).machine().scopes,
                    name@,
                    ObjectInfoView { is_mut, type_, value: value@ },
                ),
            ),
            !r ==> final(self).machine() == old(self).machine(),
    {
        proof {
            self.env.lemma_wf_view();
            lemma_sound_insert(
                self.env@,
                self.env@.len() - 1,
                name@,
                ObjectInfoView { is_mut, type_, value: value@ },
            );
        }
        self.env.set(name, type_, value, is_mut)
    }

    /// Opens a scope of kind `kind` under the current one.
    fn open_scope(&mut self, kind: ContextType)
        requires
            old(self).wf(),
        ensures
            final(self).wf(),
            final(self).machine() == old(self).machine().with_scopes(
                opened(old(self).machine().scopes, kind),
            ),
    {
        proof {
            lemma_sound_push(
                self.env@,
                ScopeView { kind, bindings: Map::empty(), parent: Some(self.env@.len() - 1) },
            );
        }
        self.env.enter(kind);
    }

    /// Opens a function scope under the global scope.
    fn open_function(&mut self)
        requires
            old(self).wf(),
        ensures
            final(self).wf(),
            final(self).machine() == old(self).machine().with_scopes(
                opened_function(old(self).machine().scopes),
            ),
    {
        proof {
            lemma_sound_push(
                self.env@,
                ScopeView { kind: ContextType::Function, bindings: Map::empty(), parent: Some(0) },
            );
        }
        self.env.enter_function();
    }

    /// Leaves the scope that was opened on the context `before`.
    fn close_scope(&mut self, Ghost(before): Ghost<Seq<ScopeView>>, Ghost(scope): Ghost<ScopeView>)
        requires
            old(self).wf(),
            before.len() >= 1,
            extends(before.push(scope), old(self).scopes()),
        ensures
            final(self).wf(),
            final(self).machine() == old(self).machine().with_scopes(
                closed(old(self).machine().scopes),
            ),
            extends(before, final(self).scopes()),
            same_names(before, final(self).scopes()),
            final(self).scopes() == old(self).scopes().drop_last(),
    {
        proof {
            lemma_sound_drop(self.env@);
            law_scope_exit(before, scope, self.env@);
        }
        self.env.exit();
    }

    /// Runs the statements of `program` in turn, up to the first error. The
    /// error is written to the standard error and the result is nothing;
    /// without an error the result is what the last statement gave.
    ///
    /// The result and the state after the run are an outcome of the
    /// program, as [`program_step`] has them.
    #[verifier::rlimit(50)]
    pub fn eval(&mut self, program: &Program) -> (r: Option<Object>)
        requires
            old(self).wf(),
        ensures
            final(self).follows(old(self)),
            final(self).error() is Some ==> r is None,
            r matches Some(o) ==> outcome_ok(o@),
            program_step(
                old(self).machine(),
                program@,
                0,
                None,
                Step { value: some_value(r), after: final(self).machine() },
            ),
    {
        reveal_with_fuel(program_step, 1);
        let mut output: Option<Object> = None;
        let mut i: usize = 0;
        let ghost start = self.machine();
        while i < program.len()
            invariant
                i <= program@.len(),
                self.follows(old(self)),
                self.error() is Some ==> output is None,
                output matches Some(o) ==> outcome_ok(o@),
                start == old(self).machine(),
                forall|out: Step| #[trigger]
                    program_step(self.machine(), program@, i as nat, some_value(output), out)
                        ==> program_step(start, program@, 0, None, out),
            decreases program@.len() - i,
        {
            reveal_with_fuel(program_step, 1);
            let ghost mid = *self;
            let ghost head = self.machine();
            let ghost last = some_value(output);
            let object = self.eval_stmt(&program[i]);
            proof {
                self.lemma_follows_trans(&mid, old(self));
                assert(reached(Step { value: some_value(object), after: self.machine() }));
            }
            if self.error_handler.has_error() {
                proof {
                    assert(program_step(
                        head,
                        program@,
                        i as nat,
                        last,
                        Step { value: None, after: self.machine() },
                    ));
                }
                match self.error_handler.get_error() {
                    Some(error) => {
                        let line = error.to_string();
                        self.host.write_error(line.as_str());
                    },
                    None => {},
                }
                return None;
            }
            output = object;
            let ghost at = i as nat;
            i = i + 1;
            proof {
                let next = self.machine();
                let value = some_value(output);
                assert forall|out: Step| #[trigger]
                    program_step(next, program@, i as nat, value, out) implies program_step(
                    start,
                    program@,
                    0,
                    None,
                    out,
                ) by {
                    assert(program_step(next, program@, at + 1, value, out));
                    assert(program_step(head, program@, at, last, out));
                }
            }
        }
        proof {
            assert(program_step(
                self.machine(),
                program@,
                i as nat,
                some_value(output),
                Step { value: some_value(output), after: self.machine() },
            ));
        }
        output
    }

    /// Runs one statement. The result and the state after it are an
    /// outcome of the statement, as [`stmt_step`] has them.
    ///
    /// But for a declaration and a function definition, the evaluator
    /// rests afterwards: the scopes that were open are open again, and each
    /// declares the names that it declared. So what an `if`, a loop or a
    /// call declared is gone with its scope ([`Runtime::law_names_rest`]).
    /// A `return` outside any function records the name error with the
    /// message of [`return_outside_error`].
    #[verifier::rlimit(50)]
    pub fn eval_stmt(&mut self, stmt: &Stmt) -> (r: Option<Object>)
        requires
            old(self).wf(),
        ensures
            final(self).follows(old(self)),
            final(self).error() is Some ==> r is None,
            r matches Some(o) ==> outcome_ok(o@),
            stmt_step(
                old(self).machine(),
                *stmt,
                Step { value: some_value(r), after: final(self).machine() },
            ),
            !(stmt is Let) && !(stmt is Func) ==> final(self).rests(old(self)),
            old(self).machine().can_spend() && stmt is Return && !within_from(
                old(self).scopes(),
                old(self).scopes().len() - 1,
                ContextType::Function,
            ) ==> final(self).error() == Some(return_outside_error()),
        decreases old(self).budget(), 0nat,
    {
        reveal_with_fuel(stmt_step, 1);
        reveal_with_fuel(let_step, 1);
        reveal_with_fuel(return_step, 1);
        reveal_with_fuel(expr_step, 1);
        reveal_with_fuel(if_step, 1);
        reveal_with_fuel(for_step, 1);
        if !self.spend() {
            return None;
        }
        let ghost mid = *self;
        let r = match stmt {
            Stmt::Let(Identifier(name), type_, expr) => {
                eval_let_stmt(self, name, type_, expr);
                None
            },
            Stmt::Func(Identifier(name), params, body, ret_type) => {
                eval_func_def(self, name, params, body, ret_type);
                None
            },
            Stmt::Return(expr) => self.eval_return(expr),
            Stmt::Expr(expr) => self.eval_expr(expr),
            Stmt::If { condition, consequence, alternative } => self.eval_if_stmt(
                condition,
                consequence,
                alternative,
            ),
            Stmt::ForLoop { cursor, iterable, block } => self.eval_forloop_stmt(
                cursor,
                iterable,
                block,
            ),
        };
        proof {
            self.lemma_follows_trans(&mid, old(self));
        }
        r
    }

    /// Runs a `for` statement: the iterable must be a range. Afterwards
    /// the evaluator rests: the scope of the loop is closed, and the
    /// cursor and what the body declared are gone. With an error held,
    /// nothing is done.
    pub fn eval_forloop_stmt(&mut self, cursor: &String, iterable: &Expr, block: &BlockStmt) -> (r:
        Option<Object>)
        requires
            old(self).wf(),
        ensures
            final(self).rests(old(self)),
            final(self).error() is Some ==> r is None,
            r matches Some(o) ==> outcome_ok(o@),
            old(self).error() is None ==> for_step(
                old(self).machine(),
                cursor@,
                *iterable,
                block@,
                Step { value: some_value(r), after: final(self).machine() },
            ),
        decreases old(self).budget(), 3nat,
    {
        if self.has_error() {
            return None;
        }
        reveal_with_fuel(for_step, 1);
        reveal_with_fuel(expr_step, 1);
        reveal_with_fuel(loop_step, 1);
        let evaluated = self.eval_expr(iterable);
        proof {
            assert(reached(Step { value: some_value(evaluated), after: self.machine() }));
        }
        let iterable_object = match evaluated {
            Some(object) => object,
            None => return None,
        };
        let ghost mid = *self;
        let r = match iterable_object {
            Object::Range { start, end, step } => self.eval_range_forloop(
                cursor,
                start,
                end,
                step,
                block,
            ),
            _ => self.raise(
                ErrorKind::TypeError,
                owned("for loop works only with range (for now)"),
            ),
        };
        proof {
            self.lemma_follows_trans(&mid, old(self));
        }
        r
    }

    /// The integer that the cursor of a loop holds, if it is a mutable
    /// integer variable.
    fn read_cursor(&self, cursor: &String) -> (r: Option<i64>)
        requires
            self.wf(),
        ensures
            r == cursor_value(self.machine().scopes, cursor@),
    {
        match self.env.resolve(cursor.as_str()) {
            Some(info) => {
                if !info.is_mut || !info.type_.same(&Type::Int) {
                    return None;
                }
                match info.value {
                    Object::Int(val) => Some(val),
                    _ => None,
                }
            },
            None => None,
        }
    }

    /// Gives the variable `name` the value `value`.
    fn store(&mut self, name: &String, value: Object)
        requires
            old(self).wf(),
            lookup(old(self).env@, name@) matches Some((_, info)) ==> (ObjectInfoView {
                value: value@,
                ..info
            }).wf(),
        ensures
            final(self).rests(old(self)),
            final(self).machine() == old(self).machine().with_scopes(
                stored(old(self).machine().scopes, name@, value@),
            ),
    {
        proof {
            self.env.lemma_wf_view();
            match lookup(self.env@, name@) {
                Some((k, info)) => {
                    crate::context::law_nearest_scope(self.env@, self.env@.len() - 1, name@);
                    lemma_sound_insert(
                        self.env@,
                        k,
                        name@,
                        ObjectInfoView { value: value@, ..info },
                    );
                },
                None => {},
            }
        }
        self.env.mutate(name.clone(), value);
    }

    /// Runs the body of a loop over a range: in a new loop scope the cursor
    /// starts at `start`; while it is below `end`, the body runs and `step`
    /// is added to the cursor. Afterwards the evaluator rests. With an
    /// error held, nothing is done.
    #[verifier::rlimit(50)]
    pub fn eval_range_forloop(
        &mut self,
        cursor: &String,
        start: i64,
        end: i64,
        step: i64,
        block: &BlockStmt,
    ) -> (r: Option<Object>)
        requires
            old(self).wf(),
        ensures
            final(self).rests(old(self)),
            final(self).error() is Some ==> r is None,
            r matches Some(o) ==> outcome_ok(o@),
            old(self).error() is None ==> loop_step(
                old(self).machine(),
                cursor@,
                start,
                end,
                step,
                block@,
                Step { value: some_value(r), after: final(self).machine() },
            ),
        decreases old(self).budget(), 2nat,
    {
        if self.has_error() {
            return None;
        }
        reveal_with_fuel(rounds_step, 1);
        reveal_with_fuel(block_step, 1);
        reveal_with_fuel(loop_step, 1);
        let ghost before = self.env@;
        let ghost scope = ScopeView {
            kind: ContextType::Loop,
            bindings: Map::empty(),
            parent: Some(before.len() - 1),
        };
        proof {
            self.env.lemma_wf_view();
        }
        let ghost inside = self.machine().with_scopes(
            declared(
                opened(self.machine().scopes, ContextType::Loop),
                cursor@,
                variable(ObjectView::Int(start), Type::Int),
            ),
        );
        self.open_scope(ContextType::Loop);
        let declared_cursor = self.declare(cursor.clone(), Type::Int, Object::Int(start), true);
        assert(declared_cursor);
        assert(self.machine() == inside);
        loop
            invariant
                self.wf(),
                before.len() >= 1,
                before == old(self).env@,
                inside == old(self).machine().with_scopes(
                    declared(
                        opened(old(self).machine().scopes, ContextType::Loop),
                        cursor@,
                        variable(ObjectView::Int(start), Type::Int),
                    ),
                ),
                extends(before.push(scope), self.env@),
                self.fuel <= old(self).fuel,
                old(self).error() is None,
                forall|b: Step| #[trigger]
                    rounds_step(self.machine(), cursor@, end, step, block@, b) ==> rounds_step(
                        inside,
                        cursor@,
                        end,
                        step,
                        block@,
                        b,
                    ),
            decreases self.fuel,
        {
            reveal_with_fuel(rounds_step, 1);
            reveal_with_fuel(block_step, 1);
            reveal_with_fuel(loop_step, 1);
            let ghost head = self.machine();
            let current = match self.read_cursor(cursor) {
                Some(val) => val,
                None => {
                    proof {
                        assert(rounds_step(head, cursor@, end, step, block@, head.stop()));
                        assert(reached(head.stop()));
                    }
                    self.close_scope(Ghost(before), Ghost(scope));
                    return None;
                },
            };
            if !(current < end) {
                proof {
                    assert(rounds_step(head, cursor@, end, step, block@, head.stop()));
                        assert(reached(head.stop()));
                }
                self.close_scope(Ghost(before), Ghost(scope));
                return None;
            }
            let ghost mid = *self;
            if !self.spend() {
                proof {
                    assert(rounds_step(head, cursor@, end, step, block@, head.spend().stop()));
                        assert(reached(head.spend().stop()));
                }
                self.close_scope(Ghost(before), Ghost(scope));
                return None;
            }
            let evaluated_block = self.eval_block_stmt(block);
            proof {
                lemma_extends_trans(before.push(scope), mid.env@, self.env@);
            }
            let ghost taken = Step { value: some_value(evaluated_block), after: self.machine() };
            proof {
                assert(reached(taken));
            }
            if self.error_handler.has_error() {
                proof {
                    assert(rounds_step(head, cursor@, end, step, block@, taken.after.stop()));
                        assert(reached(taken.after.stop()));
                }
                self.close_scope(Ghost(before), Ghost(scope));
                return None;
            }
            match evaluated_block {
                Some(Object::RetVal(val)) => {
                    let r = Object::RetVal(val);
                    proof {
                        assert(rounds_step(
                            head,
                            cursor@,
                            end,
                            step,
                            block@,
                            Step { value: Some(r@), after: self.machine() },
                        ));
                        assert(reached(Step { value: Some(r@), after: self.machine() }));
                    }
                    self.close_scope(Ghost(before), Ghost(scope));
                    return Some(r);
                },
                _ => {},
            }
            let now = match self.read_cursor(cursor) {
                Some(val) => val,
                None => {
                    proof {
                        assert(rounds_step(head, cursor@, end, step, block@, taken.after.stop()));
                        assert(reached(taken.after.stop()));
                    }
                    self.close_scope(Ghost(before), Ghost(scope));
                    return None;
                },
            };
            let ghost mid2 = *self;
            self.store(cursor, Object::Int(now.wrapping_add(step)));
            proof {
                lemma_extends_trans(before.push(scope), mid2.env@, self.env@);
                let next = self.machine();
                assert forall|b: Step| #[trigger]
                    rounds_step(next, cursor@, end, step, block@, b) implies rounds_step(
                    inside,
                    cursor@,
                    end,
                    step,
                    block@,
                    b,
                ) by {
                    assert(rounds_step(head, cursor@, end, step, block@, b));
                        assert(reached(b));
                }
            }
        }
    }

    /// Runs an `if` statement: in a new scope, the consequence where the
    /// condition holds, else the alternative where there is one.
    /// Afterwards the evaluator rests, whichever branch ran: the scope is
    /// closed, and what the branch declared is gone. With an error held,
    /// nothing is done.
    #[verifier::rlimit(50)]
    pub fn eval_if_stmt(
        &mut self,
        condition: &Expr,
        consequence: &BlockStmt,
        alternative: &Option<BlockStmt>,
    ) -> (r: Option<Object>)
        requires
            old(self).wf(),
        ensures
            final(self).rests(old(self)),
            final(self).error() is Some ==> r is None,
            r matches Some(o) ==> outcome_ok(o@),
            old(self).error() is None ==> if_step(
                old(self).machine(),
                *condition,
                consequence@,
                *alternative,
                Step { value: some_value(r), after: final(self).machine() },
            ),
        decreases old(self).budget(), 2nat,
    {
        if self.has_error() {
            return None;
        }
        reveal_with_fuel(if_step, 1);
        reveal_with_fuel(branch_step, 1);
        reveal_with_fuel(expr_step, 1);
        reveal_with_fuel(block_step, 1);
        let evaluated = self.eval_expr(condition);
        proof {
            assert(reached(Step { value: some_value(evaluated), after: self.machine() }));
        }
        let evaluated_cond = match evaluated {
            Some(object) => object,
            None => return None,
        };
        let ghost before = self.env@;
        let ghost scope = ScopeView {
            kind: ContextType::IfElse,
            bindings: Map::empty(),
            parent: Some(before.len() - 1),
        };
        proof {
            self.env.lemma_wf_view();
        }
        self.open_scope(ContextType::IfElse);
        let r = if is_truthy(&evaluated_cond) {
            self.eval_block_stmt(consequence)
        } else {
            match alternative {
                Some(block) => self.eval_block_stmt(block),
                None => None,
            }
        };
        proof {
            assert(reached(Step { value: some_value(r), after: self.machine() }));
        }
        self.close_scope(Ghost(before), Ghost(scope));
        proof {
            lemma_extends_trans(old(self).env@, before, self.env@);
        }
        r
    }

    /// Evaluates an expression. The result and the state after it are an
    /// outcome of the expression, as [`expr_step`] has them.
    #[verifier::rlimit(50)]
    pub fn eval_expr(&mut self, expr: &Expr) -> (r: Option<Object>)
        requires
            old(self).wf(),
        ensures
            final(self).rests(old(self)),
            final(self).error() is Some ==> r is None,
            r matches Some(o) ==> value_ok(o@),
            expr_step(
                old(self).machine(),
                *expr,
                Step { value: some_value(r), after: final(self).machine() },
            ),
        decreases old(self).budget(), 0nat,
    {
        reveal_with_fuel(expr_step, 1);
        reveal_with_fuel(literal_step, 1);
        reveal_with_fuel(call_expr_step, 1);
        reveal_with_fuel(infix_step, 1);
        reveal_with_fuel(prefix_step, 1);
        reveal_with_fuel(postfix_step, 1);
        reveal_with_fuel(assign_step, 1);
        reveal_with_fuel(field_access_step, 1);
        if !self.spend() {
            return None;
        }
        let ghost mid = *self;
        let r = match expr {
            Expr::Literal(literal) => self.eval_literal_expr(literal),
            Expr::Identifier(identifier) => self.resolve_identfier(identifier),
            Expr::Call(func, args) => eval_call_expr(self, &**func, args),
            Expr::Infix(lhs, infix, rhs) => self.eval_infix_expr(&**lhs, *infix, &**rhs),
            Expr::Prefix(prefix, expr) => self.eval_prefix_expr(*prefix, &**expr),
            Expr::Postfix(expr, postfix) => self.eval_postfix_expr(&**expr, *postfix),
            Expr::Assign(identifier, expr) => self.eval_assign_expr(identifier, &**expr),
            Expr::FieldAcc(src, target) => eval_field_access(self, &**src, &**target),
        };
        proof {
            self.lemma_follows_trans(&mid, old(self));
        }
        r
    }

    /// Evaluates the arguments of a call, from the left; each is bound with
    /// its own type. The result and the state after it are an end of the
    /// evaluation of the arguments, as [`args_step`] has them.
    #[verifier::rlimit(50)]
    pub fn eval_fn_call_args(&mut self, args: &Vec<Expr>) -> (r: Option<Vec<ObjectInfo>>)
        requires
            old(self).wf(),
        ensures
            final(self).rests(old(self)),
            final(self).error() is Some ==> r is None,
            r matches Some(list) ==> (list@.len() == args@.len() && forall|i: int|
                0 <= i < list@.len() ==> argument_ok((#[trigger] list@[i])@)),
            args_step(
                old(self).machine(),
                args@,
                0,
                Seq::empty(),
                some_infos(r),
                final(self).machine(),
            ),
        decreases old(self).budget(), 1nat,
    {
        reveal_with_fuel(args_step, 1);
        reveal_with_fuel(expr_step, 1);
        let mut checked_args: Vec<ObjectInfo> = Vec::new();
        let mut i: usize = 0;
        let ghost start = self.machine();
        proof {
            assert(infos_view(checked_args@) =~= Seq::<ObjectInfoView>::empty());
        }
        while i < args.len()
            invariant
                i <= args@.len(),
                checked_args@.len() == i,
                self.rests(old(self)),
                forall|k: int| 0 <= k < checked_args@.len() ==> argument_ok((#[trigger] checked_args@[k])@),
                start == old(self).machine(),
                forall|got: Option<Seq<ObjectInfoView>>, after: Machine| #[trigger]
                    args_step(
                        self.machine(),
                        args@,
                        i as nat,
                        infos_view(checked_args@),
                        got,
                        after,
                    ) ==> args_step(start, args@, 0, Seq::empty(), got, after),
            decreases args@.len() - i,
        {
            reveal_with_fuel(args_step, 1);
            reveal_with_fuel(expr_step, 1);
            let ghost mid = *self;
            let ghost head = self.machine();
            let ghost acc = infos_view(checked_args@);
            let evaluated = self.eval_expr(&args[i]);
            proof {
                self.lemma_follows_trans(&mid, old(self));
            }
            let ghost taken = Step { value: some_value(evaluated), after: self.machine() };
            let arg = match evaluated {
                Some(object) => ObjectInfo { is_mut: true, type_: object.ask_type(), value: object },
                None => {
                    proof {
                        assert(reached(taken));
                        assert(args_step(head, args@, i as nat, acc, None, self.machine()));
                    }
                    return None;
                },
            };
            checked_args.push(arg);
            let ghost at = i as nat;
            i = i + 1;
            proof {
                assert(infos_view(checked_args@) =~= acc.push(argument(arg.value@)));
                let next = self.machine();
                let grown = infos_view(checked_args@);
                assert forall|got: Option<Seq<ObjectInfoView>>, after: Machine| #[trigger]
                    args_step(next, args@, i as nat, grown, got, after) implies args_step(
                    start,
                    args@,
                    0,
                    Seq::empty(),
                    got,
                    after,
                ) by {
                    assert(reached(taken));
                    assert(args_step(
                        next,
                        args@,
                        at + 1,
                        acc.push(argument(arg.value@)),
                        got,
                        after,
                    ));
                    assert(args_step(head, args@, at, acc, got, after));
                }
            }
        }
        proof {
            assert(args_step(
                self.machine(),
                args@,
                i as nat,
                infos_view(checked_args@),
                if self.machine().error is Some {
                    None
                } else {
                    Some(infos_view(checked_args@))
                },
                self.machine(),
            ));
        }
        if self.error_handler.has_error() {
            return None;
        }
        Some(checked_args)
    }

    /// Evaluates a postfix expression. The operand keeps its value.
    fn eval_postfix_expr(&mut self, expr: &Expr, postfix: Postfix) -> (r: Option<Object>)
        requires
            old(self).wf(),
            old(self).error() is None,
        ensures
            final(self).rests(old(self)),
            final(self).error() is Some ==> r is None,
            r matches Some(o) ==> value_ok(o@),
            postfix_step(
                old(self).machine(),
                *expr,
                postfix,
                Step { value: some_value(r), after: final(self).machine() },
            ),
        decreases old(self).budget(), 1nat,
    {
        reveal_with_fuel(postfix_step, 1);
        reveal_with_fuel(expr_step, 1);
        let evaluated = self.eval_expr(expr);
        proof {
            assert(reached(Step { value: some_value(evaluated), after: self.machine() }));
        }
        let evaluated_expr = match evaluated {
            Some(object) => object,
            None => return None,
        };
        let ghost mid = *self;
        let r = match eval_postfix(&evaluated_expr, postfix) {
            Ok(value) => Some(value),
            Err(error) => self.fail(error),
        };
        proof {
            self.lemma_follows_trans(&mid, old(self));
        }
        r
    }

    /// Evaluates a prefix expression.
    fn eval_prefix_expr(&mut self, prefix: Prefix, expr: &Expr) -> (r: Option<Object>)
        requires
            old(self).wf(),
            old(self).error() is None,
        ensures
            final(self).rests(old(self)),
            final(self).error() is Some ==> r is None,
            r matches Some(o) ==> value_ok(o@),
            prefix_step(
                old(self).machine(),
                prefix,
                *expr,
                Step { value: some_value(r), after: final(self).machine() },
            ),
        decreases old(self).budget(), 1nat,
    {
        reveal_with_fuel(prefix_step, 1);
        reveal_with_fuel(expr_step, 1);
        let evaluated = self.eval_expr(expr);
        proof {
            assert(reached(Step { value: some_value(evaluated), after: self.machine() }));
        }
        let evaluated_expr = match evaluated {
            Some(object) => object,
            None => return None,
        };
        let ghost mid = *self;
        let r = match eval_prefix(prefix, &evaluated_expr) {
            Ok(value) => Some(value),
            Err(error) => self.fail(error),
        };
        proof {
            self.lemma_follows_trans(&mid, old(self));
        }
        r
    }

    /// Runs a `return` statement: inside a function, the value of the
    /// expression, or null without one, on its way out; outside of any
    /// function the error of [`return_outside_error`], and the expression
    /// is not evaluated. With an error held, nothing is done.
    pub fn eval_return(&mut self, expr: &Option<Expr>) -> (r: Option<Object>)
        requires
            old(self).wf(),
        ensures
            final(self).rests(old(self)),
            final(self).error() is Some ==> r is None,
            r matches Some(o) ==> (outcome_ok(o@) && o@ is RetVal),
            old(self).error() is None ==> return_step(
                old(self).machine(),
                *expr,
                Step { value: some_value(r), after: final(self).machine() },
            ),
            old(self).error() is None && !within_from(
                old(self).scopes(),
                old(self).scopes().len() - 1,
                ContextType::Function,
            ) ==> final(self).error() == Some(return_outside_error()),
        decreases old(self).budget(), 1nat,
    {
        if self.has_error() {
            return None;
        }
        reveal_with_fuel(return_step, 1);
        reveal_with_fuel(expr_step, 1);
        if !self.env.in_context_type(ContextType::Function) {
            return self.raise(ErrorKind::NameError, owned("'return' outside of function"));
        }
        match expr {
            None => {
                let r = Object::RetVal(Box::new(Object::Null));
                assert(Object::Null@ == ObjectView::Null);
                assert(r@ == ObjectView::RetVal(Box::new(ObjectView::Null)));
                assert(ObjectView::Null.wf());
                assert(outcome_ok(r@));
                Some(r)
            },
            Some(expr) => {
                let evaluated = self.eval_expr(expr);
                proof {
                    assert(reached(Step { value: some_value(evaluated), after: self.machine() }));
                }
                match evaluated {
                    Some(object) => {
                        let r = Object::RetVal(Box::new(object));
                        assert(r@ == ObjectView::RetVal(Box::new(object@)));
                        assert(outcome_ok(r@));
                        Some(r)
                    },
                    None => None,
                }
            },
        }
    }

    /// Evaluates an assignment: the name must resolve to a mutable binding,
    /// and the value must be of the declared type. The assignment itself
    /// has no value.
    #[verifier::rlimit(50)]
    fn eval_assign_expr(&mut self, identifier: &Identifier, expr: &Expr) -> (r: Option<Object>)
        requires
            old(self).wf(),
            old(self).error() is None,
        ensures
            final(self).rests(old(self)),
            r is None,
            assign_step(
                old(self).machine(),
                identifier.0@,
                *expr,
                Step { value: some_value(r), after: final(self).machine() },
            ),
        decreases old(self).budget(), 1nat,
    {
        reveal_with_fuel(assign_step, 1);
        reveal_with_fuel(expr_step, 1);
        let Identifier(name) = identifier;
        let old_value = match self.env.resolve(name.as_str()) {
            Some(object) => object,
            None => {
                let mut msg = join("'", name.as_str());
                msg.append("' is not declared");
                return self.raise(ErrorKind::NameError, msg);
            },
        };
        if !old_value.is_mut {
            let mut msg = join("'", name.as_str());
            msg.append("' is not assignable");
            return self.raise(ErrorKind::NameError, msg);
        }
        let evaluated = self.eval_expr(expr);
        proof {
            assert(reached(Step { value: some_value(evaluated), after: self.machine() }));
        }
        let new_value = match evaluated {
            Some(value) => value,
            None => return None,
        };
        let ghost mid = *self;
        let target = match self.env.resolve(name.as_str()) {
            Some(object) => object,
            None => {
                return None;
            },
        };
        if target.type_.same(&Type::Array(None)) {
            return None;
        }
        match assign_value(name, &target.type_, new_value) {
            Ok(value) => {
                self.store(name, value);
            },
            Err(error) => {
                self.fail(error);
            },
        }
        proof {
            self.lemma_follows_trans(&mid, old(self));
        }
        None
    }

    /// Runs the statements of a block in turn, up to the first error or the
    /// first value on its way out of a function, which is the result;
    /// without either the result is null. The result and the state after it
    /// are an outcome of the block, as [`block_step`] has them.
    #[verifier::rlimit(50)]
    pub fn eval_block_stmt(&mut self, block: &BlockStmt) -> (r: Option<Object>)
        requires
            old(self).wf(),
        ensures
            final(self).follows(old(self)),
            final(self).error() is Some ==> r is None,
            r matches Some(o) ==> outcome_ok(o@),
            block_step(
                old(self).machine(),
                block@,
                0,
                Step { value: some_value(r), after: final(self).machine() },
            ),
        decreases old(self).budget(), 1nat,
    {
        reveal_with_fuel(block_step, 1);
        reveal_with_fuel(stmt_step, 1);
        let mut i: usize = 0;
        let ghost start = self.machine();
        while i < block.len()
            invariant
                i <= block@.len(),
                self.follows(old(self)),
                start == old(self).machine(),
                forall|out: Step| #[trigger]
                    block_step(self.machine(), block@, i as nat, out) ==> block_step(
                        start,
                        block@,
                        0,
                        out,
                    ),
            decreases block@.len() - i,
        {
            reveal_with_fuel(block_step, 1);
            reveal_with_fuel(stmt_step, 1);
            let ghost mid = *self;
            let ghost head = self.machine();
            let outcome = self.eval_stmt(&block[i]);
            proof {
                self.lemma_follows_trans(&mid, old(self));
            }
            let ghost taken = Step { value: some_value(outcome), after: self.machine() };
            match outcome {
                Some(Object::RetVal(object)) => {
                    let r = Object::RetVal(object);
                    proof {
                        assert(reached(taken));
                        assert(block_step(
                            head,
                            block@,
                            i as nat,
                            Step { value: Some(r@), after: self.machine() },
                        ));
                    }
                    return Some(r);
                },
                _ => {},
            }
            if self.error_handler.has_error() {
                proof {
                    assert(reached(taken));
                    assert(block_step(
                        head,
                        block@,
                        i as nat,
                        Step { value: None, after: self.machine() },
                    ));
                }
                return None;
            }
            let ghost at = i as nat;
            i = i + 1;
            proof {
                let next = self.machine();
                assert forall|out: Step| #[trigger]
                    block_step(next, block@, i as nat, out) implies block_step(
                    start,
                    block@,
                    0,
                    out,
                ) by {
                    assert(reached(taken));
                    assert(block_step(next, block@, at + 1, out));
                    assert(block_step(head, block@, at, out));
                }
            }
        }
        proof {
            assert(block_step(
                self.machine(),
                block@,
                i as nat,
                if self.machine().error is Some {
                    self.machine().stop()
                } else {
                    self.machine().give(ObjectView::Null)
                },
            ));
        }
        if self.error_handler.has_error() {
            return None;
        }
        Some(Object::Null)
    }

    /// Evaluates an infix expression: both operands, from the left, then
    /// the operator.
    #[verifier::rlimit(50)]
    fn eval_infix_expr(&mut self, lhs: &Expr, infix: Infix, rhs: &Expr) -> (r: Option<Object>)
        requires
            old(self).wf(),
            old(self).error() is None,
        ensures
            final(self).rests(old(self)),
            final(self).error() is Some ==> r is None,
            r matches Some(o) ==> value_ok(o@),
            infix_step(
                old(self).machine(),
                *lhs,
                infix,
                *rhs,
                Step { value: some_value(r), after: final(self).machine() },
            ),
        decreases old(self).budget(), 1nat,
    {
        reveal_with_fuel(infix_step, 1);
        reveal_with_fuel(expr_step, 1);
        let lhs = self.eval_expr(lhs);
        let ghost mid = *self;
        let ghost left = Step { value: some_value(lhs), after: self.machine() };
        let rhs = self.eval_expr(rhs);
        proof {
            self.lemma_follows_trans(&mid, old(self));
            assert(reached(left));
            assert(reached(Step { value: some_value(rhs), after: self.machine() }));
        }
        let (lhs, rhs) = match (lhs, rhs) {
            (Some(lhs), Some(rhs)) => (lhs, rhs),
            _ => return None,
        };
        if self.error_handler.has_error() {
            return None;
        }
        let ghost mid2 = *self;
        let r = match eval_infix(&self.host, &lhs, infix, &rhs) {
            Ok(value) => Some(value),
            Err(error) => self.fail(error),
        };
        proof {
            self.lemma_follows_trans(&mid2, old(self));
        }
        r
    }

    /// Evaluates a literal.
    fn eval_literal_expr(&mut self, literal: &Literal) -> (r: Option<Object>)
        requires
            old(self).wf(),
            old(self).error() is None,
        ensures
            final(self).rests(old(self)),
            final(self).error() is Some ==> r is None,
            r matches Some(o) ==> value_ok(o@),
            literal_step(
                old(self).machine(),
                *literal,
                Step { value: some_value(r), after: final(self).machine() },
            ),
        decreases old(self).budget(), 2nat,
    {
        reveal_with_fuel(literal_step, 1);
        reveal_with_fuel(array_step, 1);
        match literal {
            Literal::String(val) => Some(Object::String(val.clone())),
            Literal::Boolean(val) => Some(Object::Boolean(*val)),
            Literal::Null => Some(Object::Null),
            Literal::Int(val) => Some(Object::Int(*val)),
            Literal::Float(text) => Some(Object::Float(self.host.float_from_text(text.as_str()))),
            Literal::Array(val) => self.eval_array_literal(val),
        }
    }

    /// Evaluates an array literal: without elements an empty array of
    /// unknown element type; else the type of the first element is the
    /// element type, and every other element must be of it.
    #[verifier::rlimit(50)]
    fn eval_array_literal(&mut self, array_literal: &Vec<Expr>) -> (r: Option<Object>)
        requires
            old(self).wf(),
            old(self).error() is None,
        ensures
            final(self).rests(old(self)),
            final(self).error() is Some ==> r is None,
            r matches Some(o) ==> (value_ok(o@) && o@ is Array),
            array_step(
                old(self).machine(),
                array_literal@,
                Step { value: some_value(r), after: final(self).machine() },
            ),
        decreases old(self).budget(), 1nat,
    {
        reveal_with_fuel(array_step, 1);
        reveal_with_fuel(items_step, 1);
        reveal_with_fuel(expr_step, 1);
        if array_literal.len() == 0 {
            let inner: Vec<Object> = Vec::new();
            assert(objects_view(inner@) =~= Seq::<ObjectView>::empty());
            return Some(Object::Array { inner, items_type: None });
        }
        let ghost start = self.machine();
        let evaluated = self.eval_expr(&array_literal[0]);
        proof {
            assert(reached(Step { value: some_value(evaluated), after: self.machine() }));
        }
        let first_item = match evaluated {
            Some(object) => object,
            None => return None,
        };
        let first_item_type = first_item.ask_type();
        let mut objects: Vec<Object> = Vec::new();
        let ghost first_view = first_item@;
        objects.push(first_item);
        let mut i: usize = 1;
        proof {
            assert(objects_view(objects@) =~= seq![first_view]);
            let first_step = Step { value: Some(first_view), after: self.machine() };
            let next = self.machine();
            assert(reached(first_step));
            assert forall|out: Step| #[trigger]
                items_step(
                    next,
                    array_literal@,
                    1,
                    first_item_type,
                    seq![first_view],
                    out,
                ) implies array_step(start, array_literal@, out) by {
                assert(reached(first_step));
            }
        }
        while i < array_literal.len()
            invariant
                1 <= i <= array_literal@.len(),
                self.rests(old(self)),
                start == old(self).machine(),
                forall|k: int|
                    0 <= k < objects@.len() ==> value_ok((#[trigger] objects@[k])@)
                        && objects@[k]@.type_of() == first_item_type,
                forall|out: Step| #[trigger]
                    items_step(
                        self.machine(),
                        array_literal@,
                        i as nat,
                        first_item_type,
                        objects_view(objects@),
                        out,
                    ) ==> array_step(start, array_literal@, out),
            decreases array_literal@.len() - i,
        {
            reveal_with_fuel(items_step, 1);
            reveal_with_fuel(expr_step, 1);
            let ghost mid = *self;
            let ghost head = self.machine();
            let ghost acc = objects_view(objects@);
            let evaluated = self.eval_expr(&array_literal[i]);
            proof {
                self.lemma_follows_trans(&mid, old(self));
            }
            let ghost taken = Step { value: some_value(evaluated), after: self.machine() };
            let item = match evaluated {
                Some(obj) => obj,
                None => {
                    proof {
                        assert(reached(taken));
                        assert(items_step(
                            head,
                            array_literal@,
                            i as nat,
                            first_item_type,
                            acc,
                            taken.after.stop(),
                        ));
                    }
                    return None;
                },
            };
            if !first_item_type.same(&item.ask_type()) {
                let ghost mid2 = *self;
                let r = self.raise(ErrorKind::TypeError, owned("Array item's type mismatch"));
                proof {
                    self.lemma_follows_trans(&mid2, old(self));
                    assert(reached(taken));
                    assert(items_step(
                        head,
                        array_literal@,
                        i as nat,
                        first_item_type,
                        acc,
                        taken.after.raise(ErrorKind::TypeError),
                    ));
                }
                return r;
            }
            let ghost item_view = item@;
            objects.push(item);
            let ghost at = i as nat;
            i = i + 1;
            proof {
                assert(objects_view(objects@) =~= acc.push(item_view));
                let next = self.machine();
                let grown = objects_view(objects@);
                assert forall|out: Step| #[trigger]
                    items_step(
                        next,
                        array_literal@,
                        i as nat,
                        first_item_type,
                        grown,
                        out,
                    ) implies array_step(start, array_literal@, out) by {
                    assert(reached(taken));
                    assert(items_step(
                        next,
                        array_literal@,
                        at + 1,
                        first_item_type,
                        acc.push(item_view),
                        out,
                    ));
                    assert(items_step(head, array_literal@, at, first_item_type, acc, out));
                }
            }
        }
        proof {
            assert(items_step(
                self.machine(),
                array_literal@,
                i as nat,
                first_item_type,
                objects_view(objects@),
                if self.machine().error is Some {
                    self.machine().stop()
                } else {
                    self.machine().give(
                        ObjectView::Array {
                            inner: objects_view(objects@),
                            items_type: Some(first_item_type),
                        },
                    )
                },
            ));
        }
        if self.error_handler.has_error() {
            return None;
        }
        let r = Object::Array { inner: objects, items_type: Some(first_item_type) };
        proof {
            let inner = objects_view(objects@);
            assert forall|k: int| 0 <= k < inner.len() implies (#[trigger] inner[k]).wf() && !(inner[k] is RetVal)
                && inner[k].type_of() == first_item_type by {
                assert(inner[k] == objects@[k]@);
            }
        }
        Some(r)
    }

    /// The value of a name: that of the binding it resolves to.
    fn resolve_identfier(&mut self, identifier: &Identifier) -> (r: Option<Object>)
        requires
            old(self).wf(),
            old(self).error() is None,
        ensures
            final(self).rests(old(self)),
            final(self).error() is Some ==> r is None,
            r matches Some(o) ==> value_ok(o@),
            name_step(old(self).machine(), identifier.0@) == (Step {
                value: some_value(r),
                after: final(self).machine(),
            }),
    {
        let Identifier(name) = identifier;
        proof {
            self.env.lemma_wf_view();
            crate::context::law_nearest_scope(self.env@, self.env@.len() - 1, name@);
        }
        match self.env.resolve(name.as_str()) {
            Some(meta_object) => Some(meta_object.value),
            None => {
                let mut msg = join("'", name.as_str());
                msg.append("' is not declared");
                self.raise(ErrorKind::NameError, msg)
            },
        }
    }
}

/// Runs a declaration. A name that the current scope declares already is a
/// name error; what is bound is what
/// [`declared_binding`](crate::binding::declared_binding) says. The state
/// after it is that of an outcome of the declaration, as [`let_step`] has
/// them.
#[verifier::rlimit(50)]
pub fn eval_let_stmt<H: Host>(
    rt: &mut Runtime<H>,
    name: &String,
    expr_type: &Option<ExprType>,
    expr: &Option<Expr>,
)
    requires
        old(rt).wf(),
    ensures
        final(rt).follows(old(rt)),
        old(rt).error() is None ==> let_step(
            old(rt).machine(),
            name@,
            *expr_type,
            *expr,
            Step { value: None, after: final(rt).machine() },
        ),
    decreases old(rt).budget(), 2nat,
{
    reveal_with_fuel(let_step, 1);
    reveal_with_fuel(expr_step, 1);
    if rt.error_handler.has_error() {
        return ;
    }
    if rt.env.has(name.as_str()) {
        let mut msg = join("'", name.as_str());
        msg.append("' already declared");
        rt.raise(ErrorKind::NameError, msg);
        return ;
    }
    let expected_type = match expr_type {
        None => {
            match expr {
                None => {
                    let mut msg = join("Can't infer type of '", name.as_str());
                    msg.append("', define it's type or initialize it");
                    rt.raise(ErrorKind::TypeError, msg);
                },
                Some(expr) => {
                    eval_let_by_type_inference(rt, name, expr);
                },
            }
            return ;
        },
        Some(annotation) => expr_type_to_object_type(annotation),
    };
    match check_declared_type(&expected_type) {
        Ok(()) => {},
        Err(error) => {
            rt.fail(error);
            return ;
        },
    }
    let expr = match expr {
        None => {
            let value = default_value(&expected_type);
            add_to_env(rt, name, value, expected_type);
            return ;
        },
        Some(expr) => expr,
    };
    let evaluated = rt.eval_expr(expr);
    proof {
        assert(reached(Step { value: some_value(evaluated), after: rt.machine() }));
    }
    let evaluated_expr = match evaluated {
        Some(object) => object,
        None => return ,
    };
    let ghost mid = *rt;
    match assign_value(name, &expected_type, evaluated_expr) {
        Ok(value) => {
            add_to_env(rt, name, value, expected_type);
        },
        Err(error) => {
            rt.fail(error);
        },
    }
    proof {
        rt.lemma_follows_trans(&mid, old(rt));
    }
}

/// Runs a declaration without a type: the type is that of the value.
fn eval_let_by_type_inference<H: Host>(rt: &mut Runtime<H>, name: &String, expr: &Expr)
    requires
        old(rt).wf(),
        old(rt).error() is None,
        !old(rt).machine().scopes.last().bindings.contains_key(name@),
    ensures
        final(rt).follows(old(rt)),
        let_step(
            old(rt).machine(),
            name@,
            None,
            Some(*expr),
            Step { value: None, after: final(rt).machine() },
        ),
    decreases old(rt).budget(), 1nat,
{
    reveal_with_fuel(let_step, 1);
    reveal_with_fuel(expr_step, 1);
    let evaluated = rt.eval_expr(expr);
    proof {
        assert(reached(Step { value: some_value(evaluated), after: rt.machine() }));
    }
    let evaluated_expr = match evaluated {
        Some(object) => object,
        None => return ,
    };
    let ghost mid = *rt;
    match bind_inferred(name, evaluated_expr) {
        Ok((value, infered_type)) => {
            add_to_env(rt, name, value, infered_type);
        },
        Err(error) => {
            rt.fail(error);
        },
    }
    proof {
        rt.lemma_follows_trans(&mid, old(rt));
    }
}

/// Binds `name` as a variable in the current scope; a name error where the
/// scope declares it already.
fn add_to_env<H: Host>(rt: &mut Runtime<H>, name: &String, object: Object, type_: Type)
    requires
        old(rt).wf(),
        (ObjectInfoView { is_mut: true, type_, value: object@ }).wf(),
    ensures
        final(rt).follows(old(rt)),
        final(rt).machine() == declare(old(rt).machine(), name@, variable(object@, type_)),
{
    if !rt.declare(name.clone(), type_, object, true) {
        let mut msg = join("'", name.as_str());
        msg.append("' already declared");
        let ghost mid = *rt;
        rt.raise(ErrorKind::NameError, msg);
        proof {
            rt.lemma_follows_trans(&mid, old(rt));
        }
    }
}

/// Runs a function definition: binds the name, as a constant of the
/// current scope, to the function of the parameters, the body and the
/// return type. A name that the scope declares already is a name error.
pub fn eval_func_def<H: Host>(
    rt: &mut Runtime<H>,
    name: &String,
    params: &Vec<(Identifier, ExprType)>,
    body: &Rc<BlockStmt>,
    ret_type: &ExprType,
)
    requires
        old(rt).wf(),
    ensures
        final(rt).follows(old(rt)),
        func_step(old(rt).machine(), name@, params@, **body, *ret_type) == (Step {
            value: None,
            after: final(rt).machine(),
        }),
{
    if rt.env.has(name.as_str()) {
        let mut msg = join("'", name.as_str());
        msg.append("' is already declared");
        rt.raise(ErrorKind::NameError, msg);
        return ;
    }
    let mut list: Vec<FunctionParam> = Vec::new();
    let mut i: usize = 0;
    while i < params.len()
        invariant
            i <= params@.len(),
            list@.len() == i,
            forall|k: int|
                0 <= k < i ==> (#[trigger] list@[k])@ == (ParamView {
                    name: params@[k].0.0@,
                    type_: crate::type_system::annotated_type(params@[k].1),
                }),
        decreases params@.len() - i,
    {
        let param = &params[i];
        list.push(FunctionParam { name: param.0.0.clone(), type_: expr_type_to_object_type(&param.1) });
        i = i + 1;
    }
    let return_type = expr_type_to_object_type(ret_type);
    let function_object = Object::UserDefinedFunction {
        params: list,
        body: share_block(body),
        return_type,
    };
    proof {
        assert(crate::object::params_view(list@) =~= function_of(
            params@,
            **body,
            *ret_type,
        )->UserDefinedFunction_params);
        assert(function_object@ == function_of(params@, **body, *ret_type));
    }
    rt.declare(name.clone(), Type::Function, function_object, false);
}

/// Evaluates a call of a name: the name must resolve to something that
/// can be called. The result and the state after it are an outcome of the
/// call, as [`call_expr_step`] has them.
pub fn eval_call_expr<H: Host>(rt: &mut Runtime<H>, func_ident: &Expr, provided_args: &Vec<Expr>) -> (r:
    Option<Object>)
    requires
        old(rt).wf(),
    ensures
        final(rt).rests(old(rt)),
        final(rt).error() is Some ==> r is None,
        r matches Some(o) ==> value_ok(o@),
        old(rt).error() is None ==> call_expr_step(
            old(rt).machine(),
            *func_ident,
            provided_args@,
            Step { value: some_value(r), after: final(rt).machine() },
        ),
    decreases old(rt).budget(), 4nat,
{
    reveal_with_fuel(call_expr_step, 1);
    reveal_with_fuel(call_step, 1);
    if rt.error_handler.has_error() {
        return None;
    }
    let fn_name = match func_ident {
        Expr::Identifier(Identifier(name)) => name,
        _ => {
            return rt.raise(ErrorKind::NameError, owned("Function name must be an identifier"));
        },
    };
    proof {
        rt.env.lemma_wf_view();
        crate::context::law_nearest_scope(rt.env@, rt.env@.len() - 1, fn_name@);
    }
    let fn_object = match rt.env.resolve(fn_name.as_str()) {
        Some(object) => object.value,
        None => {
            let mut msg = join("'", fn_name.as_str());
            msg.append("' is not declared");
            return rt.raise(ErrorKind::NameError, msg);
        },
    };
    let extra: Vec<ObjectInfo> = Vec::new();
    proof {
        assert(infos_view(extra@) =~= Seq::<ObjectInfoView>::empty());
    }
    eval_call(rt, fn_name, fn_object, provided_args, extra)
}

/// Calls `fn_object` on the arguments `extra_args`, which are evaluated
/// already, followed by the values of `provided_args`.
///
/// A native function gets the arguments as they are. A user-defined
/// function takes as many arguments as it has parameters, each of the type
/// of its parameter; its body runs in a new function scope under the global
/// scope, and what it returns must be of the declared return type. The
/// result and the state after the call are an outcome of the call, as
/// [`call_step`] has them.
#[verifier::rlimit(50)]
pub fn eval_call<H: Host>(
    rt: &mut Runtime<H>,
    fn_name: &String,
    fn_object: Object,
    provided_args: &Vec<Expr>,
    extra_args: Vec<ObjectInfo>,
) -> (r: Option<Object>)
    requires
        old(rt).wf(),
        forall|i: int| 0 <= i < extra_args@.len() ==> argument_ok((#[trigger] extra_args@[i])@),
    ensures
        final(rt).rests(old(rt)),
        final(rt).error() is Some ==> r is None,
        r matches Some(o) ==> value_ok(o@),
        old(rt).error() is None ==> call_step(old(rt).machine(),
                fn_object@,
                provided_args@,
                infos_view(extra_args@), Step { value: some_value(r), after: final(rt).machine() }),
    decreases old(rt).budget(), 3nat,
{
    reveal_with_fuel(call_step, 1);
    reveal_with_fuel(args_step, 1);
    reveal_with_fuel(applied_step, 1);
    reveal_with_fuel(function_step, 1);
    let mut checked_args = extra_args;
    let given = rt.eval_fn_call_args(provided_args);
    proof {
        assert(reached_with(some_infos(given), rt.machine()));
    }
    let mut evaluated = match given {
        Some(args) => args,
        None => return None,
    };
    let ghost extra_view = infos_view(checked_args@);
    let ghost evaluated_view = infos_view(evaluated@);
    checked_args.append(&mut evaluated);
    proof {
        assert(infos_view(checked_args@) =~= extra_view + evaluated_view);
    }
    let ghost mid = *rt;
    let r = match fn_object {
        Object::BuiltInFunction(builtin_fn) => {
            let ghost args = infos_view(checked_args@);
            match call_builtin(&mut rt.host, builtin_fn, checked_args) {
                BuiltInFuncReturnValue::Object(object) => {
                    proof {
                        lemma_native_value(builtin_fn, args, object@);
                        assert(native_outcome(builtin_fn, args, ReturnView::Object(object@)));
                    }
                    Some(object)
                },
                BuiltInFuncReturnValue::Error(err) => {
                    proof {
                        assert(native_outcome(builtin_fn, args, ReturnView::Error(err@)));
                    }
                    rt.fail(err)
                },
            }
        },
        Object::UserDefinedFunction { params, body, return_type } => call_function(
            rt,
            fn_name,
            &params,
            &body,
            &return_type,
            checked_args,
        ),
        _ => {
            let mut msg = join("'", fn_name.as_str());
            msg.append("' is not callable");
            rt.raise(ErrorKind::TypeError, msg)
        },
    };
    proof {
        rt.lemma_follows_trans(&mid, old(rt));
    }
    r
}

/// Calls a user-defined function on arguments that are evaluated already.
#[verifier::rlimit(50)]
fn call_function<H: Host>(
    rt: &mut Runtime<H>,
    fn_name: &String,
    params: &Vec<FunctionParam>,
    body: &Rc<BlockStmt>,
    expected_ret_type: &Type,
    checked_args: Vec<ObjectInfo>,
) -> (r: Option<Object>)
    requires
        old(rt).wf(),
        old(rt).error() is None,
        forall|i: int| 0 <= i < checked_args@.len() ==> argument_ok((#[trigger] checked_args@[i])@),
    ensures
        final(rt).rests(old(rt)),
        final(rt).error() is Some ==> r is None,
        r matches Some(o) ==> value_ok(o@),
        function_step(old(rt).machine(),
                crate::object::params_view(params@),
                (**body)@,
                *expected_ret_type,
                infos_view(checked_args@), Step { value: some_value(r), after: final(rt).machine() }),
    decreases old(rt).budget(), 2nat,
{
    reveal_with_fuel(function_step, 1);
    reveal_with_fuel(block_step, 1);
    if params.len() != checked_args.len() {
        let mut msg = join("Function '", fn_name.as_str());
        msg.append("' expecteds ");
        msg.append(crate::text::int_to_string(crate::flstdlib::length_to_int(params.len())).as_str());
        msg.append(" args but provided ");
        msg.append(
            crate::text::int_to_string(crate::flstdlib::length_to_int(checked_args.len())).as_str(),
        );
        return rt.raise(ErrorKind::TypeError, msg);
    }
    let ghost before = rt.env@;
    let ghost scope = ScopeView {
        kind: ContextType::Function,
        bindings: Map::empty(),
        parent: Some(0),
    };
    let ghost pv = crate::object::params_view(params@);
    let ghost av = infos_view(checked_args@);
    proof {
        rt.env.lemma_wf_view();
    }
    rt.open_function();
    let mut i: usize = 0;
    while i < params.len()
        invariant
            i <= params@.len(),
            params@.len() == checked_args@.len(),
            rt.wf(),
            before.len() >= 1,
            before == old(rt).env@,
            pv == crate::object::params_view(params@),
            av == infos_view(checked_args@),
            extends(before.push(scope), rt.env@),
            rt.env@.drop_last() == before,
            rt.fuel == old(rt).fuel,
            rt.error() is None,
            old(rt).error() is None,
            forall|k: int| 0 <= k < checked_args@.len() ==> argument_ok((#[trigger] checked_args@[k])@),
            bind_params(opened_function(before), pv, av, 0) == bind_params(rt.env@, pv, av, i as nat),
        decreases params@.len() - i,
    {
        reveal_with_fuel(function_step, 1);
        let param = &params[i];
        let arg = &checked_args[i];
        assert(argument_ok(arg@));
        assert(pv[i as int] == param@);
        assert(av[i as int] == arg@);
        match check_argument(param, arg) {
            Ok(()) => {},
            Err(error) => {
                let ghost mid = *rt;
                rt.fail(error);
                proof {
                    lemma_extends_trans(before.push(scope), mid.env@, rt.env@);
                }
                rt.close_scope(Ghost(before), Ghost(scope));
                return None;
            },
        }
        let ghost mid = *rt;
        let declared_now = rt.declare(param.name.clone(), arg.type_.clone(), arg.value.clone(), true);
        proof {
            lemma_extends_trans(before.push(scope), mid.env@, rt.env@);
        }
        if !declared_now {
            let mut msg = join("Param '", param.name.as_str());
            msg.append("' already declared");
            let ghost mid2 = *rt;
            rt.raise(ErrorKind::NameError, msg);
            proof {
                lemma_extends_trans(before.push(scope), mid2.env@, rt.env@);
            }
            rt.close_scope(Ghost(before), Ghost(scope));
            return None;
        }
        proof {
            assert(rt.env@.drop_last() =~= before);
        }
        i = i + 1;
    }
    let ghost mid = *rt;
    let returned_value = rt.eval_block_stmt(&**body);
    proof {
        lemma_extends_trans(before.push(scope), mid.env@, rt.env@);
        assert(reached(Step { value: some_value(returned_value), after: rt.machine() }));
    }
    rt.close_scope(Ghost(before), Ghost(scope));
    if rt.error_handler.has_error() {
        return None;
    }
    let ghost mid2 = *rt;
    let r = match check_return(fn_name, expected_ret_type, returned_value) {
        Ok(value) => Some(value),
        Err(error) => rt.fail(error),
    };
    proof {
        rt.lemma_follows_trans(&mid2, old(rt));
    }
    r
}

/// Evaluates a field access: the receiver must be a value with fields; the
/// target names one of them, or calls one with the receiver before the
/// arguments. A module is no argument of its own functions. The result
/// and the state after it are an outcome of the access, as
/// [`field_access_step`] has them.
#[verifier::rlimit(50)]
pub fn eval_field_access<H: Host>(rt: &mut Runtime<H>, src: &Expr, target: &Expr) -> (r: Option<
    Object,
>)
    requires
        old(rt).wf(),
    ensures
        final(rt).rests(old(rt)),
        final(rt).error() is Some ==> r is None,
        r matches Some(o) ==> value_ok(o@),
        old(rt).error() is None ==> field_access_step(
            old(rt).machine(),
            *src,
            *target,
            Step { value: some_value(r), after: final(rt).machine() },
        ),
    decreases old(rt).budget(), 5nat,
{
    reveal_with_fuel(field_access_step, 1);
    reveal_with_fuel(expr_step, 1);
    reveal_with_fuel(target_step, 1);
    let evaluated = rt.eval_expr(src);
    proof {
        assert(reached(Step { value: some_value(evaluated), after: rt.machine() }));
    }
    let src = match evaluated {
        Some(object) => object,
        None => return None,
    };
    let ghost mid = *rt;
    let fields = match fields_of(&src) {
        Some(fields) => fields,
        None => {
            let shown = src.ask_type().to_string();
            let r = rt.raise(
                ErrorKind::TypeError,
                join("Field access not impl for type ", shown.as_str()),
            );
            proof {
                rt.lemma_follows_trans(&mid, old(rt));
            }
            return r;
        },
    };
    let mut extra_args: Vec<ObjectInfo> = Vec::new();
    proof {
        assert(infos_view(extra_args@) =~= Seq::<ObjectInfoView>::empty());
    }
    match &src {
        Object::Module(_) => {},
        _ => {
            extra_args.push(ObjectInfo { is_mut: false, type_: src.ask_type(), value: src.clone() });
            proof {
                assert(infos_view(extra_args@) =~= seq![receiver(src@)]);
            }
        },
    }
    proof {
        lemma_fields_ok(src@);
    }
    let r = eval_field(rt, &fields, target, &src, extra_args);
    proof {
        rt.lemma_follows_trans(&mid, old(rt));
    }
    r
}

/// The fields of a well-formed value are well formed and not on their way
/// out of a function.
pub proof fn lemma_fields_ok(object: ObjectView)
    requires
        object.wf(),
    ensures
        crate::flstdlib::fields_of_view(object) matches Some(fields) ==> (forall|i: int|
            0 <= i < fields.len() ==> value_ok((#[trigger] fields[i]).1)),
{
    match crate::flstdlib::fields_of_view(object) {
        Some(fields) => {
            assert forall|i: int| 0 <= i < fields.len() implies value_ok((#[trigger] fields[i]).1) by {
                match object {
                    ObjectView::String(s) => {
                        assert(fields == crate::flstdlib::string_fields(s));
                        if i == 0 {
                        } else {
                            assert(i == 1);
                        }
                    },
                    ObjectView::Int(_) => {
                        assert(i == 0);
                    },
                    ObjectView::Array { .. } => {
                        assert(i == 0);
                    },
                    _ => {},
                }
            }
        },
        None => {},
    }
}

/// A field that is found in a list of fields is one of the list.
pub proof fn lemma_field_of_member(fields: Seq<(Seq<char>, ObjectView)>, name: Seq<char>)
    ensures
        crate::flstdlib::field_of(fields, name) matches Some(o) ==> (exists|i: int|
            0 <= i < fields.len() && (#[trigger] fields[i]).1 == o),
    decreases fields.len(),
{
    if fields.len() > 0 {
        if fields.last().0 == name {
            assert(fields[fields.len() - 1].1 == fields.last().1);
        } else {
            lemma_field_of_member(fields.drop_last(), name);
            match crate::flstdlib::field_of(fields, name) {
                Some(o) => {
                    let i = choose|i: int|
                        0 <= i < fields.drop_last().len() && (#[trigger] fields.drop_last()[i]).1
                            == o;
                    assert(fields[i].1 == o);
                },
                None => {},
            }
        }
    }
}

/// Evaluates the target of a field access on the fields of the receiver.
#[verifier::rlimit(50)]
fn eval_field<H: Host>(
    rt: &mut Runtime<H>,
    fields: &FieldsManager,
    target: &Expr,
    src: &Object,
    extra_args: Vec<ObjectInfo>,
) -> (r: Option<Object>)
    requires
        old(rt).wf(),
        old(rt).error() is None,
        forall|i: int| 0 <= i < extra_args@.len() ==> argument_ok((#[trigger] extra_args@[i])@),
        forall|i: int| 0 <= i < fields@.len() ==> value_ok((#[trigger] fields@[i]).1),
    ensures
        final(rt).rests(old(rt)),
        final(rt).error() is Some ==> r is None,
        r matches Some(o) ==> value_ok(o@),
        target_step(
            old(rt).machine(),
            fields@,
            *target,
            infos_view(extra_args@),
            Step { value: some_value(r), after: final(rt).machine() },
        ),
    decreases old(rt).budget(), 4nat,
{
    reveal_with_fuel(target_step, 1);
    reveal_with_fuel(call_step, 1);
    match target {
        Expr::Call(expr, args) => {
            let fn_name = match &**expr {
                Expr::Identifier(Identifier(name)) => name,
                _ => {
                    return rt.raise(
                        ErrorKind::NameError,
                        owned("Function name must be an identifier"),
                    );
                },
            };
            proof {
                lemma_field_of_member(fields@, fn_name@);
            }
            let fn_object = match fields.access(fn_name.as_str()) {
                Some(object) => object,
                None => {
                    let mut msg = join("No method '", fn_name.as_str());
                    msg.append("' associated with ");
                    msg.append(src.to_string(&rt.host).as_str());
                    return rt.raise(ErrorKind::NameError, msg);
                },
            };
            eval_call(rt, fn_name, fn_object, args, extra_args)
        },
        Expr::Identifier(Identifier(name)) => {
            proof {
                lemma_field_of_member(fields@, name@);
            }
            match fields.access(name.as_str()) {
                Some(field) => Some(field),
                None => {
                    let mut msg = join("No field '", name.as_str());
                    msg.append("' associated with ");
                    msg.append(src.to_string(&rt.host).as_str());
                    rt.raise(ErrorKind::NameError, msg)
                },
            }
        },
        _ => rt.raise(ErrorKind::NameError, owned("Can only access fields or methods")),
    }
}

} // verus!
