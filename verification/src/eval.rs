//! The evaluator.
//!
//! What a form evaluates to is defined by [`eval_spec`], a function of the
//! interpreter's state, the environment, the form and a budget. Every
//! turn of the evaluator's loop hands the budget less one to the
//! evaluations that it starts and to the turn that follows it, and so
//! does every call that a built-in makes back into the evaluator. So
//! evaluation always ends; a form that needs more than it is given fails
//! with a message of its own.
//!
//! [`step_spec`] is one turn of the loop: it either yields the result or
//! names the environment and the form that stand in tail position. The
//! executable [`eval`] runs these turns in a loop, so a tail call costs no
//! host stack.

use crate::builtins::call_native;
use crate::builtins::native_spec;
use crate::builtins::FunContext;
use crate::common::clone_values;
use crate::common::entries_view;
use crate::common::get_wrapped_list;
use crate::common::lemma_list_view;
use crate::common::make_mal_list_from_vec;
use crate::common::make_mal_symbol;
use crate::common::names_view;
use crate::common::push_value;
use crate::common::values_view;
use crate::common::FnClosure;
use crate::common::MapKey;
use crate::common::Symbol;
use crate::env::wrapped_env_type;
use crate::env::Env;
use crate::env::Runtime;
use crate::printer::PrStr;
use crate::text::str_eq;
use std::rc::Rc;
use crate::common::EnvType;
use crate::common::KeyV;
use crate::common::MalData;
use crate::common::Value;
use crate::env::bind_params;
use crate::env::err_no_such_env;
use crate::env::EnvV;
use crate::env::RuntimeV;
use crate::printer::printed;
use vstd::prelude::*;

verus! {

/// Why an evaluation failed.
#[derive(Debug)]
pub enum EvalError {
    General(String),
}

impl View for EvalError {
    type V = Seq<char>;

    open spec fn view(&self) -> Seq<char> {
        match self {
            EvalError::General(msg) => msg@,
        }
    }
}

/// The outcome of an evaluation: the state it leaves, and the value or
/// the message of the error.
pub type Outcome = (RuntimeV, Result<Value, Seq<char>>);

/// What one turn of the evaluator's loop yields.
pub enum StepV {
    /// The result of the evaluation.
    Done(Result<Value, Seq<char>>),
    /// The environment and the form to go on with.
    Next(nat, Value),
}

/// The message for an evaluation that ran out of budget.
pub open spec fn err_fuel() -> Seq<char> {
    "evaluation budget exhausted"@
}

/// The message for a symbol without a binding.
pub open spec fn err_not_found(name: Seq<char>) -> Seq<char> {
    "'"@ + name + "' not found"@
}

/// The message for a call whose head is no callable.
pub open spec fn err_not_a_function() -> Seq<char> {
    "first element is not a function"@
}

/// The message for `unquote` and `splice-unquote` without a form.
pub open spec fn err_unquote() -> Seq<char> {
    "expected form to unquote"@
}

/// The message for `def!` without a name or a value.
pub open spec fn err_def_operands() -> Seq<char> {
    "def! requires a name and a value"@
}

/// The message for `def!` and `defmacro!` with a name that is no symbol.
pub open spec fn err_def_name() -> Seq<char> {
    "def!: name must be a symbol"@
}

/// The message for `defmacro!` without a name or a closure.
pub open spec fn err_defmacro_operands() -> Seq<char> {
    "defmacro! requires a name and a closure"@
}

/// The message for `defmacro!` with a value that is no closure.
pub open spec fn err_closure_expected() -> Seq<char> {
    "closure expected"@
}

/// The message for `let*` without bindings or body.
pub open spec fn err_let_operands() -> Seq<char> {
    "let* requires bindings and a body"@
}

/// The message for `let*` whose bindings are no list or vector.
pub open spec fn err_let_bindings() -> Seq<char> {
    "let* bindings must be a list or a vector"@
}

/// The message for a `let*` binding whose name is no symbol or whose
/// value is missing.
pub open spec fn err_let_binding() -> Seq<char> {
    "error in let* binding"@
}

/// The message for `if` without a condition or a then-branch.
pub open spec fn err_if_operands() -> Seq<char> {
    "if requires a condition and a then-branch"@
}

/// The message for `fn*` without parameters or body.
pub open spec fn err_fn_operands() -> Seq<char> {
    "fn* requires parameters and a body"@
}

/// The message for `fn*` whose parameters are no list or vector.
pub open spec fn err_fn_binds() -> Seq<char> {
    "expected vector for binds"@
}

/// The message for a parameter of `fn*` that is no symbol.
pub open spec fn err_fn_bind() -> Seq<char> {
    "expected symbol for bind"@
}

/// The message for `quote`, `quasiquote` and `macroexpand` without a
/// form.
pub open spec fn err_form_required() -> Seq<char> {
    "form required"@
}

/// The list of a symbol and the forms after it.
pub open spec fn form2(name: Seq<char>, a: Value) -> Value {
    Value::List(seq![Value::Symbol(name), a])
}

/// The list of a symbol and the two forms after it.
pub open spec fn form3(name: Seq<char>, a: Value, b: Value) -> Value {
    Value::List(seq![Value::Symbol(name), a, b])
}

/// Whether a value is a list or vector with an item.
pub open spec fn is_pair_spec(ast: Value) -> bool {
    ast.is_list_like() && ast.items().len() > 0
}

/// Whether a value is the symbol of the given name.
pub open spec fn is_symbol_named_spec(ast: Value, name: Seq<char>) -> bool {
    ast == Value::Symbol(name)
}

/// The form whose evaluation yields `ast` with its unquoted parts
/// evaluated.
pub open spec fn quasiquote_spec(ast: Value) -> Result<Value, Seq<char>>
    decreases ast, 0nat,
{
    if is_pair_spec(ast) {
        quasiquote_from(ast.items(), 0)
    } else {
        Ok(form2("quote"@, ast))
    }
}

/// The quasiquote expansion of the list of the items from index `i` on.
pub open spec fn quasiquote_from(items: Seq<Value>, i: int) -> Result<Value, Seq<char>>
    decreases items, items.len() - i,
{
    if i < 0 || i >= items.len() {
        Ok(form2("quote"@, Value::List(Seq::empty())))
    } else if is_symbol_named_spec(items[i], "unquote"@) {
        if i + 1 < items.len() {
            Ok(items[i + 1])
        } else {
            Err(err_unquote())
        }
    } else if is_pair_spec(items[i]) && is_symbol_named_spec(
        items[i].items()[0],
        "splice-unquote"@,
    ) {
        if items[i].items().len() < 2 {
            Err(err_unquote())
        } else {
            match quasiquote_from(items, i + 1) {
                Ok(rest) => Ok(form3("concat"@, items[i].items()[1], rest)),
                Err(e) => Err(e),
            }
        }
    } else {
        match quasiquote_spec(items[i]) {
            Ok(first) => match quasiquote_from(items, i + 1) {
                Ok(rest) => Ok(form3("cons"@, first, rest)),
                Err(e) => Err(e),
            },
            Err(e) => Err(e),
        }
    }
}

/// The special forms.
pub enum SpecialForm {
    Def,
    DefMacro,
    Let,
    Do,
    If,
    Fn,
    Quote,
    Quasiquote,
    MacroExpand,
}

/// The special form that a head of a list names.
pub open spec fn special_form(head: Value) -> Option<SpecialForm> {
    match head {
        Value::Symbol(name) => if name == "def!"@ {
            Some(SpecialForm::Def)
        } else if name == "defmacro!"@ {
            Some(SpecialForm::DefMacro)
        } else if name == "let*"@ {
            Some(SpecialForm::Let)
        } else if name == "do"@ {
            Some(SpecialForm::Do)
        } else if name == "if"@ {
            Some(SpecialForm::If)
        } else if name == "fn*"@ {
            Some(SpecialForm::Fn)
        } else if name == "quote"@ {
            Some(SpecialForm::Quote)
        } else if name == "quasiquote"@ {
            Some(SpecialForm::Quasiquote)
        } else if name == "macroexpand"@ {
            Some(SpecialForm::MacroExpand)
        } else {
            None
        },
        _ => None,
    }
}

/// The state with a new frame under `outer` that binds the parameters to
/// the arguments, and the new frame's handle.
pub open spec fn enter_frame(rt: RuntimeV, outer: nat, binds: Seq<Seq<char>>, args: Seq<Value>) -> Result<
    (RuntimeV, nat),
    Seq<char>,
> {
    match bind_params(Map::empty(), binds, args, 0) {
        Err(e) => Err(e),
        Ok(data) => if outer < rt.envs.len() {
            Ok((rt.add_env(EnvV { outer: Some(outer), data }), rt.envs.len()))
        } else {
            Err(err_no_such_env())
        },
    }
}

/// Whether a form is a call of a macro: a list whose head is a symbol
/// bound, seen from `env`, to a closure with the macro flag.
pub open spec fn is_macro_call_spec(rt: RuntimeV, env: nat, ast: Value) -> bool {
    ast matches Value::List(items) && items.len() > 0 && (items[0] matches Value::Symbol(name)
        && (rt.get(env, name) matches Some(Value::FnClosure { is_macro, .. }) && is_macro))
}

/// The macro that a macro call names.
pub open spec fn macro_of(rt: RuntimeV, env: nat, ast: Value) -> Value {
    rt.get(env, ast->List_0[0]->Symbol_0)->0
}

/// Expands a form while it is a macro call: the macro is applied to the
/// forms after the head, not evaluated, and the result takes the place of
/// the form.
pub open spec fn macroexpand_spec(rt: RuntimeV, env: nat, ast: Value, fuel: nat) -> Outcome
    decreases fuel, 1nat, 0nat,
{
    if !is_macro_call_spec(rt, env, ast) {
        (rt, Ok(ast))
    } else if fuel == 0 {
        (rt, Err(err_fuel()))
    } else {
        let m = macro_of(rt, env, ast);
        let args = ast->List_0.subrange(1, ast->List_0.len() as int);
        match enter_frame(rt, m->FnClosure_outer_env, m->FnClosure_binds, args) {
            Err(e) => (rt, Err(e)),
            Ok((rt1, frame)) => {
                let (rt2, r) = eval_spec(rt1, frame, *m->FnClosure_body, (fuel - 1) as nat);
                match r {
                    Err(e) => (rt2, Err(e)),
                    Ok(v) => macroexpand_spec(rt2, env, v, (fuel - 1) as nat),
                }
            },
        }
    }
}

/// Evaluates the items from index `i` on, from left to right, after the
/// values `acc`. The first error ends it.
pub open spec fn eval_seq_spec(
    rt: RuntimeV,
    env: nat,
    items: Seq<Value>,
    i: int,
    acc: Seq<Value>,
    fuel: nat,
) -> (RuntimeV, Result<Seq<Value>, Seq<char>>)
    decreases fuel, 1nat, items.len() - i,
{
    if i < 0 || i >= items.len() {
        (rt, Ok(acc))
    } else {
        let (rt1, r) = eval_spec(rt, env, items[i], fuel);
        match r {
            Err(e) => (rt1, Err(e)),
            Ok(v) => eval_seq_spec(rt1, env, items, i + 1, acc.push(v), fuel),
        }
    }
}

/// Evaluates the values of the entries from index `i` on, in order,
/// after the entries `acc`. The keys stay as they are.
pub open spec fn eval_entries_spec(
    rt: RuntimeV,
    env: nat,
    entries: Seq<(KeyV, Value)>,
    i: int,
    acc: Seq<(KeyV, Value)>,
    fuel: nat,
) -> (RuntimeV, Result<Seq<(KeyV, Value)>, Seq<char>>)
    decreases fuel, 1nat, entries.len() - i,
{
    if i < 0 || i >= entries.len() {
        (rt, Ok(acc))
    } else {
        let (rt1, r) = eval_spec(rt, env, entries[i].1, fuel);
        match r {
            Err(e) => (rt1, Err(e)),
            Ok(v) => eval_entries_spec(rt1, env, entries, i + 1, acc.push((entries[i].0, v)), fuel),
        }
    }
}

/// Structural evaluation: a symbol is looked up; the items of a list or
/// vector and the values of a map are evaluated; anything else is its own
/// value.
pub open spec fn eval_ast_spec(rt: RuntimeV, env: nat, ast: Value, fuel: nat) -> Outcome
    decreases fuel, 2nat, 0nat,
{
    match ast {
        Value::Symbol(name) => match rt.get(env, name) {
            Some(v) => (rt, Ok(v)),
            None => (rt, Err(err_not_found(name))),
        },
        Value::List(items) => {
            let (rt1, r) = eval_seq_spec(rt, env, items, 0, Seq::empty(), fuel);
            match r {
                Ok(vals) => (rt1, Ok(Value::List(vals))),
                Err(e) => (rt1, Err(e)),
            }
        },
        Value::Vector(items) => {
            let (rt1, r) = eval_seq_spec(rt, env, items, 0, Seq::empty(), fuel);
            match r {
                Ok(vals) => (rt1, Ok(Value::Vector(vals))),
                Err(e) => (rt1, Err(e)),
            }
        },
        Value::HashMap(entries) => {
            let (rt1, r) = eval_entries_spec(rt, env, entries, 0, Seq::empty(), fuel);
            match r {
                Ok(vals) => (rt1, Ok(Value::HashMap(vals))),
                Err(e) => (rt1, Err(e)),
            }
        },
        _ => (rt, Ok(ast)),
    }
}

/// `(def! sym value)`: evaluates the value, binds the symbol to it in the
/// current frame and yields it.
pub open spec fn eval_def_spec(rt: RuntimeV, env: nat, items: Seq<Value>, fuel: nat) -> Outcome
    decreases fuel, 5nat, 0nat,
{
    if items.len() < 3 {
        (rt, Err(err_def_operands()))
    } else {
        match items[1] {
            Value::Symbol(name) => {
                let (rt1, r) = eval_spec(rt, env, items[2], fuel);
                match r {
                    Err(e) => (rt1, Err(e)),
                    Ok(v) => if env < rt1.envs.len() {
                        (rt1.set(env, name, v), Ok(v))
                    } else {
                        (rt1, Err(err_no_such_env()))
                    },
                }
            },
            _ => (rt, Err(err_def_name())),
        }
    }
}

/// The closure with its macro flag set.
pub open spec fn as_macro(v: Value) -> Value {
    Value::FnClosure {
        outer_env: v->FnClosure_outer_env,
        binds: v->FnClosure_binds,
        body: v->FnClosure_body,
        is_macro: true,
    }
}

/// `(defmacro! sym fn-form)`: evaluates the form, which must yield a
/// closure, and binds the symbol to that closure as a macro.
pub open spec fn eval_defmacro_spec(rt: RuntimeV, env: nat, items: Seq<Value>, fuel: nat) -> Outcome
    decreases fuel, 5nat, 0nat,
{
    if items.len() < 3 {
        (rt, Err(err_defmacro_operands()))
    } else {
        match items[1] {
            Value::Symbol(name) => {
                let (rt1, r) = eval_spec(rt, env, items[2], fuel);
                match r {
                    Err(e) => (rt1, Err(e)),
                    Ok(v) => if !(v is FnClosure) {
                        (rt1, Err(err_closure_expected()))
                    } else if env < rt1.envs.len() {
                        (rt1.set(env, name, as_macro(v)), Ok(as_macro(v)))
                    } else {
                        (rt1, Err(err_no_such_env()))
                    },
                }
            },
            _ => (rt, Err(err_def_name())),
        }
    }
}

/// Evaluates the bindings of a `let*` from index `i` on: each value in
/// the new frame, where the bindings before it are seen, and binds the
/// name to it there. Yields the message of the first error, if any.
pub open spec fn eval_bindings_spec(
    rt: RuntimeV,
    frame: nat,
    bindings: Seq<Value>,
    i: int,
    fuel: nat,
) -> (RuntimeV, Option<Seq<char>>)
    decreases fuel, 1nat, bindings.len() - i,
{
    if i < 0 || i >= bindings.len() {
        (rt, None)
    } else if i + 1 >= bindings.len() {
        (rt, Some(err_let_binding()))
    } else {
        match bindings[i] {
            Value::Symbol(name) => {
                let (rt1, r) = eval_spec(rt, frame, bindings[i + 1], fuel);
                match r {
                    Err(e) => (rt1, Some(e)),
                    Ok(v) => eval_bindings_spec(
                        rt1.set(frame, name, v),
                        frame,
                        bindings,
                        i + 2,
                        fuel,
                    ),
                }
            },
            _ => (rt, Some(err_let_binding())),
        }
    }
}

/// `(let* bindings body)`: a new frame under the current one takes the
/// bindings in order; the body stands in tail position in that frame.
pub open spec fn eval_let_spec(rt: RuntimeV, env: nat, items: Seq<Value>, fuel: nat) -> (
    RuntimeV,
    StepV,
)
    decreases fuel, 5nat, 0nat,
{
    if items.len() < 3 {
        (rt, StepV::Done(Err(err_let_operands())))
    } else if !items[1].is_list_like() {
        (rt, StepV::Done(Err(err_let_bindings())))
    } else if env >= rt.envs.len() {
        (rt, StepV::Done(Err(err_no_such_env())))
    } else {
        let frame = rt.envs.len();
        let rt1 = rt.add_env(EnvV { outer: Some(env), data: Map::empty() });
        let (rt2, failed) = eval_bindings_spec(rt1, frame, items[1].items(), 0, fuel);
        match failed {
            Some(e) => (rt2, StepV::Done(Err(e))),
            None => (rt2, StepV::Next(frame, items[2])),
        }
    }
}

/// `(do e1 .. eN)`: evaluates all forms but the last for their effects;
/// the last stands in tail position. Without forms the value is nil.
pub open spec fn eval_do_spec(rt: RuntimeV, env: nat, items: Seq<Value>, fuel: nat) -> (
    RuntimeV,
    StepV,
)
    decreases fuel, 5nat, 0nat,
{
    if items.len() < 2 {
        (rt, StepV::Done(Ok(Value::Nil)))
    } else {
        let (rt1, r) = eval_seq_spec(
            rt,
            env,
            items.subrange(1, items.len() - 1),
            0,
            Seq::empty(),
            fuel,
        );
        match r {
            Err(e) => (rt1, StepV::Done(Err(e))),
            Ok(_) => (rt1, StepV::Next(env, items.last())),
        }
    }
}

/// `(if cond then else?)`: the branch that the condition selects stands
/// in tail position; without an else-branch a falsy condition gives nil.
pub open spec fn eval_if_spec(rt: RuntimeV, env: nat, items: Seq<Value>, fuel: nat) -> (
    RuntimeV,
    StepV,
)
    decreases fuel, 5nat, 0nat,
{
    if items.len() < 3 {
        (rt, StepV::Done(Err(err_if_operands())))
    } else {
        let (rt1, r) = eval_spec(rt, env, items[1], fuel);
        match r {
            Err(e) => (rt1, StepV::Done(Err(e))),
            Ok(cond) => if cond.is_truthy() {
                (rt1, StepV::Next(env, items[2]))
            } else if items.len() > 3 {
                (rt1, StepV::Next(env, items[3]))
            } else {
                (rt1, StepV::Done(Ok(Value::Nil)))
            },
        }
    }
}

/// Whether every item is a symbol.
pub open spec fn all_symbols(items: Seq<Value>) -> bool {
    forall|i: int| 0 <= i < items.len() ==> (#[trigger] items[i]) is Symbol
}

/// The names of the symbols, in order.
pub open spec fn symbol_names(items: Seq<Value>) -> Seq<Seq<char>> {
    Seq::new(items.len(), |i: int| items[i]->Symbol_0)
}

/// `(fn* params body)`: the closure over the current frame.
pub open spec fn eval_fn_spec(env: nat, items: Seq<Value>) -> Result<Value, Seq<char>> {
    if items.len() < 3 {
        Err(err_fn_operands())
    } else if !items[1].is_list_like() {
        Err(err_fn_binds())
    } else if !all_symbols(items[1].items()) {
        Err(err_fn_bind())
    } else {
        Ok(
            Value::FnClosure {
                outer_env: env,
                binds: symbol_names(items[1].items()),
                body: Box::new(items[2]),
                is_macro: false,
            },
        )
    }
}

/// What the evaluator makes of a built-in's result: an exception value
/// becomes an error that carries the display text of the thrown value.
pub open spec fn surface(rt: RuntimeV, r: Result<Value, Seq<char>>) -> Result<Value, Seq<char>> {
    match r {
        Ok(Value::Exception(thrown)) => Err(printed(rt, *thrown, false)),
        _ => r,
    }
}

/// A call: all items are evaluated from left to right; a built-in at the
/// head is run on the rest, a closure's body stands in tail position in
/// a new frame that binds its parameters to the rest.
pub open spec fn eval_call_spec(rt: RuntimeV, env: nat, items: Seq<Value>, fuel: nat) -> (
    RuntimeV,
    StepV,
)
    decreases fuel, 5nat, 0nat,
{
    let (rt1, r) = eval_seq_spec(rt, env, items, 0, Seq::empty(), fuel);
    match r {
        Err(e) => (rt1, StepV::Done(Err(e))),
        Ok(vals) => if vals.len() == 0 {
            (rt1, StepV::Done(Ok(Value::Nil)))
        } else {
            let args = vals.subrange(1, vals.len() as int);
            match vals[0] {
                Value::Function(_, selector) => {
                    let (rt2, out) = native_spec(rt1, env, selector, args, fuel);
                    (rt2, StepV::Done(surface(rt2, out)))
                },
                Value::FnClosure { outer_env, binds, body, .. } => match enter_frame(
                    rt1,
                    outer_env,
                    binds,
                    args,
                ) {
                    Err(e) => (rt1, StepV::Done(Err(e))),
                    Ok((rt2, frame)) => (rt2, StepV::Next(frame, *body)),
                },
                _ => (rt1, StepV::Done(Err(err_not_a_function()))),
            }
        },
    }
}

/// One turn on a list that is no macro call: the empty list is its own
/// value; a special form is handled by its rule; anything else is a call.
pub open spec fn eval_form_spec(rt: RuntimeV, env: nat, items: Seq<Value>, fuel: nat) -> (
    RuntimeV,
    StepV,
)
    decreases fuel, 6nat, 0nat,
{
    if items.len() == 0 {
        (rt, StepV::Done(Ok(Value::List(items))))
    } else {
        match special_form(items[0]) {
            Some(SpecialForm::Def) => {
                let (rt1, r) = eval_def_spec(rt, env, items, fuel);
                (rt1, StepV::Done(r))
            },
            Some(SpecialForm::DefMacro) => {
                let (rt1, r) = eval_defmacro_spec(rt, env, items, fuel);
                (rt1, StepV::Done(r))
            },
            Some(SpecialForm::Let) => eval_let_spec(rt, env, items, fuel),
            Some(SpecialForm::Do) => eval_do_spec(rt, env, items, fuel),
            Some(SpecialForm::If) => eval_if_spec(rt, env, items, fuel),
            Some(SpecialForm::Fn) => (rt, StepV::Done(eval_fn_spec(env, items))),
            Some(SpecialForm::Quote) => if items.len() < 2 {
                (rt, StepV::Done(Err(err_form_required())))
            } else {
                (rt, StepV::Done(Ok(items[1])))
            },
            Some(SpecialForm::Quasiquote) => if items.len() < 2 {
                (rt, StepV::Done(Err(err_form_required())))
            } else {
                match quasiquote_spec(items[1]) {
                    Ok(form) => (rt, StepV::Next(env, form)),
                    Err(e) => (rt, StepV::Done(Err(e))),
                }
            },
            Some(SpecialForm::MacroExpand) => if items.len() < 2 {
                (rt, StepV::Done(Err(err_form_required())))
            } else {
                let (rt1, r) = macroexpand_spec(rt, env, items[1], fuel);
                (rt1, StepV::Done(r))
            },
            None => eval_call_spec(rt, env, items, fuel),
        }
    }
}

/// One turn of the evaluator's loop: a list is macro-expanded first; if
/// it still is a list it is handled as a form, and anything else is
/// evaluated structurally.
pub open spec fn step_spec(rt: RuntimeV, env: nat, ast: Value, fuel: nat) -> (RuntimeV, StepV)
    decreases fuel, 7nat, 0nat,
{
    if ast is List {
        let (rt1, r) = macroexpand_spec(rt, env, ast, fuel);
        match r {
            Err(e) => (rt1, StepV::Done(Err(e))),
            Ok(form) => match form {
                Value::List(items) => eval_form_spec(rt1, env, items, fuel),
                _ => {
                    let (rt2, r2) = eval_ast_spec(rt1, env, form, fuel);
                    (rt2, StepV::Done(r2))
                },
            },
        }
    } else {
        let (rt1, r) = eval_ast_spec(rt, env, ast, fuel);
        (rt1, StepV::Done(r))
    }
}

/// What a form evaluates to in an environment, within a budget: the state
/// that the evaluation leaves, and the value or the message of the error.
pub open spec fn eval_spec(rt: RuntimeV, env: nat, ast: Value, fuel: nat) -> Outcome
    decreases fuel, 0nat, 0nat,
{
    if fuel == 0 {
        (rt, Err(err_fuel()))
    } else {
        let (rt1, step) = step_spec(rt, env, ast, (fuel - 1) as nat);
        match step {
            StepV::Done(r) => (rt1, r),
            StepV::Next(env1, ast1) => eval_spec(rt1, env1, ast1, (fuel - 1) as nat),
        }
    }
}

/// The model of an evaluation's result.
pub open spec fn eval_result_view(res: Result<MalData, EvalError>) -> Result<Value, Seq<char>> {
    match res {
        Ok(v) => Ok(v@),
        Err(e) => Err(e@),
    }
}

/// What one turn of the evaluator's loop yields.
pub enum Step {
    /// The result of the evaluation.
    Done(Result<MalData, EvalError>),
    /// The environment and the form to go on with.
    Next(EnvType, MalData),
}

impl View for Step {
    type V = StepV;

    open spec fn view(&self) -> StepV {
        match self {
            Step::Done(r) => StepV::Done(eval_result_view(*r)),
            Step::Next(env, ast) => StepV::Next(*env as nat, ast@),
        }
    }
}

impl EvalError {
    /// The error with the given message.
    pub fn from_str(err: &str) -> (res: EvalError)
        ensures
            res@ == err@,
    {
        EvalError::General(err.to_string())
    }

    /// The error with the given message.
    pub fn from_string(err: String) -> (res: EvalError)
        ensures
            res@ == err@,
    {
        EvalError::General(err)
    }

    /// The message of the error.
    pub fn message(&self) -> (res: String)
        ensures
            res@ == self@,
    {
        match self {
            EvalError::General(msg) => msg.clone(),
        }
    }
}

/// The list of a symbol and a form.
fn list2(name: &str, a: MalData) -> (res: MalData)
    ensures
        res@ == form2(name@, a@),
{
    let mut items: Vec<MalData> = Vec::new();
    items.push(make_mal_symbol(name));
    items.push(a);
    let res = make_mal_list_from_vec(items);
    assert(res@->List_0 =~= seq![Value::Symbol(name@), a@]);
    res
}

/// The list of a symbol and two forms.
fn list3(name: &str, a: MalData, b: MalData) -> (res: MalData)
    ensures
        res@ == form3(name@, a@, b@),
{
    let mut items: Vec<MalData> = Vec::new();
    items.push(make_mal_symbol(name));
    items.push(a);
    items.push(b);
    let res = make_mal_list_from_vec(items);
    assert(res@->List_0 =~= seq![Value::Symbol(name@), a@, b@]);
    res
}

/// Whether a value is a list or vector with an item.
pub fn is_pair(ast: &MalData) -> (res: bool)
    ensures
        res == is_pair_spec(ast@),
{
    match get_wrapped_list(ast) {
        Some(list) => list.len() > 0,
        None => false,
    }
}

/// Whether a value is the symbol of the given name.
pub fn is_symbol_named(ast: &MalData, name: &str) -> (res: bool)
    ensures
        res == is_symbol_named_spec(ast@, name@),
{
    match ast {
        MalData::Symbol(sym) => str_eq(sym.as_str(), name),
        _ => false,
    }
}

/// The first item of a list.
pub fn mal_list_head(ast: &MalData) -> (res: Option<&MalData>)
    ensures
        res is Some == (ast@ is List && ast@->List_0.len() > 0),
        res matches Some(head) ==> head@ == ast@->List_0[0],
{
    match ast {
        MalData::List(list) => {
            if list.len() > 0 {
                Some(&list[0])
            } else {
                None
            }
        },
        _ => None,
    }
}

/// The form whose evaluation yields `ast` with its unquoted parts
/// evaluated.
pub fn quasiquote(ast: &MalData) -> (res: Result<MalData, EvalError>)
    ensures
        eval_result_view(res) == quasiquote_spec(ast@),
    decreases ast, ast@.items().len() + 1,
{
    proof {
        lemma_list_view(*ast);
    }
    match ast {
        MalData::List(list) => {
            if list.len() > 0 {
                quasiquote_items(ast, list, 0)
            } else {
                Ok(list2("quote", ast.clone()))
            }
        },
        MalData::Vector(list) => {
            if list.len() > 0 {
                quasiquote_items(ast, list, 0)
            } else {
                Ok(list2("quote", ast.clone()))
            }
        },
        _ => Ok(list2("quote", ast.clone())),
    }
}

/// The quasiquote expansion of the list of the items from index `i` on.
/// `owner` is the value that holds the items.
fn quasiquote_items(owner: &MalData, list: &Rc<Vec<MalData>>, i: usize) -> (res: Result<
    MalData,
    EvalError,
>)
    requires
        *owner == MalData::List(*list) || *owner == MalData::Vector(*list),
        i <= list@.len(),
    ensures
        eval_result_view(res) == quasiquote_from(values_view(list@), i as int),
    decreases owner, list@.len() - i,
{
    if i >= list.len() {
        let empty = crate::common::mal_empty_list();
        return Ok(list2("quote", empty));
    }
    let first = &list[i];
    proof {
        lemma_list_view(*first);
        assert(values_view(list@)[i as int] == first@);
        if *owner == MalData::List(*list) {
            assert(decreases_to!(owner => owner->List_0));
            assert(decreases_to!(owner->List_0 => owner->List_0@));
            assert(decreases_to!(owner->List_0@ => owner->List_0@[i as int]));
        } else {
            assert(decreases_to!(owner => owner->Vector_0));
            assert(decreases_to!(owner->Vector_0 => owner->Vector_0@));
            assert(decreases_to!(owner->Vector_0@ => owner->Vector_0@[i as int]));
        }
    }
    if is_symbol_named(first, "unquote") {
        if i + 1 < list.len() {
            assert(values_view(list@)[i as int + 1] == list@[i as int + 1]@);
            return Ok(list[i + 1].clone());
        } else {
            return Err(EvalError::from_str("expected form to unquote"));
        }
    }
    let splice = match get_wrapped_list(first) {
        Some(inner) => {
            if inner.len() > 0 && is_symbol_named(&inner[0], "splice-unquote") {
                assert(values_view(inner@)[0] == inner@[0]@);
                if inner.len() < 2 {
                    return Err(EvalError::from_str("expected form to unquote"));
                }
                assert(values_view(inner@)[1] == inner@[1]@);
                Some(inner[1].clone())
            } else {
                if inner.len() > 0 {
                    assert(values_view(inner@)[0] == inner@[0]@);
                }
                None
            }
        },
        None => None,
    };
    match splice {
        Some(to_unquote) => {
            match quasiquote_items(owner, list, i + 1) {
                Ok(rest) => Ok(list3("concat", to_unquote, rest)),
                Err(e) => Err(e),
            }
        },
        None => {
            match quasiquote(first) {
                Ok(head) => match quasiquote_items(owner, list, i + 1) {
                    Ok(rest) => Ok(list3("cons", head, rest)),
                    Err(e) => Err(e),
                },
                Err(e) => Err(e),
            }
        },
    }
}

/// The names of the parameters that a list or vector of symbols gives.
fn bind_names(binds: &Vec<MalData>) -> (res: Option<Vec<Symbol>>)
    ensures
        res is Some == all_symbols(values_view(binds@)),
        res matches Some(names) ==> names_view(names@) == symbol_names(values_view(binds@)),
{
    let mut names: Vec<Symbol> = Vec::new();
    let mut i: usize = 0;
    while i < binds.len()
        invariant
            i <= binds.len(),
            names.len() == i,
            forall|j: int| 0 <= j < i ==> (#[trigger] values_view(binds@)[j]) is Symbol,
            forall|j: int|
                0 <= j < i ==> (#[trigger] names@[j])@ == values_view(binds@)[j]->Symbol_0,
        decreases binds.len() - i,
    {
        match &binds[i] {
            MalData::Symbol(sym) => {
                names.push(sym.clone());
            },
            _ => {
                assert(!(values_view(binds@)[i as int] is Symbol));
                return None;
            },
        }
        i += 1;
    }
    assert(names_view(names@) =~= symbol_names(values_view(binds@)));
    Some(names)
}

/// The closure over `env` with the given parameters and body.
pub fn mal_closure(env: EnvType, binds: &Vec<Symbol>, body: &MalData) -> (res: MalData)
    ensures
        res@ == (Value::FnClosure {
            outer_env: env as nat,
            binds: names_view(binds@),
            body: Box::new(body@),
            is_macro: false,
        }),
{
    MalData::FnClosure(FnClosure::new(env, binds, body))
}

/// `(fn* params body)`: the closure over the current frame.
pub fn eval_fn(env: EnvType, items: &Vec<MalData>) -> (res: Result<MalData, EvalError>)
    ensures
        eval_result_view(res) == eval_fn_spec(env as nat, values_view(items@)),
{
    if items.len() < 3 {
        return Err(EvalError::from_str("fn* requires parameters and a body"));
    }
    assert(values_view(items@)[1] == items@[1]@);
    assert(values_view(items@)[2] == items@[2]@);
    match get_wrapped_list(&items[1]) {
        Some(b) => match bind_names(b) {
            Some(names) => Ok(mal_closure(env, &names, &items[2])),
            None => Err(EvalError::from_str("expected symbol for bind")),
        },
        None => Err(EvalError::from_str("expected vector for binds")),
    }
}

/// Adds a frame under the closure's frame that binds the closure's
/// parameters to the arguments.
pub fn apply_fn_closure(rt: &mut Runtime, closure: &FnClosure, args: &[MalData]) -> (res: Result<
    EnvType,
    String,
>)
    ensures
        match enter_frame(
            old(rt)@,
            closure.outer_env as nat,
            names_view(closure.binds@),
            values_view(args@),
        ) {
            Ok((rt1, frame)) => res == Ok::<EnvType, String>(frame as usize) && frame
                <= usize::MAX && final(rt)@ == rt1,
            Err(msg) => (res matches Err(e) && e@ == msg) && final(rt)@ == old(rt)@,
        },
{
    proof {
        rt.lemma_counts();
    }
    match Env::new(Some(closure.outer_env), closure.binds.as_slice(), args) {
        Ok(frame) => wrapped_env_type(rt, frame),
        Err(e) => Err(e),
    }
}

/// The macro that a form calls, if it is a macro call.
fn macro_closure(rt: &Runtime, env: EnvType, ast: &MalData) -> (res: Option<FnClosure>)
    ensures
        res is Some == is_macro_call_spec(rt@, env as nat, ast@),
        res matches Some(c) ==> MalData::FnClosure(c)@ == macro_of(rt@, env as nat, ast@),
{
    match mal_list_head(ast) {
        Some(head) => match head {
            MalData::Symbol(sym) => match Env::get(rt, env, sym.as_str()) {
                Some(bound) => match bound {
                    MalData::FnClosure(fnc) => {
                        if fnc.is_macro() {
                            Some(fnc)
                        } else {
                            None
                        }
                    },
                    _ => None,
                },
                None => None,
            },
            _ => None,
        },
        None => None,
    }
}

/// Whether a form is a call of a macro.
pub fn is_macro_call(rt: &Runtime, env: EnvType, ast: &MalData) -> (res: bool)
    ensures
        res == is_macro_call_spec(rt@, env as nat, ast@),
{
    macro_closure(rt, env, ast).is_some()
}

/// Applies a closure to arguments: its body is evaluated in a new frame
/// that binds its parameters to them.
pub fn mal_closure_apply(rt: &mut Runtime, closure: &FnClosure, args: &[MalData], fuel: u64) -> (res:
    Result<MalData, EvalError>)
    ensures
        (final(rt)@, eval_result_view(res)) == (match enter_frame(
            old(rt)@,
            closure.outer_env as nat,
            names_view(closure.binds@),
            values_view(args@),
        ) {
            Err(e) => (old(rt)@, Err::<Value, Seq<char>>(e)),
            Ok((rt1, frame)) => eval_spec(rt1, frame, closure.body@, fuel as nat),
        }),
    decreases fuel, 1nat, 0nat,
{
    match apply_fn_closure(rt, closure, args) {
        Ok(frame) => eval(rt, frame, &closure.body, fuel),
        Err(e) => Err(EvalError::from_string(e)),
    }
}

/// Expands a form while it is a macro call.
pub fn macroexpand(rt: &mut Runtime, env: EnvType, ast: &MalData, fuel: u64) -> (res: Result<
    MalData,
    EvalError,
>)
    ensures
        (final(rt)@, eval_result_view(res)) == macroexpand_spec(
            old(rt)@,
            env as nat,
            ast@,
            fuel as nat,
        ),
    decreases fuel, 2nat, 0nat,
{
    let mut expand_ast = ast.clone();
    let mut left = fuel;
    loop
        invariant
            left <= fuel,
            macroexpand_spec(rt@, env as nat, expand_ast@, left as nat) == macroexpand_spec(
                old(rt)@,
                env as nat,
                ast@,
                fuel as nat,
            ),
        decreases left,
    {
        let fnc = match macro_closure(rt, env, &expand_ast) {
            Some(fnc) => fnc,
            None => {
                return Ok(expand_ast);
            },
        };
        if left == 0 {
            return Err(EvalError::from_str("evaluation budget exhausted"));
        }
        let args = match get_wrapped_list(&expand_ast) {
            Some(list) => crate::builtins::clone_from(list.as_slice(), 1),
            None => Vec::new(),
        };
        match mal_closure_apply(rt, &fnc, args.as_slice(), left - 1) {
            Ok(v) => {
                expand_ast = v;
                left = left - 1;
            },
            Err(e) => {
                return Err(e);
            },
        }
    }
}

/// The model of the result of evaluating a sequence.
pub open spec fn seq_result_view(res: Result<Vec<MalData>, EvalError>) -> Result<
    Seq<Value>,
    Seq<char>,
> {
    match res {
        Ok(v) => Ok(values_view(v@)),
        Err(e) => Err(e@),
    }
}

/// Evaluates the items from left to right.
fn eval_items(rt: &mut Runtime, env: EnvType, items: &[MalData], fuel: u64) -> (res: Result<
    Vec<MalData>,
    EvalError,
>)
    ensures
        (final(rt)@, seq_result_view(res)) == eval_seq_spec(
            old(rt)@,
            env as nat,
            values_view(items@),
            0,
            Seq::empty(),
            fuel as nat,
        ),
    decreases fuel, 1nat, 0nat,
{
    let mut out: Vec<MalData> = Vec::new();
    let mut i: usize = 0;
    assert(values_view(out@) =~= Seq::empty());
    while i < items.len()
        invariant
            i <= items.len(),
            eval_seq_spec(
                rt@,
                env as nat,
                values_view(items@),
                i as int,
                values_view(out@),
                fuel as nat,
            ) == eval_seq_spec(
                old(rt)@,
                env as nat,
                values_view(items@),
                0,
                Seq::empty(),
                fuel as nat,
            ),
        decreases items.len() - i,
    {
        assert(values_view(items@)[i as int] == items@[i as int]@);
        match eval(rt, env, &items[i], fuel) {
            Ok(v) => {
                push_value(&mut out, v);
            },
            Err(e) => {
                return Err(e);
            },
        }
        i += 1;
    }
    Ok(out)
}

/// Structural evaluation.
pub fn eval_ast(rt: &mut Runtime, env: EnvType, ast: &MalData, fuel: u64) -> (res: Result<
    MalData,
    EvalError,
>)
    ensures
        (final(rt)@, eval_result_view(res)) == eval_ast_spec(
            old(rt)@,
            env as nat,
            ast@,
            fuel as nat,
        ),
    decreases fuel, 2nat, 0nat,
{
    proof {
        lemma_list_view(*ast);
    }
    match ast {
        MalData::Symbol(sym) => match Env::get(rt, env, sym.as_str()) {
            Some(v) => Ok(v),
            None => {
                let mut msg = "'".to_string();
                msg.append(sym.as_str());
                msg.append("' not found");
                Err(EvalError::from_string(msg))
            },
        },
        MalData::List(lst) => match eval_items(rt, env, lst.as_slice(), fuel) {
            Ok(vals) => Ok(make_mal_list_from_vec(vals)),
            Err(e) => Err(e),
        },
        MalData::Vector(vec) => match eval_items(rt, env, vec.as_slice(), fuel) {
            Ok(vals) => {
                let res = MalData::Vector(Rc::new(vals));
                proof {
                    lemma_list_view(res);
                }
                Ok(res)
            },
            Err(e) => Err(e),
        },
        MalData::HashMap(map) => {
            let mut out: Vec<(MapKey, MalData)> = Vec::new();
            let mut i: usize = 0;
            assert(entries_view(out@) =~= Seq::empty());
            while i < map.len()
                invariant
                    i <= map.len(),
                    ast@ == Value::HashMap(entries_view(map@)),
                    eval_entries_spec(
                        rt@,
                        env as nat,
                        entries_view(map@),
                        i as int,
                        entries_view(out@),
                        fuel as nat,
                    ) == eval_entries_spec(
                        old(rt)@,
                        env as nat,
                        entries_view(map@),
                        0,
                        Seq::empty(),
                        fuel as nat,
                    ),
                decreases map.len() - i,
            {
                assert(entries_view(map@)[i as int] == (map@[i as int].0@, map@[i as int].1@));
                match eval(rt, env, &map[i].1, fuel) {
                    Ok(v) => {
                        let ghost before = entries_view(out@);
                        let ghost vv = v@;
                        out.push((map[i].0.clone(), v));
                        assert(entries_view(out@) =~= before.push((map@[i as int].0@, vv)));
                    },
                    Err(e) => {
                        return Err(e);
                    },
                }
                i += 1;
            }
            let res = MalData::HashMap(out);
            proof {
                lemma_list_view(res);
            }
            Ok(res)
        },
        _ => Ok(ast.clone()),
    }
}

/// `(def! sym value)`.
pub fn eval_def(rt: &mut Runtime, env: EnvType, items: &Vec<MalData>, fuel: u64) -> (res: Result<
    MalData,
    EvalError,
>)
    ensures
        (final(rt)@, eval_result_view(res)) == eval_def_spec(
            old(rt)@,
            env as nat,
            values_view(items@),
            fuel as nat,
        ),
    decreases fuel, 6nat, 0nat,
{
    if items.len() < 3 {
        return Err(EvalError::from_str("def! requires a name and a value"));
    }
    assert(values_view(items@)[1] == items@[1]@);
    assert(values_view(items@)[2] == items@[2]@);
    match &items[1] {
        MalData::Symbol(key) => match eval(rt, env, &items[2], fuel) {
            Ok(evaluated) => {
                if rt.set(env, key, &evaluated) {
                    Ok(evaluated)
                } else {
                    Err(EvalError::from_str("environment does not exist"))
                }
            },
            Err(e) => Err(e),
        },
        _ => Err(EvalError::from_str("def!: name must be a symbol")),
    }
}

/// `(defmacro! sym fn-form)`.
pub fn eval_defmacro(rt: &mut Runtime, env: EnvType, items: &Vec<MalData>, fuel: u64) -> (res:
    Result<MalData, EvalError>)
    ensures
        (final(rt)@, eval_result_view(res)) == eval_defmacro_spec(
            old(rt)@,
            env as nat,
            values_view(items@),
            fuel as nat,
        ),
    decreases fuel, 6nat, 0nat,
{
    if items.len() < 3 {
        return Err(EvalError::from_str("defmacro! requires a name and a closure"));
    }
    assert(values_view(items@)[1] == items@[1]@);
    assert(values_view(items@)[2] == items@[2]@);
    match &items[1] {
        MalData::Symbol(name) => match eval(rt, env, &items[2], fuel) {
            Ok(evaluated) => match evaluated {
                MalData::FnClosure(fnc) => {
                    let res = MalData::FnClosure(fnc.to_macro());
                    if rt.set(env, name, &res) {
                        Ok(res)
                    } else {
                        Err(EvalError::from_str("environment does not exist"))
                    }
                },
                _ => Err(EvalError::from_str("closure expected")),
            },
            Err(e) => Err(e),
        },
        _ => Err(EvalError::from_str("def!: name must be a symbol")),
    }
}

/// Evaluates the bindings of a `let*` in its new frame.
fn eval_bindings(rt: &mut Runtime, frame: EnvType, bindings: &Vec<MalData>, fuel: u64) -> (res:
    Option<EvalError>)
    ensures
        (final(rt)@, match res {
            Some(e) => Some(e@),
            None => None,
        }) == eval_bindings_spec(
            old(rt)@,
            frame as nat,
            values_view(bindings@),
            0,
            fuel as nat,
        ),
    decreases fuel, 1nat, 0nat,
{
    let mut i: usize = 0;
    while i < bindings.len()
        invariant
            i <= bindings.len(),
            eval_bindings_spec(rt@, frame as nat, values_view(bindings@), i as int, fuel as nat)
                == eval_bindings_spec(
                old(rt)@,
                frame as nat,
                values_view(bindings@),
                0,
                fuel as nat,
            ),
        decreases bindings.len() - i,
    {
        if bindings.len() - i < 2 {
            return Some(EvalError::from_str("error in let* binding"));
        }
        assert(values_view(bindings@)[i as int] == bindings@[i as int]@);
        assert(values_view(bindings@)[i as int + 1] == bindings@[i as int + 1]@);
        match &bindings[i] {
            MalData::Symbol(sym) => match eval(rt, frame, &bindings[i + 1], fuel) {
                Ok(v) => {
                    rt.set(frame, sym, &v);
                },
                Err(e) => {
                    return Some(e);
                },
            },
            _ => {
                return Some(EvalError::from_str("error in let* binding"));
            },
        }
        i += 2;
    }
    None
}

/// `(let* bindings body)`.
pub fn eval_let(rt: &mut Runtime, env: EnvType, items: &Vec<MalData>, fuel: u64) -> (res: Step)
    ensures
        (final(rt)@, res@) == eval_let_spec(
            old(rt)@,
            env as nat,
            values_view(items@),
            fuel as nat,
        ),
    decreases fuel, 6nat, 0nat,
{
    if items.len() < 3 {
        return Step::Done(Err(EvalError::from_str("let* requires bindings and a body")));
    }
    assert(values_view(items@)[1] == items@[1]@);
    assert(values_view(items@)[2] == items@[2]@);
    let bindings = match get_wrapped_list(&items[1]) {
        Some(bindings) => bindings,
        None => {
            return Step::Done(
                Err(EvalError::from_str("let* bindings must be a list or a vector")),
            );
        },
    };
    let no_names: Vec<Symbol> = Vec::new();
    let no_values: Vec<MalData> = Vec::new();
    proof {
        rt.lemma_counts();
        assert(names_view(no_names@) =~= Seq::empty());
        assert(values_view(no_values@) =~= Seq::empty());
    }
    let frame = match Env::new(Some(env), no_names.as_slice(), no_values.as_slice()) {
        Ok(frame) => frame,
        Err(e) => {
            return Step::Done(Err(EvalError::from_string(e)));
        },
    };
    let let_env = match wrapped_env_type(rt, frame) {
        Ok(handle) => handle,
        Err(e) => {
            return Step::Done(Err(EvalError::from_string(e)));
        },
    };
    match eval_bindings(rt, let_env, bindings, fuel) {
        Some(e) => Step::Done(Err(e)),
        None => Step::Next(let_env, items[2].clone()),
    }
}

/// `(do e1 .. eN)`.
pub fn eval_do(rt: &mut Runtime, env: EnvType, items: &Vec<MalData>, fuel: u64) -> (res: Step)
    ensures
        (final(rt)@, res@) == eval_do_spec(
            old(rt)@,
            env as nat,
            values_view(items@),
            fuel as nat,
        ),
    decreases fuel, 6nat, 0nat,
{
    if items.len() < 2 {
        return Step::Done(Ok(MalData::Nil));
    }
    let last = items.len() - 1;
    let forms = vstd::slice::slice_subrange(items.as_slice(), 1, last);
    assert(values_view(forms@) =~= values_view(items@).subrange(1, items@.len() - 1));
    assert(values_view(items@).last() == items@[last as int]@);
    match eval_items(rt, env, forms, fuel) {
        Ok(_) => Step::Next(env, items[last].clone()),
        Err(e) => Step::Done(Err(e)),
    }
}

/// `(if cond then else?)`.
pub fn eval_if(rt: &mut Runtime, env: EnvType, items: &Vec<MalData>, fuel: u64) -> (res: Step)
    ensures
        (final(rt)@, res@) == eval_if_spec(
            old(rt)@,
            env as nat,
            values_view(items@),
            fuel as nat,
        ),
    decreases fuel, 6nat, 0nat,
{
    if items.len() < 3 {
        return Step::Done(Err(EvalError::from_str("if requires a condition and a then-branch")));
    }
    assert(values_view(items@)[1] == items@[1]@);
    assert(values_view(items@)[2] == items@[2]@);
    match eval(rt, env, &items[1], fuel) {
        Ok(cond) => match cond {
            MalData::Nil | MalData::False => {
                if items.len() > 3 {
                    assert(values_view(items@)[3] == items@[3]@);
                    Step::Next(env, items[3].clone())
                } else {
                    Step::Done(Ok(MalData::Nil))
                }
            },
            _ => Step::Next(env, items[2].clone()),
        },
        Err(e) => Step::Done(Err(e)),
    }
}

/// Runs a built-in on arguments. An exception that it yields becomes an
/// error with the display text of the thrown value.
pub fn call_function(
    rt: &mut Runtime,
    env: EnvType,
    selector: crate::common::NativeFunctionSelector,
    args: &[MalData],
    fuel: u64,
) -> (res: Result<MalData, EvalError>)
    ensures
        ({
            let (rt2, out) = native_spec(
                old(rt)@,
                env as nat,
                selector,
                values_view(args@),
                fuel as nat,
            );
            (final(rt)@, eval_result_view(res)) == (rt2, surface(rt2, out))
        }),
    decreases fuel, 5nat, 0nat,
{
    let ctx = FunContext { env, fuel };
    match call_native(rt, &ctx, selector, args) {
        Ok(v) => match v {
            MalData::Exception(thrown) => {
                let text = (*thrown).pr_str(rt, false);
                Err(EvalError::from_string(text))
            },
            _ => Ok(v),
        },
        Err(e) => Err(EvalError::from_string(e)),
    }
}

/// A call.
pub fn eval_call(rt: &mut Runtime, env: EnvType, items: &Vec<MalData>, fuel: u64) -> (res: Step)
    ensures
        (final(rt)@, res@) == eval_call_spec(
            old(rt)@,
            env as nat,
            values_view(items@),
            fuel as nat,
        ),
    decreases fuel, 6nat, 0nat,
{
    let vals = match eval_items(rt, env, items.as_slice(), fuel) {
        Ok(vals) => vals,
        Err(e) => {
            return Step::Done(Err(e));
        },
    };
    if vals.len() == 0 {
        return Step::Done(Ok(MalData::Nil));
    }
    assert(values_view(vals@)[0] == vals@[0]@);
    let args = vstd::slice::slice_subrange(vals.as_slice(), 1, vals.len());
    assert(values_view(args@) =~= values_view(vals@).subrange(1, vals@.len() as int));
    match &vals[0] {
        MalData::Function(f) => Step::Done(call_function(rt, env, f.callable, args, fuel)),
        MalData::FnClosure(fnc) => match apply_fn_closure(rt, fnc, args) {
            Ok(frame) => Step::Next(frame, (*fnc.body).clone()),
            Err(e) => Step::Done(Err(EvalError::from_string(e))),
        },
        _ => Step::Done(Err(EvalError::from_str("first element is not a function"))),
    }
}

/// The special form that a head of a list names.
fn special_form_of(head: &MalData) -> (res: Option<SpecialForm>)
    ensures
        res == special_form(head@),
{
    match head {
        MalData::Symbol(sym) => {
            let name = sym.as_str();
            if str_eq(name, "def!") {
                Some(SpecialForm::Def)
            } else if str_eq(name, "defmacro!") {
                Some(SpecialForm::DefMacro)
            } else if str_eq(name, "let*") {
                Some(SpecialForm::Let)
            } else if str_eq(name, "do") {
                Some(SpecialForm::Do)
            } else if str_eq(name, "if") {
                Some(SpecialForm::If)
            } else if str_eq(name, "fn*") {
                Some(SpecialForm::Fn)
            } else if str_eq(name, "quote") {
                Some(SpecialForm::Quote)
            } else if str_eq(name, "quasiquote") {
                Some(SpecialForm::Quasiquote)
            } else if str_eq(name, "macroexpand") {
                Some(SpecialForm::MacroExpand)
            } else {
                None
            }
        },
        _ => None,
    }
}

/// One turn on a list that is no macro call.
fn eval_form(rt: &mut Runtime, env: EnvType, items: &Vec<MalData>, fuel: u64) -> (res: Step)
    ensures
        (final(rt)@, res@) == eval_form_spec(
            old(rt)@,
            env as nat,
            values_view(items@),
            fuel as nat,
        ),
    decreases fuel, 7nat, 0nat,
{
    if items.len() == 0 {
        return Step::Done(Ok(make_mal_list_from_vec(clone_values(items.as_slice()))));
    }
    assert(values_view(items@)[0] == items@[0]@);
    match special_form_of(&items[0]) {
        Some(SpecialForm::Def) => Step::Done(eval_def(rt, env, items, fuel)),
        Some(SpecialForm::DefMacro) => Step::Done(eval_defmacro(rt, env, items, fuel)),
        Some(SpecialForm::Let) => eval_let(rt, env, items, fuel),
        Some(SpecialForm::Do) => eval_do(rt, env, items, fuel),
        Some(SpecialForm::If) => eval_if(rt, env, items, fuel),
        Some(SpecialForm::Fn) => Step::Done(eval_fn(env, items)),
        Some(SpecialForm::Quote) => {
            if items.len() < 2 {
                Step::Done(Err(EvalError::from_str("form required")))
            } else {
                assert(values_view(items@)[1] == items@[1]@);
                Step::Done(Ok(items[1].clone()))
            }
        },
        Some(SpecialForm::Quasiquote) => {
            if items.len() < 2 {
                Step::Done(Err(EvalError::from_str("form required")))
            } else {
                assert(values_view(items@)[1] == items@[1]@);
                match quasiquote(&items[1]) {
                    Ok(form) => Step::Next(env, form),
                    Err(e) => Step::Done(Err(e)),
                }
            }
        },
        Some(SpecialForm::MacroExpand) => {
            if items.len() < 2 {
                Step::Done(Err(EvalError::from_str("form required")))
            } else {
                assert(values_view(items@)[1] == items@[1]@);
                Step::Done(macroexpand(rt, env, &items[1], fuel))
            }
        },
        None => eval_call(rt, env, items, fuel),
    }
}

/// One turn of the evaluator's loop.
pub fn eval_step(rt: &mut Runtime, env: EnvType, ast: &MalData, fuel: u64) -> (res: Step)
    ensures
        (final(rt)@, res@) == step_spec(old(rt)@, env as nat, ast@, fuel as nat),
    decreases fuel, 8nat, 0nat,
{
    match ast {
        MalData::List(_) => {
            let form = match macroexpand(rt, env, ast, fuel) {
                Ok(form) => form,
                Err(e) => {
                    return Step::Done(Err(e));
                },
            };
            proof {
                lemma_list_view(form);
            }
            match &form {
                MalData::List(items) => eval_form(rt, env, items, fuel),
                _ => Step::Done(eval_ast(rt, env, &form, fuel)),
            }
        },
        _ => Step::Done(eval_ast(rt, env, ast, fuel)),
    }
}

/// Evaluates a form in an environment, within a budget.
///
/// The result and the state that the evaluation leaves are those of
/// [`eval_spec`]. Forms in tail position are evaluated by the next turn
/// of the loop, not by a call.
pub fn eval(rt: &mut Runtime, env: EnvType, ast: &MalData, fuel: u64) -> (res: Result<
    MalData,
    EvalError,
>)
    ensures
        (final(rt)@, eval_result_view(res)) == eval_spec(old(rt)@, env as nat, ast@, fuel as nat),
    decreases fuel, 0nat, 0nat,
{
    let mut tco_env = env;
    let mut tco_ast = ast.clone();
    let mut left = fuel;
    loop
        invariant
            left <= fuel,
            eval_spec(rt@, tco_env as nat, tco_ast@, left as nat) == eval_spec(
                old(rt)@,
                env as nat,
                ast@,
                fuel as nat,
            ),
        decreases left,
    {
        if left == 0 {
            return Err(EvalError::from_str("evaluation budget exhausted"));
        }
        match eval_step(rt, tco_env, &tco_ast, left - 1) {
            Step::Done(res) => {
                return res;
            },
            Step::Next(next_env, next_ast) => {
                tco_env = next_env;
                tco_ast = next_ast;
                left = left - 1;
            },
        }
    }
}

} // verus!
