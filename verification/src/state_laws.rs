//! What evaluation can do to the interpreter's state.
//!
//! Evaluation adds frames and atoms, binds symbols, stores values in
//! atoms and prints. It never removes a frame, a binding or an atom, it
//! never moves a frame under another parent, and it leaves the files
//! alone. So a closure finds the frame it was created in for as long as
//! the state lives, and an atom keeps its identity.

use crate::builtins::apply_fun_spec;
use crate::builtins::core_apply;
use crate::builtins::core_deref;
use crate::builtins::core_reset;
use crate::builtins::core_eval;
use crate::builtins::core_map;
use crate::builtins::core_println;
use crate::builtins::core_prn;
use crate::builtins::core_swap;
use crate::builtins::map_items_spec;
use crate::builtins::native_spec;
use crate::common::KeyV;
use crate::common::NativeFunctionSelector;
use crate::common::Value;
use crate::env::EnvV;
use crate::env::RuntimeV;
use crate::eval::enter_frame;
use crate::eval::err_not_a_function;
use crate::eval::eval_ast_spec;
use crate::eval::eval_bindings_spec;
use crate::eval::eval_call_spec;
use crate::eval::eval_def_spec;
use crate::eval::eval_defmacro_spec;
use crate::eval::eval_do_spec;
use crate::eval::eval_entries_spec;
use crate::eval::eval_form_spec;
use crate::eval::eval_if_spec;
use crate::eval::eval_let_spec;
use crate::eval::eval_seq_spec;
use crate::eval::eval_spec;
use crate::eval::is_macro_call_spec;
use crate::eval::macro_of;
use crate::eval::macroexpand_spec;
use crate::eval::step_spec;
use crate::eval::StepV;
use crate::repl::rep_spec;
use vstd::prelude::*;

verus! {

/// Whether `after` is `before` with more in it: every frame is still
/// there under the same parent and with at least the same symbols bound,
/// every atom is still there, the output starts with the old output, and
/// the files are the same. If every frame of `before` comes after its
/// parent, the same holds of `after`.
pub open spec fn extends(before: RuntimeV, after: RuntimeV) -> bool {
    &&& before.envs.len() <= after.envs.len()
    &&& forall|i: int|
        0 <= i < before.envs.len() ==> (#[trigger] after.envs[i]).outer == before.envs[i].outer
    &&& forall|i: int, k: Seq<char>|
        0 <= i < before.envs.len() && before.envs[i].data.contains_key(k)
            ==> #[trigger] after.envs[i].data.contains_key(k)
    &&& before.atoms.len() <= after.atoms.len()
    &&& before.output.len() <= after.output.len()
    &&& after.output.take(before.output.len() as int) == before.output
    &&& after.files == before.files
    &&& (before.parents_precede() ==> after.parents_precede())
}

/// A state extends itself.
pub proof fn lemma_extends_itself(rt: RuntimeV)
    ensures
        extends(rt, rt),
{
    assert(rt.output.take(rt.output.len() as int) =~= rt.output);
}

/// An extension of an extension is an extension.
pub proof fn lemma_extends_chain(a: RuntimeV, b: RuntimeV, c: RuntimeV)
    requires
        extends(a, b),
        extends(b, c),
    ensures
        extends(a, c),
{
    assert forall|i: int| 0 <= i < a.envs.len() implies (#[trigger] c.envs[i]).outer
        == a.envs[i].outer by {
        assert(b.envs[i].outer == a.envs[i].outer);
    }
    assert forall|i: int, k: Seq<char>|
        0 <= i < a.envs.len() && a.envs[i].data.contains_key(k) implies #[trigger] c.envs[i].data.contains_key(
        k,
    ) by {
        assert(b.envs[i].data.contains_key(k));
    }
    assert(c.output.take(a.output.len() as int) =~= a.output) by {
        assert(c.output.take(b.output.len() as int) == b.output);
        assert(b.output.take(a.output.len() as int) == a.output);
        assert forall|j: int| 0 <= j < a.output.len() implies c.output[j] == a.output[j] by {
            assert(c.output.take(b.output.len() as int)[j] == c.output[j]);
            assert(b.output.take(a.output.len() as int)[j] == b.output[j]);
        }
    }
}

/// Binding a symbol extends the state.
pub proof fn lemma_set_extends(rt: RuntimeV, env: nat, key: Seq<char>, value: Value)
    ensures
        extends(rt, rt.set(env, key, value)),
{
    let after = rt.set(env, key, value);
    assert(after.output.take(rt.output.len() as int) =~= rt.output);
    if rt.parents_precede() {
        assert forall|i: int| 0 <= i < after.envs.len() implies ((
        #[trigger] after.envs[i]).outer matches Some(o) ==> o < i) by {
            assert(after.envs[i].outer == rt.envs[i].outer);
        }
    }
}

/// Adding a frame whose parent, if it has one, is a frame of the state
/// extends the state.
pub proof fn lemma_add_env_extends(rt: RuntimeV, frame: EnvV)
    requires
        rt.accepts(frame),
    ensures
        extends(rt, rt.add_env(frame)),
{
    let after = rt.add_env(frame);
    assert(after.output.take(rt.output.len() as int) =~= rt.output);
    if rt.parents_precede() {
        assert forall|i: int| 0 <= i < after.envs.len() implies ((
        #[trigger] after.envs[i]).outer matches Some(o) ==> o < i) by {
            if i < rt.envs.len() {
                assert(after.envs[i] == rt.envs[i]);
            }
        }
    }
}

/// Adding an atom, storing a value in one, and printing extend the
/// state.
pub proof fn lemma_atoms_and_output_extend(rt: RuntimeV, cell: nat, value: Value, line: Seq<char>)
    ensures
        extends(rt, rt.add_atom(value)),
        extends(rt, rt.set_atom(cell, value)),
        extends(rt, rt.print(line)),
{
    assert(rt.add_atom(value).output.take(rt.output.len() as int) =~= rt.output);
    assert(rt.set_atom(cell, value).output.take(rt.output.len() as int) =~= rt.output);
    assert(rt.print(line).output.take(rt.output.len() as int) =~= rt.output);
}

/// Entering a closure's frame extends the state.
pub proof fn lemma_enter_frame_extends(
    rt: RuntimeV,
    outer: nat,
    binds: Seq<Seq<char>>,
    args: Seq<Value>,
)
    ensures
        enter_frame(rt, outer, binds, args) matches Ok((rt1, frame)) ==> extends(rt, rt1)
            && frame == rt.envs.len(),
{
    if let Ok((rt1, frame)) = enter_frame(rt, outer, binds, args) {
        let data = crate::env::bind_params(Map::empty(), binds, args, 0)->Ok_0;
        lemma_add_env_extends(rt, EnvV { outer: Some(outer), data });
    }
}

/// Evaluation extends the state, whatever it evaluates and however it
/// ends.
pub proof fn lemma_eval_extends(rt: RuntimeV, env: nat, ast: Value, fuel: nat)
    ensures
        extends(rt, eval_spec(rt, env, ast, fuel).0),
    decreases fuel, 0nat, 0nat,
{
    lemma_extends_itself(rt);
    if fuel > 0 {
        let f = (fuel - 1) as nat;
        lemma_step_extends(rt, env, ast, f);
        let (rt1, step) = step_spec(rt, env, ast, f);
        if let StepV::Next(env1, ast1) = step {
            lemma_eval_extends(rt1, env1, ast1, f);
            lemma_extends_chain(rt, rt1, eval_spec(rt1, env1, ast1, f).0);
        }
    }
}

/// One turn of the evaluator's loop extends the state.
pub proof fn lemma_step_extends(rt: RuntimeV, env: nat, ast: Value, fuel: nat)
    ensures
        extends(rt, step_spec(rt, env, ast, fuel).0),
    decreases fuel, 7nat, 0nat,
{
    if ast is List {
        lemma_macroexpand_extends(rt, env, ast, fuel);
        let (rt1, r) = macroexpand_spec(rt, env, ast, fuel);
        if let Ok(form) = r {
            match form {
                Value::List(items) => {
                    lemma_form_extends(rt1, env, items, fuel);
                    lemma_extends_chain(rt, rt1, eval_form_spec(rt1, env, items, fuel).0);
                },
                _ => {
                    lemma_eval_ast_extends(rt1, env, form, fuel);
                    lemma_extends_chain(rt, rt1, eval_ast_spec(rt1, env, form, fuel).0);
                },
            }
        }
    } else {
        lemma_eval_ast_extends(rt, env, ast, fuel);
    }
}

/// Macro expansion extends the state.
pub proof fn lemma_macroexpand_extends(rt: RuntimeV, env: nat, ast: Value, fuel: nat)
    ensures
        extends(rt, macroexpand_spec(rt, env, ast, fuel).0),
    decreases fuel, 1nat, 0nat,
{
    lemma_extends_itself(rt);
    if is_macro_call_spec(rt, env, ast) && fuel > 0 {
        let m = macro_of(rt, env, ast);
        let args = ast->List_0.subrange(1, ast->List_0.len() as int);
        lemma_enter_frame_extends(rt, m->FnClosure_outer_env, m->FnClosure_binds, args);
        if let Ok((rt1, frame)) = enter_frame(
            rt,
            m->FnClosure_outer_env,
            m->FnClosure_binds,
            args,
        ) {
            let f = (fuel - 1) as nat;
            lemma_eval_extends(rt1, frame, *m->FnClosure_body, f);
            let (rt2, r) = eval_spec(rt1, frame, *m->FnClosure_body, f);
            lemma_extends_chain(rt, rt1, rt2);
            if let Ok(v) = r {
                lemma_macroexpand_extends(rt2, env, v, f);
                lemma_extends_chain(rt, rt2, macroexpand_spec(rt2, env, v, f).0);
            }
        }
    }
}

/// Evaluating items one after the other extends the state.
pub proof fn lemma_eval_seq_extends(
    rt: RuntimeV,
    env: nat,
    items: Seq<Value>,
    i: int,
    acc: Seq<Value>,
    fuel: nat,
)
    ensures
        extends(rt, eval_seq_spec(rt, env, items, i, acc, fuel).0),
    decreases fuel, 1nat, items.len() - i,
{
    lemma_extends_itself(rt);
    if 0 <= i < items.len() {
        lemma_eval_extends(rt, env, items[i], fuel);
        let (rt1, r) = eval_spec(rt, env, items[i], fuel);
        if let Ok(v) = r {
            lemma_eval_seq_extends(rt1, env, items, i + 1, acc.push(v), fuel);
            lemma_extends_chain(
                rt,
                rt1,
                eval_seq_spec(rt1, env, items, i + 1, acc.push(v), fuel).0,
            );
        }
    }
}

/// Evaluating the values of a map extends the state.
pub proof fn lemma_eval_entries_extends(
    rt: RuntimeV,
    env: nat,
    entries: Seq<(KeyV, Value)>,
    i: int,
    acc: Seq<(KeyV, Value)>,
    fuel: nat,
)
    ensures
        extends(rt, eval_entries_spec(rt, env, entries, i, acc, fuel).0),
    decreases fuel, 1nat, entries.len() - i,
{
    lemma_extends_itself(rt);
    if 0 <= i < entries.len() {
        lemma_eval_extends(rt, env, entries[i].1, fuel);
        let (rt1, r) = eval_spec(rt, env, entries[i].1, fuel);
        if let Ok(v) = r {
            let acc1 = acc.push((entries[i].0, v));
            lemma_eval_entries_extends(rt1, env, entries, i + 1, acc1, fuel);
            lemma_extends_chain(
                rt,
                rt1,
                eval_entries_spec(rt1, env, entries, i + 1, acc1, fuel).0,
            );
        }
    }
}

/// Structural evaluation extends the state.
pub proof fn lemma_eval_ast_extends(rt: RuntimeV, env: nat, ast: Value, fuel: nat)
    ensures
        extends(rt, eval_ast_spec(rt, env, ast, fuel).0),
    decreases fuel, 2nat, 0nat,
{
    lemma_extends_itself(rt);
    match ast {
        Value::List(items) => {
            lemma_eval_seq_extends(rt, env, items, 0, Seq::empty(), fuel);
        },
        Value::Vector(items) => {
            lemma_eval_seq_extends(rt, env, items, 0, Seq::empty(), fuel);
        },
        Value::HashMap(entries) => {
            lemma_eval_entries_extends(rt, env, entries, 0, Seq::empty(), fuel);
        },
        _ => {},
    }
}

/// Evaluating the bindings of a `let*` extends the state.
pub proof fn lemma_bindings_extend(
    rt: RuntimeV,
    frame: nat,
    bindings: Seq<Value>,
    i: int,
    fuel: nat,
)
    ensures
        extends(rt, eval_bindings_spec(rt, frame, bindings, i, fuel).0),
    decreases fuel, 1nat, bindings.len() - i,
{
    lemma_extends_itself(rt);
    if 0 <= i && i + 1 < bindings.len() {
        if let Value::Symbol(name) = bindings[i] {
            lemma_eval_extends(rt, frame, bindings[i + 1], fuel);
            let (rt1, r) = eval_spec(rt, frame, bindings[i + 1], fuel);
            if let Ok(v) = r {
                let rt2 = rt1.set(frame, name, v);
                lemma_set_extends(rt1, frame, name, v);
                lemma_extends_chain(rt, rt1, rt2);
                lemma_bindings_extend(rt2, frame, bindings, i + 2, fuel);
                lemma_extends_chain(
                    rt,
                    rt2,
                    eval_bindings_spec(rt2, frame, bindings, i + 2, fuel).0,
                );
            }
        }
    }
}

/// The special forms and calls extend the state.
pub proof fn lemma_forms_extend(rt: RuntimeV, env: nat, items: Seq<Value>, fuel: nat)
    ensures
        extends(rt, eval_def_spec(rt, env, items, fuel).0),
        extends(rt, eval_defmacro_spec(rt, env, items, fuel).0),
        extends(rt, eval_let_spec(rt, env, items, fuel).0),
        extends(rt, eval_do_spec(rt, env, items, fuel).0),
        extends(rt, eval_if_spec(rt, env, items, fuel).0),
        extends(rt, eval_call_spec(rt, env, items, fuel).0),
    decreases fuel, 5nat, 0nat,
{
    lemma_extends_itself(rt);
    if items.len() >= 3 {
        if let Value::Symbol(name) = items[1] {
            lemma_eval_extends(rt, env, items[2], fuel);
            let (rt1, r) = eval_spec(rt, env, items[2], fuel);
            if let Ok(v) = r {
                lemma_set_extends(rt1, env, name, v);
                lemma_extends_chain(rt, rt1, rt1.set(env, name, v));
                lemma_set_extends(rt1, env, name, crate::eval::as_macro(v));
                lemma_extends_chain(rt, rt1, rt1.set(env, name, crate::eval::as_macro(v)));
            }
        }
        if items[1].is_list_like() && env < rt.envs.len() {
            let frame = rt.envs.len();
            let new_frame = EnvV { outer: Some(env), data: Map::empty() };
            let rt1 = rt.add_env(new_frame);
            lemma_add_env_extends(rt, new_frame);
            lemma_bindings_extend(rt1, frame, items[1].items(), 0, fuel);
            lemma_extends_chain(
                rt,
                rt1,
                eval_bindings_spec(rt1, frame, items[1].items(), 0, fuel).0,
            );
        }
        lemma_eval_extends(rt, env, items[1], fuel);
    }
    if items.len() >= 2 {
        lemma_eval_seq_extends(
            rt,
            env,
            items.subrange(1, items.len() - 1),
            0,
            Seq::empty(),
            fuel,
        );
    }
    lemma_eval_seq_extends(rt, env, items, 0, Seq::empty(), fuel);
    let (rt1, r) = eval_seq_spec(rt, env, items, 0, Seq::empty(), fuel);
    if let Ok(vals) = r {
        if vals.len() > 0 {
            let args = vals.subrange(1, vals.len() as int);
            match vals[0] {
                Value::Function(_, selector) => {
                    lemma_native_extends(rt1, env, selector, args, fuel);
                    lemma_extends_chain(rt, rt1, native_spec(rt1, env, selector, args, fuel).0);
                },
                Value::FnClosure { outer_env, binds, body, .. } => {
                    lemma_enter_frame_extends(rt1, outer_env, binds, args);
                    if let Ok((rt2, frame)) = enter_frame(rt1, outer_env, binds, args) {
                        lemma_extends_chain(rt, rt1, rt2);
                    }
                },
                _ => {},
            }
        }
    }
}

/// One turn on a list that is no macro call extends the state.
pub proof fn lemma_form_extends(rt: RuntimeV, env: nat, items: Seq<Value>, fuel: nat)
    ensures
        extends(rt, eval_form_spec(rt, env, items, fuel).0),
    decreases fuel, 6nat, 0nat,
{
    lemma_extends_itself(rt);
    if items.len() > 0 {
        lemma_forms_extend(rt, env, items, fuel);
        if items.len() >= 2 {
            lemma_macroexpand_extends(rt, env, items[1], fuel);
        }
    }
}

/// Applying a callable extends the state.
pub proof fn lemma_apply_fun_extends(
    rt: RuntimeV,
    env: nat,
    fun: Value,
    args: Seq<Value>,
    fuel: nat,
)
    ensures
        extends(rt, apply_fun_spec(rt, env, fun, args, fuel).0),
    decreases fuel, 1nat, 0nat,
{
    lemma_extends_itself(rt);
    match fun {
        Value::Function(_, selector) => {
            if fuel > 0 {
                lemma_native_extends(rt, env, selector, args, (fuel - 1) as nat);
            }
        },
        Value::FnClosure { outer_env, binds, body, .. } => {
            lemma_enter_frame_extends(rt, outer_env, binds, args);
            if let Ok((rt1, frame)) = enter_frame(rt, outer_env, binds, args) {
                if fuel > 0 {
                    lemma_eval_extends(rt1, frame, *body, (fuel - 1) as nat);
                    lemma_extends_chain(
                        rt,
                        rt1,
                        eval_spec(rt1, frame, *body, (fuel - 1) as nat).0,
                    );
                }
            }
        },
        _ => {},
    }
}

/// Mapping a callable over items extends the state.
pub proof fn lemma_map_items_extends(
    rt: RuntimeV,
    env: nat,
    fun: Value,
    items: Seq<Value>,
    i: int,
    acc: Seq<Value>,
    fuel: nat,
)
    ensures
        extends(rt, map_items_spec(rt, env, fun, items, i, acc, fuel).0),
    decreases fuel, 2nat, items.len() - i,
{
    lemma_extends_itself(rt);
    if 0 <= i < items.len() {
        lemma_apply_fun_extends(rt, env, fun, seq![items[i]], fuel);
        let (rt1, r) = apply_fun_spec(rt, env, fun, seq![items[i]], fuel);
        if let Ok(v) = r {
            if !(v is Exception) {
                lemma_map_items_extends(rt1, env, fun, items, i + 1, acc.push(v), fuel);
                lemma_extends_chain(
                    rt,
                    rt1,
                    map_items_spec(rt1, env, fun, items, i + 1, acc.push(v), fuel).0,
                );
            }
        }
    }
}

/// The built-ins that call back into the evaluator extend the state.
pub proof fn lemma_callbacks_extend(rt: RuntimeV, env: nat, args: Seq<Value>, fuel: nat)
    ensures
        extends(rt, core_swap(rt, env, args, fuel).0),
        extends(rt, core_apply(rt, env, args, fuel).0),
        extends(rt, core_map(rt, env, args, fuel).0),
        extends(rt, core_eval(rt, env, args, fuel).0),
    decreases fuel, 3nat, 0nat,
{
    lemma_extends_itself(rt);
    if args.len() >= 2 && args[0] is Atom && args[0]->Atom_0 < rt.atoms.len() {
        let cell = args[0]->Atom_0;
        let list = seq![rt.atoms[cell as int]] + args.subrange(2, args.len() as int);
        lemma_apply_fun_extends(rt, env, args[1], list, fuel);
        let (rt1, r) = apply_fun_spec(rt, env, args[1], list, fuel);
        if let Ok(v) = r {
            lemma_atoms_and_output_extend(rt1, cell, v, Seq::empty());
            lemma_extends_chain(rt, rt1, rt1.set_atom(cell, v));
        }
    }
    if args.len() >= 2 && args.last().is_list_like() {
        lemma_apply_fun_extends(
            rt,
            env,
            args[0],
            args.subrange(1, args.len() - 1) + args.last().items(),
            fuel,
        );
    }
    if args.len() >= 2 && args[1].is_list_like() {
        lemma_map_items_extends(rt, env, args[0], args[1].items(), 0, Seq::empty(), fuel);
    }
    if args.len() >= 1 {
        lemma_eval_extends(rt, rt.root_of(env), args[0], fuel);
    }
}

/// Every built-in extends the state.
pub proof fn lemma_native_extends(
    rt: RuntimeV,
    env: nat,
    selector: NativeFunctionSelector,
    args: Seq<Value>,
    fuel: nat,
)
    ensures
        extends(rt, native_spec(rt, env, selector, args, fuel).0),
    decreases fuel, 4nat, 0nat,
{
    lemma_extends_itself(rt);
    match selector {
        NativeFunctionSelector::Prn => {
            lemma_atoms_and_output_extend(rt, 0, Value::Nil, core_prn(rt, args).0.output.last());
            assert(core_prn(rt, args).0 == rt.print(core_prn(rt, args).0.output.last()));
        },
        NativeFunctionSelector::Println => {
            lemma_atoms_and_output_extend(
                rt,
                0,
                Value::Nil,
                core_println(rt, args).0.output.last(),
            );
            assert(core_println(rt, args).0 == rt.print(core_println(rt, args).0.output.last()));
        },
        NativeFunctionSelector::Atom => {
            if args.len() > 0 {
                lemma_atoms_and_output_extend(rt, 0, args[0], Seq::empty());
            }
        },
        NativeFunctionSelector::Reset => {
            if args.len() >= 2 && args[0] is Atom {
                lemma_atoms_and_output_extend(rt, args[0]->Atom_0, args[1], Seq::empty());
            }
        },
        NativeFunctionSelector::Swap => {
            lemma_callbacks_extend(rt, env, args, fuel);
        },
        NativeFunctionSelector::Apply => {
            lemma_callbacks_extend(rt, env, args, fuel);
        },
        NativeFunctionSelector::MapSeq => {
            lemma_callbacks_extend(rt, env, args, fuel);
        },
        NativeFunctionSelector::Eval => {
            lemma_callbacks_extend(rt, env, args, fuel);
        },
        _ => {
            assert(native_spec(rt, env, selector, args, fuel).0 == rt);
        },
    }
}

/// Reading, evaluating and printing a form extends the state.
pub proof fn lemma_rep_extends(rt: RuntimeV, env: nat, input: Seq<char>, fuel: nat)
    ensures
        extends(rt, rep_spec(rt, env, input, fuel).0),
{
    lemma_extends_itself(rt);
    if let Ok(ast) = crate::reader::read_str_spec(input) {
        lemma_eval_extends(rt, env, ast, fuel);
    }
}

/// Closures keep their frame: after any evaluation, every frame that was
/// there before is there under the same handle, under the same parent,
/// and binds every symbol that it bound.
pub proof fn lemma_frames_persist(
    rt: RuntimeV,
    env: nat,
    ast: Value,
    fuel: nat,
    frame: int,
    key: Seq<char>,
)
    requires
        0 <= frame < rt.envs.len(),
    ensures
        frame < eval_spec(rt, env, ast, fuel).0.envs.len(),
        eval_spec(rt, env, ast, fuel).0.envs[frame].outer == rt.envs[frame].outer,
        rt.envs[frame].data.contains_key(key) ==> eval_spec(
            rt,
            env,
            ast,
            fuel,
        ).0.envs[frame].data.contains_key(key),
{
    lemma_eval_extends(rt, env, ast, fuel);
}

/// Atoms keep their identity: after any evaluation, every atom that was
/// there before is there under the same handle.
pub proof fn lemma_atoms_persist(rt: RuntimeV, env: nat, ast: Value, fuel: nat)
    ensures
        rt.atoms.len() <= eval_spec(rt, env, ast, fuel).0.atoms.len(),
{
    lemma_eval_extends(rt, env, ast, fuel);
}

/// Lookups end: in a state whose frames all come after their parents,
/// evaluation leaves a state of which the same holds.
pub proof fn lemma_parents_still_precede(rt: RuntimeV, env: nat, ast: Value, fuel: nat)
    requires
        rt.parents_precede(),
    ensures
        eval_spec(rt, env, ast, fuel).0.parents_precede(),
{
    lemma_eval_extends(rt, env, ast, fuel);
}

/// After `reset!`, the atom holds the new value: `deref` of the atom, by
/// whatever alias, yields it.
pub proof fn lemma_reset_then_deref(rt: RuntimeV, args: Seq<Value>)
    requires
        core_reset(rt, args).1 is Ok,
    ensures
        core_reset(rt, args).1 == Ok::<Value, Seq<char>>(args[1]),
        core_deref(core_reset(rt, args).0, seq![args[0]]) == Ok::<Value, Seq<char>>(args[1]),
        core_reset(rt, args).0.atoms.len() == rt.atoms.len(),
{
}

/// After `swap!`, the atom holds what `swap!` returned: `deref` of the
/// atom, by whatever alias, yields it; and no atom has gone.
pub proof fn lemma_swap_then_deref(rt: RuntimeV, env: nat, args: Seq<Value>, fuel: nat)
    requires
        core_swap(rt, env, args, fuel).1 is Ok,
    ensures
        core_deref(core_swap(rt, env, args, fuel).0, seq![args[0]]) == core_swap(
            rt,
            env,
            args,
            fuel,
        ).1,
        rt.atoms.len() <= core_swap(rt, env, args, fuel).0.atoms.len(),
{
    let cell = args[0]->Atom_0;
    let list = seq![rt.atoms[cell as int]] + args.subrange(2, args.len() as int);
    lemma_apply_fun_extends(rt, env, args[1], list, fuel);
    lemma_callbacks_extend(rt, env, args, fuel);
}

/// A call whose head evaluates to something that is no callable fails
/// with the callability error.
pub proof fn lemma_call_of_non_function(rt: RuntimeV, env: nat, items: Seq<Value>, fuel: nat)
    requires
        eval_seq_spec(rt, env, items, 0, Seq::empty(), fuel).1 matches Ok(vals) && vals.len() > 0
            && !(vals[0] is Function) && !(vals[0] is FnClosure),
    ensures
        eval_call_spec(rt, env, items, fuel) == (
            eval_seq_spec(rt, env, items, 0, Seq::empty(), fuel).0,
            StepV::Done(Err(err_not_a_function())),
        ),
{
}

} // verus!
