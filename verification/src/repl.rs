//! Read, evaluate, print: the steps that a driver strings together, and
//! the root environment that it starts from.

use crate::builtins::init_ns_map;
use crate::builtins::natives_view;
use crate::builtins::ns_table;
use crate::common::make_mal_list_from_vec;
use crate::common::values_view;
use crate::common::EnvType;
use crate::common::MalData;
use crate::common::NativeFunction;
use crate::common::NativeFunctionSelector;
use crate::common::Value;
use crate::env::wrapped_env_type;
use crate::env::Env;
use crate::env::EnvV;
use crate::env::Runtime;
use crate::env::RuntimeV;
use crate::eval::eval;
use crate::eval::eval_spec;
use crate::eval::surface;
use crate::eval::EvalError;
use crate::printer::printed;
use crate::printer::strings_view;
use crate::printer::PrStr;
use crate::reader::read_str;
use crate::reader::read_str_spec;
use vstd::prelude::*;

verus! {

/// Reads the first form of a text.
pub fn read(input: &str) -> (res: Result<MalData, String>)
    ensures
        crate::common::result_view(res) == read_str_spec(input@),
{
    read_str(input)
}

/// The readable text of a value.
pub fn print(rt: &Runtime, input: &MalData) -> (res: String)
    ensures
        res@ == printed(rt@, input@, true),
{
    input.pr_str(rt, true)
}

/// The model of the result of [`rep`].
pub open spec fn text_result_view(res: Result<String, EvalError>) -> Result<Seq<char>, Seq<char>> {
    match res {
        Ok(text) => Ok(text@),
        Err(e) => Err(e@),
    }
}

/// Reads a form from the text, evaluates it in `env` and prints the
/// value readably. Text without a form gives the empty text and leaves
/// the state as it is. An exception that reaches the top becomes an
/// error with the display text of the thrown value.
pub open spec fn rep_spec(rt: RuntimeV, env: nat, input: Seq<char>, fuel: nat) -> (
    RuntimeV,
    Result<Seq<char>, Seq<char>>,
) {
    match read_str_spec(input) {
        Err(e) => (rt, Err(e)),
        Ok(ast) => if ast is Nothing {
            (rt, Ok(Seq::empty()))
        } else {
            let (rt1, r) = eval_spec(rt, env, ast, fuel);
            match surface(rt1, r) {
                Ok(v) => (rt1, Ok(printed(rt1, v, true))),
                Err(e) => (rt1, Err(e)),
            }
        },
    }
}

/// Reads, evaluates and prints one form.
pub fn rep(rt: &mut Runtime, repl_env: EnvType, input: &str, fuel: u64) -> (res: Result<
    String,
    EvalError,
>)
    ensures
        (final(rt)@, text_result_view(res)) == rep_spec(
            old(rt)@,
            repl_env as nat,
            input@,
            fuel as nat,
        ),
{
    let read_out = match read(input) {
        Ok(ast) => ast,
        Err(e) => {
            return Err(EvalError::from_string(e));
        },
    };
    if let MalData::Nothing = read_out {
        return Ok(String::new());
    }
    match eval(rt, repl_env, &read_out, fuel) {
        Ok(v) => match v {
            MalData::Exception(thrown) => {
                let text = (*thrown).pr_str(rt, false);
                Err(EvalError::from_string(text))
            },
            _ => Ok(print(rt, &v)),
        },
        Err(e) => Err(e),
    }
}

/// Binds `name` in frame `env` to the built-in that the selector names.
pub fn env_insert_fun(rt: &mut Runtime, env: EnvType, name: &str, fun: NativeFunctionSelector) -> (done:
    bool)
    ensures
        done == (env < old(rt)@.envs.len()),
        final(rt)@ == old(rt)@.set(env as nat, name@, Value::Function(name@, fun)),
{
    let key = name.to_string();
    rt.set(env, &key, &MalData::Function(NativeFunction::new(name, fun)))
}

/// Binds `eval` in frame `env` to the built-in that evaluates a form in
/// the outermost frame.
pub fn insert_eval_closure(rt: &mut Runtime, env: EnvType) -> (done: bool)
    ensures
        done == (env < old(rt)@.envs.len()),
        final(rt)@ == old(rt)@.set(
            env as nat,
            "eval"@,
            Value::Function("eval"@, NativeFunctionSelector::Eval),
        ),
{
    env_insert_fun(rt, env, "eval", NativeFunctionSelector::Eval)
}

/// The state after binding the built-ins from index `i` on in frame
/// `env`, each under its name.
pub open spec fn install_spec(
    rt: RuntimeV,
    env: nat,
    fns: Seq<(Seq<char>, NativeFunctionSelector)>,
    i: int,
) -> RuntimeV
    decreases fns.len() - i,
{
    if i < 0 || i >= fns.len() {
        rt
    } else {
        install_spec(rt.set(env, fns[i].0, Value::Function(fns[i].0, fns[i].1)), env, fns, i + 1)
    }
}

/// The definition of `not` in the language.
pub open spec fn not_definition() -> Seq<char> {
    "(def! not (fn* [a] (if a false true)))"@
}

/// The definition of `load-file` in the language.
pub open spec fn load_file_definition() -> Seq<char> {
    "(def! load-file (fn* (f) (eval (read-string (str \"(do \" (slurp f) \")\")))))"@
}

/// The strings as a list of the language.
pub open spec fn argv_value(args: Seq<Seq<char>>) -> Value {
    Value::List(Seq::new(args.len(), |i: int| Value::String(args[i])))
}

/// The state with a new root frame that holds the core namespace,
/// `eval`, `not`, `load-file` and, under `*ARGV*`, the given strings;
/// and the handle of that frame. The two definitions are evaluated with
/// the given budget.
pub open spec fn init_spec(rt: RuntimeV, args: Seq<Seq<char>>, fuel: nat) -> (RuntimeV, nat) {
    let root = rt.envs.len();
    let rt1 = rt.add_env(EnvV { outer: None, data: Map::empty() });
    let rt2 = install_spec(rt1, root, ns_table(), 0);
    let rt3 = rt2.set(root, "eval"@, Value::Function("eval"@, NativeFunctionSelector::Eval));
    let rt4 = rep_spec(rt3, root, not_definition(), fuel).0;
    let rt5 = rep_spec(rt4, root, load_file_definition(), fuel).0;
    (rt5.set(root, "*ARGV*"@, argv_value(args)), root)
}

/// Adds the root frame of a session to the state and returns its handle.
pub fn init_repl_env(rt: &mut Runtime, args: &Vec<String>, fuel: u64) -> (root: EnvType)
    ensures
        (final(rt)@, root as nat) == init_spec(old(rt)@, strings_view(args@), fuel as nat),
{
    proof {
        rt.lemma_counts();
    }
    let no_names: Vec<String> = Vec::new();
    let no_values: Vec<MalData> = Vec::new();
    proof {
        assert(crate::common::names_view(no_names@) =~= Seq::empty());
        assert(values_view(no_values@) =~= Seq::empty());
    }
    let root = match Env::new(None, no_names.as_slice(), no_values.as_slice()) {
        Ok(frame) => match wrapped_env_type(rt, frame) {
            Ok(root) => root,
            Err(_) => 0,
        },
        Err(_) => 0,
    };
    let ns_map = init_ns_map();
    let mut i: usize = 0;
    while i < ns_map.len()
        invariant
            i <= ns_map.len(),
            natives_view(ns_map@) == ns_table(),
            install_spec(rt@, root as nat, ns_table(), i as int) == install_spec(
                old(rt)@.add_env(EnvV { outer: None, data: Map::empty() }),
                old(rt)@.envs.len(),
                ns_table(),
                0,
            ),
            root == old(rt)@.envs.len(),
        decreases ns_map.len() - i,
    {
        assert(natives_view(ns_map@)[i as int] == (ns_map@[i as int].name@, ns_map@[i as int].callable));
        env_insert_fun(rt, root, ns_map[i].name.as_str(), ns_map[i].callable);
        i += 1;
    }
    insert_eval_closure(rt, root);
    let _ = rep(rt, root, "(def! not (fn* [a] (if a false true)))", fuel);
    let _ = rep(
        rt,
        root,
        "(def! load-file (fn* (f) (eval (read-string (str \"(do \" (slurp f) \")\")))))",
        fuel,
    );
    let mut argv: Vec<MalData> = Vec::new();
    let mut k: usize = 0;
    while k < args.len()
        invariant
            k <= args.len(),
            argv.len() == k,
            forall|j: int| 0 <= j < k ==> (#[trigger] argv@[j])@ == Value::String(args@[j]@),
        decreases args.len() - k,
    {
        argv.push(MalData::String(args[k].clone()));
        k += 1;
    }
    let argv = make_mal_list_from_vec(argv);
    assert(argv@->List_0 =~= argv_value(strings_view(args@))->List_0);
    let key = "*ARGV*".to_string();
    rt.set(root, &key, &argv);
    root
}

} // verus!
