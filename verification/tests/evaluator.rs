use mal::common::{
    are_lists_equal, get_wrapped_list, is_list_like, is_mal_false, is_mal_keyword, is_mal_list,
    is_mal_map, is_mal_nil, is_mal_string, is_mal_symbol, is_mal_true, is_mal_vector,
    make_hashmap_from_kv_list, make_mal_keyword, make_mal_list_from_iter,
    make_mal_list_from_slice, make_mal_list_from_vec, make_mal_map_from_kv_list, make_mal_number,
    make_mal_string, make_mal_symbol, make_mal_vec_from_slice, mal_bool_value, mal_equals,
    mal_symbol_name, mapkey_for, string_literals, FnClosure, MalData, MapKey, NativeFunction,
    NativeFunctionSelector,
};
use mal::env::{wrapped_env_type, Env, Runtime};
use mal::eval::{
    eval, eval_ast, eval_step, is_macro_call, is_pair, is_symbol_named, macroexpand,
    mal_list_head, quasiquote, EvalError, Step,
};
use mal::printer::pr_str;
use mal::reader::read_str;
use mal::repl::{env_insert_fun, init_repl_env, insert_eval_closure, print, read, rep};

const FUEL: u64 = 1_000_000;

fn session() -> (Runtime, usize) {
    let mut rt = Runtime::new();
    let root = init_repl_env(&mut rt, &Vec::new(), FUEL);
    (rt, root)
}

fn run(rt: &mut Runtime, env: usize, input: &str) -> Result<String, String> {
    rep(rt, env, input, FUEL).map_err(|e| e.message())
}

fn ok(input: &str) -> String {
    let (mut rt, env) = session();
    run(&mut rt, env, input).unwrap()
}

fn err(input: &str) -> String {
    let (mut rt, env) = session();
    run(&mut rt, env, input).unwrap_err()
}

fn form(text: &str) -> MalData {
    read_str(text).unwrap()
}

fn show(value: &MalData) -> String {
    pr_str(value, &Runtime::new(), true)
}

fn symbols(names: &[&str]) -> Vec<String> {
    names.iter().map(|n| n.to_string()).collect()
}

#[test]
fn values_evaluate_to_themselves() {
    for text in ["1", "-5", "\"text\"", ":kw", "nil", "true", "false", "()", "[]", "{}", "[1 [2 \"a\"] {:k ()}]", "{:a [1 2] \"b\" nil}"] {
        let (mut rt, env) = session();
        let value = form(text);
        let frames = rt.env_count();
        let result = eval(&mut rt, env, &value, FUEL).unwrap();
        assert!(result == value, "{} does not evaluate to itself", text);
        assert_eq!(show(&result), text);
        assert_eq!(rt.env_count(), frames);
    }
    let (mut rt, env) = session();
    let closure = eval(&mut rt, env, &form("(fn* (a) a)"), FUEL).unwrap();
    assert!(matches!(eval(&mut rt, env, &closure, FUEL), Ok(MalData::FnClosure(_))));
    let native = eval(&mut rt, env, &form("+"), FUEL).unwrap();
    assert!(matches!(eval(&mut rt, env, &native, FUEL), Ok(MalData::Function(_))));
    let atom = eval(&mut rt, env, &form("(atom 1)"), FUEL).unwrap();
    assert!(eval(&mut rt, env, &atom, FUEL).unwrap() == atom);
    assert!(matches!(eval(&mut rt, env, &MalData::Nothing, FUEL), Ok(MalData::Nothing)));
}

#[test]
fn vector_with_a_symbol_does_not_evaluate_to_itself() {
    assert_eq!(err("[x]"), "'x' not found");
    assert_eq!(ok("(let* (x 1) [x (+ x 1)])"), "[1 2]");
}

#[test]
fn evaluation_needs_budget() {
    let (mut rt, env) = session();
    let one = form("1");
    assert_eq!(eval(&mut rt, env, &one, 0).map_err(|e| e.message()), Err("evaluation budget exhausted".to_string()));
    assert!(eval(&mut rt, env, &one, 1).unwrap() == one);
    let sum = form("(+ 1 2)");
    assert_eq!(eval(&mut rt, env, &sum, 1).map_err(|e| e.message()), Err("evaluation budget exhausted".to_string()));
    assert!(eval(&mut rt, env, &sum, 2).unwrap() == MalData::Number(3));
    run(&mut rt, env, "(def! forever (fn* () (forever)))").unwrap();
    assert_eq!(
        rep(&mut rt, env, "(forever)", 5_000).map_err(|e| e.message()),
        Err("evaluation budget exhausted".to_string())
    );
    run(&mut rt, env, "(defmacro! again (fn* () (list (quote again))))").unwrap();
    assert_eq!(
        rep(&mut rt, env, "(again)", 500).map_err(|e| e.message()),
        Err("evaluation budget exhausted".to_string())
    );
}

#[test]
fn def_binds_in_the_current_frame() {
    let (mut rt, env) = session();
    assert_eq!(run(&mut rt, env, "(def! x (+ 1 2))"), Ok("3".to_string()));
    assert_eq!(run(&mut rt, env, "x"), Ok("3".to_string()));
    assert_eq!(run(&mut rt, env, "(def! x 4)"), Ok("4".to_string()));
    assert_eq!(run(&mut rt, env, "x"), Ok("4".to_string()));
    assert_eq!(run(&mut rt, env, "(let* (y 1) (def! z 9))"), Ok("9".to_string()));
    assert_eq!(run(&mut rt, env, "z"), Err("'z' not found".to_string()));
    assert_eq!(run(&mut rt, env, "((fn* () (def! x 5)))"), Ok("5".to_string()));
    assert_eq!(run(&mut rt, env, "x"), Ok("4".to_string()));
}

#[test]
fn def_errors() {
    assert_eq!(err("(def!)"), "def! requires a name and a value");
    assert_eq!(err("(def! x)"), "def! requires a name and a value");
    assert_eq!(err("(def! 1 2)"), "def!: name must be a symbol");
    assert_eq!(err("(def! \"x\" 2)"), "def!: name must be a symbol");
    assert_eq!(err("(def! x missing)"), "'missing' not found");
    let (mut rt, env) = session();
    assert_eq!(run(&mut rt, env, "(def! x missing)"), Err("'missing' not found".to_string()));
    assert_eq!(run(&mut rt, env, "x"), Err("'x' not found".to_string()));
}

#[test]
fn let_forms() {
    assert_eq!(ok("(let* () 5)"), "5");
    assert_eq!(ok("(let* [a 1 b (+ a 1)] (list a b))"), "(1 2)");
    assert_eq!(ok("(let* (a 1) (let* (a 2 b a) (list a b)))"), "(2 2)");
    assert_eq!(ok("(let* (f (fn* (n) (if (= n 0) 0 (f (- n 1))))) (f 3))"), "0");
    assert_eq!(err("(let*)"), "let* requires bindings and a body");
    assert_eq!(err("(let* (a 1))"), "let* requires bindings and a body");
    assert_eq!(err("(let* 1 2)"), "let* bindings must be a list or a vector");
    assert_eq!(err("(let* (a) a)"), "error in let* binding");
    assert_eq!(err("(let* (a 1 b) a)"), "error in let* binding");
    assert_eq!(err("(let* (1 2) 3)"), "error in let* binding");
    assert_eq!(err("(let* (a missing) a)"), "'missing' not found");
    assert_eq!(err("(let* (a 1) b)"), "'b' not found");
}

#[test]
fn do_forms() {
    assert_eq!(ok("(do)"), "nil");
    assert_eq!(ok("(do 1)"), "1");
    assert_eq!(ok("(do 1 2 (+ 1 2))"), "3");
    assert_eq!(err("(do missing 2)"), "'missing' not found");
    assert_eq!(err("(do 1 missing)"), "'missing' not found");
    let (mut rt, env) = session();
    assert_eq!(run(&mut rt, env, "(do (def! a 1) (def! b (+ a 1)) (prn a b) (list a b))"), Ok("(1 2)".to_string()));
    assert_eq!(rt.take_output(), vec!["1 2".to_string()]);
}

#[test]
fn if_forms() {
    assert_eq!(ok("(if true 1 2)"), "1");
    assert_eq!(ok("(if false 1 2)"), "2");
    assert_eq!(ok("(if nil 1 2)"), "2");
    assert_eq!(ok("(if nil 1)"), "nil");
    assert_eq!(ok("(if false 1)"), "nil");
    assert_eq!(ok("(if 0 1 2)"), "1");
    assert_eq!(ok("(if \"\" 1 2)"), "1");
    assert_eq!(ok("(if (list) 1 2)"), "1");
    assert_eq!(ok("(if [] 1 2)"), "1");
    assert_eq!(ok("(if true 1 missing)"), "1");
    assert_eq!(ok("(if false missing 2)"), "2");
    assert_eq!(err("(if)"), "if requires a condition and a then-branch");
    assert_eq!(err("(if true)"), "if requires a condition and a then-branch");
    assert_eq!(err("(if missing 1 2)"), "'missing' not found");
}

#[test]
fn fn_forms() {
    assert_eq!(ok("(fn* (a) a)"), "#<function>");
    assert_eq!(ok("((fn* [a b] (+ a b)) 1 2)"), "3");
    assert_eq!(ok("((fn* () 7))"), "7");
    assert_eq!(ok("((fn* (a & more) (list a more)) 1 2 3)"), "(1 (2 3))");
    assert_eq!(ok("((fn* (a & more) (list a more)) 1)"), "(1 ())");
    assert_eq!(ok("((fn* (& more) more))"), "()");
    assert_eq!(ok("((fn* (& more) (count more)) 1 2 3)"), "3");
    assert_eq!(ok("(((fn* (a) (fn* (b) (+ a b))) 5) 7)"), "12");
    assert_eq!(err("(fn*)"), "fn* requires parameters and a body");
    assert_eq!(err("(fn* (a))"), "fn* requires parameters and a body");
    assert_eq!(err("(fn* a a)"), "expected vector for binds");
    assert_eq!(err("(fn* (a 1) a)"), "expected symbol for bind");
    assert_eq!(err("((fn* (a b) a) 1)"), "illegal binding: parameters and arguments do not match");
    assert_eq!(err("((fn* (a) a) 1 2)"), "illegal binding: parameters and arguments do not match");
    assert_eq!(err("((fn* (a &) a) 1)"), "symbol expected for rest bind");
    assert_eq!(err("((fn* (a & b) a))"), "illegal binding: parameters and arguments do not match");
}

#[test]
fn quote_forms() {
    assert_eq!(ok("(quote a)"), "a");
    assert_eq!(ok("'(1 (+ 1 2) b)"), "(1 (+ 1 2) b)");
    assert_eq!(ok("(quote [a])"), "[a]");
    assert_eq!(err("(quote)"), "form required");
}

#[test]
fn quasiquote_forms() {
    assert_eq!(ok("`a"), "a");
    assert_eq!(ok("`7"), "7");
    assert_eq!(ok("`()"), "()");
    assert_eq!(ok("`(a b)"), "(a b)");
    assert_eq!(ok("`(a (b c))"), "(a (b c))");
    assert_eq!(ok("`~(+ 1 2)"), "3");
    assert_eq!(ok("(let* (x 5) `(x ~x))"), "(x 5)");
    assert_eq!(ok("(let* (l (list 1 2)) `(0 ~@l 3))"), "(0 1 2 3)");
    assert_eq!(ok("(let* (l (list 1 2)) `(~@l))"), "(1 2)");
    assert_eq!(ok("(let* (l (list 1 2)) `(~l ~@l))"), "((1 2) 1 2)");
    assert_eq!(ok("`[1 ~(+ 1 1)]"), "(1 2)");
    assert_eq!(ok("`(1 `(2 ~3))"), "(1 (quasiquote (2 3)))");
    assert_eq!(err("(quasiquote)"), "form required");
    assert_eq!(err("`(unquote)"), "expected form to unquote");
    assert_eq!(err("`((splice-unquote))"), "expected form to unquote");
    assert_eq!(err("`(~missing)"), "'missing' not found");
}

#[test]
fn quasiquote_expansion() {
    let expand = |text: &str| quasiquote(&form(text)).map(|v| show(&v)).map_err(|e| e.message());
    assert_eq!(expand("a"), Ok("(quote a)".to_string()));
    assert_eq!(expand("7"), Ok("(quote 7)".to_string()));
    assert_eq!(expand("()"), Ok("(quote ())".to_string()));
    assert_eq!(expand("[]"), Ok("(quote [])".to_string()));
    assert_eq!(expand("(unquote a)"), Ok("a".to_string()));
    assert_eq!(expand("(unquote a b)"), Ok("a".to_string()));
    assert_eq!(expand("(a)"), Ok("(cons (quote a) (quote ()))".to_string()));
    assert_eq!(
        expand("(a (unquote b))"),
        Ok("(cons (quote a) (cons b (quote ())))".to_string())
    );
    assert_eq!(
        expand("((splice-unquote b) c)"),
        Ok("(concat b (cons (quote c) (quote ())))".to_string())
    );
    assert_eq!(expand("(a unquote b)"), Ok("(cons (quote a) b)".to_string()));
    assert_eq!(expand("[a]"), Ok("(cons (quote a) (quote ()))".to_string()));
    assert_eq!(expand("(unquote)"), Err("expected form to unquote".to_string()));
    assert_eq!(expand("(a (splice-unquote))"), Err("expected form to unquote".to_string()));
}

#[test]
fn macros() {
    let (mut rt, env) = session();
    run(&mut rt, env, "(defmacro! one (fn* () 1))").unwrap();
    assert_eq!(run(&mut rt, env, "(one)"), Ok("1".to_string()));
    run(&mut rt, env, "(defmacro! identity (fn* (x) x))").unwrap();
    assert_eq!(run(&mut rt, env, "(let* (a 123) (identity a))"), Ok("123".to_string()));
    run(&mut rt, env, "(defmacro! first-form (fn* (& forms) (first forms)))").unwrap();
    assert_eq!(run(&mut rt, env, "(first-form (+ 1 2) (missing))"), Ok("3".to_string()));
    run(&mut rt, env, "(defmacro! quoted (fn* (x) (list (quote quote) x)))").unwrap();
    assert_eq!(run(&mut rt, env, "(quoted (+ 1 2))"), Ok("(+ 1 2)".to_string()));
    assert_eq!(run(&mut rt, env, "(macroexpand (quoted (+ 1 2)))"), Ok("(quote (+ 1 2))".to_string()));
    assert_eq!(run(&mut rt, env, "(macroexpand (+ 1 2))"), Ok("(+ 1 2)".to_string()));
    assert_eq!(run(&mut rt, env, "(macroexpand 5)"), Ok("5".to_string()));
    assert_eq!(run(&mut rt, env, "(macroexpand)"), Err("form required".to_string()));
    assert_eq!(run(&mut rt, env, "(one 2)"), Err("illegal binding: parameters and arguments do not match".to_string()));
    assert_eq!(run(&mut rt, env, "(defmacro! bad 1)"), Err("closure expected".to_string()));
    assert_eq!(run(&mut rt, env, "(defmacro! bad)"), Err("defmacro! requires a name and a closure".to_string()));
    assert_eq!(run(&mut rt, env, "(defmacro! 1 (fn* () 1))"), Err("def!: name must be a symbol".to_string()));
    assert_eq!(run(&mut rt, env, "(defmacro! bad missing)"), Err("'missing' not found".to_string()));
    run(&mut rt, env, "(def! plain (fn* (x) x))").unwrap();
    assert!(!is_macro_call(&rt, env, &form("(plain 1)")));
    assert!(is_macro_call(&rt, env, &form("(identity 1)")));
    assert!(!is_macro_call(&rt, env, &form("[identity 1]")));
    assert!(!is_macro_call(&rt, env, &form("(missing 1)")));
    assert!(!is_macro_call(&rt, env, &form("()")));
    assert!(!is_macro_call(&rt, env, &form("identity")));
    let expanded = macroexpand(&mut rt, env, &form("(identity (identity (plain 1)))"), FUEL).unwrap();
    assert_eq!(show(&expanded), "(plain 1)");
    assert!(!is_macro_call(&rt, env, &expanded));
}

#[test]
fn macro_that_expands_to_a_value() {
    let (mut rt, env) = session();
    run(&mut rt, env, "(defmacro! the-symbol (fn* () (quote x)))").unwrap();
    run(&mut rt, env, "(def! x 42)").unwrap();
    assert_eq!(run(&mut rt, env, "(the-symbol)"), Ok("42".to_string()));
}

#[test]
fn calls() {
    assert_eq!(err("(1 2)"), "first element is not a function");
    assert_eq!(err("(\"f\" 2)"), "first element is not a function");
    assert_eq!(err("(nil)"), "first element is not a function");
    assert_eq!(err("((list 1) 2)"), "first element is not a function");
    assert_eq!(err("(+ missing 1)"), "'missing' not found");
    assert_eq!(ok("((if true + -) 5 3)"), "8");
    assert_eq!(ok("(list (+ 1 1) (* 2 2))"), "(2 4)");
}

#[test]
fn arguments_are_evaluated_from_left_to_right() {
    let (mut rt, env) = session();
    assert_eq!(
        run(&mut rt, env, "(list (prn 1) (prn 2) (do (prn 3) 4))"),
        Ok("(nil nil 4)".to_string())
    );
    assert_eq!(rt.take_output(), vec!["1".to_string(), "2".to_string(), "3".to_string()]);
    assert_eq!(run(&mut rt, env, "[(prn \"a\") (missing) (prn \"b\")]"), Err("'missing' not found".to_string()));
    assert_eq!(rt.take_output(), vec!["\"a\"".to_string()]);
}

#[test]
fn tail_positions_cost_no_stack() {
    let (mut rt, env) = session();
    run(&mut rt, env, "(def! sum (fn* (n acc) (if (= n 0) acc (sum (- n 1) (+ n acc)))))").unwrap();
    assert_eq!(run(&mut rt, env, "(sum 20000 0)"), Ok("200010000".to_string()));
    run(&mut rt, env, "(def! down (fn* (n) (do 1 (let* (m (- n 1)) (if (< m 0) :done (down m))))))").unwrap();
    assert_eq!(run(&mut rt, env, "(down 20000)"), Ok(":done".to_string()));
    run(&mut rt, env, "(def! qq (fn* (n) (if (= n 0) :done `~(qq (- n 1)))))").unwrap();
    assert_eq!(run(&mut rt, env, "(qq 50)"), Ok(":done".to_string()));
}

#[test]
fn one_turn_of_the_loop() {
    let (mut rt, env) = session();
    match eval_step(&mut rt, env, &form("(if true (+ 1 2) 3)"), FUEL) {
        Step::Next(next_env, next) => {
            assert_eq!(next_env, env);
            assert_eq!(show(&next), "(+ 1 2)");
        }
        Step::Done(_) => panic!("the branch should stand in tail position"),
    }
    match eval_step(&mut rt, env, &form("(+ 1 2)"), FUEL) {
        Step::Done(Ok(v)) => assert!(v == MalData::Number(3)),
        _ => panic!("a native call should end the evaluation"),
    }
    let frames = rt.env_count();
    match eval_step(&mut rt, env, &form("((fn* (a) (list a)) 1)"), FUEL) {
        Step::Next(next_env, next) => {
            assert_eq!(next_env, frames);
            assert_eq!(rt.env_count(), frames + 1);
            assert_eq!(show(&next), "(list a)");
            assert!(Env::get(&rt, next_env, "a").unwrap() == MalData::Number(1));
        }
        Step::Done(_) => panic!("the body should stand in tail position"),
    }
    match eval_step(&mut rt, env, &form("(do 1 2)"), FUEL) {
        Step::Next(_, next) => assert_eq!(show(&next), "2"),
        Step::Done(_) => panic!("the last form should stand in tail position"),
    }
    match eval_step(&mut rt, env, &form("(let* (a 1) a)"), FUEL) {
        Step::Next(next_env, next) => {
            assert_eq!(show(&next), "a");
            assert!(Env::get(&rt, next_env, "a").unwrap() == MalData::Number(1));
            assert_eq!(Env::find(&rt, next_env, "+"), Some(env));
        }
        Step::Done(_) => panic!("the body should stand in tail position"),
    }
    match eval_step(&mut rt, env, &form("`(a)"), FUEL) {
        Step::Next(_, next) => assert_eq!(show(&next), "(cons (quote a) (quote ()))"),
        Step::Done(_) => panic!("the expansion should stand in tail position"),
    }
}

#[test]
fn structural_evaluation() {
    let (mut rt, env) = session();
    run(&mut rt, env, "(def! x 3)").unwrap();
    assert!(eval_ast(&mut rt, env, &form("x"), FUEL).unwrap() == MalData::Number(3));
    assert_eq!(show(&eval_ast(&mut rt, env, &form("(x (+ x 1))"), FUEL).unwrap()), "(3 4)");
    assert_eq!(show(&eval_ast(&mut rt, env, &form("[x (+ x 1)]"), FUEL).unwrap()), "[3 4]");
    assert_eq!(show(&eval_ast(&mut rt, env, &form("{x (+ x 1)}"), FUEL).unwrap()), "{x 4}");
    assert_eq!(
        eval_ast(&mut rt, env, &form("y"), FUEL).map_err(|e| e.message()),
        Err("'y' not found".to_string())
    );
}

#[test]
fn environments() {
    let mut rt = Runtime::new();
    assert_eq!(rt.env_count(), 0);
    let root = wrapped_env_type(&mut rt, Env::new(None, &[], &[]).unwrap()).unwrap();
    assert_eq!(root, 0);
    assert!(rt.set(root, &"a".to_string(), &MalData::Number(1)));
    assert!(rt.set(root, &"b".to_string(), &MalData::Number(2)));
    let child = wrapped_env_type(
        &mut rt,
        Env::new(Some(root), &symbols(&["a", "c"]), &[MalData::Number(10), MalData::Number(30)]).unwrap(),
    )
    .unwrap();
    assert_eq!(child, 1);
    assert_eq!(rt.env_count(), 2);
    assert_eq!(Env::find(&rt, child, "a"), Some(child));
    assert_eq!(Env::find(&rt, child, "b"), Some(root));
    assert_eq!(Env::find(&rt, child, "c"), Some(child));
    assert_eq!(Env::find(&rt, root, "c"), None);
    assert_eq!(Env::find(&rt, child, "d"), None);
    assert_eq!(Env::find(&rt, 7, "a"), None);
    assert!(Env::get(&rt, child, "a").unwrap() == MalData::Number(10));
    assert!(Env::get(&rt, root, "a").unwrap() == MalData::Number(1));
    assert!(Env::get(&rt, child, "b").unwrap() == MalData::Number(2));
    assert!(Env::get(&rt, root, "c").is_none());
    assert!(rt.set(child, &"b".to_string(), &MalData::Number(20)));
    assert!(Env::get(&rt, child, "b").unwrap() == MalData::Number(20));
    assert!(Env::get(&rt, root, "b").unwrap() == MalData::Number(2));
    assert!(!rt.set(9, &"b".to_string(), &MalData::Nil));
    assert_eq!(rt.root_of(child), root);
    assert_eq!(rt.root_of(root), root);
    assert_eq!(
        wrapped_env_type(&mut rt, Env::new(Some(5), &[], &[]).unwrap()),
        Err("environment does not exist".to_string())
    );
    assert_eq!(rt.env_count(), 2);
}

#[test]
fn frames_bind_parameters_to_arguments() {
    let mut rt = Runtime::new();
    let args = [MalData::Number(1), MalData::Number(2), MalData::Number(3)];
    let mut frame = Env::new(None, &symbols(&["a", "&", "rest", "ignored"]), &args).unwrap();
    frame.set(&"late".to_string(), &MalData::True);
    let handle = wrapped_env_type(&mut rt, frame).unwrap();
    assert!(Env::get(&rt, handle, "a").unwrap() == MalData::Number(1));
    assert_eq!(show(&Env::get(&rt, handle, "rest").unwrap()), "(2 3)");
    assert!(Env::get(&rt, handle, "late").unwrap() == MalData::True);
    assert!(Env::get(&rt, handle, "ignored").is_none());
    assert!(Env::get(&rt, handle, "&").is_none());
    let empty_rest = Env::new(None, &symbols(&["&", "rest"]), &[]).unwrap();
    let handle = wrapped_env_type(&mut rt, empty_rest).unwrap();
    assert_eq!(show(&Env::get(&rt, handle, "rest").unwrap()), "()");
    assert!(Env::new(None, &symbols(&["a"]), &[]).is_err());
    assert!(Env::new(None, &[], &args).is_err());
    assert_eq!(
        Env::new(None, &symbols(&["a", "&"]), &args).err(),
        Some("symbol expected for rest bind".to_string())
    );
    assert_eq!(
        Env::new(None, &symbols(&["a", "b", "&", "r"]), &args[..1]).err(),
        Some("illegal binding: parameters and arguments do not match".to_string())
    );
}

#[test]
fn runtime_atoms() {
    let mut rt = Runtime::new();
    assert_eq!(rt.atom_count(), 0);
    let a = rt.new_atom(MalData::Number(1));
    let b = rt.new_atom(MalData::Nil);
    assert_eq!((a, b), (0, 1));
    assert_eq!(rt.atom_count(), 2);
    assert!(rt.atom_value(a).unwrap() == MalData::Number(1));
    assert!(rt.set_atom(a, MalData::Number(5)));
    assert!(rt.atom_value(a).unwrap() == MalData::Number(5));
    assert!(rt.atom_value(b).unwrap() == MalData::Nil);
    assert!(!rt.set_atom(2, MalData::Nil));
    assert!(rt.atom_value(2).is_none());
}

#[test]
fn read_and_print() {
    let rt = Runtime::new();
    assert_eq!(print(&rt, &read("(1 \"a\")").unwrap()), "(1 \"a\")");
    assert_eq!(read("(1"), Err("expected ')', got EOF".to_string()));
    let (mut rt, env) = session();
    assert_eq!(run(&mut rt, env, ""), Ok(String::new()));
    assert_eq!(run(&mut rt, env, ";; nothing here"), Ok(String::new()));
    assert_eq!(run(&mut rt, env, "(1"), Err("expected ')', got EOF".to_string()));
    assert_eq!(run(&mut rt, env, "\"a\\nb\""), Ok("\"a\\nb\"".to_string()));
}

#[test]
fn natives_can_be_installed_by_hand() {
    let mut rt = Runtime::new();
    let root = wrapped_env_type(&mut rt, Env::new(None, &[], &[]).unwrap()).unwrap();
    assert!(env_insert_fun(&mut rt, root, "plus", NativeFunctionSelector::Add));
    assert!(insert_eval_closure(&mut rt, root));
    assert!(!env_insert_fun(&mut rt, 3, "plus", NativeFunctionSelector::Add));
    assert_eq!(run(&mut rt, root, "(plus 1 2)"), Ok("3".to_string()));
    assert_eq!(run(&mut rt, root, "(eval (quote (plus 2 2)))"), Ok("4".to_string()));
    assert_eq!(run(&mut rt, root, "(+ 1 2)"), Err("'+' not found".to_string()));
}

#[test]
fn evaluating_with_a_frame_that_does_not_exist() {
    let mut rt = Runtime::new();
    assert_eq!(run(&mut rt, 0, "x"), Err("'x' not found".to_string()));
    assert_eq!(run(&mut rt, 0, "(def! x 1)"), Err("environment does not exist".to_string()));
    assert_eq!(run(&mut rt, 0, "(let* (a 1) a)"), Err("environment does not exist".to_string()));
    assert_eq!(run(&mut rt, 0, "(fn* (a) a)"), Ok("#<function>".to_string()));
    assert_eq!(run(&mut rt, 0, "((fn* (a) a) 1)"), Err("environment does not exist".to_string()));
}

#[test]
fn errors_carry_their_message() {
    assert_eq!(EvalError::from_str("a").message(), "a");
    assert_eq!(EvalError::from_string("b".to_string()).message(), "b");
    assert_eq!(EvalError::General("c".to_string()).message(), "c");
}

#[test]
fn value_helpers() {
    assert!(is_mal_symbol(&make_mal_symbol("a")));
    assert!(!is_mal_symbol(&make_mal_string("a")));
    assert!(is_mal_string(&make_mal_string("a")));
    assert!(is_mal_keyword(&make_mal_keyword("a")));
    assert!(!is_mal_keyword(&make_mal_string("a")));
    assert!(make_mal_number(3) == MalData::Number(3));
    assert!(is_mal_list(&form("(1)")));
    assert!(!is_mal_list(&form("[1]")));
    assert!(is_mal_vector(&form("[1]")));
    assert!(is_mal_map(&form("{}")));
    assert!(is_mal_nil(&MalData::Nil));
    assert!(is_mal_true(&MalData::True));
    assert!(is_mal_false(&MalData::False));
    assert!(!is_mal_false(&MalData::Nil));
    assert!(is_list_like(&form("()")) && is_list_like(&form("[]")) && !is_list_like(&form("{}")));
    assert!(mal_bool_value(true) == MalData::True);
    assert!(mal_bool_value(false) == MalData::False);
    assert_eq!(mal_symbol_name(&make_mal_symbol("abc")), Some("abc".to_string()));
    assert_eq!(mal_symbol_name(&make_mal_string("abc")), None);
    assert_eq!(get_wrapped_list(&form("(1 2)")).map(|l| l.len()), Some(2));
    assert_eq!(get_wrapped_list(&form("[1]")).map(|l| l.len()), Some(1));
    assert!(get_wrapped_list(&form("{}")).is_none());
    let items = [MalData::Number(1), make_mal_symbol("a")];
    assert_eq!(show(&make_mal_list_from_slice(&items)), "(1 a)");
    assert_eq!(show(&make_mal_list_from_iter(&items)), "(1 a)");
    assert_eq!(show(&make_mal_list_from_vec(items.to_vec())), "(1 a)");
    assert_eq!(show(&make_mal_vec_from_slice(&items)), "[1 a]");
    assert!(is_pair(&form("(1)")) && is_pair(&form("[1]")));
    assert!(!is_pair(&form("()")) && !is_pair(&form("1")) && !is_pair(&form("{:a 1}")));
    assert!(is_symbol_named(&make_mal_symbol("unquote"), "unquote"));
    assert!(!is_symbol_named(&make_mal_symbol("unquote"), "quote"));
    assert!(!is_symbol_named(&make_mal_string("unquote"), "unquote"));
    assert!(mal_list_head(&form("(a b)")).unwrap() == &make_mal_symbol("a"));
    assert!(mal_list_head(&form("()")).is_none());
    assert!(mal_list_head(&form("[a]")).is_none());
}

#[test]
fn value_equality() {
    assert!(mal_equals(&form("(1 [2 \"a\"])"), &form("[1 (2 \"a\")]")));
    assert!(!mal_equals(&form("(1 2)"), &form("(1 2 3)")));
    assert!(!mal_equals(&form("(1 2)"), &form("(2 1)")));
    assert!(mal_equals(&form("{:a 1 :b {:c [1]}}"), &form("{:b {:c (1)} :a 1}")));
    assert!(!mal_equals(&form("{:a 1}"), &form("{:a 2}")));
    assert!(!mal_equals(&form("{:a 1}"), &form("{:b 1}")));
    assert!(!mal_equals(&form("{:a 1}"), &form("(:a 1)")));
    assert!(!mal_equals(&MalData::Nothing, &MalData::Nothing));
    assert!(!mal_equals(&MalData::Nil, &MalData::False));
    assert!(!mal_equals(&form("\"a\""), &form("a")));
    assert!(mal_equals(&MalData::Atom(1), &MalData::Atom(1)));
    assert!(!mal_equals(&MalData::Atom(1), &MalData::Atom(2)));
    let f = MalData::Function(NativeFunction::new("+", NativeFunctionSelector::Add));
    assert!(!mal_equals(&f, &f.clone()));
    let e = MalData::Exception(Box::new(MalData::Nil));
    assert!(!mal_equals(&e, &e.clone()));
    assert_eq!(are_lists_equal(&form("(1 2)"), &form("[1 2]")), Ok(true));
    assert_eq!(are_lists_equal(&form("(1 2)"), &form("[1 3]")), Ok(false));
    assert_eq!(are_lists_equal(&form("()"), &form("[]")), Ok(true));
    assert_eq!(
        are_lists_equal(&form("(1 2)"), &form("1")),
        Err("both arguments must be lists or vectors".to_string())
    );
    assert_eq!(
        are_lists_equal(&form("{}"), &form("()")),
        Err("both arguments must be lists or vectors".to_string())
    );
}

#[test]
fn map_keys() {
    assert!(mapkey_for(&MalData::True).unwrap() == MapKey::True);
    assert!(mapkey_for(&MalData::False).unwrap() == MapKey::False);
    assert!(mapkey_for(&make_mal_string("a")).unwrap() == MapKey::String("a".to_string()));
    assert!(mapkey_for(&make_mal_symbol("a")).unwrap() == MapKey::Symbol("a".to_string()));
    assert!(mapkey_for(&make_mal_keyword("a")).unwrap() == MapKey::Keyword("\u{29e}a".to_string()));
    assert!(mapkey_for(&MalData::Number(3)).unwrap() == MapKey::Number(3));
    assert!(MapKey::String("a".to_string()) != MapKey::Symbol("a".to_string()));
    assert!(MapKey::True != MapKey::False);
    for bad in [MalData::Nil, form("(1)"), form("[1]"), form("{}"), MalData::Atom(0), MalData::Nothing] {
        assert_eq!(mapkey_for(&bad).err(), Some("value cannot be used as a map key".to_string()));
    }
    let kvs = [make_mal_keyword("a"), MalData::Number(1), make_mal_string("b"), MalData::Nil, make_mal_keyword("a"), MalData::Number(2)];
    let entries = make_hashmap_from_kv_list(&kvs).unwrap();
    assert_eq!(entries.len(), 2);
    assert!(entries[0].1 == MalData::Number(2));
    assert!(entries[1].0 == MapKey::String("b".to_string()));
    assert_eq!(show(&make_mal_map_from_kv_list(&kvs).unwrap()), "{:a 2 \"b\" nil}");
    assert_eq!(make_hashmap_from_kv_list(&kvs[..3]).err(), Some("value missing for map entry".to_string()));
    assert_eq!(make_mal_map_from_kv_list(&[MalData::Nil, MalData::Nil]).err(), Some("value cannot be used as a map key".to_string()));
    assert_eq!(make_hashmap_from_kv_list(&[]).map(|m| m.len()), Ok(0));
}

#[test]
fn closures() {
    let body = form("(+ a 1)");
    let closure = FnClosure::new(3, &symbols(&["a"]), &body);
    assert_eq!(closure.outer_env, 3);
    assert_eq!(closure.binds, symbols(&["a"]));
    assert!(*closure.body == body);
    assert!(!closure.is_macro());
    let as_macro = closure.to_macro();
    assert!(as_macro.is_macro());
    assert_eq!(as_macro.outer_env, 3);
    assert_eq!(as_macro.binds, closure.binds);
    assert!(*as_macro.body == body);
    assert!(!closure.is_macro());
    let copy = closure.clone();
    assert_eq!(copy.binds, closure.binds);
    assert!(!copy.is_macro);
    let native = NativeFunction::new("count", NativeFunctionSelector::Count);
    assert_eq!(native.name, "count");
    assert_eq!(native.callable, NativeFunctionSelector::Count);
}

#[test]
fn clones_are_equal_values() {
    for text in ["1", "\"a\"", ":k", "sym", "(1 [2 {:a (3)}])", "{:a 1 \"b\" [2]}", "nil", "true", "false"] {
        let value = form(text);
        assert!(value.clone() == value);
        assert_eq!(show(&value.clone()), text);
    }
}

#[test]
fn strings_of_a_form_are_collected_in_order() {
    assert_eq!(string_literals(&form("(load-file \"a.mal\")")), vec!["a.mal".to_string()]);
    assert_eq!(
        string_literals(&form("(do (f \"a\" [1 \"b\"]) {:k \"c\" \"key\" 1} \"d\")")),
        vec!["a".to_string(), "b".to_string(), "c".to_string(), "d".to_string()]
    );
    assert_eq!(string_literals(&form("\"x\"")), vec!["x".to_string()]);
    assert_eq!(string_literals(&form("(a :b 1)")), Vec::<String>::new());
}
