use mal::common::MalData;
use mal::env::Runtime;
use mal::repl::init_repl_env;
use mal::repl::rep;

const FUEL: u64 = 1_000_000;

fn session() -> (Runtime, usize) {
    let mut rt = Runtime::new();
    let root = init_repl_env(&mut rt, &Vec::new(), FUEL);
    (rt, root)
}

fn run(rt: &mut Runtime, env: usize, input: &str) -> Result<String, String> {
    rep(rt, env, input, FUEL).map_err(|e| e.message())
}

#[test]
fn addition() {
    let (mut rt, env) = session();
    assert_eq!(run(&mut rt, env, "(+ 1 2)"), Ok("3".to_string()));
}

#[test]
fn define_and_call_function() {
    let (mut rt, env) = session();
    assert_eq!(run(&mut rt, env, "(def! sq (fn* (x) (* x x)))"), Ok("#<function>".to_string()));
    assert_eq!(run(&mut rt, env, "(sq 7)"), Ok("49".to_string()));
}

#[test]
fn let_sees_earlier_bindings() {
    let (mut rt, env) = session();
    assert_eq!(run(&mut rt, env, "(let* (a 1 b (+ a 1)) (+ a b))"), Ok("3".to_string()));
}

#[test]
fn let_bindings_are_sequential() {
    let (mut rt, env) = session();
    assert_eq!(run(&mut rt, env, "(let* (x 1 x 2) x)"), Ok("2".to_string()));
}

#[test]
fn parameter_stays_out_of_outer_env() {
    let (mut rt, env) = session();
    assert_eq!(run(&mut rt, env, "((fn* (x) x) 7)"), Ok("7".to_string()));
    assert_eq!(run(&mut rt, env, "x"), Err("'x' not found".to_string()));
}

#[test]
fn closure_captures_its_frame() {
    let (mut rt, env) = session();
    assert_eq!(
        run(&mut rt, env, "(def! a (let* (n 10) (fn* () n)))"),
        Ok("#<function>".to_string())
    );
    assert_eq!(run(&mut rt, env, "(a)"), Ok("10".to_string()));
    assert_eq!(run(&mut rt, env, "n"), Err("'n' not found".to_string()));
}

#[test]
fn tail_calls_run_in_a_loop() {
    let (mut rt, env) = session();
    assert_eq!(
        run(&mut rt, env, "(def! f (fn* (n) (if (= n 0) :done (f (- n 1)))))"),
        Ok("#<function>".to_string())
    );
    assert_eq!(run(&mut rt, env, "(f 10000)"), Ok(":done".to_string()));
}

#[test]
fn mutual_tail_calls_run_in_a_loop() {
    let (mut rt, env) = session();
    run(&mut rt, env, "(def! even? (fn* (n) (if (= n 0) true (odd? (- n 1)))))").unwrap();
    run(&mut rt, env, "(def! odd? (fn* (n) (if (= n 0) false (even? (- n 1)))))").unwrap();
    assert_eq!(run(&mut rt, env, "(even? 5000)"), Ok("true".to_string()));
    assert_eq!(run(&mut rt, env, "(do 1 (let* (k 4999) (even? k)))"), Ok("false".to_string()));
}

#[test]
fn macro_unless() {
    let (mut rt, env) = session();
    assert_eq!(
        run(&mut rt, env, "(defmacro! unless (fn* (p a b) (list (quote if) p b a)))"),
        Ok("#<function>".to_string())
    );
    assert_eq!(run(&mut rt, env, "(unless false 7 8)"), Ok("7".to_string()));
}

#[test]
fn macroexpand_is_iterative_and_takes_unevaluated_arguments() {
    let (mut rt, env) = session();
    run(&mut rt, env, "(defmacro! unless (fn* (p a b) (list (quote if) p b a)))").unwrap();
    run(&mut rt, env, "(defmacro! unless2 (fn* (p a b) (list (quote unless) p a b)))").unwrap();
    assert_eq!(
        run(&mut rt, env, "(macroexpand (unless2 (foo) 7 8))"),
        Ok("(if (foo) 8 7)".to_string())
    );
    assert_eq!(run(&mut rt, env, "(unless2 false 7 8)"), Ok("7".to_string()));
}

#[test]
fn quasiquote_with_unquote_and_splice() {
    let (mut rt, env) = session();
    assert_eq!(
        run(&mut rt, env, "`(1 ~(+ 1 1) ~@(list 3 4) 5)"),
        Ok("(1 2 3 4 5)".to_string())
    );
}

#[test]
fn atoms_swap_and_deref() {
    let (mut rt, env) = session();
    assert_eq!(run(&mut rt, env, "(def! a (atom 1))"), Ok("(atom 1)".to_string()));
    assert_eq!(run(&mut rt, env, "(swap! a + 10)"), Ok("11".to_string()));
    assert_eq!(run(&mut rt, env, "@a"), Ok("11".to_string()));
    assert_eq!(run(&mut rt, env, "(def! b a)"), Ok("(atom 11)".to_string()));
    assert_eq!(run(&mut rt, env, "(reset! b 5)"), Ok("5".to_string()));
    assert_eq!(run(&mut rt, env, "(deref a)"), Ok("5".to_string()));
}

#[test]
fn atom_swap_with_closure() {
    let (mut rt, env) = session();
    assert_eq!(run(&mut rt, env, "(def! a (atom 0))"), Ok("(atom 0)".to_string()));
    assert_eq!(run(&mut rt, env, "(swap! a (fn* (x) (+ x 5)))"), Ok("5".to_string()));
    assert_eq!(run(&mut rt, env, "@a"), Ok("5".to_string()));
}

#[test]
fn unbound_symbol_is_an_error() {
    let (mut rt, env) = session();
    assert_eq!(run(&mut rt, env, "(foo)"), Err("'foo' not found".to_string()));
}

#[test]
fn calling_a_non_function_is_an_error() {
    let (mut rt, env) = session();
    assert_eq!(
        run(&mut rt, env, "((quote x) 1)"),
        Err("first element is not a function".to_string())
    );
}

#[test]
fn list_equals_vector_with_equal_items() {
    let (mut rt, env) = session();
    assert_eq!(run(&mut rt, env, "(= (list 1 2 (list 3)) [1 2 [3]])"), Ok("true".to_string()));
    assert_eq!(run(&mut rt, env, "(= (list 1 2) [1 3])"), Ok("false".to_string()));
    assert_eq!(run(&mut rt, env, "(= {:a 1 :b 2} {:b 2 :a 1})"), Ok("true".to_string()));
    assert_eq!(run(&mut rt, env, "(= {:a 1 :b 2} {:b 2 :a 2})"), Ok("false".to_string()));
    assert!(MalData::Nil == MalData::Nil);
}
