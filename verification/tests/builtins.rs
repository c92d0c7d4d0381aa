use mal::builtins::{
    apply_fun, call_native, init_ns_map, mal_core_add, mal_core_assoc, mal_core_concat,
    mal_core_conj, mal_core_cons, mal_core_count, mal_core_div, mal_core_mul, mal_core_nth,
    is_mal_list_or_vector, mal_core_seq, mal_core_string_p, mal_core_sub, mal_core_time_ms,
    mal_number_value, native_name, number_arg, FunContext, MalFun,
};
use mal::common::{MalData, NativeFunction, NativeFunctionSelector};
use mal::env::Runtime;
use mal::reader::read_str;
use mal::repl::{init_repl_env, rep};

const FUEL: u64 = 1_000_000;

fn session() -> (Runtime, usize) {
    let mut rt = Runtime::new();
    let root = init_repl_env(&mut rt, &Vec::new(), FUEL);
    (rt, root)
}

fn run(rt: &mut Runtime, env: usize, input: &str) -> Result<String, String> {
    rep(rt, env, input, FUEL).map_err(|e| e.message())
}

fn ok(input: &str) -> String {
    let (mut rt, env) = session();
    run(&mut rt, env, input).unwrap()
}

fn err(input: &str) -> String {
    let (mut rt, env) = session();
    run(&mut rt, env, input).unwrap_err()
}

fn num(n: i32) -> MalData {
    MalData::Number(n)
}

#[test]
fn arithmetic() {
    assert_eq!(ok("(+ 1 2)"), "3");
    assert_eq!(ok("(- 1 2)"), "-1");
    assert_eq!(ok("(* 6 7)"), "42");
    assert_eq!(ok("(/ 7 2)"), "3");
    assert_eq!(ok("(/ -7 2)"), "-3");
    assert_eq!(ok("(/ 7 -2)"), "-3");
    assert_eq!(ok("(/ -7 -2)"), "3");
    assert_eq!(ok("(/ 0 5)"), "0");
    assert!(mal_core_add(&[num(2), num(3)]).unwrap() == num(5));
    assert!(mal_core_sub(&[num(2), num(3)]).unwrap() == num(-1));
    assert!(mal_core_mul(&[num(-2), num(3)]).unwrap() == num(-6));
    assert!(mal_core_div(&[num(9), num(3)]).unwrap() == num(3));
}

#[test]
fn arithmetic_errors() {
    assert_eq!(err("(+ 1)"), "add: two number arguments required");
    assert_eq!(err("(+ 1 \"a\")"), "add: two number arguments required");
    assert_eq!(err("(- nil 1)"), "sub: two number arguments required");
    assert_eq!(err("(* 1)"), "mul: two number arguments required");
    assert_eq!(err("(/ 1)"), "div: two number arguments required");
    assert_eq!(err("(/ 1 0)"), "division failed");
    assert_eq!(err("(/ -2147483648 -1)"), "division failed");
    assert_eq!(err("(+ 2147483647 1)"), "add: result out of range");
    assert_eq!(err("(- -2147483648 1)"), "sub: result out of range");
    assert_eq!(err("(* 65536 65536)"), "mul: result out of range");
}

#[test]
fn number_of_a_value() {
    assert_eq!(number_arg(&num(4)), Some(4));
    assert_eq!(number_arg(&MalData::Nil), None);
    assert_eq!(mal_number_value(&num(-4)), Some(-4));
    assert_eq!(mal_number_value(&MalData::String("4".to_string())), None);
}

#[test]
fn comparisons() {
    assert_eq!(ok("(< 1 2)"), "true");
    assert_eq!(ok("(< 2 2)"), "false");
    assert_eq!(ok("(<= 2 2)"), "true");
    assert_eq!(ok("(<= 3 2)"), "false");
    assert_eq!(ok("(> 3 2)"), "true");
    assert_eq!(ok("(> 2 2)"), "false");
    assert_eq!(ok("(>= 2 2)"), "true");
    assert_eq!(ok("(>= 1 2)"), "false");
    assert_eq!(ok("(< 1 \"a\")"), "false");
    assert_eq!(err("(< 1)"), "2 arguments required");
    assert_eq!(err("(>=)"), "2 arguments required");
}

#[test]
fn equality() {
    assert_eq!(ok("(= 1 1)"), "true");
    assert_eq!(ok("(= 1 2)"), "false");
    assert_eq!(ok("(= nil nil)"), "true");
    assert_eq!(ok("(= true true)"), "true");
    assert_eq!(ok("(= false false)"), "true");
    assert_eq!(ok("(= false nil)"), "false");
    assert_eq!(ok("(= \"a\" \"a\")"), "true");
    assert_eq!(ok("(= \"a\" (quote a))"), "false");
    assert_eq!(ok("(= :a :a)"), "true");
    assert_eq!(ok("(= :a \"a\")"), "false");
    assert_eq!(ok("(= (quote a) (quote a))"), "true");
    assert_eq!(ok("(= (list) [])"), "true");
    assert_eq!(ok("(= (list 1) [])"), "false");
    assert_eq!(ok("(= [1 [2 3]] (list 1 (list 2 3)))"), "true");
    assert_eq!(ok("(= {} {})"), "true");
    assert_eq!(ok("(= {:a [1]} {:a (list 1)})"), "true");
    assert_eq!(ok("(= {:a 1} {:a 1 :b 2})"), "false");
    assert_eq!(ok("(= + +)"), "false");
    assert_eq!(ok("(= (fn* () 1) (fn* () 1))"), "false");
    assert_eq!(ok("(let* (a (atom 1)) (= a a))"), "true");
    assert_eq!(ok("(= (atom 1) (atom 1))"), "false");
    assert_eq!(err("(= 1)"), "2 arguments required");
}

#[test]
fn list_functions() {
    assert_eq!(ok("(list)"), "()");
    assert_eq!(ok("(list 1 (list 2) \"x\")"), "(1 (2) \"x\")");
    assert_eq!(ok("(list? (list))"), "true");
    assert_eq!(ok("(list? nil)"), "true");
    assert_eq!(ok("(list? [1])"), "false");
    assert_eq!(err("(list?)"), "argument required");
    assert_eq!(ok("(empty? (list))"), "true");
    assert_eq!(ok("(empty? [])"), "true");
    assert_eq!(ok("(empty? nil)"), "true");
    assert_eq!(ok("(empty? (list 1))"), "false");
    assert_eq!(ok("(empty? 1)"), "false");
    assert_eq!(err("(empty?)"), "argument required");
    assert_eq!(ok("(count (list 1 2 3))"), "3");
    assert_eq!(ok("(count [1 2])"), "2");
    assert_eq!(ok("(count nil)"), "0");
    assert_eq!(err("(count {:a 1})"), "list argument required");
    assert_eq!(err("(count)"), "argument required");
    assert!(mal_core_count(&[read_str("(1 2 3 4)").unwrap()]).unwrap() == num(4));
}

#[test]
fn cons_and_concat() {
    assert_eq!(ok("(cons 1 (list 2 3))"), "(1 2 3)");
    assert_eq!(ok("(cons 1 [2 3])"), "(1 2 3)");
    assert_eq!(ok("(cons (list 1) (list))"), "((1))");
    assert_eq!(err("(cons 1)"), "head and tail required");
    assert_eq!(err("(cons 1 2)"), "head and tail required");
    assert_eq!(ok("(concat)"), "()");
    assert_eq!(ok("(concat (list 1 2) [3] (list) (list 4 5))"), "(1 2 3 4 5)");
    assert_eq!(err("(concat (list 1) 2)"), "only list and vector arguments allowed");
    assert!(mal_core_cons(&[num(1), read_str("(2)").unwrap()]).unwrap() == read_str("(1 2)").unwrap());
    assert!(
        mal_core_concat(&[read_str("(1)").unwrap(), read_str("[2 3]").unwrap()]).unwrap()
            == read_str("(1 2 3)").unwrap()
    );
}

#[test]
fn nth_first_rest() {
    assert_eq!(ok("(nth (list 1 2 3) 0)"), "1");
    assert_eq!(ok("(nth [1 2 3] 2)"), "3");
    assert_eq!(err("(nth (list 1 2 3) 3)"), "index out of range");
    assert_eq!(err("(nth (list 1 2 3) -1)"), "index out of range");
    assert_eq!(err("(nth)"), "list argument required");
    assert_eq!(err("(nth 1 1)"), "list argument required");
    assert_eq!(err("(nth (list 1))"), "index argument required");
    assert_eq!(err("(nth (list 1) \"0\")"), "index argument required");
    assert_eq!(ok("(first (list 1 2))"), "1");
    assert_eq!(ok("(first [])"), "nil");
    assert_eq!(ok("(first nil)"), "nil");
    assert_eq!(err("(first 1)"), "list argument required");
    assert_eq!(err("(first)"), "list argument required");
    assert_eq!(ok("(rest (list 1 2 3))"), "(2 3)");
    assert_eq!(ok("(rest [1])"), "()");
    assert_eq!(ok("(rest (list))"), "()");
    assert_eq!(ok("(rest nil)"), "()");
    assert_eq!(err("(rest 1)"), "list argument required");
    assert!(mal_core_nth(&[read_str("(5 6)").unwrap(), num(1)]).unwrap() == num(6));
}

#[test]
fn predicates() {
    assert_eq!(ok("(nil? nil)"), "true");
    assert_eq!(ok("(nil? false)"), "false");
    assert_eq!(ok("(true? true)"), "true");
    assert_eq!(ok("(true? 1)"), "false");
    assert_eq!(ok("(false? false)"), "true");
    assert_eq!(ok("(false? nil)"), "false");
    assert_eq!(ok("(symbol? (quote a))"), "true");
    assert_eq!(ok("(symbol? \"a\")"), "false");
    assert_eq!(ok("(keyword? :a)"), "true");
    assert_eq!(ok("(keyword? \"a\")"), "false");
    assert_eq!(ok("(vector? [1])"), "true");
    assert_eq!(ok("(vector? (list 1))"), "false");
    assert_eq!(ok("(map? {})"), "true");
    assert_eq!(ok("(map? [])"), "false");
    assert_eq!(ok("(sequential? [1])"), "true");
    assert_eq!(ok("(sequential? (list))"), "true");
    assert_eq!(ok("(sequential? {})"), "false");
    assert_eq!(ok("(atom? (atom 1))"), "true");
    assert_eq!(ok("(atom? 1)"), "false");
    assert_eq!(err("(nil?)"), "nil?: argument required");
    assert_eq!(err("(true?)"), "true?: argument required");
    assert_eq!(err("(false?)"), "false?: argument required");
    assert_eq!(err("(symbol?)"), "symbol?: argument required");
    assert_eq!(err("(keyword?)"), "keyword?: argument required");
    assert_eq!(err("(vector?)"), "vector?: argument required");
    assert_eq!(err("(map?)"), "map?: argument required");
    assert_eq!(err("(sequential?)"), "sequential?: argument required");
    assert_eq!(err("(atom?)"), "atom?: argument required");
}

#[test]
fn symbols_keywords_vectors() {
    assert_eq!(ok("(symbol \"abc\")"), "abc");
    assert_eq!(ok("(= (symbol \"abc\") (quote abc))"), "true");
    assert_eq!(err("(symbol)"), "symbol: argument required");
    assert_eq!(err("(symbol 1)"), "symbol: name must be string");
    assert_eq!(ok("(keyword \"abc\")"), ":abc");
    assert_eq!(ok("(= (keyword \"abc\") :abc)"), "true");
    assert_eq!(err("(keyword)"), "keyword: argument required");
    assert_eq!(err("(keyword :a)"), "keyword: name must be string");
    assert_eq!(ok("(vector)"), "[]");
    assert_eq!(ok("(vector 1 (list 2))"), "[1 (2)]");
}

#[test]
fn maps() {
    assert_eq!(ok("(hash-map)"), "{}");
    assert_eq!(ok("(hash-map :a 1 \"b\" 2 3 4 true 5)"), "{:a 1 \"b\" 2 3 4 true 5}");
    assert_eq!(ok("(hash-map :a 1 :a 2)"), "{:a 2}");
    assert_eq!(err("(hash-map :a)"), "hash-map: even number of arguments required");
    assert_eq!(err("(hash-map (list) 1)"), "value cannot be used as a map key");
    assert_eq!(err("(hash-map nil 1)"), "value cannot be used as a map key");
    assert_eq!(ok("(assoc {:a 1} :b 2 :a 3)"), "{:a 3 :b 2}");
    assert_eq!(err("(assoc {:a 1})"), "map and key/value arguments required");
    assert_eq!(err("(assoc {:a 1} :b)"), "key/value pairs required");
    assert_eq!(err("(assoc 1 :b 2)"), "invalid arguments");
    assert_eq!(err("(assoc {} [1] 2)"), "value cannot be used as a map key");
    assert_eq!(ok("(dissoc {:a 1 :b 2 :c 3} :b :x :a)"), "{:c 3}");
    assert_eq!(err("(dissoc {:a 1})"), "map and keys arguments required");
    assert_eq!(err("(dissoc 1 :a)"), "invalid arguments");
    assert_eq!(err("(dissoc {} nil)"), "value cannot be used as a map key");
    assert_eq!(ok("(get {:a 1} :a)"), "1");
    assert_eq!(ok("(get {:a 1} :b)"), "nil");
    assert_eq!(ok("(get nil :a)"), "nil");
    assert_eq!(ok("(get {\"a\" 1} :a)"), "nil");
    assert_eq!(err("(get {:a 1})"), "map and key arguments required");
    assert_eq!(err("(get 1 :a)"), "invalid arguments");
    assert_eq!(err("(get {} (list))"), "value cannot be used as a map key");
    assert_eq!(ok("(contains? {:a 1} :a)"), "true");
    assert_eq!(ok("(contains? {:a 1} :b)"), "false");
    assert_eq!(err("(contains? {:a 1})"), "map and key arguments required");
    assert_eq!(err("(contains? 1 :a)"), "invalid arguments");
    assert_eq!(ok("(keys {:a 1 \"b\" 2 3 4})"), "(:a \"b\" 3)");
    assert_eq!(ok("(vals {:a 1 \"b\" (list 2)})"), "(1 (2))");
    assert_eq!(err("(keys 1)"), "keys: map argument required");
    assert_eq!(err("(vals)"), "vals: map argument required");
    let map = read_str("{:a 1}").unwrap();
    let more = mal_core_assoc(&[map, read_str(":b").unwrap(), num(2)]).unwrap();
    assert!(more == read_str("{:b 2 :a 1}").unwrap());
}

#[test]
fn maps_evaluate_their_values() {
    assert_eq!(ok("{:a (+ 1 2) \"b\" [(+ 1 1)]}"), "{:a 3 \"b\" [2]}");
    assert_eq!(err("{:a missing}"), "'missing' not found");
}

#[test]
fn printing_functions() {
    assert_eq!(ok("(pr-str)"), "\"\"");
    assert_eq!(ok("(pr-str 1 \"a\" :b (list \"c\"))"), "\"1 \\\"a\\\" :b (\\\"c\\\")\"");
    assert_eq!(ok("(str)"), "\"\"");
    assert_eq!(ok("(str 1 \"a\" :b (list \"c\"))"), "\"1a:b(c)\"");
    let (mut rt, env) = session();
    assert_eq!(run(&mut rt, env, "(prn 1 \"a\")"), Ok("nil".to_string()));
    assert_eq!(run(&mut rt, env, "(println 1 \"a\\nb\")"), Ok("nil".to_string()));
    assert_eq!(rt.take_output(), vec!["1 \"a\"".to_string(), "1 a\nb".to_string()]);
    assert_eq!(rt.take_output(), Vec::<String>::new());
}

#[test]
fn read_string_reads_a_form() {
    assert_eq!(ok("(read-string \"(1 2 (3))\")"), "(1 2 (3))");
    assert_eq!(ok("(read-string \"7 ;; comment\")"), "7");
    assert_eq!(err("(read-string 1)"), "string argument required");
    assert_eq!(err("(read-string)"), "string argument required");
    assert_eq!(err("(read-string \"(1\")"), "expected ')', got EOF");
}

#[test]
fn slurp_reads_provided_files() {
    let (mut rt, env) = session();
    rt.provide_file("notes.txt", "some text\n".to_string());
    assert_eq!(rt.file_contents("notes.txt"), Some("some text\n".to_string()));
    assert_eq!(rt.file_contents("other.txt"), None);
    assert_eq!(run(&mut rt, env, "(slurp \"notes.txt\")"), Ok("\"some text\\n\"".to_string()));
    assert_eq!(
        run(&mut rt, env, "(slurp \"other.txt\")"),
        Err("slurp: file is not available".to_string())
    );
    assert_eq!(run(&mut rt, env, "(slurp 1)"), Err("file name argument required".to_string()));
    assert_eq!(run(&mut rt, env, "(slurp)"), Err("file name argument required".to_string()));
}

#[test]
fn load_file_evaluates_every_form_of_a_file() {
    let (mut rt, env) = session();
    rt.provide_file("inc.mal", "(def! inc (fn* (a) (+ a 1)))\n(def! five (inc 4))\n; end\n".to_string());
    assert_eq!(run(&mut rt, env, "(load-file \"inc.mal\")"), Ok("5".to_string()));
    assert_eq!(run(&mut rt, env, "(inc five)"), Ok("6".to_string()));
}

#[test]
fn atoms() {
    assert_eq!(ok("(atom 1)"), "(atom 1)");
    assert_eq!(err("(atom)"), "atom: argument required");
    assert_eq!(ok("(deref (atom (list 1)))"), "(1)");
    assert_eq!(ok("(deref 1)"), "nil");
    assert_eq!(err("(deref)"), "deref: argument required");
    assert_eq!(ok("(let* (a (atom 1)) (do (reset! a 2) @a))"), "2");
    assert_eq!(ok("(reset! (atom 1) 3)"), "3");
    assert_eq!(err("(reset! 1 2)"), "atom expected");
    assert_eq!(err("(reset! (atom 1))"), "atom expected");
    assert_eq!(ok("(let* (a (atom 2)) (do (swap! a * 21) @a))"), "42");
    assert_eq!(ok("(swap! (atom 2) list 3 7)"), "(2 3 7)");
    assert_eq!(ok("(swap! (atom 1) (fn* (x & more) (count more)) 7 8 9)"), "3");
    assert_eq!(err("(swap! 1 +)"), "atom expected");
    assert_eq!(err("(swap! (atom 1))"), "atom expected");
    assert_eq!(err("(swap! (atom 1) 5)"), "cannot apply: not a function");
    assert_eq!(err("(swap! (atom 1) (fn* (x) missing))"), "'missing' not found");
}

#[test]
fn atom_keeps_its_value_when_swap_fails() {
    let (mut rt, env) = session();
    run(&mut rt, env, "(def! a (atom 1))").unwrap();
    assert_eq!(run(&mut rt, env, "(swap! a / 0)"), Err("division failed".to_string()));
    assert_eq!(run(&mut rt, env, "@a"), Ok("1".to_string()));
}

#[test]
fn throw_surfaces_as_an_error_with_the_display_text() {
    assert_eq!(err("(throw \"boom\")"), "boom");
    assert_eq!(err("(throw (list 1 \"a\"))"), "(1 a)");
    assert_eq!(err("(throw {:code 7})"), "{:code 7}");
    assert_eq!(err("(throw)"), "exception argument required");
    assert_eq!(err("(throw 1 2)"), "exception argument required");
    assert_eq!(err("(list 1 (throw 2) (missing))"), "2");
    assert_eq!(err("(do (throw 1) 2)"), "1");
    assert_eq!(err("(if (throw 1) 2 3)"), "1");
    assert_eq!(err("(let* (a (throw \"in let\")) a)"), "in let");
    assert_eq!(err("((fn* (x) (throw x)) 9)"), "9");
    assert_eq!(err("(apply throw (list 5))"), "5");
    assert_eq!(err("(map throw (list 6 7))"), "6");
    assert_eq!(err("(def! y (throw 8))"), "8");
    let (mut rt, env) = session();
    assert_eq!(run(&mut rt, env, "(def! y (throw 8))"), Err("8".to_string()));
    assert_eq!(run(&mut rt, env, "y"), Err("'y' not found".to_string()));
}

#[test]
fn apply_and_map() {
    assert_eq!(ok("(apply + (list 1 2))"), "3");
    assert_eq!(ok("(apply + 1 (list 2))"), "3");
    assert_eq!(ok("(apply list 1 2 [3 4])"), "(1 2 3 4)");
    assert_eq!(ok("(apply (fn* (a & b) (list a b)) 1 2 (list 3))"), "(1 (2 3))");
    assert_eq!(ok("(apply apply (list + (list 1 2)))"), "3");
    assert_eq!(err("(apply +)"), "apply: function and argument vector required");
    assert_eq!(err("(apply + 1 2)"), "apply: invalid argument vector");
    assert_eq!(err("(apply 1 (list))"), "cannot apply: not a function");
    assert_eq!(ok("(map (fn* (x) (* x x)) (list 1 2 3))"), "(1 4 9)");
    assert_eq!(ok("(map list [1 2])"), "((1) (2))");
    assert_eq!(ok("(map + (list))"), "()");
    assert_eq!(err("(map)"), "map: function argument required");
    assert_eq!(err("(map +)"), "map: sequence argument required");
    assert_eq!(err("(map + 1)"), "map: invalid sequence argument");
    assert_eq!(err("(map + (list 1))"), "add: two number arguments required");
    assert_eq!(err("(map 1 (list 1))"), "cannot apply: not a function");
}

#[test]
fn eval_evaluates_in_the_root_frame() {
    assert_eq!(ok("(eval (list + 1 2))"), "3");
    assert_eq!(ok("(eval (read-string \"(* 2 3)\"))"), "6");
    assert_eq!(ok("(eval 5)"), "5");
    assert_eq!(err("(eval)"), "eval: argument required");
    let (mut rt, env) = session();
    run(&mut rt, env, "(def! x 1)").unwrap();
    assert_eq!(run(&mut rt, env, "(let* (x 2) (eval (quote x)))"), Ok("1".to_string()));
    assert_eq!(
        run(&mut rt, env, "(let* (z 2) (eval (quote z)))"),
        Err("'z' not found".to_string())
    );
    assert_eq!(run(&mut rt, env, "((fn* (x) (eval (quote (def! w x)))) 5)"), Ok("1".to_string()));
    assert_eq!(run(&mut rt, env, "w"), Ok("1".to_string()));
}

#[test]
fn not_is_defined_in_the_language() {
    assert_eq!(ok("(not nil)"), "true");
    assert_eq!(ok("(not false)"), "true");
    assert_eq!(ok("(not 0)"), "false");
    assert_eq!(ok("(not (list))"), "false");
    assert_eq!(ok("(not \"\")"), "false");
}

#[test]
fn argv_holds_the_given_strings() {
    let mut rt = Runtime::new();
    let env = init_repl_env(&mut rt, &vec!["a".to_string(), "b c".to_string()], FUEL);
    assert_eq!(run(&mut rt, env, "*ARGV*"), Ok("(\"a\" \"b c\")".to_string()));
    assert_eq!(ok("*ARGV*"), "()");
}

#[test]
fn seq_and_conj() {
    let list = read_str("(1 2)").unwrap();
    let vector = read_str("[1 2]").unwrap();
    assert!(mal_core_seq(&[list.clone()]).unwrap() == list);
    assert!(matches!(mal_core_seq(&[vector.clone()]), Ok(MalData::List(_))));
    assert!(mal_core_seq(&[vector.clone()]).unwrap() == list);
    assert!(matches!(mal_core_seq(&[read_str("()").unwrap()]), Ok(MalData::Nil)));
    assert!(matches!(mal_core_seq(&[read_str("[]").unwrap()]), Ok(MalData::Nil)));
    assert!(matches!(mal_core_seq(&[MalData::Nil]), Ok(MalData::Nil)));
    assert!(matches!(mal_core_seq(&[MalData::String(String::new())]), Ok(MalData::Nil)));
    assert!(
        mal_core_seq(&[MalData::String("ab".to_string())]).unwrap()
            == read_str("(\"a\" \"b\")").unwrap()
    );
    assert_eq!(mal_core_seq(&[num(1)]), Err("seq: argument of illegal type".to_string()));
    assert_eq!(mal_core_seq(&[]), Err("seq: argument required".to_string()));
    assert!(matches!(mal_core_conj(&[list.clone(), num(3), num(4)]), Ok(MalData::List(_))));
    assert!(mal_core_conj(&[list.clone(), num(3), num(4)]).unwrap() == read_str("(4 3 1 2)").unwrap());
    assert!(matches!(mal_core_conj(&[vector.clone(), num(3), num(4)]), Ok(MalData::Vector(_))));
    assert!(mal_core_conj(&[vector, num(3), num(4)]).unwrap() == read_str("[1 2 3 4]").unwrap());
    assert_eq!(mal_core_conj(&[list]), Err("conj: seq arguments required".to_string()));
    assert_eq!(mal_core_conj(&[num(1), num(2)]), Err("illegal type for argument".to_string()));
}

#[test]
fn time_is_cut_to_a_number() {
    assert!(mal_core_time_ms(0).unwrap() == num(0));
    assert!(mal_core_time_ms(1234).unwrap() == num(1234));
    assert!(mal_core_time_ms(0x7fff_ffff).unwrap() == num(i32::MAX));
    assert!(mal_core_time_ms(0x8000_0000).unwrap() == num(i32::MIN));
    assert!(mal_core_time_ms(0xffff_ffff).unwrap() == num(-1));
    assert!(mal_core_time_ms(0x1_0000_0005).unwrap() == num(5));
    assert!(mal_core_time_ms(1_700_000_000_000).unwrap() == num(1_700_000_000_000u64 as i32));
}

#[test]
fn namespace_holds_every_built_in_under_its_name() {
    let ns = init_ns_map();
    assert_eq!(ns.len(), 50);
    assert_eq!(ns[0].name, "+");
    assert_eq!(ns[0].callable, NativeFunctionSelector::Add);
    assert_eq!(ns[31].name, "map");
    assert_eq!(ns[31].callable, NativeFunctionSelector::MapSeq);
    assert_eq!(ns[49].name, "sequential?");
    for f in ns.iter() {
        assert_eq!(f.name, native_name(f.callable));
    }
    assert_eq!(native_name(NativeFunctionSelector::Eval), "eval");
    let (mut rt, env) = session();
    for f in ns.iter() {
        assert_eq!(run(&mut rt, env, &f.name), Ok("#<function>".to_string()));
    }
    assert_eq!(run(&mut rt, env, "eval"), Ok("#<function>".to_string()));
}

#[test]
fn callables_can_be_applied_directly() {
    let (mut rt, env) = session();
    let ctx = FunContext { env, fuel: FUEL };
    let plus = NativeFunction::new("+", NativeFunctionSelector::Add);
    assert!(plus.apply(&mut rt, &ctx, &[num(1), num(2)]).unwrap() == num(3));
    assert!(call_native(&mut rt, &ctx, NativeFunctionSelector::Mul, &[num(4), num(5)]).unwrap() == num(20));
    run(&mut rt, env, "(def! twice (fn* (x) (* 2 x)))").unwrap();
    let twice = mal::env::Env::get(&rt, env, "twice").unwrap();
    assert!(apply_fun(&mut rt, &ctx, &twice, &[num(21)]).unwrap() == num(42));
    match &twice {
        MalData::FnClosure(closure) => {
            assert!(closure.apply(&mut rt, &ctx, &[num(4)]).unwrap() == num(8));
            assert_eq!(
                closure.apply(&mut rt, &ctx, &[]),
                Err("illegal binding: parameters and arguments do not match".to_string())
            );
        }
        other => panic!("not a closure: {:?}", other),
    }
    assert_eq!(
        apply_fun(&mut rt, &ctx, &num(1), &[]),
        Err("cannot apply: not a function".to_string())
    );
    let none = FunContext { env, fuel: 0 };
    assert_eq!(
        apply_fun(&mut rt, &none, &twice, &[num(1)]),
        Err("evaluation budget exhausted".to_string())
    );
}

#[test]
fn string_predicate() {
    assert!(mal_core_string_p(&[MalData::String("a".to_string())]).unwrap() == MalData::True);
    assert!(mal_core_string_p(&[read_str(":a").unwrap()]).unwrap() == MalData::False);
    assert!(mal_core_string_p(&[num(1)]).unwrap() == MalData::False);
    assert_eq!(mal_core_string_p(&[]), Err("string?: argument required".to_string()));
    assert!(is_mal_list_or_vector(&read_str("(1)").unwrap()));
    assert!(is_mal_list_or_vector(&read_str("[]").unwrap()));
    assert!(!is_mal_list_or_vector(&read_str("{}").unwrap()));
    assert!(!is_mal_list_or_vector(&MalData::Nil));
}
