use mal::common::{make_mal_keyword, make_mal_symbol, MalData, MapKey};
use mal::env::Runtime;
use mal::printer::{make_readable_string, number_to_string, pr_str, PrStr};
use mal::reader::{parse_number, read_str, read_tokens, tokenizer, transform_string, Reader};
use std::rc::Rc;

fn read(text: &str) -> MalData {
    read_str(text).unwrap()
}

fn round_trip(text: &str) -> String {
    let rt = Runtime::new();
    let value = read(text);
    let printed = pr_str(&value, &rt, true);
    let again = read(&printed);
    assert!(value == again, "{} is read back as another value", printed);
    printed
}

fn list(items: Vec<MalData>) -> MalData {
    MalData::List(Rc::new(items))
}

#[test]
fn tokenizer_cuts_text_into_tokens() {
    assert_eq!(tokenizer("(+ 1 2)"), vec!["(", "+", "1", "2", ")"]);
    assert_eq!(tokenizer("  ( a,b ,, [c] )"), vec!["(", "a", "b", "[", "c", "]", ")"]);
    assert_eq!(tokenizer("~@(a) ~b 'c `d @e"), vec![
        "~@", "(", "a", ")", "~", "b", "'", "c", "`", "d", "@", "e"
    ]);
    assert_eq!(tokenizer("\"a b\" ; rest"), vec!["\"a b\"", "; rest"]);
    assert_eq!(tokenizer("\"open"), vec!["\"open"]);
    assert_eq!(tokenizer("x\n"), vec!["x", ""]);
}

#[test]
fn reader_leaves_comments_out() {
    let tokens: Vec<String> = vec!["; one", "(", "a", ";two", ")"]
        .into_iter()
        .map(|t| t.to_string())
        .collect();
    let mut reader = Reader::new(&tokens);
    assert_eq!(reader.peek(), Some("("));
    assert_eq!(reader.next(), Some("(".to_string()));
    assert_eq!(reader.next(), Some("a".to_string()));
    assert_eq!(reader.next(), Some(")".to_string()));
    assert_eq!(reader.peek(), None);
    assert_eq!(reader.next(), None);
}

#[test]
fn reads_atoms() {
    assert!(read("nil") == MalData::Nil);
    assert!(read("true") == MalData::True);
    assert!(read("false") == MalData::False);
    assert!(read("42") == MalData::Number(42));
    assert!(read("-17") == MalData::Number(-17));
    assert!(read("2147483647") == MalData::Number(i32::MAX));
    assert!(read("-2147483648") == MalData::Number(i32::MIN));
    assert!(read("abc") == make_mal_symbol("abc"));
    assert!(read("-") == make_mal_symbol("-"));
    assert!(read("-a1") == make_mal_symbol("-a1"));
    assert!(read(":kw") == make_mal_keyword("kw"));
    assert!(read("\"hi\"") == MalData::String("hi".to_string()));
    assert!(read("\"\"") == MalData::String(String::new()));
}

#[test]
fn keyword_is_no_string() {
    assert!(read(":kw") != MalData::String("kw".to_string()));
    assert!(read(":kw") != MalData::String("\u{29e}kw".to_string()));
    match read(":kw") {
        MalData::Keyword(name) => assert_eq!(name, "\u{29e}kw"),
        other => panic!("not a keyword: {:?}", other),
    }
}

#[test]
fn empty_input_reads_as_nothing() {
    assert!(matches!(read(""), MalData::Nothing));
    assert!(matches!(read("   "), MalData::Nothing));
    assert!(matches!(read("; only a comment"), MalData::Nothing));
    assert!(matches!(read("\n"), MalData::Nothing));
}

#[test]
fn reads_sequences() {
    assert!(read("(1 2 3)") == list(vec![MalData::Number(1), MalData::Number(2), MalData::Number(3)]));
    assert!(read("()") == list(vec![]));
    assert!(matches!(read("[1 2]"), MalData::Vector(_)));
    assert!(matches!(read("(1 2)"), MalData::List(_)));
    assert!(read("[1 (2)]") == read("(1 [2])"));
    match read("{\"a\" 1 :b 2}") {
        MalData::HashMap(entries) => {
            assert_eq!(entries.len(), 2);
            assert!(entries[0].0 == MapKey::String("a".to_string()));
            assert!(entries[0].1 == MalData::Number(1));
            assert!(entries[1].0 == MapKey::Keyword("\u{29e}b".to_string()));
            assert!(entries[1].1 == MalData::Number(2));
        }
        other => panic!("not a map: {:?}", other),
    }
}

#[test]
fn later_map_entry_replaces_earlier() {
    let rt = Runtime::new();
    assert_eq!(pr_str(&read("{:a 1 :b 2 :a 3}"), &rt, true), "{:a 3 :b 2}");
}

#[test]
fn reader_macros_expand() {
    let rt = Runtime::new();
    assert_eq!(pr_str(&read("'x"), &rt, true), "(quote x)");
    assert_eq!(pr_str(&read("`(a ~b ~@c)"), &rt, true), "(quasiquote (a (unquote b) (splice-unquote c)))");
    assert_eq!(pr_str(&read("@a"), &rt, true), "(deref a)");
}

#[test]
fn reads_only_the_first_form() {
    assert!(read("1 2 3") == MalData::Number(1));
    assert!(read("(a) (b)") == read("(a)"));
}

#[test]
fn reader_errors() {
    assert_eq!(read_str(")"), Err("unbalanced parenthesis".to_string()));
    assert_eq!(read_str("(1 ]"), Err("unbalanced parenthesis".to_string()));
    assert_eq!(read_str("(1 2"), Err("expected ')', got EOF".to_string()));
    assert_eq!(read_str("[1 2"), Err("expected ']', got EOF".to_string()));
    assert_eq!(read_str("{1 2"), Err("expected '}', got EOF".to_string()));
    assert_eq!(read_str("\"abc"), Err("expected '\"', got EOF".to_string()));
    assert_eq!(read_str("(\"abc)"), Err("expected '\"', got EOF".to_string()));
    assert_eq!(read_str("\"abc\\\""), Err("expected '\"', got EOF".to_string()));
    assert_eq!(read_str("{:a}"), Err("value missing for map entry".to_string()));
    assert_eq!(read_str("{(1) 2}"), Err("value cannot be used as a map key".to_string()));
    assert_eq!(read_str("2147483648"), Err("number out of range".to_string()));
    assert_eq!(read_str("-2147483649"), Err("number out of range".to_string()));
    assert_eq!(read_str("99999999999999999999999"), Err("number out of range".to_string()));
}

#[test]
fn read_tokens_reads_given_tokens() {
    let tokens: Vec<String> =
        vec!["(", "a", ";c", "1", ")"].into_iter().map(|t| t.to_string()).collect();
    assert!(read_tokens(&tokens).unwrap() == list(vec![make_mal_symbol("a"), MalData::Number(1)]));
    let open: Vec<String> = vec!["(".to_string()];
    assert_eq!(read_tokens(&open), Err("expected ')', got EOF".to_string()));
    let none: Vec<String> = vec![];
    assert!(matches!(read_tokens(&none), Ok(MalData::Nothing)));
}

#[test]
fn string_escapes_are_decoded_left_to_right() {
    let chars = |s: &str| s.chars().collect::<Vec<char>>();
    assert_eq!(transform_string(&chars("\"a\\nb\"")), Some("a\nb".to_string()));
    assert_eq!(transform_string(&chars("\"a\\\"b\"")), Some("a\"b".to_string()));
    assert_eq!(transform_string(&chars("\"a\\\\b\"")), Some("a\\b".to_string()));
    assert_eq!(transform_string(&chars("\"a\\\\nb\"")), Some("a\\nb".to_string()));
    assert_eq!(transform_string(&chars("\"a\\tb\"")), Some("a\\tb".to_string()));
    assert_eq!(transform_string(&chars("\"\"")), Some(String::new()));
    assert_eq!(transform_string(&chars("\"")), None);
    assert_eq!(transform_string(&chars("\"abc")), None);
    assert_eq!(transform_string(&chars("\"a\"b\"")), None);
    assert_eq!(transform_string(&chars("\"a\\")), None);
    assert!(read("\"a\\nb\"") == MalData::String("a\nb".to_string()));
}

#[test]
fn numbers_are_parsed() {
    let chars = |s: &str| s.chars().collect::<Vec<char>>();
    assert_eq!(parse_number(&chars("0")), Some(0));
    assert_eq!(parse_number(&chars("007")), Some(7));
    assert_eq!(parse_number(&chars("-0")), Some(0));
    assert_eq!(parse_number(&chars("12345")), Some(12345));
    assert_eq!(parse_number(&chars("-2147483648")), Some(i32::MIN));
    assert_eq!(parse_number(&chars("2147483647")), Some(i32::MAX));
    assert_eq!(parse_number(&chars("2147483648")), None);
    assert_eq!(parse_number(&chars("")), None);
    assert_eq!(parse_number(&chars("-")), None);
    assert_eq!(parse_number(&chars("1a")), None);
    assert_eq!(parse_number(&chars("+1")), None);
}

#[test]
fn numbers_are_printed() {
    assert_eq!(number_to_string(0), "0");
    assert_eq!(number_to_string(7), "7");
    assert_eq!(number_to_string(-7), "-7");
    assert_eq!(number_to_string(1000), "1000");
    assert_eq!(number_to_string(i32::MAX), "2147483647");
    assert_eq!(number_to_string(i32::MIN), "-2147483648");
}

#[test]
fn strings_are_escaped_when_readable() {
    assert_eq!(make_readable_string("abc"), "\"abc\"");
    assert_eq!(make_readable_string("a\nb"), "\"a\\nb\"");
    assert_eq!(make_readable_string("a\"b"), "\"a\\\"b\"");
    assert_eq!(make_readable_string("a\\b"), "\"a\\\\b\"");
    assert_eq!(make_readable_string("a\\nb"), "\"a\\\\nb\"");
    assert_eq!(make_readable_string("$1"), "\"$1\"");
    let rt = Runtime::new();
    let s = MalData::String("a\n\"b\"\\".to_string());
    assert_eq!(pr_str(&s, &rt, true), "\"a\\n\\\"b\\\"\\\\\"");
    assert_eq!(pr_str(&s, &rt, false), "a\n\"b\"\\");
}

#[test]
fn values_are_printed() {
    let rt = Runtime::new();
    assert_eq!(pr_str(&MalData::Nil, &rt, true), "nil");
    assert_eq!(pr_str(&MalData::True, &rt, true), "true");
    assert_eq!(pr_str(&MalData::False, &rt, true), "false");
    assert_eq!(pr_str(&MalData::Nothing, &rt, true), "");
    assert_eq!(pr_str(&make_mal_keyword("k"), &rt, true), ":k");
    assert_eq!(pr_str(&make_mal_symbol("s"), &rt, true), "s");
    assert_eq!(pr_str(&read("()"), &rt, true), "()");
    assert_eq!(pr_str(&read("[]"), &rt, true), "[]");
    assert_eq!(pr_str(&read("{}"), &rt, true), "{}");
    assert_eq!(pr_str(&read("(1 (2 [3 \"x\"]) {:a (1)})"), &rt, true), "(1 (2 [3 \"x\"]) {:a (1)})");
    assert_eq!(pr_str(&read("(1 \"x\")"), &rt, false), "(1 x)");
    assert_eq!(pr_str(&MalData::Exception(Box::new(MalData::Nil)), &rt, true), "#<exception>");
    assert_eq!(MalData::Number(5).pr_str(&rt, true), "5");
}

#[test]
fn map_keys_are_printed() {
    let rt = Runtime::new();
    assert_eq!(pr_str(&MapKey::True, &rt, true), "true");
    assert_eq!(pr_str(&MapKey::False, &rt, true), "false");
    assert_eq!(pr_str(&MapKey::String("a\nb".to_string()), &rt, false), "\"a\\nb\"");
    assert_eq!(pr_str(&MapKey::Symbol("s".to_string()), &rt, true), "s");
    assert_eq!(pr_str(&MapKey::Keyword("\u{29e}k".to_string()), &rt, true), ":k");
    assert_eq!(pr_str(&MapKey::Number(-3), &rt, true), "-3");
}

#[test]
fn atoms_are_printed_with_their_contents() {
    let mut rt = Runtime::new();
    let inner = rt.new_atom(MalData::Number(1));
    let outer = rt.new_atom(MalData::Atom(inner));
    assert_eq!(pr_str(&MalData::Atom(outer), &rt, true), "(atom (atom 1))");
    assert_eq!(pr_str(&MalData::Atom(99), &rt, true), "(atom ...)");
    rt.set_atom(inner, MalData::Atom(outer));
    assert_eq!(pr_str(&MalData::Atom(outer), &rt, true), "(atom (atom (atom ...)))");
}

#[test]
fn printing_and_reading_again_gives_an_equal_value() {
    assert_eq!(round_trip("(1 2 3)"), "(1 2 3)");
    assert_eq!(round_trip("[1 [2 (3)] nil true false]"), "[1 [2 (3)] nil true false]");
    assert_eq!(round_trip("{:a 1 \"b\" [2] c -3}"), "{:a 1 \"b\" [2] c -3}");
    assert_eq!(round_trip("\"a\\nb\\\\c\\\"d\""), "\"a\\nb\\\\c\\\"d\"");
    assert_eq!(round_trip("\"\\\\n\""), "\"\\\\n\"");
    assert_eq!(round_trip("'(a `b ~c ~@d @e)"), "(quote (a (quasiquote b) (unquote c) (splice-unquote d) (deref e)))");
    assert_eq!(round_trip(":kw"), ":kw");
    assert_eq!(round_trip("-2147483648"), "-2147483648");
    assert_eq!(round_trip("sym-bol?!"), "sym-bol?!");
}

#[test]
fn empty_reader_result_inside_a_form_does_not_round_trip() {
    let rt = Runtime::new();
    let value = read("'");
    assert_eq!(pr_str(&value, &rt, true), "(quote )");
    assert_eq!(pr_str(&read("(quote )"), &rt, true), "(quote)");
    assert!(read("(quote )") != value);
}
