//! The core namespace: the callables that the host implements.
//!
//! Each built-in takes the evaluated arguments of a call. Those that only
//! compute are described by a spec function of the arguments; those that
//! read or change the interpreter's state also take the state; and those
//! that call back into the evaluator take a [`FunContext`].

use crate::common::bool_value;
use crate::common::clone_values;
use crate::common::clone_entries;
use crate::common::entries_insert;
use crate::common::entries_remove;
use crate::common::extend_values;
use crate::common::push_value;
use crate::common::map_remove;
use crate::common::entries_view;
use crate::common::err_map_key;
use crate::common::find_key;
use crate::common::get_wrapped_list;
use crate::common::is_list_like;
use crate::common::is_mal_false;
use crate::common::is_mal_keyword;
use crate::common::is_mal_map;
use crate::common::is_mal_nil;
use crate::common::is_mal_string;
use crate::common::is_mal_symbol;
use crate::common::is_mal_true;
use crate::common::is_mal_vector;
use crate::common::key_of;
use crate::common::key_value;
use crate::common::keyword_prefix;
use crate::common::lemma_list_view;
use crate::common::make_mal_keyword;
use crate::common::make_mal_list_from_vec;
use crate::common::make_mal_map_from_kv_list;
use crate::common::make_mal_symbol;
use crate::common::make_mal_vec_from_slice;
use crate::common::mal_bool_value;
use crate::common::mal_empty_list;
use crate::common::mal_equals;
use crate::common::map_from_kvs;
use crate::common::map_lookup;
use crate::common::mapkey_for;
use crate::common::result_view;
use crate::common::values_equal;
use crate::common::values_view;
use crate::common::KeyV;
use crate::common::MalData;
use crate::common::MapKey;
use crate::common::FnClosure;
use crate::common::NativeFunction;
use crate::common::NativeFunctionSelector;
use crate::common::Value;
use crate::common::EnvType;
use crate::env::Runtime;
use crate::eval::apply_fn_closure;
use crate::eval::enter_frame;
use crate::eval::eval;
use crate::eval::err_fuel;
use crate::eval::eval_spec;
use crate::eval::Outcome;
use crate::env::RuntimeV;
use crate::printer::joined;
use crate::printer::printed;
use crate::printer::strings_view;
use crate::printer::PrStr;
use crate::reader::read_str;
use crate::reader::read_str_spec;
use crate::text::chars_of;
use crate::text::string_of;
use std::rc::Rc;
use vstd::prelude::*;

verus! {

/// The result of a built-in: a value or a message.
pub type MalCoreFunResult = Result<MalData, String>;

/// Whether an integer is a number of the language.
pub open spec fn fits_number(n: int) -> bool {
    i32::MIN <= n <= i32::MAX
}

/// The quotient of two integers, rounded towards zero.
pub open spec fn quotient(x: int, d: int) -> int
    recommends
        d != 0,
{
    if x == 0 {
        0
    } else if x > 0 && d > 0 {
        x / d
    } else if x < 0 && d < 0 {
        ((x * -1) / (d * -1))
    } else if x < 0 {
        ((x * -1) / d) * -1
    } else {
        (x / (d * -1)) * -1
    }
}

/// The number that a value holds.
pub open spec fn number_of(v: Value) -> Option<int> {
    match v {
        Value::Number(n) => Some(n),
        _ => None,
    }
}

/// Whether the first two arguments are numbers.
pub open spec fn two_numbers(args: Seq<Value>) -> bool {
    args.len() >= 2 && args[0] is Number && args[1] is Number
}

/// `+`: the sum of two numbers; fails where it is no number of the
/// language.
pub open spec fn core_add(args: Seq<Value>) -> Result<Value, Seq<char>> {
    if two_numbers(args) {
        let n = args[0]->Number_0 + args[1]->Number_0;
        if fits_number(n) {
            Ok(Value::Number(n))
        } else {
            Err("add: result out of range"@)
        }
    } else {
        Err("add: two number arguments required"@)
    }
}

/// `-`: the difference of two numbers.
pub open spec fn core_sub(args: Seq<Value>) -> Result<Value, Seq<char>> {
    if two_numbers(args) {
        let n = args[0]->Number_0 - args[1]->Number_0;
        if fits_number(n) {
            Ok(Value::Number(n))
        } else {
            Err("sub: result out of range"@)
        }
    } else {
        Err("sub: two number arguments required"@)
    }
}

/// `*`: the product of two numbers.
pub open spec fn core_mul(args: Seq<Value>) -> Result<Value, Seq<char>> {
    if two_numbers(args) {
        let n = args[0]->Number_0 * args[1]->Number_0;
        if fits_number(n) {
            Ok(Value::Number(n))
        } else {
            Err("mul: result out of range"@)
        }
    } else {
        Err("mul: two number arguments required"@)
    }
}

/// `/`: the quotient of two numbers, rounded towards zero; fails for a
/// zero divisor and where the quotient is no number of the language.
pub open spec fn core_div(args: Seq<Value>) -> Result<Value, Seq<char>> {
    if two_numbers(args) {
        let x = args[0]->Number_0;
        let d = args[1]->Number_0;
        if d != 0 && fits_number(quotient(x, d)) {
            Ok(Value::Number(quotient(x, d)))
        } else {
            Err("division failed"@)
        }
    } else {
        Err("div: two number arguments required"@)
    }
}

/// The number in a value.
pub fn number_arg(arg: &MalData) -> (res: Option<i32>)
    ensures
        match number_of(arg@) {
            Some(n) => res == Some(n as i32),
            None => res is None,
        },
{
    match arg {
        MalData::Number(num) => Some(*num),
        _ => None,
    }
}

/// The number in a value.
pub fn mal_number_value(mal_num: &MalData) -> (res: Option<i32>)
    ensures
        match number_of(mal_num@) {
            Some(n) => res == Some(n as i32),
            None => res is None,
        },
{
    number_arg(mal_num)
}

/// The first two arguments, where both are numbers.
fn number_pair(args: &[MalData]) -> (res: Option<(i32, i32)>)
    ensures
        res is Some == two_numbers(values_view(args@)),
        res matches Some(p) ==> p.0 == values_view(args@)[0]->Number_0 && p.1 == values_view(
            args@,
        )[1]->Number_0,
{
    if args.len() < 2 {
        return None;
    }
    match (number_arg(&args[0]), number_arg(&args[1])) {
        (Some(a), Some(b)) => Some((a, b)),
        _ => None,
    }
}

/// The built-in `+`.
pub fn mal_core_add(args: &[MalData]) -> (res: MalCoreFunResult)
    ensures
        result_view(res) == core_add(values_view(args@)),
{
    match number_pair(args) {
        Some((num1, num2)) => match num1.checked_add(num2) {
            Some(n) => Ok(MalData::Number(n)),
            None => Err("add: result out of range".to_string()),
        },
        None => Err("add: two number arguments required".to_string()),
    }
}

/// The built-in `-`.
pub fn mal_core_sub(args: &[MalData]) -> (res: MalCoreFunResult)
    ensures
        result_view(res) == core_sub(values_view(args@)),
{
    match number_pair(args) {
        Some((num1, num2)) => match num1.checked_sub(num2) {
            Some(n) => Ok(MalData::Number(n)),
            None => Err("sub: result out of range".to_string()),
        },
        None => Err("sub: two number arguments required".to_string()),
    }
}

/// The built-in `*`.
pub fn mal_core_mul(args: &[MalData]) -> (res: MalCoreFunResult)
    ensures
        result_view(res) == core_mul(values_view(args@)),
{
    match number_pair(args) {
        Some((num1, num2)) => match num1.checked_mul(num2) {
            Some(n) => Ok(MalData::Number(n)),
            None => Err("mul: result out of range".to_string()),
        },
        None => Err("mul: two number arguments required".to_string()),
    }
}

/// The built-in `/`.
pub fn mal_core_div(args: &[MalData]) -> (res: MalCoreFunResult)
    ensures
        result_view(res) == core_div(values_view(args@)),
{
    match number_pair(args) {
        Some((num1, num2)) => match num1.checked_div(num2) {
            Some(n) => Ok(MalData::Number(n)),
            None => Err("division failed".to_string()),
        },
        None => Err("div: two number arguments required".to_string()),
    }
}

/// `list`: the arguments as a list.
pub open spec fn core_list(args: Seq<Value>) -> Result<Value, Seq<char>> {
    Ok(Value::List(args))
}

/// The built-in `list`.
pub fn mal_core_list(args: &[MalData]) -> (res: MalCoreFunResult)
    ensures
        result_view(res) == core_list(values_view(args@)),
{
    Ok(make_mal_list_from_vec(clone_values(args)))
}

/// `list?`: whether the argument is a list; nil counts as one.
pub open spec fn core_list_p(args: Seq<Value>) -> Result<Value, Seq<char>> {
    if args.len() == 0 {
        Err("argument required"@)
    } else {
        Ok(bool_value(args[0] is List || args[0] is Nil))
    }
}

/// The built-in `list?`.
pub fn mal_core_list_p(args: &[MalData]) -> (res: MalCoreFunResult)
    ensures
        result_view(res) == core_list_p(values_view(args@)),
{
    if args.len() == 0 {
        Err("argument required".to_string())
    } else {
        match &args[0] {
            MalData::List(_) | MalData::Nil => Ok(MalData::True),
            _ => Ok(MalData::False),
        }
    }
}

/// `empty?`: whether the argument is a list or vector without items;
/// nil counts as empty.
pub open spec fn core_empty_p(args: Seq<Value>) -> Result<Value, Seq<char>> {
    if args.len() == 0 {
        Err("argument required"@)
    } else {
        Ok(bool_value((args[0].is_list_like() && args[0].items().len() == 0) || args[0] is Nil))
    }
}

/// The built-in `empty?`.
pub fn mal_core_empty_p(args: &[MalData]) -> (res: MalCoreFunResult)
    ensures
        result_view(res) == core_empty_p(values_view(args@)),
{
    if args.len() == 0 {
        Err("argument required".to_string())
    } else {
        match get_wrapped_list(&args[0]) {
            Some(l) => Ok(mal_bool_value(l.len() == 0)),
            None => Ok(mal_bool_value(is_mal_nil(&args[0]))),
        }
    }
}

/// `count`: the number of items of a list or vector; nil has none.
pub open spec fn core_count(args: Seq<Value>) -> Result<Value, Seq<char>> {
    if args.len() == 0 {
        Err("argument required"@)
    } else if args[0] is Nil {
        Ok(Value::Number(0))
    } else if args[0].is_list_like() {
        if fits_number(args[0].items().len() as int) {
            Ok(Value::Number(args[0].items().len() as int))
        } else {
            Err("count: result out of range"@)
        }
    } else {
        Err("list argument required"@)
    }
}

/// The built-in `count`.
pub fn mal_core_count(args: &[MalData]) -> (res: MalCoreFunResult)
    ensures
        result_view(res) == core_count(values_view(args@)),
{
    if args.len() == 0 {
        Err("argument required".to_string())
    } else if is_mal_nil(&args[0]) {
        Ok(MalData::Number(0))
    } else {
        match get_wrapped_list(&args[0]) {
            Some(l) => {
                if l.len() <= 2147483647 {
                    Ok(MalData::Number(l.len() as i32))
                } else {
                    Err("count: result out of range".to_string())
                }
            },
            None => Err("list argument required".to_string()),
        }
    }
}

/// An order on numbers.
pub enum Comparison {
    Lt,
    Le,
    Gt,
    Ge,
}

/// Whether `a` stands in the given order to `b`.
pub open spec fn compares(how: Comparison, a: int, b: int) -> bool {
    match how {
        Comparison::Lt => a < b,
        Comparison::Le => a <= b,
        Comparison::Gt => a > b,
        Comparison::Ge => a >= b,
    }
}

/// `<`, `<=`, `>`, `>=`: whether two numbers stand in the given order;
/// false where one of the two arguments is no number.
pub open spec fn core_compare(how: Comparison, args: Seq<Value>) -> Result<Value, Seq<char>> {
    if args.len() < 2 {
        Err("2 arguments required"@)
    } else if two_numbers(args) {
        Ok(bool_value(compares(how, args[0]->Number_0, args[1]->Number_0)))
    } else {
        Ok(Value::False)
    }
}

fn compare_numbers(how: Comparison, args: &[MalData]) -> (res: MalCoreFunResult)
    ensures
        result_view(res) == core_compare(how, values_view(args@)),
{
    if args.len() < 2 {
        return Err("2 arguments required".to_string());
    }
    match number_pair(args) {
        Some((n1, n2)) => {
            let b = match how {
                Comparison::Lt => n1 < n2,
                Comparison::Le => n1 <= n2,
                Comparison::Gt => n1 > n2,
                Comparison::Ge => n1 >= n2,
            };
            Ok(mal_bool_value(b))
        },
        None => Ok(MalData::False),
    }
}

/// The built-in `<`.
pub fn mal_core_lt(args: &[MalData]) -> (res: MalCoreFunResult)
    ensures
        result_view(res) == core_compare(Comparison::Lt, values_view(args@)),
{
    compare_numbers(Comparison::Lt, args)
}

/// The built-in `<=`.
pub fn mal_core_le(args: &[MalData]) -> (res: MalCoreFunResult)
    ensures
        result_view(res) == core_compare(Comparison::Le, values_view(args@)),
{
    compare_numbers(Comparison::Le, args)
}

/// The built-in `>`.
pub fn mal_core_gt(args: &[MalData]) -> (res: MalCoreFunResult)
    ensures
        result_view(res) == core_compare(Comparison::Gt, values_view(args@)),
{
    compare_numbers(Comparison::Gt, args)
}

/// The built-in `>=`.
pub fn mal_core_ge(args: &[MalData]) -> (res: MalCoreFunResult)
    ensures
        result_view(res) == core_compare(Comparison::Ge, values_view(args@)),
{
    compare_numbers(Comparison::Ge, args)
}

/// `=`: whether the two arguments are equal values.
pub open spec fn core_equals(args: Seq<Value>) -> Result<Value, Seq<char>> {
    if args.len() < 2 {
        Err("2 arguments required"@)
    } else {
        Ok(bool_value(values_equal(args[0], args[1])))
    }
}

/// The built-in `=`.
pub fn mal_core_equals(args: &[MalData]) -> (res: MalCoreFunResult)
    ensures
        result_view(res) == core_equals(values_view(args@)),
{
    if args.len() < 2 {
        Err("2 arguments required".to_string())
    } else {
        Ok(mal_bool_value(mal_equals(&args[0], &args[1])))
    }
}

/// `cons`: the list of the first argument followed by the items of the
/// second, a list or a vector.
pub open spec fn core_cons(args: Seq<Value>) -> Result<Value, Seq<char>> {
    if args.len() >= 2 && args[1].is_list_like() {
        Ok(Value::List(seq![args[0]] + args[1].items()))
    } else {
        Err("head and tail required"@)
    }
}

/// The built-in `cons`.
pub fn mal_core_cons(args: &[MalData]) -> (res: MalCoreFunResult)
    ensures
        result_view(res) == core_cons(values_view(args@)),
{
    if args.len() < 2 {
        return Err("head and tail required".to_string());
    }
    match get_wrapped_list(&args[1]) {
        Some(tail) => {
            let mut new_vec: Vec<MalData> = Vec::new();
            push_value(&mut new_vec, args[0].clone());
            extend_values(&mut new_vec, tail.as_slice(), 0);
            assert(values_view(new_vec@) =~= seq![args@[0]@] + values_view(tail@));
            Ok(make_mal_list_from_vec(new_vec))
        },
        None => Err("head and tail required".to_string()),
    }
}

/// Whether a value is a list or a vector.
pub fn is_mal_list_or_vector(ast: &MalData) -> (res: bool)
    ensures
        res == ast@.is_list_like(),
{
    is_list_like(ast)
}

/// The items of the first `upto` arguments, one after the other.
pub open spec fn concat_items(args: Seq<Value>, upto: int) -> Seq<Value>
    decreases upto,
{
    if upto <= 0 {
        Seq::empty()
    } else {
        concat_items(args, upto - 1) + args[upto - 1].items()
    }
}

/// Whether every argument is a list or a vector.
pub open spec fn all_list_like(args: Seq<Value>) -> bool {
    forall|i: int| 0 <= i < args.len() ==> (#[trigger] args[i]).is_list_like()
}

/// `concat`: the list of the items of all arguments.
pub open spec fn core_concat(args: Seq<Value>) -> Result<Value, Seq<char>> {
    if all_list_like(args) {
        Ok(Value::List(concat_items(args, args.len() as int)))
    } else {
        Err("only list and vector arguments allowed"@)
    }
}

/// The built-in `concat`.
pub fn mal_core_concat(args: &[MalData]) -> (res: MalCoreFunResult)
    ensures
        result_view(res) == core_concat(values_view(args@)),
{
    let mut new_vec: Vec<MalData> = Vec::new();
    let mut k: usize = 0;
    assert(values_view(new_vec@) =~= concat_items(values_view(args@), 0));
    while k < args.len()
        invariant
            k <= args.len(),
            forall|i: int| 0 <= i < k ==> (#[trigger] values_view(args@)[i]).is_list_like(),
            values_view(new_vec@) == concat_items(values_view(args@), k as int),
        decreases args.len() - k,
    {
        match get_wrapped_list(&args[k]) {
            Some(list) => {
                let ghost before = values_view(new_vec@);
                extend_values(&mut new_vec, list.as_slice(), 0);
                assert(values_view(new_vec@) =~= before + values_view(list@));
            },
            None => {
                assert(!values_view(args@)[k as int].is_list_like());
                return Err("only list and vector arguments allowed".to_string());
            },
        }
        k += 1;
    }
    Ok(make_mal_list_from_vec(new_vec))
}

/// `nth`: the item of a list or vector at an index.
pub open spec fn core_nth(args: Seq<Value>) -> Result<Value, Seq<char>> {
    if args.len() < 1 || !args[0].is_list_like() {
        Err("list argument required"@)
    } else if args.len() < 2 || !(args[1] is Number) {
        Err("index argument required"@)
    } else {
        let index = args[1]->Number_0;
        if 0 <= index < args[0].items().len() {
            Ok(args[0].items()[index])
        } else {
            Err("index out of range"@)
        }
    }
}

/// The built-in `nth`.
pub fn mal_core_nth(args: &[MalData]) -> (res: MalCoreFunResult)
    ensures
        result_view(res) == core_nth(values_view(args@)),
{
    if args.len() < 1 {
        return Err("list argument required".to_string());
    }
    let list = match get_wrapped_list(&args[0]) {
        Some(list) => list,
        None => {
            return Err("list argument required".to_string());
        },
    };
    if args.len() < 2 {
        return Err("index argument required".to_string());
    }
    let index = match mal_number_value(&args[1]) {
        Some(index) => index,
        None => {
            return Err("index argument required".to_string());
        },
    };
    if index < 0 || index as usize >= list.len() {
        Err("index out of range".to_string())
    } else {
        assert(values_view(list@)[index as int] == list@[index as int]@);
        Ok(list[index as usize].clone())
    }
}

/// `first`: the first item of a list or vector; nil where there is none,
/// and for nil.
pub open spec fn core_first(args: Seq<Value>) -> Result<Value, Seq<char>> {
    if args.len() >= 1 && args[0] is Nil {
        Ok(Value::Nil)
    } else if args.len() >= 1 && args[0].is_list_like() {
        if args[0].items().len() == 0 {
            Ok(Value::Nil)
        } else {
            Ok(args[0].items()[0])
        }
    } else {
        Err("list argument required"@)
    }
}

/// The built-in `first`.
pub fn mal_core_first(args: &[MalData]) -> (res: MalCoreFunResult)
    ensures
        result_view(res) == core_first(values_view(args@)),
{
    if args.len() < 1 {
        return Err("list argument required".to_string());
    }
    if is_mal_nil(&args[0]) {
        return Ok(MalData::Nil);
    }
    match get_wrapped_list(&args[0]) {
        Some(list) => {
            if list.len() == 0 {
                Ok(MalData::Nil)
            } else {
                assert(values_view(list@)[0] == list@[0]@);
                Ok(list[0].clone())
            }
        },
        None => Err("list argument required".to_string()),
    }
}

/// `rest`: the list of all items but the first; the empty list where
/// there is none, and for nil.
pub open spec fn core_rest(args: Seq<Value>) -> Result<Value, Seq<char>> {
    if args.len() >= 1 && args[0] is Nil {
        Ok(Value::List(Seq::empty()))
    } else if args.len() >= 1 && args[0].is_list_like() {
        if args[0].items().len() == 0 {
            Ok(Value::List(Seq::empty()))
        } else {
            Ok(Value::List(args[0].items().subrange(1, args[0].items().len() as int)))
        }
    } else {
        Err("list argument required"@)
    }
}

/// Copies the items from index `from` on.
pub(crate) fn clone_from(items: &[MalData], from: usize) -> (res: Vec<MalData>)
    requires
        from <= items@.len(),
    ensures
        values_view(res@) == values_view(items@).subrange(from as int, items@.len() as int),
{
    let mut out: Vec<MalData> = Vec::new();
    extend_values(&mut out, items, from);
    assert(values_view(out@) =~= values_view(items@).subrange(from as int, items@.len() as int));
    out
}

/// The built-in `rest`.
pub fn mal_core_rest(args: &[MalData]) -> (res: MalCoreFunResult)
    ensures
        result_view(res) == core_rest(values_view(args@)),
{
    if args.len() < 1 {
        return Err("list argument required".to_string());
    }
    if is_mal_nil(&args[0]) {
        return Ok(mal_empty_list());
    }
    match get_wrapped_list(&args[0]) {
        Some(list) => {
            if list.len() == 0 {
                Ok(mal_empty_list())
            } else {
                Ok(make_mal_list_from_vec(clone_from(list.as_slice(), 1)))
            }
        },
        None => Err("list argument required".to_string()),
    }
}

/// `throw`: the exception that carries the one argument.
pub open spec fn core_throw(args: Seq<Value>) -> Result<Value, Seq<char>> {
    if args.len() != 1 {
        Err("exception argument required"@)
    } else {
        Ok(Value::Exception(Box::new(args[0])))
    }
}

/// The built-in `throw`.
pub fn mal_core_throw(args: &[MalData]) -> (res: MalCoreFunResult)
    ensures
        result_view(res) == core_throw(values_view(args@)),
{
    if args.len() != 1 {
        Err("exception argument required".to_string())
    } else {
        Ok(MalData::Exception(Box::new(args[0].clone())))
    }
}

/// The kinds of value that a predicate of the language tests for.
pub enum Kind {
    Nil,
    True,
    False,
    Symbol,
    Keyword,
    Vector,
    HashMap,
    Sequential,
    String,
    Atom,
}

/// Whether a value is of the given kind.
pub open spec fn is_kind(kind: Kind, v: Value) -> bool {
    match kind {
        Kind::Nil => v is Nil,
        Kind::True => v is True,
        Kind::False => v is False,
        Kind::Symbol => v is Symbol,
        Kind::Keyword => v is Keyword,
        Kind::Vector => v is Vector,
        Kind::HashMap => v is HashMap,
        Kind::Sequential => v.is_list_like(),
        Kind::String => v is String,
        Kind::Atom => v is Atom,
    }
}

/// The message of a predicate that got no argument.
pub open spec fn kind_error(kind: Kind) -> Seq<char> {
    match kind {
        Kind::Nil => "nil?: argument required"@,
        Kind::True => "true?: argument required"@,
        Kind::False => "false?: argument required"@,
        Kind::Symbol => "symbol?: argument required"@,
        Kind::Keyword => "keyword?: argument required"@,
        Kind::Vector => "vector?: argument required"@,
        Kind::HashMap => "map?: argument required"@,
        Kind::Sequential => "sequential?: argument required"@,
        Kind::String => "string?: argument required"@,
        Kind::Atom => "atom?: argument required"@,
    }
}

/// The predicates `nil?`, `true?`, `false?`, `symbol?`, `keyword?`,
/// `vector?`, `map?`, `sequential?`, `string?` and `atom?`: whether the
/// first argument is of the kind.
pub open spec fn core_kind_p(kind: Kind, args: Seq<Value>) -> Result<Value, Seq<char>> {
    if args.len() == 0 {
        Err(kind_error(kind))
    } else {
        Ok(bool_value(is_kind(kind, args[0])))
    }
}

/// The built-in `nil?`.
pub fn mal_core_nil_p(args: &[MalData]) -> (res: MalCoreFunResult)
    ensures
        result_view(res) == core_kind_p(Kind::Nil, values_view(args@)),
{
    if args.len() == 0 {
        Err("nil?: argument required".to_string())
    } else {
        Ok(mal_bool_value(is_mal_nil(&args[0])))
    }
}

/// The built-in `true?`.
pub fn mal_core_true_p(args: &[MalData]) -> (res: MalCoreFunResult)
    ensures
        result_view(res) == core_kind_p(Kind::True, values_view(args@)),
{
    if args.len() == 0 {
        Err("true?: argument required".to_string())
    } else {
        Ok(mal_bool_value(is_mal_true(&args[0])))
    }
}

/// The built-in `false?`.
pub fn mal_core_false_p(args: &[MalData]) -> (res: MalCoreFunResult)
    ensures
        result_view(res) == core_kind_p(Kind::False, values_view(args@)),
{
    if args.len() == 0 {
        Err("false?: argument required".to_string())
    } else {
        Ok(mal_bool_value(is_mal_false(&args[0])))
    }
}

/// The built-in `symbol?`.
pub fn mal_core_symbol_p(args: &[MalData]) -> (res: MalCoreFunResult)
    ensures
        result_view(res) == core_kind_p(Kind::Symbol, values_view(args@)),
{
    if args.len() == 0 {
        Err("symbol?: argument required".to_string())
    } else {
        Ok(mal_bool_value(is_mal_symbol(&args[0])))
    }
}

/// The built-in `keyword?`.
pub fn mal_core_keyword_p(args: &[MalData]) -> (res: MalCoreFunResult)
    ensures
        result_view(res) == core_kind_p(Kind::Keyword, values_view(args@)),
{
    if args.len() == 0 {
        Err("keyword?: argument required".to_string())
    } else {
        Ok(mal_bool_value(is_mal_keyword(&args[0])))
    }
}

/// The built-in `vector?`.
pub fn mal_core_vector_p(args: &[MalData]) -> (res: MalCoreFunResult)
    ensures
        result_view(res) == core_kind_p(Kind::Vector, values_view(args@)),
{
    if args.len() == 0 {
        Err("vector?: argument required".to_string())
    } else {
        Ok(mal_bool_value(is_mal_vector(&args[0])))
    }
}

/// The built-in `map?`.
pub fn mal_core_map_p(args: &[MalData]) -> (res: MalCoreFunResult)
    ensures
        result_view(res) == core_kind_p(Kind::HashMap, values_view(args@)),
{
    if args.len() == 0 {
        Err("map?: argument required".to_string())
    } else {
        Ok(mal_bool_value(is_mal_map(&args[0])))
    }
}

/// The built-in `sequential?`.
pub fn mal_core_sequential_p(args: &[MalData]) -> (res: MalCoreFunResult)
    ensures
        result_view(res) == core_kind_p(Kind::Sequential, values_view(args@)),
{
    if args.len() == 0 {
        Err("sequential?: argument required".to_string())
    } else {
        Ok(mal_bool_value(is_list_like(&args[0])))
    }
}

/// The built-in `string?`.
pub fn mal_core_string_p(args: &[MalData]) -> (res: MalCoreFunResult)
    ensures
        result_view(res) == core_kind_p(Kind::String, values_view(args@)),
{
    if args.len() == 0 {
        Err("string?: argument required".to_string())
    } else {
        Ok(mal_bool_value(is_mal_string(&args[0])))
    }
}

/// The built-in `atom?`.
pub fn mal_core_atom_p(args: &[MalData]) -> (res: MalCoreFunResult)
    ensures
        result_view(res) == core_kind_p(Kind::Atom, values_view(args@)),
{
    if args.len() == 0 {
        Err("atom?: argument required".to_string())
    } else {
        match &args[0] {
            MalData::Atom(_) => Ok(MalData::True),
            _ => Ok(MalData::False),
        }
    }
}

/// The characters of a string value.
pub fn mal_string_as_string(value: &MalData) -> (res: Option<String>)
    ensures
        res is Some == (value@ is String),
        res matches Some(s) ==> value@ == Value::String(s@),
{
    match value {
        MalData::String(string) => Some(string.clone()),
        _ => None,
    }
}

/// `symbol`: the symbol named by a string.
pub open spec fn core_symbol(args: Seq<Value>) -> Result<Value, Seq<char>> {
    if args.len() == 0 {
        Err("symbol: argument required"@)
    } else {
        match args[0] {
            Value::String(s) => Ok(Value::Symbol(s)),
            _ => Err("symbol: name must be string"@),
        }
    }
}

/// The built-in `symbol`.
pub fn mal_core_symbol(args: &[MalData]) -> (res: MalCoreFunResult)
    ensures
        result_view(res) == core_symbol(values_view(args@)),
{
    if args.len() == 0 {
        return Err("symbol: argument required".to_string());
    }
    match mal_string_as_string(&args[0]) {
        Some(s) => Ok(make_mal_symbol(s.as_str())),
        None => Err("symbol: name must be string".to_string()),
    }
}

/// `keyword`: the keyword named by a string.
pub open spec fn core_keyword(args: Seq<Value>) -> Result<Value, Seq<char>> {
    if args.len() == 0 {
        Err("keyword: argument required"@)
    } else {
        match args[0] {
            Value::String(s) => Ok(Value::Keyword(seq![keyword_prefix()] + s)),
            _ => Err("keyword: name must be string"@),
        }
    }
}

/// The built-in `keyword`.
pub fn mal_core_keyword(args: &[MalData]) -> (res: MalCoreFunResult)
    ensures
        result_view(res) == core_keyword(values_view(args@)),
{
    if args.len() == 0 {
        return Err("keyword: argument required".to_string());
    }
    match mal_string_as_string(&args[0]) {
        Some(s) => Ok(make_mal_keyword(s.as_str())),
        None => Err("keyword: name must be string".to_string()),
    }
}

/// `vector`: the arguments as a vector.
pub open spec fn core_vector(args: Seq<Value>) -> Result<Value, Seq<char>> {
    Ok(Value::Vector(args))
}

/// The built-in `vector`.
pub fn mal_core_vector(args: &[MalData]) -> (res: MalCoreFunResult)
    ensures
        result_view(res) == core_vector(values_view(args@)),
{
    Ok(make_mal_vec_from_slice(args))
}

/// `hash-map`: the map that binds each argument at an even place to the
/// argument after it.
pub open spec fn core_hashmap(args: Seq<Value>) -> Result<Value, Seq<char>> {
    if args.len() % 2 != 0 {
        Err("hash-map: even number of arguments required"@)
    } else {
        match map_from_kvs(Seq::empty(), args, 0) {
            Ok(entries) => Ok(Value::HashMap(entries)),
            Err(msg) => Err(msg),
        }
    }
}

/// The built-in `hash-map`.
pub fn mal_core_hashmap(args: &[MalData]) -> (res: MalCoreFunResult)
    ensures
        result_view(res) == core_hashmap(values_view(args@)),
{
    if args.len() % 2 != 0 {
        return Err("hash-map: even number of arguments required".to_string());
    }
    make_mal_map_from_kv_list(args)
}

/// `contains?`: whether a map binds a key.
pub open spec fn core_contains_p(args: Seq<Value>) -> Result<Value, Seq<char>> {
    if args.len() != 2 {
        Err("map and key arguments required"@)
    } else {
        match args[0] {
            Value::HashMap(entries) => match key_of(args[1]) {
                Some(k) => Ok(bool_value(map_lookup(entries, k) is Some)),
                None => Err(err_map_key()),
            },
            _ => Err("invalid arguments"@),
        }
    }
}

/// The built-in `contains?`.
pub fn mal_core_contains_p(args: &[MalData]) -> (res: MalCoreFunResult)
    ensures
        result_view(res) == core_contains_p(values_view(args@)),
{
    if args.len() != 2 {
        return Err("map and key arguments required".to_string());
    }
    proof {
        lemma_list_view(args@[0]);
    }
    match &args[0] {
        MalData::HashMap(map) => {
            let key = match mapkey_for(&args[1]) {
                Ok(key) => key,
                Err(e) => {
                    return Err(e);
                },
            };
            let at = find_key(map, &key);
            Ok(mal_bool_value(at < map.len()))
        },
        _ => Err("invalid arguments".to_string()),
    }
}

/// The value of a map key.
pub fn mal_map_key_as_mal_value(key: &MapKey) -> (res: MalData)
    ensures
        res@ == key_value(key@),
{
    match key {
        MapKey::String(string) => MalData::String(string.clone()),
        MapKey::Symbol(symbol) => MalData::Symbol(symbol.clone()),
        MapKey::Keyword(kw) => MalData::Keyword(kw.clone()),
        MapKey::Number(number) => MalData::Number(*number),
        MapKey::True => MalData::True,
        MapKey::False => MalData::False,
    }
}

/// The keys of the entries, in order, as values.
pub open spec fn entry_keys(entries: Seq<(KeyV, Value)>) -> Seq<Value> {
    Seq::new(entries.len(), |i: int| key_value(entries[i].0))
}

/// The values of the entries, in order.
pub open spec fn entry_values(entries: Seq<(KeyV, Value)>) -> Seq<Value> {
    Seq::new(entries.len(), |i: int| entries[i].1)
}

/// `keys`: the list of a map's keys.
pub open spec fn core_keys(args: Seq<Value>) -> Result<Value, Seq<char>> {
    if args.len() >= 1 && args[0] is HashMap {
        Ok(Value::List(entry_keys(args[0]->HashMap_0)))
    } else {
        Err("keys: map argument required"@)
    }
}

/// The built-in `keys`.
pub fn mal_core_keys(args: &[MalData]) -> (res: MalCoreFunResult)
    ensures
        result_view(res) == core_keys(values_view(args@)),
{
    if args.len() < 1 {
        return Err("keys: map argument required".to_string());
    }
    proof {
        lemma_list_view(args@[0]);
    }
    match &args[0] {
        MalData::HashMap(map) => {
            let mut keys: Vec<MalData> = Vec::new();
            let mut i: usize = 0;
            while i < map.len()
                invariant
                    i <= map.len(),
                    keys.len() == i,
                    forall|j: int| 0 <= j < i ==> (#[trigger] keys@[j])@ == key_value(map@[j].0@),
                decreases map.len() - i,
            {
                keys.push(mal_map_key_as_mal_value(&map[i].0));
                i += 1;
            }
            assert(values_view(keys@) =~= entry_keys(entries_view(map@)));
            Ok(make_mal_list_from_vec(keys))
        },
        _ => Err("keys: map argument required".to_string()),
    }
}

/// `vals`: the list of a map's values.
pub open spec fn core_vals(args: Seq<Value>) -> Result<Value, Seq<char>> {
    if args.len() >= 1 && args[0] is HashMap {
        Ok(Value::List(entry_values(args[0]->HashMap_0)))
    } else {
        Err("vals: map argument required"@)
    }
}

/// The built-in `vals`.
pub fn mal_core_vals(args: &[MalData]) -> (res: MalCoreFunResult)
    ensures
        result_view(res) == core_vals(values_view(args@)),
{
    if args.len() < 1 {
        return Err("vals: map argument required".to_string());
    }
    proof {
        lemma_list_view(args@[0]);
    }
    match &args[0] {
        MalData::HashMap(map) => {
            let mut vals: Vec<MalData> = Vec::new();
            let mut i: usize = 0;
            while i < map.len()
                invariant
                    i <= map.len(),
                    vals.len() == i,
                    forall|j: int| 0 <= j < i ==> (#[trigger] vals@[j])@ == map@[j].1@,
                decreases map.len() - i,
            {
                vals.push(map[i].1.clone());
                i += 1;
            }
            assert(values_view(vals@) =~= entry_values(entries_view(map@)));
            Ok(make_mal_list_from_vec(vals))
        },
        _ => Err("vals: map argument required".to_string()),
    }
}

/// `assoc`: the map with the keys after it bound to the values that
/// follow them.
pub open spec fn core_assoc(args: Seq<Value>) -> Result<Value, Seq<char>> {
    if args.len() < 2 {
        Err("map and key/value arguments required"@)
    } else if args.len() % 2 != 1 {
        Err("key/value pairs required"@)
    } else {
        match args[0] {
            Value::HashMap(entries) => match map_from_kvs(entries, args, 1) {
                Ok(bound) => Ok(Value::HashMap(bound)),
                Err(msg) => Err(msg),
            },
            _ => Err("invalid arguments"@),
        }
    }
}

/// The built-in `assoc`.
pub fn mal_core_assoc(args: &[MalData]) -> (res: MalCoreFunResult)
    ensures
        result_view(res) == core_assoc(values_view(args@)),
{
    if args.len() < 2 {
        return Err("map and key/value arguments required".to_string());
    } else if args.len() % 2 != 1 {
        return Err("key/value pairs required".to_string());
    }
    proof {
        lemma_list_view(args@[0]);
    }
    match &args[0] {
        MalData::HashMap(map) => {
            let mut new_map = clone_entries(map);
            let mut i: usize = 1;
            while i < args.len()
                invariant
                    1 <= i <= args.len(),
                    i % 2 == 1,
                    args.len() % 2 == 1,
                    values_view(args@)[0] == Value::HashMap(entries_view(map@)),
                    map_from_kvs(entries_view(new_map@), values_view(args@), i as int)
                        == map_from_kvs(entries_view(map@), values_view(args@), 1),
                decreases args.len() - i,
            {
                let key = match mapkey_for(&args[i]) {
                    Ok(key) => key,
                    Err(e) => {
                        return Err(e);
                    },
                };
                entries_insert(&mut new_map, key, args[i + 1].clone());
                i += 2;
            }
            let res = MalData::HashMap(new_map);
            proof {
                lemma_list_view(res);
            }
            Ok(res)
        },
        _ => Err("invalid arguments".to_string()),
    }
}

/// The entries without the keys that the arguments from index `i` on
/// name.
pub open spec fn without_keys(entries: Seq<(KeyV, Value)>, args: Seq<Value>, i: int) -> Result<
    Seq<(KeyV, Value)>,
    Seq<char>,
>
    decreases args.len() - i,
{
    if i < 0 || i >= args.len() {
        Ok(entries)
    } else {
        match key_of(args[i]) {
            None => Err(err_map_key()),
            Some(k) => without_keys(map_remove(entries, k), args, i + 1),
        }
    }
}

/// `dissoc`: the map without the keys after it.
pub open spec fn core_dissoc(args: Seq<Value>) -> Result<Value, Seq<char>> {
    if args.len() < 2 {
        Err("map and keys arguments required"@)
    } else {
        match args[0] {
            Value::HashMap(entries) => match without_keys(entries, args, 1) {
                Ok(left) => Ok(Value::HashMap(left)),
                Err(msg) => Err(msg),
            },
            _ => Err("invalid arguments"@),
        }
    }
}

/// The built-in `dissoc`.
pub fn mal_core_dissoc(args: &[MalData]) -> (res: MalCoreFunResult)
    ensures
        result_view(res) == core_dissoc(values_view(args@)),
{
    if args.len() < 2 {
        return Err("map and keys arguments required".to_string());
    }
    proof {
        lemma_list_view(args@[0]);
    }
    match &args[0] {
        MalData::HashMap(map) => {
            let mut new_map = clone_entries(map);
            let mut i: usize = 1;
            while i < args.len()
                invariant
                    1 <= i <= args.len(),
                    values_view(args@)[0] == Value::HashMap(entries_view(map@)),
                    without_keys(entries_view(new_map@), values_view(args@), i as int)
                        == without_keys(entries_view(map@), values_view(args@), 1),
                decreases args.len() - i,
            {
                let key = match mapkey_for(&args[i]) {
                    Ok(key) => key,
                    Err(e) => {
                        return Err(e);
                    },
                };
                new_map = entries_remove(&new_map, &key);
                i += 1;
            }
            let res = MalData::HashMap(new_map);
            proof {
                lemma_list_view(res);
            }
            Ok(res)
        },
        _ => Err("invalid arguments".to_string()),
    }
}

/// `get`: the value that a map binds a key to; nil where it binds none,
/// and for nil in place of the map.
pub open spec fn core_get(args: Seq<Value>) -> Result<Value, Seq<char>> {
    if args.len() != 2 {
        Err("map and key arguments required"@)
    } else {
        match args[0] {
            Value::Nil => Ok(Value::Nil),
            Value::HashMap(entries) => match key_of(args[1]) {
                Some(k) => match map_lookup(entries, k) {
                    Some(v) => Ok(v),
                    None => Ok(Value::Nil),
                },
                None => Err(err_map_key()),
            },
            _ => Err("invalid arguments"@),
        }
    }
}

/// The built-in `get`.
pub fn mal_core_get(args: &[MalData]) -> (res: MalCoreFunResult)
    ensures
        result_view(res) == core_get(values_view(args@)),
{
    if args.len() != 2 {
        return Err("map and key arguments required".to_string());
    }
    proof {
        lemma_list_view(args@[0]);
    }
    match &args[0] {
        MalData::Nil => Ok(MalData::Nil),
        MalData::HashMap(map) => {
            let key = match mapkey_for(&args[1]) {
                Ok(key) => key,
                Err(e) => {
                    return Err(e);
                },
            };
            let at = find_key(map, &key);
            if at < map.len() {
                assert(entries_view(map@)[at as int].1 == map@[at as int].1@);
                Ok(map[at].1.clone())
            } else {
                Ok(MalData::Nil)
            }
        },
        _ => Err("invalid arguments".to_string()),
    }
}

/// `read-string`: the form that a string holds.
pub open spec fn core_read_string(args: Seq<Value>) -> Result<Value, Seq<char>> {
    if args.len() >= 1 && args[0] is String {
        read_str_spec(args[0]->String_0)
    } else {
        Err("string argument required"@)
    }
}

/// The built-in `read-string`.
pub fn mal_core_read_string(args: &[MalData]) -> (res: MalCoreFunResult)
    ensures
        result_view(res) == core_read_string(values_view(args@)),
{
    if args.len() < 1 {
        return Err("string argument required".to_string());
    }
    match &args[0] {
        MalData::String(string) => read_str(string.as_str()),
        _ => Err("string argument required".to_string()),
    }
}

/// The texts of the values, in order.
pub open spec fn printed_all(rt: RuntimeV, args: Seq<Value>, readably: bool) -> Seq<Seq<char>> {
    Seq::new(args.len(), |i: int| printed(rt, args[i], readably))
}

/// The texts of the arguments, in order.
fn print_all(rt: &Runtime, args: &[MalData], print_readably: bool) -> (res: Vec<String>)
    ensures
        strings_view(res@) == printed_all(rt@, values_view(args@), print_readably),
{
    let mut parts: Vec<String> = Vec::new();
    let mut i: usize = 0;
    while i < args.len()
        invariant
            i <= args.len(),
            parts.len() == i,
            forall|j: int|
                0 <= j < i ==> (#[trigger] parts@[j])@ == printed(rt@, args@[j]@, print_readably),
        decreases args.len() - i,
    {
        parts.push(args[i].pr_str(rt, print_readably));
        i += 1;
    }
    assert(strings_view(parts@) =~= printed_all(rt@, values_view(args@), print_readably));
    parts
}

/// `pr-str`: the readable texts of the arguments with a space between
/// each two.
pub open spec fn core_pr_str(rt: RuntimeV, args: Seq<Value>) -> Result<Value, Seq<char>> {
    Ok(Value::String(joined(printed_all(rt, args, true), " "@)))
}

/// The built-in `pr-str`.
pub fn mal_core_pr_str(rt: &Runtime, args: &[MalData]) -> (res: MalCoreFunResult)
    ensures
        result_view(res) == core_pr_str(rt@, values_view(args@)),
{
    let parts = print_all(rt, args, true);
    Ok(MalData::String(crate::printer::join(&parts, " ")))
}

/// `str`: the display texts of the arguments, one after the other.
pub open spec fn core_str(rt: RuntimeV, args: Seq<Value>) -> Result<Value, Seq<char>> {
    Ok(Value::String(joined(printed_all(rt, args, false), ""@)))
}

/// The built-in `str`.
pub fn mal_core_str(rt: &Runtime, args: &[MalData]) -> (res: MalCoreFunResult)
    ensures
        result_view(res) == core_str(rt@, values_view(args@)),
{
    let parts = print_all(rt, args, false);
    Ok(MalData::String(crate::printer::join(&parts, "")))
}

/// `prn`: prints the readable texts of the arguments, with a space
/// between each two, as one line; the result is nil.
pub open spec fn core_prn(rt: RuntimeV, args: Seq<Value>) -> (RuntimeV, Result<Value, Seq<char>>) {
    (rt.print(joined(printed_all(rt, args, true), " "@)), Ok(Value::Nil))
}

/// The built-in `prn`.
pub fn mal_core_prn(rt: &mut Runtime, args: &[MalData]) -> (res: MalCoreFunResult)
    ensures
        (final(rt)@, result_view(res)) == core_prn(old(rt)@, values_view(args@)),
{
    let parts = print_all(rt, args, true);
    rt.print(crate::printer::join(&parts, " "));
    Ok(MalData::Nil)
}

/// `println`: prints the display texts of the arguments, with a space
/// between each two, as one line; the result is nil.
pub open spec fn core_println(rt: RuntimeV, args: Seq<Value>) -> (
    RuntimeV,
    Result<Value, Seq<char>>,
) {
    (rt.print(joined(printed_all(rt, args, false), " "@)), Ok(Value::Nil))
}

/// The built-in `println`.
pub fn mal_core_println(rt: &mut Runtime, args: &[MalData]) -> (res: MalCoreFunResult)
    ensures
        (final(rt)@, result_view(res)) == core_println(old(rt)@, values_view(args@)),
{
    let parts = print_all(rt, args, false);
    rt.print(crate::printer::join(&parts, " "));
    Ok(MalData::Nil)
}

/// `slurp`: the text of the file that the host has provided under the
/// given path.
pub open spec fn core_slurp(rt: RuntimeV, args: Seq<Value>) -> Result<Value, Seq<char>> {
    if args.len() >= 1 && args[0] is String {
        if rt.files.contains_key(args[0]->String_0) {
            Ok(Value::String(rt.files[args[0]->String_0]))
        } else {
            Err("slurp: file is not available"@)
        }
    } else {
        Err("file name argument required"@)
    }
}

/// The built-in `slurp`.
pub fn mal_core_slurp(rt: &Runtime, args: &[MalData]) -> (res: MalCoreFunResult)
    ensures
        result_view(res) == core_slurp(rt@, values_view(args@)),
{
    if args.len() < 1 {
        return Err("file name argument required".to_string());
    }
    match &args[0] {
        MalData::String(filename) => match rt.file_contents(filename.as_str()) {
            Some(text) => Ok(MalData::String(text)),
            None => Err("slurp: file is not available".to_string()),
        },
        _ => Err("file name argument required".to_string()),
    }
}

/// `atom`: a new atom that holds the argument.
pub open spec fn core_atom(rt: RuntimeV, args: Seq<Value>) -> (RuntimeV, Result<Value, Seq<char>>) {
    if args.len() == 0 {
        (rt, Err("atom: argument required"@))
    } else {
        (rt.add_atom(args[0]), Ok(Value::Atom(rt.atoms.len())))
    }
}

/// The built-in `atom`.
pub fn mal_core_atom(rt: &mut Runtime, args: &[MalData]) -> (res: MalCoreFunResult)
    ensures
        (final(rt)@, result_view(res)) == core_atom(old(rt)@, values_view(args@)),
{
    if args.len() == 0 {
        return Err("atom: argument required".to_string());
    }
    let cell = rt.new_atom(args[0].clone());
    Ok(MalData::Atom(cell))
}

/// `deref`: the contents of an atom; nil for anything else.
pub open spec fn core_deref(rt: RuntimeV, args: Seq<Value>) -> Result<Value, Seq<char>> {
    if args.len() == 0 {
        Err("deref: argument required"@)
    } else {
        match args[0] {
            Value::Atom(cell) => if cell < rt.atoms.len() {
                Ok(rt.atoms[cell as int])
            } else {
                Ok(Value::Nil)
            },
            _ => Ok(Value::Nil),
        }
    }
}

/// The built-in `deref`.
pub fn mal_core_deref(rt: &Runtime, args: &[MalData]) -> (res: MalCoreFunResult)
    ensures
        result_view(res) == core_deref(rt@, values_view(args@)),
{
    if args.len() == 0 {
        return Err("deref: argument required".to_string());
    }
    match &args[0] {
        MalData::Atom(cell) => match rt.atom_value(*cell) {
            Some(v) => Ok(v),
            None => Ok(MalData::Nil),
        },
        _ => Ok(MalData::Nil),
    }
}

/// `reset!`: stores the second argument in the atom and returns it.
pub open spec fn core_reset(rt: RuntimeV, args: Seq<Value>) -> (RuntimeV, Result<Value, Seq<char>>) {
    if args.len() >= 2 && args[0] is Atom && args[0]->Atom_0 < rt.atoms.len() {
        (rt.set_atom(args[0]->Atom_0, args[1]), Ok(args[1]))
    } else {
        (rt, Err("atom expected"@))
    }
}

/// The built-in `reset!`.
pub fn mal_core_reset(rt: &mut Runtime, args: &[MalData]) -> (res: MalCoreFunResult)
    ensures
        (final(rt)@, result_view(res)) == core_reset(old(rt)@, values_view(args@)),
{
    if args.len() < 2 {
        return Err("atom expected".to_string());
    }
    match &args[0] {
        MalData::Atom(cell) => {
            if rt.set_atom(*cell, args[1].clone()) {
                Ok(args[1].clone())
            } else {
                Err("atom expected".to_string())
            }
        },
        _ => Err("atom expected".to_string()),
    }
}

/// What a built-in that calls back into the evaluator needs: the
/// environment of the call, and the budget for the evaluations it starts.
pub struct FunContext {
    pub env: EnvType,
    pub fuel: u64,
}

/// The message for applying a value that is no callable.
pub open spec fn err_cannot_apply() -> Seq<char> {
    "cannot apply: not a function"@
}

/// Applies a callable to arguments: a built-in is run on them, a
/// closure's body is evaluated in a new frame that binds its parameters
/// to them.
pub open spec fn apply_fun_spec(rt: RuntimeV, env: nat, fun: Value, args: Seq<Value>, fuel: nat) -> Outcome
    decreases fuel, 1nat, 0nat,
{
    match fun {
        Value::Function(_, selector) => if fuel == 0 {
            (rt, Err(err_fuel()))
        } else {
            native_spec(rt, env, selector, args, (fuel - 1) as nat)
        },
        Value::FnClosure { outer_env, binds, body, .. } => match enter_frame(
            rt,
            outer_env,
            binds,
            args,
        ) {
            Err(e) => (rt, Err(e)),
            Ok((rt1, frame)) => if fuel == 0 {
                (rt1, Err(err_fuel()))
            } else {
                eval_spec(rt1, frame, *body, (fuel - 1) as nat)
            },
        },
        _ => (rt, Err(err_cannot_apply())),
    }
}

/// `swap!`: applies the function to the atom's contents and the further
/// arguments, stores the result in the atom and returns it.
pub open spec fn core_swap(rt: RuntimeV, env: nat, args: Seq<Value>, fuel: nat) -> Outcome
    decreases fuel, 2nat, 0nat,
{
    if args.len() >= 2 && args[0] is Atom && args[0]->Atom_0 < rt.atoms.len() {
        let cell = args[0]->Atom_0;
        let list = seq![rt.atoms[cell as int]] + args.subrange(2, args.len() as int);
        let (rt1, r) = apply_fun_spec(rt, env, args[1], list, fuel);
        match r {
            Err(e) => (rt1, Err(e)),
            Ok(v) => (rt1.set_atom(cell, v), Ok(v)),
        }
    } else {
        (rt, Err("atom expected"@))
    }
}

/// `apply`: applies the first argument to the arguments between it and
/// the last, followed by the items of the last, a list or vector.
pub open spec fn core_apply(rt: RuntimeV, env: nat, args: Seq<Value>, fuel: nat) -> Outcome
    decreases fuel, 2nat, 0nat,
{
    if args.len() < 2 {
        (rt, Err("apply: function and argument vector required"@))
    } else if !args.last().is_list_like() {
        (rt, Err("apply: invalid argument vector"@))
    } else {
        apply_fun_spec(
            rt,
            env,
            args[0],
            args.subrange(1, args.len() - 1) + args.last().items(),
            fuel,
        )
    }
}

/// Applies the function to each item from index `i` on, in order, after
/// the results `acc`. An exception among the results ends it and is the
/// result.
pub open spec fn map_items_spec(
    rt: RuntimeV,
    env: nat,
    fun: Value,
    items: Seq<Value>,
    i: int,
    acc: Seq<Value>,
    fuel: nat,
) -> Outcome
    decreases fuel, 2nat, items.len() - i,
{
    if i < 0 || i >= items.len() {
        (rt, Ok(Value::List(acc)))
    } else {
        let (rt1, r) = apply_fun_spec(rt, env, fun, seq![items[i]], fuel);
        match r {
            Err(e) => (rt1, Err(e)),
            Ok(v) => if v is Exception {
                (rt1, Ok(v))
            } else {
                map_items_spec(rt1, env, fun, items, i + 1, acc.push(v), fuel)
            },
        }
    }
}

/// `map`: the list of the results of applying the first argument to each
/// item of the second, a list or vector.
pub open spec fn core_map(rt: RuntimeV, env: nat, args: Seq<Value>, fuel: nat) -> Outcome
    decreases fuel, 3nat, 0nat,
{
    if args.len() < 1 {
        (rt, Err("map: function argument required"@))
    } else if args.len() < 2 {
        (rt, Err("map: sequence argument required"@))
    } else if !args[1].is_list_like() {
        (rt, Err("map: invalid sequence argument"@))
    } else {
        map_items_spec(rt, env, args[0], args[1].items(), 0, Seq::empty(), fuel)
    }
}

/// `eval`: evaluates the argument in the outermost frame around the
/// environment of the call.
pub open spec fn core_eval(rt: RuntimeV, env: nat, args: Seq<Value>, fuel: nat) -> Outcome
    decreases fuel, 2nat, 0nat,
{
    if args.len() < 1 {
        (rt, Err("eval: argument required"@))
    } else {
        eval_spec(rt, rt.root_of(env), args[0], fuel)
    }
}

/// What a built-in does to the state and yields for arguments: the
/// routine that the selector names, run in the environment of the call
/// and within the budget.
pub open spec fn native_spec(
    rt: RuntimeV,
    env: nat,
    selector: NativeFunctionSelector,
    args: Seq<Value>,
    fuel: nat,
) -> Outcome
    decreases fuel, 4nat, 0nat,
{
    match selector {
        NativeFunctionSelector::Add => (rt, core_add(args)),
        NativeFunctionSelector::Sub => (rt, core_sub(args)),
        NativeFunctionSelector::Mul => (rt, core_mul(args)),
        NativeFunctionSelector::Div => (rt, core_div(args)),
        NativeFunctionSelector::List => (rt, core_list(args)),
        NativeFunctionSelector::ListP => (rt, core_list_p(args)),
        NativeFunctionSelector::EmptyP => (rt, core_empty_p(args)),
        NativeFunctionSelector::Count => (rt, core_count(args)),
        NativeFunctionSelector::Equals => (rt, core_equals(args)),
        NativeFunctionSelector::Lt => (rt, core_compare(Comparison::Lt, args)),
        NativeFunctionSelector::Le => (rt, core_compare(Comparison::Le, args)),
        NativeFunctionSelector::Gt => (rt, core_compare(Comparison::Gt, args)),
        NativeFunctionSelector::Ge => (rt, core_compare(Comparison::Ge, args)),
        NativeFunctionSelector::PrStr => (rt, core_pr_str(rt, args)),
        NativeFunctionSelector::Str => (rt, core_str(rt, args)),
        NativeFunctionSelector::Prn => core_prn(rt, args),
        NativeFunctionSelector::Println => core_println(rt, args),
        NativeFunctionSelector::ReadString => (rt, core_read_string(args)),
        NativeFunctionSelector::Slurp => (rt, core_slurp(rt, args)),
        NativeFunctionSelector::Atom => core_atom(rt, args),
        NativeFunctionSelector::AtomP => (rt, core_kind_p(Kind::Atom, args)),
        NativeFunctionSelector::Deref => (rt, core_deref(rt, args)),
        NativeFunctionSelector::Reset => core_reset(rt, args),
        NativeFunctionSelector::Swap => core_swap(rt, env, args, fuel),
        NativeFunctionSelector::Cons => (rt, core_cons(args)),
        NativeFunctionSelector::Concat => (rt, core_concat(args)),
        NativeFunctionSelector::Nth => (rt, core_nth(args)),
        NativeFunctionSelector::First => (rt, core_first(args)),
        NativeFunctionSelector::Rest => (rt, core_rest(args)),
        NativeFunctionSelector::Throw => (rt, core_throw(args)),
        NativeFunctionSelector::Apply => core_apply(rt, env, args, fuel),
        NativeFunctionSelector::MapSeq => core_map(rt, env, args, fuel),
        NativeFunctionSelector::NilP => (rt, core_kind_p(Kind::Nil, args)),
        NativeFunctionSelector::TrueP => (rt, core_kind_p(Kind::True, args)),
        NativeFunctionSelector::FalseP => (rt, core_kind_p(Kind::False, args)),
        NativeFunctionSelector::SymbolP => (rt, core_kind_p(Kind::Symbol, args)),
        NativeFunctionSelector::Symbol => (rt, core_symbol(args)),
        NativeFunctionSelector::Keyword => (rt, core_keyword(args)),
        NativeFunctionSelector::KeywordP => (rt, core_kind_p(Kind::Keyword, args)),
        NativeFunctionSelector::Vector => (rt, core_vector(args)),
        NativeFunctionSelector::VectorP => (rt, core_kind_p(Kind::Vector, args)),
        NativeFunctionSelector::HashMap => (rt, core_hashmap(args)),
        NativeFunctionSelector::MapP => (rt, core_kind_p(Kind::HashMap, args)),
        NativeFunctionSelector::Assoc => (rt, core_assoc(args)),
        NativeFunctionSelector::Dissoc => (rt, core_dissoc(args)),
        NativeFunctionSelector::Get => (rt, core_get(args)),
        NativeFunctionSelector::ContainsP => (rt, core_contains_p(args)),
        NativeFunctionSelector::Keys => (rt, core_keys(args)),
        NativeFunctionSelector::Vals => (rt, core_vals(args)),
        NativeFunctionSelector::SequentialP => (rt, core_kind_p(Kind::Sequential, args)),
        NativeFunctionSelector::Eval => core_eval(rt, env, args, fuel),
    }
}

/// Runs the built-in that the selector names on the arguments.
pub fn call_native(
    rt: &mut Runtime,
    ctx: &FunContext,
    selector: NativeFunctionSelector,
    args: &[MalData],
) -> (res: MalCoreFunResult)
    ensures
        (final(rt)@, result_view(res)) == native_spec(
            old(rt)@,
            ctx.env as nat,
            selector,
            values_view(args@),
            ctx.fuel as nat,
        ),
    decreases ctx.fuel, 4nat, 0nat,
{
    match selector {
        NativeFunctionSelector::Add => mal_core_add(args),
        NativeFunctionSelector::Sub => mal_core_sub(args),
        NativeFunctionSelector::Mul => mal_core_mul(args),
        NativeFunctionSelector::Div => mal_core_div(args),
        NativeFunctionSelector::List => mal_core_list(args),
        NativeFunctionSelector::ListP => mal_core_list_p(args),
        NativeFunctionSelector::EmptyP => mal_core_empty_p(args),
        NativeFunctionSelector::Count => mal_core_count(args),
        NativeFunctionSelector::Equals => mal_core_equals(args),
        NativeFunctionSelector::Lt => mal_core_lt(args),
        NativeFunctionSelector::Le => mal_core_le(args),
        NativeFunctionSelector::Gt => mal_core_gt(args),
        NativeFunctionSelector::Ge => mal_core_ge(args),
        NativeFunctionSelector::PrStr => mal_core_pr_str(rt, args),
        NativeFunctionSelector::Str => mal_core_str(rt, args),
        NativeFunctionSelector::Prn => mal_core_prn(rt, args),
        NativeFunctionSelector::Println => mal_core_println(rt, args),
        NativeFunctionSelector::ReadString => mal_core_read_string(args),
        NativeFunctionSelector::Slurp => mal_core_slurp(rt, args),
        NativeFunctionSelector::Atom => mal_core_atom(rt, args),
        NativeFunctionSelector::AtomP => mal_core_atom_p(args),
        NativeFunctionSelector::Deref => mal_core_deref(rt, args),
        NativeFunctionSelector::Reset => mal_core_reset(rt, args),
        NativeFunctionSelector::Swap => mal_core_swap(rt, ctx, args),
        NativeFunctionSelector::Cons => mal_core_cons(args),
        NativeFunctionSelector::Concat => mal_core_concat(args),
        NativeFunctionSelector::Nth => mal_core_nth(args),
        NativeFunctionSelector::First => mal_core_first(args),
        NativeFunctionSelector::Rest => mal_core_rest(args),
        NativeFunctionSelector::Throw => mal_core_throw(args),
        NativeFunctionSelector::Apply => mal_core_apply(rt, ctx, args),
        NativeFunctionSelector::MapSeq => mal_core_map(rt, ctx, args),
        NativeFunctionSelector::NilP => mal_core_nil_p(args),
        NativeFunctionSelector::TrueP => mal_core_true_p(args),
        NativeFunctionSelector::FalseP => mal_core_false_p(args),
        NativeFunctionSelector::SymbolP => mal_core_symbol_p(args),
        NativeFunctionSelector::Symbol => mal_core_symbol(args),
        NativeFunctionSelector::Keyword => mal_core_keyword(args),
        NativeFunctionSelector::KeywordP => mal_core_keyword_p(args),
        NativeFunctionSelector::Vector => mal_core_vector(args),
        NativeFunctionSelector::VectorP => mal_core_vector_p(args),
        NativeFunctionSelector::HashMap => mal_core_hashmap(args),
        NativeFunctionSelector::MapP => mal_core_map_p(args),
        NativeFunctionSelector::Assoc => mal_core_assoc(args),
        NativeFunctionSelector::Dissoc => mal_core_dissoc(args),
        NativeFunctionSelector::Get => mal_core_get(args),
        NativeFunctionSelector::ContainsP => mal_core_contains_p(args),
        NativeFunctionSelector::Keys => mal_core_keys(args),
        NativeFunctionSelector::Vals => mal_core_vals(args),
        NativeFunctionSelector::SequentialP => mal_core_sequential_p(args),
        NativeFunctionSelector::Eval => mal_core_eval(rt, ctx, args),
    }
}

/// Applies a callable to arguments.
pub fn apply_fun(rt: &mut Runtime, ctx: &FunContext, fun: &MalData, args: &[MalData]) -> (res:
    MalCoreFunResult)
    ensures
        (final(rt)@, result_view(res)) == apply_fun_spec(
            old(rt)@,
            ctx.env as nat,
            fun@,
            values_view(args@),
            ctx.fuel as nat,
        ),
    decreases ctx.fuel, 1nat, 0nat,
{
    match fun {
        MalData::Function(f) => {
            if ctx.fuel == 0 {
                return Err("evaluation budget exhausted".to_string());
            }
            let inner = FunContext { env: ctx.env, fuel: ctx.fuel - 1 };
            call_native(rt, &inner, f.callable, args)
        },
        MalData::FnClosure(fnc) => {
            let frame = match apply_fn_closure(rt, fnc, args) {
                Ok(frame) => frame,
                Err(e) => {
                    return Err(e);
                },
            };
            if ctx.fuel == 0 {
                return Err("evaluation budget exhausted".to_string());
            }
            match eval(rt, frame, &fnc.body, ctx.fuel - 1) {
                Ok(v) => Ok(v),
                Err(e) => Err(e.message()),
            }
        },
        _ => Err("cannot apply: not a function".to_string()),
    }
}

/// The built-in `swap!`.
pub fn mal_core_swap(rt: &mut Runtime, ctx: &FunContext, args: &[MalData]) -> (res:
    MalCoreFunResult)
    ensures
        (final(rt)@, result_view(res)) == core_swap(
            old(rt)@,
            ctx.env as nat,
            values_view(args@),
            ctx.fuel as nat,
        ),
    decreases ctx.fuel, 2nat, 0nat,
{
    if args.len() < 2 {
        return Err("atom expected".to_string());
    }
    match &args[0] {
        MalData::Atom(cell) => {
            let old_value = match rt.atom_value(*cell) {
                Some(v) => v,
                None => {
                    return Err("atom expected".to_string());
                },
            };
            let mut list: Vec<MalData> = Vec::new();
            push_value(&mut list, old_value);
            extend_values(&mut list, args, 2);
            assert(values_view(list@) =~= seq![old(rt)@.atoms[*cell as int]] + values_view(
                args@,
            ).subrange(2, args@.len() as int));
            match apply_fun(rt, ctx, &args[1], list.as_slice()) {
                Ok(new_value) => {
                    rt.set_atom(*cell, new_value.clone());
                    Ok(new_value)
                },
                Err(e) => Err(e),
            }
        },
        _ => Err("atom expected".to_string()),
    }
}

/// The built-in `apply`.
pub fn mal_core_apply(rt: &mut Runtime, ctx: &FunContext, args: &[MalData]) -> (res:
    MalCoreFunResult)
    ensures
        (final(rt)@, result_view(res)) == core_apply(
            old(rt)@,
            ctx.env as nat,
            values_view(args@),
            ctx.fuel as nat,
        ),
    decreases ctx.fuel, 2nat, 0nat,
{
    if args.len() < 2 {
        return Err("apply: function and argument vector required".to_string());
    }
    let last = args.len() - 1;
    assert(values_view(args@).last() == args@[last as int]@);
    let args_arg_list = match get_wrapped_list(&args[last]) {
        Some(list) => list,
        None => {
            return Err("apply: invalid argument vector".to_string());
        },
    };
    let mut eff_args: Vec<MalData> = Vec::new();
    let prepend = vstd::slice::slice_subrange(args, 1, last);
    extend_values(&mut eff_args, prepend, 0);
    extend_values(&mut eff_args, args_arg_list.as_slice(), 0);
    assert(values_view(eff_args@) =~= values_view(args@).subrange(1, args@.len() - 1)
        + values_view(args@).last().items()) by {
        assert(values_view(prepend@) =~= values_view(args@).subrange(1, args@.len() - 1));
    }
    apply_fun(rt, ctx, &args[0], eff_args.as_slice())
}

/// The built-in `map`.
pub fn mal_core_map(rt: &mut Runtime, ctx: &FunContext, args: &[MalData]) -> (res:
    MalCoreFunResult)
    ensures
        (final(rt)@, result_view(res)) == core_map(
            old(rt)@,
            ctx.env as nat,
            values_view(args@),
            ctx.fuel as nat,
        ),
    decreases ctx.fuel, 3nat, 0nat,
{
    if args.len() < 1 {
        return Err("map: function argument required".to_string());
    }
    if args.len() < 2 {
        return Err("map: sequence argument required".to_string());
    }
    let seq = match get_wrapped_list(&args[1]) {
        Some(seq) => seq,
        None => {
            return Err("map: invalid sequence argument".to_string());
        },
    };
    let mut mapped: Vec<MalData> = Vec::new();
    let mut i: usize = 0;
    assert(values_view(mapped@) =~= Seq::empty());
    assert(values_view(args@)[0] == args@[0]@);
    while i < seq.len()
        invariant
            i <= seq.len(),
            args@.len() >= 2,
            values_view(args@)[0] == args@[0]@,
            values_view(args@)[1].is_list_like(),
            values_view(seq@) == values_view(args@)[1].items(),
            map_items_spec(
                rt@,
                ctx.env as nat,
                args@[0]@,
                values_view(seq@),
                i as int,
                values_view(mapped@),
                ctx.fuel as nat,
            ) == map_items_spec(
                old(rt)@,
                ctx.env as nat,
                args@[0]@,
                values_view(seq@),
                0,
                Seq::empty(),
                ctx.fuel as nat,
            ),
        decreases seq.len() - i,
    {
        let mut one: Vec<MalData> = Vec::new();
        push_value(&mut one, seq[i].clone());
        assert(values_view(one@) =~= seq![values_view(seq@)[i as int]]);
        match apply_fun(rt, ctx, &args[0], one.as_slice()) {
            Ok(map_res) => {
                let is_exception = match &map_res {
                    MalData::Exception(_) => true,
                    _ => false,
                };
                if is_exception {
                    return Ok(map_res);
                }
                push_value(&mut mapped, map_res);
            },
            Err(e) => {
                return Err(e);
            },
        }
        i += 1;
    }
    Ok(make_mal_list_from_vec(mapped))
}

/// The outermost frame around `env`.
pub fn root_env(rt: &Runtime, env: EnvType) -> (res: EnvType)
    ensures
        res == rt@.root_of(env as nat),
{
    rt.root_of(env)
}

/// The built-in `eval`.
pub fn mal_core_eval(rt: &mut Runtime, ctx: &FunContext, args: &[MalData]) -> (res:
    MalCoreFunResult)
    ensures
        (final(rt)@, result_view(res)) == core_eval(
            old(rt)@,
            ctx.env as nat,
            values_view(args@),
            ctx.fuel as nat,
        ),
    decreases ctx.fuel, 2nat, 0nat,
{
    if args.len() < 1 {
        return Err("eval: argument required".to_string());
    }
    let root = root_env(rt, ctx.env);
    match eval(rt, root, &args[0], ctx.fuel) {
        Ok(v) => Ok(v),
        Err(e) => Err(e.message()),
    }
}

/// The symbol under which a built-in is known.
pub open spec fn selector_name(selector: NativeFunctionSelector) -> Seq<char> {
    match selector {
        NativeFunctionSelector::Add => "+"@,
        NativeFunctionSelector::Sub => "-"@,
        NativeFunctionSelector::Mul => "*"@,
        NativeFunctionSelector::Div => "/"@,
        NativeFunctionSelector::List => "list"@,
        NativeFunctionSelector::ListP => "list?"@,
        NativeFunctionSelector::EmptyP => "empty?"@,
        NativeFunctionSelector::Count => "count"@,
        NativeFunctionSelector::Equals => "="@,
        NativeFunctionSelector::Lt => "<"@,
        NativeFunctionSelector::Le => "<="@,
        NativeFunctionSelector::Gt => ">"@,
        NativeFunctionSelector::Ge => ">="@,
        NativeFunctionSelector::PrStr => "pr-str"@,
        NativeFunctionSelector::Str => "str"@,
        NativeFunctionSelector::Prn => "prn"@,
        NativeFunctionSelector::Println => "println"@,
        NativeFunctionSelector::ReadString => "read-string"@,
        NativeFunctionSelector::Slurp => "slurp"@,
        NativeFunctionSelector::Atom => "atom"@,
        NativeFunctionSelector::AtomP => "atom?"@,
        NativeFunctionSelector::Deref => "deref"@,
        NativeFunctionSelector::Reset => "reset!"@,
        NativeFunctionSelector::Swap => "swap!"@,
        NativeFunctionSelector::Cons => "cons"@,
        NativeFunctionSelector::Concat => "concat"@,
        NativeFunctionSelector::Nth => "nth"@,
        NativeFunctionSelector::First => "first"@,
        NativeFunctionSelector::Rest => "rest"@,
        NativeFunctionSelector::Throw => "throw"@,
        NativeFunctionSelector::Apply => "apply"@,
        NativeFunctionSelector::MapSeq => "map"@,
        NativeFunctionSelector::NilP => "nil?"@,
        NativeFunctionSelector::TrueP => "true?"@,
        NativeFunctionSelector::FalseP => "false?"@,
        NativeFunctionSelector::SymbolP => "symbol?"@,
        NativeFunctionSelector::Symbol => "symbol"@,
        NativeFunctionSelector::Keyword => "keyword"@,
        NativeFunctionSelector::KeywordP => "keyword?"@,
        NativeFunctionSelector::Vector => "vector"@,
        NativeFunctionSelector::VectorP => "vector?"@,
        NativeFunctionSelector::HashMap => "hash-map"@,
        NativeFunctionSelector::MapP => "map?"@,
        NativeFunctionSelector::Assoc => "assoc"@,
        NativeFunctionSelector::Dissoc => "dissoc"@,
        NativeFunctionSelector::Get => "get"@,
        NativeFunctionSelector::ContainsP => "contains?"@,
        NativeFunctionSelector::Keys => "keys"@,
        NativeFunctionSelector::Vals => "vals"@,
        NativeFunctionSelector::SequentialP => "sequential?"@,
        NativeFunctionSelector::Eval => "eval"@,
    }
}

/// The symbol under which a built-in is known.
pub fn native_name(selector: NativeFunctionSelector) -> (res: &'static str)
    ensures
        res@ == selector_name(selector),
{
    match selector {
        NativeFunctionSelector::Add => "+",
        NativeFunctionSelector::Sub => "-",
        NativeFunctionSelector::Mul => "*",
        NativeFunctionSelector::Div => "/",
        NativeFunctionSelector::List => "list",
        NativeFunctionSelector::ListP => "list?",
        NativeFunctionSelector::EmptyP => "empty?",
        NativeFunctionSelector::Count => "count",
        NativeFunctionSelector::Equals => "=",
        NativeFunctionSelector::Lt => "<",
        NativeFunctionSelector::Le => "<=",
        NativeFunctionSelector::Gt => ">",
        NativeFunctionSelector::Ge => ">=",
        NativeFunctionSelector::PrStr => "pr-str",
        NativeFunctionSelector::Str => "str",
        NativeFunctionSelector::Prn => "prn",
        NativeFunctionSelector::Println => "println",
        NativeFunctionSelector::ReadString => "read-string",
        NativeFunctionSelector::Slurp => "slurp",
        NativeFunctionSelector::Atom => "atom",
        NativeFunctionSelector::AtomP => "atom?",
        NativeFunctionSelector::Deref => "deref",
        NativeFunctionSelector::Reset => "reset!",
        NativeFunctionSelector::Swap => "swap!",
        NativeFunctionSelector::Cons => "cons",
        NativeFunctionSelector::Concat => "concat",
        NativeFunctionSelector::Nth => "nth",
        NativeFunctionSelector::First => "first",
        NativeFunctionSelector::Rest => "rest",
        NativeFunctionSelector::Throw => "throw",
        NativeFunctionSelector::Apply => "apply",
        NativeFunctionSelector::MapSeq => "map",
        NativeFunctionSelector::NilP => "nil?",
        NativeFunctionSelector::TrueP => "true?",
        NativeFunctionSelector::FalseP => "false?",
        NativeFunctionSelector::SymbolP => "symbol?",
        NativeFunctionSelector::Symbol => "symbol",
        NativeFunctionSelector::Keyword => "keyword",
        NativeFunctionSelector::KeywordP => "keyword?",
        NativeFunctionSelector::Vector => "vector",
        NativeFunctionSelector::VectorP => "vector?",
        NativeFunctionSelector::HashMap => "hash-map",
        NativeFunctionSelector::MapP => "map?",
        NativeFunctionSelector::Assoc => "assoc",
        NativeFunctionSelector::Dissoc => "dissoc",
        NativeFunctionSelector::Get => "get",
        NativeFunctionSelector::ContainsP => "contains?",
        NativeFunctionSelector::Keys => "keys",
        NativeFunctionSelector::Vals => "vals",
        NativeFunctionSelector::SequentialP => "sequential?",
        NativeFunctionSelector::Eval => "eval",
    }
}

/// The built-ins of the core namespace, in the order in which they are
/// installed.
pub open spec fn ns_selectors() -> Seq<NativeFunctionSelector> {
    seq![
        NativeFunctionSelector::Add,
        NativeFunctionSelector::Sub,
        NativeFunctionSelector::Mul,
        NativeFunctionSelector::Div,
        NativeFunctionSelector::List,
        NativeFunctionSelector::ListP,
        NativeFunctionSelector::EmptyP,
        NativeFunctionSelector::Count,
        NativeFunctionSelector::Equals,
        NativeFunctionSelector::Lt,
        NativeFunctionSelector::Le,
        NativeFunctionSelector::Gt,
        NativeFunctionSelector::Ge,
        NativeFunctionSelector::PrStr,
        NativeFunctionSelector::Str,
        NativeFunctionSelector::Prn,
        NativeFunctionSelector::Println,
        NativeFunctionSelector::ReadString,
        NativeFunctionSelector::Slurp,
        NativeFunctionSelector::Atom,
        NativeFunctionSelector::AtomP,
        NativeFunctionSelector::Deref,
        NativeFunctionSelector::Reset,
        NativeFunctionSelector::Swap,
        NativeFunctionSelector::Cons,
        NativeFunctionSelector::Concat,
        NativeFunctionSelector::Nth,
        NativeFunctionSelector::First,
        NativeFunctionSelector::Rest,
        NativeFunctionSelector::Throw,
        NativeFunctionSelector::Apply,
        NativeFunctionSelector::MapSeq,
        NativeFunctionSelector::NilP,
        NativeFunctionSelector::TrueP,
        NativeFunctionSelector::FalseP,
        NativeFunctionSelector::SymbolP,
        NativeFunctionSelector::Symbol,
        NativeFunctionSelector::Keyword,
        NativeFunctionSelector::KeywordP,
        NativeFunctionSelector::Vector,
        NativeFunctionSelector::VectorP,
        NativeFunctionSelector::HashMap,
        NativeFunctionSelector::MapP,
        NativeFunctionSelector::Assoc,
        NativeFunctionSelector::Dissoc,
        NativeFunctionSelector::Get,
        NativeFunctionSelector::ContainsP,
        NativeFunctionSelector::Keys,
        NativeFunctionSelector::Vals,
        NativeFunctionSelector::SequentialP,
    ]
}

/// The model of a table of built-ins: each one's name and selector.
pub open spec fn natives_view(fns: Seq<NativeFunction>) -> Seq<(Seq<char>, NativeFunctionSelector)> {
    Seq::new(fns.len(), |i: int| (fns[i].name@, fns[i].callable))
}

/// The core namespace: each built-in under its name.
pub open spec fn ns_table() -> Seq<(Seq<char>, NativeFunctionSelector)> {
    Seq::new(ns_selectors().len(), |i: int| (selector_name(ns_selectors()[i]), ns_selectors()[i]))
}

/// The core namespace.
pub fn init_ns_map() -> (res: Vec<NativeFunction>)
    ensures
        natives_view(res@) == ns_table(),
{
    let mut selectors: Vec<NativeFunctionSelector> = Vec::new();
    selectors.push(NativeFunctionSelector::Add);
    selectors.push(NativeFunctionSelector::Sub);
    selectors.push(NativeFunctionSelector::Mul);
    selectors.push(NativeFunctionSelector::Div);
    selectors.push(NativeFunctionSelector::List);
    selectors.push(NativeFunctionSelector::ListP);
    selectors.push(NativeFunctionSelector::EmptyP);
    selectors.push(NativeFunctionSelector::Count);
    selectors.push(NativeFunctionSelector::Equals);
    selectors.push(NativeFunctionSelector::Lt);
    selectors.push(NativeFunctionSelector::Le);
    selectors.push(NativeFunctionSelector::Gt);
    selectors.push(NativeFunctionSelector::Ge);
    selectors.push(NativeFunctionSelector::PrStr);
    selectors.push(NativeFunctionSelector::Str);
    selectors.push(NativeFunctionSelector::Prn);
    selectors.push(NativeFunctionSelector::Println);
    selectors.push(NativeFunctionSelector::ReadString);
    selectors.push(NativeFunctionSelector::Slurp);
    selectors.push(NativeFunctionSelector::Atom);
    selectors.push(NativeFunctionSelector::AtomP);
    selectors.push(NativeFunctionSelector::Deref);
    selectors.push(NativeFunctionSelector::Reset);
    selectors.push(NativeFunctionSelector::Swap);
    selectors.push(NativeFunctionSelector::Cons);
    selectors.push(NativeFunctionSelector::Concat);
    selectors.push(NativeFunctionSelector::Nth);
    selectors.push(NativeFunctionSelector::First);
    selectors.push(NativeFunctionSelector::Rest);
    selectors.push(NativeFunctionSelector::Throw);
    selectors.push(NativeFunctionSelector::Apply);
    selectors.push(NativeFunctionSelector::MapSeq);
    selectors.push(NativeFunctionSelector::NilP);
    selectors.push(NativeFunctionSelector::TrueP);
    selectors.push(NativeFunctionSelector::FalseP);
    selectors.push(NativeFunctionSelector::SymbolP);
    selectors.push(NativeFunctionSelector::Symbol);
    selectors.push(NativeFunctionSelector::Keyword);
    selectors.push(NativeFunctionSelector::KeywordP);
    selectors.push(NativeFunctionSelector::Vector);
    selectors.push(NativeFunctionSelector::VectorP);
    selectors.push(NativeFunctionSelector::HashMap);
    selectors.push(NativeFunctionSelector::MapP);
    selectors.push(NativeFunctionSelector::Assoc);
    selectors.push(NativeFunctionSelector::Dissoc);
    selectors.push(NativeFunctionSelector::Get);
    selectors.push(NativeFunctionSelector::ContainsP);
    selectors.push(NativeFunctionSelector::Keys);
    selectors.push(NativeFunctionSelector::Vals);
    selectors.push(NativeFunctionSelector::SequentialP);
    assert(selectors@ =~= ns_selectors());
    let mut ns_map: Vec<NativeFunction> = Vec::new();
    let mut i: usize = 0;
    while i < selectors.len()
        invariant
            i <= selectors.len(),
            ns_map.len() == i,
            selectors@ == ns_selectors(),
            forall|j: int|
                0 <= j < i ==> (#[trigger] ns_map@[j]).callable == selectors@[j] && ns_map@[j].name@
                    == selector_name(selectors@[j]),
        decreases selectors.len() - i,
    {
        ns_map.push(NativeFunction::new(native_name(selectors[i]), selectors[i]));
        i += 1;
    }
    assert(natives_view(ns_map@) =~= ns_table());
    ns_map
}

/// The characters of a string, each as a string of its own.
pub open spec fn char_strings(s: Seq<char>) -> Seq<Value> {
    Seq::new(s.len(), |i: int| Value::String(seq![s[i]]))
}

/// `seq`: the items of a list or vector as a list, the characters of a
/// string as a list of strings; nil for nil and for anything empty.
pub open spec fn core_seq(args: Seq<Value>) -> Result<Value, Seq<char>> {
    if args.len() == 0 {
        Err("seq: argument required"@)
    } else {
        match args[0] {
            Value::List(items) => if items.len() == 0 {
                Ok(Value::Nil)
            } else {
                Ok(Value::List(items))
            },
            Value::Vector(items) => if items.len() == 0 {
                Ok(Value::Nil)
            } else {
                Ok(Value::List(items))
            },
            Value::String(s) => if s.len() == 0 {
                Ok(Value::Nil)
            } else {
                Ok(Value::List(char_strings(s)))
            },
            Value::Nil => Ok(Value::Nil),
            _ => Err("seq: argument of illegal type"@),
        }
    }
}

/// The built-in `seq`.
pub fn mal_core_seq(args: &[MalData]) -> (res: MalCoreFunResult)
    ensures
        result_view(res) == core_seq(values_view(args@)),
{
    if args.len() == 0 {
        return Err("seq: argument required".to_string());
    }
    proof {
        lemma_list_view(args@[0]);
    }
    match &args[0] {
        MalData::List(lst) | MalData::Vector(lst) => {
            if lst.len() == 0 {
                Ok(MalData::Nil)
            } else {
                Ok(make_mal_list_from_vec(clone_values(lst.as_slice())))
            }
        },
        MalData::String(string) => {
            let chars = chars_of(string.as_str());
            if chars.len() == 0 {
                return Ok(MalData::Nil);
            }
            let mut vec: Vec<MalData> = Vec::new();
            let mut i: usize = 0;
            while i < chars.len()
                invariant
                    i <= chars.len(),
                    vec.len() == i,
                    forall|j: int|
                        0 <= j < i ==> (#[trigger] vec@[j])@ == Value::String(seq![chars@[j]]),
                decreases chars.len() - i,
            {
                let mut one: Vec<char> = Vec::new();
                one.push(chars[i]);
                assert(one@ =~= seq![chars@[i as int]]);
                vec.push(MalData::String(string_of(&one)));
                i += 1;
            }
            assert(values_view(vec@) =~= char_strings(string@));
            Ok(make_mal_list_from_vec(vec))
        },
        MalData::Nil => Ok(MalData::Nil),
        _ => Err("seq: argument of illegal type".to_string()),
    }
}

/// The items after putting the arguments from index `i` on, one by one,
/// in front of them.
pub open spec fn conj_front(items: Seq<Value>, args: Seq<Value>, i: int) -> Seq<Value>
    decreases args.len() - i,
{
    if i < 0 || i >= args.len() {
        items
    } else {
        conj_front(seq![args[i]] + items, args, i + 1)
    }
}

/// `conj`: a list with the further arguments put in front of it one by
/// one, or a vector with them added at its end.
pub open spec fn core_conj(args: Seq<Value>) -> Result<Value, Seq<char>> {
    if args.len() < 2 {
        Err("conj: seq arguments required"@)
    } else {
        match args[0] {
            Value::List(items) => Ok(Value::List(conj_front(items, args, 1))),
            Value::Vector(items) => Ok(
                Value::Vector(items + args.subrange(1, args.len() as int)),
            ),
            _ => Err("illegal type for argument"@),
        }
    }
}

/// The built-in `conj`.
pub fn mal_core_conj(args: &[MalData]) -> (res: MalCoreFunResult)
    ensures
        result_view(res) == core_conj(values_view(args@)),
{
    if args.len() < 2 {
        return Err("conj: seq arguments required".to_string());
    }
    proof {
        lemma_list_view(args@[0]);
    }
    match &args[0] {
        MalData::List(lst) => {
            let mut res = clone_values(lst.as_slice());
            let mut i: usize = 1;
            while i < args.len()
                invariant
                    1 <= i <= args.len(),
                    conj_front(values_view(res@), values_view(args@), i as int) == conj_front(
                        values_view(lst@),
                        values_view(args@),
                        1,
                    ),
                decreases args.len() - i,
            {
                let ghost before = values_view(res@);
                res.insert(0, args[i].clone());
                assert(values_view(res@) =~= seq![values_view(args@)[i as int]] + before);
                i += 1;
            }
            Ok(make_mal_list_from_vec(res))
        },
        MalData::Vector(vec) => {
            let mut res = clone_values(vec.as_slice());
            extend_values(&mut res, args, 1);
            let out = MalData::Vector(Rc::new(res));
            proof {
                lemma_list_view(out);
            }
            Ok(out)
        },
        _ => Err("illegal type for argument".to_string()),
    }
}

/// The number that the low 32 bits of a count of milliseconds stand for.
pub open spec fn low_bits(msecs: int) -> int {
    let low = msecs % 0x1_0000_0000;
    if low >= 0x8000_0000 {
        low - 0x1_0000_0000
    } else {
        low
    }
}

/// `time-ms`: the given count of milliseconds since the epoch, cut to a
/// number of the language.
pub fn mal_core_time_ms(msecs_since_epoch: u64) -> (res: MalCoreFunResult)
    ensures
        result_view(res) == Ok::<Value, Seq<char>>(Value::Number(low_bits(msecs_since_epoch as int))),
{
    let low: u64 = msecs_since_epoch % 0x1_0000_0000;
    if low >= 0x8000_0000 {
        Ok(crate::common::make_mal_number((low as i64 - 0x1_0000_0000) as i32))
    } else {
        Ok(crate::common::make_mal_number(low as i32))
    }
}

/// A value that can be applied to arguments.
pub trait MalFun {
    /// What applying the callable does to the state and yields.
    spec fn applied(&self, rt: RuntimeV, env: nat, args: Seq<Value>, fuel: nat) -> Outcome;

    /// Applies the callable to the arguments.
    fn apply(&self, rt: &mut Runtime, ctx: &FunContext, args: &[MalData]) -> (res: MalCoreFunResult)
        ensures
            (final(rt)@, result_view(res)) == self.applied(
                old(rt)@,
                ctx.env as nat,
                values_view(args@),
                ctx.fuel as nat,
            ),
    ;
}

impl MalFun for NativeFunction {
    open spec fn applied(&self, rt: RuntimeV, env: nat, args: Seq<Value>, fuel: nat) -> Outcome {
        native_spec(rt, env, self.callable, args, fuel)
    }

    fn apply(&self, rt: &mut Runtime, ctx: &FunContext, args: &[MalData]) -> (res:
        MalCoreFunResult) {
        call_native(rt, ctx, self.callable, args)
    }
}

impl MalFun for FnClosure {
    open spec fn applied(&self, rt: RuntimeV, env: nat, args: Seq<Value>, fuel: nat) -> Outcome {
        apply_fun_spec(rt, env, MalData::FnClosure(*self)@, args, fuel)
    }

    fn apply(&self, rt: &mut Runtime, ctx: &FunContext, args: &[MalData]) -> (res:
        MalCoreFunResult) {
        let fun = MalData::FnClosure(self.clone());
        apply_fun(rt, ctx, &fun, args)
    }
}

} // verus!
