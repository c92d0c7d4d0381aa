//! Laws of the language, proved from the definitions that the contracts
//! of this crate use.

use crate::common::key_position;
use crate::common::keys_distinct;
use crate::common::lemma_key_position_is;
use crate::common::map_from_kvs;
use crate::common::map_insert;
use crate::common::map_remove;
use crate::common::key_of;
use crate::common::lemma_key_position;
use crate::common::map_lookup;
use crate::common::maps_equal;
use crate::common::seqs_equal;
use crate::common::values_equal;
use crate::common::KeyV;
use crate::common::Value;
use crate::env::RuntimeV;
use crate::eval::eval_ast_spec;
use crate::eval::eval_entries_spec;
use crate::eval::eval_form_spec;
use crate::eval::eval_seq_spec;
use crate::eval::eval_spec;
use crate::eval::is_macro_call_spec;
use crate::eval::macroexpand_spec;
use crate::eval::step_spec;
use crate::eval::err_not_found;
use crate::eval::StepV;
use crate::printer::decimal;
use crate::printer::readable_string;
use crate::printer::replace_char;
use crate::reader::escape_chars;
use crate::reader::closer_of;
use crate::reader::is_closer;
use crate::reader::macro_symbol;
use crate::reader::read_atom_spec;
use crate::reader::read_form_spec;
use crate::reader::read_list_spec;
use crate::reader::unescape;
use crate::reader::unescape_from;
use crate::printer::digit_char;
use crate::printer::digits;
use crate::reader::digit_value;
use crate::reader::digits_value;
use crate::reader::is_digit;
use crate::reader::is_integer_literal;
use crate::reader::number_value;
use vstd::prelude::*;

verus! {

/// A list and a vector are equal exactly when they have the same number
/// of items and the items at each place are equal; which of the two is
/// the list makes no difference.
pub proof fn lemma_list_equals_vector(a: Seq<Value>, b: Seq<Value>)
    ensures
        values_equal(Value::List(a), Value::Vector(b)) == seqs_equal(a, b),
        values_equal(Value::Vector(a), Value::List(b)) == seqs_equal(a, b),
        values_equal(Value::List(a), Value::List(b)) == seqs_equal(a, b),
        values_equal(Value::Vector(a), Value::Vector(b)) == seqs_equal(a, b),
        seqs_equal(a, b) == (a.len() == b.len() && forall|i: int|
            0 <= i < a.len() ==> values_equal(a[i], b[i])),
{
}

/// Equal maps bind equal values to every key: what one map binds a key
/// to, the other binds it to as well, wherever the entries stand.
pub proof fn lemma_equal_maps_agree(a: Seq<(KeyV, Value)>, b: Seq<(KeyV, Value)>, k: KeyV)
    requires
        maps_equal(a, b),
    ensures
        map_lookup(a, k) matches Some(v) ==> (map_lookup(b, k) matches Some(w) && values_equal(
            v,
            w,
        )),
{
    lemma_key_position(a, k);
    let i = key_position(a, k);
    if i < a.len() {
        assert(a[i].0 == k);
    }
}

/// A value that evaluates to itself whatever the environment holds: no
/// symbol and no list with items, at the top or among the items of a
/// vector or the values of a map.
pub open spec fn self_evaluating(v: Value) -> bool
    decreases v,
{
    match v {
        Value::Symbol(_) => false,
        Value::List(items) => items.len() == 0,
        Value::Vector(items) => forall|i: int|
            0 <= i < items.len() ==> self_evaluating(#[trigger] items[i]),
        Value::HashMap(entries) => forall|i: int|
            0 <= i < entries.len() ==> self_evaluating((#[trigger] entries[i]).1),
        _ => true,
    }
}

/// Whether vectors and maps are nested in a value at most `depth` deep.
pub open spec fn nested_within(v: Value, depth: nat) -> bool
    decreases v,
{
    match v {
        Value::Vector(items) => items.len() == 0 || (depth > 0 && forall|i: int|
            0 <= i < items.len() ==> nested_within(#[trigger] items[i], (depth - 1) as nat)),
        Value::HashMap(entries) => entries.len() == 0 || (depth > 0 && forall|i: int|
            0 <= i < entries.len() ==> nested_within(
                (#[trigger] entries[i]).1,
                (depth - 1) as nat,
            )),
        _ => true,
    }
}

/// The number of items of a vector or entries of a map.
pub open spec fn parts(v: Value) -> nat {
    match v {
        Value::Vector(items) => items.len(),
        Value::HashMap(entries) => entries.len(),
        _ => 0,
    }
}

/// Self-evaluation: a value without symbols and without lists that have
/// items evaluates to itself and leaves the state as it is, in every
/// environment, given a budget larger than its nesting.
pub proof fn lemma_self_evaluation(rt: RuntimeV, env: nat, v: Value, fuel: nat)
    requires
        self_evaluating(v),
        fuel > 0,
        nested_within(v, (fuel - 1) as nat),
    ensures
        eval_spec(rt, env, v, fuel) == (rt, Ok::<Value, Seq<char>>(v)),
    decreases v, parts(v) + 1,
{
    let f = (fuel - 1) as nat;
    match v {
        Value::List(items) => {
            assert(!is_macro_call_spec(rt, env, v));
            assert(macroexpand_spec(rt, env, v, f) == (rt, Ok::<Value, Seq<char>>(v)));
            assert(eval_form_spec(rt, env, items, f) == (
                rt,
                crate::eval::StepV::Done(Ok(Value::List(items))),
            ));
            assert(step_spec(rt, env, v, f) == (rt, crate::eval::StepV::Done(Ok(v))));
        },
        Value::Vector(items) => {
            lemma_items_self_evaluate(rt, env, v, items, 0, Seq::empty(), f);
            assert(Seq::<Value>::empty() + items.subrange(0, items.len() as int) =~= items);
            assert(eval_ast_spec(rt, env, v, f) == (rt, Ok::<Value, Seq<char>>(v)));
            assert(step_spec(rt, env, v, f) == (rt, crate::eval::StepV::Done(Ok(v))));
        },
        Value::HashMap(entries) => {
            lemma_entries_self_evaluate(rt, env, v, entries, 0, Seq::empty(), f);
            assert(Seq::<(KeyV, Value)>::empty() + entries.subrange(0, entries.len() as int)
                =~= entries);
            assert(eval_ast_spec(rt, env, v, f) == (rt, Ok::<Value, Seq<char>>(v)));
            assert(step_spec(rt, env, v, f) == (rt, crate::eval::StepV::Done(Ok(v))));
        },
        _ => {
            assert(eval_ast_spec(rt, env, v, f) == (rt, Ok::<Value, Seq<char>>(v)));
            assert(step_spec(rt, env, v, f) == (rt, crate::eval::StepV::Done(Ok(v))));
        },
    }
}

/// The items of a self-evaluating vector evaluate to themselves.
proof fn lemma_items_self_evaluate(
    rt: RuntimeV,
    env: nat,
    owner: Value,
    items: Seq<Value>,
    i: int,
    acc: Seq<Value>,
    fuel: nat,
)
    requires
        owner == Value::Vector(items),
        self_evaluating(owner),
        nested_within(owner, fuel),
        0 <= i <= items.len(),
    ensures
        eval_seq_spec(rt, env, items, i, acc, fuel) == (
            rt,
            Ok::<Seq<Value>, Seq<char>>(acc + items.subrange(i, items.len() as int)),
        ),
    decreases owner, items.len() - i,
{
    if i < items.len() {
        lemma_self_evaluation(rt, env, items[i], fuel);
        lemma_items_self_evaluate(rt, env, owner, items, i + 1, acc.push(items[i]), fuel);
        assert(acc.push(items[i]) + items.subrange(i + 1, items.len() as int) =~= acc
            + items.subrange(i, items.len() as int));
    } else {
        assert(acc + items.subrange(i, items.len() as int) =~= acc);
    }
}

/// The values of a self-evaluating map evaluate to themselves.
proof fn lemma_entries_self_evaluate(
    rt: RuntimeV,
    env: nat,
    owner: Value,
    entries: Seq<(KeyV, Value)>,
    i: int,
    acc: Seq<(KeyV, Value)>,
    fuel: nat,
)
    requires
        owner == Value::HashMap(entries),
        self_evaluating(owner),
        nested_within(owner, fuel),
        0 <= i <= entries.len(),
    ensures
        eval_entries_spec(rt, env, entries, i, acc, fuel) == (
            rt,
            Ok::<Seq<(KeyV, Value)>, Seq<char>>(acc + entries.subrange(i, entries.len() as int)),
        ),
    decreases owner, entries.len() - i,
{
    if i < entries.len() {
        lemma_self_evaluation(rt, env, entries[i].1, fuel);
        lemma_entries_self_evaluate(
            rt,
            env,
            owner,
            entries,
            i + 1,
            acc.push((entries[i].0, entries[i].1)),
            fuel,
        );
        assert(acc.push((entries[i].0, entries[i].1)) + entries.subrange(
            i + 1,
            entries.len() as int,
        ) =~= acc + entries.subrange(i, entries.len() as int));
    } else {
        assert(acc + entries.subrange(i, entries.len() as int) =~= acc);
    }
}

/// Macro expansion is complete: what it yields is no macro call in the
/// state that it leaves, however many expansions it took.
pub proof fn lemma_macroexpand_complete(rt: RuntimeV, env: nat, ast: Value, fuel: nat)
    ensures
        macroexpand_spec(rt, env, ast, fuel).1 matches Ok(v) ==> !is_macro_call_spec(
            macroexpand_spec(rt, env, ast, fuel).0,
            env,
            v,
        ),
    decreases fuel,
{
    if is_macro_call_spec(rt, env, ast) && fuel > 0 {
        let m = crate::eval::macro_of(rt, env, ast);
        let args = ast->List_0.subrange(1, ast->List_0.len() as int);
        match crate::eval::enter_frame(rt, m->FnClosure_outer_env, m->FnClosure_binds, args) {
            Err(e) => {},
            Ok((rt1, frame)) => {
                let (rt2, r) = eval_spec(rt1, frame, *m->FnClosure_body, (fuel - 1) as nat);
                match r {
                    Err(e) => {},
                    Ok(v) => {
                        lemma_macroexpand_complete(rt2, env, v, (fuel - 1) as nat);
                    },
                }
            },
        }
    }
}

/// A form that is no macro call expands to itself.
pub proof fn lemma_macroexpand_of_plain_form(rt: RuntimeV, env: nat, ast: Value, fuel: nat)
    requires
        !is_macro_call_spec(rt, env, ast),
    ensures
        macroexpand_spec(rt, env, ast, fuel) == (rt, Ok::<Value, Seq<char>>(ast)),
{
}

/// A binding is seen in the frame that holds it.
pub proof fn lemma_get_after_set(rt: RuntimeV, env: nat, key: Seq<char>, value: Value)
    requires
        env < rt.envs.len(),
    ensures
        rt.set(env, key, value).get(env, key) == Some(value),
{
}

/// Shadowing is by frame: what a frame binds a symbol to is what a lookup
/// from that frame finds, whatever the frames around it bind.
pub proof fn lemma_shadowing(rt: RuntimeV, env: nat, key: Seq<char>)
    requires
        env < rt.envs.len(),
        rt.envs[env as int].data.contains_key(key),
    ensures
        rt.find(env, key) == Some(env),
        rt.get(env, key) == Some(rt.envs[env as int].data[key]),
{
}

/// A lookup goes on in the parent where the frame does not bind the
/// symbol.
pub proof fn lemma_lookup_in_parent(rt: RuntimeV, env: nat, key: Seq<char>)
    requires
        env < rt.envs.len(),
        !rt.envs[env as int].data.contains_key(key),
        rt.envs[env as int].outer matches Some(o) && o < env,
    ensures
        rt.get(env, key) == rt.get(rt.envs[env as int].outer->0, key),
{
}

/// Mutation is scoped: binding a symbol in a frame changes no other
/// frame.
pub proof fn lemma_set_is_scoped(rt: RuntimeV, env: nat, key: Seq<char>, value: Value, other: int)
    requires
        0 <= other < rt.envs.len(),
        other != env,
    ensures
        rt.set(env, key, value).envs.len() == rt.envs.len(),
        rt.set(env, key, value).envs[other] == rt.envs[other],
        rt.set(env, key, value).atoms == rt.atoms,
{
}

/// A definition in a frame is not seen from the frames before it, its
/// ancestors among them: every lookup from such a frame finds what it
/// found before.
pub proof fn lemma_set_hidden_from_earlier(
    rt: RuntimeV,
    env: nat,
    key: Seq<char>,
    value: Value,
    from: nat,
    looked_up: Seq<char>,
)
    requires
        from < env,
    ensures
        rt.set(env, key, value).find(from, looked_up) == rt.find(from, looked_up),
        rt.set(env, key, value).get(from, looked_up) == rt.get(from, looked_up),
    decreases from,
{
    let after = rt.set(env, key, value);
    if from < rt.envs.len() {
        assert(after.envs[from as int] == rt.envs[from as int]);
        if !rt.envs[from as int].data.contains_key(looked_up) {
            if let Some(o) = rt.envs[from as int].outer {
                if o < from {
                    lemma_set_hidden_from_earlier(rt, env, key, value, o, looked_up);
                }
            }
        }
        rt.lemma_find(from, looked_up);
    }
}

/// A map that binds no key twice still does so after a key is bound in
/// it.
pub proof fn lemma_insert_keeps_keys_distinct(entries: Seq<(KeyV, Value)>, k: KeyV, v: Value)
    requires
        keys_distinct(entries),
    ensures
        keys_distinct(map_insert(entries, k, v)),
{
    lemma_key_position(entries, k);
    let i = key_position(entries, k);
    let after = map_insert(entries, k, v);
    assert forall|x: int, y: int| 0 <= x < y < after.len() implies (#[trigger] after[x]).0 != (
    #[trigger] after[y]).0 by {
        if i < entries.len() {
            assert(after[x].0 == entries[x].0);
            assert(after[y].0 == entries[y].0);
        } else {
            if y < entries.len() {
                assert(after[x] == entries[x]);
                assert(after[y] == entries[y]);
            } else {
                assert(after[x] == entries[x]);
                assert(entries[x].0 != k);
            }
        }
    }
}

/// What a map binds a key to after the key was bound in it: the new
/// value for that key, and for every other key what it was bound to
/// before.
pub proof fn lemma_lookup_after_insert(
    entries: Seq<(KeyV, Value)>,
    k: KeyV,
    v: Value,
    other: KeyV,
)
    ensures
        map_lookup(map_insert(entries, k, v), k) == Some(v),
        other != k ==> map_lookup(map_insert(entries, k, v), other) == map_lookup(entries, other),
{
    lemma_key_position(entries, k);
    lemma_key_position(entries, other);
    let i = key_position(entries, k);
    let j = key_position(entries, other);
    let after = map_insert(entries, k, v);
    assert(key_position(after, k) == i) by {
        assert forall|m: int| 0 <= m < i implies (#[trigger] after[m]).0 != k by {
            assert(after[m] == entries[m]);
        }
        lemma_key_position_is(after, k, i);
    }
    if other != k {
        assert(key_position(after, other) == (if j < entries.len() {
            j
        } else {
            after.len() as int
        })) by {
            if j < entries.len() {
                assert forall|m: int| 0 <= m < j implies (#[trigger] after[m]).0 != other by {
                    assert(entries[m].0 != other);
                    assert(after[m].0 == entries[m].0 || after[m].0 == k);
                }
                assert(after[j] == entries[j]);
                lemma_key_position_is(after, other, j);
            } else {
                assert forall|m: int| 0 <= m < after.len() implies (#[trigger] after[m]).0
                    != other by {
                    if m < entries.len() {
                        assert(entries[m].0 != other);
                        assert(after[m].0 == entries[m].0 || after[m].0 == k);
                    }
                }
                lemma_key_position_is(after, other, after.len() as int);
            }
        }
        if j < entries.len() {
            assert(after[j] == entries[j]);
        }
    }
}

/// What is left of a map after a key was taken out: entries of the map,
/// in their order, none of them with that key; no key is bound twice if
/// none was before.
pub proof fn lemma_remove(entries: Seq<(KeyV, Value)>, k: KeyV)
    ensures
        map_remove(entries, k).len() <= entries.len(),
        forall|j: int|
            0 <= j < map_remove(entries, k).len() ==> (#[trigger] map_remove(entries, k)[j]).0
                != k && entries.contains(map_remove(entries, k)[j]),
        keys_distinct(entries) ==> keys_distinct(map_remove(entries, k)),
        map_lookup(map_remove(entries, k), k) is None,
    decreases entries.len(),
{
    let r = map_remove(entries, k);
    if entries.len() > 0 {
        let head = entries.drop_last();
        let rest = map_remove(head, k);
        lemma_remove(head, k);
        assert forall|j: int| 0 <= j < r.len() implies (#[trigger] r[j]).0 != k
            && entries.contains(r[j]) by {
            if j < rest.len() {
                assert(r[j] == rest[j]);
                let m = choose|m: int| 0 <= m < head.len() && head[m] == rest[j];
                assert(entries[m] == r[j]);
            } else {
                assert(r[j] == entries.last());
                assert(entries[entries.len() - 1] == r[j]);
            }
        }
        if keys_distinct(entries) {
            assert(keys_distinct(head)) by {
                assert forall|x: int, y: int| 0 <= x < y < head.len() implies (
                #[trigger] head[x]).0 != (#[trigger] head[y]).0 by {
                    assert(head[x] == entries[x]);
                    assert(head[y] == entries[y]);
                }
            }
            assert forall|x: int, y: int| 0 <= x < y < r.len() implies (#[trigger] r[x]).0 != (
            #[trigger] r[y]).0 by {
                if y < rest.len() {
                    assert(r[x] == rest[x]);
                    assert(r[y] == rest[y]);
                } else {
                    assert(r[y] == entries.last());
                    assert(r[x] == rest[x]);
                    let m = choose|m: int| 0 <= m < head.len() && head[m] == rest[x];
                    assert(entries[m] == r[x]);
                    assert(entries[entries.len() - 1] == r[y]);
                }
            }
        }
    }
    lemma_key_position(r, k);
    if key_position(r, k) < r.len() {
        assert(r[key_position(r, k)].0 == k);
    }
}

/// A map built from keys and values on top of a map that binds no key
/// twice binds no key twice.
pub proof fn lemma_map_from_kvs_keys_distinct(acc: Seq<(KeyV, Value)>, kvs: Seq<Value>, i: int)
    requires
        keys_distinct(acc),
    ensures
        map_from_kvs(acc, kvs, i) matches Ok(entries) ==> keys_distinct(entries),
    decreases kvs.len() - i,
{
    if 0 <= i && i + 1 < kvs.len() {
        if let Some(k) = key_of(kvs[i]) {
            lemma_insert_keeps_keys_distinct(acc, k, kvs[i + 1]);
            lemma_map_from_kvs_keys_distinct(map_insert(acc, k, kvs[i + 1]), kvs, i + 2);
        }
    }
}

/// The keys of the entries, in order.
pub open spec fn map_keys(entries: Seq<(KeyV, Value)>) -> Seq<KeyV> {
    Seq::new(entries.len(), |i: int| entries[i].0)
}

/// Whether two maps bind the same keys, each to equal values.
pub open spec fn same_bindings(a: Seq<(KeyV, Value)>, b: Seq<(KeyV, Value)>) -> bool {
    forall|k: KeyV|
        match #[trigger] map_lookup(a, k) {
            Some(v) => (map_lookup(b, k) matches Some(w) && values_equal(v, w)),
            None => map_lookup(b, k) is None,
        }
}

/// A map binds a key exactly when the key is among its keys.
pub proof fn lemma_lookup_is_some(entries: Seq<(KeyV, Value)>, k: KeyV)
    ensures
        map_lookup(entries, k) is Some == map_keys(entries).contains(k),
{
    lemma_key_position(entries, k);
    let i = key_position(entries, k);
    if i < entries.len() {
        assert(map_keys(entries)[i] == k);
    } else if map_keys(entries).contains(k) {
        let j = choose|j: int| 0 <= j < map_keys(entries).len() && map_keys(entries)[j] == k;
        assert(entries[j].0 == k);
    }
}

/// In a map that binds no key twice, every entry is what the map binds
/// its key to.
pub proof fn lemma_lookup_of_entry(entries: Seq<(KeyV, Value)>, i: int)
    requires
        keys_distinct(entries),
        0 <= i < entries.len(),
    ensures
        map_lookup(entries, entries[i].0) == Some(entries[i].1),
{
    assert forall|j: int| 0 <= j < i implies (#[trigger] entries[j]).0 != entries[i].0 by {}
    lemma_key_position_is(entries, entries[i].0, i);
}

/// A map that binds no key twice has as many entries as keys.
proof fn lemma_key_count(entries: Seq<(KeyV, Value)>)
    requires
        keys_distinct(entries),
    ensures
        map_keys(entries).to_set().finite(),
        map_keys(entries).to_set().len() == entries.len(),
{
    let keys = map_keys(entries);
    assert(keys.no_duplicates()) by {
        assert forall|i: int, j: int|
            0 <= i < keys.len() && 0 <= j < keys.len() && i != j implies keys[i] != keys[j] by {
            if i < j {
                assert(entries[i].0 != entries[j].0);
            } else {
                assert(entries[j].0 != entries[i].0);
            }
        }
    }
    keys.unique_seq_to_set();
    vstd::seq_lib::seq_to_set_is_finite(keys);
}

/// Maps compare by what they bind: two maps that bind no key twice are
/// equal exactly when they bind the same keys, each to equal values. The
/// order of the entries makes no difference.
pub proof fn lemma_maps_equal_by_bindings(a: Seq<(KeyV, Value)>, b: Seq<(KeyV, Value)>)
    requires
        keys_distinct(a),
        keys_distinct(b),
    ensures
        maps_equal(a, b) == same_bindings(a, b),
{
    let sa = map_keys(a).to_set();
    let sb = map_keys(b).to_set();
    lemma_key_count(a);
    lemma_key_count(b);
    if maps_equal(a, b) {
        assert(sa.subset_of(sb)) by {
            assert forall|k: KeyV| sa.contains(k) implies sb.contains(k) by {
                let i = choose|i: int| 0 <= i < map_keys(a).len() && map_keys(a)[i] == k;
                assert(a[i].0 == k);
                lemma_lookup_is_some(b, k);
            }
        }
        vstd::set_lib::lemma_subset_equality(sa, sb);
        assert forall|k: KeyV|
            match #[trigger] map_lookup(a, k) {
                Some(v) => (map_lookup(b, k) matches Some(w) && values_equal(v, w)),
                None => map_lookup(b, k) is None,
            } by {
            lemma_equal_maps_agree(a, b, k);
            lemma_lookup_is_some(a, k);
            lemma_lookup_is_some(b, k);
            assert(sa.contains(k) == sb.contains(k));
        }
    }
    if same_bindings(a, b) {
        assert(sa =~= sb) by {
            assert forall|k: KeyV| sa.contains(k) == sb.contains(k) by {
                lemma_lookup_is_some(a, k);
                lemma_lookup_is_some(b, k);
                let _ = map_lookup(a, k);
            }
        }
        assert forall|i: int| 0 <= i < a.len() implies (map_lookup(b, (#[trigger] a[i]).0) matches Some(
            v,
        ) && values_equal(a[i].1, v)) by {
            lemma_lookup_of_entry(a, i);
            let _ = map_lookup(a, a[i].0);
        }
    }
}

/// A symbol evaluates to what it is bound to, seen from the environment,
/// and to the error that names it where it is not bound; the state stays
/// as it is.
pub proof fn lemma_symbol_evaluation(rt: RuntimeV, env: nat, name: Seq<char>, fuel: nat)
    requires
        fuel > 0,
    ensures
        eval_spec(rt, env, Value::Symbol(name), fuel) == (
            rt,
            match rt.get(env, name) {
                Some(v) => Ok::<Value, Seq<char>>(v),
                None => Err::<Value, Seq<char>>(err_not_found(name)),
            },
        ),
{
    let f = (fuel - 1) as nat;
    let ast = Value::Symbol(name);
    assert(eval_ast_spec(rt, env, ast, f).0 == rt);
    assert(step_spec(rt, env, ast, f) == (rt, StepV::Done(eval_ast_spec(rt, env, ast, f).1)));
}

/// Tail position: where a turn of the evaluator yields a form to go on
/// with, the evaluation is the evaluation of that form in the state and
/// the environment that the turn left. Nothing of the first form is left
/// to do after it.
pub proof fn lemma_tail_position(rt: RuntimeV, env: nat, ast: Value, fuel: nat)
    requires
        fuel > 0,
        step_spec(rt, env, ast, (fuel - 1) as nat).1 is Next,
    ensures
        ({
            let (rt1, step) = step_spec(rt, env, ast, (fuel - 1) as nat);
            eval_spec(rt, env, ast, fuel) == eval_spec(
                rt1,
                step->Next_0,
                step->Next_1,
                (fuel - 1) as nat,
            )
        }),
{
}

/// The digits of a number are digits, and they stand for the number.
pub proof fn lemma_digits_round_trip(n: nat)
    ensures
        digits(n).len() >= 1,
        forall|i: int| 0 <= i < digits(n).len() ==> is_digit(#[trigger] digits(n)[i]),
        digits_value(digits(n), 0, digits(n).len() as int) == n,
    decreases n,
{
    let d = digits(n);
    if n < 10 {
        assert(d.len() == 1);
        assert(digit_value(digit_char(n as int)) == n);
        assert(digits_value(d, 0, 0) == 0);
        assert(digits_value(d, 0, 1) == digits_value(d, 0, 0) * 10 + digit_value(d[0]));
    } else {
        let head = digits(n / 10);
        lemma_digits_round_trip(n / 10);
        let last = digit_char((n % 10) as int);
        assert(d == head.push(last));
        assert(digit_value(last) == n % 10);
        assert(is_digit(last));
        assert forall|i: int| 0 <= i < d.len() implies is_digit(#[trigger] d[i]) by {
            if i < head.len() {
                assert(d[i] == head[i]);
            }
        }
        lemma_digits_value_prefix(d, head, head.len() as int);
        assert(digits_value(d, 0, d.len() as int) == digits_value(d, 0, d.len() - 1) * 10
            + digit_value(d[d.len() - 1]));
    }
}

/// The value of the first digits depends on those digits alone.
proof fn lemma_digits_value_prefix(a: Seq<char>, b: Seq<char>, upto: int)
    requires
        0 <= upto <= a.len(),
        upto <= b.len(),
        forall|i: int| 0 <= i < upto ==> a[i] == b[i],
    ensures
        digits_value(a, 0, upto) == digits_value(b, 0, upto),
    decreases upto,
{
    if upto > 0 {
        lemma_digits_value_prefix(a, b, upto - 1);
    }
}

/// The value of digits does not depend on what stands before them.
proof fn lemma_digits_value_shift(a: Seq<char>, b: Seq<char>, upto: int)
    requires
        0 <= upto <= b.len(),
        a.len() == b.len() + 1,
        forall|i: int| 0 <= i < b.len() ==> a[i + 1] == b[i],
    ensures
        digits_value(a, 1, upto + 1) == digits_value(b, 0, upto),
    decreases upto,
{
    if upto > 0 {
        lemma_digits_value_shift(a, b, upto - 1);
    }
}

/// Numbers round-trip: the text that the printer writes for a number is
/// an integer literal, and the reader's number parser reads the number
/// from it.
pub proof fn lemma_number_round_trip(n: int)
    requires
        i32::MIN <= n <= i32::MAX,
    ensures
        is_integer_literal(decimal(n)),
        number_value(decimal(n)) == Some(n),
{
    let t = decimal(n);
    if n < 0 {
        let d = digits((-n) as nat);
        lemma_digits_round_trip((-n) as nat);
        assert(t == seq!['-'] + d);
        assert(t[0] == '-');
        assert forall|i: int| 1 <= i < t.len() implies is_digit(#[trigger] t[i]) by {
            assert(t[i] == d[i - 1]);
        }
        lemma_digits_value_shift(t, d, d.len() as int);
    } else {
        lemma_digits_round_trip(n as nat);
        assert(is_digit(t[0]));
        assert(t[0] != '-');
    }
}

/// What stands for a character in a readable string: a backslash, a
/// line feed and a double quote are escaped, any other character stands
/// for itself.
pub open spec fn escaped(c: char) -> Seq<char> {
    if c == '\\' {
        seq!['\\', '\\']
    } else if c == '\n' {
        seq!['\\', 'n']
    } else if c == '"' {
        seq!['\\', '"']
    } else {
        seq![c]
    }
}

/// The characters of a string, each escaped, one after the other.
pub open spec fn escape_all(s: Seq<char>) -> Seq<char>
    decreases s.len(),
{
    if s.len() == 0 {
        Seq::empty()
    } else {
        escaped(s[0]) + escape_all(s.drop_first())
    }
}

/// Replacing a character in two texts, one after the other, is replacing
/// it in each.
pub proof fn lemma_replace_concat(a: Seq<char>, b: Seq<char>, c: char, rep: Seq<char>)
    ensures
        replace_char(a + b, c, rep) == replace_char(a, c, rep) + replace_char(b, c, rep),
    decreases b.len(),
{
    if b.len() == 0 {
        assert(a + b =~= a);
        assert(replace_char(a, c, rep) + replace_char(b, c, rep) =~= replace_char(a, c, rep));
    } else {
        lemma_replace_concat(a, b.drop_last(), c, rep);
        assert((a + b).drop_last() =~= a + b.drop_last());
        assert((a + b).last() == b.last());
        if b.last() == c {
            assert(replace_char(a, c, rep) + (replace_char(b.drop_last(), c, rep) + rep)
                =~= (replace_char(a, c, rep) + replace_char(b.drop_last(), c, rep)) + rep);
        } else {
            assert(replace_char(a, c, rep) + replace_char(b.drop_last(), c, rep).push(b.last())
                =~= (replace_char(a, c, rep) + replace_char(b.drop_last(), c, rep)).push(
                b.last(),
            ));
        }
    }
}

/// Replacing a character in a text of one or two characters.
proof fn lemma_replace_short(p: char, q: char, c: char, rep: Seq<char>)
    ensures
        replace_char(seq![p], c, rep) == (if p == c {
            rep
        } else {
            seq![p]
        }),
        p != c && q != c ==> replace_char(seq![p, q], c, rep) == seq![p, q],
{
    let one = seq![p];
    assert(one.drop_last() =~= Seq::<char>::empty());
    assert(replace_char(one.drop_last(), c, rep) =~= Seq::<char>::empty());
    if p == c {
        assert(replace_char(one, c, rep) =~= rep);
    } else {
        assert(replace_char(one, c, rep) =~= one);
    }
    if p != c && q != c {
        let two = seq![p, q];
        assert(two.drop_last() =~= one);
        assert(replace_char(two, c, rep) =~= two);
    }
}

/// The three replacements that make a string readable, one after the
/// other, escape every character of the string.
pub proof fn lemma_escapes_in_one_pass(s: Seq<char>)
    ensures
        replace_char(
            replace_char(replace_char(s, '\\', seq!['\\', '\\']), '\n', seq!['\\', 'n']),
            '"',
            seq!['\\', '"'],
        ) == escape_all(s),
    decreases s.len(),
{
    let r1 = seq!['\\', '\\'];
    let r2 = seq!['\\', 'n'];
    let r3 = seq!['\\', '"'];
    if s.len() == 0 {
        assert(replace_char(s, '\\', r1) =~= Seq::<char>::empty());
    } else {
        let x = s[0];
        let rest = s.drop_first();
        lemma_escapes_in_one_pass(rest);
        assert(s =~= seq![x] + rest);
        let a1 = replace_char(seq![x], '\\', r1);
        let b1 = replace_char(rest, '\\', r1);
        lemma_replace_concat(seq![x], rest, '\\', r1);
        let a2 = replace_char(a1, '\n', r2);
        let b2 = replace_char(b1, '\n', r2);
        lemma_replace_concat(a1, b1, '\n', r2);
        let a3 = replace_char(a2, '"', r3);
        lemma_replace_concat(a2, b2, '"', r3);
        lemma_replace_short(x, x, '\\', r1);
        if x == '\\' {
            lemma_replace_short('\\', '\\', '\n', r2);
            lemma_replace_short('\\', '\\', '"', r3);
        } else {
            lemma_replace_short(x, x, '\n', r2);
            if x == '\n' {
                lemma_replace_short('\\', 'n', '"', r3);
            } else {
                lemma_replace_short(x, x, '"', r3);
            }
        }
        assert(a3 == escaped(x));
    }
}

/// Decoding what escaping wrote gives the characters back.
proof fn lemma_unescape_escaped(t: Seq<char>, i: int, acc: Seq<char>, s: Seq<char>)
    requires
        1 <= i <= t.len(),
        t.subrange(i, t.len() as int) == escape_all(s) + seq!['"'],
    ensures
        unescape_from(t, i, acc) == Some(acc + s),
    decreases s.len(),
{
    let tail = t.subrange(i, t.len() as int);
    if s.len() == 0 {
        assert(escape_all(s) =~= Seq::<char>::empty());
        assert(tail.len() == 1);
        assert(tail[0] == '"');
        assert(t[i] == tail[0]);
        assert(acc + s =~= acc);
    } else {
        let x = s[0];
        let rest = s.drop_first();
        let e = escaped(x);
        assert(tail =~= e + (escape_all(rest) + seq!['"']));
        assert(t[i] == tail[0]);
        assert(tail[0] == e[0]);
        if e.len() == 2 {
            assert(t[i + 1] == tail[1]);
            assert(tail[1] == e[1]);
            assert(tail.subrange(2, tail.len() as int) =~= escape_all(rest) + seq!['"']);
            assert(t.subrange(i + 2, t.len() as int) =~= tail.subrange(2, tail.len() as int));
            assert(escape_chars(t[i + 1]) =~= seq![x]);
            lemma_unescape_escaped(t, i + 2, acc + seq![x], rest);
            assert((acc + seq![x]) + rest =~= acc + s);
        } else {
            assert(tail.subrange(1, tail.len() as int) =~= escape_all(rest) + seq!['"']);
            assert(t.subrange(i + 1, t.len() as int) =~= tail.subrange(1, tail.len() as int));
            lemma_unescape_escaped(t, i + 1, acc.push(x), rest);
            assert(acc.push(x) + rest =~= acc + s);
        }
    }
}

/// Strings round-trip: the readable text of a string is a string literal
/// that the reader decodes to the same string.
pub proof fn lemma_string_round_trip(s: Seq<char>)
    ensures
        unescape(readable_string(s)) == Some(s),
        read_atom_spec(readable_string(s)) == Ok::<Value, Seq<char>>(Value::String(s)),
{
    lemma_escapes_in_one_pass(s);
    let t = readable_string(s);
    assert(t =~= seq!['"'] + escape_all(s) + seq!['"']);
    assert(t.subrange(1, t.len() as int) =~= escape_all(s) + seq!['"']);
    lemma_unescape_escaped(t, 1, Seq::empty(), s);
    assert(Seq::<char>::empty() + s =~= s);
    assert(t[0] == '"');
}

/// The text that the printer writes for a number is a token that the
/// reader takes for that number.
pub proof fn lemma_number_token_round_trip(n: int)
    requires
        i32::MIN <= n <= i32::MAX,
    ensures
        read_atom_spec(decimal(n)) == Ok::<Value, Seq<char>>(Value::Number(n)),
{
    lemma_number_round_trip(n);
    let t = decimal(n);
    reveal_strlit("nil");
    reveal_strlit("true");
    reveal_strlit("false");
    if n < 0 {
        lemma_digits_round_trip((-n) as nat);
        assert(t[0] == '-');
    } else {
        lemma_digits_round_trip(n as nat);
        assert(is_digit(t[0]));
    }
    assert(t != "nil"@) by {
        assert("nil"@[0] == 'n');
    }
    assert(t != "true"@) by {
        assert("true"@[0] == 't');
    }
    assert(t != "false"@) by {
        assert("false"@[0] == 'f');
    }
}

/// Reading moves on: a form that was read took at least one token and
/// no more tokens than there are, and a failed read never moves back.
pub proof fn lemma_read_form_advances(tokens: Seq<Seq<char>>, pos: int)
    requires
        0 <= pos <= tokens.len(),
    ensures
        pos <= read_form_spec(tokens, pos).1 <= tokens.len(),
        (pos < tokens.len() && read_form_spec(tokens, pos).0 is Ok) ==> pos < read_form_spec(
            tokens,
            pos,
        ).1,
    decreases tokens.len() - pos, 0nat,
{
    if pos < tokens.len() {
        let t = tokens[pos];
        if closer_of(t) is Some {
            lemma_read_list_advances(tokens, pos + 1, closer_of(t)->0, Seq::empty());
        } else if is_closer(t) {
        } else if macro_symbol(t) is Some {
            lemma_read_form_advances(tokens, pos + 1);
        }
    }
}

/// Reading a sequence moves on: it takes no more tokens than there are,
/// a sequence that was read took at least its closing bracket, and every
/// form in it took at least one token.
pub proof fn lemma_read_list_advances(
    tokens: Seq<Seq<char>>,
    pos: int,
    close: Seq<char>,
    items: Seq<Value>,
)
    requires
        0 <= pos <= tokens.len(),
    ensures
        pos <= read_list_spec(tokens, pos, close, items).1 <= tokens.len(),
        read_list_spec(tokens, pos, close, items).0 is Ok ==> pos < read_list_spec(
            tokens,
            pos,
            close,
            items,
        ).1,
    decreases tokens.len() - pos, 1nat,
{
    if pos < tokens.len() && tokens[pos] != close {
        lemma_read_form_advances(tokens, pos);
        let (r, p) = read_form_spec(tokens, pos);
        if let Ok(v) = r {
            lemma_read_list_advances(tokens, p, close, items.push(v));
        }
    }
}

} // verus!
