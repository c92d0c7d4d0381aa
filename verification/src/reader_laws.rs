//! The reader undoes the printer, token by token.
//!
//! The readable text of a value is made of tokens: brackets, and one
//! token for every number, string, symbol, keyword and constant in it.
//! Reading these tokens gives the value back. (How a text is cut into
//! tokens is the tokenizer's part.)

use crate::builtins::fits_number;
use crate::common::key_of;
use crate::common::key_position;
use crate::common::key_value;
use crate::common::keys_distinct;
use crate::common::keyword_prefix;
use crate::common::lemma_key_position_is;
use crate::common::map_from_kvs;
use crate::common::map_insert;
use crate::common::KeyV;
use crate::common::Value;
use crate::laws::lemma_digits_round_trip;
use crate::laws::lemma_number_token_round_trip;
use crate::laws::lemma_string_round_trip;
use crate::env::RuntimeV;
use crate::printer::decimal;
use crate::printer::entries_text;
use crate::printer::items_text;
use crate::printer::joined;
use crate::printer::key_text;
use crate::printer::value_text;
use crate::printer::keyword_text;
use crate::printer::readable_string;
use crate::reader::closer_of;
use crate::reader::finish_list;
use crate::reader::is_closer;
use crate::reader::is_digit;
use crate::reader::is_integer_literal;
use crate::reader::macro_symbol;
use crate::reader::read_atom_spec;
use crate::reader::read_form_spec;
use crate::reader::read_list_spec;
use crate::laws::lemma_insert_keeps_keys_distinct;
use crate::reader::read_str_spec;
use crate::reader::tokens_of;
use crate::reader::without_comments;
use crate::printer::printed;
use vstd::prelude::*;

verus! {

/// Whether a token is a bracket or a reader macro.
pub open spec fn is_special_token(t: Seq<char>) -> bool {
    closer_of(t) is Some || is_closer(t) || macro_symbol(t) is Some
}

/// Whether a symbol's name is a token that reads as that symbol.
pub open spec fn is_symbol_token(s: Seq<char>) -> bool {
    !is_special_token(s) && read_atom_spec(s) == Ok::<Value, Seq<char>>(Value::Symbol(s))
}

/// Whether a keyword's stored name starts as every keyword's does.
pub open spec fn is_keyword_name(kw: Seq<char>) -> bool {
    kw.len() >= 1 && kw[0] == keyword_prefix()
}

/// Whether a key can be read back from its text.
pub open spec fn readable_key(k: KeyV) -> bool {
    match k {
        KeyV::Symbol(s) => is_symbol_token(s),
        KeyV::Keyword(kw) => is_keyword_name(kw),
        KeyV::Number(n) => fits_number(n),
        _ => true,
    }
}

/// Whether a value can be read back from its text: it is made of
/// constants, numbers, strings, symbols and keywords as the reader makes
/// them, in lists, vectors and maps that bind no key twice.
pub open spec fn readable(v: Value) -> bool
    decreases v,
{
    match v {
        Value::Nil => true,
        Value::True => true,
        Value::False => true,
        Value::Number(n) => fits_number(n),
        Value::String(_) => true,
        Value::Symbol(s) => is_symbol_token(s),
        Value::Keyword(kw) => is_keyword_name(kw),
        Value::List(items) => forall|i: int| 0 <= i < items.len() ==> readable(#[trigger] items[i]),
        Value::Vector(items) => forall|i: int|
            0 <= i < items.len() ==> readable(#[trigger] items[i]),
        Value::HashMap(entries) => keys_distinct(entries) && forall|i: int|
            0 <= i < entries.len() ==> readable_key((#[trigger] entries[i]).0) && readable(
                entries[i].1,
            ),
        _ => false,
    }
}

/// The token that the printer writes for a value that is no sequence.
pub open spec fn atom_token(v: Value) -> Seq<char> {
    match v {
        Value::Nil => "nil"@,
        Value::True => "true"@,
        Value::False => "false"@,
        Value::Number(n) => decimal(n),
        Value::String(s) => readable_string(s),
        Value::Symbol(s) => s,
        Value::Keyword(kw) => keyword_text(kw),
        _ => Seq::empty(),
    }
}

/// The tokens of the readable text of a value.
pub open spec fn value_tokens(v: Value) -> Seq<Seq<char>>
    decreases v, 0nat,
{
    match v {
        Value::List(items) => seq!["("@] + items_tokens(items, 0) + seq![")"@],
        Value::Vector(items) => seq!["["@] + items_tokens(items, 0) + seq!["]"@],
        Value::HashMap(entries) => seq!["{"@] + entries_tokens(entries, 0) + seq!["}"@],
        _ => seq![atom_token(v)],
    }
}

/// The tokens of the items from index `i` on.
pub open spec fn items_tokens(items: Seq<Value>, i: int) -> Seq<Seq<char>>
    decreases items, items.len() - i,
{
    if i < 0 || i >= items.len() {
        Seq::empty()
    } else {
        value_tokens(items[i]) + items_tokens(items, i + 1)
    }
}

/// The tokens of the entries from index `i` on: for each, the key's
/// token and the tokens of the value.
pub open spec fn entries_tokens(entries: Seq<(KeyV, Value)>, i: int) -> Seq<Seq<char>>
    decreases entries, entries.len() - i,
{
    if i < 0 || i >= entries.len() {
        Seq::empty()
    } else {
        seq![atom_token(key_value(entries[i].0))] + value_tokens(entries[i].1) + entries_tokens(
            entries,
            i + 1,
        )
    }
}

/// The keys and values of the first `upto` entries, in turn.
pub open spec fn interleaved(entries: Seq<(KeyV, Value)>, upto: int) -> Seq<Value>
    decreases upto,
{
    if upto <= 0 {
        Seq::empty()
    } else {
        interleaved(entries, upto - 1).push(key_value(entries[upto - 1].0)).push(
            entries[upto - 1].1,
        )
    }
}

/// A bracket or reader macro starts with one of the characters that only
/// they start with.
pub proof fn lemma_special_tokens(t: Seq<char>)
    requires
        is_special_token(t),
    ensures
        t.len() >= 1,
        t[0] == '(' || t[0] == '[' || t[0] == '{' || t[0] == ')' || t[0] == ']' || t[0] == '}'
            || t[0] == '@' || t[0] == '\'' || t[0] == '`' || t[0] == '~',
{
    reveal_strlit("(");
    reveal_strlit("[");
    reveal_strlit("{");
    reveal_strlit(")");
    reveal_strlit("]");
    reveal_strlit("}");
    reveal_strlit("@");
    reveal_strlit("'");
    reveal_strlit("`");
    reveal_strlit("~");
    reveal_strlit("~@");
}

/// The opening brackets are no closing brackets, and each has its own
/// closing bracket.
pub proof fn lemma_brackets()
    ensures
        closer_of("("@) == Some(")"@),
        closer_of("["@) == Some("]"@),
        closer_of("{"@) == Some("}"@),
        !is_closer("("@) && !is_closer("["@) && !is_closer("{"@),
        is_closer(")"@) && is_closer("]"@) && is_closer("}"@),
        ")"@ != "]"@ && ")"@ != "}"@ && "]"@ != "}"@,
{
    reveal_strlit("(");
    reveal_strlit("[");
    reveal_strlit("{");
    reveal_strlit(")");
    reveal_strlit("]");
    reveal_strlit("}");
    assert("("@[0] != "["@[0]);
    assert("("@[0] != "{"@[0]);
    assert("["@[0] != "{"@[0]);
    assert("("@[0] != ")"@[0]);
    assert("("@[0] != "]"@[0]);
    assert("("@[0] != "}"@[0]);
    assert("["@[0] != ")"@[0]);
    assert("["@[0] != "]"@[0]);
    assert("["@[0] != "}"@[0]);
    assert("{"@[0] != ")"@[0]);
    assert("{"@[0] != "]"@[0]);
    assert("{"@[0] != "}"@[0]);
    assert(")"@[0] != "]"@[0]);
    assert(")"@[0] != "}"@[0]);
    assert("]"@[0] != "}"@[0]);
}

/// The token of a readable value that is no sequence is no bracket and
/// no reader macro, and reads as the value.
pub proof fn lemma_atom_token(v: Value)
    requires
        readable(v),
        !(v is List) && !(v is Vector) && !(v is HashMap),
    ensures
        !is_special_token(atom_token(v)),
        read_atom_spec(atom_token(v)) == Ok::<Value, Seq<char>>(v),
{
    let t = atom_token(v);
    reveal_strlit("nil");
    reveal_strlit("true");
    reveal_strlit("false");
    if is_special_token(t) {
        lemma_special_tokens(t);
    }
    match v {
        Value::Nil => {
            assert(t[0] == 'n');
        },
        Value::True => {
            assert(t[0] == 't');
            assert(t != "nil"@) by {
                assert("nil"@[0] == 'n');
            }
        },
        Value::False => {
            assert(t[0] == 'f');
            assert(t != "nil"@) by {
                assert("nil"@[0] == 'n');
            }
            assert(t != "true"@) by {
                assert("true"@[0] == 't');
            }
        },
        Value::Number(n) => {
            lemma_number_token_round_trip(n);
            if n < 0 {
                lemma_digits_round_trip((-n) as nat);
                assert(t[0] == '-');
            } else {
                lemma_digits_round_trip(n as nat);
                assert(is_digit(t[0]));
            }
        },
        Value::String(s) => {
            lemma_string_round_trip(s);
            assert(t[0] == '"');
        },
        Value::Symbol(s) => {},
        Value::Keyword(kw) => {
            assert(t[0] == ':');
            assert(t != "nil"@) by {
                assert("nil"@[0] == 'n');
            }
            assert(t != "true"@) by {
                assert("true"@[0] == 't');
            }
            assert(t != "false"@) by {
                assert("false"@[0] == 'f');
            }
            assert(!is_integer_literal(t)) by {
                if is_integer_literal(t) {
                    assert(is_digit(t[0]));
                }
            }
            assert(t.subrange(1, t.len() as int) =~= kw.subrange(1, kw.len() as int));
            assert(seq![keyword_prefix()] + t.subrange(1, t.len() as int) =~= kw);
        },
        _ => {},
    }
}

/// The token of a readable key is no bracket and no reader macro, and
/// reads as the value of the key.
pub proof fn lemma_key_token(k: KeyV)
    requires
        readable_key(k),
    ensures
        !is_special_token(atom_token(key_value(k))),
        read_atom_spec(atom_token(key_value(k))) == Ok::<Value, Seq<char>>(key_value(k)),
        key_of(key_value(k)) == Some(k),
{
    lemma_atom_token(key_value(k));
}

/// The readable text of a readable value has a first token, and that
/// token closes nothing.
pub proof fn lemma_first_token(v: Value)
    requires
        readable(v),
    ensures
        value_tokens(v).len() >= 1,
        !is_closer(value_tokens(v)[0]),
{
    lemma_brackets();
    match v {
        Value::List(items) => {
            assert(value_tokens(v)[0] == "("@);
        },
        Value::Vector(items) => {
            assert(value_tokens(v)[0] == "["@);
        },
        Value::HashMap(entries) => {
            assert(value_tokens(v)[0] == "{"@);
        },
        _ => {
            lemma_atom_token(v);
        },
    }
}

/// Binding the keys of a map that binds no key twice to their values,
/// one entry after the other, builds the map again.
pub proof fn lemma_map_from_interleaved(entries: Seq<(KeyV, Value)>, j: int)
    requires
        keys_distinct(entries),
        0 <= j <= entries.len(),
        forall|i: int| 0 <= i < entries.len() ==> key_of(key_value((#[trigger] entries[i]).0))
            == Some(entries[i].0),
    ensures
        interleaved(entries, entries.len() as int).len() == 2 * entries.len(),
        map_from_kvs(entries.take(j), interleaved(entries, entries.len() as int), 2 * j) == Ok::<
            Seq<(KeyV, Value)>,
            Seq<char>,
        >(entries),
    decreases entries.len() - j,
{
    let kvs = interleaved(entries, entries.len() as int);
    lemma_interleaved(entries, entries.len() as int);
    if j == entries.len() {
        assert(entries.take(j) =~= entries);
    } else {
        let k = entries[j].0;
        let v = entries[j].1;
        assert(kvs[2 * j] == key_value(k));
        assert(kvs[2 * j + 1] == v);
        let acc = entries.take(j);
        assert forall|m: int| 0 <= m < acc.len() implies (#[trigger] acc[m]).0 != k by {
            assert(acc[m] == entries[m]);
            assert(entries[m].0 != entries[j].0);
        }
        lemma_key_position_is(acc, k, acc.len() as int);
        assert(map_insert(acc, k, v) =~= entries.take(j + 1));
        lemma_map_from_interleaved(entries, j + 1);
    }
}

/// The keys and values of the first entries stand in turn.
pub proof fn lemma_interleaved(entries: Seq<(KeyV, Value)>, upto: int)
    requires
        0 <= upto <= entries.len(),
    ensures
        interleaved(entries, upto).len() == 2 * upto,
        forall|i: int|
            0 <= i < upto ==> interleaved(entries, upto)[2 * i] == key_value(
                (#[trigger] entries[i]).0,
            ) && interleaved(entries, upto)[2 * i + 1] == entries[i].1,
    decreases upto,
{
    if upto > 0 {
        lemma_interleaved(entries, upto - 1);
        let before = interleaved(entries, upto - 1);
        let now = interleaved(entries, upto);
        assert forall|i: int| 0 <= i < upto implies now[2 * i] == key_value(
            (#[trigger] entries[i]).0,
        ) && now[2 * i + 1] == entries[i].1 by {
            if i < upto - 1 {
                assert(now[2 * i] == before[2 * i]);
                assert(now[2 * i + 1] == before[2 * i + 1]);
            }
        }
    }
}

/// Reading undoes printing, token by token: where the tokens of the
/// readable text of a readable value stand, the reader reads that value
/// and stops behind them.
pub proof fn lemma_read_value_tokens(tokens: Seq<Seq<char>>, pos: int, v: Value)
    requires
        readable(v),
        0 <= pos,
        pos + value_tokens(v).len() <= tokens.len(),
        tokens.subrange(pos, pos + value_tokens(v).len()) == value_tokens(v),
    ensures
        read_form_spec(tokens, pos) == (
            Ok::<Value, Seq<char>>(v),
            pos + value_tokens(v).len() as int,
        ),
    decreases v, parts_of(v) + 2,
{
    lemma_brackets();
    lemma_first_token(v);
    let window = tokens.subrange(pos, pos + value_tokens(v).len());
    assert(tokens[pos] == window[0]);
    match v {
        Value::List(items) => {
            let inner = items_tokens(items, 0);
            assert(value_tokens(v) =~= seq!["("@] + (inner + seq![")"@]));
            assert(tokens.subrange(pos + 1, pos + 1 + inner.len() + 1) =~= inner + seq![")"@]) by {
                assert(tokens.subrange(pos + 1, pos + 1 + inner.len() + 1) =~= window.subrange(
                    1,
                    window.len() as int,
                ));
            }
            lemma_read_items(tokens, pos + 1, ")"@, v, items, 0, Seq::empty());
            assert(Seq::<Value>::empty() + items.subrange(0, items.len() as int) =~= items);
        },
        Value::Vector(items) => {
            let inner = items_tokens(items, 0);
            assert(value_tokens(v) =~= seq!["["@] + (inner + seq!["]"@]));
            assert(tokens.subrange(pos + 1, pos + 1 + inner.len() + 1) =~= inner + seq!["]"@]) by {
                assert(tokens.subrange(pos + 1, pos + 1 + inner.len() + 1) =~= window.subrange(
                    1,
                    window.len() as int,
                ));
            }
            lemma_read_items(tokens, pos + 1, "]"@, v, items, 0, Seq::empty());
            assert(Seq::<Value>::empty() + items.subrange(0, items.len() as int) =~= items);
        },
        Value::HashMap(entries) => {
            let inner = entries_tokens(entries, 0);
            assert(value_tokens(v) =~= seq!["{"@] + (inner + seq!["}"@]));
            assert(tokens.subrange(pos + 1, pos + 1 + inner.len() + 1) =~= inner + seq!["}"@]) by {
                assert(tokens.subrange(pos + 1, pos + 1 + inner.len() + 1) =~= window.subrange(
                    1,
                    window.len() as int,
                ));
            }
            lemma_read_entries(tokens, pos + 1, v, entries, 0);
            assert forall|i: int| 0 <= i < entries.len() implies key_of(
                key_value((#[trigger] entries[i]).0),
            ) == Some(entries[i].0) by {
                lemma_key_token(entries[i].0);
            }
            lemma_map_from_interleaved(entries, 0);
            assert(entries.take(0) =~= Seq::<(KeyV, Value)>::empty());
        },
        _ => {
            lemma_atom_token(v);
        },
    }
}

/// The number of items of a list or vector, or of entries of a map.
pub open spec fn parts_of(v: Value) -> nat {
    match v {
        Value::List(items) => items.len(),
        Value::Vector(items) => items.len(),
        Value::HashMap(entries) => entries.len(),
        _ => 0,
    }
}

/// Where the tokens of the items from index `i` on and the closing
/// bracket stand, the reader reads those items after the ones it has,
/// and stops behind the bracket.
proof fn lemma_read_items(
    tokens: Seq<Seq<char>>,
    p: int,
    close: Seq<char>,
    owner: Value,
    items: Seq<Value>,
    i: int,
    acc: Seq<Value>,
)
    requires
        owner == Value::List(items) || owner == Value::Vector(items),
        readable(owner),
        close == ")"@ || close == "]"@,
        0 <= i <= items.len(),
        0 <= p,
        p + items_tokens(items, i).len() + 1 <= tokens.len(),
        tokens.subrange(p, p + items_tokens(items, i).len() + 1) == items_tokens(items, i) + seq![
            close,
        ],
    ensures
        read_list_spec(tokens, p, close, acc) == (
            finish_list(close, acc + items.subrange(i, items.len() as int)),
            p + items_tokens(items, i).len() + 1,
        ),
    decreases owner, items.len() - i,
{
    lemma_brackets();
    let rest = items_tokens(items, i);
    let window = tokens.subrange(p, p + rest.len() + 1);
    assert(tokens[p] == window[0]);
    if i == items.len() {
        assert(rest =~= Seq::<Seq<char>>::empty());
        assert(window[0] == close);
        assert(acc + items.subrange(i, items.len() as int) =~= acc);
    } else {
        let first = value_tokens(items[i]);
        let later = items_tokens(items, i + 1);
        if owner == Value::List(items) {
            assert(readable(owner->List_0[i]));
            assert(decreases_to!(owner => owner->List_0));
            assert(decreases_to!(owner->List_0 => owner->List_0[i]));
        } else {
            assert(readable(owner->Vector_0[i]));
            assert(decreases_to!(owner => owner->Vector_0));
            assert(decreases_to!(owner->Vector_0 => owner->Vector_0[i]));
        }
        lemma_first_token(items[i]);
        assert(rest == first + later);
        assert(window[0] == first[0]);
        assert(tokens[p] != close);
        assert(tokens.subrange(p, p + first.len()) =~= first) by {
            assert(tokens.subrange(p, p + first.len()) =~= window.subrange(0, first.len() as int));
        }
        lemma_read_value_tokens(tokens, p, items[i]);
        let q = p + first.len();
        assert(tokens.subrange(q, q + later.len() + 1) =~= later + seq![close]) by {
            assert(tokens.subrange(q, q + later.len() + 1) =~= window.subrange(
                first.len() as int,
                window.len() as int,
            ));
        }
        lemma_read_items(tokens, q, close, owner, items, i + 1, acc.push(items[i]));
        assert(acc.push(items[i]) + items.subrange(i + 1, items.len() as int) =~= acc
            + items.subrange(i, items.len() as int));
    }
}

/// Where the tokens of the entries from index `i` on and the closing
/// brace stand, the reader reads their keys and values in turn after
/// those of the entries before, and stops behind the brace.
proof fn lemma_read_entries(
    tokens: Seq<Seq<char>>,
    p: int,
    owner: Value,
    entries: Seq<(KeyV, Value)>,
    i: int,
)
    requires
        owner == Value::HashMap(entries),
        readable(owner),
        0 <= i <= entries.len(),
        0 <= p,
        p + entries_tokens(entries, i).len() + 1 <= tokens.len(),
        tokens.subrange(p, p + entries_tokens(entries, i).len() + 1) == entries_tokens(
            entries,
            i,
        ) + seq!["}"@],
    ensures
        read_list_spec(tokens, p, "}"@, interleaved(entries, i)) == (
            finish_list("}"@, interleaved(entries, entries.len() as int)),
            p + entries_tokens(entries, i).len() + 1,
        ),
    decreases owner, entries.len() - i,
{
    lemma_brackets();
    let rest = entries_tokens(entries, i);
    let window = tokens.subrange(p, p + rest.len() + 1);
    assert(tokens[p] == window[0]);
    if i == entries.len() {
        assert(rest =~= Seq::<Seq<char>>::empty());
        assert(window[0] == "}"@);
    } else {
        let k = entries[i].0;
        let key = atom_token(key_value(k));
        let first = value_tokens(entries[i].1);
        let later = entries_tokens(entries, i + 1);
        lemma_key_token(k);
        lemma_first_token(entries[i].1);
        assert(rest == seq![key] + first + later);
        assert(window[0] == key);
        assert(tokens[p] == key);
        assert(!is_closer(key));
        assert(tokens[p] != "}"@);
        assert(read_form_spec(tokens, p) == (
            Ok::<Value, Seq<char>>(key_value(k)),
            p + 1,
        ));
        let acc1 = interleaved(entries, i).push(key_value(k));
        assert(tokens[p + 1] == window[1]);
        assert(window[1] == first[0]);
        assert(tokens[p + 1] != "}"@);
        assert(tokens.subrange(p + 1, p + 1 + first.len()) =~= first) by {
            assert(tokens.subrange(p + 1, p + 1 + first.len()) =~= window.subrange(
                1,
                1 + first.len() as int,
            ));
        }
        lemma_read_value_tokens(tokens, p + 1, entries[i].1);
        let q = p + 1 + first.len();
        assert(tokens.subrange(q, q + later.len() + 1) =~= later + seq!["}"@]) by {
            assert(tokens.subrange(q, q + later.len() + 1) =~= window.subrange(
                1 + first.len() as int,
                window.len() as int,
            ));
        }
        assert(acc1.push(entries[i].1) == interleaved(entries, i + 1));
        lemma_read_entries(tokens, q, owner, entries, i + 1);
        assert(read_list_spec(tokens, p + 1, "}"@, acc1) == read_list_spec(
            tokens,
            q,
            "}"@,
            acc1.push(entries[i].1),
        ));
        assert(read_list_spec(tokens, p, "}"@, interleaved(entries, i)) == read_list_spec(
            tokens,
            p + 1,
            "}"@,
            acc1,
        ));
    }
}

/// What stands between two neighbouring tokens in a text: nothing after
/// an opening bracket and before a closing one, a space anywhere else.
pub open spec fn gap(a: Seq<char>, b: Seq<char>) -> Seq<char> {
    if closer_of(a) is Some || is_closer(b) {
        Seq::empty()
    } else {
        seq![' ']
    }
}

/// The text that the tokens make, one after the other.
pub open spec fn glued(tokens: Seq<Seq<char>>) -> Seq<char>
    decreases tokens.len(),
{
    if tokens.len() == 0 {
        Seq::empty()
    } else if tokens.len() == 1 {
        tokens[0]
    } else {
        glued(tokens.drop_last()) + gap(tokens[tokens.len() - 2], tokens.last()) + tokens.last()
    }
}

/// The tokens of the first `upto` items.
pub open spec fn items_tokens_upto(items: Seq<Value>, upto: int) -> Seq<Seq<char>>
    decreases upto,
{
    if upto <= 0 {
        Seq::empty()
    } else {
        items_tokens_upto(items, upto - 1) + value_tokens(items[upto - 1])
    }
}

/// The tokens of the first `upto` entries.
pub open spec fn entries_tokens_upto(entries: Seq<(KeyV, Value)>, upto: int) -> Seq<Seq<char>>
    decreases upto,
{
    if upto <= 0 {
        Seq::empty()
    } else {
        entries_tokens_upto(entries, upto - 1) + (seq![atom_token(key_value(entries[upto - 1].0))]
            + value_tokens(entries[upto - 1].1))
    }
}

/// The tokens of items are those of the first ones followed by those of
/// the rest.
proof fn lemma_items_tokens_split(items: Seq<Value>, n: int)
    requires
        0 <= n <= items.len(),
    ensures
        items_tokens_upto(items, n) + items_tokens(items, n) == items_tokens(items, 0),
    decreases n,
{
    if n == 0 {
        assert(items_tokens_upto(items, 0) + items_tokens(items, 0) =~= items_tokens(items, 0));
    } else {
        lemma_items_tokens_split(items, n - 1);
        assert(items_tokens(items, n - 1) == value_tokens(items[n - 1]) + items_tokens(items, n));
        assert(items_tokens_upto(items, n) + items_tokens(items, n) =~= items_tokens_upto(
            items,
            n - 1,
        ) + items_tokens(items, n - 1));
    }
}

/// The tokens of entries are those of the first ones followed by those
/// of the rest.
proof fn lemma_entries_tokens_split(entries: Seq<(KeyV, Value)>, n: int)
    requires
        0 <= n <= entries.len(),
    ensures
        entries_tokens_upto(entries, n) + entries_tokens(entries, n) == entries_tokens(entries, 0),
    decreases n,
{
    if n == 0 {
        assert(entries_tokens_upto(entries, 0) + entries_tokens(entries, 0) =~= entries_tokens(
            entries,
            0,
        ));
    } else {
        lemma_entries_tokens_split(entries, n - 1);
        assert(entries_tokens(entries, n - 1) == seq![
            atom_token(key_value(entries[n - 1].0)),
        ] + value_tokens(entries[n - 1].1) + entries_tokens(entries, n));
        assert(entries_tokens_upto(entries, n) + entries_tokens(entries, n)
            =~= entries_tokens_upto(entries, n - 1) + entries_tokens(entries, n - 1));
    }
}

/// The text of tokens that come in two runs is the texts of the runs
/// with the gap between the last token of the first and the first of the
/// second.
pub proof fn lemma_glued_concat(a: Seq<Seq<char>>, b: Seq<Seq<char>>)
    requires
        a.len() > 0,
        b.len() > 0,
    ensures
        glued(a + b) == glued(a) + gap(a.last(), b[0]) + glued(b),
    decreases b.len(),
{
    let ab = a + b;
    assert(ab.drop_last() =~= a + b.drop_last());
    assert(ab.last() == b.last());
    if b.len() == 1 {
        assert(a + b.drop_last() =~= a);
        assert(ab[ab.len() - 2] == a.last());
    } else {
        lemma_glued_concat(a, b.drop_last());
        assert(ab[ab.len() - 2] == b[b.len() - 2]);
        assert(b.drop_last()[0] == b[0]);
        assert(glued(a + b) =~= glued(a) + gap(a.last(), b[0]) + glued(b));
    }
}

/// The readable text of a readable value ends with a token that opens
/// nothing.
pub proof fn lemma_last_token(v: Value)
    requires
        readable(v),
    ensures
        value_tokens(v).len() >= 1,
        closer_of(value_tokens(v).last()) is None,
{
    lemma_brackets();
    reveal_strlit("(");
    reveal_strlit("[");
    reveal_strlit("{");
    reveal_strlit(")");
    reveal_strlit("]");
    reveal_strlit("}");
    match v {
        Value::List(items) => {
            assert(value_tokens(v).last() == ")"@);
            assert(")"@[0] != "("@[0] && ")"@[0] != "["@[0] && ")"@[0] != "{"@[0]);
        },
        Value::Vector(items) => {
            assert(value_tokens(v).last() == "]"@);
            assert("]"@[0] != "("@[0] && "]"@[0] != "["@[0] && "]"@[0] != "{"@[0]);
        },
        Value::HashMap(entries) => {
            assert(value_tokens(v).last() == "}"@);
            assert("}"@[0] != "("@[0] && "}"@[0] != "["@[0] && "}"@[0] != "{"@[0]);
        },
        _ => {
            lemma_atom_token(v);
        },
    }
}

/// The printer writes the tokens: the readable text of a readable value
/// is the text that its tokens make. What the state holds and how deep
/// atoms are opened makes no difference, for a readable value holds no
/// atom.
pub proof fn lemma_text_is_glued_tokens(rt: RuntimeV, v: Value, depth: nat)
    requires
        readable(v),
    ensures
        value_text(rt, v, true, depth) == glued(value_tokens(v)),
    decreases v, parts_of(v) + 2,
{
    lemma_brackets();
    match v {
        Value::List(items) => {
            lemma_sequence_text(rt, v, items, items.len() as int, depth);
            lemma_items_tokens_split(items, items.len() as int);
            assert(items_tokens_upto(items, items.len() as int) =~= items_tokens(items, 0));
            assert(items_text(rt, items, true, depth).take(items.len() as int) =~= items_text(
                rt,
                items,
                true,
                depth,
            ));
            lemma_bracketed("("@, items_tokens(items, 0), ")"@);
            if items.len() > 0 {
                lemma_nonempty_items(v, items);
            }
        },
        Value::Vector(items) => {
            lemma_sequence_text(rt, v, items, items.len() as int, depth);
            lemma_items_tokens_split(items, items.len() as int);
            assert(items_tokens_upto(items, items.len() as int) =~= items_tokens(items, 0));
            assert(items_text(rt, items, true, depth).take(items.len() as int) =~= items_text(
                rt,
                items,
                true,
                depth,
            ));
            lemma_bracketed("["@, items_tokens(items, 0), "]"@);
            if items.len() > 0 {
                lemma_nonempty_items(v, items);
            }
        },
        Value::HashMap(entries) => {
            lemma_map_text(rt, v, entries, entries.len() as int, depth);
            lemma_entries_tokens_split(entries, entries.len() as int);
            assert(entries_tokens_upto(entries, entries.len() as int) =~= entries_tokens(
                entries,
                0,
            ));
            assert(entries_text(rt, entries, true, depth).take(entries.len() as int)
                =~= entries_text(rt, entries, true, depth));
            lemma_bracketed("{"@, entries_tokens(entries, 0), "}"@);
            if entries.len() > 0 {
                lemma_entries_tokens_nonempty(entries, entries.len() as int);
            }
        },
        _ => {},
    }
}

/// The tokens of a sequence with items are more than none.
proof fn lemma_nonempty_items(owner: Value, items: Seq<Value>)
    requires
        owner == Value::List(items) || owner == Value::Vector(items),
        readable(owner),
        items.len() > 0,
    ensures
        items_tokens(items, 0).len() > 0,
{
    if owner == Value::List(items) {
        assert(readable(owner->List_0[0]));
    } else {
        assert(readable(owner->Vector_0[0]));
    }
    lemma_first_token(items[0]);
}

/// The tokens of entries are more than none where there are entries.
proof fn lemma_entries_tokens_nonempty(entries: Seq<(KeyV, Value)>, n: int)
    requires
        0 < n <= entries.len(),
    ensures
        entries_tokens_upto(entries, n).len() > 0,
{
}

/// The text of tokens between an opening and a closing bracket is the
/// brackets around the text of the tokens.
proof fn lemma_bracketed(open: Seq<char>, inner: Seq<Seq<char>>, close: Seq<char>)
    requires
        closer_of(open) is Some,
        is_closer(close),
    ensures
        glued(seq![open] + inner + seq![close]) == open + glued(inner) + close,
{
    let all = seq![open] + inner + seq![close];
    if inner.len() == 0 {
        assert(all =~= seq![open, close]);
        assert(all.drop_last() =~= seq![open]);
        assert(glued(seq![open]) == open);
        assert(all[all.len() - 2] == open);
        assert(all.last() == close);
        assert(gap(open, close) =~= Seq::<char>::empty());
        assert(glued(inner) =~= Seq::<char>::empty());
        assert(glued(all) == glued(all.drop_last()) + gap(all[all.len() - 2], all.last())
            + all.last());
        assert(glued(all) =~= open + glued(inner) + close);
    } else {
        lemma_glued_concat(seq![open], inner);
        lemma_glued_concat(seq![open] + inner, seq![close]);
        assert(glued(seq![open]) == open);
        assert(glued(seq![close]) == close);
        assert(glued(all) =~= open + glued(inner) + close);
    }
}

/// The texts of the first items of a readable sequence, with a space
/// between each two, are the text that their tokens make.
proof fn lemma_sequence_text(rt: RuntimeV, owner: Value, items: Seq<Value>, n: int, depth: nat)
    requires
        owner == Value::List(items) || owner == Value::Vector(items),
        readable(owner),
        0 <= n <= items.len(),
    ensures
        joined(items_text(rt, items, true, depth).take(n), " "@) == glued(
            items_tokens_upto(items, n),
        ),
        n > 0 ==> items_tokens_upto(items, n).len() > 0 && closer_of(
            items_tokens_upto(items, n).last(),
        ) is None,
    decreases owner, n,
{
    reveal_strlit(" ");
    let texts = items_text(rt, items, true, depth);
    if n == 0 {
        assert(texts.take(0) =~= Seq::<Seq<char>>::empty());
    } else {
        let v = items[n - 1];
        if owner == Value::List(items) {
            assert(readable(owner->List_0[n - 1]));
            assert(decreases_to!(owner => owner->List_0));
            assert(decreases_to!(owner->List_0 => owner->List_0[n - 1]));
        } else {
            assert(readable(owner->Vector_0[n - 1]));
            assert(decreases_to!(owner => owner->Vector_0));
            assert(decreases_to!(owner->Vector_0 => owner->Vector_0[n - 1]));
        }
        lemma_sequence_text(rt, owner, items, n - 1, depth);
        lemma_text_is_glued_tokens(rt, v, depth);
        lemma_first_token(v);
        lemma_last_token(v);
        let before = items_tokens_upto(items, n - 1);
        let now = value_tokens(v);
        assert(texts.take(n).drop_last() =~= texts.take(n - 1));
        assert(texts.take(n).last() == value_text(rt, v, true, depth));
        assert((before + now).last() == now.last());
        if n == 1 {
            assert(before + now =~= now);
        } else {
            lemma_glued_concat(before, now);
            assert(gap(before.last(), now[0]) =~= " "@);
        }
    }
}

/// The texts of the first entries of a readable map, with a space
/// between each two, are the text that their tokens make.
proof fn lemma_map_text(
    rt: RuntimeV,
    owner: Value,
    entries: Seq<(KeyV, Value)>,
    n: int,
    depth: nat,
)
    requires
        owner == Value::HashMap(entries),
        readable(owner),
        0 <= n <= entries.len(),
    ensures
        joined(entries_text(rt, entries, true, depth).take(n), " "@) == glued(
            entries_tokens_upto(entries, n),
        ),
        n > 0 ==> entries_tokens_upto(entries, n).len() > 0 && closer_of(
            entries_tokens_upto(entries, n).last(),
        ) is None,
    decreases owner, n,
{
    reveal_strlit(" ");
    let texts = entries_text(rt, entries, true, depth);
    if n == 0 {
        assert(texts.take(0) =~= Seq::<Seq<char>>::empty());
    } else {
        let k = entries[n - 1].0;
        let v = entries[n - 1].1;
        lemma_map_text(rt, owner, entries, n - 1, depth);
        lemma_text_is_glued_tokens(rt, v, depth);
        lemma_first_token(v);
        lemma_last_token(v);
        lemma_key_token(k);
        let key = atom_token(key_value(k));
        assert(key == key_text(k));
        let before = entries_tokens_upto(entries, n - 1);
        let now = seq![key] + value_tokens(v);
        lemma_glued_concat(seq![key], value_tokens(v));
        assert(glued(seq![key]) == key);
        assert(gap(key, value_tokens(v)[0]) =~= " "@);
        assert(glued(now) == key + " "@ + value_text(rt, v, true, depth));
        assert(texts.take(n).drop_last() =~= texts.take(n - 1));
        assert(texts.take(n).last() == key_text(k) + " "@ + value_text(rt, v, true, depth));
        assert((before + now).last() == value_tokens(v).last());
        assert(now[0] == key);
        if n == 1 {
            assert(before + now =~= now);
        } else {
            lemma_glued_concat(before, now);
            assert(gap(before.last(), now[0]) =~= " "@);
        }
    }
}

/// Printing and reading round-trip: where the tokenizer cuts the
/// readable text of a readable value into the tokens that the printer
/// wrote, reading that text gives the value back.
pub proof fn lemma_print_then_read(rt: RuntimeV, v: Value)
    requires
        readable(v),
        without_comments(tokens_of(printed(rt, v, true))) == value_tokens(v),
    ensures
        printed(rt, v, true) == glued(value_tokens(v)),
        read_str_spec(printed(rt, v, true)) == Ok::<Value, Seq<char>>(v),
{
    lemma_text_is_glued_tokens(rt, v, rt.atoms.len());
    let tokens = value_tokens(v);
    assert(tokens.subrange(0, tokens.len() as int) =~= tokens);
    lemma_read_value_tokens(tokens, 0, v);
}

/// Whether a value holds the empty reader result, at the top or among
/// the items of a list or vector or the values of a map.
pub open spec fn holds_nothing(v: Value) -> bool
    decreases v,
{
    match v {
        Value::Nothing => true,
        Value::List(items) => exists|i: int| 0 <= i < items.len() && holds_nothing(
            #[trigger] items[i],
        ),
        Value::Vector(items) => exists|i: int| 0 <= i < items.len() && holds_nothing(
            #[trigger] items[i],
        ),
        Value::HashMap(entries) => exists|i: int| 0 <= i < entries.len() && holds_nothing(
            (#[trigger] entries[i]).1,
        ),
        _ => false,
    }
}

/// Whether a value is as the reader makes values: readable, or with the
/// empty reader result in it.
pub open spec fn as_read(v: Value) -> bool {
    readable(v) || holds_nothing(v)
}

/// The symbols that the reader macros write read as themselves.
proof fn lemma_macro_symbols(t: Seq<char>)
    requires
        macro_symbol(t) is Some,
    ensures
        is_symbol_token(macro_symbol(t)->0),
{
    reveal_strlit("deref");
    reveal_strlit("quote");
    reveal_strlit("quasiquote");
    reveal_strlit("unquote");
    reveal_strlit("splice-unquote");
    reveal_strlit("nil");
    reveal_strlit("true");
    reveal_strlit("false");
    let s = macro_symbol(t)->0;
    assert(s.len() >= 5);
    assert(s[0] == 'd' || s[0] == 'q' || s[0] == 'u' || s[0] == 's');
    if is_special_token(s) {
        lemma_special_tokens(s);
    }
    assert(s != "nil"@);
    assert(s != "true"@) by {
        assert("true"@[0] == 't');
    }
    assert(s != "false"@) by {
        assert("false"@[0] == 'f');
    }
    assert(!is_integer_literal(s)) by {
        if is_integer_literal(s) {
            assert(is_digit(s[0]));
        }
    }
}

/// A token that is no bracket and no reader macro reads, if it reads, as
/// a value as the reader makes them.
proof fn lemma_atom_as_read(t: Seq<char>)
    requires
        !is_special_token(t),
    ensures
        read_atom_spec(t) matches Ok(v) ==> as_read(v) && !(v is List) && !(v is Vector) && !(v is HashMap),
{
    if let Ok(v) = read_atom_spec(t) {
        match v {
            Value::Keyword(kw) => {
                assert(kw[0] == keyword_prefix());
            },
            _ => {},
        }
    }
}

/// Binding keys to values that are as the reader makes them, on top of a
/// map that binds no key twice, whose keys are readable and whose values
/// are as the reader makes them, gives such a map again.
proof fn lemma_map_as_read(acc: Seq<(KeyV, Value)>, kvs: Seq<Value>, i: int)
    requires
        keys_distinct(acc),
        forall|j: int| 0 <= j < acc.len() ==> readable_key((#[trigger] acc[j]).0) && as_read(
            acc[j].1,
        ),
        forall|j: int| 0 <= j < kvs.len() ==> as_read(#[trigger] kvs[j]),
    ensures
        map_from_kvs(acc, kvs, i) matches Ok(entries) ==> keys_distinct(entries) && forall|j: int|
            0 <= j < entries.len() ==> readable_key((#[trigger] entries[j]).0) && as_read(
                entries[j].1,
            ),
    decreases kvs.len() - i,
{
    if 0 <= i && i + 1 < kvs.len() {
        if let Some(k) = key_of(kvs[i]) {
            let v = kvs[i + 1];
            let next = map_insert(acc, k, v);
            lemma_insert_keeps_keys_distinct(acc, k, v);
            assert(as_read(kvs[i]));
            assert(!holds_nothing(kvs[i]));
            assert(readable_key(k));
            assert(as_read(v));
            crate::common::lemma_key_position(acc, k);
            assert forall|j: int| 0 <= j < next.len() implies readable_key((#[trigger] next[j]).0)
                && as_read(next[j].1) by {
                if j < acc.len() && j != key_position(acc, k) {
                    assert(next[j] == acc[j]);
                }
            }
            lemma_map_as_read(next, kvs, i + 2);
        }
    }
}

/// A sequence of values as the reader makes them is, as a list, a
/// vector or the entries of a map, as the reader makes them.
proof fn lemma_sequence_as_read(items: Seq<Value>)
    requires
        forall|j: int| 0 <= j < items.len() ==> as_read(#[trigger] items[j]),
    ensures
        as_read(Value::List(items)),
        as_read(Value::Vector(items)),
{
    if !(forall|j: int| 0 <= j < items.len() ==> readable(#[trigger] items[j])) {
        let j = choose|j: int| 0 <= j < items.len() && !readable(#[trigger] items[j]);
        assert(as_read(items[j]));
        assert(holds_nothing(items[j]));
    }
}

/// What the reader reads is as the reader makes values: readable, or
/// with the empty reader result in it.
pub proof fn lemma_read_form_as_read(tokens: Seq<Seq<char>>, pos: int)
    ensures
        read_form_spec(tokens, pos).0 matches Ok(v) ==> as_read(v),
    decreases tokens.len() - pos, 0nat,
{
    if 0 <= pos < tokens.len() {
        let t = tokens[pos];
        if closer_of(t) is Some {
            lemma_brackets();
            lemma_read_list_as_read(tokens, pos + 1, closer_of(t)->0, Seq::empty());
        } else if is_closer(t) {
        } else if macro_symbol(t) is Some {
            lemma_read_form_as_read(tokens, pos + 1);
            lemma_macro_symbols(t);
            if let Ok(v) = read_form_spec(tokens, pos + 1).0 {
                let items = seq![Value::Symbol(macro_symbol(t)->0), v];
                assert(readable(items[0]));
                assert forall|j: int| 0 <= j < items.len() implies as_read(
                    #[trigger] items[j],
                ) by {}
                lemma_sequence_as_read(items);
            }
        } else {
            lemma_atom_as_read(t);
        }
    }
}

/// What the reader reads as a sequence, after items that are as the
/// reader makes values, is as the reader makes values.
pub proof fn lemma_read_list_as_read(
    tokens: Seq<Seq<char>>,
    pos: int,
    close: Seq<char>,
    items: Seq<Value>,
)
    requires
        forall|j: int| 0 <= j < items.len() ==> as_read(#[trigger] items[j]),
    ensures
        read_list_spec(tokens, pos, close, items).0 matches Ok(v) ==> as_read(v),
    decreases tokens.len() - pos, 1nat,
{
    if 0 <= pos < tokens.len() {
        if tokens[pos] == close {
            lemma_sequence_as_read(items);
            lemma_map_as_read(Seq::empty(), items, 0);
            if let Ok(entries) = map_from_kvs(Seq::empty(), items, 0) {
                if !(forall|j: int|
                    0 <= j < entries.len() ==> readable((#[trigger] entries[j]).1)) {
                    let j = choose|j: int|
                        0 <= j < entries.len() && !readable((#[trigger] entries[j]).1);
                    assert(as_read(entries[j].1));
                    assert(holds_nothing(entries[j].1));
                    let m = Value::HashMap(entries);
                    assert(0 <= j < m->HashMap_0.len() && holds_nothing(m->HashMap_0[j].1));
                    assert(holds_nothing(m));
                } else {
                    assert(readable(Value::HashMap(entries)));
                }
            }
        } else {
            lemma_read_form_as_read(tokens, pos);
            let (r, p) = read_form_spec(tokens, pos);
            if let Ok(v) = r {
                if pos < p <= tokens.len() {
                    let next = items.push(v);
                    assert forall|j: int| 0 <= j < next.len() implies as_read(
                        #[trigger] next[j],
                    ) by {
                        if j < items.len() {
                            assert(next[j] == items[j]);
                        }
                    }
                    lemma_read_list_as_read(tokens, p, close, next);
                }
            }
        }
    }
}

/// Reader and printer round-trip: a value that was read from a text and
/// holds no empty reader result is read again from its readable text,
/// where the tokenizer cuts that text into the tokens that the printer
/// wrote.
pub proof fn lemma_round_trip(rt: RuntimeV, text: Seq<char>, v: Value)
    requires
        read_str_spec(text) == Ok::<Value, Seq<char>>(v),
        !holds_nothing(v),
        without_comments(tokens_of(printed(rt, v, true))) == value_tokens(v),
    ensures
        read_str_spec(printed(rt, v, true)) == Ok::<Value, Seq<char>>(v),
{
    lemma_read_form_as_read(without_comments(tokens_of(text)), 0);
    lemma_print_then_read(rt, v);
}

} // verus!
