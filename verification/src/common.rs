//! The value model: language values, map keys, callables, and the
//! mathematical model that the contracts of this crate speak about.

use std::rc::Rc;
use vstd::prelude::*;

verus! {

/// A symbol's name.
pub type Symbol = String;

/// Handle of an environment frame inside a [`crate::env::Runtime`].
pub type EnvType = usize;

/// Model of a [`MapKey`].
pub enum KeyV {
    True,
    False,
    String(Seq<char>),
    Symbol(Seq<char>),
    Keyword(Seq<char>),
    Number(int),
}

/// Model of a [`MalData`]: what a language value is, independent of how
/// it is stored.
pub enum Value {
    Nothing,
    Nil,
    True,
    False,
    String(Seq<char>),
    Symbol(Seq<char>),
    Keyword(Seq<char>),
    Number(int),
    List(Seq<Value>),
    Vector(Seq<Value>),
    /// Entries in insertion order.
    HashMap(Seq<(KeyV, Value)>),
    /// The cell's index in the runtime.
    Atom(nat),
    Function(Seq<char>, NativeFunctionSelector),
    FnClosure { outer_env: nat, binds: Seq<Seq<char>>, body: Box<Value>, is_macro: bool },
    Exception(Box<Value>),
}

/// The keys a map accepts.
#[derive(Debug, Hash)]
pub enum MapKey {
    True,
    False,
    String(String),
    Symbol(String),
    Keyword(String),
    Number(i32),
}

/// Selects the host routine behind a native function.
#[derive(Clone, Copy, Debug, Hash, PartialEq, Eq, Structural)]
pub enum NativeFunctionSelector {
    Add,
    Sub,
    Mul,
    Div,
    List,
    ListP,
    EmptyP,
    Count,
    Equals,
    Lt,
    Le,
    Gt,
    Ge,
    PrStr,
    Str,
    Prn,
    Println,
    ReadString,
    Slurp,
    Atom,
    AtomP,
    Deref,
    Reset,
    Swap,
    Cons,
    Concat,
    Nth,
    First,
    Rest,
    Throw,
    Apply,
    MapSeq,
    NilP,
    TrueP,
    FalseP,
    SymbolP,
    Symbol,
    Keyword,
    KeywordP,
    Vector,
    VectorP,
    HashMap,
    MapP,
    Assoc,
    Dissoc,
    Get,
    ContainsP,
    Keys,
    Vals,
    SequentialP,
    Eval,
}

/// A callable implemented by the host.
#[derive(Debug)]
pub struct NativeFunction {
    pub name: String,
    pub callable: NativeFunctionSelector,
}

/// A function written in the language: the frame it was created in, its
/// parameter pattern and its body.
#[derive(Debug)]
pub struct FnClosure {
    pub outer_env: EnvType,
    pub binds: Vec<Symbol>,
    pub body: Box<MalData>,
    pub is_macro: bool,
}

/// A language value.
#[derive(Debug)]
pub enum MalData {
    /// What the reader yields for input that holds no form.
    Nothing,
    Nil,
    True,
    False,
    String(String),
    Symbol(String),
    Keyword(String),
    Number(i32),
    List(Rc<Vec<MalData>>),
    Vector(Rc<Vec<MalData>>),
    HashMap(Vec<(MapKey, MalData)>),
    Atom(usize),
    Function(NativeFunction),
    FnClosure(FnClosure),
    Exception(Box<MalData>),
}

impl View for MapKey {
    type V = KeyV;

    open spec fn view(&self) -> KeyV {
        match self {
            MapKey::True => KeyV::True,
            MapKey::False => KeyV::False,
            MapKey::String(s) => KeyV::String(s@),
            MapKey::Symbol(s) => KeyV::Symbol(s@),
            MapKey::Keyword(s) => KeyV::Keyword(s@),
            MapKey::Number(n) => KeyV::Number(*n as int),
        }
    }
}

/// The names in a parameter pattern.
pub open spec fn names_view(binds: Seq<Symbol>) -> Seq<Seq<char>> {
    Seq::new(binds.len(), |i: int| binds[i]@)
}

impl MalData {
    /// The model of this value.
    pub open spec fn model(&self) -> Value
        decreases self,
    {
        match self {
            MalData::Nothing => Value::Nothing,
            MalData::Nil => Value::Nil,
            MalData::True => Value::True,
            MalData::False => Value::False,
            MalData::String(s) => Value::String(s@),
            MalData::Symbol(s) => Value::Symbol(s@),
            MalData::Keyword(s) => Value::Keyword(s@),
            MalData::Number(n) => Value::Number(*n as int),
            MalData::List(items) => Value::List(
                Seq::new(
                    items@.len(),
                    |i: int|
                        if 0 <= i < items@.len() {
                            items@[i].model()
                        } else {
                            Value::Nil
                        },
                ),
            ),
            MalData::Vector(items) => Value::Vector(
                Seq::new(
                    items@.len(),
                    |i: int|
                        if 0 <= i < items@.len() {
                            items@[i].model()
                        } else {
                            Value::Nil
                        },
                ),
            ),
            MalData::HashMap(entries) => Value::HashMap(
                Seq::new(
                    entries@.len(),
                    |i: int|
                        if 0 <= i < entries@.len() {
                            (entries@[i].0@, entries@[i].1.model())
                        } else {
                            (KeyV::True, Value::Nil)
                        },
                ),
            ),
            MalData::Atom(cell) => Value::Atom(*cell as nat),
            MalData::Function(f) => Value::Function(f.name@, f.callable),
            MalData::FnClosure(c) => Value::FnClosure {
                outer_env: c.outer_env as nat,
                binds: names_view(c.binds@),
                body: Box::new(c.body.model()),
                is_macro: c.is_macro,
            },
            MalData::Exception(inner) => Value::Exception(Box::new(inner.model())),
        }
    }
}

impl View for MalData {
    type V = Value;

    open spec fn view(&self) -> Value {
        self.model()
    }
}

/// The models of a sequence of values, in order.
pub open spec fn values_view(items: Seq<MalData>) -> Seq<Value> {
    Seq::new(items.len(), |i: int| items[i]@)
}

/// The models of a sequence of map entries, in order.
pub open spec fn entries_view(entries: Seq<(MapKey, MalData)>) -> Seq<(KeyV, Value)> {
    Seq::new(entries.len(), |i: int| (entries[i].0@, entries[i].1@))
}

/// A list value's model is the models of its items.
pub proof fn lemma_list_view(v: MalData)
    ensures
        v matches MalData::List(items) ==> v@ == Value::List(values_view(items@)),
        v matches MalData::Vector(items) ==> v@ == Value::Vector(values_view(items@)),
        v matches MalData::HashMap(entries) ==> v@ == Value::HashMap(entries_view(entries@)),
{
    match v {
        MalData::List(items) => {
            assert(v@->List_0 =~= values_view(items@));
        },
        MalData::Vector(items) => {
            assert(v@->Vector_0 =~= values_view(items@));
        },
        MalData::HashMap(entries) => {
            assert(v@->HashMap_0 =~= entries_view(entries@));
        },
        _ => {},
    }
}

/// Shares a sequence of values. The contract states what
/// `Rc::clone` documents: the new pointer leads to the same allocation,
/// so it holds the same vector.
#[verifier::external_body]
fn rc_clone(items: &Rc<Vec<MalData>>) -> (res: Rc<Vec<MalData>>)
    ensures
        res == *items,
{
    Rc::clone(items)
}

impl Clone for MapKey {
    fn clone(&self) -> (res: Self)
        ensures
            res == *self,
    {
        match self {
            MapKey::True => MapKey::True,
            MapKey::False => MapKey::False,
            MapKey::String(s) => MapKey::String(s.clone()),
            MapKey::Symbol(s) => MapKey::Symbol(s.clone()),
            MapKey::Keyword(s) => MapKey::Keyword(s.clone()),
            MapKey::Number(n) => MapKey::Number(*n),
        }
    }
}

impl Clone for NativeFunction {
    fn clone(&self) -> (res: Self)
        ensures
            res == *self,
    {
        NativeFunction { name: self.name.clone(), callable: self.callable }
    }
}

/// Copies a parameter pattern.
pub fn clone_names(names: &Vec<Symbol>) -> (res: Vec<Symbol>)
    ensures
        res@ == names@,
{
    let mut out: Vec<Symbol> = Vec::new();
    let mut i: usize = 0;
    while i < names.len()
        invariant
            i <= names.len(),
            out@ == names@.subrange(0, i as int),
        decreases names.len() - i,
    {
        out.push(names[i].clone());
        assert(out@ =~= names@.subrange(0, i as int + 1));
        i += 1;
    }
    assert(out@ =~= names@);
    out
}

impl Clone for MalData {
    fn clone(&self) -> (res: Self)
        ensures
            res@ == self@,
        decreases self,
    {
        match self {
            MalData::Nothing => MalData::Nothing,
            MalData::Nil => MalData::Nil,
            MalData::True => MalData::True,
            MalData::False => MalData::False,
            MalData::String(s) => MalData::String(s.clone()),
            MalData::Symbol(s) => MalData::Symbol(s.clone()),
            MalData::Keyword(s) => MalData::Keyword(s.clone()),
            MalData::Number(n) => MalData::Number(*n),
            MalData::List(items) => MalData::List(rc_clone(items)),
            MalData::Vector(items) => MalData::Vector(rc_clone(items)),
            MalData::HashMap(entries) => {
                let mut out: Vec<(MapKey, MalData)> = Vec::new();
                let mut i: usize = 0;
                while i < entries.len()
                    invariant
                        i <= entries.len(),
                        out.len() == i,
                        *self == MalData::HashMap(*entries),
                        forall|j: int|
                            0 <= j < i ==> out@[j].0@ == entries@[j].0@ && out@[j].1@
                                == entries@[j].1@,
                    decreases entries.len() - i,
                {
                    proof {
                        assert(decreases_to!(self => self->HashMap_0));
                        assert(decreases_to!(self->HashMap_0 => self->HashMap_0@));
                        assert(decreases_to!(self->HashMap_0@ => self->HashMap_0@[i as int]));
                        assert(decreases_to!(self->HashMap_0@[i as int] => self->HashMap_0@[i as int].1));
                    }
                    let k = entries[i].0.clone();
                    let v = entries[i].1.clone();
                    out.push((k, v));
                    i += 1;
                }
                let res = MalData::HashMap(out);
                assert(res@->HashMap_0 =~= self@->HashMap_0);
                res
            },
            MalData::Atom(cell) => MalData::Atom(*cell),
            MalData::Function(f) => MalData::Function(f.clone()),
            MalData::FnClosure(c) => {
                let body = (*c.body).clone();
                MalData::FnClosure(
                    FnClosure {
                        outer_env: c.outer_env,
                        binds: clone_names(&c.binds),
                        body: Box::new(body),
                        is_macro: c.is_macro,
                    },
                )
            },
            MalData::Exception(inner) => MalData::Exception(Box::new((**inner).clone())),
        }
    }
}

impl Clone for FnClosure {
    fn clone(&self) -> (res: Self)
        ensures
            MalData::FnClosure(res)@ == MalData::FnClosure(*self)@,
    {
        FnClosure {
            outer_env: self.outer_env,
            binds: clone_names(&self.binds),
            body: Box::new((*self.body).clone()),
            is_macro: self.is_macro,
        }
    }
}

/// Copies a sequence of values.
pub fn clone_values(items: &[MalData]) -> (res: Vec<MalData>)
    ensures
        values_view(res@) == values_view(items@),
{
    let mut out: Vec<MalData> = Vec::new();
    let mut i: usize = 0;
    while i < items.len()
        invariant
            i <= items.len(),
            out.len() == i,
            forall|j: int| 0 <= j < i ==> out@[j]@ == items@[j]@,
        decreases items.len() - i,
    {
        out.push(items[i].clone());
        i += 1;
    }
    assert(values_view(out@) =~= values_view(items@));
    out
}

impl FnClosure {
    /// A closure over `outer_env`; it is not a macro.
    pub fn new(outer_env: EnvType, binds: &Vec<Symbol>, body: &MalData) -> (res: FnClosure)
        ensures
            res.outer_env == outer_env,
            res.binds@ == binds@,
            res.body@ == body@,
            !res.is_macro,
    {
        FnClosure {
            outer_env,
            binds: clone_names(binds),
            body: Box::new(body.clone()),
            is_macro: false,
        }
    }

    /// The same closure with its macro flag set.
    pub fn to_macro(&self) -> (res: FnClosure)
        ensures
            res.outer_env == self.outer_env,
            res.binds@ == self.binds@,
            res.body@ == self.body@,
            res.is_macro,
    {
        FnClosure {
            outer_env: self.outer_env,
            binds: clone_names(&self.binds),
            body: Box::new((*self.body).clone()),
            is_macro: true,
        }
    }

    /// Whether the closure is a macro.
    pub fn is_macro(&self) -> (res: bool)
        ensures
            res == self.is_macro,
    {
        self.is_macro
    }
}

impl NativeFunction {
    /// The built-in of the given name and selector.
    pub fn new(name: &str, callable: NativeFunctionSelector) -> (res: NativeFunction)
        ensures
            res.name@ == name@,
            res.callable == callable,
    {
        NativeFunction { name: name.to_string(), callable }
    }
}

impl Value {
    /// Whether this is a list or a vector.
    pub open spec fn is_list_like(self) -> bool {
        self is List || self is Vector
    }

    /// The items of a list or a vector; empty for any other value.
    pub open spec fn items(self) -> Seq<Value> {
        match self {
            Value::List(items) => items,
            Value::Vector(items) => items,
            _ => Seq::empty(),
        }
    }

    /// Nil and False are the only falsy values.
    pub open spec fn is_truthy(self) -> bool {
        !(self is Nil) && !(self is False)
    }
}

/// The index of the first entry with key `k`; the number of entries
/// where there is none.
pub open spec fn key_position(entries: Seq<(KeyV, Value)>, k: KeyV) -> int
    decreases entries.len(),
{
    if entries.len() == 0 {
        0
    } else if entries[0].0 == k {
        0
    } else {
        1 + key_position(entries.drop_first(), k)
    }
}

/// The value bound to the first entry with key `k`.
pub open spec fn map_lookup(entries: Seq<(KeyV, Value)>, k: KeyV) -> Option<Value> {
    let i = key_position(entries, k);
    if i < entries.len() {
        Some(entries[i].1)
    } else {
        None
    }
}

/// `key_position` is the least index that holds the key.
pub proof fn lemma_key_position(entries: Seq<(KeyV, Value)>, k: KeyV)
    ensures
        0 <= key_position(entries, k) <= entries.len(),
        key_position(entries, k) < entries.len() ==> entries[key_position(entries, k)].0 == k,
        forall|j: int| 0 <= j < key_position(entries, k) ==> (#[trigger] entries[j]).0 != k,
    decreases entries.len(),
{
    if entries.len() > 0 && entries[0].0 != k {
        let rest = entries.drop_first();
        lemma_key_position(rest, k);
        assert forall|j: int| 0 <= j < key_position(entries, k) implies (#[trigger] entries[j]).0
            != k by {
            if j > 0 {
                assert(entries[j] == rest[j - 1]);
            }
        }
    }
}

/// An index that holds the key, with none before it, is the key's
/// position.
pub proof fn lemma_key_position_is(entries: Seq<(KeyV, Value)>, k: KeyV, i: int)
    requires
        0 <= i <= entries.len(),
        i < entries.len() ==> entries[i].0 == k,
        forall|j: int| 0 <= j < i ==> (#[trigger] entries[j]).0 != k,
    ensures
        key_position(entries, k) == i,
{
    lemma_key_position(entries, k);
    let p = key_position(entries, k);
    if p < i {
        assert(entries[p].0 != k);
    }
}

/// Equality of language values: structural on scalars, sequences and
/// maps; a list equals a vector with pairwise equal items; atoms are
/// equal when they are the same cell; callables, exceptions and the
/// empty reader result equal nothing.
pub open spec fn values_equal(a: Value, b: Value) -> bool
    decreases a, 0nat,
{
    match (a, b) {
        (Value::Nil, Value::Nil) => true,
        (Value::True, Value::True) => true,
        (Value::False, Value::False) => true,
        (Value::String(x), Value::String(y)) => x == y,
        (Value::Symbol(x), Value::Symbol(y)) => x == y,
        (Value::Keyword(x), Value::Keyword(y)) => x == y,
        (Value::Number(x), Value::Number(y)) => x == y,
        (Value::List(x), Value::List(y)) => seqs_equal(x, y),
        (Value::List(x), Value::Vector(y)) => seqs_equal(x, y),
        (Value::Vector(x), Value::List(y)) => seqs_equal(x, y),
        (Value::Vector(x), Value::Vector(y)) => seqs_equal(x, y),
        (Value::HashMap(x), Value::HashMap(y)) => maps_equal(x, y),
        (Value::Atom(x), Value::Atom(y)) => x == y,
        _ => false,
    }
}

/// Same length and pairwise equal items.
pub open spec fn seqs_equal(a: Seq<Value>, b: Seq<Value>) -> bool
    decreases a, 1nat,
{
    &&& a.len() == b.len()
    &&& forall|i: int| 0 <= i < a.len() ==> values_equal(#[trigger] a[i], b[i])
}

/// Same number of entries, and each key of `a` is bound in `b` to an
/// equal value.
pub open spec fn maps_equal(a: Seq<(KeyV, Value)>, b: Seq<(KeyV, Value)>) -> bool
    decreases a, 1nat,
{
    &&& a.len() == b.len()
    &&& forall|i: int|
        0 <= i < a.len() ==> (map_lookup(b, (#[trigger] a[i]).0) matches Some(v) && values_equal(
            a[i].1,
            v,
        ))
}

/// Whether a value is a list or a vector.
pub fn is_list_like(value: &MalData) -> (res: bool)
    ensures
        res == value@.is_list_like(),
{
    match value {
        MalData::List(_) | MalData::Vector(_) => true,
        _ => false,
    }
}

/// The items of a list or a vector.
pub fn get_wrapped_list(ast: &MalData) -> (res: Option<&Vec<MalData>>)
    ensures
        res is Some == ast@.is_list_like(),
        res matches Some(items) ==> values_view(items@) == ast@.items(),
{
    proof {
        lemma_list_view(*ast);
    }
    match ast {
        MalData::List(list) => Some(&**list),
        MalData::Vector(list) => Some(&**list),
        _ => None,
    }
}

/// Whether two keys are the same key.
pub fn map_key_eq(a: &MapKey, b: &MapKey) -> (res: bool)
    ensures
        res == (a@ == b@),
{
    match (a, b) {
        (MapKey::True, MapKey::True) => true,
        (MapKey::False, MapKey::False) => true,
        (MapKey::String(x), MapKey::String(y)) => *x == *y,
        (MapKey::Symbol(x), MapKey::Symbol(y)) => *x == *y,
        (MapKey::Keyword(x), MapKey::Keyword(y)) => *x == *y,
        (MapKey::Number(x), MapKey::Number(y)) => *x == *y,
        _ => false,
    }
}

/// The index of the first entry with the given key.
pub fn find_key(entries: &Vec<(MapKey, MalData)>, key: &MapKey) -> (res: usize)
    ensures
        res == key_position(entries_view(entries@), key@),
{
    let mut i: usize = 0;
    while i < entries.len()
        invariant
            i <= entries.len(),
            forall|j: int| 0 <= j < i ==> (#[trigger] entries_view(entries@)[j]).0 != key@,
        decreases entries.len() - i,
    {
        if map_key_eq(&entries[i].0, key) {
            proof {
                lemma_key_position_is(entries_view(entries@), key@, i as int);
            }
            return i;
        }
        i += 1;
    }
    proof {
        lemma_key_position_is(entries_view(entries@), key@, i as int);
    }
    i
}

/// Whether two values are equal as the language sees them.
pub fn mal_equals(a: &MalData, b: &MalData) -> (res: bool)
    ensures
        res == values_equal(a@, b@),
    decreases a, 1nat,
{
    proof {
        lemma_list_view(*a);
        lemma_list_view(*b);
    }
    match (a, b) {
        (MalData::Nil, MalData::Nil) => true,
        (MalData::True, MalData::True) => true,
        (MalData::False, MalData::False) => true,
        (MalData::String(x), MalData::String(y)) => *x == *y,
        (MalData::Symbol(x), MalData::Symbol(y)) => *x == *y,
        (MalData::Keyword(x), MalData::Keyword(y)) => *x == *y,
        (MalData::Number(x), MalData::Number(y)) => *x == *y,
        (MalData::List(x), MalData::List(y)) => items_equal(a, x, y),
        (MalData::List(x), MalData::Vector(y)) => items_equal(a, x, y),
        (MalData::Vector(x), MalData::List(y)) => items_equal(a, x, y),
        (MalData::Vector(x), MalData::Vector(y)) => items_equal(a, x, y),
        (MalData::HashMap(x), MalData::HashMap(y)) => {
            if x.len() != y.len() {
                return false;
            }
            let mut i: usize = 0;
            while i < x.len()
                invariant
                    i <= x.len(),
                    x.len() == y.len(),
                    *a == MalData::HashMap(*x),
                    a@ == Value::HashMap(entries_view(x@)),
                    b@ == Value::HashMap(entries_view(y@)),
                    forall|j: int|
                        0 <= j < i ==> (map_lookup(
                            entries_view(y@),
                            (#[trigger] entries_view(x@)[j]).0,
                        ) matches Some(v) && values_equal(entries_view(x@)[j].1, v)),
                decreases x.len() - i,
            {
                let at = find_key(y, &x[i].0);
                if at >= y.len() {
                    assert(map_lookup(entries_view(y@), entries_view(x@)[i as int].0) is None);
                    assert(!maps_equal(entries_view(x@), entries_view(y@)));
                    return false;
                }
                proof {
                    assert(decreases_to!(a => a->HashMap_0));
                    assert(decreases_to!(a->HashMap_0 => a->HashMap_0@));
                    assert(decreases_to!(a->HashMap_0@ => a->HashMap_0@[i as int]));
                    assert(decreases_to!(a->HashMap_0@[i as int] => a->HashMap_0@[i as int].1));
                }
                if !mal_equals(&x[i].1, &y[at].1) {
                    assert(entries_view(x@)[i as int].1 == x@[i as int].1@);
                    assert(map_lookup(entries_view(y@), entries_view(x@)[i as int].0) == Some(
                        y@[at as int].1@,
                    ));
                    assert(!maps_equal(entries_view(x@), entries_view(y@)));
                    return false;
                }
                i += 1;
            }
            true
        },
        (MalData::Atom(x), MalData::Atom(y)) => *x == *y,
        _ => false,
    }
}

/// Whether two item sequences have the same length and pairwise equal
/// items. `owner` is the value that holds `x`.
fn items_equal(owner: &MalData, x: &Rc<Vec<MalData>>, y: &Rc<Vec<MalData>>) -> (res: bool)
    requires
        *owner == MalData::List(*x) || *owner == MalData::Vector(*x),
    ensures
        res == seqs_equal(values_view(x@), values_view(y@)),
    decreases owner, 0nat,
{
    if x.len() != y.len() {
        return false;
    }
    let mut i: usize = 0;
    while i < x.len()
        invariant
            i <= x.len(),
            x.len() == y.len(),
            *owner == MalData::List(*x) || *owner == MalData::Vector(*x),
            forall|j: int|
                0 <= j < i ==> values_equal(#[trigger] values_view(x@)[j], values_view(y@)[j]),
        decreases x.len() - i,
    {
        proof {
            if *owner == MalData::List(*x) {
                assert(decreases_to!(owner => owner->List_0));
                assert(decreases_to!(owner->List_0 => owner->List_0@));
                assert(decreases_to!(owner->List_0@ => owner->List_0@[i as int]));
            } else {
                assert(decreases_to!(owner => owner->Vector_0));
                assert(decreases_to!(owner->Vector_0 => owner->Vector_0@));
                assert(decreases_to!(owner->Vector_0@ => owner->Vector_0@[i as int]));
            }
        }
        if !mal_equals(&x[i], &y[i]) {
            assert(!values_equal(values_view(x@)[i as int], values_view(y@)[i as int]));
            return false;
        }
        i += 1;
    }
    true
}

/// Compares two lists or vectors item by item. Fails unless both
/// arguments are lists or vectors.
pub fn are_lists_equal(l1: &MalData, l2: &MalData) -> (res: Result<bool, String>)
    ensures
        res is Ok == (l1@.is_list_like() && l2@.is_list_like()),
        res matches Ok(b) ==> b == seqs_equal(l1@.items(), l2@.items()),
        res matches Err(e) ==> e@ == "both arguments must be lists or vectors"@,
{
    if !is_list_like(l1) || !is_list_like(l2) {
        return Err("both arguments must be lists or vectors".to_string());
    }
    let b = mal_equals(l1, l2);
    Ok(b)
}

impl PartialEq for MalData {
    fn eq(&self, other: &Self) -> (res: bool) {
        mal_equals(self, other)
    }
}

impl vstd::std_specs::cmp::PartialEqSpecImpl for MalData {
    open spec fn obeys_eq_spec() -> bool {
        true
    }

    open spec fn eq_spec(&self, other: &Self) -> bool {
        values_equal(self@, other@)
    }
}

impl PartialEq for MapKey {
    fn eq(&self, other: &Self) -> (res: bool) {
        map_key_eq(self, other)
    }
}

impl vstd::std_specs::cmp::PartialEqSpecImpl for MapKey {
    open spec fn obeys_eq_spec() -> bool {
        true
    }

    open spec fn eq_spec(&self, other: &Self) -> bool {
        self@ == other@
    }
}

impl Eq for MapKey {

}

/// The character that starts the stored name of every keyword, so that a
/// keyword never collides with a string.
pub open spec fn keyword_prefix() -> char {
    '\u{29e}'
}

/// The symbol of the given name.
pub fn make_mal_symbol(sym: &str) -> (res: MalData)
    ensures
        res@ == Value::Symbol(sym@),
{
    MalData::Symbol(sym.to_string())
}

/// The string value with the given characters.
pub fn make_mal_string(string: &str) -> (res: MalData)
    ensures
        res@ == Value::String(string@),
{
    MalData::String(string.to_string())
}

/// The number value.
pub fn make_mal_number(number: i32) -> (res: MalData)
    ensures
        res@ == Value::Number(number as int),
{
    MalData::Number(number)
}

/// The keyword with the given name.
pub fn make_mal_keyword(kw: &str) -> (res: MalData)
    ensures
        res@ == Value::Keyword(seq![keyword_prefix()] + kw@),
{
    let mut name = "\u{29e}".to_string();
    proof {
        reveal_strlit("\u{29e}");
        assert(name@ =~= seq![keyword_prefix()]);
    }
    name.append(kw);
    MalData::Keyword(name)
}

/// The list of the given items.
pub fn make_mal_list_from_vec(vec: Vec<MalData>) -> (res: MalData)
    ensures
        res@ == Value::List(values_view(vec@)),
{
    let res = MalData::List(Rc::new(vec));
    proof {
        lemma_list_view(res);
    }
    res
}

/// The list of copies of the given items.
pub fn make_mal_list_from_iter(iter: &[MalData]) -> (res: MalData)
    ensures
        res@ == Value::List(values_view(iter@)),
{
    make_mal_list_from_vec(clone_values(iter))
}

/// The list of copies of the given items.
pub fn make_mal_list_from_slice(slice: &[MalData]) -> (res: MalData)
    ensures
        res@ == Value::List(values_view(slice@)),
{
    make_mal_list_from_vec(clone_values(slice))
}

/// The vector of copies of the given items.
pub fn make_mal_vec_from_slice(slice: &[MalData]) -> (res: MalData)
    ensures
        res@ == Value::Vector(values_view(slice@)),
{
    let res = MalData::Vector(Rc::new(clone_values(slice)));
    proof {
        lemma_list_view(res);
    }
    res
}

/// The list without items.
pub fn mal_empty_list() -> (res: MalData)
    ensures
        res@ == Value::List(Seq::empty()),
{
    let res = make_mal_list_from_vec(Vec::new());
    assert(res@->List_0 =~= Seq::empty());
    res
}

/// Whether a value is a symbol.
pub fn is_mal_symbol(ast: &MalData) -> (res: bool)
    ensures
        res == (ast@ is Symbol),
{
    match ast {
        MalData::Symbol(_) => true,
        _ => false,
    }
}

/// Whether a value is a string.
pub fn is_mal_string(ast: &MalData) -> (res: bool)
    ensures
        res == (ast@ is String),
{
    match ast {
        MalData::String(_) => true,
        _ => false,
    }
}

/// Whether a value is a list.
pub fn is_mal_list(ast: &MalData) -> (res: bool)
    ensures
        res == (ast@ is List),
{
    match ast {
        MalData::List(_) => true,
        _ => false,
    }
}

/// The name of a symbol.
pub fn mal_symbol_name(ast: &MalData) -> (res: Option<String>)
    ensures
        res is Some == (ast@ is Symbol),
        res matches Some(name) ==> ast@ == Value::Symbol(name@),
{
    match ast {
        MalData::Symbol(sym) => Some(sym.clone()),
        _ => None,
    }
}

/// Whether a value is a keyword.
pub fn is_mal_keyword(value: &MalData) -> (res: bool)
    ensures
        res == (value@ is Keyword),
{
    match value {
        MalData::Keyword(_) => true,
        _ => false,
    }
}

/// Whether a value is a vector.
pub fn is_mal_vector(value: &MalData) -> (res: bool)
    ensures
        res == (value@ is Vector),
{
    match value {
        MalData::Vector(_) => true,
        _ => false,
    }
}

/// The truth value of the language for a host boolean.
pub fn mal_bool_value(value: bool) -> (res: MalData)
    ensures
        res@ == bool_value(value),
{
    if value {
        MalData::True
    } else {
        MalData::False
    }
}

/// The language's truth value for a host boolean.
pub open spec fn bool_value(b: bool) -> Value {
    if b {
        Value::True
    } else {
        Value::False
    }
}

/// Whether a value is nil.
pub fn is_mal_nil(value: &MalData) -> (res: bool)
    ensures
        res == (value@ is Nil),
{
    match value {
        MalData::Nil => true,
        _ => false,
    }
}

/// Whether a value is true.
pub fn is_mal_true(value: &MalData) -> (res: bool)
    ensures
        res == (value@ is True),
{
    match value {
        MalData::True => true,
        _ => false,
    }
}

/// Whether a value is false.
pub fn is_mal_false(value: &MalData) -> (res: bool)
    ensures
        res == (value@ is False),
{
    match value {
        MalData::False => true,
        _ => false,
    }
}

/// Whether a value is a map.
pub fn is_mal_map(value: &MalData) -> (res: bool)
    ensures
        res == (value@ is HashMap),
{
    match value {
        MalData::HashMap(_) => true,
        _ => false,
    }
}

/// The key that a value stands for, where it can be one.
pub open spec fn key_of(v: Value) -> Option<KeyV> {
    match v {
        Value::True => Some(KeyV::True),
        Value::False => Some(KeyV::False),
        Value::String(s) => Some(KeyV::String(s)),
        Value::Symbol(s) => Some(KeyV::Symbol(s)),
        Value::Keyword(s) => Some(KeyV::Keyword(s)),
        Value::Number(n) => Some(KeyV::Number(n)),
        _ => None,
    }
}

/// The value that a key stands for.
pub open spec fn key_value(k: KeyV) -> Value {
    match k {
        KeyV::True => Value::True,
        KeyV::False => Value::False,
        KeyV::String(s) => Value::String(s),
        KeyV::Symbol(s) => Value::Symbol(s),
        KeyV::Keyword(s) => Value::Keyword(s),
        KeyV::Number(n) => Value::Number(n),
    }
}

/// The message for a value that cannot be a map key.
pub open spec fn err_map_key() -> Seq<char> {
    "value cannot be used as a map key"@
}

/// The message for a key without a value.
pub open spec fn err_map_value_missing() -> Seq<char> {
    "value missing for map entry"@
}

/// Turns a value into a map key. Strings, symbols, keywords, numbers and
/// the two booleans can be keys; anything else is refused.
pub fn mapkey_for(value: &MalData) -> (res: Result<MapKey, String>)
    ensures
        match key_of(value@) {
            Some(k) => res matches Ok(key) && key@ == k,
            None => res matches Err(e) && e@ == err_map_key(),
        },
{
    match value {
        MalData::True => Ok(MapKey::True),
        MalData::False => Ok(MapKey::False),
        MalData::String(string) => Ok(MapKey::String(string.clone())),
        MalData::Symbol(string) => Ok(MapKey::Symbol(string.clone())),
        MalData::Keyword(string) => Ok(MapKey::Keyword(string.clone())),
        MalData::Number(num) => Ok(MapKey::Number(*num)),
        _ => Err("value cannot be used as a map key".to_string()),
    }
}

/// The entries after binding `k` to `v`: the key keeps its place where it
/// was bound before, and comes last where it was not.
pub open spec fn map_insert(entries: Seq<(KeyV, Value)>, k: KeyV, v: Value) -> Seq<(KeyV, Value)> {
    let i = key_position(entries, k);
    if i < entries.len() {
        entries.update(i, (k, v))
    } else {
        entries.push((k, v))
    }
}

/// The entries without any binding of `k`.
pub open spec fn map_remove(entries: Seq<(KeyV, Value)>, k: KeyV) -> Seq<(KeyV, Value)>
    decreases entries.len(),
{
    if entries.len() == 0 {
        Seq::empty()
    } else if entries.last().0 == k {
        map_remove(entries.drop_last(), k)
    } else {
        map_remove(entries.drop_last(), k).push(entries.last())
    }
}

/// No key is bound twice.
pub open spec fn keys_distinct(entries: Seq<(KeyV, Value)>) -> bool {
    forall|i: int, j: int|
        0 <= i < j < entries.len() ==> (#[trigger] entries[i]).0 != (#[trigger] entries[j]).0
}

/// Binds the keys at the even places of `kvs`, from index `i` on, to the
/// values that follow them, on top of `acc`.
pub open spec fn map_from_kvs(acc: Seq<(KeyV, Value)>, kvs: Seq<Value>, i: int) -> Result<
    Seq<(KeyV, Value)>,
    Seq<char>,
>
    decreases kvs.len() - i,
{
    if i < 0 || i >= kvs.len() {
        Ok(acc)
    } else if i + 1 >= kvs.len() {
        Err(err_map_value_missing())
    } else {
        match key_of(kvs[i]) {
            None => Err(err_map_key()),
            Some(k) => map_from_kvs(map_insert(acc, k, kvs[i + 1]), kvs, i + 2),
        }
    }
}

/// Binds `key` to `value` in `entries`.
pub fn entries_insert(entries: &mut Vec<(MapKey, MalData)>, key: MapKey, value: MalData)
    ensures
        entries_view(final(entries)@) == map_insert(entries_view(old(entries)@), key@, value@),
{
    let at = find_key(entries, &key);
    let ghost before = entries_view(entries@);
    if at < entries.len() {
        let ghost kv = key@;
        let ghost vv = value@;
        entries[at] = (key, value);
        assert(entries_view(entries@) =~= before.update(at as int, (kv, vv)));
    } else {
        let ghost kv = key@;
        let ghost vv = value@;
        entries.push((key, value));
        assert(entries_view(entries@) =~= before.push((kv, vv)));
    }
}

/// Builds map entries from alternating keys and values. A later binding
/// of a key replaces an earlier one.
pub fn make_hashmap_from_kv_list(iter: &[MalData]) -> (res: Result<Vec<(MapKey, MalData)>, String>)
    ensures
        match map_from_kvs(Seq::empty(), values_view(iter@), 0) {
            Ok(entries) => res matches Ok(m) && entries_view(m@) == entries,
            Err(msg) => res matches Err(e) && e@ == msg,
        },
{
    let mut map: Vec<(MapKey, MalData)> = Vec::new();
    let mut i: usize = 0;
    assert(entries_view(map@) =~= Seq::empty());
    while i < iter.len()
        invariant
            i <= iter.len(),
            map_from_kvs(entries_view(map@), values_view(iter@), i as int) == map_from_kvs(
                Seq::empty(),
                values_view(iter@),
                0,
            ),
        decreases iter.len() - i,
    {
        if iter.len() - i < 2 {
            return Err("value missing for map entry".to_string());
        }
        let key = match mapkey_for(&iter[i]) {
            Ok(key) => key,
            Err(e) => {
                return Err(e);
            },
        };
        entries_insert(&mut map, key, iter[i + 1].clone());
        i += 2;
    }
    Ok(map)
}

/// The map built from alternating keys and values.
pub fn make_mal_map_from_kv_list(iter: &[MalData]) -> (res: Result<MalData, String>)
    ensures
        match map_from_kvs(Seq::empty(), values_view(iter@), 0) {
            Ok(entries) => res matches Ok(m) && m@ == Value::HashMap(entries),
            Err(msg) => res matches Err(e) && e@ == msg,
        },
{
    match make_hashmap_from_kv_list(iter) {
        Ok(entries) => {
            let res = MalData::HashMap(entries);
            proof {
                lemma_list_view(res);
            }
            Ok(res)
        },
        Err(e) => Err(e),
    }
}

/// The model of a result that holds a value or a message.
pub open spec fn result_view(res: Result<MalData, String>) -> Result<Value, Seq<char>> {
    match res {
        Ok(v) => Ok(v@),
        Err(e) => Err(e@),
    }
}

/// The entries without those bound to `key`.
pub fn entries_remove(entries: &Vec<(MapKey, MalData)>, key: &MapKey) -> (res: Vec<(MapKey, MalData)>)
    ensures
        entries_view(res@) == map_remove(entries_view(entries@), key@),
{
    let mut out: Vec<(MapKey, MalData)> = Vec::new();
    let mut i: usize = 0;
    let ghost all = entries_view(entries@);
    assert(entries_view(out@) =~= map_remove(all.take(0), key@));
    while i < entries.len()
        invariant
            i <= entries.len(),
            all == entries_view(entries@),
            entries_view(out@) == map_remove(all.take(i as int), key@),
        decreases entries.len() - i,
    {
        proof {
            assert(all.take(i as int + 1).drop_last() =~= all.take(i as int));
            assert(all.take(i as int + 1).last() == all[i as int]);
        }
        if !map_key_eq(&entries[i].0, key) {
            let ghost before = entries_view(out@);
            out.push((entries[i].0.clone(), entries[i].1.clone()));
            assert(entries_view(out@) =~= before.push(all[i as int]));
        }
        i += 1;
    }
    assert(all.take(i as int) =~= all);
    out
}

/// Copies map entries.
pub fn clone_entries(entries: &Vec<(MapKey, MalData)>) -> (res: Vec<(MapKey, MalData)>)
    ensures
        entries_view(res@) == entries_view(entries@),
{
    let mut out: Vec<(MapKey, MalData)> = Vec::new();
    let mut i: usize = 0;
    while i < entries.len()
        invariant
            i <= entries.len(),
            out.len() == i,
            forall|j: int|
                0 <= j < i ==> out@[j].0@ == entries@[j].0@ && out@[j].1@ == entries@[j].1@,
        decreases entries.len() - i,
    {
        out.push((entries[i].0.clone(), entries[i].1.clone()));
        i += 1;
    }
    assert(entries_view(out@) =~= entries_view(entries@));
    out
}

/// Adds a value at the end.
pub fn push_value(out: &mut Vec<MalData>, value: MalData)
    ensures
        values_view(final(out)@) == values_view(old(out)@).push(value@),
{
    out.push(value);
    assert(values_view(out@) =~= values_view(old(out)@).push(value@));
}

/// Adds copies of the items from index `from` on at the end.
pub(crate) fn extend_values(out: &mut Vec<MalData>, items: &[MalData], from: usize)
    requires
        from <= items@.len(),
    ensures
        values_view(final(out)@) == values_view(old(out)@) + values_view(items@).subrange(
            from as int,
            items@.len() as int,
        ),
{
    let mut i: usize = from;
    assert(values_view(out@) =~= values_view(old(out)@) + values_view(items@).subrange(
        from as int,
        i as int,
    ));
    while i < items.len()
        invariant
            from <= i <= items.len(),
            values_view(out@) == values_view(old(out)@) + values_view(items@).subrange(
                from as int,
                i as int,
            ),
        decreases items.len() - i,
    {
        push_value(out, items[i].clone());
        assert(values_view(out@) =~= values_view(old(out)@) + values_view(items@).subrange(
            from as int,
            i as int + 1,
        ));
        i += 1;
    }
}

/// The strings that occur in a value as it was read: the string itself,
/// or those among the items of a list or vector and the values of a map,
/// in order.
pub open spec fn strings_in(v: Value) -> Seq<Seq<char>>
    decreases v, 0nat,
{
    match v {
        Value::String(s) => seq![s],
        Value::List(items) => strings_in_items(items, items.len() as int),
        Value::Vector(items) => strings_in_items(items, items.len() as int),
        Value::HashMap(entries) => strings_in_entries(entries, entries.len() as int),
        _ => Seq::empty(),
    }
}

/// The strings that occur in the first `upto` items.
pub open spec fn strings_in_items(items: Seq<Value>, upto: int) -> Seq<Seq<char>>
    decreases items, upto,
{
    if upto <= 0 || upto > items.len() {
        Seq::empty()
    } else {
        strings_in_items(items, upto - 1) + strings_in(items[upto - 1])
    }
}

/// The strings that occur in the values of the first `upto` entries.
pub open spec fn strings_in_entries(entries: Seq<(KeyV, Value)>, upto: int) -> Seq<Seq<char>>
    decreases entries, upto,
{
    if upto <= 0 || upto > entries.len() {
        Seq::empty()
    } else {
        strings_in_entries(entries, upto - 1) + strings_in(entries[upto - 1].1)
    }
}

/// The views of a sequence of strings.
pub open spec fn texts_view(parts: Seq<String>) -> Seq<Seq<char>> {
    Seq::new(parts.len(), |i: int| parts[i]@)
}

/// Adds the strings that occur in a value to `out`.
fn collect_strings(ast: &MalData, out: &mut Vec<String>)
    ensures
        texts_view(final(out)@) == texts_view(old(out)@) + strings_in(ast@),
    decreases ast,
{
    proof {
        lemma_list_view(*ast);
    }
    let ghost start = texts_view(out@);
    match ast {
        MalData::String(s) => {
            out.push(s.clone());
            assert(texts_view(out@) =~= start + seq![s@]);
        },
        MalData::List(items) => {
            let mut i: usize = 0;
            assert(texts_view(out@) =~= start + strings_in_items(values_view(items@), 0));
            while i < items.len()
                invariant
                    i <= items.len(),
                    *ast == MalData::List(*items),
                    texts_view(out@) == start + strings_in_items(values_view(items@), i as int),
                decreases items.len() - i,
            {
                proof {
                    assert(decreases_to!(ast => ast->List_0));
                    assert(decreases_to!(ast->List_0 => ast->List_0@));
                    assert(decreases_to!(ast->List_0@ => ast->List_0@[i as int]));
                    assert(values_view(items@)[i as int] == items@[i as int]@);
                }
                let ghost before = texts_view(out@);
                collect_strings(&items[i], out);
                assert(texts_view(out@) =~= start + strings_in_items(
                    values_view(items@),
                    i as int + 1,
                ));
                i += 1;
            }
        },
        MalData::Vector(items) => {
            let mut i: usize = 0;
            assert(texts_view(out@) =~= start + strings_in_items(values_view(items@), 0));
            while i < items.len()
                invariant
                    i <= items.len(),
                    *ast == MalData::Vector(*items),
                    texts_view(out@) == start + strings_in_items(values_view(items@), i as int),
                decreases items.len() - i,
            {
                proof {
                    assert(decreases_to!(ast => ast->Vector_0));
                    assert(decreases_to!(ast->Vector_0 => ast->Vector_0@));
                    assert(decreases_to!(ast->Vector_0@ => ast->Vector_0@[i as int]));
                    assert(values_view(items@)[i as int] == items@[i as int]@);
                }
                collect_strings(&items[i], out);
                assert(texts_view(out@) =~= start + strings_in_items(
                    values_view(items@),
                    i as int + 1,
                ));
                i += 1;
            }
        },
        MalData::HashMap(entries) => {
            let mut i: usize = 0;
            assert(texts_view(out@) =~= start + strings_in_entries(entries_view(entries@), 0));
            while i < entries.len()
                invariant
                    i <= entries.len(),
                    *ast == MalData::HashMap(*entries),
                    texts_view(out@) == start + strings_in_entries(
                        entries_view(entries@),
                        i as int,
                    ),
                decreases entries.len() - i,
            {
                proof {
                    assert(decreases_to!(ast => ast->HashMap_0));
                    assert(decreases_to!(ast->HashMap_0 => ast->HashMap_0@));
                    assert(decreases_to!(ast->HashMap_0@ => ast->HashMap_0@[i as int]));
                    assert(decreases_to!(ast->HashMap_0@[i as int] => ast->HashMap_0@[i as int].1));
                    assert(entries_view(entries@)[i as int].1 == entries@[i as int].1@);
                }
                collect_strings(&entries[i].1, out);
                assert(texts_view(out@) =~= start + strings_in_entries(
                    entries_view(entries@),
                    i as int + 1,
                ));
                i += 1;
            }
        },
        _ => {
            assert(texts_view(out@) =~= start + Seq::<Seq<char>>::empty());
        },
    }
}

/// The strings that occur in a value as it was read, in order. A host
/// uses them to find the files that a form may ask for.
pub fn string_literals(ast: &MalData) -> (res: Vec<String>)
    ensures
        texts_view(res@) == strings_in(ast@),
{
    let mut out: Vec<String> = Vec::new();
    assert(texts_view(out@) =~= Seq::empty());
    collect_strings(ast, &mut out);
    assert(texts_view(out@) =~= strings_in(ast@));
    out
}

} // verus!
