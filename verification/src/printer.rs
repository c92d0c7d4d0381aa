//! The printer: from a value to its text.

use crate::common::entries_view;
use crate::common::lemma_list_view;
use crate::common::values_view;
use crate::common::KeyV;
use crate::common::MalData;
use crate::common::MapKey;
use crate::common::Value;
use crate::env::Runtime;
use crate::env::RuntimeV;
use crate::text::string_of;
use vstd::prelude::*;

verus! {

/// The pattern that matches one backslash.
pub open spec fn backslash_pattern() -> Seq<char> {
    "\\\\"@
}

/// The pattern that matches one line feed.
pub open spec fn newline_pattern() -> Seq<char> {
    "\\n"@
}

/// The pattern that matches one double quote.
pub open spec fn dquote_pattern() -> Seq<char> {
    "\""@
}

/// The patterns that the printer escapes with.
pub open spec fn is_escape_pattern(pattern: Seq<char>) -> bool {
    pattern == backslash_pattern() || pattern == newline_pattern() || pattern == dquote_pattern()
}

/// The one character that an escape pattern matches.
pub open spec fn pattern_char(pattern: Seq<char>) -> char {
    if pattern == backslash_pattern() {
        '\\'
    } else if pattern == newline_pattern() {
        '\n'
    } else {
        '"'
    }
}

/// The text with every occurrence of the character `c` replaced by
/// `rep`.
pub open spec fn replace_char(text: Seq<char>, c: char, rep: Seq<char>) -> Seq<char>
    decreases text.len(),
{
    if text.len() == 0 {
        Seq::empty()
    } else if text.last() == c {
        replace_char(text.drop_last(), c, rep) + rep
    } else {
        replace_char(text.drop_last(), c, rep).push(text.last())
    }
}

/// Whether a replacement is taken as it stands: it holds no `$`, which
/// would refer to a capture group.
pub open spec fn is_literal_replacement(rep: Seq<char>) -> bool {
    forall|i: int| 0 <= i < rep.len() ==> rep[i] != '$'
}

/// Replaces every match of `pattern` in `text` by `replacement`, with
/// `regex::Regex::new` and `Regex::replace_all`. Each of the three
/// patterns admitted is a valid regular expression that matches one
/// character and nothing else, so compiling it succeeds, the matches are
/// the occurrences of that character, and a replacement without `$` is
/// put in place of each as it stands.
#[verifier::external_body]
fn replace_all(pattern: &str, text: &str, replacement: &str) -> (res: String)
    requires
        is_escape_pattern(pattern@),
        is_literal_replacement(replacement@),
    ensures
        res@ == replace_char(text@, pattern_char(pattern@), replacement@),
{
    let re = regex::Regex::new(pattern).unwrap();
    re.replace_all(text, replacement).into_owned()
}

/// The parts with `sep` between each two neighbours.
pub open spec fn joined(parts: Seq<Seq<char>>, sep: Seq<char>) -> Seq<char>
    decreases parts.len(),
{
    if parts.len() == 0 {
        Seq::empty()
    } else if parts.len() == 1 {
        parts[0]
    } else {
        joined(parts.drop_last(), sep) + sep + parts.last()
    }
}

/// The views of a sequence of strings.
pub open spec fn strings_view(parts: Seq<String>) -> Seq<Seq<char>> {
    Seq::new(parts.len(), |i: int| parts[i]@)
}

/// Joins strings with `itertools::join`: every part in order, with `sep`
/// between each two neighbours and none at either end.
#[verifier::external_body]
pub(crate) fn join(parts: &Vec<String>, sep: &str) -> (res: String)
    ensures
        res@ == joined(strings_view(parts@), sep@),
{
    itertools::join(parts, sep)
}

/// The character for a decimal digit.
pub open spec fn digit_char(d: int) -> char {
    if d == 0 {
        '0'
    } else if d == 1 {
        '1'
    } else if d == 2 {
        '2'
    } else if d == 3 {
        '3'
    } else if d == 4 {
        '4'
    } else if d == 5 {
        '5'
    } else if d == 6 {
        '6'
    } else if d == 7 {
        '7'
    } else if d == 8 {
        '8'
    } else {
        '9'
    }
}

/// The decimal digits of a natural number, without leading zeros.
pub open spec fn digits(n: nat) -> Seq<char>
    decreases n,
{
    if n < 10 {
        seq![digit_char(n as int)]
    } else {
        digits(n / 10).push(digit_char((n % 10) as int))
    }
}

/// The decimal text of an integer.
pub open spec fn decimal(n: int) -> Seq<char> {
    if n < 0 {
        seq!['-'] + digits((-n) as nat)
    } else {
        digits(n as nat)
    }
}

fn digit_of(d: u32) -> (c: char)
    requires
        d < 10,
    ensures
        c == digit_char(d as int),
{
    if d == 0 {
        '0'
    } else if d == 1 {
        '1'
    } else if d == 2 {
        '2'
    } else if d == 3 {
        '3'
    } else if d == 4 {
        '4'
    } else if d == 5 {
        '5'
    } else if d == 6 {
        '6'
    } else if d == 7 {
        '7'
    } else if d == 8 {
        '8'
    } else {
        '9'
    }
}

fn push_digits(n: u32, out: &mut Vec<char>)
    ensures
        final(out)@ == old(out)@ + digits(n as nat),
    decreases n,
{
    if n >= 10 {
        push_digits(n / 10, out);
    }
    out.push(digit_of(n % 10));
    assert(out@ =~= old(out)@ + digits(n as nat));
}

/// The decimal text of a number.
pub fn number_to_string(n: i32) -> (res: String)
    ensures
        res@ == decimal(n as int),
{
    let mut out: Vec<char> = Vec::new();
    if n < 0 {
        out.push('-');
        let m: u32 = if n == i32::MIN {
            2147483648u32
        } else {
            (-n) as u32
        };
        push_digits(m, &mut out);
        assert(out@ =~= decimal(n as int));
    } else {
        push_digits(n as u32, &mut out);
        assert(out@ =~= decimal(n as int));
    }
    string_of(&out)
}

/// A string as the reader accepts it: backslashes, line feeds and double
/// quotes escaped, in that order, and the whole in double quotes.
pub open spec fn readable_string(s: Seq<char>) -> Seq<char> {
    let step1 = replace_char(s, '\\', seq!['\\', '\\']);
    let step2 = replace_char(step1, '\n', seq!['\\', 'n']);
    let step3 = replace_char(step2, '"', seq!['\\', '"']);
    seq!['"'] + step3 + seq!['"']
}

/// The text of a keyword: a colon, then the stored name without its
/// first character.
pub open spec fn keyword_text(kw: Seq<char>) -> Seq<char> {
    if kw.len() > 0 {
        seq![':'] + kw.subrange(1, kw.len() as int)
    } else {
        seq![':']
    }
}

/// The text of a map key.
pub open spec fn key_text(k: KeyV) -> Seq<char> {
    match k {
        KeyV::True => "true"@,
        KeyV::False => "false"@,
        KeyV::String(s) => readable_string(s),
        KeyV::Symbol(s) => s,
        KeyV::Keyword(kw) => keyword_text(kw),
        KeyV::Number(n) => decimal(n),
    }
}

/// The text of a value. `depth` bounds how many atoms are opened one
/// inside the other; an atom beyond it, or one that is not in the state,
/// prints without its contents.
pub open spec fn value_text(rt: RuntimeV, v: Value, readably: bool, depth: nat) -> Seq<char>
    decreases depth, v, 0nat,
{
    match v {
        Value::Nothing => Seq::empty(),
        Value::Atom(cell) => if depth > 0 && cell < rt.atoms.len() {
            "(atom "@ + value_text(rt, rt.atoms[cell as int], readably, (depth - 1) as nat) + ")"@
        } else {
            "(atom ...)"@
        },
        Value::Nil => "nil"@,
        Value::True => "true"@,
        Value::False => "false"@,
        Value::String(s) => if readably {
            readable_string(s)
        } else {
            s
        },
        Value::Symbol(s) => s,
        Value::Keyword(kw) => keyword_text(kw),
        Value::Number(n) => decimal(n),
        Value::List(items) => "("@ + joined(items_text(rt, items, readably, depth), " "@) + ")"@,
        Value::Vector(items) => "["@ + joined(items_text(rt, items, readably, depth), " "@) + "]"@,
        Value::HashMap(entries) => "{"@ + joined(
            entries_text(rt, entries, readably, depth),
            " "@,
        ) + "}"@,
        Value::Function(_, _) => "#<function>"@,
        Value::FnClosure { .. } => "#<function>"@,
        Value::Exception(_) => "#<exception>"@,
    }
}

/// The texts of the items, in order.
pub open spec fn items_text(rt: RuntimeV, items: Seq<Value>, readably: bool, depth: nat) -> Seq<
    Seq<char>,
>
    decreases depth, items, 1nat,
{
    Seq::new(
        items.len(),
        |i: int|
            if 0 <= i < items.len() {
                value_text(rt, items[i], readably, depth)
            } else {
                Seq::empty()
            },
    )
}

/// The texts of the entries, in order: the key, a space, the value.
pub open spec fn entries_text(
    rt: RuntimeV,
    entries: Seq<(KeyV, Value)>,
    readably: bool,
    depth: nat,
) -> Seq<Seq<char>>
    decreases depth, entries, 1nat,
{
    Seq::new(
        entries.len(),
        |i: int|
            if 0 <= i < entries.len() {
                key_text(entries[i].0) + " "@ + value_text(rt, entries[i].1, readably, depth)
            } else {
                Seq::empty()
            },
    )
}

/// The text that `pr_str` gives for a value: atoms are opened as deep as
/// the state has atoms.
pub open spec fn printed(rt: RuntimeV, v: Value, readably: bool) -> Seq<char> {
    value_text(rt, v, readably, rt.atoms.len())
}

/// Escapes a string and puts it in double quotes.
pub fn make_readable_string(string: &str) -> (res: String)
    ensures
        res@ == readable_string(string@),
{
    proof {
        reveal_strlit("\\\\");
        reveal_strlit("\\n");
        reveal_strlit("\"");
        reveal_strlit("\\\"");
        assert("\\\\"@ =~= seq!['\\', '\\']);
        assert("\\n"@ =~= seq!['\\', 'n']);
        assert("\\\""@ =~= seq!['\\', '"']);
        assert("\""@ =~= seq!['"']);
        assert("\\n"@ != "\\\\"@) by {
            assert("\\n"@[1] != "\\\\"@[1]);
        }
        assert("\""@ != "\\\\"@ && "\""@ != "\\n"@) by {
            assert("\""@.len() == 1);
        }
    }
    let step1 = replace_all("\\\\", string, "\\\\");
    let step2 = replace_all("\\n", step1.as_str(), "\\n");
    let step3 = replace_all("\"", step2.as_str(), "\\\"");
    let mut res = "\"".to_string();
    res.append(step3.as_str());
    res.append("\"");
    res
}

/// The text of a keyword.
pub fn keyword_to_string(kw: &str) -> (res: String)
    ensures
        res@ == keyword_text(kw@),
{
    let chars = crate::text::chars_of(kw);
    let mut out: Vec<char> = Vec::new();
    out.push(':');
    let mut i: usize = 1;
    while i < chars.len()
        invariant
            1 <= i,
            chars.len() > 0 ==> i <= chars.len(),
            chars.len() > 0 ==> out@ == seq![':'] + chars@.subrange(1, i as int),
            chars.len() == 0 ==> out@ == seq![':'],
        decreases chars.len() - i,
    {
        out.push(chars[i]);
        assert(out@ =~= seq![':'] + chars@.subrange(1, i as int + 1));
        i += 1;
    }
    assert(out@ =~= keyword_text(kw@)) by {
        if chars.len() > 0 {
            assert(chars@.subrange(1, i as int) =~= kw@.subrange(1, kw@.len() as int));
        }
    }
    string_of(&out)
}

/// A type that has a text.
pub trait PrStr {
    /// The text of the value in the given state.
    spec fn text(&self, rt: RuntimeV, print_readably: bool) -> Seq<char>;

    fn pr_str(&self, rt: &Runtime, print_readably: bool) -> (res: String)
        ensures
            res@ == self.text(rt@, print_readably),
    ;
}

impl PrStr for MapKey {
    open spec fn text(&self, rt: RuntimeV, print_readably: bool) -> Seq<char> {
        key_text(self@)
    }

    fn pr_str(&self, rt: &Runtime, print_readably: bool) -> (res: String) {
        match self {
            MapKey::True => "true".to_string(),
            MapKey::False => "false".to_string(),
            MapKey::String(string) => make_readable_string(string.as_str()),
            MapKey::Symbol(sym) => sym.clone(),
            MapKey::Keyword(kw) => keyword_to_string(kw.as_str()),
            MapKey::Number(num) => number_to_string(*num),
        }
    }
}

/// The text of a value, with atoms opened `depth` deep.
fn value_to_string(rt: &Runtime, data: &MalData, print_readably: bool, depth: usize) -> (res: String)
    ensures
        res@ == value_text(rt@, data@, print_readably, depth as nat),
    decreases depth, data,
{
    proof {
        lemma_list_view(*data);
    }
    match data {
        MalData::Nothing => {
            let res = String::new();
            res
        },
        MalData::Atom(cell) => {
            if depth > 0 {
                match rt.atom_value(*cell) {
                    Some(inner) => {
                        let mut out = "(atom ".to_string();
                        let text = value_to_string(rt, &inner, print_readably, depth - 1);
                        out.append(text.as_str());
                        out.append(")");
                        out
                    },
                    None => "(atom ...)".to_string(),
                }
            } else {
                "(atom ...)".to_string()
            }
        },
        MalData::Nil => "nil".to_string(),
        MalData::True => "true".to_string(),
        MalData::False => "false".to_string(),
        MalData::String(string) => if print_readably {
            make_readable_string(string.as_str())
        } else {
            string.clone()
        },
        MalData::Symbol(sym) => sym.clone(),
        MalData::Keyword(kw) => keyword_to_string(kw.as_str()),
        MalData::Number(num) => number_to_string(*num),
        MalData::List(elements) => {
            let mut parts: Vec<String> = Vec::new();
            let mut i: usize = 0;
            while i < elements.len()
                invariant
                    i <= elements.len(),
                    parts.len() == i,
                    *data == MalData::List(*elements),
                    forall|j: int|
                        0 <= j < i ==> (#[trigger] parts@[j])@ == value_text(
                            rt@,
                            elements@[j]@,
                            print_readably,
                            depth as nat,
                        ),
                decreases elements.len() - i,
            {
                proof {
                    assert(decreases_to!(data => data->List_0));
                    assert(decreases_to!(data->List_0 => data->List_0@));
                    assert(decreases_to!(data->List_0@ => data->List_0@[i as int]));
                }
                parts.push(value_to_string(rt, &elements[i], print_readably, depth));
                i += 1;
            }
            assert(strings_view(parts@) =~= items_text(
                rt@,
                values_view(elements@),
                print_readably,
                depth as nat,
            ));
            let mut out = "(".to_string();
            out.append(join(&parts, " ").as_str());
            out.append(")");
            out
        },
        MalData::Vector(elements) => {
            let mut parts: Vec<String> = Vec::new();
            let mut i: usize = 0;
            while i < elements.len()
                invariant
                    i <= elements.len(),
                    parts.len() == i,
                    *data == MalData::Vector(*elements),
                    forall|j: int|
                        0 <= j < i ==> (#[trigger] parts@[j])@ == value_text(
                            rt@,
                            elements@[j]@,
                            print_readably,
                            depth as nat,
                        ),
                decreases elements.len() - i,
            {
                proof {
                    assert(decreases_to!(data => data->Vector_0));
                    assert(decreases_to!(data->Vector_0 => data->Vector_0@));
                    assert(decreases_to!(data->Vector_0@ => data->Vector_0@[i as int]));
                }
                parts.push(value_to_string(rt, &elements[i], print_readably, depth));
                i += 1;
            }
            assert(strings_view(parts@) =~= items_text(
                rt@,
                values_view(elements@),
                print_readably,
                depth as nat,
            ));
            let mut out = "[".to_string();
            out.append(join(&parts, " ").as_str());
            out.append("]");
            out
        },
        MalData::HashMap(elements) => {
            let mut parts: Vec<String> = Vec::new();
            let mut i: usize = 0;
            while i < elements.len()
                invariant
                    i <= elements.len(),
                    parts.len() == i,
                    *data == MalData::HashMap(*elements),
                    forall|j: int|
                        0 <= j < i ==> (#[trigger] parts@[j])@ == key_text(elements@[j].0@) + " "@
                            + value_text(rt@, elements@[j].1@, print_readably, depth as nat),
                decreases elements.len() - i,
            {
                proof {
                    assert(decreases_to!(data => data->HashMap_0));
                    assert(decreases_to!(data->HashMap_0 => data->HashMap_0@));
                    assert(decreases_to!(data->HashMap_0@ => data->HashMap_0@[i as int]));
                    assert(decreases_to!(data->HashMap_0@[i as int] => data->HashMap_0@[i as int].1));
                }
                let mut part = elements[i].0.pr_str(rt, print_readably);
                part.append(" ");
                let text = value_to_string(rt, &elements[i].1, print_readably, depth);
                part.append(text.as_str());
                parts.push(part);
                i += 1;
            }
            assert(strings_view(parts@) =~= entries_text(
                rt@,
                entries_view(elements@),
                print_readably,
                depth as nat,
            ));
            let mut out = "{".to_string();
            out.append(join(&parts, " ").as_str());
            out.append("}");
            out
        },
        MalData::Function(_) => "#<function>".to_string(),
        MalData::FnClosure(_) => "#<function>".to_string(),
        MalData::Exception(_) => "#<exception>".to_string(),
    }
}

impl PrStr for MalData {
    open spec fn text(&self, rt: RuntimeV, print_readably: bool) -> Seq<char> {
        printed(rt, self@, print_readably)
    }

    fn pr_str(&self, rt: &Runtime, print_readably: bool) -> (res: String) {
        value_to_string(rt, self, print_readably, rt.atom_count())
    }
}

/// The text of a value: readable, so that the reader accepts it again, or
/// for display, with strings as they are.
pub fn pr_str<T: PrStr>(data: &T, rt: &Runtime, print_readably: bool) -> (res: String)
    ensures
        res@ == data.text(rt@, print_readably),
{
    data.pr_str(rt, print_readably)
}

} // verus!
