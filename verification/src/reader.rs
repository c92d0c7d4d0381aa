//! The reader: from text to a value.
//!
//! The text is cut into tokens by a regular expression; the forms are
//! then read from the tokens by recursive descent.

use crate::common::keyword_prefix;
use crate::common::make_mal_list_from_vec;
use crate::common::make_mal_map_from_kv_list;
use crate::common::make_mal_symbol;
use crate::common::map_from_kvs;
use crate::common::result_view;
use crate::common::values_view;
use crate::common::make_mal_keyword;
use crate::common::MalData;
use crate::common::Value;
use crate::printer::strings_view;
use crate::text::chars_of;
use crate::text::str_eq;
use crate::text::string_of;
use std::rc::Rc;
use vstd::prelude::*;

verus! {

/// The first capture group of each match that `Regex::captures_iter`
/// finds for a pattern in a text, in order.
pub uninterp spec fn regex_first_groups(pattern: Seq<char>, text: Seq<char>) -> Seq<Seq<char>>;

/// The pattern of one token, after any white space and commas: `~@`, one
/// of the special characters, a string literal (closed or not), a
/// comment, or a run of ordinary characters.
pub open spec fn token_pattern() -> Seq<char> {
    "[\\s,]*(~@|[\\[\\]{}()'`~^@]|\"(?:\\\\.|[^\\\\\"])*\"?|;.*|[^\\s\\[\\]{}('\"`,;)]*)"@
}

/// The pattern of an integer literal: from the start of the text to its
/// end, an optional minus sign and one digit or more.
pub open spec fn number_pattern() -> Seq<char> {
    "^-?[0-9]+$"@
}

/// Finds the tokens of a text with `regex::Regex::new` and
/// `Regex::captures_iter`: the first group of every match. The pattern
/// admitted is a valid regular expression whose first group takes part in
/// every match, so neither compiling it nor taking the group fails.
#[verifier::external_body]
fn first_groups(pattern: &str, text: &str) -> (res: Vec<String>)
    requires
        pattern@ == token_pattern(),
    ensures
        strings_view(res@) == regex_first_groups(pattern@, text@),
{
    let re = regex::Regex::new(pattern).unwrap();
    re.captures_iter(text).map(|cap| cap.get(1).unwrap().as_str().to_string()).collect()
}

/// Tests a text against a pattern with `regex::Regex::new` and
/// `Regex::is_match`. The pattern admitted is a valid regular expression,
/// so compiling it succeeds; it is anchored at both ends, so it matches
/// the whole text or nothing: an optional minus sign followed by one or
/// more of the digits `0` to `9`.
#[verifier::external_body]
fn is_match(pattern: &str, text: &str) -> (res: bool)
    requires
        pattern@ == number_pattern(),
    ensures
        res == is_integer_literal(text@),
{
    let re = regex::Regex::new(pattern).unwrap();
    re.is_match(text)
}

/// Whether a token is a comment.
pub open spec fn is_comment(token: Seq<char>) -> bool {
    token.len() > 0 && token[0] == ';'
}

/// The tokens that are not comments.
pub open spec fn without_comments(tokens: Seq<Seq<char>>) -> Seq<Seq<char>>
    decreases tokens.len(),
{
    if tokens.len() == 0 {
        Seq::empty()
    } else if is_comment(tokens.last()) {
        without_comments(tokens.drop_last())
    } else {
        without_comments(tokens.drop_last()).push(tokens.last())
    }
}

/// The tokens of a text.
pub open spec fn tokens_of(input: Seq<char>) -> Seq<Seq<char>> {
    regex_first_groups(token_pattern(), input)
}

/// The tokens of a text, comments included.
pub fn tokenizer(input: &str) -> (res: Vec<String>)
    ensures
        strings_view(res@) == tokens_of(input@),
{
    first_groups(
        "[\\s,]*(~@|[\\[\\]{}()'`~^@]|\"(?:\\\\.|[^\\\\\"])*\"?|;.*|[^\\s\\[\\]{}('\"`,;)]*)",
        input,
    )
}

/// A cursor over the tokens of a text.
pub struct Reader {
    tokens: Vec<String>,
    index: usize,
}

impl Reader {
    /// The tokens that the reader walks over.
    pub closed spec fn tokens(&self) -> Seq<Seq<char>> {
        strings_view(self.tokens@)
    }

    /// The number of tokens already taken.
    pub closed spec fn position(&self) -> int {
        self.index as int
    }

    /// A reader at the start of the given tokens, without the comments.
    pub fn new(tokens: &Vec<String>) -> (res: Reader)
        ensures
            res.tokens() == without_comments(strings_view(tokens@)),
            res.position() == 0,
    {
        let mut filtered: Vec<String> = Vec::new();
        let mut i: usize = 0;
        assert(strings_view(filtered@) =~= without_comments(strings_view(tokens@).take(0)));
        while i < tokens.len()
            invariant
                i <= tokens.len(),
                strings_view(filtered@) == without_comments(strings_view(tokens@).take(i as int)),
            decreases tokens.len() - i,
        {
            let chars = chars_of(tokens[i].as_str());
            let comment = chars.len() > 0 && chars[0] == ';';
            proof {
                let all = strings_view(tokens@);
                assert(all.take(i as int + 1).drop_last() =~= all.take(i as int));
                assert(all.take(i as int + 1).last() == tokens@[i as int]@);
            }
            if !comment {
                let ghost before = strings_view(filtered@);
                filtered.push(tokens[i].clone());
                assert(strings_view(filtered@) =~= before.push(tokens@[i as int]@));
            }
            i += 1;
        }
        assert(strings_view(tokens@).take(i as int) =~= strings_view(tokens@));
        Reader { tokens: filtered, index: 0 }
    }

    /// Takes the token at the cursor.
    pub fn next(&mut self) -> (res: Option<String>)
        ensures
            final(self).tokens() == old(self).tokens(),
            old(self).position() < old(self).tokens().len() ==> final(self).position() == old(self).position() + 1 && (res matches Some(t) && t@ == old(self).tokens()[old(self).position()]),
            old(self).position() >= old(self).tokens().len() ==> final(self).position() == old(self).position() && res is None,
    {
        if self.index < self.tokens.len() {
            let t = self.tokens[self.index].clone();
            self.index += 1;
            Some(t)
        } else {
            None
        }
    }

    /// The token at the cursor.
    pub fn peek(&self) -> (res: Option<&str>)
        ensures
            self.position() < self.tokens().len() ==> (res matches Some(t) && t@
                == self.tokens()[self.position()]),
            self.position() >= self.tokens().len() ==> res is None,
    {
        if self.index < self.tokens.len() {
            Some(self.tokens[self.index].as_str())
        } else {
            None
        }
    }
}

/// The characters that an escape stands for: `\n` is a line feed, `\"` a
/// double quote, `\\` a backslash; any other character keeps its
/// backslash.
pub open spec fn escape_chars(c: char) -> Seq<char> {
    if c == 'n' {
        seq!['\n']
    } else if c == '"' {
        seq!['"']
    } else if c == '\\' {
        seq!['\\']
    } else {
        seq!['\\', c]
    }
}

/// Decodes a string literal from index `i` on, after `acc`. The literal
/// must end with the first double quote that is not escaped, and that
/// quote must be its last character.
pub open spec fn unescape_from(t: Seq<char>, i: int, acc: Seq<char>) -> Option<Seq<char>>
    decreases t.len() - i,
{
    if i < 1 || i >= t.len() {
        None
    } else if t[i] == '"' {
        if i == t.len() - 1 {
            Some(acc)
        } else {
            None
        }
    } else if t[i] == '\\' {
        if i + 1 >= t.len() {
            None
        } else {
            unescape_from(t, i + 2, acc + escape_chars(t[i + 1]))
        }
    } else {
        unescape_from(t, i + 1, acc.push(t[i]))
    }
}

/// The contents of a string literal, quotes included in `t`.
pub open spec fn unescape(t: Seq<char>) -> Option<Seq<char>> {
    unescape_from(t, 1, Seq::empty())
}

/// Decodes a string literal.
pub fn transform_string(token: &Vec<char>) -> (res: Option<String>)
    ensures
        match unescape(token@) {
            Some(s) => res matches Some(r) && r@ == s,
            None => res is None,
        },
{
    let mut out: Vec<char> = Vec::new();
    let mut i: usize = 1;
    loop
        invariant
            1 <= i,
            unescape_from(token@, i as int, out@) == unescape(token@),
        decreases token.len() + 2 - i,
    {
        if i >= token.len() {
            return None;
        }
        let c = token[i];
        if c == '"' {
            if i == token.len() - 1 {
                return Some(string_of(&out));
            } else {
                return None;
            }
        } else if c == '\\' {
            if i + 1 >= token.len() {
                return None;
            }
            let e = token[i + 1];
            let ghost before = out@;
            if e == 'n' {
                out.push('\n');
            } else if e == '"' {
                out.push('"');
            } else if e == '\\' {
                out.push('\\');
            } else {
                out.push('\\');
                out.push(e);
            }
            assert(out@ =~= before + escape_chars(e));
            i += 2;
        } else {
            out.push(c);
            i += 1;
        }
    }
}

/// Whether a character is one of `0` to `9`.
pub open spec fn is_digit(c: char) -> bool {
    '0' <= c && c <= '9'
}

/// The number that a digit stands for.
pub open spec fn digit_value(c: char) -> int {
    c as u32 as int - 48
}

/// The number that the digits of `t` from `from` up to `upto` stand for.
pub open spec fn digits_value(t: Seq<char>, from: int, upto: int) -> int
    decreases upto - from,
{
    if upto <= from {
        0
    } else {
        digits_value(t, from, upto - 1) * 10 + digit_value(t[upto - 1])
    }
}

/// Whether `t` is an optional minus sign followed by one digit or more.
pub open spec fn is_integer_literal(t: Seq<char>) -> bool {
    let start: int = if t.len() > 0 && t[0] == '-' {
        1
    } else {
        0
    };
    t.len() > start && forall|i: int| start <= i < t.len() ==> is_digit(#[trigger] t[i])
}

/// The number that an integer literal stands for, where it fits a number
/// of the language.
pub open spec fn number_value(t: Seq<char>) -> Option<int> {
    if is_integer_literal(t) {
        let negative = t[0] == '-';
        let start: int = if negative {
            1
        } else {
            0
        };
        let magnitude = digits_value(t, start, t.len() as int);
        let n = if negative {
            -magnitude
        } else {
            magnitude
        };
        if i32::MIN <= n <= i32::MAX {
            Some(n)
        } else {
            None
        }
    } else {
        None
    }
}

/// More digits never make the number smaller.
pub proof fn lemma_digits_value_grows(t: Seq<char>, from: int, mid: int, upto: int)
    requires
        0 <= from <= mid <= upto <= t.len(),
        forall|i: int| from <= i < upto ==> is_digit(#[trigger] t[i]),
    ensures
        0 <= digits_value(t, from, mid) <= digits_value(t, from, upto),
    decreases upto - mid,
{
    if mid == from {
        lemma_digits_value_nonneg(t, from, upto);
    } else if mid < upto {
        lemma_digits_value_grows(t, from, mid, upto - 1);
        assert(is_digit(t[upto - 1]));
    } else {
        lemma_digits_value_nonneg(t, from, upto);
    }
}

/// Digits stand for a number that is not negative.
pub proof fn lemma_digits_value_nonneg(t: Seq<char>, from: int, upto: int)
    requires
        0 <= from <= upto <= t.len(),
        forall|i: int| from <= i < upto ==> is_digit(#[trigger] t[i]),
    ensures
        0 <= digits_value(t, from, upto),
    decreases upto - from,
{
    if from < upto {
        lemma_digits_value_nonneg(t, from, upto - 1);
        assert(is_digit(t[upto - 1]));
    }
}

/// Reads an integer literal.
pub fn parse_number(token: &Vec<char>) -> (res: Option<i32>)
    ensures
        match number_value(token@) {
            Some(n) => res == Some(n as i32),
            None => res is None,
        },
{
    let negative = token.len() > 0 && token[0] == '-';
    let start: usize = if negative {
        1
    } else {
        0
    };
    if token.len() <= start {
        return None;
    }
    let mut acc: i64 = 0;
    let mut i: usize = start;
    while i < token.len()
        invariant
            start <= i <= token.len(),
            start == (if token@.len() > 0 && token@[0] == '-' { 1int } else { 0int }),
            forall|j: int| start <= j < i ==> is_digit(#[trigger] token@[j]),
            acc == digits_value(token@, start as int, i as int),
            0 <= acc <= 2147483648,
        decreases token.len() - i,
    {
        let c = token[i];
        if !('0' <= c && c <= '9') {
            assert(!is_digit(token@[i as int]));
            return None;
        }
        let d: i64 = (c as u32) as i64 - 48;
        let next: i64 = acc * 10 + d;
        if next > 2147483648 {
            proof {
                if is_integer_literal(token@) {
                    lemma_digits_value_grows(
                        token@,
                        start as int,
                        i as int + 1,
                        token@.len() as int,
                    );
                }
            }
            return None;
        }
        acc = next;
        i += 1;
    }
    if negative {
        Some((-acc) as i32)
    } else if acc <= 2147483647 {
        Some(acc as i32)
    } else {
        None
    }
}

/// The message for a string literal that is not closed.
pub open spec fn err_unterminated_string() -> Seq<char> {
    "expected '\"', got EOF"@
}

/// The message for an integer literal that is too large or too small.
pub open spec fn err_number_range() -> Seq<char> {
    "number out of range"@
}

/// The message for a closing bracket without its opening one.
pub open spec fn err_unbalanced() -> Seq<char> {
    "unbalanced parenthesis"@
}

/// The message for reading an atom where the tokens have ended.
pub open spec fn err_no_atom() -> Seq<char> {
    "failed to read atom"@
}

/// The message for a sequence that is not closed.
pub open spec fn err_eof(close: Seq<char>) -> Seq<char> {
    "expected '"@ + close + "', got EOF"@
}

/// The value of a token that opens or closes nothing.
pub open spec fn read_atom_spec(t: Seq<char>) -> Result<Value, Seq<char>> {
    if t.len() > 0 && t[0] == '"' {
        match unescape(t) {
            Some(s) => Ok(Value::String(s)),
            None => Err(err_unterminated_string()),
        }
    } else if t == "nil"@ {
        Ok(Value::Nil)
    } else if t == "true"@ {
        Ok(Value::True)
    } else if t == "false"@ {
        Ok(Value::False)
    } else if t.len() == 0 {
        Ok(Value::Nothing)
    } else if is_integer_literal(t) {
        match number_value(t) {
            Some(n) => Ok(Value::Number(n)),
            None => Err(err_number_range()),
        }
    } else if t[0] == ':' {
        Ok(Value::Keyword(seq![keyword_prefix()] + t.subrange(1, t.len() as int)))
    } else {
        Ok(Value::Symbol(t))
    }
}

/// The symbol that a reader macro puts in front of the form after it.
pub open spec fn macro_symbol(t: Seq<char>) -> Option<Seq<char>> {
    if t == "@"@ {
        Some("deref"@)
    } else if t == "'"@ {
        Some("quote"@)
    } else if t == "`"@ {
        Some("quasiquote"@)
    } else if t == "~"@ {
        Some("unquote"@)
    } else if t == "~@"@ {
        Some("splice-unquote"@)
    } else {
        None
    }
}

/// The token that closes what `t` opens.
pub open spec fn closer_of(t: Seq<char>) -> Option<Seq<char>> {
    if t == "("@ {
        Some(")"@)
    } else if t == "["@ {
        Some("]"@)
    } else if t == "{"@ {
        Some("}"@)
    } else {
        None
    }
}

/// Whether `t` closes a sequence.
pub open spec fn is_closer(t: Seq<char>) -> bool {
    t == ")"@ || t == "]"@ || t == "}"@
}

/// The sequence that the items make, by the bracket that closed it.
pub open spec fn finish_list(close: Seq<char>, items: Seq<Value>) -> Result<Value, Seq<char>> {
    if close == ")"@ {
        Ok(Value::List(items))
    } else if close == "]"@ {
        Ok(Value::Vector(items))
    } else {
        match map_from_kvs(Seq::empty(), items, 0) {
            Ok(entries) => Ok(Value::HashMap(entries)),
            Err(msg) => Err(msg),
        }
    }
}

/// Reads one form from the tokens at `pos`: the form or an error, and
/// the position after it. Where the tokens have ended, the form is the
/// empty reader result.
pub open spec fn read_form_spec(tokens: Seq<Seq<char>>, pos: int) -> (Result<Value, Seq<char>>, int)
    decreases tokens.len() - pos, 0nat,
{
    if pos < 0 || pos >= tokens.len() {
        (Ok(Value::Nothing), pos)
    } else {
        let t = tokens[pos];
        if closer_of(t) is Some {
            read_list_spec(tokens, pos + 1, closer_of(t)->0, Seq::empty())
        } else if is_closer(t) {
            (Err(err_unbalanced()), pos)
        } else if macro_symbol(t) is Some {
            let (r, p) = read_form_spec(tokens, pos + 1);
            match r {
                Ok(v) => (Ok(Value::List(seq![Value::Symbol(macro_symbol(t)->0), v])), p),
                Err(e) => (Err(e), p),
            }
        } else {
            (read_atom_spec(t), pos + 1)
        }
    }
}

/// Reads forms from the tokens at `pos` up to the token `close`, after
/// the items already read.
pub open spec fn read_list_spec(
    tokens: Seq<Seq<char>>,
    pos: int,
    close: Seq<char>,
    items: Seq<Value>,
) -> (Result<Value, Seq<char>>, int)
    decreases tokens.len() - pos, 1nat,
{
    if pos < 0 || pos >= tokens.len() {
        (Err(err_eof(close)), pos)
    } else if tokens[pos] == close {
        (finish_list(close, items), pos + 1)
    } else {
        let (r, p) = read_form_spec(tokens, pos);
        match r {
            Err(e) => (Err(e), p),
            Ok(v) => if pos < p <= tokens.len() {
                read_list_spec(tokens, p, close, items.push(v))
            } else {
                (Err(err_eof(close)), p)
            },
        }
    }
}

/// The form that a text holds: the first form of its tokens, comments
/// left out.
pub open spec fn read_str_spec(input: Seq<char>) -> Result<Value, Seq<char>> {
    read_form_spec(without_comments(tokens_of(input)), 0).0
}

/// Reads the token at the cursor as an atom.
fn read_atom(reader: &mut Reader) -> (res: Result<MalData, String>)
    ensures
        final(reader).tokens() == old(reader).tokens(),
        old(reader).position() < old(reader).tokens().len() ==> final(reader).position() == old(reader).position() + 1 && result_view(res) == read_atom_spec(
            old(reader).tokens()[old(reader).position()],
        ),
        old(reader).position() >= old(reader).tokens().len() ==> final(reader).position() == old(reader).position() && result_view(res) == Err::<Value, Seq<char>>(err_no_atom()),
{
    let token = match reader.next() {
        Some(token) => token,
        None => {
            return Err("failed to read atom".to_string());
        },
    };
    let chars = chars_of(token.as_str());
    if chars.len() > 0 && chars[0] == '"' {
        match transform_string(&chars) {
            Some(s) => Ok(MalData::String(s)),
            None => Err("expected '\"', got EOF".to_string()),
        }
    } else if str_eq(token.as_str(), "nil") {
        Ok(MalData::Nil)
    } else if str_eq(token.as_str(), "true") {
        Ok(MalData::True)
    } else if str_eq(token.as_str(), "false") {
        Ok(MalData::False)
    } else if chars.len() == 0 {
        Ok(MalData::Nothing)
    } else if is_match("^-?[0-9]+$", token.as_str()) {
        match parse_number(&chars) {
            Some(n) => Ok(MalData::Number(n)),
            None => Err("number out of range".to_string()),
        }
    } else if chars[0] == ':' {
        let mut name: Vec<char> = Vec::new();
        let mut i: usize = 1;
        while i < chars.len()
            invariant
                1 <= i <= chars.len(),
                name@ == chars@.subrange(1, i as int),
            decreases chars.len() - i,
        {
            name.push(chars[i]);
            assert(name@ =~= chars@.subrange(1, i as int + 1));
            i += 1;
        }
        let name = string_of(&name);
        Ok(make_mal_keyword(name.as_str()))
    } else {
        Ok(make_mal_symbol(token.as_str()))
    }
}

/// The symbol of a reader macro.
fn macro_symbol_of(token: &str) -> (res: Option<&'static str>)
    ensures
        match macro_symbol(token@) {
            Some(name) => res matches Some(r) && r@ == name,
            None => res is None,
        },
{
    if str_eq(token, "@") {
        Some("deref")
    } else if str_eq(token, "'") {
        Some("quote")
    } else if str_eq(token, "`") {
        Some("quasiquote")
    } else if str_eq(token, "~") {
        Some("unquote")
    } else if str_eq(token, "~@") {
        Some("splice-unquote")
    } else {
        None
    }
}

/// The closing bracket for an opening one.
fn closer_for(token: &str) -> (res: Option<&'static str>)
    ensures
        match closer_of(token@) {
            Some(c) => res matches Some(r) && r@ == c,
            None => res is None,
        },
{
    if str_eq(token, "(") {
        Some(")")
    } else if str_eq(token, "[") {
        Some("]")
    } else if str_eq(token, "{") {
        Some("}")
    } else {
        None
    }
}

/// Reads one form at the cursor.
fn read_form(reader: &mut Reader) -> (res: Result<MalData, String>)
    ensures
        final(reader).tokens() == old(reader).tokens(),
        (result_view(res), final(reader).position()) == read_form_spec(
            old(reader).tokens(),
            old(reader).position(),
        ),
        final(reader).position() >= old(reader).position(),
        old(reader).position() <= old(reader).tokens().len() ==> final(reader).position() <= old(
            reader).tokens().len(),
        (res is Ok && old(reader).position() < old(reader).tokens().len()) ==> final(
            reader).position() > old(reader).position(),
    decreases old(reader).tokens().len() - old(reader).position(), 0nat,
{
    let (closer, symbol, unbalanced) = match reader.peek() {
        None => {
            return Ok(MalData::Nothing);
        },
        Some(token) => (
            closer_for(token),
            macro_symbol_of(token),
            str_eq(token, ")") || str_eq(token, "]") || str_eq(token, "}"),
        ),
    };
    if let Some(close) = closer {
        reader.next();
        read_list(reader, close)
    } else if unbalanced {
        Err("unbalanced parenthesis".to_string())
    } else if let Some(name) = symbol {
        reader.next();
        match read_form(reader) {
            Ok(form) => {
                let mut list: Vec<MalData> = Vec::new();
                list.push(make_mal_symbol(name));
                list.push(form);
                let res = make_mal_list_from_vec(list);
                assert(res@->List_0 =~= seq![Value::Symbol(name@), form@]);
                Ok(res)
            },
            Err(e) => Err(e),
        }
    } else {
        read_atom(reader)
    }
}

/// Reads forms up to the closing bracket `delim`.
fn read_list(reader: &mut Reader, delim: &str) -> (res: Result<MalData, String>)
    ensures
        final(reader).tokens() == old(reader).tokens(),
        (result_view(res), final(reader).position()) == read_list_spec(
            old(reader).tokens(),
            old(reader).position(),
            delim@,
            Seq::empty(),
        ),
        final(reader).position() >= old(reader).position(),
        old(reader).position() <= old(reader).tokens().len() ==> final(reader).position() <= old(
            reader).tokens().len(),
        res is Ok ==> final(reader).position() > old(reader).position(),
    decreases old(reader).tokens().len() - old(reader).position(), 1nat,
{
    let mut items: Vec<MalData> = Vec::new();
    let ghost tokens = reader.tokens();
    let ghost start = reader.position();
    assert(values_view(items@) =~= Seq::empty());
    loop
        invariant
            reader.tokens() == tokens,
            tokens == old(reader).tokens(),
            start == old(reader).position(),
            reader.position() >= start,
            start <= tokens.len() ==> reader.position() <= tokens.len(),
            read_list_spec(tokens, reader.position(), delim@, values_view(items@))
                == read_list_spec(tokens, start, delim@, Seq::empty()),
        decreases tokens.len() - reader.position(),
    {
        let closes = match reader.peek() {
            None => {
                let mut msg = "expected '".to_string();
                msg.append(delim);
                msg.append("', got EOF");
                return Err(msg);
            },
            Some(token) => str_eq(token, delim),
        };
        if closes {
            reader.next();
            if str_eq(delim, ")") {
                return Ok(make_mal_list_from_vec(items));
            } else if str_eq(delim, "]") {
                let res = MalData::Vector(Rc::new(items));
                proof {
                    crate::common::lemma_list_view(res);
                }
                return Ok(res);
            } else {
                return make_mal_map_from_kv_list(items.as_slice());
            }
        }
        let ghost before = reader.position();
        match read_form(reader) {
            Ok(form) => {
                let ghost held = values_view(items@);
                items.push(form);
                assert(values_view(items@) =~= held.push(form@));
            },
            Err(e) => {
                return Err(e);
            },
        }
    }
}

/// Reads the first form from the given tokens, comments left out.
pub fn read_tokens(tokens: &Vec<String>) -> (res: Result<MalData, String>)
    ensures
        result_view(res) == read_form_spec(without_comments(strings_view(tokens@)), 0).0,
{
    let mut reader = Reader::new(tokens);
    read_form(&mut reader)
}

/// Reads the first form of a text.
pub fn read_str(input: &str) -> (res: Result<MalData, String>)
    ensures
        result_view(res) == read_str_spec(input@),
{
    let tokens = tokenizer(input);
    read_tokens(&tokens)
}

} // verus!
