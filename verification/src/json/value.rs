//! JSON values as plain data.

use crate::json::pk;
use crate::text;
use vstd::prelude::*;
use vstd::string::*;

verus! {

/// A JSON number: an unsigned integer, a negative one, or a finite float as
/// its bits and its JSON text.
#[derive(Debug)]
pub enum Number {
    Unsigned(u64),
    Negative(i64),
    Float { bits: u64, text: String },
}

/// A JSON value; an object's entries have different keys, in the object's
/// order.
#[derive(Debug)]
pub enum Json {
    Null,
    Bool(bool),
    Number(Number),
    Text(String),
    Array(Vec<Json>),
    Object(Vec<(String, Json)>),
}

/// What a JSON number is.
pub enum Num {
    Unsigned(u64),
    Negative(i64),
    Float { bits: u64, text: Seq<char> },
}

/// What a JSON value is.
pub enum Tree {
    Null,
    Bool(bool),
    Number(Num),
    Text(Seq<char>),
    Array(Seq<Tree>),
    Object(Seq<(Seq<char>, Tree)>),
}

impl View for Number {
    type V = Num;

    open spec fn view(&self) -> Num {
        match self {
            Number::Unsigned(n) => Num::Unsigned(*n),
            Number::Negative(n) => Num::Negative(*n),
            Number::Float { bits, text } => Num::Float { bits: *bits, text: text@ },
        }
    }
}

impl Number {
    /// The number in JSON.
    pub fn text(&self) -> (r: String)
        ensures
            r@ == number_text(self@),
    {
        match self {
            Number::Unsigned(n) => text::dec(*n),
            Number::Negative(n) => text::dec_i64(*n),
            Number::Float { text, .. } => text.clone(),
        }
    }

    /// A copy of the number.
    pub fn copy(&self) -> (r: Number)
        ensures
            r@ == self@,
    {
        match self {
            Number::Unsigned(n) => Number::Unsigned(*n),
            Number::Negative(n) => Number::Negative(*n),
            Number::Float { bits, text } => Number::Float { bits: *bits, text: text.clone() },
        }
    }
}

impl View for Json {
    type V = Tree;

    open spec fn view(&self) -> Tree {
        tree(*self)
    }
}

/// The value that `j` holds.
pub open spec fn tree(j: Json) -> Tree
    decreases j,
{
    match j {
        Json::Null => Tree::Null,
        Json::Bool(b) => Tree::Bool(b),
        Json::Number(n) => Tree::Number(n@),
        Json::Text(s) => Tree::Text(s@),
        Json::Array(items) => Tree::Array(
            Seq::new(
                items@.len(),
                |i: int|
                    if 0 <= i < items@.len() {
                        tree(items@[i])
                    } else {
                        Tree::Null
                    },
            ),
        ),
        Json::Object(entries) => Tree::Object(
            Seq::new(
                entries@.len(),
                |i: int|
                    if 0 <= i < entries@.len() {
                        (entries@[i].0@, tree(entries@[i].1))
                    } else {
                        (Seq::empty(), Tree::Null)
                    },
            ),
        ),
    }
}

/// The entries of an object.
pub open spec fn entries_of(entries: Seq<(String, Json)>) -> Seq<(Seq<char>, Tree)> {
    Seq::new(entries.len(), |i: int| (entries[i].0@, entries[i].1@))
}

/// The items of an array.
pub open spec fn items_of(items: Seq<Json>) -> Seq<Tree> {
    Seq::new(items.len(), |i: int| items[i]@)
}

/// The view of an object, entry by entry.
pub broadcast proof fn view_object(entries: Vec<(String, Json)>)
    ensures
        #[trigger] tree(Json::Object(entries)) == Tree::Object(entries_of(entries@)),
{
    assert(tree(Json::Object(entries))->Object_0 =~= entries_of(entries@));
}

/// The view of an array, item by item.
pub broadcast proof fn view_array(items: Vec<Json>)
    ensures
        #[trigger] tree(Json::Array(items)) == Tree::Array(items_of(items@)),
{
    assert(tree(Json::Array(items))->Array_0 =~= items_of(items@));
}

/// The value of `key` among `entries`.
pub open spec fn lookup(entries: Seq<(Seq<char>, Tree)>, key: Seq<char>) -> Option<Tree>
    decreases entries.len(),
{
    if entries.len() == 0 {
        None
    } else if entries[0].0 == key {
        Some(entries[0].1)
    } else {
        lookup(entries.drop_first(), key)
    }
}

/// The text of a value that is a string.
pub open spec fn string_in(t: Option<Tree>) -> Option<Seq<char>> {
    match t {
        Some(Tree::Text(s)) => Some(s),
        _ => None,
    }
}

/// A number in JSON.
pub open spec fn number_text(n: Num) -> Seq<char> {
    match n {
        Num::Unsigned(n) => text::decimal(n as nat),
        Num::Negative(n) => text::decimal_int(n as int),
        Num::Float { text, .. } => text,
    }
}

/// The unsigned integer that a number is, if it is one.
pub open spec fn num_u64(n: Num) -> Option<u64> {
    match n {
        Num::Unsigned(n) => Some(n),
        _ => None,
    }
}

/// The signed integer that a number is, if it is one that fits.
pub open spec fn num_i64(n: Num) -> Option<i64> {
    match n {
        Num::Unsigned(n) => if n <= i64::MAX {
            Some(n as i64)
        } else {
            None
        },
        Num::Negative(n) => Some(n),
        Num::Float { .. } => None,
    }
}

/// A character inside a JSON string: quotes, backslashes and control
/// characters are escaped.
pub open spec fn json_escaped(c: char) -> Seq<char> {
    let n = c as int;
    if c == '"' || c == '\\' {
        seq!['\\', c]
    } else if n == 8 {
        seq!['\\', 'b']
    } else if n == 9 {
        seq!['\\', 't']
    } else if n == 10 {
        seq!['\\', 'n']
    } else if n == 12 {
        seq!['\\', 'f']
    } else if n == 13 {
        seq!['\\', 'r']
    } else if n < 32 {
        seq!['\\', 'u', '0', '0', pk::hex_digit(n / 16), pk::hex_digit(n % 16)]
    } else {
        seq![c]
    }
}

/// The characters of a JSON string.
pub open spec fn json_escapes(s: Seq<char>) -> Seq<char>
    decreases s.len(),
{
    if s.len() == 0 {
        Seq::empty()
    } else {
        json_escapes(s.drop_last()) + json_escaped(s.last())
    }
}

/// A string in JSON, with its quotes.
pub open spec fn json_quoted(s: Seq<char>) -> Seq<char> {
    seq!['"'] + json_escapes(s) + seq!['"']
}

/// `serde_json::to_string` of a string: its JSON text with the quotes.
#[verifier::external_body]
pub(crate) fn quoted(s: &str) -> (r: String)
    ensures
        r@ == json_quoted(s@),
{
    serde_json::to_string(s).unwrap_or_default()
}

/// The compact JSON text of a value.
pub open spec fn json_text(t: Tree) -> Seq<char>
    decreases t, 0nat,
{
    match t {
        Tree::Null => "null"@,
        Tree::Bool(b) => if b {
            "true"@
        } else {
            "false"@
        },
        Tree::Number(n) => number_text(n),
        Tree::Text(s) => json_quoted(s),
        Tree::Array(items) => "["@ + items_text(items, items.len()) + "]"@,
        Tree::Object(entries) => "{"@ + entries_text(entries, entries.len()) + "}"@,
    }
}

/// The first `n` items of an array, separated by commas.
pub open spec fn items_text(items: Seq<Tree>, n: nat) -> Seq<char>
    decreases items, n,
{
    if n == 0 || n > items.len() {
        ""@
    } else if n == 1 {
        json_text(items[0])
    } else {
        items_text(items, (n - 1) as nat) + ","@ + json_text(items[n - 1])
    }
}

/// The first `n` entries of an object, separated by commas.
pub open spec fn entries_text(entries: Seq<(Seq<char>, Tree)>, n: nat) -> Seq<char>
    decreases entries, n,
{
    if n == 0 || n > entries.len() {
        ""@
    } else if n == 1 {
        json_quoted(entries[0].0) + ":"@ + json_text(entries[0].1)
    } else {
        entries_text(entries, (n - 1) as nat) + ","@ + (json_quoted(entries[n - 1].0) + ":"@
            + json_text(entries[n - 1].1))
    }
}

/// The value of `key` among `entries`.
pub fn find<'a>(entries: &'a Vec<(String, Json)>, key: &str) -> (r: Option<&'a Json>)
    ensures
        match r {
            Some(j) => lookup(entries_of(entries@), key@) == Some(j@),
            None => lookup(entries_of(entries@), key@) is None,
        },
{
    let mut i: usize = 0;
    proof {
        assert(entries_of(entries@).skip(0) =~= entries_of(entries@));
    }
    while i < entries.len()
        invariant
            i <= entries@.len(),
            lookup(entries_of(entries@), key@) == lookup(
                entries_of(entries@).skip(i as int),
                key@,
            ),
        decreases entries.len() - i,
    {
        let ghost rest = entries_of(entries@).skip(i as int);
        proof {
            assert(rest.drop_first() =~= entries_of(entries@).skip(i as int + 1));
            assert(rest[0] == (entries@[i as int].0@, entries@[i as int].1@));
        }
        if text::same(entries[i].0.as_str(), key) {
            return Some(&entries[i].1);
        }
        i += 1;
    }
    None
}

impl Json {
    /// A copy of the value.
    pub fn copy(&self) -> (r: Json)
        ensures
            r@ == self@,
        decreases self,
    {
        broadcast use view_object, view_array;

        match self {
            Json::Null => Json::Null,
            Json::Bool(b) => Json::Bool(*b),
            Json::Number(n) => Json::Number(n.copy()),
            Json::Text(s) => Json::Text(s.clone()),
            Json::Array(items) => {
                let mut out: Vec<Json> = Vec::new();
                let mut i: usize = 0;
                while i < items.len()
                    invariant
                        i <= items@.len(),
                        out@.len() == i,
                        forall|j: int| 0 <= j < i ==> out@[j]@ == items@[j]@,
                        *self == Json::Array(*items),
                    decreases items.len() - i,
                {
                    assert(decreases_to!(*self => self->Array_0));
                    assert(decreases_to!(*items => items@));
                    assert(decreases_to!(items@ => items@[i as int]));
                    out.push(items[i].copy());
                    i += 1;
                }
                proof {
                    assert(items_of(out@) =~= items_of(items@));
                }
                Json::Array(out)
            },
            Json::Object(entries) => {
                let mut out: Vec<(String, Json)> = Vec::new();
                let mut i: usize = 0;
                while i < entries.len()
                    invariant
                        i <= entries@.len(),
                        out@.len() == i,
                        forall|j: int|
                            0 <= j < i ==> (#[trigger] out@[j]).0@ == entries@[j].0@ && out@[j].1@
                                == entries@[j].1@,
                        *self == Json::Object(*entries),
                    decreases entries.len() - i,
                {
                    assert(decreases_to!(*self => self->Object_0));
                    assert(decreases_to!(*entries => entries@));
                    assert(decreases_to!(entries@ => entries@[i as int]));
                    assert(decreases_to!(entries@[i as int] => entries@[i as int].1));
                    out.push((entries[i].0.clone(), entries[i].1.copy()));
                    i += 1;
                }
                proof {
                    assert(entries_of(out@) =~= entries_of(entries@));
                }
                Json::Object(out)
            },
        }
    }

    /// The compact JSON text of the value.
    pub fn text(&self) -> (r: String)
        ensures
            r@ == json_text(self@),
        decreases self,
    {
        broadcast use view_object, view_array;

        match self {
            Json::Null => "null".to_owned(),
            Json::Bool(b) => if *b {
                "true".to_owned()
            } else {
                "false".to_owned()
            },
            Json::Number(n) => n.text(),
            Json::Text(s) => quoted(s.as_str()),
            Json::Array(items) => {
                let ghost all = items_of(items@);
                let mut body = "".to_owned();
                let mut i: usize = 0;
                while i < items.len()
                    invariant
                        i <= items@.len(),
                        all == items_of(items@),
                        body@ == items_text(all, i as nat),
                        *self == Json::Array(*items),
                    decreases items.len() - i,
                {
                    assert(decreases_to!(*self => self->Array_0));
                    assert(decreases_to!(*items => items@));
                    assert(decreases_to!(items@ => items@[i as int]));
                    let item = items[i].text();
                    if i == 0 {
                        body = item;
                    } else {
                        body.append(",");
                        body.append(item.as_str());
                    }
                    i += 1;
                }
                text::cat3("[", body.as_str(), "]")
            },
            Json::Object(entries) => {
                let ghost all = entries_of(entries@);
                let mut body = "".to_owned();
                let mut i: usize = 0;
                while i < entries.len()
                    invariant
                        i <= entries@.len(),
                        all == entries_of(entries@),
                        body@ == entries_text(all, i as nat),
                        *self == Json::Object(*entries),
                    decreases entries.len() - i,
                {
                    assert(decreases_to!(*self => self->Object_0));
                    assert(decreases_to!(*entries => entries@));
                    assert(decreases_to!(entries@ => entries@[i as int]));
                    assert(decreases_to!(entries@[i as int] => entries@[i as int].1));
                    let name = quoted(entries[i].0.as_str());
                    let value = entries[i].1.text();
                    let entry = text::cat3(name.as_str(), ":", value.as_str());
                    if i == 0 {
                        body = entry;
                    } else {
                        body.append(",");
                        body.append(entry.as_str());
                    }
                    i += 1;
                }
                text::cat3("{", body.as_str(), "}")
            },
        }
    }

    /// The entries of an object.
    pub fn as_object(&self) -> (r: Option<&Vec<(String, Json)>>)
        ensures
            match r {
                Some(entries) => self@ == Tree::Object(entries_of(entries@)),
                None => !(self@ is Object),
            },
    {
        broadcast use view_object, view_array;

        match self {
            Json::Object(entries) => Some(entries),
            _ => None,
        }
    }

    /// The items of an array.
    pub fn as_array(&self) -> (r: Option<&Vec<Json>>)
        ensures
            match r {
                Some(items) => self@ == Tree::Array(items_of(items@)),
                None => !(self@ is Array),
            },
    {
        broadcast use view_object, view_array;

        match self {
            Json::Array(items) => Some(items),
            _ => None,
        }
    }

    /// The text of a string.
    pub fn as_str(&self) -> (r: Option<&str>)
        ensures
            match r {
                Some(s) => self@ == Tree::Text(s@),
                None => !(self@ is Text),
            },
    {
        match self {
            Json::Text(s) => Some(s.as_str()),
            _ => None,
        }
    }

    /// The unsigned integer that the value is.
    pub fn as_u64(&self) -> (r: Option<u64>)
        ensures
            r == (match self@ {
                Tree::Number(n) => num_u64(n),
                _ => None,
            }),
    {
        match self {
            Json::Number(Number::Unsigned(n)) => Some(*n),
            _ => None,
        }
    }

    /// The truth value that the value is.
    pub fn as_bool(&self) -> (r: Option<bool>)
        ensures
            r == (match self@ {
                Tree::Bool(b) => Some(b),
                _ => None,
            }),
    {
        match self {
            Json::Bool(b) => Some(*b),
            _ => None,
        }
    }
}

/// A JSON string.
pub fn string(s: &str) -> (r: Json)
    ensures
        r@ == Tree::Text(s@),
{
    Json::Text(s.to_owned())
}

} // verus!
