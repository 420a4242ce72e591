//! Reading an object's keys: unknown ones are refused, the others have a
//! type.

use crate::error;
use crate::error::{Failure, ServiceError};
use crate::json::value;
use crate::json::value::{Json, Tree};
use crate::text;
use vstd::prelude::*;
use vstd::string::*;

verus! {

broadcast use {crate::json::value::view_object, crate::json::value::view_array};

/// An invalid argument.
pub open spec fn invalid(m: Seq<char>) -> Failure {
    Failure::InvalidArgument(m)
}

/// The texts of some names.
pub open spec fn strs(s: Seq<&'static str>) -> Seq<Seq<char>> {
    Seq::new(s.len(), |i: int| s[i]@)
}

/// The first key that is not allowed, from the `i`-th on.
pub open spec fn unknown_key(
    es: Seq<(Seq<char>, Tree)>,
    allowed: Seq<Seq<char>>,
    i: int,
) -> Option<Seq<char>>
    decreases es.len() - i,
{
    if i < 0 || i >= es.len() {
        None
    } else if !allowed.contains(es[i].0) {
        Some(es[i].0)
    } else {
        unknown_key(es, allowed, i + 1)
    }
}

/// The error of a key that is not allowed.
pub open spec fn bad_key(key: Seq<char>, what: Seq<char>) -> Failure {
    invalid("unknown key "@ + key + " in "@ + what)
}

/// The entries of an object without other keys than the allowed.
pub open spec fn object_in(t: Tree, what: Seq<char>, allowed: Seq<Seq<char>>) -> Result<
    Seq<(Seq<char>, Tree)>,
    Failure,
> {
    match t {
        Tree::Object(es) => match unknown_key(es, allowed, 0) {
            Some(key) => Err(bad_key(key, what)),
            None => Ok(es),
        },
        _ => Err(invalid(what + " must be an object, got "@ + value::json_text(t))),
    }
}

fn is_allowed(key: &str, allowed: &[&'static str]) -> (r: bool)
    ensures
        r == strs(allowed@).contains(key@),
{
    let ghost names = strs(allowed@);
    let mut i: usize = 0;
    while i < allowed.len()
        invariant
            i <= allowed@.len(),
            names == strs(allowed@),
            forall|j: int| 0 <= j < i ==> names[j] != key@,
        decreases allowed.len() - i,
    {
        if text::same(key, allowed[i]) {
            assert(names[i as int] == key@);
            return true;
        }
        i += 1;
    }
    false
}

/// The place of the first key that is not allowed.
pub fn find_unknown(es: &Vec<(String, Json)>, allowed: &[&'static str]) -> (r: Option<usize>)
    ensures
        match r {
            Some(i) => i < es@.len() && unknown_key(value::entries_of(es@), strs(allowed@), 0)
                == Some(es@[i as int].0@),
            None => unknown_key(value::entries_of(es@), strs(allowed@), 0) is None,
        },
{
    let ghost ev = value::entries_of(es@);
    let mut i: usize = 0;
    while i < es.len()
        invariant
            i <= es@.len(),
            ev == value::entries_of(es@),
            unknown_key(ev, strs(allowed@), 0) == unknown_key(ev, strs(allowed@), i as int),
        decreases es.len() - i,
    {
        assert(ev[i as int].0 == es@[i as int].0@);
        if !is_allowed(&es[i].0, allowed) {
            return Some(i);
        }
        i += 1;
    }
    None
}

/// The error of a key that is not allowed.
pub fn unknown(key: &str, what: &str) -> (r: ServiceError)
    ensures
        r@ == bad_key(key@, what@),
{
    let mut m = text::cat3("unknown key ", key, " in ");
    m.append(what);
    error::invalid(m)
}

/// The value of a key, none when it is missing or null.
pub open spec fn present(es: Seq<(Seq<char>, Tree)>, key: Seq<char>) -> Option<Tree> {
    match value::lookup(es, key) {
        Some(Tree::Null) => None,
        other => other,
    }
}

/// The error of a key of the wrong type.
pub open spec fn wrong_key(what: Seq<char>, key: Seq<char>, expected: Seq<char>) -> Failure {
    invalid(what + "."@ + key + " must be "@ + expected)
}

/// The error of a missing key.
pub open spec fn missing_key(what: Seq<char>, key: Seq<char>) -> Failure {
    invalid(what + " needs "@ + key)
}

/// The text of a key, if it is there.
pub open spec fn text_in(es: Seq<(Seq<char>, Tree)>, what: Seq<char>, key: Seq<char>) -> Result<
    Option<Seq<char>>,
    Failure,
> {
    match present(es, key) {
        None => Ok(None),
        Some(Tree::Text(s)) => Ok(Some(s)),
        Some(_) => Err(wrong_key(what, key, "a string"@)),
    }
}

/// The text of a key that must be there.
pub open spec fn needed_text(
    es: Seq<(Seq<char>, Tree)>,
    what: Seq<char>,
    key: Seq<char>,
) -> Result<Seq<char>, Failure> {
    match text_in(es, what, key) {
        Err(e) => Err(e),
        Ok(Some(s)) => Ok(s),
        Ok(None) => Err(missing_key(what, key)),
    }
}

/// The truth of a key, else a default.
pub open spec fn bool_in(
    es: Seq<(Seq<char>, Tree)>,
    what: Seq<char>,
    key: Seq<char>,
    default: bool,
) -> Result<bool, Failure> {
    match present(es, key) {
        None => Ok(default),
        Some(Tree::Bool(b)) => Ok(b),
        Some(_) => Err(wrong_key(what, key, "a bool"@)),
    }
}

/// An unsigned integer of at most `most` as a value.
pub open spec fn small_number(t: Tree, most: u64) -> Option<u64> {
    match t {
        Tree::Number(n) => match value::num_u64(n) {
            Some(u) => if u <= most {
                Some(u)
            } else {
                None
            },
            None => None,
        },
        _ => None,
    }
}

/// The 32-bit number of a key, if it is there.
pub open spec fn u32_in(es: Seq<(Seq<char>, Tree)>, what: Seq<char>, key: Seq<char>) -> Result<
    Option<u32>,
    Failure,
> {
    match present(es, key) {
        None => Ok(None),
        Some(t) => match small_number(t, u32::MAX as u64) {
            Some(n) => Ok(Some(n as u32)),
            None => Err(wrong_key(what, key, "an unsigned 32-bit integer"@)),
        },
    }
}

/// The 8-bit number of a key, else a default.
pub open spec fn u8_in(
    es: Seq<(Seq<char>, Tree)>,
    what: Seq<char>,
    key: Seq<char>,
    default: u8,
) -> Result<u8, Failure> {
    match present(es, key) {
        None => Ok(default),
        Some(t) => match small_number(t, u8::MAX as u64) {
            Some(n) => Ok(n as u8),
            None => Err(wrong_key(what, key, "an unsigned 8-bit integer"@)),
        },
    }
}

/// The items of a key, none when it is missing.
pub open spec fn list_in(es: Seq<(Seq<char>, Tree)>, what: Seq<char>, key: Seq<char>) -> Result<
    Seq<Tree>,
    Failure,
> {
    match present(es, key) {
        None => Ok(Seq::empty()),
        Some(Tree::Array(items)) => Ok(items),
        Some(_) => Err(wrong_key(what, key, "a list"@)),
    }
}

/// An object that is being read.
pub struct Obj<'a> {
    pub map: &'a Vec<(String, Json)>,
    pub what: &'static str,
}

impl<'a> Obj<'a> {
    /// The entries of the object.
    pub open spec fn es(&self) -> Seq<(Seq<char>, Tree)> {
        value::entries_of(self.map@)
    }

    /// An object, without other keys than the allowed.
    pub fn new(v: &'a Json, what: &'static str, allowed: &[&'static str]) -> (r: Result<
        Obj<'a>,
        ServiceError,
    >)
        ensures
            match r {
                Ok(o) => o.what@ == what@ && object_in(v@, what@, strs(allowed@)) == Ok::<
                    Seq<(Seq<char>, Tree)>,
                    Failure,
                >(o.es()),
                Err(e) => object_in(v@, what@, strs(allowed@)) == Err::<
                    Seq<(Seq<char>, Tree)>,
                    Failure,
                >(e@),
            },
    {
        match v {
            Json::Object(map) => match find_unknown(map, allowed) {
                Some(i) => Err(unknown(&map[i].0, what)),
                None => Ok(Obj { map, what }),
            },
            _ => Err(
                error::invalid(text::cat3(what, " must be an object, got ", &v.text())),
            ),
        }
    }

    /// The value of a key, none when it is missing or null.
    pub fn get(&self, key: &str) -> (r: Option<&'a Json>)
        ensures
            match r {
                Some(v) => present(self.es(), key@) == Some(v@),
                None => present(self.es(), key@) is None,
            },
    {
        match value::find(self.map, key) {
            Some(v) => match v {
                Json::Null => None,
                _ => Some(v),
            },
            None => None,
        }
    }

    /// The error of a key of the wrong type.
    pub fn wrong(&self, key: &str, expected: &str) -> (r: ServiceError)
        ensures
            r@ == wrong_key(self.what@, key@, expected@),
    {
        let mut m = text::cat3(self.what, ".", key);
        m.append(" must be ");
        m.append(expected);
        error::invalid(m)
    }

    /// The error of a missing key.
    pub fn missing(&self, key: &str) -> (r: ServiceError)
        ensures
            r@ == missing_key(self.what@, key@),
    {
        error::invalid(text::cat3(self.what, " needs ", key))
    }

    /// The text of a key, if it is there.
    pub fn string(&self, key: &str) -> (r: Result<Option<String>, ServiceError>)
        ensures
            match r {
                Ok(s) => text_in(self.es(), self.what@, key@) == Ok::<
                    Option<Seq<char>>,
                    Failure,
                >(text::opt_text(s)),
                Err(e) => text_in(self.es(), self.what@, key@) == Err::<
                    Option<Seq<char>>,
                    Failure,
                >(e@),
            },
    {
        match self.get(key) {
            None => Ok(None),
            Some(v) => match v.as_str() {
                Some(s) => Ok(Some(s.to_owned())),
                None => Err(self.wrong(key, "a string")),
            },
        }
    }

    /// The text of a key that must be there.
    pub fn required_string(&self, key: &str) -> (r: Result<String, ServiceError>)
        ensures
            match r {
                Ok(s) => needed_text(self.es(), self.what@, key@) == Ok::<Seq<char>, Failure>(s@),
                Err(e) => needed_text(self.es(), self.what@, key@) == Err::<Seq<char>, Failure>(
                    e@,
                ),
            },
    {
        match self.string(key) {
            Err(e) => Err(e),
            Ok(Some(s)) => Ok(s),
            Ok(None) => Err(self.missing(key)),
        }
    }

    /// The truth of a key, else a default.
    pub fn bool(&self, key: &str, default: bool) -> (r: Result<bool, ServiceError>)
        ensures
            match r {
                Ok(b) => bool_in(self.es(), self.what@, key@, default) == Ok::<bool, Failure>(b),
                Err(e) => bool_in(self.es(), self.what@, key@, default) == Err::<bool, Failure>(
                    e@,
                ),
            },
    {
        match self.get(key) {
            None => Ok(default),
            Some(v) => match v.as_bool() {
                Some(b) => Ok(b),
                None => Err(self.wrong(key, "a bool")),
            },
        }
    }

    /// The 32-bit number of a key, if it is there.
    pub fn u32(&self, key: &str) -> (r: Result<Option<u32>, ServiceError>)
        ensures
            match r {
                Ok(n) => u32_in(self.es(), self.what@, key@) == Ok::<Option<u32>, Failure>(n),
                Err(e) => u32_in(self.es(), self.what@, key@) == Err::<Option<u32>, Failure>(e@),
            },
    {
        match self.get(key) {
            None => Ok(None),
            Some(v) => match v.as_u64() {
                Some(n) => if n <= u32::MAX as u64 {
                    Ok(Some(n as u32))
                } else {
                    Err(self.wrong(key, "an unsigned 32-bit integer"))
                },
                None => Err(self.wrong(key, "an unsigned 32-bit integer")),
            },
        }
    }

    /// The 8-bit number of a key, else a default.
    pub fn u8(&self, key: &str, default: u8) -> (r: Result<u8, ServiceError>)
        ensures
            match r {
                Ok(n) => u8_in(self.es(), self.what@, key@, default) == Ok::<u8, Failure>(n),
                Err(e) => u8_in(self.es(), self.what@, key@, default) == Err::<u8, Failure>(e@),
            },
    {
        match self.get(key) {
            None => Ok(default),
            Some(v) => match v.as_u64() {
                Some(n) => if n <= u8::MAX as u64 {
                    Ok(n as u8)
                } else {
                    Err(self.wrong(key, "an unsigned 8-bit integer"))
                },
                None => Err(self.wrong(key, "an unsigned 8-bit integer")),
            },
        }
    }

    /// The items of a key: none where it is missing.
    pub fn list(&self, key: &str) -> (r: Result<Option<&'a Vec<Json>>, ServiceError>)
        ensures
            match r {
                Ok(Some(v)) => list_in(self.es(), self.what@, key@) == Ok::<Seq<Tree>, Failure>(
                    value::items_of(v@),
                ),
                Ok(None) => list_in(self.es(), self.what@, key@) == Ok::<Seq<Tree>, Failure>(
                    Seq::empty(),
                ),
                Err(e) => list_in(self.es(), self.what@, key@) == Err::<Seq<Tree>, Failure>(e@),
            },
    {
        match self.get(key) {
            None => Ok(None),
            Some(v) => match v.as_array() {
                Some(items) => Ok(Some(items)),
                None => Err(self.wrong(key, "a list")),
            },
        }
    }
}

} // verus!
