//! The arguments of a search function, read by position.

use crate::float;
use crate::json::value;
use crate::json::value::{Json, Num, Number, Tree};
use crate::query;
use crate::query::{Query, QueryV};
use crate::text;
use vstd::prelude::*;
use vstd::string::*;

verus! {

/// What a constant argument is.
#[derive(Debug)]
pub enum SqlKind {
    Null,
    /// A text, and the JSON value that it writes.
    Text { text: String, json: Option<Json> },
    Int(i64),
    UInt(u64),
    /// Bits of a number of single precision.
    F32(u32),
    /// Bits of a number of double precision.
    F64(u64),
    Bool(bool),
    /// A list of numbers, as bits of double precision.
    List(Vec<u64>),
    Other { numeric: bool },
}

/// A constant argument, and how it shows.
#[derive(Debug)]
pub struct SqlValue {
    pub kind: SqlKind,
    pub shown: String,
}

/// Refuses a wrong number of arguments.
pub open spec fn arity_error(function: Seq<char>, n: nat, min: nat, max: nat) -> Seq<char> {
    function + " takes "@ + text::decimal(min) + " to "@ + text::decimal(max) + " arguments, got "@
        + text::decimal(n)
}

/// Refuses a wrong number of arguments.
pub fn arity(function: &str, n: usize, min: usize, max: usize) -> (r: Result<(), String>)
    ensures
        match r {
            Ok(_) => min <= n <= max,
            Err(m) => !(min <= n <= max) && m@ == arity_error(
                function@,
                n as nat,
                min as nat,
                max as nat,
            ),
        },
{
    if min <= n && n <= max {
        return Ok(());
    }
    let mut out = text::cat2(function, " takes ");
    out.append(text::dec(min as u64).as_str());
    out.append(" to ");
    out.append(text::dec(max as u64).as_str());
    out.append(" arguments, got ");
    out.append(text::dec(n as u64).as_str());
    Err(out)
}

/// The error of an argument that is not what it must be.
pub open spec fn arg_error(function: Seq<char>, i: nat, what: Seq<char>) -> Seq<char> {
    "argument "@ + text::decimal(i + 1) + " of "@ + function + " must be "@ + what
}

/// An argument that is there and not null.
pub open spec fn arg_at(values: Seq<SqlValue>, i: int) -> Option<SqlKind> {
    if 0 <= i < values.len() && !(values[i].kind is Null) {
        Some(values[i].kind)
    } else {
        None
    }
}

/// A text argument that may be missing.
pub open spec fn text_arg(function: Seq<char>, values: Seq<SqlValue>, i: int) -> Result<
    Option<Seq<char>>,
    Seq<char>,
> {
    match arg_at(values, i) {
        None => Ok(None),
        Some(SqlKind::Text { text, .. }) => Ok(Some(text@)),
        Some(_) => Err(arg_error(function, i as nat, "a string"@)),
    }
}

/// A text argument that must be there.
pub open spec fn needed_text(function: Seq<char>, values: Seq<SqlValue>, i: int) -> Result<
    Seq<char>,
    Seq<char>,
> {
    match text_arg(function, values, i) {
        Err(e) => Err(e),
        Ok(Some(t)) => Ok(t),
        Ok(None) => Err(arg_error(function, i as nat, "a string, not NULL"@)),
    }
}

/// The whole number that a constant is: an integer that is not negative, or
/// a float without a fraction.
pub open spec fn whole_in(k: SqlKind) -> Option<nat> {
    match k {
        SqlKind::Int(n) => if n >= 0 {
            Some(n as nat)
        } else {
            None
        },
        SqlKind::UInt(n) => Some(n as nat),
        SqlKind::F32(b) => float::whole_of(float::widened(b) as u64),
        SqlKind::F64(b) => float::whole_of(b),
        _ => None,
    }
}

/// A whole number argument that may be missing.
pub open spec fn whole_arg(function: Seq<char>, values: Seq<SqlValue>, i: int) -> Result<
    Option<nat>,
    Seq<char>,
> {
    match arg_at(values, i) {
        None => Ok(None),
        Some(k) => match whole_in(k) {
            Some(n) => Ok(Some(n)),
            None => Err(arg_error(function, i as nat, "a non-negative whole number"@)),
        },
    }
}

/// A count argument that may be missing.
pub open spec fn count_arg(function: Seq<char>, values: Seq<SqlValue>, i: int, most: nat) -> Result<
    Option<nat>,
    Seq<char>,
> {
    match whole_arg(function, values, i) {
        Ok(Some(n)) => if n <= most {
            Ok(Some(n))
        } else {
            Err(arg_error(function, i as nat, "a smaller number"@))
        },
        other => other,
    }
}

/// A truth value argument that may be missing.
pub open spec fn bool_arg(function: Seq<char>, values: Seq<SqlValue>, i: int) -> Result<
    Option<bool>,
    Seq<char>,
> {
    match arg_at(values, i) {
        None => Ok(None),
        Some(SqlKind::Bool(b)) => Ok(Some(b)),
        Some(_) => Err(arg_error(function, i as nat, "a boolean"@)),
    }
}

/// A JSON number in double precision.
pub open spec fn number_bits(n: Num) -> u64 {
    match n {
        Num::Unsigned(n) => float::int_bits64(n as int) as u64,
        Num::Negative(n) => float::int_bits64(n as int) as u64,
        Num::Float { bits, .. } => bits,
    }
}

/// The numbers of the first JSON items in single precision, none if one is
/// no number.
pub open spec fn item_numbers(items: Seq<Tree>, n: nat) -> Option<Seq<u32>>
    decreases n,
{
    if n == 0 || n > items.len() {
        Some(Seq::empty())
    } else {
        match item_numbers(items, (n - 1) as nat) {
            None => None,
            Some(before) => match items[n - 1] {
                Tree::Number(x) => Some(before.push(float::narrowed(number_bits(x)) as u32)),
                _ => None,
            },
        }
    }
}

/// The numbers of a query vector: a list, or a text that writes a JSON
/// array of numbers.
pub open spec fn numbers_in(k: SqlKind) -> Option<Seq<u32>> {
    match k {
        SqlKind::Text { json, .. } => match json {
            Some(j) => match j@ {
                Tree::Array(items) => item_numbers(items, items.len()),
                _ => None,
            },
            None => None,
        },
        SqlKind::List(bits) => Some(
            Seq::new(bits@.len(), |i: int| float::narrowed(bits@[i]) as u32),
        ),
        _ => None,
    }
}

/// A query vector argument.
pub open spec fn vector_arg(function: Seq<char>, values: Seq<SqlValue>, i: int) -> Result<
    Seq<u32>,
    Seq<char>,
> {
    match arg_at(values, i) {
        None => Err(arg_error(function, i as nat, "a list of numbers"@)),
        Some(k) => match numbers_in(k) {
            Some(v) => Ok(v),
            None => Err(arg_error(function, i as nat, "a list of numbers"@)),
        },
    }
}

/// What parsing a filter's text gave.
pub open spec fn parsed_query(parsed: Result<Query, String>) -> Result<QueryV, Seq<char>> {
    match parsed {
        Ok(q) => Ok(q@),
        Err(e) => Err(e@),
    }
}

/// A filter argument that may be missing, of what its text parses to.
pub open spec fn filter_arg(
    function: Seq<char>,
    values: Seq<SqlValue>,
    i: int,
    parsed: Result<QueryV, Seq<char>>,
) -> Result<Option<QueryV>, Seq<char>> {
    match text_arg(function, values, i) {
        Err(e) => Err(e),
        Ok(None) => Ok(None),
        Ok(Some(_)) => match parsed {
            Ok(q) => Ok(Some(q)),
            Err(e) => Err(
                "argument "@ + text::decimal((i + 1) as nat) + " of "@ + function
                    + " is not a filter: "@ + e,
            ),
        },
    }
}

/// The whole number that a constant is.
pub fn whole_number(k: &SqlKind) -> (r: Option<u64>)
    ensures
        match r {
            Some(n) => whole_in(*k) == Some(n as nat),
            None => whole_in(*k) is None,
        },
{
    match k {
        SqlKind::Int(n) => if *n >= 0 {
            Some(*n as u64)
        } else {
            None
        },
        SqlKind::UInt(n) => Some(*n),
        SqlKind::F32(b) => float::whole_number(float::widen(*b)),
        SqlKind::F64(b) => float::whole_number(*b),
        _ => None,
    }
}

/// Whether a constant is a number.
pub open spec fn numeric(k: SqlKind) -> bool {
    k is Int || k is UInt || k is F32 || k is F64 || (k matches SqlKind::Other { numeric }
        && numeric)
}

/// Whether a constant is a number.
pub fn is_number(k: &SqlKind) -> (r: bool)
    ensures
        r == numeric(*k),
{
    match k {
        SqlKind::Int(_) => true,
        SqlKind::UInt(_) => true,
        SqlKind::F32(_) => true,
        SqlKind::F64(_) => true,
        SqlKind::Other { numeric } => *numeric,
        _ => false,
    }
}

/// The arguments of one call.
pub struct Args<'a> {
    pub function: &'a str,
    pub values: &'a Vec<SqlValue>,
}

fn json_numbers(items: &Vec<Json>) -> (r: Option<Vec<u32>>)
    ensures
        match r {
            Some(v) => item_numbers(value::items_of(items@), items@.len()) == Some(v@),
            None => item_numbers(value::items_of(items@), items@.len()) is None,
        },
{
    let ghost all = value::items_of(items@);
    let mut out: Vec<u32> = Vec::new();
    let mut i: usize = 0;
    while i < items.len()
        invariant
            i <= items@.len(),
            all == value::items_of(items@),
            item_numbers(all, i as nat) == Some(out@),
        decreases items.len() - i,
    {
        assert(all[i as int] == items@[i as int]@);
        let bits: u64 = match &items[i] {
            Json::Number(n) => {
                assert(items@[i as int]@ == Tree::Number(n@));
                match n {
                    Number::Unsigned(u) => {
                        proof {
                            float::int_bits64_monotone(0, *u as int);
                        }
                        float::int_to_f64(*u as i128)
                    },
                    Number::Negative(m) => {
                        proof {
                            float::int_bits64_monotone(*m as int, *m as int);
                        }
                        float::int_to_f64(*m as i128)
                    },
                    Number::Float { bits, .. } => *bits,
                }
            },
            _ => {
                broadcast use {value::view_object, value::view_array};

                assert(!(items@[i as int]@ is Number));
                proof {
                    numbers_stay_none(all, (i + 1) as nat, all.len());
                }
                return None;
            },
        };
        out.push(float::narrow(bits));
        i += 1;
    }
    Some(out)
}

proof fn numbers_stay_none(items: Seq<Tree>, n: nat, m: nat)
    requires
        n <= m <= items.len(),
        item_numbers(items, n) is None,
    ensures
        item_numbers(items, m) is None,
    decreases m,
{
    if n < m {
        numbers_stay_none(items, n, (m - 1) as nat);
    }
}

fn list_numbers(bits: &Vec<u64>) -> (r: Vec<u32>)
    ensures
        r@ == Seq::new(bits@.len(), |i: int| float::narrowed(bits@[i]) as u32),
{
    let mut out: Vec<u32> = Vec::new();
    let mut i: usize = 0;
    while i < bits.len()
        invariant
            i <= bits@.len(),
            out@.len() == i,
            forall|k: int| 0 <= k < i ==> #[trigger] out@[k] == float::narrowed(bits@[k]) as u32,
        decreases bits.len() - i,
    {
        out.push(float::narrow(bits[i]));
        i += 1;
    }
    assert(out@ =~= Seq::new(bits@.len(), |i: int| float::narrowed(bits@[i]) as u32));
    out
}

/// The outcome of reading a text.
pub open spec fn text_result(r: Result<Option<String>, String>) -> Result<
    Option<Seq<char>>,
    Seq<char>,
> {
    match r {
        Ok(t) => Ok(text::opt_text(t)),
        Err(e) => Err(e@),
    }
}

/// The outcome of reading a number.
pub open spec fn whole_result(r: Result<Option<u64>, String>) -> Result<Option<nat>, Seq<char>> {
    match r {
        Ok(Some(n)) => Ok(Some(n as nat)),
        Ok(None) => Ok(None),
        Err(e) => Err(e@),
    }
}

impl<'a> Args<'a> {
    fn get(&self, i: usize) -> (r: Option<&SqlKind>)
        ensures
            match r {
                Some(k) => arg_at(self.values@, i as int) == Some(*k),
                None => arg_at(self.values@, i as int) is None,
            },
    {
        if i >= self.values.len() {
            return None;
        }
        match &self.values[i].kind {
            SqlKind::Null => None,
            k => Some(k),
        }
    }

    /// The error of an argument that is not what it must be.
    pub fn error(&self, i: usize, what: &str) -> (r: String)
        requires
            i < usize::MAX,
        ensures
            r@ == arg_error(self.function@, i as nat, what@),
    {
        let shown = text::dec(i as u64 + 1);
        let mut out = text::cat3("argument ", &shown, " of ");
        out.append(self.function);
        out.append(" must be ");
        out.append(what);
        out
    }

    /// A text, none when absent or null.
    pub fn text(&self, i: usize) -> (r: Result<Option<String>, String>)
        requires
            i < usize::MAX,
        ensures
            text_result(r) == text_arg(self.function@, self.values@, i as int),
    {
        match self.get(i) {
            None => Ok(None),
            Some(SqlKind::Text { text, .. }) => Ok(Some(text.clone())),
            Some(_) => Err(self.error(i, "a string")),
        }
    }

    /// A text that must be there.
    pub fn required_text(&self, i: usize) -> (r: Result<String, String>)
        requires
            i < usize::MAX,
        ensures
            match r {
                Ok(t) => needed_text(self.function@, self.values@, i as int) == Ok::<
                    Seq<char>,
                    Seq<char>,
                >(t@),
                Err(e) => needed_text(self.function@, self.values@, i as int) == Err::<
                    Seq<char>,
                    Seq<char>,
                >(e@),
            },
    {
        match self.text(i) {
            Err(e) => Err(e),
            Ok(Some(t)) => Ok(t),
            Ok(None) => Err(self.error(i, "a string, not NULL")),
        }
    }

    /// A whole number, none when absent or null.
    pub fn whole(&self, i: usize) -> (r: Result<Option<u64>, String>)
        requires
            i < usize::MAX,
        ensures
            whole_result(r) == whole_arg(self.function@, self.values@, i as int),
    {
        match self.get(i) {
            None => Ok(None),
            Some(k) => match whole_number(k) {
                Some(n) => Ok(Some(n)),
                None => Err(self.error(i, "a non-negative whole number")),
            },
        }
    }

    /// A count, none when absent or null.
    pub fn count(&self, i: usize) -> (r: Result<Option<usize>, String>)
        requires
            i < usize::MAX,
        ensures
            count_arg(self.function@, self.values@, i as int, usize::MAX as nat) == (match r {
                Ok(Some(n)) => Ok::<Option<nat>, Seq<char>>(Some(n as nat)),
                Ok(None) => Ok(None),
                Err(e) => Err(e@),
            }),
    {
        match self.whole(i) {
            Err(e) => Err(e),
            Ok(None) => Ok(None),
            Ok(Some(n)) => if n <= usize::MAX as u64 {
                Ok(Some(n as usize))
            } else {
                Err(self.error(i, "a smaller number"))
            },
        }
    }

    /// A truth value, none when absent or null.
    pub fn boolean(&self, i: usize) -> (r: Result<Option<bool>, String>)
        requires
            i < usize::MAX,
        ensures
            bool_arg(self.function@, self.values@, i as int) == (match r {
                Ok(b) => Ok::<Option<bool>, Seq<char>>(b),
                Err(e) => Err(e@),
            }),
    {
        match self.get(i) {
            None => Ok(None),
            Some(SqlKind::Bool(b)) => Ok(Some(*b)),
            Some(_) => Err(self.error(i, "a boolean")),
        }
    }

    /// A query vector: a list of numbers, or a text that writes one.
    pub fn vector(&self, i: usize) -> (r: Result<Vec<u32>, String>)
        requires
            i < usize::MAX,
        ensures
            match r {
                Ok(v) => vector_arg(self.function@, self.values@, i as int) == Ok::<
                    Seq<u32>,
                    Seq<char>,
                >(v@),
                Err(e) => vector_arg(self.function@, self.values@, i as int) == Err::<
                    Seq<u32>,
                    Seq<char>,
                >(e@),
            },
    {
        let k = match self.get(i) {
            Some(k) => k,
            None => {
                return Err(self.error(i, "a list of numbers"));
            },
        };
        let found = match k {
            SqlKind::Text { json, .. } => match json {
                Some(j) => match j.as_array() {
                    Some(items) => json_numbers(items),
                    None => None,
                },
                None => None,
            },
            SqlKind::List(bits) => Some(list_numbers(bits)),
            _ => None,
        };
        match found {
            Some(v) => Ok(v),
            None => Err(self.error(i, "a list of numbers")),
        }
    }

    /// A filter, none when absent or null; `parsed` is what its text parses
    /// to.
    pub fn filter(&self, i: usize, parsed: Result<Query, String>) -> (r: Result<
        Option<Query>,
        String,
    >)
        requires
            i < usize::MAX,
        ensures
            filter_arg(self.function@, self.values@, i as int, parsed_query(parsed)) == (match r {
                Ok(q) => Ok::<Option<QueryV>, Seq<char>>(query::opt_query(q)),
                Err(e) => Err(e@),
            }),
    {
        match self.text(i) {
            Err(e) => Err(e),
            Ok(None) => Ok(None),
            Ok(Some(_)) => match parsed {
                Ok(q) => Ok(Some(q)),
                Err(e) => {
                    let shown = text::dec(i as u64 + 1);
                    let mut out = text::cat3("argument ", &shown, " of ");
                    out.append(self.function);
                    out.append(" is not a filter: ");
                    out.append(&e);
                    Err(out)
                },
            },
        }
    }
}

} // verus!
