//! The keys, vectors and headers of the rows of a batch.

use crate::flight_ingest::shape::{
    DenseCell, Element, HeaderCell, HeadersCell, ListCell, SparseCell,
};
use crate::flight_ingest::target::IdType;
use crate::cells::Cell;
use crate::ir::{SparseV, SparseVector};
use crate::json::pk;
use crate::key::{Key, PrimaryKey};
use crate::text;
use vstd::prelude::*;
use vstd::string::*;

verus! {

/// How a key column is read.
#[derive(Clone, Copy, Debug, PartialEq, Eq, Structural)]
pub enum IdColumn {
    Unsigned,
    Signed,
    Text(IdType),
    Binary16,
}

/// Whether a cell is null or of the kind that a key column holds.
pub open spec fn id_fits(kind: IdColumn, c: Cell) -> bool {
    c is Null || match kind {
        IdColumn::Unsigned => c is Unsigned,
        IdColumn::Signed => c is Signed,
        IdColumn::Text(_) => c is Text,
        IdColumn::Binary16 => c is Bytes,
    }
}

/// The UUID of a text, hyphenated or as 32 hexadecimal digits.
pub open spec fn any_uuid(s: Seq<char>) -> Option<Seq<u8>> {
    if s.len() == 32 {
        if forall|j: int| 0 <= j < 32 ==> pk::hex_value(#[trigger] s[j]) is Some {
            Some(
                Seq::new(
                    16,
                    |i: int| (16 * pk::hex_value(s[2 * i])->0 + pk::hex_value(s[2 * i + 1])->0) as u8,
                ),
            )
        } else {
            None
        }
    } else {
        pk::uuid_of(s)
    }
}

/// The UUID of a text in either form.
pub fn parse_any_uuid(s: &str) -> (r: Option<[u8; 16]>)
    ensures
        match r {
            Some(b) => any_uuid(s@) == Some(b@),
            None => any_uuid(s@) is None,
        },
{
    let chars = text::chars_of(s);
    if chars.len() != 32 {
        return pk::parse_uuid(s);
    }
    let mut out: [u8; 16] = [0u8;16];
    let mut i: usize = 0;
    while i < 16
        invariant
            i <= 16,
            chars@ == s@,
            s@.len() == 32,
            forall|j: int| 0 <= j < 2 * i ==> pk::hex_value(#[trigger] s@[j]) is Some,
            forall|j: int|
                0 <= j < i ==> #[trigger] out@[j] == (16 * pk::hex_value(s@[2 * j])->0
                    + pk::hex_value(s@[2 * j + 1])->0) as u8,
        decreases 16 - i,
    {
        match (pk::hex_of(chars[2 * i]), pk::hex_of(chars[2 * i + 1])) {
            (Some(a), Some(b)) => {
                out[i] = 16 * a + b;
            },
            _ => {
                return None;
            },
        }
        i += 1;
    }
    proof {
        assert(any_uuid(s@)->0 =~= out@);
    }
    Some(out)
}

/// The key of a cell, or why it has none.
pub open spec fn id_of(kind: IdColumn, c: Cell) -> Result<Key, Seq<char>> {
    match (kind, c) {
        (_, Cell::Null) => Err("the primary key is null"@),
        (IdColumn::Unsigned, Cell::Unsigned(n)) => Ok(Key::U64(n)),
        (IdColumn::Signed, Cell::Signed(n)) => if n < 0 {
            Err("a primary key cannot be negative, got "@ + text::decimal_int(n as int))
        } else {
            Ok(Key::U64(n as u64))
        },
        (IdColumn::Binary16, Cell::Bytes(b)) => if b@.len() == 16 {
            Ok(Key::Uuid(b@))
        } else {
            Err("not 16 bytes"@)
        },
        (IdColumn::Text(t), Cell::Text(s)) => match t {
            IdType::Str => Ok(Key::Str(s@)),
            IdType::U64 => match number_of(s@) {
                Some(n) => Ok(Key::U64(n)),
                None => Err(text::debug_text(s@) + " is not a canonical decimal u64"@),
            },
            IdType::Uuid => match any_uuid(s@) {
                Some(b) => Ok(Key::Uuid(b)),
                None => Err(text::debug_text(s@) + " is not a UUID"@),
            },
        },
        _ => Err(""@),
    }
}

/// The 64-bit number whose decimal form is a text.
pub open spec fn number_of(s: Seq<char>) -> Option<u64> {
    if exists|n: u64| s == #[trigger] text::decimal(n as nat) {
        Some(choose|n: u64| s == #[trigger] text::decimal(n as nat))
    } else {
        None
    }
}

proof fn one_number(s: Seq<char>, n: u64)
    requires
        s == text::decimal(n as nat),
    ensures
        number_of(s) == Some(n),
{
    let m = number_of(s)->0;
    assert(s == text::decimal(m as nat));
    text::decimal_is_canonical(n as nat);
    text::decimal_is_canonical(m as nat);
}

impl IdColumn {
    /// The key of a cell.
    pub fn read(&self, c: &Cell) -> (r: Result<PrimaryKey, String>)
        requires
            id_fits(*self, *c),
        ensures
            match r {
                Ok(k) => id_of(*self, *c) == Ok::<Key, Seq<char>>(k@),
                Err(m) => id_of(*self, *c) == Err::<Key, Seq<char>>(m@),
            },
    {
        match c {
            Cell::Unsigned(n) => Ok(PrimaryKey::U64(*n)),
            Cell::Signed(n) => if *n < 0 {
                Err(text::cat2("a primary key cannot be negative, got ", &text::dec_i64(*n)))
            } else {
                Ok(PrimaryKey::U64(*n as u64))
            },
            Cell::Bytes(b) => if b.len() == 16 {
                Ok(PrimaryKey::Uuid(sixteen(b)))
            } else {
                Err("not 16 bytes".to_owned())
            },
            Cell::Text(s) => match self {
                IdColumn::Text(IdType::U64) => match text::canonical_u64(s) {
                    Some(n) => {
                        proof {
                            one_number(s@, n);
                        }
                        Ok(PrimaryKey::U64(n))
                    },
                    None => Err(
                        text::cat2(&text::debug_of(s), " is not a canonical decimal u64"),
                    ),
                },
                IdColumn::Text(IdType::Uuid) => match parse_any_uuid(s) {
                    Some(b) => Ok(PrimaryKey::Uuid(b)),
                    None => Err(text::cat2(&text::debug_of(s), " is not a UUID")),
                },
                _ => Ok(PrimaryKey::Str(s.clone())),
            },
            _ => Err("the primary key is null".to_owned()),
        }
    }
}

fn sixteen(b: &Vec<u8>) -> (r: [u8; 16])
    requires
        b@.len() == 16,
    ensures
        r@ == b@,
{
    let mut out: [u8; 16] = [0u8;16];
    let mut i: usize = 0;
    while i < 16
        invariant
            i <= 16,
            b@.len() == 16,
            forall|j: int| 0 <= j < i ==> out@[j] == b@[j],
        decreases 16 - i,
    {
        out[i] = b[i];
        i += 1;
    }
    assert(out@ =~= b@);
    out
}

/// The first `n` elements of a dense vector, or what is wrong with the first
/// that is not a finite float.
pub open spec fn elements(es: Seq<Element>, n: nat) -> Result<Seq<u32>, Seq<char>>
    decreases n,
{
    if n == 0 || n > es.len() {
        Ok(Seq::empty())
    } else {
        match elements(es, (n - 1) as nat) {
            Err(m) => Err(m),
            Ok(v) => match es[n - 1] {
                Element::Null => Err("element "@ + text::decimal((n - 1) as nat) + " is null"@),
                Element::NonFinite => Err(
                    "element "@ + text::decimal((n - 1) as nat) + " is not finite"@,
                ),
                Element::Finite(bits) => Ok(v.push(bits)),
            },
        }
    }
}

proof fn elements_stay_wrong(es: Seq<Element>, n: nat, m: nat)
    requires
        n <= m <= es.len(),
        elements(es, n) is Err,
    ensures
        elements(es, m) == elements(es, n),
    decreases m - n,
{
    if n < m {
        elements_stay_wrong(es, n, (m - 1) as nat);
    }
}

/// The dense vector of a cell, none for a null.
pub open spec fn dense_of(c: DenseCell) -> Result<Option<Seq<u32>>, Seq<char>> {
    match c {
        DenseCell::Null => Ok(None),
        DenseCell::NotList => Err("not a list"@),
        DenseCell::Elements(es) => match elements(es@, es@.len()) {
            Ok(v) => Ok(Some(v)),
            Err(m) => Err(m),
        },
    }
}

/// The bits of a vector that may be absent.
pub open spec fn opt_bits(v: Option<Vec<u32>>) -> Option<Seq<u32>> {
    match v {
        Some(v) => Some(v@),
        None => None,
    }
}

/// The dense vector of a cell; none for a null.
pub fn dense_at(c: &DenseCell) -> (r: Result<Option<Vec<u32>>, String>)
    ensures
        match r {
            Ok(v) => dense_of(*c) == Ok::<Option<Seq<u32>>, Seq<char>>(opt_bits(v)),
            Err(m) => dense_of(*c) == Err::<Option<Seq<u32>>, Seq<char>>(m@),
        },
{
    match c {
        DenseCell::Null => Ok(None),
        DenseCell::NotList => Err("not a list".to_owned()),
        DenseCell::Elements(es) => {
            let mut out: Vec<u32> = Vec::new();
            let mut i: usize = 0;
            while i < es.len()
                invariant
                    i <= es@.len(),
                    *c == DenseCell::Elements(*es),
                    elements(es@, i as nat) == Ok::<Seq<u32>, Seq<char>>(out@),
                decreases es.len() - i,
            {
                match es[i] {
                    Element::Null => {
                        proof {
                            elements_stay_wrong(es@, i as nat + 1, es@.len());
                        }
                        return Err(text::cat3("element ", &text::dec(i as u64), " is null"));
                    },
                    Element::NonFinite => {
                        proof {
                            elements_stay_wrong(es@, i as nat + 1, es@.len());
                        }
                        return Err(text::cat3("element ", &text::dec(i as u64), " is not finite"));
                    },
                    Element::Finite(bits) => {
                        out.push(bits);
                    },
                }
                i += 1;
            }
            Ok(Some(out))
        },
    }
}

/// The items of a list of a sparse vector, or what is wrong with the list.
pub open spec fn list_of<T>(c: ListCell<T>, name: Seq<char>) -> Result<Seq<Option<T>>, Seq<char>> {
    match c {
        ListCell::Missing => Err("no "@ + name),
        ListCell::Null => Err(name + " is null"@),
        ListCell::NotList => Err(name + " is not a list"@),
        ListCell::Items(v) => Ok(v@),
    }
}

fn list_at<'a, T>(c: &'a ListCell<T>, name: &str) -> (r: Result<&'a Vec<Option<T>>, String>)
    ensures
        match r {
            Ok(v) => list_of(*c, name@) == Ok::<Seq<Option<T>>, Seq<char>>(v@),
            Err(m) => list_of(*c, name@) == Err::<Seq<Option<T>>, Seq<char>>(m@),
        },
{
    match c {
        ListCell::Missing => Err(text::cat2("no ", name)),
        ListCell::Null => Err(text::cat2(name, " is null")),
        ListCell::NotList => Err(text::cat2(name, " is not a list")),
        ListCell::Items(v) => Ok(v),
    }
}

/// The first `n` indices, or what is wrong with the first that is not one.
pub open spec fn indices_of(v: Seq<Option<i64>>, n: nat) -> Result<Seq<u32>, Seq<char>>
    decreases n,
{
    if n == 0 || n > v.len() {
        Ok(Seq::empty())
    } else {
        match indices_of(v, (n - 1) as nat) {
            Err(m) => Err(m),
            Ok(out) => match v[n - 1] {
                None => Err("index "@ + text::decimal((n - 1) as nat) + " is null"@),
                Some(i) => if 0 <= i <= u32::MAX {
                    Ok(out.push(i as u32))
                } else {
                    Err("index "@ + text::decimal_int(i as int) + " is not a u32"@)
                },
            },
        }
    }
}

proof fn indices_stay_wrong(v: Seq<Option<i64>>, n: nat, m: nat)
    requires
        n <= m <= v.len(),
        indices_of(v, n) is Err,
    ensures
        indices_of(v, m) == indices_of(v, n),
    decreases m - n,
{
    if n < m {
        indices_stay_wrong(v, n, (m - 1) as nat);
    }
}

/// The first `n` values, or which of them is null.
pub open spec fn values_of(v: Seq<Option<u32>>, n: nat) -> Result<Seq<u32>, Seq<char>>
    decreases n,
{
    if n == 0 || n > v.len() {
        Ok(Seq::empty())
    } else {
        match values_of(v, (n - 1) as nat) {
            Err(m) => Err(m),
            Ok(out) => match v[n - 1] {
                None => Err("value "@ + text::decimal((n - 1) as nat) + " is null"@),
                Some(bits) => Ok(out.push(bits)),
            },
        }
    }
}

proof fn values_stay_wrong(v: Seq<Option<u32>>, n: nat, m: nat)
    requires
        n <= m <= v.len(),
        values_of(v, n) is Err,
    ensures
        values_of(v, m) == values_of(v, n),
    decreases m - n,
{
    if n < m {
        values_stay_wrong(v, n, (m - 1) as nat);
    }
}

fn read_indices(v: &Vec<Option<i64>>) -> (r: Result<Vec<u32>, String>)
    ensures
        match r {
            Ok(out) => indices_of(v@, v@.len()) == Ok::<Seq<u32>, Seq<char>>(out@),
            Err(m) => indices_of(v@, v@.len()) == Err::<Seq<u32>, Seq<char>>(m@),
        },
{
    let mut out: Vec<u32> = Vec::new();
    let mut i: usize = 0;
    while i < v.len()
        invariant
            i <= v@.len(),
            indices_of(v@, i as nat) == Ok::<Seq<u32>, Seq<char>>(out@),
        decreases v.len() - i,
    {
        match v[i] {
            None => {
                proof {
                    indices_stay_wrong(v@, i as nat + 1, v@.len());
                }
                return Err(text::cat3("index ", &text::dec(i as u64), " is null"));
            },
            Some(index) => {
                if index < 0 || index > u32::MAX as i64 {
                    proof {
                        indices_stay_wrong(v@, i as nat + 1, v@.len());
                    }
                    return Err(text::cat3("index ", &text::dec_i64(index), " is not a u32"));
                }
                out.push(index as u32);
            },
        }
        i += 1;
    }
    Ok(out)
}

fn read_values(v: &Vec<Option<u32>>) -> (r: Result<Vec<u32>, String>)
    ensures
        match r {
            Ok(out) => values_of(v@, v@.len()) == Ok::<Seq<u32>, Seq<char>>(out@),
            Err(m) => values_of(v@, v@.len()) == Err::<Seq<u32>, Seq<char>>(m@),
        },
{
    let mut out: Vec<u32> = Vec::new();
    let mut i: usize = 0;
    while i < v.len()
        invariant
            i <= v@.len(),
            values_of(v@, i as nat) == Ok::<Seq<u32>, Seq<char>>(out@),
        decreases v.len() - i,
    {
        match v[i] {
            None => {
                proof {
                    values_stay_wrong(v@, i as nat + 1, v@.len());
                }
                return Err(text::cat3("value ", &text::dec(i as u64), " is null"));
            },
            Some(bits) => {
                out.push(bits);
            },
        }
        i += 1;
    }
    Ok(out)
}

/// The sparse vector of a cell, none for a null: its two lists, then their
/// items, then the rules on both together.
pub open spec fn sparse_of(c: SparseCell) -> Result<Option<SparseV>, Seq<char>> {
    if c.is_null {
        Ok(None)
    } else {
        match list_of(c.indices, "indices"@) {
            Err(m) => Err(m),
            Ok(is) => match list_of(c.values, "values"@) {
                Err(m) => Err(m),
                Ok(vs) => match indices_of(is, is.len()) {
                    Err(m) => Err(m),
                    Ok(indices) => match values_of(vs, vs.len()) {
                        Err(m) => Err(m),
                        Ok(values) => match c.refusal {
                            Some(m) => Err(m@),
                            None => Ok(Some(SparseV { indices, values })),
                        },
                    },
                },
            },
        }
    }
}

/// A sparse vector that may be absent.
pub open spec fn opt_sparse(v: Option<SparseVector>) -> Option<SparseV> {
    match v {
        Some(v) => Some(v@),
        None => None,
    }
}

/// The sparse vector of a cell; none for a null.
pub fn sparse_at(c: &SparseCell) -> (r: Result<Option<SparseVector>, String>)
    ensures
        match r {
            Ok(v) => sparse_of(*c) == Ok::<Option<SparseV>, Seq<char>>(opt_sparse(v)),
            Err(m) => sparse_of(*c) == Err::<Option<SparseV>, Seq<char>>(m@),
        },
{
    if c.is_null {
        return Ok(None);
    }
    let is = match list_at(&c.indices, "indices") {
        Ok(v) => v,
        Err(m) => {
            return Err(m);
        },
    };
    let vs = match list_at(&c.values, "values") {
        Ok(v) => v,
        Err(m) => {
            return Err(m);
        },
    };
    let indices = match read_indices(is) {
        Ok(v) => v,
        Err(m) => {
            return Err(m);
        },
    };
    let values = match read_values(vs) {
        Ok(v) => v,
        Err(m) => {
            return Err(m);
        },
    };
    match &c.refusal {
        Some(m) => Err(m.clone()),
        None => Ok(Some(SparseVector { indices, values })),
    }
}

/// Bytes that may be absent.
pub open spec fn opt_bytes(v: Option<Vec<u8>>) -> Option<Seq<u8>> {
    match v {
        Some(v) => Some(v@),
        None => None,
    }
}

/// A copy of bytes that may be absent.
pub fn copy_bytes(v: &Option<Vec<u8>>) -> (r: Option<Vec<u8>>)
    ensures
        opt_bytes(r) == opt_bytes(*v),
{
    match v {
        Some(v) => Some(crate::bytes::copy_range(v, 0, v.len())),
        None => None,
    }
}

/// What some headers are.
pub open spec fn header_views(s: Seq<(String, Option<Vec<u8>>)>) -> Seq<
    (Seq<char>, Option<Seq<u8>>),
> {
    Seq::new(s.len(), |i: int| (s[i].0@, opt_bytes(s[i].1)))
}

/// The first `n` headers, or what is wrong with the first that is not one.
pub open spec fn headers_in(cs: Seq<HeaderCell>, n: nat) -> Result<
    Seq<(Seq<char>, Option<Seq<u8>>)>,
    Seq<char>,
>
    decreases n,
{
    if n == 0 || n > cs.len() {
        Ok(Seq::empty())
    } else {
        match headers_in(cs, (n - 1) as nat) {
            Err(m) => Err(m),
            Ok(out) => match cs[n - 1] {
                HeaderCell::Null => Err("header "@ + text::decimal((n - 1) as nat) + " is null"@),
                HeaderCell::Entry { key: None, .. } => Err(
                    "header "@ + text::decimal((n - 1) as nat) + " has a null key"@,
                ),
                HeaderCell::Entry { key: Some(k), value } => Ok(out.push((k@, opt_bytes(value)))),
            },
        }
    }
}

proof fn headers_stay_wrong(cs: Seq<HeaderCell>, n: nat, m: nat)
    requires
        n <= m <= cs.len(),
        headers_in(cs, n) is Err,
    ensures
        headers_in(cs, m) == headers_in(cs, n),
    decreases m - n,
{
    if n < m {
        headers_stay_wrong(cs, n, (m - 1) as nat);
    }
}

/// The headers of a cell, none for a null.
pub open spec fn headers_of(c: HeadersCell) -> Result<
    Seq<(Seq<char>, Option<Seq<u8>>)>,
    Seq<char>,
> {
    match c {
        HeadersCell::Null => Ok(Seq::empty()),
        HeadersCell::NotList => Err("not a list"@),
        HeadersCell::NoKey => Err("no key"@),
        HeadersCell::NoValue => Err("no value"@),
        HeadersCell::Entries(cs) => headers_in(cs@, cs@.len()),
    }
}

/// The headers of a cell, in order.
pub fn headers_at(c: &HeadersCell) -> (r: Result<Vec<(String, Option<Vec<u8>>)>, String>)
    ensures
        match r {
            Ok(v) => headers_of(*c) == Ok::<Seq<(Seq<char>, Option<Seq<u8>>)>, Seq<char>>(
                header_views(v@),
            ),
            Err(m) => headers_of(*c) == Err::<Seq<(Seq<char>, Option<Seq<u8>>)>, Seq<char>>(m@),
        },
{
    let mut out: Vec<(String, Option<Vec<u8>>)> = Vec::new();
    match c {
        HeadersCell::Null => {
            assert(header_views(out@) =~= Seq::empty());
            Ok(out)
        },
        HeadersCell::NotList => Err("not a list".to_owned()),
        HeadersCell::NoKey => Err("no key".to_owned()),
        HeadersCell::NoValue => Err("no value".to_owned()),
        HeadersCell::Entries(cs) => {
            let mut i: usize = 0;
            assert(header_views(out@) =~= Seq::empty());
            while i < cs.len()
                invariant
                    i <= cs@.len(),
                    *c == HeadersCell::Entries(*cs),
                    headers_in(cs@, i as nat) == Ok::<
                        Seq<(Seq<char>, Option<Seq<u8>>)>,
                        Seq<char>,
                    >(header_views(out@)),
                decreases cs.len() - i,
            {
                match &cs[i] {
                    HeaderCell::Null => {
                        proof {
                            headers_stay_wrong(cs@, i as nat + 1, cs@.len());
                        }
                        return Err(text::cat3("header ", &text::dec(i as u64), " is null"));
                    },
                    HeaderCell::Entry { key, value } => match key {
                        None => {
                            proof {
                                headers_stay_wrong(cs@, i as nat + 1, cs@.len());
                            }
                            return Err(
                                text::cat3("header ", &text::dec(i as u64), " has a null key"),
                            );
                        },
                        Some(k) => {
                            let ghost was = out@;
                            out.push((k.clone(), copy_bytes(value)));
                            proof {
                                assert(header_views(out@) =~= header_views(was).push(
                                    (k@, opt_bytes(*value)),
                                ));
                            }
                        },
                    },
                }
                i += 1;
            }
            Ok(out)
        },
    }
}

} // verus!
