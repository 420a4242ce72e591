//! Keys as JSON: an unsigned integer, a string, or `{"uuid": "…"}` in
//! hyphenated form, read in any case and written in lower case.

use crate::error::{Failure, ServiceError};
use crate::json::value;
use crate::json::value::{Json, Num, Number, Tree};
use crate::key;
use crate::key::{Key, PrimaryKey};
use crate::text;
use vstd::prelude::*;
use vstd::string::*;

verus! {

/// A lower-case hexadecimal digit.
pub open spec fn hex_digit(n: int) -> char {
    if n < 10 {
        (n + 48) as char
    } else {
        (n + 87) as char
    }
}

/// The value of a hexadecimal digit of either case.
pub open spec fn hex_value(c: char) -> Option<int> {
    if '0' <= c <= '9' {
        Some(c as int - 48)
    } else if 'a' <= c <= 'f' {
        Some(c as int - 87)
    } else if 'A' <= c <= 'F' {
        Some(c as int - 55)
    } else {
        None
    }
}

/// Where the hyphens of a UUID stand.
pub open spec fn is_hyphen(j: int) -> bool {
    j == 8 || j == 13 || j == 18 || j == 23
}

/// Where byte `i` of a UUID stands in its text.
pub open spec fn byte_at(i: int) -> int {
    2 * i + (if i >= 4 {
        1int
    } else {
        0
    }) + (if i >= 6 {
        1int
    } else {
        0
    }) + (if i >= 8 {
        1int
    } else {
        0
    }) + (if i >= 10 {
        1int
    } else {
        0
    })
}

/// The text of the first `n` bytes of a UUID, in lower case.
pub open spec fn uuid_prefix(b: Seq<u8>, n: nat) -> Seq<char>
    decreases n,
{
    if n == 0 {
        Seq::empty()
    } else {
        let i = n - 1;
        let before = uuid_prefix(b, i as nat) + (if i == 4 || i == 6 || i == 8 || i == 10 {
            seq!['-']
        } else {
            Seq::empty()
        });
        before + seq![hex_digit(b[i] as int / 16), hex_digit(b[i] as int % 16)]
    }
}

/// The lower-case hyphenated text of a UUID.
pub open spec fn uuid_text(b: Seq<u8>) -> Seq<char> {
    uuid_prefix(b, 16)
}

/// Whether a text has the form of a UUID.
pub open spec fn is_uuid_text(s: Seq<char>) -> bool {
    &&& s.len() == 36
    &&& forall|j: int|
        0 <= j < 36 ==> if is_hyphen(j) {
            #[trigger] s[j] == '-'
        } else {
            hex_value(s[j]) is Some
        }
}

/// The UUID that a text writes, in either case.
pub open spec fn uuid_of(s: Seq<char>) -> Option<Seq<u8>> {
    if is_uuid_text(s) {
        Some(
            Seq::new(
                16,
                |i: int|
                    (16 * hex_value(s[byte_at(i)])->0 + hex_value(s[byte_at(i) + 1])->0) as u8,
            ),
        )
    } else {
        None
    }
}

proof fn prefix_places(b: Seq<u8>, n: nat)
    requires
        n <= 16,
        b.len() == 16,
    ensures
        uuid_prefix(b, n).len() == (if n == 0 {
            0
        } else {
            byte_at(n - 1) + 2
        }),
        forall|j: int|
            0 <= j < uuid_prefix(b, n).len() && is_hyphen(j) ==> #[trigger] uuid_prefix(b, n)[j]
                == '-',
        forall|i: int|
            #![trigger b[i]]
            0 <= i < n ==> uuid_prefix(b, n)[byte_at(i)] == hex_digit(b[i] as int / 16)
                && uuid_prefix(b, n)[byte_at(i) + 1] == hex_digit(b[i] as int % 16),
    decreases n,
{
    if n > 0 {
        prefix_places(b, (n - 1) as nat);
        let p = uuid_prefix(b, (n - 1) as nat);
        let q = uuid_prefix(b, n);
        assert forall|j: int| 0 <= j < q.len() && is_hyphen(j) implies #[trigger] q[j] == '-' by {
            if j < p.len() {
                assert(q[j] == p[j]);
            }
        }
        assert forall|i: int| 0 <= i < n implies q[byte_at(i)] == hex_digit(
            #[trigger] b[i] as int / 16,
        ) && q[byte_at(i) + 1] == hex_digit(b[i] as int % 16) by {
            if i < n - 1 {
                assert(byte_at(i) + 1 < p.len());
                assert(q[byte_at(i)] == p[byte_at(i)]);
                assert(q[byte_at(i) + 1] == p[byte_at(i) + 1]);
            }
        }
    }
}

proof fn hex_round_trip(n: int)
    requires
        0 <= n < 16,
    ensures
        hex_value(hex_digit(n)) == Some(n),
{
}

/// Reading the text of a UUID gives the UUID back.
pub proof fn uuid_round_trip(b: Seq<u8>)
    requires
        b.len() == 16,
    ensures
        uuid_of(uuid_text(b)) == Some(b),
{
    prefix_places(b, 16);
    let s = uuid_text(b);
    assert forall|j: int| 0 <= j < 36 implies if is_hyphen(j) {
        #[trigger] s[j] == '-'
    } else {
        hex_value(s[j]) is Some
    } by {
        if !is_hyphen(j) {
            let k = j - (if j > 8 {
                1int
            } else {
                0
            }) - (if j > 13 {
                1int
            } else {
                0
            }) - (if j > 18 {
                1int
            } else {
                0
            }) - (if j > 23 {
                1int
            } else {
                0
            });
            let i = k / 2;
            assert(0 <= i < 16);
            let v = b[i];
            hex_round_trip(v as int / 16);
            hex_round_trip(v as int % 16);
            assert(j == byte_at(i) || j == byte_at(i) + 1);
        }
    }
    let r = uuid_of(s)->0;
    assert forall|i: int| 0 <= i < 16 implies r[i] == b[i] by {
        let v = b[i];
        hex_round_trip(v as int / 16);
        hex_round_trip(v as int % 16);
    }
    assert(r =~= b);
}

fn hex_char(n: u8) -> (r: char)
    requires
        n < 16,
    ensures
        r == hex_digit(n as int),
{
    if n < 10 {
        let b: u8 = n + 48;
        b as char
    } else {
        let b: u8 = n + 87;
        b as char
    }
}

/// The value of a hexadecimal digit of either case.
pub fn hex_of(c: char) -> (r: Option<u8>)
    ensures
        match r {
            Some(n) => n < 16 && hex_value(c) == Some(n as int),
            None => hex_value(c) is None,
        },
{
    let n: u32 = c as u32;
    if '0' <= c && c <= '9' {
        Some((n - 48) as u8)
    } else if 'a' <= c && c <= 'f' {
        Some((n - 87) as u8)
    } else if 'A' <= c && c <= 'F' {
        Some((n - 55) as u8)
    } else {
        None
    }
}

/// Lower-case hyphenated `8-4-4-4-12`.
pub fn format_uuid(bytes: &[u8; 16]) -> (r: String)
    ensures
        r@ == uuid_text(bytes@),
{
    let mut out = String::new();
    let mut i: usize = 0;
    while i < 16
        invariant
            i <= 16,
            out@ == uuid_prefix(bytes@, i as nat),
        decreases 16 - i,
    {
        let ghost was = out@;
        if i == 4 || i == 6 || i == 8 || i == 10 {
            out.push('-');
        }
        let b: u8 = bytes[i];
        out.push(hex_char(b / 16));
        out.push(hex_char(b % 16));
        i += 1;
        proof {
            assert(out@ =~= uuid_prefix(bytes@, i as nat));
        }
    }
    out
}

/// A hyphenated `8-4-4-4-12` UUID, in any case.
pub fn parse_uuid(s: &str) -> (r: Option<[u8; 16]>)
    ensures
        match r {
            Some(b) => uuid_of(s@) == Some(b@),
            None => uuid_of(s@) is None,
        },
{
    let chars = text::chars_of(s);
    if chars.len() != 36 {
        return None;
    }
    let mut i: usize = 0;
    while i < 36
        invariant
            i <= 36,
            chars@ == s@,
            chars@.len() == 36,
            forall|j: int|
                0 <= j < i ==> if is_hyphen(j) {
                    #[trigger] s@[j] == '-'
                } else {
                    hex_value(s@[j]) is Some
                },
        decreases 36 - i,
    {
        assert(s@[i as int] == chars@[i as int]);
        if i == 8 || i == 13 || i == 18 || i == 23 {
            if chars[i] != '-' {
                return None;
            }
        } else {
            match hex_of(chars[i]) {
                Some(_) => {},
                None => {
                    return None;
                },
            }
        }
        i += 1;
    }
    let mut out: [u8; 16] = [0u8; 16];
    let ghost want = uuid_of(s@)->0;
    let mut k: usize = 0;
    while k < 16
        invariant
            k <= 16,
            chars@ == s@,
            is_uuid_text(s@),
            want == uuid_of(s@)->0,
            forall|j: int| 0 <= j < k ==> out@[j] == want[j],
        decreases 16 - k,
    {
        let mut at: usize = 2 * k;
        if k >= 4 {
            at += 1;
        }
        if k >= 6 {
            at += 1;
        }
        if k >= 8 {
            at += 1;
        }
        if k >= 10 {
            at += 1;
        }
        assert(at == byte_at(k as int));
        assert(hex_value(s@[at as int]) is Some);
        assert(hex_value(s@[at as int + 1]) is Some);
        let high: u8 = match hex_of(chars[at]) {
            Some(n) => n,
            None => 0,
        };
        let low: u8 = match hex_of(chars[at + 1]) {
            Some(n) => n,
            None => 0,
        };
        out[k] = 16 * high + low;
        k += 1;
    }
    proof {
        assert(out@ =~= want);
    }
    Some(out)
}

/// A key as JSON.
pub open spec fn key_json(k: Key) -> Tree {
    match k {
        Key::U64(n) => Tree::Number(Num::Unsigned(n)),
        Key::Str(s) => Tree::Text(s),
        Key::Uuid(b) => Tree::Object(seq![("uuid"@, Tree::Text(uuid_text(b)))]),
    }
}

/// The key that a JSON value names.
pub open spec fn json_key(t: Tree) -> Option<Key> {
    match t {
        Tree::Number(Num::Unsigned(n)) => Some(Key::U64(n)),
        Tree::Text(s) => Some(Key::Str(s)),
        Tree::Object(entries) => if entries.len() == 1 {
            match value::lookup(entries, "uuid"@) {
                Some(Tree::Text(s)) => match uuid_of(s) {
                    Some(b) => Some(Key::Uuid(b)),
                    None => None,
                },
                _ => None,
            }
        } else {
            None
        },
        _ => None,
    }
}

/// The message for a value that names no key.
pub open spec fn invalid_id(t: Tree) -> Seq<char> {
    "invalid id "@ + value::json_text(t)
        + ": expected an unsigned integer, a string or {\"uuid\": \"…\"}"@
}

/// A key comes back from its JSON.
pub proof fn key_json_round_trip(k: Key)
    requires
        key::is_key(k),
    ensures
        json_key(key_json(k)) == Some(k),
{
    match k {
        Key::Uuid(b) => {
            uuid_round_trip(b);
            let entries = seq![("uuid"@, Tree::Text(uuid_text(b)))];
            assert(entries[0].0 == "uuid"@);
            assert(value::lookup(entries, "uuid"@) == Some(entries[0].1));
        },
        _ => {},
    }
}

/// The JSON of `pk`.
pub fn to_json(pk: &PrimaryKey) -> (r: Json)
    ensures
        r@ == key_json(pk@),
{
    broadcast use value::view_object;

    match pk {
        PrimaryKey::U64(n) => Json::Number(Number::Unsigned(*n)),
        PrimaryKey::Str(s) => Json::Text(s.clone()),
        PrimaryKey::Uuid(b) => {
            let mut entries: Vec<(String, Json)> = Vec::new();
            entries.push(("uuid".to_owned(), Json::Text(format_uuid(b))));
            proof {
                assert(value::entries_of(entries@) =~= seq![
                    ("uuid"@, Tree::Text(uuid_text(b@))),
                ]);
            }
            Json::Object(entries)
        },
    }
}

fn refused(v: &Json) -> (r: ServiceError)
    ensures
        r@ == Failure::InvalidArgument(invalid_id(v@)),
{
    let shown = v.text();
    ServiceError::InvalidArgument(
        text::cat3(
            "invalid id ",
            shown.as_str(),
            ": expected an unsigned integer, a string or {\"uuid\": \"…\"}",
        ),
    )
}

/// The key `v` names; invalid for any other JSON.
pub fn from_json(v: &Json) -> (r: Result<PrimaryKey, ServiceError>)
    ensures
        match r {
            Ok(k) => json_key(v@) == Some(k@),
            Err(e) => json_key(v@) is None && e@ == Failure::InvalidArgument(invalid_id(v@)),
        },
{
    broadcast use value::view_object;

    match v {
        Json::Number(Number::Unsigned(n)) => Ok(PrimaryKey::U64(*n)),
        Json::Text(s) => Ok(PrimaryKey::Str(s.clone())),
        Json::Object(entries) => {
            if entries.len() != 1 {
                return Err(refused(v));
            }
            match value::find(entries, "uuid") {
                Some(Json::Text(s)) => match parse_uuid(s.as_str()) {
                    Some(b) => Ok(PrimaryKey::Uuid(b)),
                    None => Err(refused(v)),
                },
                _ => Err(refused(v)),
            }
        },
        _ => Err(refused(v)),
    }
}

/// The keys of a JSON list.
pub open spec fn list_keys(items: Seq<Tree>) -> Option<Seq<Key>> {
    if forall|i: int| 0 <= i < items.len() ==> json_key(#[trigger] items[i]) is Some {
        Some(Seq::new(items.len(), |i: int| json_key(items[i])->0))
    } else {
        None
    }
}

/// What some keys are.
pub open spec fn key_views(s: Seq<PrimaryKey>) -> Seq<Key> {
    Seq::new(s.len(), |i: int| s[i]@)
}

/// The keys of a JSON list; the error of the first item that names none.
pub fn list_from_json(items: &Vec<Json>) -> (r: Result<Vec<PrimaryKey>, ServiceError>)
    ensures
        match r {
            Ok(keys) => list_keys(value::items_of(items@)) == Some(key_views(keys@)),
            Err(e) => exists|i: int|
                0 <= i < items@.len() && json_key((#[trigger] items@[i])@) is None && e@
                    == Failure::InvalidArgument(invalid_id(items@[i]@)) && forall|j: int|
                    0 <= j < i ==> json_key((#[trigger] items@[j])@) is Some,
        },
{
    let ghost all = value::items_of(items@);
    let mut out: Vec<PrimaryKey> = Vec::new();
    let mut i: usize = 0;
    while i < items.len()
        invariant
            i <= items@.len(),
            all == value::items_of(items@),
            out@.len() == i,
            forall|j: int|
                0 <= j < i ==> json_key((#[trigger] items@[j])@) == Some(out@[j]@),
        decreases items.len() - i,
    {
        match from_json(&items[i]) {
            Ok(k) => {
                out.push(k);
            },
            Err(e) => {
                return Err(e);
            },
        }
        i += 1;
    }
    proof {
        assert forall|j: int| 0 <= j < all.len() implies json_key(#[trigger] all[j]) is Some by {
            assert(all[j] == items@[j]@);
        }
        assert forall|j: int| 0 <= j < all.len() implies json_key(all[j])->0 == out@[j]@ by {
            assert(all[j] == items@[j]@);
        }
        assert(list_keys(all)->0 =~= key_views(out@));
    }
    Ok(out)
}

} // verus!
