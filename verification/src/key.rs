//! Primary keys, their canonical bytes and their order.
//!
//! A key's canonical form is one tag byte followed by its payload: `1` and
//! the number in eight big-endian bytes, `2` and the sixteen bytes of a
//! UUID, or `3` and the UTF-8 of a string. Keys order as their canonical
//! bytes do.

use crate::bytes;
use crate::ordering;
use crate::ordering::Sign;
use vstd::prelude::*;
use vstd::string::*;
use vstd::utf8::*;

verus! {

/// The key of a document.
#[derive(Debug)]
pub enum PrimaryKey {
    U64(u64),
    Str(String),
    Uuid([u8; 16]),
}

/// What a key is, apart from how it is stored.
pub enum Key {
    U64(u64),
    Str(Seq<char>),
    Uuid(Seq<u8>),
}

impl View for PrimaryKey {
    type V = Key;

    open spec fn view(&self) -> Key {
        match self {
            PrimaryKey::U64(n) => Key::U64(*n),
            PrimaryKey::Str(s) => Key::Str(s@),
            PrimaryKey::Uuid(b) => Key::Uuid(b@),
        }
    }
}

impl Clone for PrimaryKey {
    fn clone(&self) -> (r: Self)
        ensures
            r@ == self@,
    {
        match self {
            PrimaryKey::U64(n) => PrimaryKey::U64(*n),
            PrimaryKey::Str(s) => PrimaryKey::Str(s.clone()),
            PrimaryKey::Uuid(b) => PrimaryKey::Uuid(*b),
        }
    }
}

/// The canonical bytes of a key.
pub open spec fn canonical(k: Key) -> Seq<u8> {
    match k {
        Key::U64(n) => seq![1u8] + bytes::be(n as nat, 8),
        Key::Uuid(b) => seq![2u8] + b,
        Key::Str(s) => seq![3u8] + encode_utf8(s),
    }
}

/// A UUID has sixteen bytes.
pub open spec fn is_key(k: Key) -> bool {
    k is Uuid ==> k->Uuid_0.len() == 16
}

/// The order of keys: numbers, then UUIDs, then strings; numbers by value,
/// the others bytewise.
pub open spec fn key_sign(a: Key, b: Key) -> Sign {
    match (a, b) {
        (Key::U64(x), Key::U64(y)) => ordering::int_sign(x as int, y as int),
        (Key::U64(_), _) => Sign::Less,
        (_, Key::U64(_)) => Sign::Greater,
        (Key::Uuid(x), Key::Uuid(y)) => bytes::lex(x, y),
        (Key::Uuid(_), _) => Sign::Less,
        (_, Key::Uuid(_)) => Sign::Greater,
        (Key::Str(x), Key::Str(y)) => bytes::lex(encode_utf8(x), encode_utf8(y)),
    }
}

proof fn utf8_injective(a: Seq<char>, b: Seq<char>)
    ensures
        (encode_utf8(a) == encode_utf8(b)) == (a == b),
{
    encode_utf8_decode_utf8(a);
    encode_utf8_decode_utf8(b);
}

/// Keys order as their canonical bytes, and different keys have different
/// canonical bytes.
pub proof fn canonical_order(a: Key, b: Key)
    requires
        is_key(a),
        is_key(b),
    ensures
        key_sign(a, b) == bytes::lex(canonical(a), canonical(b)),
        key_sign(a, b) is Equal <==> a == b,
{
    let x = canonical(a);
    let y = canonical(b);
    assert(x[0] != y[0] ==> x != y);
    match (a, b) {
        (Key::U64(n), Key::U64(m)) => {
            bytes::pow256_values();
            bytes::be_order(n as nat, m as nat, 8);
            bytes::lex_prefix(seq![1u8], bytes::be(n as nat, 8), bytes::be(m as nat, 8));
            assert(x.skip(1) =~= bytes::be(n as nat, 8));
            assert(y.skip(1) =~= bytes::be(m as nat, 8));
        },
        (Key::Uuid(p), Key::Uuid(q)) => {
            bytes::lex_prefix(seq![2u8], p, q);
            assert(x.skip(1) =~= p);
            assert(y.skip(1) =~= q);
        },
        (Key::Str(p), Key::Str(q)) => {
            utf8_injective(p, q);
            bytes::lex_prefix(seq![3u8], encode_utf8(p), encode_utf8(q));
            assert(x.skip(1) =~= encode_utf8(p));
            assert(y.skip(1) =~= encode_utf8(q));
        },
        _ => {},
    }
}

/// The order of keys is a total order: exchanging the keys turns the
/// outcome round.
pub proof fn key_sign_flips(a: Key, b: Key)
    requires
        is_key(a),
        is_key(b),
    ensures
        key_sign(b, a) == key_sign(a, b).flip(),
{
    canonical_order(a, b);
    canonical_order(b, a);
    bytes::lex_total(canonical(a), canonical(b));
}

/// The order of keys is transitive.
pub proof fn key_sign_transitive(a: Key, b: Key, c: Key)
    requires
        is_key(a),
        is_key(b),
        is_key(c),
        key_sign(a, b) !is Greater,
        key_sign(b, c) !is Greater,
    ensures
        key_sign(a, c) !is Greater,
        key_sign(a, c) is Equal ==> a == b && b == c,
{
    canonical_order(a, b);
    canonical_order(b, c);
    canonical_order(a, c);
    if key_sign(a, b) is Less && key_sign(b, c) is Less {
        bytes::lex_transitive(canonical(a), canonical(b), canonical(c));
        bytes::lex_total(canonical(a), canonical(c));
    }
}

/// `String::from_utf8` on a copy of the bytes: a string exactly when they
/// are valid UTF-8, and then the one that they encode.
#[verifier::external_body]
pub(crate) fn text_of_utf8(bytes: &[u8]) -> (r: Option<String>)
    ensures
        r is Some <==> valid_utf8(bytes@),
        r matches Some(s) ==> encode_utf8(s@) == bytes@,
{
    String::from_utf8(bytes.to_vec()).ok()
}

/// Keys that decode from `bytes`.
pub open spec fn encodes(bytes: Seq<u8>, k: Key) -> bool {
    is_key(k) && canonical(k) == bytes
}

/// The key that some bytes encode.
pub open spec fn key_in(bytes: Seq<u8>) -> Option<Key> {
    if exists|k: Key| encodes(bytes, k) {
        Some(choose|k: Key| encodes(bytes, k))
    } else {
        None
    }
}

/// The key that some bytes encode, found.
pub proof fn key_in_is(bytes: Seq<u8>, k: Key)
    requires
        encodes(bytes, k),
    ensures
        key_in(bytes) == Some(k),
{
    let c = choose|c: Key| encodes(bytes, c);
    assert(encodes(bytes, c));
    canonical_order(c, k);
    bytes::lex_irreflexive(bytes);
}

impl PrimaryKey {
    /// The canonical bytes of the key.
    pub fn canonical(&self) -> (r: Vec<u8>)
        ensures
            r@ == canonical(self@),
    {
        let mut out: Vec<u8> = Vec::new();
        match self {
            PrimaryKey::U64(n) => {
                out.push(1);
                bytes::push_be(&mut out, *n, 8);
            },
            PrimaryKey::Uuid(b) => {
                out.push(2);
                let s: &[u8] = b;
                bytes::push_range(&mut out, s, 0, 16);
                proof {
                    assert(b@.subrange(0, 16) =~= b@);
                }
            },
            PrimaryKey::Str(s) => {
                out.push(3);
                let text = s.as_str();
                let b = text.as_bytes();
                bytes::push_range(&mut out, b, 0, b.len());
                proof {
                    assert(b@.subrange(0, b@.len() as int) =~= b@);
                }
            },
        }
        proof {
            assert(out@ =~= canonical(self@));
        }
        out
    }

    /// The key whose canonical bytes are `bytes`, if there is one.
    pub fn from_canonical(bytes: &[u8]) -> (r: Option<PrimaryKey>)
        ensures
            r matches Some(k) ==> encodes(bytes@, k@),
            r is None ==> forall|k: Key| !encodes(bytes@, k),
    {
        if bytes.len() == 0 {
            proof {
                assert forall|k: Key| !encodes(bytes@, k) by {
                    assert(canonical(k).len() > 0);
                }
            }
            return None;
        }
        let n: usize = bytes.len();
        let ghost rest = bytes@.skip(1);
        proof {
            assert(rest =~= bytes@.subrange(1, n as int));
            assert forall|k: Key| encodes(bytes@, k) implies match k {
                Key::U64(v) => bytes@[0] == 1 && rest == bytes::be(v as nat, 8) && rest.len() == 8,
                Key::Uuid(b) => bytes@[0] == 2 && rest == b && b.len() == 16,
                Key::Str(s) => bytes@[0] == 3 && rest == encode_utf8(s) && valid_utf8(rest),
            } by {
                match k {
                    Key::U64(v) => {
                        bytes::be_len(v as nat, 8);
                        assert(canonical(k).skip(1) =~= bytes::be(v as nat, 8));
                    },
                    Key::Uuid(b) => {
                        assert(canonical(k).skip(1) =~= b);
                    },
                    Key::Str(s) => {
                        assert(canonical(k).skip(1) =~= encode_utf8(s));
                        encode_utf8_valid_utf8(s);
                    },
                }
            }
        }
        if bytes[0] == 1 && n == 9 {
            let v: u64 = bytes::read_be(bytes, 1, 9);
            proof {
                bytes::be_value_round_trip(rest);
                assert(bytes@ =~= seq![1u8] + rest);
            }
            Some(PrimaryKey::U64(v))
        } else if bytes[0] == 2 && n == 17 {
            let mut b: [u8; 16] = [0u8; 16];
            let mut i: usize = 0;
            while i < 16
                invariant
                    i <= 16,
                    bytes@.len() == 17,
                    rest == bytes@.skip(1),
                    forall|j: int| 0 <= j < i ==> b@[j] == rest[j],
                decreases 16 - i,
            {
                b[i] = bytes[i + 1];
                i += 1;
            }
            proof {
                assert(b@ =~= rest);
                assert(bytes@ =~= seq![2u8] + rest);
            }
            Some(PrimaryKey::Uuid(b))
        } else if bytes[0] == 3 {
            let body = bytes::copy_range(bytes, 1, n);
            match text_of_utf8(body.as_slice()) {
                Some(s) => {
                    proof {
                        assert(bytes@ =~= seq![3u8] + rest);
                    }
                    Some(PrimaryKey::Str(s))
                },
                None => None,
            }
        } else {
            None
        }
    }

    /// The order of two keys.
    pub fn sign(&self, other: &PrimaryKey) -> (r: Sign)
        ensures
            r == key_sign(self@, other@),
    {
        match (self, other) {
            (PrimaryKey::U64(x), PrimaryKey::U64(y)) => {
                if *x < *y {
                    Sign::Less
                } else if *x == *y {
                    Sign::Equal
                } else {
                    Sign::Greater
                }
            },
            (PrimaryKey::U64(_), _) => Sign::Less,
            (_, PrimaryKey::U64(_)) => Sign::Greater,
            (PrimaryKey::Uuid(x), PrimaryKey::Uuid(y)) => {
                let a: &[u8] = x;
                let b: &[u8] = y;
                bytes::lex_sign(a, b)
            },
            (PrimaryKey::Uuid(_), _) => Sign::Less,
            (_, PrimaryKey::Uuid(_)) => Sign::Greater,
            (PrimaryKey::Str(x), PrimaryKey::Str(y)) => {
                bytes::lex_sign(x.as_str().as_bytes(), y.as_str().as_bytes())
            },
        }
    }

    /// Whether two keys are the same.
    pub fn same(&self, other: &PrimaryKey) -> (r: bool)
        ensures
            r == (self@ == other@),
    {
        proof {
            canonical_order(self@, other@);
        }
        match self.sign(other) {
            Sign::Equal => true,
            _ => false,
        }
    }
}

/// Reading a key's canonical bytes gives the key back, and no other key has
/// those bytes.
pub proof fn canonical_names_one_key(a: Key, b: Key)
    requires
        encodes(canonical(a), b),
        is_key(a),
    ensures
        a == b,
{
    canonical_order(a, b);
}

} // verus!
