//! Text building and reading: concatenation, decimal numbers, prefixes and
//! the byte order of strings.

use vstd::prelude::*;
use vstd::string::*;

verus! {

/// `String::push` appends one character.
pub assume_specification[ String::push ](s: &mut String, c: char)
    ensures
        final(s)@ == old(s)@.push(c),
;

pub uninterp spec fn debug_text(s: Seq<char>) -> Seq<char>;

/// The `Debug` form of a string, as `format!("{:?}", s)` writes it: the
/// contract names the text, a function of the string alone.
#[verifier::external_body]
pub(crate) fn debug_of(s: &str) -> (r: String)
    ensures
        r@ == debug_text(s@),
{
    format!("{:?}", s)
}

/// Whether two strings hold the same characters.
pub fn same(a: &str, b: &str) -> (r: bool)
    ensures
        r == (a@ == b@),
{
    let x = a.to_owned();
    let y = b.to_owned();
    x == y
}

/// The concatenation of three pieces.
pub fn cat3(a: &str, b: &str, c: &str) -> (r: String)
    ensures
        r@ == a@ + b@ + c@,
{
    let mut out = a.to_owned();
    out.append(b);
    out.append(c);
    out
}

/// The concatenation of two pieces.
pub fn cat2(a: &str, b: &str) -> (r: String)
    ensures
        r@ == a@ + b@,
{
    let mut out = a.to_owned();
    out.append(b);
    out
}

/// The characters of a string.
pub fn chars_of(s: &str) -> (r: Vec<char>)
    ensures
        r@ == s@,
{
    let mut out: Vec<char> = Vec::new();
    for c in it: s.chars()
        invariant
            it.seq() == s@,
            out@ == s@.take(it.index() as int),
    {
        out.push(c);
        proof {
            assert(s@.take(it.index() as int + 1) =~= s@.take(it.index() as int).push(c));
        }
    }
    proof {
        assert(s@.take(s@.len() as int) =~= s@);
    }
    out
}

/// The character of a decimal digit.
pub open spec fn digit(d: int) -> char {
    (d + 48) as char
}

/// The shortest decimal form of a number.
pub open spec fn decimal(n: nat) -> Seq<char>
    decreases n,
{
    if n < 10 {
        seq![digit(n as int)]
    } else {
        decimal(n / 10).push(digit((n % 10) as int))
    }
}

/// The shortest decimal form of a signed number.
pub open spec fn decimal_int(n: int) -> Seq<char> {
    if n < 0 {
        seq!['-'] + decimal((-n) as nat)
    } else {
        decimal(n as nat)
    }
}

fn digit_char(d: u64) -> (r: char)
    requires
        d < 10,
    ensures
        r == digit(d as int),
{
    let b: u8 = (d as u8) + 48;
    b as char
}

fn push_decimal(out: &mut String, n: u64)
    ensures
        final(out)@ == old(out)@ + decimal(n as nat),
    decreases n,
{
    if n < 10 {
        out.push(digit_char(n));
        proof {
            assert(old(out)@.push(digit(n as int)) =~= old(out)@ + decimal(n as nat));
        }
    } else {
        push_decimal(out, n / 10);
        out.push(digit_char(n % 10));
        proof {
            assert((old(out)@ + decimal((n / 10) as nat)).push(digit((n % 10) as int)) =~= old(out)@
                + decimal(n as nat));
        }
    }
}

/// `n` in decimal.
pub fn dec(n: u64) -> (r: String)
    ensures
        r@ == decimal(n as nat),
{
    let mut out = String::new();
    push_decimal(&mut out, n);
    proof {
        assert(Seq::<char>::empty() + decimal(n as nat) =~= decimal(n as nat));
    }
    out
}

/// `n` in decimal, with a sign when negative.
pub fn dec_i64(n: i64) -> (r: String)
    ensures
        r@ == decimal_int(n as int),
{
    if n < 0 {
        let magnitude: u64 = (-(n as i128)) as u64;
        let digits = dec(magnitude);
        proof {
            reveal_strlit("-");
            assert("-"@ =~= seq!['-']);
        }
        cat2("-", digits.as_str())
    } else {
        dec(n as u64)
    }
}

/// Whether `s` begins with `p`.
pub open spec fn begins(s: Seq<char>, p: Seq<char>) -> bool {
    s.len() >= p.len() && s.take(p.len() as int) == p
}

/// `s` without the prefix `p`, when it begins with it.
pub open spec fn without_prefix(s: Seq<char>, p: Seq<char>) -> Option<Seq<char>> {
    if begins(s, p) {
        Some(s.skip(p.len() as int))
    } else {
        None
    }
}

/// What follows a prefix is what was put after it.
pub broadcast proof fn prefix_of_sum(p: Seq<char>, s: Seq<char>)
    ensures
        #[trigger] without_prefix(p + s, p) == Some(s),
{
    assert((p + s).take(p.len() as int) =~= p);
    assert((p + s).skip(p.len() as int) =~= s);
}

/// `s` without the prefix `p`, when it begins with it.
pub fn strip_prefix<'a>(s: &'a str, p: &str) -> (r: Option<&'a str>)
    ensures
        match r {
            Some(rest) => without_prefix(s@, p@) == Some(rest@),
            None => without_prefix(s@, p@) is None,
        },
{
    let n: usize = s.unicode_len();
    let m: usize = p.unicode_len();
    if n < m {
        return None;
    }
    proof {
        assert(s@.subrange(0, m as int) =~= s@.take(m as int));
        assert(s@.subrange(m as int, n as int) =~= s@.skip(m as int));
    }
    if same(s.substring_char(0, m), p) {
        Some(s.substring_char(m, n))
    } else {
        None
    }
}

/// The texts of some strings.
pub open spec fn texts(s: Seq<String>) -> Seq<Seq<char>> {
    Seq::new(s.len(), |i: int| s[i]@)
}

/// The text of a string that may be missing.
pub open spec fn opt_text(s: Option<String>) -> Option<Seq<char>> {
    match s {
        Some(s) => Some(s@),
        None => None,
    }
}

/// A copy of some strings.
pub fn copy_all(v: &Vec<String>) -> (r: Vec<String>)
    ensures
        texts(r@) == texts(v@),
{
    let mut out: Vec<String> = Vec::new();
    let mut i: usize = 0;
    while i < v.len()
        invariant
            i <= v@.len(),
            out@.len() == i,
            forall|j: int| 0 <= j < i ==> (#[trigger] out@[j])@ == v@[j]@,
        decreases v.len() - i,
    {
        out.push(v[i].clone());
        i += 1;
    }
    proof {
        assert(texts(out@) =~= texts(v@));
    }
    out
}

/// A copy of a string that may be missing.
pub fn copy_opt(v: &Option<String>) -> (r: Option<String>)
    ensures
        opt_text(r) == opt_text(*v),
{
    match v {
        Some(s) => Some(s.clone()),
        None => None,
    }
}

/// `i` is the first place of `key` among `names`.
pub open spec fn is_first(names: Seq<Seq<char>>, key: Seq<char>, i: int) -> bool {
    &&& 0 <= i < names.len()
    &&& names[i] == key
    &&& forall|j: int| 0 <= j < i ==> #[trigger] names[j] != key
}

/// `key` is none of `names`.
pub open spec fn absent(names: Seq<Seq<char>>, key: Seq<char>) -> bool {
    forall|j: int| 0 <= j < names.len() ==> #[trigger] names[j] != key
}

/// The place of `key` among `names`, the first if it has several.
pub fn find(names: &Vec<String>, key: &str) -> (r: Option<usize>)
    ensures
        match r {
            Some(i) => is_first(texts(names@), key@, i as int),
            None => absent(texts(names@), key@),
        },
{
    let ghost all = texts(names@);
    let mut i: usize = 0;
    while i < names.len()
        invariant
            i <= names@.len(),
            all == texts(names@),
            forall|j: int| 0 <= j < i ==> #[trigger] all[j] != key@,
        decreases names.len() - i,
    {
        assert(all[i as int] == names@[i as int]@);
        if same(names[i].as_str(), key) {
            return Some(i);
        }
        i += 1;
    }
    None
}

/// Some zeros.
pub open spec fn zeros(n: nat) -> Seq<char> {
    Seq::new(n, |i: int| '0')
}

/// `n` in decimal, with zeros before it up to a width.
pub open spec fn padded(n: nat, width: nat) -> Seq<char> {
    if decimal(n).len() < width {
        zeros((width - decimal(n).len()) as nat) + decimal(n)
    } else {
        decimal(n)
    }
}

/// Appends `n` with zeros before it up to a width.
pub fn push_padded(out: &mut String, n: u64, width: usize)
    ensures
        final(out)@ == old(out)@ + padded(n as nat, width as nat),
{
    let digits = dec(n);
    let len: usize = digits.as_str().unicode_len();
    let mut i: usize = len;
    let ghost start = out@;
    proof {
        assert(start + zeros(0) =~= start);
    }
    while i < width
        invariant
            len == digits@.len(),
            len <= i,
            i <= width || i == len,
            out@ == start + zeros((i - len) as nat),
        decreases width - i,
    {
        out.push('0');
        i += 1;
        proof {
            assert(out@ =~= start + zeros((i - len) as nat));
        }
    }
    out.append(digits.as_str());
    proof {
        assert(out@ =~= start + padded(n as nat, width as nat));
    }
}

/// A decimal digit.
pub open spec fn is_digit(c: char) -> bool {
    '0' <= c <= '9'
}

/// At least one digit, and nothing else.
pub open spec fn is_digits(s: Seq<char>) -> bool {
    s.len() > 0 && forall|i: int| 0 <= i < s.len() ==> is_digit(#[trigger] s[i])
}

/// The number that some digits write.
pub open spec fn value(s: Seq<char>) -> nat
    decreases s.len(),
{
    if s.len() == 0 {
        0
    } else {
        value(s.drop_last()) * 10 + (s.last() as int - 48) as nat
    }
}

/// Digits without a leading zero, but for zero itself.
pub open spec fn is_canonical(s: Seq<char>) -> bool {
    is_digits(s) && (s.len() == 1 || s[0] != '0')
}

proof fn leading_digit(s: Seq<char>)
    requires
        is_digits(s),
        s[0] != '0',
    ensures
        value(s) >= 1,
    decreases s.len(),
{
    let t = s.drop_last();
    if t.len() > 0 {
        assert forall|i: int| 0 <= i < t.len() implies is_digit(#[trigger] t[i]) by {
            assert(t[i] == s[i]);
        }
        assert(t[0] == s[0]);
        leading_digit(t);
    } else {
        assert(s[0] == s.last());
        assert(is_digit(s[0]));
    }
}

/// Canonical digits are the decimal form of the number that they write.
pub proof fn canonical_is_decimal(s: Seq<char>)
    requires
        is_canonical(s),
    ensures
        decimal(value(s)) == s,
    decreases s.len(),
{
    let t = s.drop_last();
    let last = s[s.len() - 1];
    assert(is_digit(last));
    let d = (last as int - 48) as nat;
    assert(digit(d as int) == last);
    if s.len() == 1 {
        assert(value(t) == 0);
        assert(decimal(d) =~= s);
    } else {
        assert forall|i: int| 0 <= i < t.len() implies is_digit(#[trigger] t[i]) by {
            assert(t[i] == s[i]);
        }
        assert(t[0] == s[0]);
        leading_digit(t);
        canonical_is_decimal(t);
        let v = value(s);
        assert(v / 10 == value(t) && v % 10 == d);
        assert(decimal(v) =~= s);
    }
}

/// The decimal form of a number is canonical, and writes it.
pub proof fn decimal_is_canonical(n: nat)
    ensures
        is_canonical(decimal(n)),
        value(decimal(n)) == n,
        n > 0 ==> decimal(n)[0] != '0',
    decreases n,
{
    let s = decimal(n);
    if n < 10 {
        assert(s.drop_last() =~= Seq::<char>::empty());
        assert(value(s.drop_last()) == 0);
        assert(s[0] == digit(n as int));
    } else {
        let t = decimal(n / 10);
        decimal_is_canonical(n / 10);
        assert(s.drop_last() =~= t);
        assert(s.last() == digit((n % 10) as int));
        assert forall|i: int| 0 <= i < s.len() implies is_digit(#[trigger] s[i]) by {
            if i < t.len() {
                assert(s[i] == t[i]);
            }
        }
        assert(s[0] == t[0]);
    }
}

/// Digits before others are worth no more.
proof fn value_grows(s: Seq<char>, n: int)
    requires
        is_digits(s),
        0 <= n <= s.len(),
    ensures
        value(s.take(n)) <= value(s),
    decreases s.len() - n,
{
    if n < s.len() {
        value_grows(s, n + 1);
        let t = s.take(n + 1);
        assert(t.drop_last() =~= s.take(n));
        assert(is_digit(s[n]));
        assert(value(t) >= value(s.take(n)) * 10);
    } else {
        assert(s.take(n) =~= s);
    }
}

/// The number that the characters from `from` on write, if they are digits
/// of a 64-bit number.
fn digits_value(chars: &Vec<char>, from: usize) -> (r: Option<u64>)
    requires
        from <= chars@.len(),
    ensures
        ({
            let s = chars@.skip(from as int);
            match r {
                Some(n) => is_digits(s) && value(s) == n,
                None => !(is_digits(s) && value(s) <= u64::MAX),
            }
        }),
{
    let ghost s = chars@.skip(from as int);
    if from == chars.len() {
        return None;
    }
    let mut total: u64 = 0;
    let mut i: usize = from;
    while i < chars.len()
        invariant
            from <= i <= chars@.len(),
            s == chars@.skip(from as int),
            total == value(s.take(i - from)),
            forall|j: int| 0 <= j < i - from ==> is_digit(#[trigger] s[j]),
        decreases chars.len() - i,
    {
        let c: char = chars[i];
        assert(s[i - from] == c);
        if c < '0' || c > '9' {
            return None;
        }
        let d: u64 = (c as u32 - 48) as u64;
        proof {
            let t = s.take(i - from + 1);
            assert(t.drop_last() =~= s.take(i - from));
            assert(t.last() == c);
            assert(value(t) == total * 10 + d);
        }
        let next: u128 = (total as u128) * 10 + d as u128;
        if next > u64::MAX as u128 {
            proof {
                if is_digits(s) {
                    value_grows(s, i - from + 1);
                }
            }
            return None;
        }
        total = next as u64;
        i += 1;
    }
    proof {
        assert(s.take(s.len() as int) =~= s);
    }
    Some(total)
}

/// The number whose decimal form is `s`: digits only, without a leading
/// zero but for zero itself, and of at most 64 bits.
pub fn canonical_u64(s: &str) -> (r: Option<u64>)
    ensures
        match r {
            Some(n) => s@ == decimal(n as nat),
            None => forall|n: u64| s@ != #[trigger] decimal(n as nat),
        },
{
    let chars = chars_of(s);
    proof {
        assert(chars@.skip(0) =~= s@);
        assert forall|n: u64| s@ == #[trigger] decimal(n as nat) implies is_canonical(s@)
            && value(s@) == n by {
            decimal_is_canonical(n as nat);
        }
    }
    match digits_value(&chars, 0) {
        None => None,
        Some(n) => {
            if chars.len() > 1 && chars[0] == '0' {
                None
            } else {
                proof {
                    canonical_is_decimal(s@);
                }
                Some(n)
            }
        },
    }
}

/// The digits of a number that may begin with a plus sign.
pub open spec fn unsigned_digits(s: Seq<char>) -> Seq<char> {
    if s.len() > 0 && s[0] == '+' {
        s.skip(1)
    } else {
        s
    }
}

/// The number that a text writes: digits, perhaps after a plus sign.
pub open spec fn number_in(s: Seq<char>, most: nat) -> Option<nat> {
    let d = unsigned_digits(s);
    if is_digits(d) && value(d) <= most {
        Some(value(d))
    } else {
        None
    }
}

/// The number that a text writes, of at most `most`.
pub fn parse_number(s: &str, most: u64) -> (r: Option<u64>)
    ensures
        match r {
            Some(n) => number_in(s@, most as nat) == Some(n as nat),
            None => number_in(s@, most as nat) is None,
        },
{
    let chars = chars_of(s);
    let from: usize = if chars.len() > 0 && chars[0] == '+' {
        1
    } else {
        0
    };
    proof {
        assert(chars@.skip(from as int) =~= unsigned_digits(s@));
    }
    match digits_value(&chars, from) {
        Some(n) => {
            if n <= most {
                Some(n)
            } else {
                None
            }
        },
        None => None,
    }
}

/// Whether a text holds another at a place.
pub open spec fn occurs(s: Seq<char>, p: Seq<char>, i: int) -> bool {
    0 <= i && i + p.len() <= s.len() && s.subrange(i, i + p.len()) == p
}

/// The first place of a text, from the `i`-th character on.
pub open spec fn first_place(s: Seq<char>, p: Seq<char>, i: int) -> Option<int>
    decreases s.len() - i + 1,
{
    if i < 0 || i + p.len() > s.len() {
        None
    } else if occurs(s, p, i) {
        Some(i)
    } else {
        first_place(s, p, i + 1)
    }
}

/// The last place of a text, up to the `i`-th character.
pub open spec fn last_place(s: Seq<char>, p: Seq<char>, i: int) -> Option<int>
    decreases i + 1,
{
    if i < 0 {
        None
    } else if occurs(s, p, i) {
        Some(i)
    } else {
        last_place(s, p, i - 1)
    }
}

/// What stands before the first `p` in `s`, and after it.
pub open spec fn cut_first(s: Seq<char>, p: Seq<char>) -> Option<(Seq<char>, Seq<char>)> {
    match first_place(s, p, 0) {
        Some(i) => Some((s.take(i), s.skip(i + p.len()))),
        None => None,
    }
}

/// What stands before the last `p` in `s`, and after it.
pub open spec fn cut_last(s: Seq<char>, p: Seq<char>) -> Option<(Seq<char>, Seq<char>)> {
    match last_place(s, p, s.len() - p.len()) {
        Some(i) => Some((s.take(i), s.skip(i + p.len()))),
        None => None,
    }
}

/// Two texts that may be absent.
pub open spec fn opt_sides(r: Option<(&str, &str)>) -> Option<(Seq<char>, Seq<char>)> {
    match r {
        Some((a, b)) => Some((a@, b@)),
        None => None,
    }
}

/// The two sides of the first `p` in `s`.
pub fn split_first<'a>(s: &'a str, p: &str) -> (r: Option<(&'a str, &'a str)>)
    ensures
        opt_sides(r) == cut_first(s@, p@),
{
    let n: usize = s.unicode_len();
    let m: usize = p.unicode_len();
    if n < m {
        return None;
    }
    let mut i: usize = 0;
    loop
        invariant
            n == s@.len(),
            m == p@.len(),
            m <= n,
            i <= n - m,
            first_place(s@, p@, 0) == first_place(s@, p@, i as int),
        decreases n - i,
    {
        if same(s.substring_char(i, i + m), p) {
            proof {
                assert(occurs(s@, p@, i as int));
                assert(s@.subrange(0, i as int) =~= s@.take(i as int));
                assert(s@.subrange(i + m, n as int) =~= s@.skip(i + m));
            }
            return Some((s.substring_char(0, i), s.substring_char(i + m, n)));
        }
        assert(!occurs(s@, p@, i as int));
        if i == n - m {
            assert(first_place(s@, p@, i + 1) is None);
            return None;
        }
        i += 1;
    }
}

/// The two sides of the last `p` in `s`.
pub fn split_last<'a>(s: &'a str, p: &str) -> (r: Option<(&'a str, &'a str)>)
    ensures
        opt_sides(r) == cut_last(s@, p@),
{
    let n: usize = s.unicode_len();
    let m: usize = p.unicode_len();
    if n < m {
        return None;
    }
    let mut i: usize = n - m;
    loop
        invariant
            n == s@.len(),
            m == p@.len(),
            m <= n,
            i <= n - m,
            last_place(s@, p@, n - m) == last_place(s@, p@, i as int),
        decreases i,
    {
        if same(s.substring_char(i, i + m), p) {
            proof {
                assert(occurs(s@, p@, i as int));
                assert(s@.subrange(0, i as int) =~= s@.take(i as int));
                assert(s@.subrange(i + m, n as int) =~= s@.skip(i + m));
            }
            return Some((s.substring_char(0, i), s.substring_char(i + m, n)));
        }
        assert(!occurs(s@, p@, i as int));
        if i == 0 {
            assert(last_place(s@, p@, -1) is None);
            return None;
        }
        i -= 1;
    }
}

/// Whether a text comes before another in alphabetical order of their
/// characters.
pub open spec fn before(a: Seq<char>, b: Seq<char>) -> bool
    decreases a.len(),
{
    if b.len() == 0 {
        false
    } else if a.len() == 0 {
        true
    } else if a[0] == b[0] {
        before(a.drop_first(), b.drop_first())
    } else {
        a[0] < b[0]
    }
}

/// Whether a text comes before another.
pub fn comes_before(a: &str, b: &str) -> (r: bool)
    ensures
        r == before(a@, b@),
{
    let x = chars_of(a);
    let y = chars_of(b);
    let mut i: usize = 0;
    proof {
        assert(a@.skip(0) =~= a@);
        assert(b@.skip(0) =~= b@);
    }
    while i < x.len() && i < y.len()
        invariant
            x@ == a@,
            y@ == b@,
            i <= x@.len(),
            i <= y@.len(),
            before(a@, b@) == before(a@.skip(i as int), b@.skip(i as int)),
        decreases x.len() - i,
    {
        let ghost p = a@.skip(i as int);
        let ghost q = b@.skip(i as int);
        proof {
            assert(p.drop_first() =~= a@.skip(i as int + 1));
            assert(q.drop_first() =~= b@.skip(i as int + 1));
            assert(p[0] == x@[i as int] && q[0] == y@[i as int]);
        }
        if x[i] != y[i] {
            return x[i] < y[i];
        }
        i += 1;
    }
    i < y.len()
}

/// No text comes before itself.
pub proof fn before_is_strict(a: Seq<char>)
    ensures
        !before(a, a),
    decreases a.len(),
{
    if a.len() > 0 {
        before_is_strict(a.drop_first());
    }
}

/// Of two different texts one comes first.
pub proof fn before_is_total(a: Seq<char>, b: Seq<char>)
    ensures
        a == b || before(a, b) || before(b, a),
    decreases a.len(),
{
    if a.len() == 0 && b.len() == 0 {
        assert(a =~= b);
    } else if a.len() > 0 && b.len() > 0 && a[0] == b[0] {
        before_is_total(a.drop_first(), b.drop_first());
        if a.drop_first() == b.drop_first() {
            assert(a =~= seq![a[0]] + a.drop_first());
            assert(b =~= seq![b[0]] + b.drop_first());
        }
    }
}

/// The order of texts carries over.
pub proof fn before_is_transitive(a: Seq<char>, b: Seq<char>, c: Seq<char>)
    requires
        before(a, b),
        before(b, c),
    ensures
        before(a, c),
    decreases a.len(),
{
    if a.len() > 0 && a[0] == b[0] && b[0] == c[0] {
        before_is_transitive(a.drop_first(), b.drop_first(), c.drop_first());
    }
}

/// A letter in lower case, if it is one of the Latin alphabet.
pub open spec fn lower(c: char) -> char {
    if 'A' <= c <= 'Z' {
        (c as int + 32) as char
    } else {
        c
    }
}

/// Whether a text is another, upper and lower case alike.
pub open spec fn same_letters(s: Seq<char>, word: Seq<char>) -> bool {
    s.len() == word.len() && forall|i: int| 0 <= i < s.len() ==> lower(#[trigger] s[i]) == word[i]
}

fn lowered(c: char) -> (r: char)
    ensures
        r == lower(c),
{
    if 'A' <= c && c <= 'Z' {
        let b: u8 = (c as u32 + 32) as u8;
        b as char
    } else {
        c
    }
}

/// Whether a text is another, upper and lower case alike.
pub fn is_word(s: &str, word: &str) -> (r: bool)
    ensures
        r == same_letters(s@, word@),
{
    let x = chars_of(s);
    let y = chars_of(word);
    if x.len() != y.len() {
        return false;
    }
    let mut i: usize = 0;
    while i < x.len()
        invariant
            x@ == s@,
            y@ == word@,
            x@.len() == y@.len(),
            i <= x@.len(),
            forall|j: int| 0 <= j < i ==> lower(#[trigger] s@[j]) == word@[j],
        decreases x.len() - i,
    {
        if lowered(x[i]) != y[i] {
            assert(lower(s@[i as int]) != word@[i as int]);
            return false;
        }
        i += 1;
    }
    true
}

} // verus!
