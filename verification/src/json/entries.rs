//! Entries of objects: finding, setting and removing them by name.

use crate::json::value;
use crate::json::value::{Json, Tree};
use crate::text;
use vstd::prelude::*;
use vstd::string::*;

verus! {

/// The names of some entries.
pub open spec fn keys<T>(s: Seq<(Seq<char>, T)>) -> Seq<Seq<char>> {
    Seq::new(s.len(), |i: int| s[i].0)
}

/// The place of a name, from the `i`-th on.
pub open spec fn place(names: Seq<Seq<char>>, name: Seq<char>, i: int) -> Option<int>
    decreases names.len() - i,
{
    if i < 0 || i >= names.len() {
        None
    } else if names[i] == name {
        Some(i)
    } else {
        place(names, name, i + 1)
    }
}

/// Entries with a name set: in its place, or at the end where it is new.
pub open spec fn put<T>(s: Seq<(Seq<char>, T)>, name: Seq<char>, v: T) -> Seq<(Seq<char>, T)> {
    match place(keys(s), name, 0) {
        Some(i) => s.update(i, (name, v)),
        None => s.push((name, v)),
    }
}

/// The names of some entries.
pub open spec fn key_texts<T>(s: Seq<(String, T)>) -> Seq<Seq<char>> {
    Seq::new(s.len(), |i: int| s[i].0@)
}

/// The place of a name, the first if there are several.
pub fn find_named<T>(s: &Vec<(String, T)>, name: &str) -> (r: Option<usize>)
    ensures
        match r {
            Some(i) => i < s@.len() && place(key_texts(s@), name@, 0) == Some(i as int),
            None => place(key_texts(s@), name@, 0) is None,
        },
{
    let ghost ks = key_texts(s@);
    let mut i: usize = 0;
    while i < s.len()
        invariant
            i <= s@.len(),
            ks == key_texts(s@),
            place(ks, name@, 0) == place(ks, name@, i as int),
        decreases s.len() - i,
    {
        if text::same(&s[i].0, name) {
            assert(ks[i as int] == name@);
            return Some(i);
        }
        i += 1;
    }
    None
}

/// Whether entries stand in the order of their names, each name once.
pub open spec fn by_name<T>(s: Seq<(Seq<char>, T)>) -> bool {
    forall|i: int, j: int|
        0 <= i < j < s.len() ==> text::before((#[trigger] s[i]).0, (#[trigger] s[j]).0)
}

/// Where a name belongs among names in order, from the `i`-th on: at the
/// first that does not come before it.
pub open spec fn slot(names: Seq<Seq<char>>, name: Seq<char>, i: int) -> int
    decreases names.len() - i,
{
    if i < 0 || i >= names.len() || !text::before(names[i], name) {
        i
    } else {
        slot(names, name, i + 1)
    }
}

/// Entries in the order of their names with a name set.
pub open spec fn put_by_name<T>(s: Seq<(Seq<char>, T)>, name: Seq<char>, v: T) -> Seq<
    (Seq<char>, T),
> {
    let i = slot(keys(s), name, 0);
    if i < s.len() && s[i].0 == name {
        s.update(i, (name, v))
    } else {
        s.insert(i, (name, v))
    }
}

proof fn slot_is(names: Seq<Seq<char>>, name: Seq<char>, i: int)
    requires
        0 <= i <= names.len(),
        forall|j: int| 0 <= j < i ==> text::before(#[trigger] names[j], name),
    ensures
        0 <= slot(names, name, i) <= names.len(),
        forall|j: int| 0 <= j < slot(names, name, i) ==> text::before(#[trigger] names[j], name),
        slot(names, name, i) < names.len() ==> !text::before(names[slot(names, name, i)], name),
    decreases names.len() - i,
{
    if i < names.len() && text::before(names[i], name) {
        slot_is(names, name, i + 1);
    }
}

/// Setting a name keeps entries in the order of their names.
pub proof fn puts_keep_the_order<T>(s: Seq<(Seq<char>, T)>, name: Seq<char>, v: T)
    requires
        by_name(s),
    ensures
        by_name(put_by_name(s, name, v)),
{
    let ks = keys(s);
    let i = slot(ks, name, 0);
    slot_is(ks, name, 0);
    let r = put_by_name(s, name, v);
    assert forall|a: int, b: int| 0 <= a < b < r.len() implies text::before(
        (#[trigger] r[a]).0,
        (#[trigger] r[b]).0,
    ) by {
        if i < s.len() && s[i].0 == name {
            assert(r[a].0 == s[a].0 && r[b].0 == s[b].0);
        } else if b < i {
            assert(r[a] == s[a] && r[b] == s[b]);
        } else if b == i {
            assert(r[a] == s[a] && text::before(ks[a], name));
        } else {
            assert(r[b] == s[b - 1]);
            if a < i {
                assert(r[a] == s[a]);
            } else if a > i {
                assert(r[a] == s[a - 1]);
            } else {
                text::before_is_total(ks[i], name);
                if b - 1 > i {
                    assert(text::before(s[i].0, s[b - 1].0));
                    text::before_is_transitive(name, s[i].0, s[b - 1].0);
                }
            }
        }
    }
}

/// A name that is set has its new value, and every other entry stays.
pub proof fn puts_set_one_name<T>(s: Seq<(Seq<char>, T)>, name: Seq<char>, v: T, e: (Seq<char>, T))
    requires
        by_name(s),
    ensures
        put_by_name(s, name, v).contains(e) <==> e == (name, v) || (s.contains(e) && e.0 != name),
{
    let ks = keys(s);
    let i = slot(ks, name, 0);
    slot_is(ks, name, 0);
    let r = put_by_name(s, name, v);
    assert(r[i] == (name, v));
    if s.contains(e) && e.0 != name {
        let j = choose|j: int| 0 <= j < s.len() && s[j] == e;
        if i < s.len() && s[i].0 == name {
            assert(r[j] == e);
        } else if j < i {
            assert(r[j] == e);
        } else {
            assert(r[j + 1] == e);
        }
    }
    if r.contains(e) && e != (name, v) {
        let j = choose|j: int| 0 <= j < r.len() && r[j] == e;
        if i < s.len() && s[i].0 == name {
            assert(s[j] == e);
            if j < i {
                assert(text::before(s[j].0, s[i].0));
            } else {
                assert(text::before(s[i].0, s[j].0));
            }
            text::before_is_strict(name);
        } else if j < i {
            assert(s[j] == e);
            assert(text::before(ks[j], name));
            text::before_is_strict(name);
        } else {
            assert(s[j - 1] == e);
            if e.0 == name {
                if j - 1 > i {
                    assert(text::before(s[i].0, s[j - 1].0));
                    assert(!text::before(ks[i], name));
                }
            }
        }
    }
}

/// Where a name belongs among entries in the order of their names, and
/// whether it is there.
pub fn find_slot<T>(s: &Vec<(String, T)>, name: &str) -> (r: (usize, bool))
    ensures
        r.0 <= s@.len(),
        r.0 == slot(key_texts(s@), name@, 0),
        r.1 == (r.0 < s@.len() && s@[r.0 as int].0@ == name@),
{
    let ghost ks = key_texts(s@);
    let mut i: usize = 0;
    while i < s.len()
        invariant
            i <= s@.len(),
            ks == key_texts(s@),
            slot(ks, name@, 0) == slot(ks, name@, i as int),
        decreases s.len() - i,
    {
        assert(ks[i as int] == s@[i as int].0@);
        if !text::comes_before(&s[i].0, name) {
            return (i, text::same(&s[i].0, name));
        }
        i += 1;
    }
    (i, false)
}

/// A name that is set is found with its new value, and any other name as
/// before.
pub proof fn puts_are_found(s: Seq<(Seq<char>, Tree)>, name: Seq<char>, v: Tree, other: Seq<char>)
    ensures
        value::lookup(put(s, name, v), other) == (if other == name {
            Some(v)
        } else {
            value::lookup(s, other)
        }),
    decreases s.len(),
{
    if s.len() == 0 {
        assert(put(s, name, v) =~= seq![(name, v)]);
        assert(put(s, name, v).drop_first() =~= s);
    } else {
        let t = s.drop_first();
        assert(keys(t) =~= keys(s).drop_first());
        if s[0].0 == name {
            assert(put(s, name, v).drop_first() =~= t);
        } else {
            place_behind(keys(s), name, 1);
            puts_are_found(t, name, v, other);
            assert(put(s, name, v).drop_first() =~= put(t, name, v));
        }
    }
}

proof fn place_behind(names: Seq<Seq<char>>, name: Seq<char>, i: int)
    requires
        1 <= i <= names.len(),
    ensures
        place(names, name, i) == (match place(names.drop_first(), name, i - 1) {
            Some(j) => Some(j + 1),
            None => None,
        }),
        place(names, name, i) matches Some(j) ==> i <= j < names.len(),
    decreases names.len() - i,
{
    if i < names.len() {
        assert(names.drop_first()[i - 1] == names[i]);
        if names[i] != name {
            place_behind(names, name, i + 1);
        }
    }
}

/// Sets a name: in its place, or at the end where it is new.
pub fn put_entry(s: &mut Vec<(String, Json)>, name: &str, v: Json)
    ensures
        value::entries_of(final(s)@) == put(value::entries_of(old(s)@), name@, v@),
{
    let ghost was = value::entries_of(s@);
    proof {
        assert(keys(was) =~= key_texts(s@));
    }
    match find_named(s, name) {
        Some(i) => {
            s.set(i, (name.to_owned(), v));
            assert(value::entries_of(s@) =~= was.update(i as int, (name@, v@)));
        },
        None => {
            s.push((name.to_owned(), v));
            assert(value::entries_of(s@) =~= was.push((name@, v@)));
        },
    }
}

/// Sets a name among entries in the order of their names.
pub fn put_entry_by_name(s: &mut Vec<(String, Json)>, name: &str, v: Json)
    ensures
        value::entries_of(final(s)@) == put_by_name(value::entries_of(old(s)@), name@, v@),
{
    let ghost was = value::entries_of(s@);
    proof {
        assert(keys(was) =~= key_texts(s@));
    }
    let (i, there) = find_slot(s, name);
    proof {
        assert(i < s@.len() ==> was[i as int].0 == s@[i as int].0@);
    }
    if there {
        s.set(i, (name.to_owned(), v));
        assert(value::entries_of(s@) =~= was.update(i as int, (name@, v@)));
    } else {
        s.insert(i, (name.to_owned(), v));
        assert(value::entries_of(s@) =~= was.insert(i as int, (name@, v@)));
    }
}

/// Whether an object has a name.
pub open spec fn has(entries: Seq<(Seq<char>, Tree)>, name: Seq<char>) -> bool {
    value::lookup(entries, name) is Some
}

/// Entries of any other name.
pub open spec fn other_than(name: Seq<char>) -> spec_fn((Seq<char>, Tree)) -> bool {
    |e: (Seq<char>, Tree)| e.0 != name
}

/// Entries without a name.
pub open spec fn without(entries: Seq<(Seq<char>, Tree)>, name: Seq<char>) -> Seq<
    (Seq<char>, Tree),
> {
    entries.filter(other_than(name))
}

/// A copy of entries without a name.
pub fn copy_without(entries: &Vec<(String, Json)>, name: &str) -> (r: Vec<(String, Json)>)
    ensures
        value::entries_of(r@) == without(value::entries_of(entries@), name@),
{
    let ghost all = value::entries_of(entries@);
    let ghost keep = other_than(name@);
    let mut out: Vec<(String, Json)> = Vec::new();
    let mut i: usize = 0;
    proof {
        assert(all.take(0).filter(keep) =~= value::entries_of(out@)) by {
            reveal(Seq::filter);
        }
    }
    while i < entries.len()
        invariant
            i <= entries@.len(),
            all == value::entries_of(entries@),
            keep == other_than(name@),
            value::entries_of(out@) == all.take(i as int).filter(keep),
        decreases entries.len() - i,
    {
        let ghost was = value::entries_of(out@);
        if !text::same(&entries[i].0, name) {
            let v = entries[i].1.copy();
            out.push((entries[i].0.clone(), v));
            assert(value::entries_of(out@) =~= was.push(all[i as int]));
        }
        proof {
            assert(all.take(i as int + 1).drop_last() =~= all.take(i as int));
            reveal(Seq::filter);
            assert(value::entries_of(out@) =~= all.take(i as int + 1).filter(keep));
        }
        i += 1;
    }
    proof {
        assert(all.take(all.len() as int) =~= all);
    }
    out
}

/// The place of the first entry of a name.
pub fn find_entry(entries: &Vec<(String, Json)>, name: &str) -> (r: Option<usize>)
    ensures
        match r {
            Some(i) => i < entries@.len() && value::lookup(value::entries_of(entries@), name@)
                == Some(entries@[i as int].1@),
            None => value::lookup(value::entries_of(entries@), name@) is None,
        },
{
    let ghost all = value::entries_of(entries@);
    let mut i: usize = 0;
    proof {
        assert(all.skip(0) =~= all);
    }
    while i < entries.len()
        invariant
            i <= entries@.len(),
            all == value::entries_of(entries@),
            value::lookup(all, name@) == value::lookup(all.skip(i as int), name@),
        decreases entries.len() - i,
    {
        let ghost rest = all.skip(i as int);
        proof {
            assert(rest.drop_first() =~= all.skip(i as int + 1));
            assert(rest[0] == (entries@[i as int].0@, entries@[i as int].1@));
        }
        if text::same(&entries[i].0, name) {
            return Some(i);
        }
        i += 1;
    }
    None
}

/// A value of an object is one of its entries.
pub proof fn lookup_is_entry(entries: Seq<(Seq<char>, Tree)>, name: Seq<char>)
    ensures
        value::lookup(entries, name) matches Some(t) ==> exists|i: int|
            0 <= i < entries.len() && (#[trigger] entries[i]).1 == t && entries[i].0 == name,
    decreases entries.len(),
{
    if entries.len() > 0 && entries[0].0 != name {
        lookup_is_entry(entries.drop_first(), name);
        if let Some(t) = value::lookup(entries.drop_first(), name) {
            let i = choose|i: int|
                0 <= i < entries.drop_first().len() && (#[trigger] entries.drop_first()[i]).1 == t
                    && entries.drop_first()[i].0 == name;
            assert(entries[i + 1] == entries.drop_first()[i]);
        }
    }
}

} // verus!
