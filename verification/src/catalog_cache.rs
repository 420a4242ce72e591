//! The names of every namespace's collections and aliases.

use crate::text;
use vstd::prelude::*;
use vstd::string::*;

verus! {

/// How many milliseconds the refresh waits before it retries a failed read.
pub const RETRY: u64 = 1_000;

/// What the cache knows of one namespace: the sorted names of its
/// collections and aliases, and the collection of each.
#[derive(Debug)]
pub struct NsEntry {
    pub names: Vec<String>,
    pub collections: Vec<(String, u64)>,
}

/// What an entry is.
pub struct EntryV {
    pub names: Seq<Seq<char>>,
    pub collections: Seq<(Seq<char>, u64)>,
}

/// What some named collections are.
pub open spec fn named_views(s: Seq<(String, u64)>) -> Seq<(Seq<char>, u64)> {
    Seq::new(s.len(), |i: int| (s[i].0@, s[i].1))
}

impl View for NsEntry {
    type V = EntryV;

    open spec fn view(&self) -> EntryV {
        EntryV {
            names: text::texts(self.names@),
            collections: named_views(self.collections@),
        }
    }
}

/// Sorted names with one more, unless it is there, from the `j`-th on.
pub open spec fn with_name(names: Seq<Seq<char>>, name: Seq<char>, j: int) -> Seq<Seq<char>>
    decreases names.len() - j,
{
    if j < 0 || j >= names.len() {
        names.push(name)
    } else if names[j] == name {
        names
    } else if text::before(name, names[j]) {
        names.insert(j, name)
    } else {
        with_name(names, name, j + 1)
    }
}

/// The collection of a name, from the `j`-th on.
pub open spec fn collection_of(cs: Seq<(Seq<char>, u64)>, name: Seq<char>, j: int) -> Option<u64>
    decreases cs.len() - j,
{
    if j < 0 || j >= cs.len() {
        None
    } else if cs[j].0 == name {
        Some(cs[j].1)
    } else {
        collection_of(cs, name, j + 1)
    }
}

/// Whether a collection of an id is among the first.
pub open spec fn has_id(collections: Seq<(Seq<char>, u64)>, id: u64) -> bool {
    exists|i: int| 0 <= i < collections.len() && (#[trigger] collections[i]).1 == id
}

/// The entry of a namespace's first `n` collections.
pub open spec fn collected(collections: Seq<(Seq<char>, u64)>, n: nat) -> EntryV
    decreases n,
{
    if n == 0 || n > collections.len() {
        EntryV { names: Seq::empty(), collections: Seq::empty() }
    } else {
        let before = collected(collections, (n - 1) as nat);
        EntryV {
            names: with_name(before.names, collections[n - 1].0, 0),
            collections: before.collections.push(collections[n - 1]),
        }
    }
}

/// The entry of a namespace's collections and first `n` aliases: an alias is
/// a name of its collection, unless a collection has that name.
pub open spec fn aliased(
    collections: Seq<(Seq<char>, u64)>,
    aliases: Seq<(Seq<char>, u64)>,
    n: nat,
) -> EntryV
    decreases n,
{
    if n == 0 || n > aliases.len() {
        collected(collections, collections.len())
    } else {
        let before = aliased(collections, aliases, (n - 1) as nat);
        let (alias, id) = aliases[n - 1];
        EntryV {
            names: with_name(before.names, alias, 0),
            collections: if has_id(collections, id) && collection_of(
                before.collections,
                alias,
                0,
            ) is None {
                before.collections.push((alias, id))
            } else {
                before.collections
            },
        }
    }
}

fn add_name(names: &mut Vec<String>, name: &str)
    ensures
        text::texts(final(names)@) == with_name(text::texts(old(names)@), name@, 0),
{
    let ghost was = text::texts(names@);
    let mut j: usize = 0;
    while j < names.len()
        invariant
            j <= names@.len(),
            names@ == old(names)@,
            was == text::texts(names@),
            with_name(was, name@, 0) == with_name(was, name@, j as int),
        decreases names.len() - j,
    {
        assert(was[j as int] == names@[j as int]@);
        if text::same(&names[j], name) {
            return ;
        }
        if text::comes_before(name, &names[j]) {
            names.insert(j, name.to_owned());
            assert(text::texts(names@) =~= was.insert(j as int, name@));
            return ;
        }
        j += 1;
    }
    names.push(name.to_owned());
    assert(text::texts(names@) =~= was.push(name@));
}

fn find_collection(cs: &Vec<(String, u64)>, name: &str) -> (r: Option<u64>)
    ensures
        r == collection_of(named_views(cs@), name@, 0),
{
    let ghost cv = named_views(cs@);
    let mut j: usize = 0;
    while j < cs.len()
        invariant
            j <= cs@.len(),
            cv == named_views(cs@),
            collection_of(cv, name@, 0) == collection_of(cv, name@, j as int),
        decreases cs.len() - j,
    {
        assert(cv[j as int] == (cs@[j as int].0@, cs@[j as int].1));
        if text::same(&cs[j].0, name) {
            return Some(cs[j].1);
        }
        j += 1;
    }
    None
}

fn holds_id(cs: &Vec<(String, u64)>, id: u64) -> (r: bool)
    ensures
        r == has_id(named_views(cs@), id),
{
    let ghost cv = named_views(cs@);
    let mut j: usize = 0;
    while j < cs.len()
        invariant
            j <= cs@.len(),
            cv == named_views(cs@),
            forall|i: int| 0 <= i < j ==> (#[trigger] cv[i]).1 != id,
        decreases cs.len() - j,
    {
        if cs[j].1 == id {
            assert(cv[j as int].1 == id);
            return true;
        }
        j += 1;
    }
    false
}

impl NsEntry {
    /// The entry of a namespace's collections and aliases, each a name and
    /// the id of its collection. A collection's own name wins over an alias.
    pub fn of(collections: &Vec<(String, u64)>, aliases: &Vec<(String, u64)>) -> (r: NsEntry)
        ensures
            r@ == aliased(
                named_views(collections@),
                named_views(aliases@),
                aliases@.len(),
            ),
    {
        let ghost cv = named_views(collections@);
        let ghost av = named_views(aliases@);
        let mut names: Vec<String> = Vec::new();
        let mut found: Vec<(String, u64)> = Vec::new();
        let mut i: usize = 0;
        proof {
            assert(text::texts(names@) =~= Seq::empty());
            assert(named_views(found@) =~= Seq::empty());
        }
        while i < collections.len()
            invariant
                i <= collections@.len(),
                cv == named_views(collections@),
                collected(cv, i as nat) == (EntryV {
                    names: text::texts(names@),
                    collections: named_views(found@),
                }),
            decreases collections.len() - i,
        {
            let ghost fv = named_views(found@);
            assert(cv[i as int] == (collections@[i as int].0@, collections@[i as int].1));
            add_name(&mut names, &collections[i].0);
            found.push((collections[i].0.clone(), collections[i].1));
            assert(named_views(found@) =~= fv.push(cv[i as int]));
            i += 1;
        }
        let mut k: usize = 0;
        while k < aliases.len()
            invariant
                k <= aliases@.len(),
                cv == named_views(collections@),
                av == named_views(aliases@),
                aliased(cv, av, k as nat) == (EntryV {
                    names: text::texts(names@),
                    collections: named_views(found@),
                }),
            decreases aliases.len() - k,
        {
            let ghost fv = named_views(found@);
            assert(av[k as int] == (aliases@[k as int].0@, aliases@[k as int].1));
            add_name(&mut names, &aliases[k].0);
            if holds_id(collections, aliases[k].1) && find_collection(
                &found,
                &aliases[k].0,
            ).is_none() {
                found.push((aliases[k].0.clone(), aliases[k].1));
                assert(named_views(found@) =~= fv.push(av[k as int]));
            }
            k += 1;
        }
        NsEntry { names, collections: found }
    }
}

/// Whether names are sorted and different.
pub open spec fn ascending(names: Seq<Seq<char>>) -> bool {
    forall|i: int, j: int|
        0 <= i < j < names.len() ==> text::before(#[trigger] names[i], #[trigger] names[j])
}

/// Adding a name keeps sorted names sorted and different, keeps those that
/// are there and has the new one.
pub proof fn names_stay_sorted(names: Seq<Seq<char>>, name: Seq<char>, j: int)
    requires
        ascending(names),
        0 <= j <= names.len(),
        forall|i: int| 0 <= i < j ==> text::before(#[trigger] names[i], name),
    ensures
        ascending(with_name(names, name, j)),
        with_name(names, name, j).contains(name),
        forall|n: Seq<char>| names.contains(n) ==> with_name(names, name, j).contains(n),
    decreases names.len() - j,
{
    let out = with_name(names, name, j);
    if j >= names.len() {
        assert(out == names.push(name));
        assert(out[names.len() as int] == name);
        assert forall|n: Seq<char>| names.contains(n) implies out.contains(n) by {
            let i = choose|i: int| 0 <= i < names.len() && names[i] == n;
            assert(out[i] == n);
        }
    } else if names[j] == name {
    } else if text::before(name, names[j]) {
        assert(out == names.insert(j, name));
        assert(out[j] == name);
        assert forall|a: int, b: int| 0 <= a < b < out.len() implies text::before(
            #[trigger] out[a],
            #[trigger] out[b],
        ) by {
            if b == j {
            } else if a == j {
                if b - 1 > j {
                    text::before_is_transitive(name, names[j], names[b - 1]);
                }
            } else if b < j {
                assert(out[a] == names[a] && out[b] == names[b]);
            } else if a > j {
                assert(out[a] == names[a - 1] && out[b] == names[b - 1]);
            } else {
                assert(out[a] == names[a] && out[b] == names[b - 1]);
            }
        }
        assert forall|n: Seq<char>| names.contains(n) implies out.contains(n) by {
            let i = choose|i: int| 0 <= i < names.len() && names[i] == n;
            if i < j {
                assert(out[i] == n);
            } else {
                assert(out[i + 1] == n);
            }
        }
    } else {
        text::before_is_total(name, names[j]);
        names_stay_sorted(names, name, j + 1);
    }
}

/// A namespace's names are sorted and different, and hold the name of each
/// of its collections and aliases.
pub proof fn every_name_is_listed(
    collections: Seq<(Seq<char>, u64)>,
    aliases: Seq<(Seq<char>, u64)>,
    n: nat,
)
    requires
        n <= aliases.len(),
    ensures
        ascending(aliased(collections, aliases, n).names),
        forall|i: int|
            0 <= i < collections.len() ==> aliased(collections, aliases, n).names.contains(
                (#[trigger] collections[i]).0,
            ),
        forall|i: int|
            0 <= i < n ==> aliased(collections, aliases, n).names.contains(
                (#[trigger] aliases[i]).0,
            ),
    decreases n,
{
    if n == 0 {
        collections_are_listed(collections, collections.len());
    } else {
        every_name_is_listed(collections, aliases, (n - 1) as nat);
        let before = aliased(collections, aliases, (n - 1) as nat).names;
        names_stay_sorted(before, aliases[n - 1].0, 0);
    }
}

proof fn collections_are_listed(collections: Seq<(Seq<char>, u64)>, n: nat)
    requires
        n <= collections.len(),
    ensures
        ascending(collected(collections, n).names),
        forall|i: int|
            0 <= i < n ==> collected(collections, n).names.contains((#[trigger] collections[i]).0),
    decreases n,
{
    if n > 0 {
        collections_are_listed(collections, (n - 1) as nat);
        let before = collected(collections, (n - 1) as nat).names;
        names_stay_sorted(before, collections[n - 1].0, 0);
    }
}

/// The names of the namespaces that were read, each with what it holds.
#[derive(Debug)]
pub struct CatalogNames {
    pub namespaces: Vec<(String, NsEntry)>,
}

/// What some namespaces hold.
pub open spec fn namespace_views(s: Seq<(String, NsEntry)>) -> Seq<(Seq<char>, EntryV)> {
    Seq::new(s.len(), |i: int| (s[i].0@, s[i].1@))
}

/// What a namespace holds, from the `j`-th on.
pub open spec fn entry_of(ns: Seq<(Seq<char>, EntryV)>, name: Seq<char>, j: int) -> Option<EntryV>
    decreases ns.len() - j,
{
    if j < 0 || j >= ns.len() {
        None
    } else if ns[j].0 == name {
        Some(ns[j].1)
    } else {
        entry_of(ns, name, j + 1)
    }
}

impl CatalogNames {
    /// No namespace.
    pub fn empty() -> (r: CatalogNames)
        ensures
            namespace_views(r.namespaces@) == Seq::<(Seq<char>, EntryV)>::empty(),
    {
        let r = CatalogNames { namespaces: Vec::new() };
        assert(namespace_views(r.namespaces@) =~= Seq::empty());
        r
    }

    fn place(&self, ns: &str) -> (r: Option<usize>)
        ensures
            match r {
                Some(i) => i < self.namespaces@.len() && self.namespaces@[i as int].0@ == ns@
                    && entry_of(namespace_views(self.namespaces@), ns@, 0) == Some(
                    self.namespaces@[i as int].1@,
                ) && forall|k: int| 0 <= k < i ==> (#[trigger] self.namespaces@[k]).0@ != ns@,
                None => entry_of(namespace_views(self.namespaces@), ns@, 0) is None && forall|
                    k: int,
                |
                    0 <= k < self.namespaces@.len() ==> (#[trigger] self.namespaces@[k]).0@ != ns@,
            },
    {
        let ghost nv = namespace_views(self.namespaces@);
        let mut j: usize = 0;
        while j < self.namespaces.len()
            invariant
                j <= self.namespaces@.len(),
                nv == namespace_views(self.namespaces@),
                entry_of(nv, ns@, 0) == entry_of(nv, ns@, j as int),
                forall|k: int| 0 <= k < j ==> (#[trigger] self.namespaces@[k]).0@ != ns@,
            decreases self.namespaces.len() - j,
        {
            assert(nv[j as int] == (
                self.namespaces@[j as int].0@,
                self.namespaces@[j as int].1@,
            ));
            if text::same(&self.namespaces[j].0, ns) {
                return Some(j);
            }
            j += 1;
        }
        None
    }

    /// The sorted names of a namespace, none for an unknown one.
    pub fn names(&self, ns: &str) -> (r: Vec<String>)
        ensures
            text::texts(r@) == (match entry_of(namespace_views(self.namespaces@), ns@, 0) {
                Some(e) => e.names,
                None => Seq::empty(),
            }),
    {
        match self.place(ns) {
            Some(i) => text::copy_all(&self.namespaces[i].1.names),
            None => {
                let out: Vec<String> = Vec::new();
                assert(text::texts(out@) =~= Seq::empty());
                out
            },
        }
    }

    /// The collection of a name or alias of a namespace.
    pub fn collection(&self, ns: &str, name_or_alias: &str) -> (r: Option<u64>)
        ensures
            r == (match entry_of(namespace_views(self.namespaces@), ns@, 0) {
                Some(e) => collection_of(e.collections, name_or_alias@, 0),
                None => None,
            }),
    {
        match self.place(ns) {
            Some(i) => find_collection(&self.namespaces[i].1.collections, name_or_alias),
            None => None,
        }
    }

    /// Takes in a namespace that was read again: what it holds, or that it
    /// is gone. The other namespaces stay as they are.
    pub fn refresh(&mut self, ns: &str, entry: Option<NsEntry>)
        requires
            distinct(namespace_views(old(self).namespaces@)),
        ensures
            distinct(namespace_views(final(self).namespaces@)),
            entry_of(namespace_views(final(self).namespaces@), ns@, 0) == (match entry {
                Some(e) => Some(e@),
                None => None,
            }),
            forall|other: Seq<char>|
                other != ns@ ==> #[trigger] entry_of(
                    namespace_views(final(self).namespaces@),
                    other,
                    0,
                ) == entry_of(namespace_views(old(self).namespaces@), other, 0),
    {
        let ghost was = namespace_views(self.namespaces@);
        let at = self.place(ns);
        match entry {
            Some(e) => {
                let ghost ev = e@;
                match at {
                    Some(i) => {
                        self.namespaces.set(i, (ns.to_owned(), e));
                        proof {
                            let now = namespace_views(self.namespaces@);
                            assert(now =~= was.update(i as int, (ns@, ev)));
                            set_entry(was, ns@, ev, i as int);
                        }
                    },
                    None => {
                        self.namespaces.push((ns.to_owned(), e));
                        proof {
                            let now = namespace_views(self.namespaces@);
                            assert(now =~= was.push((ns@, ev)));
                            assert forall|k: int| 0 <= k < was.len() implies (#[trigger] was[k]).0
                                != ns@ by {
                                assert(was[k].0 == old(self).namespaces@[k].0@);
                            }
                            push_entry(was, ns@, ev);
                        }
                    },
                }
            },
            None => {
                if let Some(i) = at {
                    self.namespaces.remove(i);
                    proof {
                        let now = namespace_views(self.namespaces@);
                        assert(now =~= was.remove(i as int));
                        drop_entry(was, ns@, i as int);
                    }
                }
            },
        }
    }
}

/// Whether namespaces have different names.
pub open spec fn distinct(ns: Seq<(Seq<char>, EntryV)>) -> bool {
    forall|i: int, j: int|
        0 <= i < j < ns.len() ==> (#[trigger] ns[i]).0 != (#[trigger] ns[j]).0
}

proof fn entry_at(ns: Seq<(Seq<char>, EntryV)>, name: Seq<char>, i: int, from: int)
    requires
        0 <= from <= i < ns.len(),
        ns[i].0 == name,
        forall|k: int| from <= k < i ==> (#[trigger] ns[k]).0 != name,
    ensures
        entry_of(ns, name, from) == Some(ns[i].1),
    decreases i - from,
{
    if from < i {
        entry_at(ns, name, i, from + 1);
    }
}

proof fn no_entry(ns: Seq<(Seq<char>, EntryV)>, name: Seq<char>, from: int)
    requires
        0 <= from,
        forall|k: int| from <= k < ns.len() ==> (#[trigger] ns[k]).0 != name,
    ensures
        entry_of(ns, name, from) is None,
    decreases ns.len() - from,
{
    if from < ns.len() {
        no_entry(ns, name, from + 1);
    }
}

/// What a namespace of different names holds, by where it is.
proof fn entry_by_place(ns: Seq<(Seq<char>, EntryV)>, name: Seq<char>)
    requires
        distinct(ns),
    ensures
        forall|i: int|
            0 <= i < ns.len() && (#[trigger] ns[i]).0 == name ==> entry_of(ns, name, 0) == Some(
                ns[i].1,
            ),
        (forall|i: int| 0 <= i < ns.len() ==> (#[trigger] ns[i]).0 != name) ==> entry_of(
            ns,
            name,
            0,
        ) is None,
{
    assert forall|i: int| 0 <= i < ns.len() && (#[trigger] ns[i]).0 == name implies entry_of(
        ns,
        name,
        0,
    ) == Some(ns[i].1) by {
        entry_at(ns, name, i, 0);
    }
    if forall|i: int| 0 <= i < ns.len() ==> (#[trigger] ns[i]).0 != name {
        no_entry(ns, name, 0);
    }
}

proof fn set_entry(was: Seq<(Seq<char>, EntryV)>, name: Seq<char>, e: EntryV, i: int)
    requires
        distinct(was),
        0 <= i < was.len(),
        was[i].0 == name,
    ensures
        distinct(was.update(i, (name, e))),
        entry_of(was.update(i, (name, e)), name, 0) == Some(e),
        forall|other: Seq<char>|
            other != name ==> #[trigger] entry_of(was.update(i, (name, e)), other, 0) == entry_of(
                was,
                other,
                0,
            ),
{
    let now = was.update(i, (name, e));
    entry_by_place(now, name);
    assert(now[i] == (name, e));
    assert forall|other: Seq<char>| other != name implies #[trigger] entry_of(now, other, 0)
        == entry_of(was, other, 0) by {
        entry_by_place(now, other);
        entry_by_place(was, other);
        if exists|k: int| 0 <= k < was.len() && (#[trigger] was[k]).0 == other {
            let k = choose|k: int| 0 <= k < was.len() && (#[trigger] was[k]).0 == other;
            assert(now[k] == was[k]);
        } else {
            assert forall|k: int| 0 <= k < now.len() implies (#[trigger] now[k]).0 != other by {
                if k != i {
                    assert(now[k] == was[k]);
                }
            }
        }
    }
}

proof fn push_entry(was: Seq<(Seq<char>, EntryV)>, name: Seq<char>, e: EntryV)
    requires
        distinct(was),
        forall|k: int| 0 <= k < was.len() ==> (#[trigger] was[k]).0 != name,
    ensures
        distinct(was.push((name, e))),
        entry_of(was.push((name, e)), name, 0) == Some(e),
        forall|other: Seq<char>|
            other != name ==> #[trigger] entry_of(was.push((name, e)), other, 0) == entry_of(
                was,
                other,
                0,
            ),
{
    let now = was.push((name, e));
    entry_by_place(now, name);
    assert(now[was.len() as int] == (name, e));
    assert forall|other: Seq<char>| other != name implies #[trigger] entry_of(now, other, 0)
        == entry_of(was, other, 0) by {
        entry_by_place(now, other);
        entry_by_place(was, other);
        if exists|k: int| 0 <= k < was.len() && (#[trigger] was[k]).0 == other {
            let k = choose|k: int| 0 <= k < was.len() && (#[trigger] was[k]).0 == other;
            assert(now[k] == was[k]);
        } else {
            assert forall|k: int| 0 <= k < now.len() implies (#[trigger] now[k]).0 != other by {
                if k < was.len() {
                    assert(now[k] == was[k]);
                }
            }
        }
    }
}

proof fn drop_entry(was: Seq<(Seq<char>, EntryV)>, name: Seq<char>, i: int)
    requires
        distinct(was),
        0 <= i < was.len(),
        was[i].0 == name,
    ensures
        distinct(was.remove(i)),
        entry_of(was.remove(i), name, 0) is None,
        forall|other: Seq<char>|
            other != name ==> #[trigger] entry_of(was.remove(i), other, 0) == entry_of(
                was,
                other,
                0,
            ),
{
    let now = was.remove(i);
    assert forall|a: int, b: int| 0 <= a < b < now.len() implies (#[trigger] now[a]).0 != (
    #[trigger] now[b]).0 by {
        let p = if a < i {
            a
        } else {
            a + 1
        };
        let q = if b < i {
            b
        } else {
            b + 1
        };
        assert(now[a] == was[p] && now[b] == was[q]);
    }
    entry_by_place(now, name);
    assert forall|k: int| 0 <= k < now.len() implies (#[trigger] now[k]).0 != name by {
        let p = if k < i {
            k
        } else {
            k + 1
        };
        assert(now[k] == was[p]);
    }
    assert forall|other: Seq<char>| other != name implies #[trigger] entry_of(now, other, 0)
        == entry_of(was, other, 0) by {
        entry_by_place(now, other);
        entry_by_place(was, other);
        if exists|k: int| 0 <= k < was.len() && (#[trigger] was[k]).0 == other {
            let k = choose|k: int| 0 <= k < was.len() && (#[trigger] was[k]).0 == other;
            if k < i {
                assert(now[k] == was[k]);
            } else {
                assert(now[k - 1] == was[k]);
            }
        } else {
            assert forall|k: int| 0 <= k < now.len() implies (#[trigger] now[k]).0 != other by {
                let p = if k < i {
                    k
                } else {
                    k + 1
                };
                assert(now[k] == was[p]);
            }
        }
    }
}

} // verus!
