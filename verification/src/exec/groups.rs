//! Ranked candidates grouped by the values of one field, groups ordered by
//! their first hit.

use crate::collection::{FieldKind, ResolvedField};
use crate::error::{Failure, ServiceError};
use crate::exec::project;
use crate::json::value::{Json, Number, Tree};
use crate::json::value;
use crate::text;
use crate::values;
use crate::values::{FieldV, FieldValue};
use vstd::prelude::*;
use vstd::string::*;

verus! {

/// Candidates whose sources are fetched at a time.
pub const PAGE: usize = 256;

/// A JSON scalar as a group key: strings, integers and booleans only.
pub open spec fn scalar_key(t: Tree) -> Option<FieldV> {
    match t {
        Tree::Text(s) => Some(FieldV::Str(s)),
        Tree::Bool(b) => Some(FieldV::Bool(b)),
        Tree::Number(n) => match value::num_i64(n) {
            Some(i) => Some(FieldV::I64(i)),
            None => match value::num_u64(n) {
                Some(u) => Some(FieldV::U64(u)),
                None => None,
            },
        },
        _ => None,
    }
}

/// A JSON scalar as a group key.
pub fn json_key(v: &Json) -> (r: Option<FieldValue>)
    ensures
        values::opt_field(r) == scalar_key(v@),
{
    broadcast use value::view_object, value::view_array;

    match v {
        Json::Text(s) => Some(FieldValue::Str(s.clone())),
        Json::Bool(b) => Some(FieldValue::Bool(*b)),
        Json::Number(n) => match n {
            Number::Unsigned(n) => if *n <= i64::MAX as u64 {
                Some(FieldValue::I64(*n as i64))
            } else {
                Some(FieldValue::U64(*n))
            },
            Number::Negative(n) => Some(FieldValue::I64(*n)),
            Number::Float { .. } => None,
        },
        _ => None,
    }
}

/// How the group keys of a source are read.
pub enum KeyPath {
    Typed { path: String, kind: FieldKind },
    Json(String),
}

/// Whether `path` is how the keys of a resolved field are read.
pub open spec fn reads(path: KeyPath, field: ResolvedField) -> bool {
    match field {
        ResolvedField::Plain(spec) => if spec.kind@ is Json {
            path matches KeyPath::Json(p) && p@ == spec.source_path@
        } else {
            path matches KeyPath::Typed { path: p, kind } && p@ == spec.source_path@ && kind@
                == spec.kind@
        },
        ResolvedField::JsonPath(spec, rest) => path matches KeyPath::Json(p) && p@
            == project::joined_path(spec.source_path@, rest@),
        ResolvedField::Unknown => false,
    }
}

/// How the group keys of `field` are read; invalid for an unknown field.
pub fn key_path(resolved: &ResolvedField, field: &str) -> (r: Result<KeyPath, ServiceError>)
    ensures
        match r {
            Ok(path) => reads(path, *resolved),
            Err(e) => resolved is Unknown && e@ == Failure::InvalidArgument(
                "unknown group_by field "@ + field@,
            ),
        },
{
    match resolved {
        ResolvedField::Plain(spec) => match &spec.kind {
            FieldKind::Json => Ok(KeyPath::Json(spec.source_path.clone())),
            other => Ok(
                KeyPath::Typed { path: spec.source_path.clone(), kind: other.copy() },
            ),
        },
        ResolvedField::JsonPath(spec, rest) => Ok(
            KeyPath::Json(project::json_source_path(spec.source_path.as_str(), rest.as_str())),
        ),
        ResolvedField::Unknown => Err(
            ServiceError::InvalidArgument(text::cat2("unknown group_by field ", field)),
        ),
    }
}

/// The place of a value among others, or their number.
pub open spec fn place(s: Seq<FieldV>, v: FieldV) -> nat
    decreases s.len(),
{
    if s.len() == 0 || values::equal_fields(s[0], v) {
        0
    } else {
        1 + place(s.drop_first(), v)
    }
}

/// The distinct values of a list, first occurrence first.
pub open spec fn distinct_values(s: Seq<FieldV>) -> Seq<FieldV>
    decreases s.len(),
{
    if s.len() == 0 {
        s
    } else {
        let before = distinct_values(s.drop_last());
        if place(before, s.last()) < before.len() {
            before
        } else {
            before.push(s.last())
        }
    }
}

proof fn place_at(s: Seq<FieldV>, v: FieldV, at: int)
    requires
        0 <= at <= s.len(),
        forall|j: int| 0 <= j < at ==> !values::equal_fields(#[trigger] s[j], v),
        at < s.len() ==> values::equal_fields(s[at], v),
    ensures
        place(s, v) == at,
    decreases s.len(),
{
    if s.len() > 0 && at > 0 {
        assert(!values::equal_fields(s[0], v));
        let t = s.drop_first();
        assert forall|j: int| 0 <= j < at - 1 implies !values::equal_fields(
            #[trigger] t[j],
            v,
        ) by {
            assert(t[j] == s[j + 1]);
        }
        place_at(t, v, at - 1);
    }
}

fn find_value(s: &Vec<FieldValue>, v: &FieldValue) -> (r: usize)
    ensures
        r == place(values::field_views(s@), v@),
        r <= s@.len(),
{
    let ghost all = values::field_views(s@);
    let mut i: usize = 0;
    while i < s.len()
        invariant
            i <= s@.len(),
            all == values::field_views(s@),
            forall|j: int| 0 <= j < i ==> !values::equal_fields(#[trigger] all[j], v@),
        decreases s.len() - i,
    {
        assert(all[i as int] == s@[i as int]@);
        if s[i].equals(v) {
            proof {
                place_at(all, v@, i as int);
            }
            return i;
        }
        i += 1;
    }
    proof {
        place_at(all, v@, i as int);
    }
    i
}

/// The distinct keys of some values, first occurrence first.
pub fn distinct(v: Vec<FieldValue>) -> (r: Vec<FieldValue>)
    ensures
        values::field_views(r@) == distinct_values(values::field_views(v@)),
{
    let ghost all = v@;
    let mut out: Vec<FieldValue> = Vec::new();
    proof {
        assert(values::field_views(all.take(0)) =~= Seq::<FieldV>::empty());
        assert(values::field_views(out@) =~= Seq::<FieldV>::empty());
    }
    for value in it: v
        invariant
            it.seq() == all,
            values::field_views(out@) == distinct_values(
                values::field_views(all.take(it.index() as int)),
            ),
    {
        let ghost was = out@;
        proof {
            let n = it.index() as int;
            let next = values::field_views(all.take(n + 1));
            assert(next.drop_last() =~= values::field_views(all.take(n)));
            assert(next.last() == value@);
        }
        if find_value(&out, &value) >= out.len() {
            out.push(value);
            proof {
                assert(values::field_views(out@) =~= values::field_views(was).push(value@));
            }
        }
    }
    proof {
        assert(all.take(all.len() as int) =~= all);
    }
    out
}

/// A group: its key, and the places of its hits among the candidates.
pub struct Group {
    pub key: FieldValue,
    pub hits: Vec<usize>,
}

/// What a group is.
pub struct GroupV {
    pub key: FieldV,
    pub hits: Seq<usize>,
}

impl View for Group {
    type V = GroupV;

    open spec fn view(&self) -> GroupV {
        GroupV { key: self.key@, hits: self.hits@ }
    }
}

/// What some groups are.
pub open spec fn group_views(s: Seq<Group>) -> Seq<GroupV> {
    Seq::new(s.len(), |i: int| s[i]@)
}

/// The keys of some groups.
pub open spec fn group_keys(s: Seq<GroupV>) -> Seq<FieldV> {
    Seq::new(s.len(), |i: int| s[i].key)
}

/// The groups after a hit with one key: it joins the group of the key when
/// that has room, and makes one when there is room for a group.
pub open spec fn joined_key(
    s: Seq<GroupV>,
    hit: usize,
    key: FieldV,
    limit: nat,
    size: nat,
) -> Seq<GroupV> {
    let at = place(group_keys(s), key) as int;
    let with_group = if at < s.len() {
        s
    } else if s.len() < limit {
        s.push(GroupV { key, hits: Seq::empty() })
    } else {
        s
    };
    if at < with_group.len() && with_group[at].hits.len() < size {
        with_group.update(
            at,
            GroupV { key: with_group[at].key, hits: with_group[at].hits.push(hit) },
        )
    } else {
        with_group
    }
}

/// The groups after a hit with some keys.
pub open spec fn joined_keys(
    s: Seq<GroupV>,
    hit: usize,
    keys: Seq<FieldV>,
    limit: nat,
    size: nat,
) -> Seq<GroupV>
    decreases keys.len(),
{
    if keys.len() == 0 {
        s
    } else {
        joined_key(
            joined_keys(s, hit, keys.drop_last(), limit, size),
            hit,
            keys.last(),
            limit,
            size,
        )
    }
}

/// Whether there are enough groups, and all of them are full.
pub open spec fn is_full(s: Seq<GroupV>, limit: nat, size: nat) -> bool {
    s.len() >= limit && forall|i: int| 0 <= i < s.len() ==> (#[trigger] s[i]).hits.len() >= size
}

/// No group holds too many hits, there are not too many groups, and no two
/// groups have one key.
pub open spec fn within(s: Seq<GroupV>, limit: nat, size: nat) -> bool {
    &&& s.len() <= limit
    &&& forall|i: int| 0 <= i < s.len() ==> (#[trigger] s[i]).hits.len() <= size
    &&& forall|i: int, j: int|
        0 <= i < j < s.len() ==> !values::equal_fields(
            (#[trigger] s[i]).key,
            (#[trigger] s[j]).key,
        )
}

/// The place of a value is that of the first equal one.
pub proof fn place_finds(s: Seq<FieldV>, v: FieldV)
    ensures
        place(s, v) <= s.len(),
        place(s, v) < s.len() ==> values::equal_fields(s[place(s, v) as int], v),
        forall|j: int| 0 <= j < place(s, v) ==> !values::equal_fields(#[trigger] s[j], v),
    decreases s.len(),
{
    if s.len() > 0 && !values::equal_fields(s[0], v) {
        let t = s.drop_first();
        place_finds(t, v);
        assert forall|j: int| 0 <= j < place(s, v) implies !values::equal_fields(
            #[trigger] s[j],
            v,
        ) by {
            if j > 0 {
                assert(t[j - 1] == s[j]);
            }
        }
    }
}

/// A hit leaves the groups within their limits, and distinct.
pub proof fn hits_stay_within(
    s: Seq<GroupV>,
    hit: usize,
    keys: Seq<FieldV>,
    limit: nat,
    size: nat,
)
    requires
        within(s, limit, size),
    ensures
        within(joined_keys(s, hit, keys, limit, size), limit, size),
    decreases keys.len(),
{
    if keys.len() > 0 {
        let t = joined_keys(s, hit, keys.drop_last(), limit, size);
        hits_stay_within(s, hit, keys.drop_last(), limit, size);
        let key = keys.last();
        place_finds(group_keys(t), key);
        let r = joined_key(t, hit, key, limit, size);
        let at = place(group_keys(t), key) as int;
        assert forall|i: int, j: int| 0 <= i < j < r.len() implies !values::equal_fields(
            (#[trigger] r[i]).key,
            (#[trigger] r[j]).key,
        ) by {
            if j < t.len() {
                assert(r[i].key == t[i].key && r[j].key == t[j].key);
            } else {
                assert(r[i].key == t[i].key);
                assert(group_keys(t)[i] == t[i].key);
            }
        }
        assert forall|i: int| 0 <= i < r.len() implies (#[trigger] r[i]).hits.len() <= size by {
            if i < t.len() {
                let h = t[i].hits.len();
            }
        }
    }
}

/// Candidates walked in order, their hits joining the groups of their keys.
pub struct Grouper {
    limit: usize,
    size: usize,
    groups: Vec<Group>,
}

impl Grouper {
    /// The groups.
    pub closed spec fn groups(&self) -> Seq<GroupV> {
        group_views(self.groups@)
    }

    /// The most groups.
    pub closed spec fn limit(&self) -> nat {
        self.limit as nat
    }

    /// The most hits of a group.
    pub closed spec fn size(&self) -> nat {
        self.size as nat
    }

    /// The groups are within their limits.
    pub open spec fn well_formed(&self) -> bool {
        within(self.groups(), self.limit(), self.size())
    }

    /// No group yet.
    pub fn new(limit: usize, group_size: usize) -> (r: Grouper)
        ensures
            r.well_formed(),
            r.groups() == Seq::<GroupV>::empty(),
            r.limit() == limit,
            r.size() == group_size,
    {
        let r = Grouper { limit, size: group_size, groups: Vec::new() };
        proof {
            assert(r.groups() =~= Seq::<GroupV>::empty());
        }
        r
    }

    fn find(&self, key: &FieldValue) -> (r: usize)
        ensures
            r == place(group_keys(self.groups()), key@),
            r <= self.groups@.len(),
    {
        let ghost all = group_keys(self.groups());
        let mut i: usize = 0;
        while i < self.groups.len()
            invariant
                i <= self.groups@.len(),
                all == group_keys(self.groups()),
                forall|j: int| 0 <= j < i ==> !values::equal_fields(#[trigger] all[j], key@),
            decreases self.groups.len() - i,
        {
            assert(all[i as int] == self.groups@[i as int].key@);
            if self.groups[i].key.equals(key) {
                proof {
                    place_at(all, key@, i as int);
                }
                return i;
            }
            i += 1;
        }
        proof {
            place_at(all, key@, i as int);
        }
        i
    }

    fn join(&mut self, hit: usize, key: FieldValue)
        ensures
            final(self).groups() == joined_key(
                old(self).groups(),
                hit,
                key@,
                old(self).limit(),
                old(self).size(),
            ),
            final(self).limit() == old(self).limit(),
            final(self).size() == old(self).size(),
    {
        let ghost was = self.groups();
        let ghost k = key@;
        let at: usize = self.find(&key);
        if at >= self.groups.len() {
            if self.groups.len() >= self.limit {
                return;
            }
            self.groups.push(Group { key, hits: Vec::new() });
        }
        let ghost with_group = self.groups();
        proof {
            assert(with_group =~= if at < was.len() {
                was
            } else {
                was.push(GroupV { key: k, hits: Seq::empty() })
            });
            assert(with_group[at as int].hits == self.groups@[at as int].hits@);
        }
        if self.groups[at].hits.len() < self.size {
            let ghost before = self.groups@;
            let mut rest: Vec<Group> = self.groups.split_off(at);
            let Group { key: same, mut hits } = rest.remove(0);
            hits.push(hit);
            self.groups.push(Group { key: same, hits });
            self.groups.append(&mut rest);
            proof {
                assert(self.groups() =~= with_group.update(
                    at as int,
                    GroupV {
                        key: with_group[at as int].key,
                        hits: with_group[at as int].hits.push(hit),
                    },
                ));
            }
        }
    }

    fn full(&self) -> (r: bool)
        ensures
            r == is_full(self.groups(), self.limit(), self.size()),
    {
        if self.groups.len() < self.limit {
            return false;
        }
        let mut i: usize = 0;
        while i < self.groups.len()
            invariant
                i <= self.groups@.len(),
                forall|j: int|
                    0 <= j < i ==> (#[trigger] self.groups()[j]).hits.len() >= self.size,
            decreases self.groups.len() - i,
        {
            assert(self.groups()[i as int].hits == self.groups@[i as int].hits@);
            if self.groups[i].hits.len() < self.size {
                return false;
            }
            i += 1;
        }
        true
    }

    /// Adds a hit with its keys; whether all groups are full then.
    pub fn add(&mut self, hit: usize, keys: Vec<FieldValue>) -> (r: bool)
        requires
            old(self).well_formed(),
        ensures
            final(self).well_formed(),
            final(self).limit() == old(self).limit(),
            final(self).size() == old(self).size(),
            final(self).groups() == joined_keys(
                old(self).groups(),
                hit,
                values::field_views(keys@),
                old(self).limit(),
                old(self).size(),
            ),
            r == is_full(final(self).groups(), final(self).limit(), final(self).size()),
    {
        let ghost all = keys@;
        let ghost start = self.groups();
        let ghost views = values::field_views(all);
        proof {
            assert(views.take(0) =~= Seq::<FieldV>::empty());
        }
        for key in it: keys
            invariant
                it.seq() == all,
                views == values::field_views(all),
                self.limit() == old(self).limit(),
                self.size() == old(self).size(),
                self.groups() == joined_keys(
                    start,
                    hit,
                    views.take(it.index() as int),
                    self.limit(),
                    self.size(),
                ),
        {
            proof {
                let n = it.index() as int;
                assert(views.take(n + 1).drop_last() =~= views.take(n));
                assert(views.take(n + 1).last() == key@);
            }
            self.join(hit, key);
        }
        proof {
            assert(views.take(views.len() as int) =~= views);
            hits_stay_within(start, hit, views, self.limit(), self.size());
        }
        self.full()
    }

    /// The groups, in the order of their first hits.
    pub fn finish(self) -> (r: Vec<Group>)
        ensures
            group_views(r@) == self.groups(),
    {
        self.groups
    }
}

} // verus!
