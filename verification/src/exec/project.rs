//! Projection of fetched documents: source filtering by path patterns,
//! typed field values, and the columns that a projection needs.

use crate::collection;
use crate::collection::{CollectionSchema, SchemaV};
use crate::error::{Failure, ServiceError};
use crate::exec::doc_fetch::{FetchColumns, FetchedRow, FetchedV};
use crate::ir::{Projection, ProjectionV, SourceFilter, SourceFilterV};
use crate::json::pk;
use crate::json::entries;
use crate::json::value;
use crate::json::value::{Json, Num, Number, Tree};
use crate::math;
use crate::text;
use crate::values;
use crate::values::{FieldV, FieldValue};
use vstd::prelude::*;
use vstd::string::*;

verus! {

/// Whether a pattern matches all of a text: `*` matches any run of
/// characters, dots included, every other character itself.
pub open spec fn glob_matches(p: Seq<char>, t: Seq<char>) -> bool
    decreases p.len() + t.len(),
{
    if p.len() == 0 {
        t.len() == 0
    } else if p[0] == '*' {
        glob_matches(p.skip(1), t) || (t.len() > 0 && glob_matches(p, t.skip(1)))
    } else {
        t.len() > 0 && p[0] == t[0] && glob_matches(p.skip(1), t.skip(1))
    }
}

proof fn skips<T>(s: Seq<T>, a: int, b: int)
    requires
        0 <= a,
        0 <= b,
        a + b <= s.len(),
    ensures
        s.skip(a).skip(b) == s.skip(a + b),
{
    assert(s.skip(a).skip(b) =~= s.skip(a + b));
}

/// A star matches from a place when the rest of the pattern matches from a
/// later one.
proof fn star_reaches(p: Seq<char>, t: Seq<char>, a: int, b: int)
    requires
        p.len() > 0,
        p[0] == '*',
        0 <= a <= b <= t.len(),
        glob_matches(p.skip(1), t.skip(b)) || glob_matches(p, t.skip(b)),
    ensures
        glob_matches(p, t.skip(a)),
    decreases b - a,
{
    if a < b {
        star_reaches(p, t, a + 1, b);
        skips(t, a, 1);
    }
}

/// What a star's match comes from.
proof fn star_splits(p: Seq<char>, t: Seq<char>, a: int) -> (b: int)
    requires
        p.len() > 0,
        p[0] == '*',
        0 <= a <= t.len(),
        glob_matches(p, t.skip(a)),
    ensures
        a <= b <= t.len(),
        glob_matches(p.skip(1), t.skip(b)),
    decreases t.len() - a,
{
    if glob_matches(p.skip(1), t.skip(a)) {
        a
    } else {
        skips(t, a, 1);
        star_splits(p, t, a + 1)
    }
}

/// Whether `n` characters of the pattern from `p` on are no stars and equal
/// those of the text from `t` on.
spec fn agree(pattern: Seq<char>, text: Seq<char>, p: int, t: int, n: int) -> bool {
    &&& 0 <= p
    &&& 0 <= t
    &&& 0 <= n
    &&& p + n <= pattern.len()
    &&& t + n <= text.len()
    &&& forall|i: int|
        #![trigger pattern[p + i]]
        0 <= i < n ==> pattern[p + i] != '*' && pattern[p + i] == text[t + i]
}

proof fn agree_step(pattern: Seq<char>, text: Seq<char>, p: int, t: int, n: int)
    requires
        agree(pattern, text, p, t, n),
    ensures
        glob_matches(pattern.skip(p), text.skip(t)) == glob_matches(
            pattern.skip(p + n),
            text.skip(t + n),
        ),
    decreases n,
{
    if n > 0 {
        assert(pattern[p + 0] == pattern.skip(p)[0]);
        assert(text.skip(t)[0] == text[t + 0]);
        skips(pattern, p, 1);
        skips(text, t, 1);
        assert forall|i: int| 0 <= i < n - 1 implies #[trigger] pattern[(p + 1) + i] != '*'
            && pattern[(p + 1) + i] == text[(t + 1) + i] by {
            assert(pattern[p + (i + 1)] == pattern[(p + 1) + i]);
        }
        agree_step(pattern, text, p + 1, t + 1, n - 1);
    }
}

/// A match of literal characters followed by more takes them one by one.
proof fn literals_match(pattern: Seq<char>, text: Seq<char>, p: int, t: int, n: int)
    requires
        0 <= p,
        0 <= n,
        p + n <= pattern.len(),
        0 <= t <= text.len(),
        forall|i: int| #![trigger pattern[p + i]] 0 <= i < n ==> pattern[p + i] != '*',
        glob_matches(pattern.skip(p), text.skip(t)),
    ensures
        t + n <= text.len(),
        glob_matches(pattern.skip(p + n), text.skip(t + n)),
    decreases n,
{
    if n > 0 {
        assert(pattern[p + 0] == pattern.skip(p)[0]);
        skips(pattern, p, 1);
        skips(text, t, 1);
        assert forall|i: int| 0 <= i < n - 1 implies #[trigger] pattern[(p + 1) + i] != '*' by {
            assert(pattern[p + (i + 1)] == pattern[(p + 1) + i]);
        }
        literals_match(pattern, text, p + 1, t + 1, n - 1);
    }
}

proof fn only_stars(p: Seq<char>)
    ensures
        glob_matches(p, Seq::empty()) == (forall|i: int| 0 <= i < p.len() ==> p[i] == '*'),
    decreases p.len(),
{
    if p.len() > 0 {
        only_stars(p.skip(1));
        if forall|i: int| 0 <= i < p.len() ==> p[i] == '*' {
            assert forall|i: int| 0 <= i < p.skip(1).len() implies p.skip(1)[i] == '*' by {
                assert(p.skip(1)[i] == p[i + 1]);
            }
        }
        if p[0] == '*' && (forall|i: int| 0 <= i < p.skip(1).len() ==> p.skip(1)[i] == '*') {
            assert forall|i: int| 0 <= i < p.len() implies p[i] == '*' by {
                if i > 0 {
                    assert(p.skip(1)[i - 1] == p[i]);
                }
            }
        }
    }
}

/// Whether some place of the text from `st` on matches the pattern after
/// its star at `sp`.
spec fn later(pattern: Seq<char>, text: Seq<char>, sp: int, st: int) -> bool {
    exists|u: int|
        st <= u <= text.len() && #[trigger] glob_matches(pattern.skip(sp + 1), text.skip(u))
}

/// Whether the glob `pattern` matches all of `text`: greedy, going back to
/// the last star.
pub fn glob(pattern: &[char], text: &[char]) -> (r: bool)
    ensures
        r == glob_matches(pattern@, text@),
{
    let ghost pat = pattern@;
    let ghost txt = text@;
    let mut p: usize = 0;
    let mut t: usize = 0;
    let mut starred = false;
    let mut sp: usize = 0;
    let mut st: usize = 0;
    proof {
        assert(pat.skip(0) =~= pat);
        assert(txt.skip(0) =~= txt);
    }
    while t < text.len()
        invariant
            pat == pattern@,
            txt == text@,
            p <= pat.len(),
            t <= txt.len(),
            !starred ==> glob_matches(pat, txt) == glob_matches(
                pat.skip(p as int),
                txt.skip(t as int),
            ),
            starred ==> {
                &&& sp < p
                &&& pat[sp as int] == '*'
                &&& st <= t
                &&& p - sp - 1 == t - st
                &&& agree(pat, txt, sp + 1, st as int, t - st)
                &&& glob_matches(pat, txt) == later(pat, txt, sp as int, st as int)
            },
        decreases
                (if starred {
                    txt.len() - st
                } else {
                    txt.len() as int + 1
                }),
                pat.len() - p,
    {
        if p < pattern.len() && pattern[p] == '*' {
            proof {
                let rest = pat.skip(p as int);
                assert(rest[0] == '*');
                skips(pat, p as int, 1);
                let before = glob_matches(pat, txt);
                let here = glob_matches(rest, txt.skip(t as int));
                if starred {
                    agree_step(pat, txt, sp + 1, st as int, t - st);
                    if here {
                        assert(glob_matches(pat.skip(sp as int + 1), txt.skip(st as int)));
                    }
                    if later(pat, txt, sp as int, st as int) {
                        let u = choose|u: int|
                            st <= u <= txt.len() && #[trigger] glob_matches(
                                pat.skip(sp as int + 1),
                                txt.skip(u),
                            );
                        literals_match(pat, txt, sp + 1, u, t - st);
                        star_reaches(rest, txt, t as int, u + (t - st));
                    }
                }
                assert(before == here);
                if here {
                    let b = star_splits(rest, txt, t as int);
                    assert(glob_matches(pat.skip(p as int + 1), txt.skip(b)));
                }
                if later(pat, txt, p as int, t as int) {
                    let u = choose|u: int|
                        t <= u <= txt.len() && #[trigger] glob_matches(
                            pat.skip(p as int + 1),
                            txt.skip(u),
                        );
                    star_reaches(rest, txt, t as int, u);
                }
            }
            starred = true;
            sp = p;
            st = t;
            p += 1;
        } else if p < pattern.len() && pattern[p] == text[t] {
            proof {
                if starred {
                    assert forall|i: int| 0 <= i < t + 1 - st implies #[trigger] pat[sp + 1 + i]
                        != '*' && pat[sp + 1 + i] == txt[st + i] by {
                        if i == t - st {
                            assert(pat[sp + 1 + i] == pat[p as int]);
                        }
                    }
                } else {
                    assert(pat.skip(p as int)[0] == pat[p as int]);
                    assert(txt.skip(t as int)[0] == txt[t as int]);
                    skips(pat, p as int, 1);
                    skips(txt, t as int, 1);
                }
            }
            p += 1;
            t += 1;
        } else if starred {
            proof {
                agree_step(pat, txt, sp + 1, st as int, t - st);
                assert(txt.skip(t as int)[0] == txt[t as int]);
                if p < pat.len() {
                    assert(pat.skip(p as int)[0] == pat[p as int]);
                }
                assert(!glob_matches(pat.skip(p as int), txt.skip(t as int)));
                if later(pat, txt, sp as int, st as int) {
                    let u = choose|u: int|
                        st <= u <= txt.len() && #[trigger] glob_matches(
                            pat.skip(sp as int + 1),
                            txt.skip(u),
                        );
                    assert(u != st);
                }
            }
            p = sp + 1;
            t = st + 1;
            st = st + 1;
        } else {
            proof {
                assert(txt.skip(t as int)[0] == txt[t as int]);
                if p < pat.len() {
                    assert(pat.skip(p as int)[0] == pat[p as int]);
                }
            }
            return false;
        }
    }
    proof {
        assert(txt.skip(t as int) =~= Seq::<char>::empty());
        if starred {
            agree_step(pat, txt, sp + 1, st as int, t - st);
            if later(pat, txt, sp as int, st as int) {
                let u = choose|u: int|
                    st <= u <= txt.len() && #[trigger] glob_matches(
                        pat.skip(sp as int + 1),
                        txt.skip(u),
                    );
                if u > st {
                    literals_match(pat, txt, sp + 1, u, t - st);
                }
            }
            if glob_matches(pat.skip(p as int), Seq::empty()) {
                assert(glob_matches(pat.skip(sp as int + 1), txt.skip(st as int)));
            }
        }
        assert(glob_matches(pat, txt) == glob_matches(pat.skip(p as int), Seq::empty()));
        only_stars(pat.skip(p as int));
    }
    let ghost rest = pat.skip(p as int);
    let start: usize = p;
    while p < pattern.len()
        invariant
            pat == pattern@,
            txt == text@,
            start <= p <= pat.len(),
            rest == pat.skip(start as int),
            forall|i: int| 0 <= i < p - start ==> rest[i] == '*',
            glob_matches(pat, txt) == (forall|i: int| 0 <= i < rest.len() ==> rest[i] == '*'),
        decreases pattern.len() - p,
    {
        assert(rest[p - start] == pat[p as int]);
        if pattern[p] != '*' {
            return false;
        }
        p += 1;
    }
    true
}

/// Whether `n` is the end of a dotted prefix of a path, or of the path.
pub open spec fn is_prefix_end(path: Seq<char>, n: int) -> bool {
    0 <= n <= path.len() && (n == path.len() || path[n] == '.')
}

/// Whether a pattern matches a path or one of its dotted prefixes.
pub open spec fn pattern_matches(pattern: Seq<char>, path: Seq<char>) -> bool {
    exists|n: int| #[trigger] is_prefix_end(path, n) && glob_matches(pattern, path.take(n))
}

/// Whether some pattern matches a path or one of its dotted prefixes.
pub open spec fn some_matches(patterns: Seq<Seq<char>>, path: Seq<char>) -> bool {
    exists|i: int| 0 <= i < patterns.len() && pattern_matches(#[trigger] patterns[i], path)
}

fn matches_pattern(pattern: &[char], path: &[char]) -> (r: bool)
    ensures
        r == pattern_matches(pattern@, path@),
{
    let mut n: usize = 0;
    loop
        invariant
            n <= path@.len(),
            forall|m: int|
                0 <= m < n && #[trigger] is_prefix_end(path@, m) ==> !glob_matches(
                    pattern@,
                    path@.take(m),
                ),
        decreases path@.len() - n,
    {
        if n == path.len() || path[n] == '.' {
            let prefix = vstd::slice::slice_subrange(path, 0, n);
            assert(prefix@ =~= path@.take(n as int));
            if glob(pattern, prefix) {
                assert(is_prefix_end(path@, n as int));
                return true;
            }
        }
        if n == path.len() {
            return false;
        }
        n += 1;
    }
}

/// Whether some pattern matches `path` or one of its dotted prefixes.
pub fn matches_path(patterns: &Vec<String>, path: &str) -> (r: bool)
    ensures
        r == some_matches(text::texts(patterns@), path@),
{
    let chars = text::chars_of(path);
    let ghost all = text::texts(patterns@);
    let mut i: usize = 0;
    while i < patterns.len()
        invariant
            i <= patterns@.len(),
            chars@ == path@,
            all == text::texts(patterns@),
            forall|j: int| 0 <= j < i ==> !pattern_matches(#[trigger] all[j], path@),
        decreases patterns.len() - i,
    {
        assert(all[i as int] == patterns@[i as int]@);
        let pattern = text::chars_of(patterns[i].as_str());
        if matches_pattern(pattern.as_slice(), chars.as_slice()) {
            return true;
        }
        i += 1;
    }
    false
}

/// Whether a leaf at a path is kept.
pub open spec fn keeps(wanted: Seq<Seq<char>>, refused: Seq<Seq<char>>, path: Seq<char>) -> bool {
    (wanted.len() == 0 || some_matches(wanted, path)) && !some_matches(refused, path)
}

/// A path below another.
pub open spec fn joined_path(path: Seq<char>, name: Seq<char>) -> Seq<char> {
    if path.len() == 0 {
        name
    } else {
        path + "."@ + name
    }
}

/// A value at a path, filtered; none when nothing of it is kept. Arrays are
/// transparent: each element is at the array's path.
pub open spec fn filtered(
    t: Tree,
    path: Seq<char>,
    wanted: Seq<Seq<char>>,
    refused: Seq<Seq<char>>,
) -> Option<Tree>
    decreases t, 0nat,
{
    match t {
        Tree::Object(entries) => if entries.len() > 0 {
            let kept = filtered_entries(entries, entries.len(), path, wanted, refused);
            if kept.len() > 0 {
                Some(Tree::Object(kept))
            } else {
                None
            }
        } else if keeps(wanted, refused, path) {
            Some(t)
        } else {
            None
        },
        Tree::Array(items) => if items.len() > 0 {
            let kept = filtered_items(items, items.len(), path, wanted, refused);
            if kept.len() > 0 {
                Some(Tree::Array(kept))
            } else {
                None
            }
        } else if keeps(wanted, refused, path) {
            Some(t)
        } else {
            None
        },
        _ => if keeps(wanted, refused, path) {
            Some(t)
        } else {
            None
        },
    }
}

/// The first `n` items of an array, filtered.
pub open spec fn filtered_items(
    items: Seq<Tree>,
    n: nat,
    path: Seq<char>,
    wanted: Seq<Seq<char>>,
    refused: Seq<Seq<char>>,
) -> Seq<Tree>
    decreases items, n,
{
    if n == 0 || n > items.len() {
        Seq::empty()
    } else {
        let before = filtered_items(items, (n - 1) as nat, path, wanted, refused);
        match filtered(items[n - 1], path, wanted, refused) {
            Some(t) => before.push(t),
            None => before,
        }
    }
}

/// The first `n` entries of an object, filtered.
pub open spec fn filtered_entries(
    entries: Seq<(Seq<char>, Tree)>,
    n: nat,
    path: Seq<char>,
    wanted: Seq<Seq<char>>,
    refused: Seq<Seq<char>>,
) -> Seq<(Seq<char>, Tree)>
    decreases entries, n,
{
    if n == 0 || n > entries.len() {
        Seq::empty()
    } else {
        let before = filtered_entries(entries, (n - 1) as nat, path, wanted, refused);
        match filtered(
            entries[n - 1].1,
            joined_path(path, entries[n - 1].0),
            wanted,
            refused,
        ) {
            Some(t) => before.push((entries[n - 1].0, t)),
            None => before,
        }
    }
}

fn is_empty(s: &str) -> (r: bool)
    ensures
        r == (s@.len() == 0),
{
    s.unicode_len() == 0
}

/// The source path of a path below a field that holds JSON.
pub fn json_source_path(source_path: &str, path: &str) -> (r: String)
    ensures
        r@ == joined_path(source_path@, path@),
{
    if is_empty(source_path) {
        path.to_owned()
    } else {
        text::cat3(source_path, ".", path)
    }
}

fn keep_path(path: &str, wanted: &Vec<String>, refused: &Vec<String>) -> (r: bool)
    ensures
        r == keeps(text::texts(wanted@), text::texts(refused@), path@),
{
    (wanted.len() == 0 || matches_path(wanted, path)) && !matches_path(refused, path)
}

/// Whether a value that may be missing is another.
pub open spec fn opt_tree(j: Option<Json>) -> Option<Tree> {
    match j {
        Some(j) => Some(j@),
        None => None,
    }
}

fn filter_value(v: &Json, path: &str, wanted: &Vec<String>, refused: &Vec<String>) -> (r: Option<
    Json,
>)
    ensures
        opt_tree(r) == filtered(v@, path@, text::texts(wanted@), text::texts(refused@)),
    decreases v,
{
    broadcast use value::view_object, value::view_array;

    let ghost w = text::texts(wanted@);
    let ghost x = text::texts(refused@);
    match v {
        Json::Object(entries) => {
            if entries.len() > 0 {
                let ghost all = value::entries_of(entries@);
                let mut out: Vec<(String, Json)> = Vec::new();
                let mut i: usize = 0;
                proof {
                    assert(value::entries_of(out@) =~= filtered_entries(all, 0, path@, w, x));
                }
                while i < entries.len()
                    invariant
                        i <= entries@.len(),
                        all == value::entries_of(entries@),
                        w == text::texts(wanted@),
                        x == text::texts(refused@),
                        value::entries_of(out@) == filtered_entries(all, i as nat, path@, w, x),
                        *v == Json::Object(*entries),
                    decreases entries.len() - i,
                {
                    assert(decreases_to!(*v => v->Object_0));
                    assert(decreases_to!(*entries => entries@));
                    assert(decreases_to!(entries@ => entries@[i as int]));
                    assert(decreases_to!(entries@[i as int] => entries@[i as int].1));
                    let ghost was = out@;
                    let below = json_source_path(path, entries[i].0.as_str());
                    match filter_value(&entries[i].1, below.as_str(), wanted, refused) {
                        Some(kept) => {
                            let name = entries[i].0.clone();
                            out.push((name, kept));
                            proof {
                                assert(value::entries_of(out@) =~= value::entries_of(was).push(
                                    (all[i as int].0, kept@),
                                ));
                            }
                        },
                        None => {},
                    }
                    i += 1;
                }
                if out.len() > 0 {
                    proof {
                        assert(value::entries_of(out@).len() == out@.len());
                    }
                    Some(Json::Object(out))
                } else {
                    proof {
                        assert(value::entries_of(out@).len() == 0);
                    }
                    None
                }
            } else if keep_path(path, wanted, refused) {
                Some(v.copy())
            } else {
                None
            }
        },
        Json::Array(items) => {
            if items.len() > 0 {
                let ghost all = value::items_of(items@);
                let mut out: Vec<Json> = Vec::new();
                let mut i: usize = 0;
                proof {
                    assert(value::items_of(out@) =~= filtered_items(all, 0, path@, w, x));
                }
                while i < items.len()
                    invariant
                        i <= items@.len(),
                        all == value::items_of(items@),
                        w == text::texts(wanted@),
                        x == text::texts(refused@),
                        value::items_of(out@) == filtered_items(all, i as nat, path@, w, x),
                        *v == Json::Array(*items),
                    decreases items.len() - i,
                {
                    assert(decreases_to!(*v => v->Array_0));
                    assert(decreases_to!(*items => items@));
                    assert(decreases_to!(items@ => items@[i as int]));
                    let ghost was = out@;
                    match filter_value(&items[i], path, wanted, refused) {
                        Some(kept) => {
                            out.push(kept);
                            proof {
                                assert(value::items_of(out@) =~= value::items_of(was).push(
                                    kept@,
                                ));
                            }
                        },
                        None => {},
                    }
                    i += 1;
                }
                if out.len() > 0 {
                    proof {
                        assert(value::items_of(out@).len() == out@.len());
                    }
                    Some(Json::Array(out))
                } else {
                    proof {
                        assert(value::items_of(out@).len() == 0);
                    }
                    None
                }
            } else if keep_path(path, wanted, refused) {
                Some(v.copy())
            } else {
                None
            }
        },
        _ => {
            if keep_path(path, wanted, refused) {
                Some(v.copy())
            } else {
                None
            }
        },
    }
}

/// What a source filter makes of a source.
pub open spec fn source_view(source: Seq<(Seq<char>, Tree)>, filter: SourceFilterV) -> Option<
    Seq<(Seq<char>, Tree)>,
> {
    match filter {
        SourceFilterV::All => Some(source),
        SourceFilterV::Nothing => None,
        SourceFilterV::Paths { include_paths, exclude_paths } => Some(
            filtered_entries(
                source,
                source.len(),
                Seq::empty(),
                include_paths,
                exclude_paths,
            ),
        ),
    }
}

/// The entries of a source that may be missing.
pub open spec fn opt_entries(s: Option<Vec<(String, Json)>>) -> Option<Seq<(Seq<char>, Tree)>> {
    match s {
        Some(s) => Some(value::entries_of(s@)),
        None => None,
    }
}

/// A copy of some entries.
pub fn copy_entries(source: &Vec<(String, Json)>) -> (r: Vec<(String, Json)>)
    ensures
        value::entries_of(r@) == value::entries_of(source@),
{
    let mut out: Vec<(String, Json)> = Vec::new();
    let mut i: usize = 0;
    while i < source.len()
        invariant
            i <= source@.len(),
            out@.len() == i,
            forall|j: int|
                0 <= j < i ==> (#[trigger] out@[j]).0@ == source@[j].0@ && out@[j].1@
                    == source@[j].1@,
        decreases source.len() - i,
    {
        out.push((source[i].0.clone(), source[i].1.copy()));
        i += 1;
    }
    proof {
        assert(value::entries_of(out@) =~= value::entries_of(source@));
    }
    out
}

/// A source through a filter: the whole of it, nothing, or what its path
/// patterns keep, without the objects and arrays that are left empty.
pub fn filter_source(source: &Vec<(String, Json)>, filter: &SourceFilter) -> (r: Option<
    Vec<(String, Json)>,
>)
    ensures
        opt_entries(r) == source_view(value::entries_of(source@), filter@),
{
    match filter {
        SourceFilter::All => Some(copy_entries(source)),
        SourceFilter::Nothing => None,
        SourceFilter::Paths { include_paths, exclude_paths } => {
            let ghost all = value::entries_of(source@);
            let ghost w = text::texts(include_paths@);
            let ghost x = text::texts(exclude_paths@);
            let ghost root = Seq::<char>::empty();
            let mut out: Vec<(String, Json)> = Vec::new();
            let mut i: usize = 0;
            proof {
                assert(value::entries_of(out@) =~= filtered_entries(all, 0, root, w, x));
            }
            while i < source.len()
                invariant
                    i <= source@.len(),
                    all == value::entries_of(source@),
                    w == text::texts(include_paths@),
                    x == text::texts(exclude_paths@),
                    root == Seq::<char>::empty(),
                    value::entries_of(out@) == filtered_entries(all, i as nat, root, w, x),
                decreases source.len() - i,
            {
                let ghost was = out@;
                match filter_value(
                    &source[i].1,
                    source[i].0.as_str(),
                    include_paths,
                    exclude_paths,
                ) {
                    Some(kept) => {
                        let name = source[i].0.clone();
                        out.push((name, kept));
                        proof {
                            assert(value::entries_of(out@) =~= value::entries_of(was).push(
                                (all[i as int].0, kept@),
                            ));
                        }
                    },
                    None => {},
                }
                i += 1;
            }
            Some(out)
        },
    }
}

/// A leaf that the patterns refuse is in no filtered value.
pub proof fn refused_leaves_are_dropped(
    t: Tree,
    path: Seq<char>,
    wanted: Seq<Seq<char>>,
    refused: Seq<Seq<char>>,
)
    requires
        !(t is Object) && !(t is Array),
        some_matches(refused, path),
    ensures
        filtered(t, path, wanted, refused) is None,
{
}

/// Filtering with no pattern keeps a value whole, apart from nothing.
pub proof fn no_pattern_keeps_everything(t: Tree, path: Seq<char>)
    ensures
        filtered(t, path, Seq::empty(), Seq::empty()) == Some(t),
    decreases t, 0nat,
{
    let none = Seq::<Seq<char>>::empty();
    match t {
        Tree::Object(entries) => {
            everything_kept_entries(entries, entries.len(), path);
            assert(filtered_entries(entries, entries.len(), path, none, none) =~= entries);
        },
        Tree::Array(items) => {
            everything_kept_items(items, items.len(), path);
            assert(filtered_items(items, items.len(), path, none, none) =~= items);
        },
        _ => {},
    }
}

proof fn everything_kept_items(items: Seq<Tree>, n: nat, path: Seq<char>)
    requires
        n <= items.len(),
    ensures
        filtered_items(items, n, path, Seq::empty(), Seq::empty()) == items.take(n as int),
    decreases items, n,
{
    let none = Seq::<Seq<char>>::empty();
    if n > 0 {
        everything_kept_items(items, (n - 1) as nat, path);
        no_pattern_keeps_everything(items[n - 1], path);
        assert(items.take(n as int) =~= items.take(n - 1).push(items[n - 1]));
    } else {
        assert(items.take(0) =~= Seq::empty());
    }
}

proof fn everything_kept_entries(entries: Seq<(Seq<char>, Tree)>, n: nat, path: Seq<char>)
    requires
        n <= entries.len(),
    ensures
        filtered_entries(entries, n, path, Seq::empty(), Seq::empty()) == entries.take(n as int),
    decreases entries, n,
{
    let none = Seq::<Seq<char>>::empty();
    if n > 0 {
        everything_kept_entries(entries, (n - 1) as nat, path);
        no_pattern_keeps_everything(entries[n - 1].1, joined_path(path, entries[n - 1].0));
        assert(entries.take(n as int) =~= entries.take(n - 1).push(entries[n - 1]));
    } else {
        assert(entries.take(0) =~= Seq::empty());
    }
}

/// A typed value of a field; a float is its bits, a date milliseconds.
pub enum IndexValue {
    Text(String),
    Keyword(String),
    I64(i64),
    F64(u64),
    Bool(bool),
    Date(i64),
    Uuid([u8; 16]),
}

/// A typed value as a field value: dates in microseconds, UUIDs as text.
pub open spec fn indexed(v: IndexValue) -> FieldV {
    match v {
        IndexValue::Text(s) => FieldV::Str(s@),
        IndexValue::Keyword(s) => FieldV::Str(s@),
        IndexValue::I64(n) => FieldV::I64(n),
        IndexValue::F64(b) => FieldV::F64(b),
        IndexValue::Bool(b) => FieldV::Bool(b),
        IndexValue::Date(ms) => FieldV::Date(math::cut_i64(ms * 1_000)),
        IndexValue::Uuid(b) => FieldV::Str(pk::uuid_text(b@)),
    }
}

/// A typed value as a field value.
pub fn index_value(v: IndexValue) -> (r: FieldValue)
    ensures
        r@ == indexed(v),
{
    match v {
        IndexValue::Text(s) => FieldValue::Str(s),
        IndexValue::Keyword(s) => FieldValue::Str(s),
        IndexValue::I64(n) => FieldValue::I64(n),
        IndexValue::F64(b) => FieldValue::F64(b),
        IndexValue::Bool(b) => FieldValue::Bool(b),
        IndexValue::Date(ms) => FieldValue::Date(math::sat_thousand(ms)),
        IndexValue::Uuid(b) => FieldValue::Str(pk::format_uuid(&b)),
    }
}

/// A JSON scalar as a field value; objects, arrays and nulls give none.
pub open spec fn scalar(t: Tree) -> Option<FieldV> {
    match t {
        Tree::Text(s) => Some(FieldV::Str(s)),
        Tree::Bool(b) => Some(FieldV::Bool(b)),
        Tree::Number(n) => Some(
            match n {
                Num::Unsigned(u) => if u <= i64::MAX {
                    FieldV::I64(u as i64)
                } else {
                    FieldV::U64(u)
                },
                Num::Negative(i) => FieldV::I64(i),
                Num::Float { bits, .. } => FieldV::F64(bits),
            },
        ),
        _ => None,
    }
}

/// A JSON scalar as a field value.
pub fn json_scalar(v: &Json) -> (r: Option<FieldValue>)
    ensures
        values::opt_field(r) == scalar(v@),
{
    broadcast use value::view_object, value::view_array;

    match v {
        Json::Text(s) => Some(FieldValue::Str(s.clone())),
        Json::Bool(b) => Some(FieldValue::Bool(*b)),
        Json::Number(n) => Some(
            match n {
                Number::Unsigned(u) => if *u <= i64::MAX as u64 {
                    FieldValue::I64(*u as i64)
                } else {
                    FieldValue::U64(*u)
                },
                Number::Negative(i) => FieldValue::I64(*i),
                Number::Float { bits, .. } => FieldValue::F64(*bits),
            },
        ),
        _ => None,
    }
}

/// What a source has at the path of a requested field.
pub enum FieldSource {
    /// The well-formed values of a typed field.
    Typed(Vec<IndexValue>),
    /// The JSON values at a path.
    Json(Vec<Json>),
    Unknown,
}

/// The scalars of some JSON values.
pub open spec fn scalars(s: Seq<Json>) -> Seq<FieldV>
    decreases s.len(),
{
    if s.len() == 0 {
        Seq::empty()
    } else {
        match scalar(s.last()@) {
            Some(v) => scalars(s.drop_last()).push(v),
            None => scalars(s.drop_last()),
        }
    }
}

/// The values of a requested field.
pub open spec fn source_values(s: FieldSource) -> Seq<FieldV> {
    match s {
        FieldSource::Typed(v) => Seq::new(v@.len(), |i: int| indexed(v@[i])),
        FieldSource::Json(v) => scalars(v@),
        FieldSource::Unknown => Seq::empty(),
    }
}

/// The values of a requested field.
pub fn values_of(source: FieldSource) -> (r: Vec<FieldValue>)
    ensures
        values::field_views(r@) == source_values(source),
{
    let mut out: Vec<FieldValue> = Vec::new();
    match source {
        FieldSource::Typed(v) => {
            let ghost all = v@;
            for x in it: v
                invariant
                    it.seq() == all,
                    out@.len() == it.index(),
                    forall|j: int| 0 <= j < it.index() ==> (#[trigger] out@[j])@ == indexed(all[j]),
            {
                out.push(index_value(x));
            }
            proof {
                assert(values::field_views(out@) =~= source_values(source));
            }
        },
        FieldSource::Json(v) => {
            let ghost all = v@;
            let mut i: usize = 0;
            proof {
                assert(values::field_views(out@) =~= scalars(all.take(0)));
            }
            while i < v.len()
                invariant
                    i <= v@.len(),
                    all == v@,
                    values::field_views(out@) == scalars(all.take(i as int)),
                decreases v.len() - i,
            {
                let ghost was = out@;
                proof {
                    assert(all.take(i as int + 1).drop_last() =~= all.take(i as int));
                }
                match json_scalar(&v[i]) {
                    Some(x) => {
                        out.push(x);
                        proof {
                            assert(values::field_views(out@) =~= values::field_views(was).push(
                                x@,
                            ));
                        }
                    },
                    None => {},
                }
                i += 1;
            }
            proof {
                assert(all.take(all.len() as int) =~= all);
            }
        },
        FieldSource::Unknown => {
            proof {
                assert(values::field_views(out@) =~= Seq::<FieldV>::empty());
            }
        },
    }
    out
}

/// A requested field with its values.
pub type FieldEntry = (String, Vec<FieldValue>);

/// What some fields with values are.
pub open spec fn field_entry_views(s: Seq<(String, Vec<FieldValue>)>) -> Seq<
    (Seq<char>, Seq<FieldV>),
> {
    Seq::new(s.len(), |i: int| (s[i].0@, values::field_views(s[i].1@)))
}

/// The requested fields that have a value, by name.
pub open spec fn valued_fields(names: Seq<Seq<char>>, sources: Seq<FieldSource>) -> Seq<
    (Seq<char>, Seq<FieldV>),
>
    decreases sources.len(),
{
    if sources.len() == 0 {
        Seq::empty()
    } else {
        let before = valued_fields(names, sources.drop_last());
        let v = source_values(sources.last());
        if v.len() > 0 {
            entries::put_by_name(before, names[sources.len() - 1], v)
        } else {
            before
        }
    }
}

/// The fields with values stand in the order of their names.
pub proof fn valued_are_by_name(names: Seq<Seq<char>>, sources: Seq<FieldSource>)
    ensures
        entries::by_name(valued_fields(names, sources)),
    decreases sources.len(),
{
    if sources.len() > 0 {
        valued_are_by_name(names, sources.drop_last());
        entries::puts_keep_the_order(
            valued_fields(names, sources.drop_last()),
            names[sources.len() - 1],
            source_values(sources.last()),
        );
    }
}

/// Sets the values of a field by name.
fn put_field(s: &mut Vec<FieldEntry>, name: &String, v: Vec<FieldValue>)
    ensures
        field_entry_views(final(s)@) == entries::put_by_name(
            field_entry_views(old(s)@),
            name@,
            values::field_views(v@),
        ),
{
    let ghost was = field_entry_views(s@);
    proof {
        assert(entries::keys(was) =~= entries::key_texts(s@));
    }
    let (i, there) = entries::find_slot(s, name);
    proof {
        assert(i < s@.len() ==> was[i as int].0 == s@[i as int].0@);
    }
    if there {
        s.set(i, (name.clone(), v));
        assert(field_entry_views(s@) =~= was.update(
            i as int,
            (name@, values::field_views(v@)),
        ));
    } else {
        s.insert(i, (name.clone(), v));
        assert(field_entry_views(s@) =~= was.insert(
            i as int,
            (name@, values::field_views(v@)),
        ));
    }
}

/// The values of each requested field; fields without a value are left out.
pub fn field_values(names: &Vec<String>, sources: Vec<FieldSource>) -> (r: Vec<FieldEntry>)
    requires
        names@.len() == sources@.len(),
    ensures
        field_entry_views(r@) == valued_fields(text::texts(names@), sources@),
{
    let ghost all = sources@;
    let ghost ns = text::texts(names@);
    let mut out: Vec<FieldEntry> = Vec::new();
    proof {
        assert(field_entry_views(out@) =~= Seq::<(Seq<char>, Seq<FieldV>)>::empty());
    }
    let total: usize = names.len();
    let mut i: usize = 0;
    for source in it: sources
        invariant
            it.seq() == all,
            i == it.index(),
            total == names@.len(),
            all.len() == names@.len(),
            ns == text::texts(names@),
            field_entry_views(out@) == valued_fields(ns, all.take(it.index() as int)),
    {
        proof {
            assert(all.take(i as int + 1).drop_last() =~= all.take(i as int));
            assert(all.take(i as int + 1).last() == source);
        }
        let v = values_of(source);
        if v.len() > 0 {
            put_field(&mut out, &names[i], v);
        }
        i = i + 1;
    }
    proof {
        assert(all.take(all.len() as int) =~= all);
    }
    out
}

/// Where a vector name stands: a dense vector, else a sparse one.
pub open spec fn unknown_vector(s: SchemaV, name: Seq<char>) -> bool {
    text::absent(collection::vector_names(s.vectors), name) && text::absent(
        collection::sparse_names(s.sparse_vectors),
        name,
    )
}

/// The places of the first of some names among others, each once, in order.
pub open spec fn places(names: Seq<Seq<char>>, wanted: Seq<Seq<char>>) -> Seq<usize>
    decreases wanted.len(),
{
    if wanted.len() == 0 {
        Seq::empty()
    } else {
        let before = places(names, wanted.drop_last());
        if text::absent(names, wanted.last()) {
            before
        } else {
            let i = choose|i: int| text::is_first(names, wanted.last(), i);
            if before.contains(i as usize) {
                before
            } else {
                before.push(i as usize)
            }
        }
    }
}

/// The wanted names that are no dense vectors.
pub open spec fn not_dense(dense: Seq<Seq<char>>, wanted: Seq<Seq<char>>) -> Seq<Seq<char>>
    decreases wanted.len(),
{
    if wanted.len() == 0 {
        Seq::empty()
    } else if text::absent(dense, wanted.last()) {
        not_dense(dense, wanted.drop_last()).push(wanted.last())
    } else {
        not_dense(dense, wanted.drop_last())
    }
}

/// Whether a projection reads the source.
pub open spec fn needs_source(select: ProjectionV, highlight: bool) -> bool {
    !(select.source is Nothing) || select.fields.len() > 0 || highlight
}


fn holds(v: &Vec<usize>, x: usize) -> (r: bool)
    ensures
        r == v@.contains(x),
{
    let mut i: usize = 0;
    while i < v.len()
        invariant
            i <= v@.len(),
            forall|j: int| 0 <= j < i ==> v@[j] != x,
        decreases v.len() - i,
    {
        if v[i] == x {
            return true;
        }
        i += 1;
    }
    false
}

/// The columns of a projection: the source when it, its fields or
/// highlighting need it, and each vector name resolved against the dense,
/// then the sparse vectors; invalid for a name that is neither.
pub fn fetch_columns(schema: &CollectionSchema, select: &Projection, highlight: bool) -> (r: Result<
    FetchColumns,
    ServiceError,
>)
    ensures
        ({
            let dense = collection::vector_names(schema@.vectors);
            let sparse = collection::sparse_names(schema@.sparse_vectors);
            match r {
                Ok(c) => {
                    &&& forall|i: int|
                        0 <= i < select@.vectors.len() ==> !unknown_vector(
                            schema@,
                            #[trigger] select@.vectors[i],
                        )
                    &&& c.source == needs_source(select@, highlight)
                    &&& c.vectors@ == places(dense, select@.vectors)
                    &&& c.sparse@ == places(sparse, not_dense(dense, select@.vectors))
                },
                Err(e) => exists|i: int|
                    0 <= i < select@.vectors.len() && unknown_vector(
                        schema@,
                        #[trigger] select@.vectors[i],
                    ) && e@ == Failure::InvalidArgument(
                        "unknown vector "@ + select@.vectors[i],
                    ) && forall|j: int|
                        0 <= j < i ==> !unknown_vector(schema@, #[trigger] select@.vectors[j]),
            }
        }),
{
    let ghost dense = collection::vector_names(schema@.vectors);
    let ghost sparse = collection::sparse_names(schema@.sparse_vectors);
    let ghost wanted = text::texts(select.vectors@);
    let source = match &select.source {
        SourceFilter::Nothing => select.fields.len() > 0 || highlight,
        _ => true,
    };
    proof {
        assert(select@.fields.len() == select.fields@.len());
    }
    let mut vectors: Vec<usize> = Vec::new();
    let mut sparses: Vec<usize> = Vec::new();
    let mut i: usize = 0;
    while i < select.vectors.len()
        invariant
            i <= select.vectors@.len(),
            dense == collection::vector_names(schema@.vectors),
            sparse == collection::sparse_names(schema@.sparse_vectors),
            wanted == text::texts(select.vectors@),
            wanted == select@.vectors,
            forall|j: int| 0 <= j < i ==> !unknown_vector(schema@, #[trigger] wanted[j]),
            vectors@ == places(dense, wanted.take(i as int)),
            sparses@ == places(sparse, not_dense(dense, wanted.take(i as int))),
        decreases select.vectors.len() - i,
    {
        let name = select.vectors[i].as_str();
        let ghost next = wanted.take(i as int + 1);
        proof {
            assert(next.drop_last() =~= wanted.take(i as int));
            assert(next.last() == name@);
            assert(wanted[i as int] == name@);
        }
        match collection::find_vector(&schema.vectors, name) {
            Some(at) => {
                proof {
                    first_is_one(dense, name@, at as int);
                }
                if !holds(&vectors, at) {
                    vectors.push(at);
                }
            },
            None => {
                let ghost rest = not_dense(dense, wanted.take(i as int));
                proof {
                    assert(rest.push(name@).drop_last() =~= rest);
                    assert(rest.push(name@).last() == name@);
                }
                match collection::find_sparse(&schema.sparse_vectors, name) {
                    Some(at) => {
                        proof {
                            first_is_one(sparse, name@, at as int);
                        }
                        if !holds(&sparses, at) {
                            sparses.push(at);
                        }
                    },
                    None => {
                        return Err(
                            ServiceError::InvalidArgument(text::cat2("unknown vector ", name)),
                        );
                    },
                }
            },
        }
        i += 1;
    }
    proof {
        assert(wanted.take(wanted.len() as int) =~= wanted);
    }
    Ok(FetchColumns { source, vectors, sparse: sparses })
}

proof fn first_is_one(names: Seq<Seq<char>>, name: Seq<char>, at: int)
    requires
        text::is_first(names, name, at),
    ensures
        !text::absent(names, name),
        (choose|i: int| text::is_first(names, name, i)) == at,
{
    let c = choose|i: int| text::is_first(names, name, i);
    assert(text::is_first(names, name, c));
    assert(names[at] == name);
}

/// A projected document of a get or a scroll.
pub struct StoredDoc {
    pub row: FetchedRow,
    pub fields: Vec<FieldEntry>,
}

/// A fetched row as the projected document: its source filtered, and the
/// values of the projection's fields, which `sources` gives in order.
pub fn stored_doc(row: FetchedRow, select: &Projection, sources: Vec<FieldSource>) -> (r: StoredDoc)
    requires
        sources@.len() == select.fields@.len(),
    ensures
        r.row@ == (FetchedV {
            source: match row@.source {
                Some(s) => source_view(s, select@.source),
                None => None,
            },
            ..row@
        }),
        field_entry_views(r.fields@) == (if row@.source is Some {
            valued_fields(select@.fields, sources@)
        } else {
            Seq::empty()
        }),
{
    let fields = match &row.source {
        Some(_) => field_values(&select.fields, sources),
        None => {
            let none: Vec<FieldEntry> = Vec::new();
            proof {
                assert(field_entry_views(none@) =~= Seq::empty());
            }
            none
        },
    };
    let source = match &row.source {
        Some(s) => filter_source(s, &select.source),
        None => None,
    };
    let row = FetchedRow { source, ..row };
    StoredDoc { row, fields }
}

} // verus!
