//! Fusion of ranked lists: reciprocal rank, distribution based and weighted
//! sums.
//!
//! Every input list is in rank order, and a hit's rank is its 1-based
//! position. Documents are identified across lists by row id. What a row
//! adds up is stated as a list of parts, in input order; the sums
//! themselves are floating point and are left to the caller, who hands the
//! scored rows back to be ranked.

use crate::exec::schema::{Ranked, RankedV};
use crate::float;
use crate::ir::{Fusion, FusionV};
use crate::key;
use crate::ordering;
use crate::ordering::{Order, Ranking, Sign};
use vstd::prelude::*;

verus! {

/// The bits of one.
pub const ONE: u32 = 0x3f80_0000;

/// What one hit of one list adds to the score of its row.
#[derive(Clone, Copy, Debug, PartialEq, Eq, Structural)]
pub enum Part {
    /// `1 / (k + rank)`.
    Reciprocal { k: u32, rank: usize },
    /// The normalized score at a place of a list.
    Normalized { list: usize, place: usize },
    /// A weight times a score.
    Weighted { weight: u32, score: u32 },
}

/// What the hit at `place` of list `list` adds.
pub open spec fn part_of(f: FusionV, list: int, place: int, score: u32) -> Part {
    match f {
        FusionV::Rrf { k } => Part::Reciprocal { k, rank: (place + 1) as usize },
        FusionV::Dbsf => Part::Normalized { list: list as usize, place: place as usize },
        FusionV::WeightedSum { weights } => Part::Weighted {
            weight: if list < weights.len() {
                weights[list]
            } else {
                ONE
            },
            score,
        },
    }
}

/// The hits of one list with what they add.
pub open spec fn list_parts(hits: Seq<Ranked>, f: FusionV, list: int) -> Seq<(RankedV, Part)> {
    Seq::new(hits.len(), |j: int| (hits[j]@, part_of(f, list, j, hits[j].score)))
}

/// The hits of every list with what they add, in input order.
pub open spec fn all_parts(lists: Seq<Vec<Ranked>>, f: FusionV) -> Seq<(RankedV, Part)>
    decreases lists.len(),
{
    if lists.len() == 0 {
        Seq::empty()
    } else {
        all_parts(lists.drop_last(), f) + list_parts(lists.last()@, f, lists.len() - 1)
    }
}

/// A row of the fused list: its first hit, and its parts in input order.
pub struct Fused {
    pub hit: Ranked,
    pub parts: Vec<Part>,
}

/// What a fused row is.
pub struct FusedV {
    pub hit: RankedV,
    pub parts: Seq<Part>,
}

impl View for Fused {
    type V = FusedV;

    open spec fn view(&self) -> FusedV {
        FusedV { hit: self.hit@, parts: self.parts@ }
    }
}

/// What some fused rows are.
pub open spec fn fused_views(s: Seq<Fused>) -> Seq<FusedV> {
    Seq::new(s.len(), |i: int| s[i]@)
}

/// The place of a row among fused rows, or their number.
pub open spec fn place_of(s: Seq<FusedV>, row: u64) -> nat
    decreases s.len(),
{
    if s.len() == 0 || s[0].hit.row_id == row {
        0
    } else {
        1 + place_of(s.drop_first(), row)
    }
}

/// Fused rows after one more hit.
pub open spec fn gathered_one(s: Seq<FusedV>, hit: RankedV, part: Part) -> Seq<FusedV> {
    let at = place_of(s, hit.row_id) as int;
    if at < s.len() {
        s.update(at, FusedV { hit: s[at].hit, parts: s[at].parts.push(part) })
    } else {
        s.push(FusedV { hit, parts: seq![part] })
    }
}

/// The fused rows of some hits, in the order of their first hits.
pub open spec fn gathered(s: Seq<(RankedV, Part)>) -> Seq<FusedV>
    decreases s.len(),
{
    if s.len() == 0 {
        Seq::empty()
    } else {
        gathered_one(gathered(s.drop_last()), s.last().0, s.last().1)
    }
}

/// The place that `place_of` gives is the first one of the row.
pub proof fn place_is_first(s: Seq<FusedV>, row: u64)
    ensures
        place_of(s, row) <= s.len(),
        place_of(s, row) < s.len() ==> s[place_of(s, row) as int].hit.row_id == row,
        forall|j: int| 0 <= j < place_of(s, row) ==> (#[trigger] s[j]).hit.row_id != row,
    decreases s.len(),
{
    if s.len() > 0 && s[0].hit.row_id != row {
        place_is_first(s.drop_first(), row);
        assert forall|j: int| 0 <= j < place_of(s, row) implies (#[trigger] s[j]).hit.row_id
            != row by {
            if j > 0 {
                assert(s.drop_first()[j - 1] == s[j]);
            }
        }
    }
}

proof fn place_from(s: Seq<FusedV>, row: u64, at: int)
    requires
        0 <= at <= s.len(),
        forall|j: int| 0 <= j < at ==> (#[trigger] s[j]).hit.row_id != row,
        at < s.len() ==> s[at].hit.row_id == row,
    ensures
        place_of(s, row) == at,
{
    place_is_first(s, row);
    let p = place_of(s, row) as int;
    if p < at {
        assert(s[p].hit.row_id == row);
    }
    if at < p {
        assert(s[at].hit.row_id != row);
    }
}

/// The parts of a row's hits, in input order.
pub open spec fn parts_of(s: Seq<(RankedV, Part)>, row: u64) -> Seq<Part>
    decreases s.len(),
{
    if s.len() == 0 {
        Seq::empty()
    } else if s.last().0.row_id == row {
        parts_of(s.drop_last(), row).push(s.last().1)
    } else {
        parts_of(s.drop_last(), row)
    }
}

/// Every row of the input is in the fused list once, with the parts of all
/// its hits in input order.
pub proof fn rows_gather_their_parts(s: Seq<(RankedV, Part)>)
    ensures
        forall|i: int, j: int|
            0 <= i < j < gathered(s).len() ==> (#[trigger] gathered(s)[i]).hit.row_id != (
            #[trigger] gathered(s)[j]).hit.row_id,
        forall|i: int|
            0 <= i < gathered(s).len() ==> (#[trigger] gathered(s)[i]).parts == parts_of(
                s,
                gathered(s)[i].hit.row_id,
            ),
        forall|j: int|
            0 <= j < s.len() ==> place_of(gathered(s), (#[trigger] s[j]).0.row_id) < gathered(
                s,
            ).len(),
        forall|row: u64|
            #![trigger parts_of(s, row)]
            place_of(gathered(s), row) == gathered(s).len() ==> parts_of(s, row) == Seq::<
                Part,
            >::empty(),
    decreases s.len(),
{
    if s.len() > 0 {
        let t = s.drop_last();
        let hit = s.last().0;
        let row = hit.row_id;
        rows_gather_their_parts(t);
        let g = gathered(t);
        let h = gathered(s);
        place_is_first(g, row);
        let at = place_of(g, row) as int;
        assert forall|i: int| 0 <= i < h.len() implies (#[trigger] h[i]).parts == parts_of(
            s,
            h[i].hit.row_id,
        ) by {
            if i < g.len() {
                assert(h[i].hit == g[i].hit);
                assert(g[i].parts == parts_of(t, g[i].hit.row_id));
                if g[i].hit.row_id == row && at < g.len() && i != at {
                    assert(g[at].hit.row_id == row);
                }
            } else {
                assert(parts_of(t, row) == Seq::<Part>::empty());
                assert(seq![s.last().1] =~= Seq::<Part>::empty().push(s.last().1));
            }
        }
        assert forall|i: int, j: int| 0 <= i < j < h.len() implies (#[trigger] h[i]).hit.row_id
            != (#[trigger] h[j]).hit.row_id by {
            if j < g.len() {
                assert(h[i].hit == g[i].hit && h[j].hit == g[j].hit);
            } else {
                assert(h[i].hit == g[i].hit);
                assert(at == g.len());
            }
        }
        assert forall|r: u64|
            (place_of(g, r) < g.len() ==> place_of(h, r) < h.len()) && (place_of(h, r) == h.len()
                ==> place_of(g, r) == g.len() && r != row) by {
            place_is_first(g, r);
            place_is_first(h, r);
            let p = place_of(g, r) as int;
            if p < g.len() {
                assert(h[p].hit == g[p].hit);
                if place_of(h, r) == h.len() {
                    assert(h[p].hit.row_id != r);
                }
            }
            if r == row {
                let q = if at < g.len() {
                    at
                } else {
                    g.len() as int
                };
                assert(h[q].hit.row_id == row);
            }
        }
        assert forall|j: int| 0 <= j < s.len() implies place_of(h, (#[trigger] s[j]).0.row_id)
            < h.len() by {
            place_is_first(h, s[j].0.row_id);
            if j < t.len() {
                assert(t[j] == s[j]);
            }
        }
        assert forall|r: u64| place_of(h, r) == h.len() implies #[trigger] parts_of(s, r) == Seq::<
            Part,
        >::empty() by {
            assert(parts_of(t, r) == Seq::<Part>::empty());
        }
    }
}

fn find_row(s: &Vec<Fused>, row: u64) -> (r: usize)
    ensures
        r == place_of(fused_views(s@), row),
        r <= s@.len(),
{
    let mut i: usize = 0;
    while i < s.len()
        invariant
            i <= s@.len(),
            forall|j: int| 0 <= j < i ==> (#[trigger] fused_views(s@)[j]).hit.row_id != row,
        decreases s.len() - i,
    {
        assert(fused_views(s@)[i as int].hit.row_id == s@[i as int].hit.row_id);
        if s[i].hit.row_id == row {
            proof {
                place_from(fused_views(s@), row, i as int);
            }
            return i;
        }
        i += 1;
    }
    proof {
        place_from(fused_views(s@), row, i as int);
    }
    i
}

fn gather(s: &mut Vec<Fused>, hit: &Ranked, part: Part)
    ensures
        fused_views(final(s)@) == gathered_one(fused_views(old(s)@), hit@, part),
{
    let at: usize = find_row(s, hit.row_id);
    if at < s.len() {
        let mut rest: Vec<Fused> = s.split_off(at);
        let ghost after = rest@;
        let Fused { hit: first, mut parts } = rest.remove(0);
        parts.push(part);
        s.push(Fused { hit: first, parts });
        s.append(&mut rest);
        proof {
            assert(fused_views(s@) =~= gathered_one(fused_views(old(s)@), hit@, part));
        }
    } else {
        let mut parts: Vec<Part> = Vec::new();
        parts.push(part);
        s.push(Fused { hit: hit.copy(), parts });
        proof {
            assert(parts@ =~= seq![part]);
            assert(fused_views(s@) =~= gathered_one(fused_views(old(s)@), hit@, part));
        }
    }
}

fn part_at(fusion: &Fusion, list: usize, place: usize, score: u32) -> (r: Part)
    requires
        place < usize::MAX,
    ensures
        r == part_of(fusion@, list as int, place as int, score),
{
    match fusion {
        Fusion::Rrf { k } => Part::Reciprocal { k: *k, rank: place + 1 },
        Fusion::Dbsf => Part::Normalized { list, place },
        Fusion::WeightedSum { weights } => Part::Weighted {
            weight: if list < weights.len() {
                weights[list]
            } else {
                ONE
            },
            score,
        },
    }
}

/// The rows of `lists` with the parts of their fused scores.
pub fn fuse(lists: &Vec<Vec<Ranked>>, fusion: &Fusion) -> (r: Vec<Fused>)
    ensures
        fused_views(r@) == gathered(all_parts(lists@, fusion@)),
{
    let mut out: Vec<Fused> = Vec::new();
    proof {
        assert(fused_views(out@) =~= Seq::<FusedV>::empty());
    }
    let mut i: usize = 0;
    while i < lists.len()
        invariant
            i <= lists@.len(),
            fused_views(out@) == gathered(all_parts(lists@.take(i as int), fusion@)),
        decreases lists.len() - i,
    {
        let list = &lists[i];
        let ghost before = all_parts(lists@.take(i as int), fusion@);
        let ghost own = list_parts(list@, fusion@, i as int);
        proof {
            assert(lists@.take(i as int + 1).drop_last() =~= lists@.take(i as int));
            assert(lists@.take(i as int + 1).last() == *list);
            assert(before + own.take(0) =~= before);
        }
        let mut j: usize = 0;
        while j < list.len()
            invariant
                j <= list@.len(),
                own == list_parts(list@, fusion@, i as int),
                fused_views(out@) == gathered(before + own.take(j as int)),
            decreases list.len() - j,
        {
            let part = part_at(fusion, i, j, list[j].score);
            gather(&mut out, &list[j], part);
            proof {
                let next = before + own.take(j as int + 1);
                assert(next.drop_last() =~= before + own.take(j as int));
                assert(next.last() == own[j as int]);
            }
            j += 1;
        }
        proof {
            assert(own.take(own.len() as int) =~= own);
        }
        i += 1;
    }
    proof {
        assert(lists@.take(lists@.len() as int) =~= lists@);
    }
    out
}

/// The order of scored rows: score descending, then key, then row.
pub open spec fn score_sign(a: RankedV, b: RankedV) -> Sign {
    ordering::int_sign(float::key32(b.score), float::key32(a.score)).or(
        key::key_sign(a.pk, b.pk).or(ordering::int_sign(a.row_id as int, b.row_id as int)),
    )
}

/// The order of scored rows.
pub struct ByScore;

impl Ranking<Ranked> for ByScore {
    open spec fn le(&self, a: Ranked, b: Ranked) -> bool {
        !(score_sign(a@, b@) is Greater)
    }
}

impl Order<Ranked> for ByScore {
    fn leq(&self, a: &Ranked, b: &Ranked) -> (r: bool) {
        let x: i64 = float::total_key32(a.score);
        let y: i64 = float::total_key32(b.score);
        if x != y {
            x > y
        } else {
            match a.pk.sign(&b.pk) {
                Sign::Less => true,
                Sign::Greater => false,
                Sign::Equal => a.row_id <= b.row_id,
            }
        }
    }
}

/// Every candidate.
pub open spec fn any_row() -> spec_fn(Ranked) -> bool {
    |x: Ranked| true
}

/// The order of scored rows is total and transitive.
pub proof fn scores_are_linear()
    ensures
        ordering::linear(ByScore, any_row()),
{
    assert forall|a: Ranked, b: Ranked| #[trigger] ByScore.le(a, b) || ByScore.le(b, a) by {
        key::key_sign_flips(a.pk@, b.pk@);
    }
    assert forall|a: Ranked, b: Ranked, c: Ranked|
        #[trigger] ByScore.le(a, b) && #[trigger] ByScore.le(b, c) implies ByScore.le(a, c) by {
        key::key_sign_flips(a.pk@, b.pk@);
        key::key_sign_flips(b.pk@, c.pk@);
        key::key_sign_flips(a.pk@, c.pk@);
        key::canonical_order(a.pk@, b.pk@);
        key::canonical_order(b.pk@, c.pk@);
        key::canonical_order(a.pk@, c.pk@);
        if !(key::key_sign(a.pk@, b.pk@) is Greater) && !(key::key_sign(b.pk@, c.pk@) is Greater) {
            key::key_sign_transitive(a.pk@, b.pk@, c.pk@);
        }
    }
}

/// The fused rows, scored, in output order, at most `k` of them.
pub fn rank_fused(rows: Vec<Ranked>, k: usize) -> (r: Vec<Ranked>)
    ensures
        r@ == ordering::kept(ordering::sorted(ByScore, rows@), k as nat),
        ordering::is_ordered(ByScore, r@),
{
    proof {
        scores_are_linear();
        ordering::sorted_ordered(ByScore, rows@, any_row());
    }
    let mut out = ordering::sort(&ByScore, rows);
    let ghost all = out@;
    if out.len() > k {
        out.truncate(k);
        proof {
            assert(out@ =~= all.take(k as int));
            assert forall|i: int, j: int| 0 <= i <= j < out@.len() implies ByScore.le(
                #[trigger] out@[i],
                #[trigger] out@[j],
            ) by {
                assert(out@[i] == all[i] && out@[j] == all[j]);
            }
        }
    }
    out
}

} // verus!
