//! The effective sort: the order that every path ranks hits by, and
//! `search_after` paging.

use crate::bytes;
use crate::error::{Failure, ServiceError};
use crate::exec::schema::{Ranked, RankedV};
use crate::float;
use crate::ir;
use crate::ir::{MissingOrder, Retriever, SearchRequest, SortKey, SortKeyV, SortOrder};
use crate::key;
use crate::ordering;
use crate::ordering::{Order, Ranking, Sign};
use crate::text;
use crate::values;
use crate::values::{SortV, SortValue};
use std::cmp::Ordering;
use vstd::prelude::*;
use vstd::string::*;
use vstd::utf8::*;

verus! {

/// How candidates are ranked.
#[derive(Clone, Copy, Debug, PartialEq, Eq, Structural)]
pub enum RankMode {
    /// The retrievers' top-k lists, fused; the first key is the score.
    Score,
    /// Every match, ordered by field or key values.
    Field,
}

/// The effective sort of a request: its keys, ending with a `Pk` key, and
/// the ranking mode.
///
/// A candidate carries one value in `sort` per `Field` key, in key order;
/// the score and key positions read the candidate's own score and key.
#[derive(Debug)]
pub struct EffectiveSort {
    pub keys: Vec<SortKey>,
    pub mode: RankMode,
}

/// An outcome in a direction.
pub open spec fn directed(order: SortOrder, s: Sign) -> Sign {
    match order {
        SortOrder::Asc => s,
        SortOrder::Desc => s.flip(),
    }
}

/// The rank of a value's kind between kinds that do not compare.
pub open spec fn kind_rank(v: SortV) -> int {
    match v {
        SortV::Null => 0,
        SortV::Bool(_) => 1,
        SortV::I64(_) => 2,
        SortV::U64(_) => 2,
        SortV::F64(_) => 2,
        SortV::Str(_) => 3,
        SortV::Uuid(_) => 4,
    }
}

/// The integer that a value is.
pub open spec fn int_value(v: SortV) -> Option<int> {
    match v {
        SortV::I64(n) => Some(n as int),
        SortV::U64(n) => Some(n as int),
        _ => None,
    }
}

/// The place of a number among floats: of an integer, that of the float
/// nearest to it.
pub open spec fn float_key(v: SortV) -> int {
    match v {
        SortV::I64(n) => float::key64(float::int_bits64(n as int) as u64),
        SortV::U64(n) => float::key64(float::int_bits64(n as int) as u64),
        SortV::F64(b) => float::key64(b),
        _ => 0,
    }
}

/// The ascending order of two values: `false` before `true`; integers
/// exactly, a float against a number through the total order of floats;
/// strings and UUIDs bytewise; different kinds by their rank.
pub open spec fn value_sign(a: SortV, b: SortV) -> Sign {
    match (a, b) {
        (SortV::Bool(x), SortV::Bool(y)) => ordering::int_sign(
            if x {
                1int
            } else {
                0
            },
            if y {
                1int
            } else {
                0
            },
        ),
        (SortV::Str(x), SortV::Str(y)) => bytes::lex(encode_utf8(x), encode_utf8(y)),
        (SortV::Uuid(x), SortV::Uuid(y)) => bytes::lex(x, y),
        _ => if kind_rank(a) == 2 && kind_rank(b) == 2 {
            if a is F64 || b is F64 {
                ordering::int_sign(float_key(a), float_key(b))
            } else {
                ordering::int_sign(int_value(a)->0, int_value(b)->0)
            }
        } else {
            ordering::int_sign(kind_rank(a), kind_rank(b))
        },
    }
}

/// One field key's order: `Null` first or last whatever the direction, the
/// rest by value.
pub open spec fn field_sign(a: SortV, b: SortV, order: SortOrder, missing: MissingOrder) -> Sign {
    let null_first = match missing {
        MissingOrder::First => Sign::Less,
        MissingOrder::Last => Sign::Greater,
    };
    match (a, b) {
        (SortV::Null, SortV::Null) => Sign::Equal,
        (SortV::Null, _) => null_first,
        (_, SortV::Null) => null_first.flip(),
        _ => directed(order, value_sign(a, b)),
    }
}

/// The field value at position `i`, `Null` past the end.
pub open spec fn sort_at(s: Seq<SortV>, i: nat) -> SortV {
    if i < s.len() {
        s[i as int]
    } else {
        SortV::Null
    }
}

/// How one sort key orders two candidates; `field` is how many field keys
/// came before it, and key positions tie unless `pk`.
pub open spec fn key_sign(k: SortKeyV, a: RankedV, b: RankedV, pk: bool, field: nat) -> Sign {
    match k {
        SortKeyV::Score { order } => directed(
            order,
            ordering::int_sign(float::key32(a.score), float::key32(b.score)),
        ),
        SortKeyV::Pk { order } => if pk {
            directed(order, key::key_sign(a.pk, b.pk))
        } else {
            Sign::Equal
        },
        SortKeyV::Field { order, missing, .. } => field_sign(
            sort_at(a.sort, field),
            sort_at(b.sort, field),
            order,
            missing,
        ),
    }
}

/// How many field keys a key counts for.
pub open spec fn field_step(k: SortKeyV) -> nat {
    if k is Field {
        1
    } else {
        0
    }
}

/// How sort keys order two candidates: the first key that tells them apart.
pub open spec fn keys_sign(
    keys: Seq<SortKeyV>,
    a: RankedV,
    b: RankedV,
    pk: bool,
    field: nat,
) -> Sign
    decreases keys.len(),
{
    if keys.len() == 0 {
        Sign::Equal
    } else {
        key_sign(keys[0], a, b, pk, field).or(
            keys_sign(keys.drop_first(), a, b, pk, field + field_step(keys[0])),
        )
    }
}

/// How the sort keys before the first key position order two candidates.
pub open spec fn leading_sign(keys: Seq<SortKeyV>, a: RankedV, b: RankedV, field: nat) -> Sign
    decreases keys.len(),
{
    if keys.len() == 0 || keys[0] is Pk {
        Sign::Equal
    } else {
        key_sign(keys[0], a, b, true, field).or(
            leading_sign(keys.drop_first(), a, b, field + field_step(keys[0])),
        )
    }
}

/// The score that a value at a score position names.
pub open spec fn score_of(v: SortV) -> Option<u32> {
    match v {
        SortV::F64(b) => Some(float::narrowed(b) as u32),
        SortV::I64(n) => Some(float::int_bits32(n as int) as u32),
        SortV::U64(n) => Some(float::int_bits32(n as int) as u32),
        _ => None,
    }
}

/// How one sort key places a candidate against a value; a value that does
/// not fit the key comes before every candidate.
pub open spec fn after_key_sign(k: SortKeyV, hit: RankedV, value: SortV, field: nat) -> Sign {
    match k {
        SortKeyV::Score { order } => match score_of(value) {
            Some(score) => directed(
                order,
                ordering::int_sign(float::key32(hit.score), float::key32(score)),
            ),
            None => Sign::Greater,
        },
        SortKeyV::Pk { order } => match values::key_of(value) {
            Some(pk) => directed(order, key::key_sign(hit.pk, pk)),
            None => Sign::Greater,
        },
        SortKeyV::Field { order, missing, .. } => field_sign(
            sort_at(hit.sort, field),
            value,
            order,
            missing,
        ),
    }
}

/// How sort keys place a candidate against the values of a prefix of them.
pub open spec fn after_sign(
    keys: Seq<SortKeyV>,
    hit: RankedV,
    after: Seq<SortV>,
    field: nat,
) -> Sign
    decreases keys.len(),
{
    if keys.len() == 0 || after.len() == 0 {
        Sign::Equal
    } else {
        after_key_sign(keys[0], hit, after[0], field).or(
            after_sign(
                keys.drop_first(),
                hit,
                after.drop_first(),
                field + field_step(keys[0]),
            ),
        )
    }
}

/// The value of a candidate at one sort key.
pub open spec fn hit_value(k: SortKeyV, hit: RankedV, field: nat) -> SortV {
    match k {
        SortKeyV::Score { .. } => SortV::F64(float::widened(hit.score) as u64),
        SortKeyV::Pk { .. } => values::of_key(hit.pk),
        SortKeyV::Field { .. } => sort_at(hit.sort, field),
    }
}

/// The value of a candidate at each sort key.
pub open spec fn hit_values(keys: Seq<SortKeyV>, hit: RankedV, field: nat) -> Seq<SortV>
    decreases keys.len(),
{
    if keys.len() == 0 {
        Seq::empty()
    } else {
        seq![hit_value(keys[0], hit, field)] + hit_values(
            keys.drop_first(),
            hit,
            field + field_step(keys[0]),
        )
    }
}

/// Whether a value fits its sort key.
pub open spec fn fits(k: SortKeyV, v: SortV) -> bool {
    match k {
        SortKeyV::Score { .. } => score_of(v) is Some,
        SortKeyV::Pk { .. } => values::key_of(v) is Some,
        SortKeyV::Field { .. } => true,
    }
}

/// The ranking mode of a request's sort.
pub open spec fn mode_of(sort: Seq<SortKeyV>, retrievers: nat) -> RankMode {
    if sort.len() == 0 {
        if retrievers == 0 {
            RankMode::Field
        } else {
            RankMode::Score
        }
    } else if sort[0] is Score {
        RankMode::Score
    } else {
        RankMode::Field
    }
}

/// Whether some key reads the score.
pub open spec fn reads_score(keys: Seq<SortKeyV>) -> bool {
    exists|i: int| 0 <= i < keys.len() && (#[trigger] keys[i]) is Score
}

/// Whether every retriever is a text one.
pub open spec fn all_text(retrievers: Seq<Retriever>) -> bool {
    forall|i: int| 0 <= i < retrievers.len() ==> (#[trigger] retrievers[i]) is Text
}

/// The keys of a sort: its own, by score or by key when it has none, and
/// the key ascending unless a key position ends it.
pub open spec fn effective_keys(sort: Seq<SortKeyV>, mode: RankMode) -> Seq<SortKeyV> {
    let listed = if sort.len() > 0 {
        sort
    } else if mode == RankMode::Score {
        seq![SortKeyV::Score { order: SortOrder::Desc }]
    } else {
        seq![SortKeyV::Pk { order: SortOrder::Asc }]
    };
    if listed.last() is Pk {
        listed
    } else {
        listed.push(SortKeyV::Pk { order: SortOrder::Asc })
    }
}

fn direct(order: SortOrder, s: Sign) -> (r: Sign)
    ensures
        r == directed(order, s),
{
    match order {
        SortOrder::Asc => s,
        SortOrder::Desc => s.flipped(),
    }
}

fn rank_of_kind(v: &SortValue) -> (r: u8)
    ensures
        r == kind_rank(v@),
{
    match v {
        SortValue::Null => 0,
        SortValue::Bool(_) => 1,
        SortValue::I64(_) => 2,
        SortValue::U64(_) => 2,
        SortValue::F64(_) => 2,
        SortValue::Str(_) => 3,
        SortValue::Uuid(_) => 4,
    }
}

fn int_of(v: &SortValue) -> (r: Option<i128>)
    ensures
        match r {
            Some(n) => int_value(v@) == Some(n as int) && -0x1_0000_0000_0000_0000 < n
                < 0x1_0000_0000_0000_0000,
            None => int_value(v@) is None,
        },
{
    match v {
        SortValue::I64(n) => Some(*n as i128),
        SortValue::U64(n) => Some(*n as i128),
        _ => None,
    }
}

fn sign_of(a: i128, b: i128) -> (r: Sign)
    ensures
        r == ordering::int_sign(a as int, b as int),
{
    if a < b {
        Sign::Less
    } else if a == b {
        Sign::Equal
    } else {
        Sign::Greater
    }
}

fn float_place(v: &SortValue) -> (r: i128)
    requires
        kind_rank(v@) == 2,
    ensures
        r == float_key(v@),
{
    match v {
        SortValue::F64(b) => float::total_key64(*b),
        _ => match int_of(v) {
            Some(n) => {
                let bits: u64 = float::int_to_f64(n);
                float::total_key64(bits)
            },
            None => 0,
        },
    }
}

fn value_order(a: &SortValue, b: &SortValue) -> (r: Sign)
    ensures
        r == value_sign(a@, b@),
{
    match (a, b) {
        (SortValue::Bool(x), SortValue::Bool(y)) => {
            if *x == *y {
                Sign::Equal
            } else if *x {
                Sign::Greater
            } else {
                Sign::Less
            }
        },
        (SortValue::Str(x), SortValue::Str(y)) => {
            bytes::lex_sign(x.as_str().as_bytes(), y.as_str().as_bytes())
        },
        (SortValue::Uuid(x), SortValue::Uuid(y)) => {
            let p: &[u8] = x;
            let q: &[u8] = y;
            bytes::lex_sign(p, q)
        },
        _ => {
            let i: u8 = rank_of_kind(a);
            let j: u8 = rank_of_kind(b);
            if i == 2 && j == 2 {
                match (int_of(a), int_of(b)) {
                    (Some(x), Some(y)) => sign_of(x, y),
                    _ => sign_of(float_place(a), float_place(b)),
                }
            } else {
                sign_of(i as i128, j as i128)
            }
        },
    }
}

/// The ascending order of two non-null values: `false` before `true`;
/// numbers numerically (integers exactly, a float against an integer by the
/// total order of floats); strings and UUIDs bytewise.
pub fn compare_values(a: &SortValue, b: &SortValue) -> (r: Ordering)
    ensures
        r == value_sign(a@, b@).named(),
{
    value_order(a, b).to_ordering()
}

fn field_order(a: &SortValue, b: &SortValue, order: SortOrder, missing: MissingOrder) -> (r: Sign)
    ensures
        r == field_sign(a@, b@, order, missing),
{
    let null_first = match missing {
        MissingOrder::First => Sign::Less,
        MissingOrder::Last => Sign::Greater,
    };
    match (a, b) {
        (SortValue::Null, SortValue::Null) => Sign::Equal,
        (SortValue::Null, _) => null_first,
        (_, SortValue::Null) => null_first.flipped(),
        _ => direct(order, value_order(a, b)),
    }
}

fn score_order(a: u32, b: u32) -> (r: Sign)
    ensures
        r == ordering::int_sign(float::key32(a), float::key32(b)),
{
    sign_of(float::total_key32(a) as i128, float::total_key32(b) as i128)
}

fn field_order_at(
    a: &Vec<SortValue>,
    b: &Vec<SortValue>,
    at: usize,
    order: SortOrder,
    missing: MissingOrder,
) -> (r: Sign)
    ensures
        r == field_sign(
            sort_at(values::sort_views(a@), at as nat),
            sort_at(values::sort_views(b@), at as nat),
            order,
            missing,
        ),
{
    let null = SortValue::Null;
    let x = if at < a.len() {
        &a[at]
    } else {
        &null
    };
    let y = if at < b.len() {
        &b[at]
    } else {
        &null
    };
    field_order(x, y, order, missing)
}

fn named_score(v: &SortValue) -> (r: Option<u32>)
    ensures
        r == score_of(v@),
{
    match v {
        SortValue::F64(b) => Some(float::narrow(*b)),
        _ => match int_of(v) {
            Some(n) => Some(float::int_to_f32(n)),
            None => None,
        },
    }
}

/// What the keys of a sort are.
pub open spec fn keys_of(s: EffectiveSort) -> Seq<SortKeyV> {
    ir::sort_key_views(s.keys@)
}

/// The message of a `search_after` that names too many values.
pub open spec fn too_many(values: nat, keys: nat) -> Seq<char> {
    "search_after has "@ + text::decimal(values) + " values but the sort has "@ + text::decimal(
        keys,
    ) + " keys"@
}

/// The message of a `search_after` value that does not fit its key.
pub open spec fn misfit(shown: Seq<char>) -> Seq<char> {
    "search_after value "@ + shown + " does not fit its sort key"@
}

/// The first value of `after` that does not fit its key.
pub open spec fn first_misfit(keys: Seq<SortKeyV>, after: Seq<SortV>, i: int) -> bool {
    &&& 0 <= i < after.len()
    &&& i < keys.len()
    &&& !fits(keys[i], after[i])
    &&& forall|j: int| 0 <= j < i ==> fits(#[trigger] keys[j], after[j])
}

impl EffectiveSort {
    /// The effective sort of `request`: an empty sort is by score with
    /// retrievers, else by key; the key ascending is appended unless a key
    /// position ends the sort; a field sort allows at most one retriever, a
    /// text one.
    pub fn of(request: &SearchRequest) -> (r: Result<EffectiveSort, ServiceError>)
        ensures
            ({
                let sort = ir::sort_key_views(request.sort@);
                let mode = mode_of(sort, request.retrievers@.len());
                let no_score = request.retrievers@.len() == 0 && reads_score(sort);
                let bad_field = mode == RankMode::Field && (request.retrievers@.len() > 1
                    || !all_text(request.retrievers@));
                match r {
                    Ok(s) => {
                        &&& !no_score
                        &&& !bad_field
                        &&& keys_of(s) == effective_keys(sort, mode)
                        &&& s.mode == mode
                    },
                    Err(e) => if no_score {
                        e@ == Failure::InvalidArgument("a score sort needs a retriever"@)
                    } else {
                        &&& bad_field
                        &&& e@ == Failure::InvalidArgument(
                            "a field sort allows at most one retriever, and it must be text"@,
                        )
                    },
                }
            }),
    {
        let ghost sort = ir::sort_key_views(request.sort@);
        let mut keys = ir::copy_sort_keys(&request.sort);
        let mode = if keys.len() == 0 {
            if request.retrievers.len() == 0 {
                RankMode::Field
            } else {
                RankMode::Score
            }
        } else {
            match &keys[0] {
                SortKey::Score { .. } => RankMode::Score,
                _ => RankMode::Field,
            }
        };
        proof {
            assert(keys@.len() == sort.len());
            if keys@.len() > 0 {
                assert(sort[0] == keys@[0]@);
            }
        }
        let mut scored: bool = false;
        let mut i: usize = 0;
        while i < keys.len()
            invariant
                i <= keys@.len(),
                sort == ir::sort_key_views(keys@),
                scored <==> exists|j: int| 0 <= j < i && (#[trigger] sort[j]) is Score,
            decreases keys.len() - i,
        {
            assert(sort[i as int] == keys@[i as int]@);
            match &keys[i] {
                SortKey::Score { .. } => {
                    scored = true;
                },
                _ => {},
            }
            i += 1;
        }
        if request.retrievers.len() == 0 && scored {
            return Err(
                ServiceError::InvalidArgument("a score sort needs a retriever".to_owned()),
            );
        }
        let mut text_only: bool = true;
        let mut j: usize = 0;
        while j < request.retrievers.len()
            invariant
                j <= request.retrievers@.len(),
                text_only <==> forall|t: int|
                    0 <= t < j ==> (#[trigger] request.retrievers@[t]) is Text,
            decreases request.retrievers.len() - j,
        {
            match &request.retrievers[j] {
                Retriever::Text { .. } => {},
                _ => {
                    text_only = false;
                },
            }
            j += 1;
        }
        if mode == RankMode::Field && (request.retrievers.len() > 1 || !text_only) {
            return Err(
                ServiceError::InvalidArgument(
                    "a field sort allows at most one retriever, and it must be text".to_owned(),
                ),
            );
        }
        if keys.len() == 0 {
            match mode {
                RankMode::Score => keys.push(SortKey::Score { order: SortOrder::Desc }),
                RankMode::Field => keys.push(SortKey::Pk { order: SortOrder::Asc }),
            }
        }
        let ghost listed = ir::sort_key_views(keys@);
        let ends = match &keys[keys.len() - 1] {
            SortKey::Pk { .. } => true,
            _ => false,
        };
        proof {
            if sort.len() == 0 {
                assert(listed =~= seq![keys@[0]@]);
            } else {
                assert(listed =~= sort);
            }
            assert(listed.last() == keys@[keys@.len() - 1]@);
        }
        if !ends {
            keys.push(SortKey::Pk { order: SortOrder::Asc });
        }
        proof {
            assert(ir::sort_key_views(keys@) =~= effective_keys(sort, mode));
        }
        Ok(EffectiveSort { keys, mode })
    }

    /// The order of a scored retriever: the score descending, then the key.
    pub fn by_score() -> (r: EffectiveSort)
        ensures
            keys_of(r) == seq![
                SortKeyV::Score { order: SortOrder::Desc },
                SortKeyV::Pk { order: SortOrder::Asc },
            ],
            r.mode == RankMode::Score,
    {
        let mut keys: Vec<SortKey> = Vec::new();
        keys.push(SortKey::Score { order: SortOrder::Desc });
        keys.push(SortKey::Pk { order: SortOrder::Asc });
        let r = EffectiveSort { keys, mode: RankMode::Score };
        proof {
            assert(keys_of(r) =~= seq![
                SortKeyV::Score { order: SortOrder::Desc },
                SortKeyV::Pk { order: SortOrder::Asc },
            ]);
        }
        r
    }

    /// A copy of the sort.
    pub fn copy(&self) -> (r: EffectiveSort)
        ensures
            keys_of(r) == keys_of(*self),
            r.mode == self.mode,
    {
        EffectiveSort { keys: ir::copy_sort_keys(&self.keys), mode: self.mode }
    }

    /// Whether some key reads the score.
    pub fn has_score(&self) -> (r: bool)
        ensures
            r == reads_score(keys_of(*self)),
    {
        let ghost keys = keys_of(*self);
        let mut i: usize = 0;
        while i < self.keys.len()
            invariant
                i <= self.keys@.len(),
                keys == keys_of(*self),
                forall|j: int| 0 <= j < i ==> !((#[trigger] keys[j]) is Score),
            decreases self.keys.len() - i,
        {
            assert(keys[i as int] == self.keys@[i as int]@);
            match &self.keys[i] {
                SortKey::Score { .. } => {
                    return true;
                },
                _ => {},
            }
            i += 1;
        }
        false
    }

    /// The `Field` keys, in order: field, order, place of missing values.
    pub fn field_keys(&self) -> (r: Vec<(String, SortOrder, MissingOrder)>)
        ensures
            field_key_views(r@) == field_parts(keys_of(*self)),
    {
        let ghost keys = keys_of(*self);
        let mut out: Vec<(String, SortOrder, MissingOrder)> = Vec::new();
        let mut i: usize = 0;
        proof {
            assert(keys.skip(0) =~= keys);
            assert(field_key_views(out@) + field_parts(keys) =~= field_parts(keys));
        }
        while i < self.keys.len()
            invariant
                i <= self.keys@.len(),
                keys == keys_of(*self),
                field_key_views(out@) + field_parts(keys.skip(i as int)) == field_parts(keys),
            decreases self.keys.len() - i,
        {
            let ghost rest = keys.skip(i as int);
            let ghost before = field_key_views(out@);
            proof {
                assert(rest[0] == self.keys@[i as int]@);
                assert(rest.drop_first() =~= keys.skip(i as int + 1));
            }
            match &self.keys[i] {
                SortKey::Field { field, order, missing } => {
                    out.push((field.clone(), *order, *missing));
                    proof {
                        assert(field_key_views(out@) =~= before.push((field@, *order, *missing)));
                        assert(before.push((field@, *order, *missing)) + field_parts(
                            rest.drop_first(),
                        ) =~= before + field_parts(rest));
                    }
                },
                _ => {},
            }
            i += 1;
        }
        proof {
            assert(field_parts(keys.skip(i as int)) =~= Seq::empty());
            assert(field_key_views(out@) + Seq::empty() =~= field_key_views(out@));
        }
        out
    }

    fn compare_keys(&self, a: &Ranked, b: &Ranked, pk: bool) -> (r: Sign)
        ensures
            r == keys_sign(keys_of(*self), a@, b@, pk, 0),
    {
        let ghost keys = keys_of(*self);
        let mut field: usize = 0;
        let mut i: usize = 0;
        proof {
            assert(keys.skip(0) =~= keys);
        }
        while i < self.keys.len()
            invariant
                i <= self.keys@.len(),
                field <= i,
                keys == keys_of(*self),
                keys_sign(keys, a@, b@, pk, 0) == keys_sign(
                    keys.skip(i as int),
                    a@,
                    b@,
                    pk,
                    field as nat,
                ),
            decreases self.keys.len() - i,
        {
            let ghost rest = keys.skip(i as int);
            proof {
                assert(rest[0] == self.keys@[i as int]@);
                assert(rest.drop_first() =~= keys.skip(i as int + 1));
            }
            let s = match &self.keys[i] {
                SortKey::Score { order } => direct(*order, score_order(a.score, b.score)),
                SortKey::Pk { order } => if pk {
                    direct(*order, a.pk.sign(&b.pk))
                } else {
                    Sign::Equal
                },
                SortKey::Field { order, missing, .. } => {
                    let s = field_order_at(&a.sort, &b.sort, field, *order, *missing);
                    field += 1;
                    s
                },
            };
            match s {
                Sign::Equal => {},
                _ => {
                    return s;
                },
            }
            i += 1;
        }
        Sign::Equal
    }

    /// The order of two candidates: key by key, the primary key last.
    pub fn compare(&self, a: &Ranked, b: &Ranked) -> (r: Ordering)
        ensures
            r == keys_sign(keys_of(*self), a@, b@, true, 0).named(),
    {
        self.compare_keys(a, b, true).to_ordering()
    }

    /// [`EffectiveSort::compare`] with every `Pk` key equal.
    pub fn compare_ignoring_pk(&self, a: &Ranked, b: &Ranked) -> (r: Ordering)
        ensures
            r == keys_sign(keys_of(*self), a@, b@, false, 0).named(),
    {
        self.compare_keys(a, b, false).to_ordering()
    }

    /// Whether `a` comes after `b` by the keys before the first key position.
    pub fn worse_before_pk(&self, a: &Ranked, b: &Ranked) -> (r: bool)
        ensures
            r == (leading_sign(keys_of(*self), a@, b@, 0) is Greater),
    {
        let ghost keys = keys_of(*self);
        let mut field: usize = 0;
        let mut i: usize = 0;
        proof {
            assert(keys.skip(0) =~= keys);
        }
        while i < self.keys.len()
            invariant
                i <= self.keys@.len(),
                field <= i,
                keys == keys_of(*self),
                leading_sign(keys, a@, b@, 0) == leading_sign(
                    keys.skip(i as int),
                    a@,
                    b@,
                    field as nat,
                ),
            decreases self.keys.len() - i,
        {
            let ghost rest = keys.skip(i as int);
            proof {
                assert(rest[0] == self.keys@[i as int]@);
                assert(rest.drop_first() =~= keys.skip(i as int + 1));
            }
            let s = match &self.keys[i] {
                SortKey::Score { order } => direct(*order, score_order(a.score, b.score)),
                SortKey::Pk { .. } => {
                    return false;
                },
                SortKey::Field { order, missing, .. } => {
                    let s = field_order_at(&a.sort, &b.sort, field, *order, *missing);
                    field += 1;
                    s
                },
            };
            match s {
                Sign::Equal => {},
                Sign::Greater => {
                    return true;
                },
                Sign::Less => {
                    return false;
                },
            }
            i += 1;
        }
        false
    }

    /// Refuses a `search_after` that names more values than there are keys,
    /// or a value that does not fit its key; `shown` are the values as a
    /// message shows them.
    pub fn check_search_after(
        &self,
        search_after: &Vec<SortValue>,
        shown: &Vec<String>,
    ) -> (r: Result<(), ServiceError>)
        requires
            shown@.len() == search_after@.len(),
        ensures
            ({
                let keys = keys_of(*self);
                let after = values::sort_views(search_after@);
                match r {
                    Ok(_) => after.len() <= keys.len() && forall|i: int|
                        0 <= i < after.len() ==> fits(#[trigger] keys[i], after[i]),
                    Err(e) => if after.len() > keys.len() {
                        e@ == Failure::InvalidArgument(too_many(after.len(), keys.len()))
                    } else {
                        exists|i: int|
                            first_misfit(keys, after, i) && e@ == Failure::InvalidArgument(
                                misfit((#[trigger] shown@[i])@),
                            )
                    },
                }
            }),
    {
        let ghost keys = keys_of(*self);
        let ghost after = values::sort_views(search_after@);
        if search_after.len() > self.keys.len() {
            let mut m = "search_after has ".to_owned();
            m.append(text::dec(search_after.len() as u64).as_str());
            m.append(" values but the sort has ");
            m.append(text::dec(self.keys.len() as u64).as_str());
            m.append(" keys");
            return Err(ServiceError::InvalidArgument(m));
        }
        let mut i: usize = 0;
        while i < search_after.len()
            invariant
                i <= search_after@.len() <= self.keys@.len(),
                shown@.len() == search_after@.len(),
                keys == keys_of(*self),
                after == values::sort_views(search_after@),
                forall|j: int| 0 <= j < i ==> fits(#[trigger] keys[j], after[j]),
            decreases search_after.len() - i,
        {
            assert(keys[i as int] == self.keys@[i as int]@);
            assert(after[i as int] == search_after@[i as int]@);
            let valid = match &self.keys[i] {
                SortKey::Pk { .. } => search_after[i].as_pk().is_some(),
                SortKey::Score { .. } => named_score(&search_after[i]).is_some(),
                SortKey::Field { .. } => true,
            };
            if !valid {
                let m = text::cat3(
                    "search_after value ",
                    shown[i].as_str(),
                    " does not fit its sort key",
                );
                assert(first_misfit(keys, after, i as int));
                return Err(ServiceError::InvalidArgument(m));
            }
            i += 1;
        }
        Ok(())
    }

    /// Whether `hit` comes after the values of `search_after`, read as a
    /// prefix of the keys: equal prefixes are not after.
    pub fn is_after(&self, hit: &Ranked, search_after: &Vec<SortValue>) -> (r: bool)
        ensures
            r == (after_sign(keys_of(*self), hit@, values::sort_views(search_after@), 0)
                is Greater),
    {
        let ghost keys = keys_of(*self);
        let ghost after = values::sort_views(search_after@);
        let mut field: usize = 0;
        let mut i: usize = 0;
        proof {
            assert(keys.skip(0) =~= keys);
            assert(after.skip(0) =~= after);
        }
        while i < self.keys.len() && i < search_after.len()
            invariant
                i <= self.keys@.len(),
                i <= search_after@.len(),
                field <= i,
                keys == keys_of(*self),
                after == values::sort_views(search_after@),
                after_sign(keys, hit@, after, 0) == after_sign(
                    keys.skip(i as int),
                    hit@,
                    after.skip(i as int),
                    field as nat,
                ),
            decreases self.keys.len() - i,
        {
            let ghost rest = keys.skip(i as int);
            let ghost left = after.skip(i as int);
            proof {
                assert(rest[0] == self.keys@[i as int]@);
                assert(rest.drop_first() =~= keys.skip(i as int + 1));
                assert(left[0] == search_after@[i as int]@);
                assert(left.drop_first() =~= after.skip(i as int + 1));
            }
            let value = &search_after[i];
            let s = match &self.keys[i] {
                SortKey::Score { order } => match named_score(value) {
                    Some(score) => direct(*order, score_order(hit.score, score)),
                    None => Sign::Greater,
                },
                SortKey::Pk { order } => match value.as_pk() {
                    Some(pk) => direct(*order, hit.pk.sign(&pk)),
                    None => Sign::Greater,
                },
                SortKey::Field { order, missing, .. } => {
                    let null = SortValue::Null;
                    let own = if field < hit.sort.len() {
                        &hit.sort[field]
                    } else {
                        &null
                    };
                    let s = field_order(own, value, *order, *missing);
                    field += 1;
                    s
                },
            };
            match s {
                Sign::Greater => {
                    return true;
                },
                Sign::Less => {
                    return false;
                },
                Sign::Equal => {},
            }
            i += 1;
        }
        false
    }

    /// One value per key, including the score and the primary key.
    pub fn sort_values(&self, hit: &Ranked) -> (r: Vec<SortValue>)
        ensures
            values::sort_views(r@) == hit_values(keys_of(*self), hit@, 0),
    {
        let ghost keys = keys_of(*self);
        let mut out: Vec<SortValue> = Vec::new();
        let mut field: usize = 0;
        let mut i: usize = 0;
        proof {
            assert(keys.skip(0) =~= keys);
            assert(values::sort_views(out@) + hit_values(keys, hit@, 0) =~= hit_values(
                keys,
                hit@,
                0,
            ));
        }
        while i < self.keys.len()
            invariant
                i <= self.keys@.len(),
                field <= i,
                keys == keys_of(*self),
                values::sort_views(out@) + hit_values(keys.skip(i as int), hit@, field as nat)
                    == hit_values(keys, hit@, 0),
            decreases self.keys.len() - i,
        {
            let ghost rest = keys.skip(i as int);
            let ghost before = values::sort_views(out@);
            let ghost at = field as nat;
            proof {
                assert(rest[0] == self.keys@[i as int]@);
                assert(rest.drop_first() =~= keys.skip(i as int + 1));
            }
            let value = match &self.keys[i] {
                SortKey::Score { .. } => SortValue::F64(float::widen(hit.score)),
                SortKey::Pk { .. } => SortValue::from_pk(&hit.pk),
                SortKey::Field { .. } => {
                    let v = if field < hit.sort.len() {
                        hit.sort[field].copy()
                    } else {
                        SortValue::Null
                    };
                    field += 1;
                    v
                },
            };
            proof {
                assert(value@ == hit_value(rest[0], hit@, at));
            }
            out.push(value);
            proof {
                assert(values::sort_views(out@) =~= before.push(value@));
                assert(before.push(value@) + hit_values(
                    rest.drop_first(),
                    hit@,
                    at + field_step(rest[0]),
                ) =~= before + hit_values(rest, hit@, at));
            }
            i += 1;
        }
        proof {
            assert(hit_values(keys.skip(i as int), hit@, field as nat) =~= Seq::empty());
            assert(values::sort_views(out@) + Seq::empty() =~= values::sort_views(out@));
        }
        out
    }
}

/// The parts of field keys.
pub open spec fn field_key_views(
    s: Seq<(String, SortOrder, MissingOrder)>,
) -> Seq<(Seq<char>, SortOrder, MissingOrder)> {
    Seq::new(s.len(), |i: int| (s[i].0@, s[i].1, s[i].2))
}

/// The parts of the field keys among sort keys, in order.
pub open spec fn field_parts(keys: Seq<SortKeyV>) -> Seq<(Seq<char>, SortOrder, MissingOrder)>
    decreases keys.len(),
{
    if keys.len() == 0 {
        Seq::empty()
    } else {
        match keys[0] {
            SortKeyV::Field { field, order, missing } => seq![(field, order, missing)]
                + field_parts(keys.drop_first()),
            _ => field_parts(keys.drop_first()),
        }
    }
}

impl Ranking<RankedV> for EffectiveSort {
    open spec fn le(&self, a: RankedV, b: RankedV) -> bool {
        !(keys_sign(keys_of(*self), a, b, true, 0) is Greater)
    }
}

impl Ranking<Ranked> for EffectiveSort {
    open spec fn le(&self, a: Ranked, b: Ranked) -> bool {
        !(keys_sign(keys_of(*self), a@, b@, true, 0) is Greater)
    }
}

impl Order<Ranked> for EffectiveSort {
    fn leq(&self, a: &Ranked, b: &Ranked) -> (r: bool) {
        match self.compare_keys(a, b, true) {
            Sign::Greater => false,
            _ => true,
        }
    }
}

} // verus!
