//! What the effective sort promises: it is a total order of documents, and
//! paging by `search_after` continues exactly where a page ended.

use crate::bytes;
use crate::exec::order;
use crate::exec::order::EffectiveSort;
use crate::exec::schema::{Ranked, RankedV};
use crate::float;
use crate::ir::{MissingOrder, SortKeyV, SortOrder};
use crate::key;
use crate::ordering;
use crate::ordering::{Ranking, Sign};
use crate::values;
use crate::values::SortV;
use vstd::prelude::*;
use vstd::utf8::*;

verus! {

/// Exchanging two values turns their order round.
pub proof fn value_order_flips(a: SortV, b: SortV)
    ensures
        order::value_sign(b, a) == order::value_sign(a, b).flip(),
{
    match (a, b) {
        (SortV::Str(x), SortV::Str(y)) => {
            bytes::lex_total(encode_utf8(x), encode_utf8(y));
        },
        (SortV::Uuid(x), SortV::Uuid(y)) => {
            bytes::lex_total(x, y);
        },
        _ => {},
    }
}

/// A candidate's key is a key.
pub open spec fn sound(a: RankedV) -> bool {
    key::is_key(a.pk)
}

proof fn key_flips(k: SortKeyV, a: RankedV, b: RankedV, pk: bool, field: nat)
    requires
        sound(a),
        sound(b),
    ensures
        order::key_sign(k, b, a, pk, field) == order::key_sign(k, a, b, pk, field).flip(),
{
    match k {
        SortKeyV::Score { .. } => {},
        SortKeyV::Pk { .. } => {
            key::key_sign_flips(a.pk, b.pk);
        },
        SortKeyV::Field { .. } => {
            value_order_flips(order::sort_at(a.sort, field), order::sort_at(b.sort, field));
        },
    }
}

/// Exchanging two candidates turns their order round.
pub proof fn compare_flips(keys: Seq<SortKeyV>, a: RankedV, b: RankedV, pk: bool, field: nat)
    requires
        sound(a),
        sound(b),
    ensures
        order::keys_sign(keys, b, a, pk, field) == order::keys_sign(keys, a, b, pk, field).flip(),
    decreases keys.len(),
{
    if keys.len() > 0 {
        key_flips(keys[0], a, b, pk, field);
        compare_flips(keys.drop_first(), a, b, pk, field + order::field_step(keys[0]));
    }
}

/// Candidates that tie under a sort with a key position are one document.
pub proof fn ties_share_the_key(keys: Seq<SortKeyV>, a: RankedV, b: RankedV, field: nat)
    requires
        sound(a),
        sound(b),
        exists|i: int| 0 <= i < keys.len() && (#[trigger] keys[i]) is Pk,
        order::keys_sign(keys, a, b, true, field) is Equal,
    ensures
        a.pk == b.pk,
    decreases keys.len(),
{
    let i = choose|i: int| 0 <= i < keys.len() && (#[trigger] keys[i]) is Pk;
    if keys[0] is Pk {
        key::canonical_order(a.pk, b.pk);
    } else {
        assert(keys.drop_first()[i - 1] is Pk);
        ties_share_the_key(keys.drop_first(), a, b, field + order::field_step(keys[0]));
    }
}

/// Numbers that compare alike whether as integers or as floats: no float is
/// among them, or every integer has at most 53 bits.
pub open spec fn comparable(a: SortV, b: SortV, c: SortV) -> bool {
    ||| !(a is F64 || b is F64 || c is F64)
    ||| small(a) && small(b) && small(c)
}

/// An integer value has at most 53 bits.
pub open spec fn small(v: SortV) -> bool {
    order::int_value(v) matches Some(n) ==> -0x20_0000_0000_0000 <= n <= 0x20_0000_0000_0000
}

/// Three outcomes of a comparison that orders three things.
pub open spec fn consistent(ab: Sign, bc: Sign, ac: Sign) -> bool {
    !(ab is Greater) && !(bc is Greater) ==> {
        &&& !(ac is Greater)
        &&& ac is Equal <==> ab is Equal && bc is Equal
    }
}

proof fn small_ints(a: SortV, b: SortV)
    requires
        order::kind_rank(a) == 2,
        order::kind_rank(b) == 2,
        small(a),
        small(b),
    ensures
        order::value_sign(a, b) == ordering::int_sign(order::float_key(a), order::float_key(b)),
{
    if !(a is F64) && !(b is F64) {
        let x = order::int_value(a)->0;
        let y = order::int_value(b)->0;
        if x < y {
            float::int_bits64_exact(x, y);
        } else if y < x {
            float::int_bits64_exact(y, x);
        }
    }
}

/// The order of values is transitive, where integers and floats compare
/// alike.
pub proof fn values_are_ordered(a: SortV, b: SortV, c: SortV)
    requires
        comparable(a, b, c),
    ensures
        consistent(
            order::value_sign(a, b),
            order::value_sign(b, c),
            order::value_sign(a, c),
        ),
{
    if order::kind_rank(a) == order::kind_rank(b) && order::kind_rank(b) == order::kind_rank(c) {
        match (a, b, c) {
            (SortV::Str(x), SortV::Str(y), SortV::Str(z)) => {
                lex_is_ordered(encode_utf8(x), encode_utf8(y), encode_utf8(z));
            },
            (SortV::Uuid(x), SortV::Uuid(y), SortV::Uuid(z)) => {
                lex_is_ordered(x, y, z);
            },
            _ => {
                if order::kind_rank(a) == 2 && (a is F64 || b is F64 || c is F64) {
                    small_ints(a, b);
                    small_ints(b, c);
                    small_ints(a, c);
                }
            },
        }
    } else {
        value_order_flips(a, b);
        value_order_flips(b, c);
    }
}

proof fn lex_is_ordered(a: Seq<u8>, b: Seq<u8>, c: Seq<u8>)
    ensures
        consistent(bytes::lex(a, b), bytes::lex(b, c), bytes::lex(a, c)),
{
    bytes::lex_total(a, b);
    bytes::lex_total(b, c);
    bytes::lex_total(a, c);
    if bytes::lex_lt(a, b) && bytes::lex_lt(b, c) {
        bytes::lex_transitive(a, b, c);
    }
}

proof fn fields_are_ordered(
    a: SortV,
    b: SortV,
    c: SortV,
    direction: SortOrder,
    missing: MissingOrder,
)
    requires
        comparable(a, b, c),
    ensures
        consistent(
            order::field_sign(a, b, direction, missing),
            order::field_sign(b, c, direction, missing),
            order::field_sign(a, c, direction, missing),
        ),
{
    values_are_ordered(a, b, c);
    values_are_ordered(c, b, a);
    value_order_flips(a, b);
    value_order_flips(b, c);
    value_order_flips(a, c);
}

/// At every field position the values of three candidates compare alike.
pub open spec fn comparable_fields(a: RankedV, b: RankedV, c: RankedV) -> bool {
    forall|i: nat|
        comparable(
            #[trigger] order::sort_at(a.sort, i),
            order::sort_at(b.sort, i),
            order::sort_at(c.sort, i),
        )
}

proof fn key_is_ordered(k: SortKeyV, a: RankedV, b: RankedV, c: RankedV, pk: bool, field: nat)
    requires
        sound(a),
        sound(b),
        sound(c),
        comparable_fields(a, b, c),
    ensures
        consistent(
            order::key_sign(k, a, b, pk, field),
            order::key_sign(k, b, c, pk, field),
            order::key_sign(k, a, c, pk, field),
        ),
{
    match k {
        SortKeyV::Score { .. } => {},
        SortKeyV::Pk { order } => {
            if pk {
                key::key_sign_flips(a.pk, b.pk);
                key::key_sign_flips(b.pk, c.pk);
                key::key_sign_flips(a.pk, c.pk);
                key::canonical_order(a.pk, b.pk);
                key::canonical_order(b.pk, c.pk);
                key::canonical_order(a.pk, c.pk);
                if order == SortOrder::Asc {
                    if !(key::key_sign(a.pk, b.pk) is Greater) && !(key::key_sign(b.pk, c.pk)
                        is Greater) {
                        key::key_sign_transitive(a.pk, b.pk, c.pk);
                    }
                } else if !(key::key_sign(c.pk, b.pk) is Greater) && !(key::key_sign(b.pk, a.pk)
                    is Greater) {
                    key::key_sign_transitive(c.pk, b.pk, a.pk);
                }
            }
        },
        SortKeyV::Field { order, missing, .. } => {
            fields_are_ordered(
                order::sort_at(a.sort, field),
                order::sort_at(b.sort, field),
                order::sort_at(c.sort, field),
                order,
                missing,
            );
        },
    }
}

/// The effective sort is transitive on candidates whose field values
/// compare alike as integers and as floats.
pub proof fn compare_is_ordered(
    keys: Seq<SortKeyV>,
    a: RankedV,
    b: RankedV,
    c: RankedV,
    pk: bool,
    field: nat,
)
    requires
        sound(a),
        sound(b),
        sound(c),
        comparable_fields(a, b, c),
    ensures
        consistent(
            order::keys_sign(keys, a, b, pk, field),
            order::keys_sign(keys, b, c, pk, field),
            order::keys_sign(keys, a, c, pk, field),
        ),
    decreases keys.len(),
{
    if keys.len() > 0 {
        key_is_ordered(keys[0], a, b, c, pk, field);
        compare_is_ordered(
            keys.drop_first(),
            a,
            b,
            c,
            pk,
            field + order::field_step(keys[0]),
        );
    }
}

/// Paging by `search_after` continues where a page ended: a candidate comes
/// after the sort values of another exactly when it is ranked after it.
pub proof fn search_after_continues(keys: Seq<SortKeyV>, hit: RankedV, last: RankedV, field: nat)
    requires
        !float::is_nan32(last.score),
    ensures
        order::after_sign(keys, hit, order::hit_values(keys, last, field), field)
            == order::keys_sign(keys, hit, last, true, field),
    decreases keys.len(),
{
    if keys.len() > 0 {
        let rest = order::hit_values(
            keys.drop_first(),
            last,
            field + order::field_step(keys[0]),
        );
        let all = order::hit_values(keys, last, field);
        assert(all.drop_first() =~= rest);
        assert(all[0] == order::hit_value(keys[0], last, field));
        float::narrow_widens(last.score);
        values::key_of_inverts(last.pk);
        search_after_continues(
            keys.drop_first(),
            hit,
            last,
            field + order::field_step(keys[0]),
        );
    }
}

/// A sort's last key is a key position, so no two documents tie.
pub proof fn effective_sort_ends_with_the_key(sort: Seq<SortKeyV>, mode: order::RankMode)
    ensures
        order::effective_keys(sort, mode).len() > 0,
        order::effective_keys(sort, mode).last() is Pk,
{
}

/// The key of a candidate is a key, and its values fit columns of which
/// `floats` tells those that may hold floats: there every integer has at most
/// 53 bits, elsewhere no value is a float.
pub open spec fn fits_columns(a: RankedV, floats: spec_fn(nat) -> bool) -> bool {
    sound(a) && forall|i: nat|
        if floats(i) {
            small(#[trigger] order::sort_at(a.sort, i))
        } else {
            !(order::sort_at(a.sort, i) is F64)
        }
}

/// The effective sort is a total, transitive order of the candidates whose
/// values fit the same columns.
pub proof fn effective_sorts_are_linear(sort: EffectiveSort, floats: spec_fn(nat) -> bool)
    ensures
        ordering::linear(sort, |a: RankedV| fits_columns(a, floats)),
        ordering::linear(sort, |a: Ranked| fits_columns(a@, floats)),
{
    let keys = order::keys_of(sort);
    assert forall|a: RankedV, b: RankedV| sound(a) && sound(b) implies #[trigger] sort.le(a, b)
        || sort.le(b, a) by {
        compare_flips(keys, a, b, true, 0);
    }
    assert forall|a: RankedV, b: RankedV, c: RankedV|
        fits_columns(a, floats) && fits_columns(b, floats) && fits_columns(c, floats)
            && #[trigger] sort.le(a, b) && #[trigger] sort.le(b, c) implies sort.le(a, c) by {
        assert forall|i: nat|
            comparable(
                #[trigger] order::sort_at(a.sort, i),
                order::sort_at(b.sort, i),
                order::sort_at(c.sort, i),
            ) by {
            let x = order::sort_at(b.sort, i);
            let y = order::sort_at(c.sort, i);
        }
        compare_is_ordered(keys, a, b, c, true, 0);
    }
    assert forall|a: Ranked, b: Ranked| #[trigger] sort.le(a, b) || sort.le(b, a) by {
        assert(sort.le(a@, b@) || sort.le(b@, a@));
    }
    assert forall|a: Ranked, b: Ranked, c: Ranked|
        fits_columns(a@, floats) && fits_columns(b@, floats) && fits_columns(c@, floats)
            && #[trigger] sort.le(a, b) && #[trigger] sort.le(b, c) implies sort.le(a, c) by {
        assert(sort.le(a@, b@) && sort.le(b@, c@));
    }
}

} // verus!
