//! Which of a document's values it is sorted by: the least for an ascending
//! key, the greatest for a descending one.

use crate::exec::columns;
use crate::exec::columns::FieldCells;
use crate::float;
use crate::ir::SortOrder;
use crate::values::SortV;
use vstd::prelude::*;

verus! {

/// Whether an integer is the least of some for ascending, the greatest for
/// descending.
pub open spec fn is_extreme(s: Seq<i64>, order: SortOrder, n: i64) -> bool {
    &&& s.contains(n)
    &&& forall|i: int|
        0 <= i < s.len() ==> match order {
            SortOrder::Asc => n <= #[trigger] s[i],
            SortOrder::Desc => n >= s[i],
        }
}

/// Whether a double is the least of some for ascending, the greatest for
/// descending.
pub open spec fn is_extreme_double(s: Seq<u64>, order: SortOrder, b: u64) -> bool {
    &&& s.contains(b)
    &&& forall|i: int|
        0 <= i < s.len() ==> match order {
            SortOrder::Asc => !float::lt64(#[trigger] s[i], b),
            SortOrder::Desc => !float::lt64(b, s[i]),
        }
}

proof fn doubles_are_extreme(s: Seq<u64>, order: SortOrder)
    requires
        s.len() > 0,
        forall|i: int| 0 <= i < s.len() ==> !float::is_nan64(#[trigger] s[i]),
    ensures
        columns::float_pick(s, order) matches Some(b) && is_extreme_double(s, order, b),
    decreases s.len(),
{
    let rest = s.drop_last();
    assert(s[s.len() - 1] == s.last());
    if rest.len() == 0 {
        assert(columns::float_pick(rest, order) is None);
    } else {
        assert forall|i: int| 0 <= i < rest.len() implies !float::is_nan64(#[trigger] rest[i]) by {
            assert(rest[i] == s[i]);
        }
        doubles_are_extreme(rest, order);
        let best = columns::float_pick(rest, order)->0;
        let at = choose|at: int| 0 <= at < rest.len() && rest[at] == best;
        assert(s[at] == best);
        let b = columns::float_pick(s, order)->0;
        assert forall|i: int| 0 <= i < s.len() implies match order {
            SortOrder::Asc => !float::lt64(#[trigger] s[i], b),
            SortOrder::Desc => !float::lt64(b, s[i]),
        } by {
            if i < rest.len() {
                assert(rest[i] == s[i]);
                assert(!float::is_nan64(s[i]));
            }
        }
    }
}

/// The sort value of a document's cells is null without any, and else the
/// least of them for ascending and the greatest for descending, terms by
/// their place in the dictionary; doubles where all are numbers.
pub proof fn sort_values_are_extreme(v: SortV, cells: FieldCells, order: SortOrder)
    requires
        columns::is_sort_value(v, cells, order),
    ensures
        match cells {
            FieldCells::Missing => v is Null,
            FieldCells::I64(s) => if s@.len() == 0 {
                v is Null
            } else {
                v matches SortV::I64(n) && is_extreme(s@, order, n)
            },
            FieldCells::Date(s) => if s@.len() == 0 {
                v is Null
            } else {
                v matches SortV::I64(n) && is_extreme(s@, order, n)
            },
            FieldCells::F64(s) => if s@.len() == 0 {
                v is Null
            } else {
                (forall|i: int| 0 <= i < s@.len() ==> !float::is_nan64(#[trigger] s@[i])) ==> (
                v matches SortV::F64(b) && is_extreme_double(s@, order, b))
            },
            FieldCells::Bool(s) => if s@.len() == 0 {
                v is Null
            } else {
                v matches SortV::Bool(b) && (b <==> match order {
                    SortOrder::Asc => !s@.contains(false),
                    SortOrder::Desc => s@.contains(true),
                })
            },
            FieldCells::Str(s, uuid) => if s@.len() == 0 {
                v is Null
            } else {
                exists|at: int|
                    0 <= at < s@.len() && v == columns::term_value((#[trigger] s@[at]).text, uuid)
                        && forall|i: int|
                        0 <= i < s@.len() ==> match order {
                            SortOrder::Asc => s@[at].ord <= (#[trigger] s@[i]).ord,
                            SortOrder::Desc => s@[at].ord >= s@[i].ord,
                        }
            },
        },
{
    match cells {
        FieldCells::Missing => {},
        FieldCells::I64(s) => {
            if s@.len() > 0 {
                picks_are_extreme(s@, order, v);
            }
        },
        FieldCells::Date(s) => {
            if s@.len() > 0 {
                picks_are_extreme(s@, order, v);
            }
        },
        FieldCells::F64(s) => {
            if s@.len() > 0 && forall|i: int|
                0 <= i < s@.len() ==> !float::is_nan64(#[trigger] s@[i]) {
                doubles_are_extreme(s@, order);
            }
        },
        FieldCells::Bool(s) => {
            if s@.len() > 0 {
                let all = columns::truths(s@);
                let at = choose|at: int|
                    columns::is_pick(all, order, at) && v == SortV::Bool(#[trigger] s@[at]);
                assert forall|i: int| 0 <= i < s@.len() implies !columns::wins(
                    order,
                    if #[trigger] s@[i] {
                        1int
                    } else {
                        0
                    },
                    all[at],
                ) by {
                    assert(!columns::wins(order, all[i], all[at]));
                }
                assert(s@[at] == v->Bool_0);
            }
        },
        FieldCells::Str(s, uuid) => {
            if s@.len() > 0 {
                let all = columns::ords(s@);
                let at = choose|at: int|
                    columns::is_pick(all, order, at) && v == columns::term_value(
                        (#[trigger] s@[at]).text,
                        uuid,
                    );
                assert forall|i: int| 0 <= i < s@.len() implies match order {
                    SortOrder::Asc => s@[at].ord <= (#[trigger] s@[i]).ord,
                    SortOrder::Desc => s@[at].ord >= s@[i].ord,
                } by {
                    assert(!columns::wins(order, all[i], all[at]));
                }
            }
        },
    }
}

proof fn picks_are_extreme(s: Seq<i64>, order: SortOrder, v: SortV)
    requires
        exists|at: int|
            columns::is_pick(columns::signed(s), order, at) && v == SortV::I64(#[trigger] s[at]),
    ensures
        v matches SortV::I64(n) && is_extreme(s, order, n),
{
    let all = columns::signed(s);
    let at = choose|at: int| columns::is_pick(all, order, at) && v == SortV::I64(#[trigger] s[at]);
    assert forall|i: int| 0 <= i < s.len() implies match order {
        SortOrder::Asc => s[at] <= #[trigger] s[i],
        SortOrder::Desc => s[at] >= s[i],
    } by {
        assert(!columns::wins(order, all[i], all[at]));
    }
}

} // verus!
