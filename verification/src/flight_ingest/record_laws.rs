//! What the rows of a stream put become: each column goes where its name
//! says, and a record goes to the partition that it is given, else to that
//! of its key.

use crate::cells::TimeUnit;
use crate::flight_ingest::rows;
use crate::flight_ingest::shape;
use crate::flight_ingest::shape::{ColumnCells, Field, RecordBatch, TimeCell};
use crate::flight_ingest::stream;
use crate::flight_ingest::stream::{PartV, RecordV, StreamMapV, StreamRole};
use vstd::prelude::*;
use vstd::string::*;

verus! {

/// Whether `q` is `v` in units that are `by` times as long, towards zero.
pub open spec fn towards_zero(v: int, q: int, by: int) -> bool {
    if v >= 0 {
        q * by <= v < q * by + by
    } else {
        q * by - by < v <= q * by
    }
}

/// Whether a time is that of a cell: its whole milliseconds, and -1 for a
/// null.
pub open spec fn is_time(c: TimeCell, ms: i64) -> bool {
    match c {
        TimeCell::Null => ms == -1,
        TimeCell::Millis(v) => ms == v,
        TimeCell::Unit(v, TimeUnit::Second) => i64::MIN <= v * 1_000 <= i64::MAX ==> ms == v
            * 1_000,
        TimeCell::Unit(v, TimeUnit::Millisecond) => ms == v,
        TimeCell::Unit(v, TimeUnit::Microsecond) => towards_zero(v as int, ms as int, 1_000),
        TimeCell::Unit(v, TimeUnit::Nanosecond) => towards_zero(v as int, ms as int, 1_000_000),
    }
}

/// Whether none of the first `k` columns has a name.
pub open spec fn without(fields: Seq<Field>, k: nat, name: Seq<char>) -> bool {
    forall|j: int| 0 <= j < k ==> (#[trigger] fields[j]).name@ != name
}

/// Whether a record, and the partition that is given for it, are what the
/// first `k` columns of a row hold, each by the name of its column.
pub open spec fn is_row(
    fields: Seq<Field>,
    columns: Seq<ColumnCells>,
    row: int,
    k: nat,
    fixed: Option<u32>,
    r: RecordV,
    given: Option<u32>,
) -> bool {
    &&& forall|j: int|
        0 <= j < k && (#[trigger] fields[j]).name@ == "key"@ ==> r.key == rows::opt_bytes(
            columns[j]->Blobs_0@[row],
        )
    &&& without(fields, k, "key"@) ==> r.key is None
    &&& forall|j: int|
        0 <= j < k && (#[trigger] fields[j]).name@ == "value"@ ==> r.value == rows::opt_bytes(
            columns[j]->Blobs_0@[row],
        )
    &&& without(fields, k, "value"@) ==> r.value is None
    &&& forall|j: int|
        0 <= j < k && (#[trigger] fields[j]).name@ == "headers"@ ==> rows::headers_of(
            columns[j]->Headers_0@[row],
        ) == Ok::<Seq<(Seq<char>, Option<Seq<u8>>)>, Seq<char>>(r.headers)
    &&& without(fields, k, "headers"@) ==> r.headers.len() == 0
    &&& forall|j: int|
        0 <= j < k && (#[trigger] fields[j]).name@ == "timestamp"@ ==> is_time(
            columns[j]->Times_0@[row],
            r.timestamp_ms,
        )
    &&& without(fields, k, "timestamp"@) ==> r.timestamp_ms == -1
    &&& forall|j: int|
        0 <= j < k && (#[trigger] fields[j]).name@ == "partition"@ ==> given is Some
            && columns[j]->Numbers_0@[row] == Some(given->0 as i64)
    &&& without(fields, k, "partition"@) ==> given == fixed
}

proof fn times_are_read(c: TimeCell)
    ensures
        match stream::time_of(c) {
            None => c is Null,
            Some(ms) => !(c is Null) && is_time(c, ms),
        },
{
    if let TimeCell::Unit(v, unit) = c {
        let n = v as int;
        assert(n >= 0 ==> 0 <= n / 1_000 <= n && 0 <= n / 1_000_000 <= n);
        assert(n < 0 ==> 0 <= (-n) / 1_000 <= -n && 0 <= (-n) / 1_000_000 <= -n);
    }
}

proof fn some_repeat_is_first(names: Seq<Seq<char>>, i: int)
    requires
        shape::repeats_at(names, i),
    ensures
        exists|j: int| shape::first_repeat(names, j),
    decreases i,
{
    if !shape::first_repeat(names, i) {
        let j = choose|j: int| 0 <= j < i && #[trigger] shape::repeats_at(names, j);
        some_repeat_is_first(names, j);
    }
}

/// Columns without a repeated name have different names.
pub proof fn names_differ(fields: Seq<Field>, a: int, b: int)
    requires
        0 <= a < b < fields.len(),
        !(exists|j: int| shape::first_repeat(shape::names(fields), j)),
    ensures
        fields[a].name@ != fields[b].name@,
{
    let names = shape::names(fields);
    if fields[a].name@ == fields[b].name@ {
        assert(names.take(b)[a] == names[b]);
        assert(shape::repeats_at(names, b));
        some_repeat_is_first(names, b);
    }
}

proof fn roles_are_by_name(fields: Seq<Field>, n: nat)
    requires
        n <= fields.len(),
        stream::stream_roles(fields, n) is Ok,
    ensures
        ({
            let roles = stream::stream_roles(fields, n)->Ok_0;
            &&& roles.len() == n
            &&& forall|i: int|
                0 <= i < n ==> stream::role_named((#[trigger] fields[i]).name@) == Some(roles[i].1)
        }),
    decreases n,
{
    if n > 0 {
        roles_are_by_name(fields, (n - 1) as nat);
    }
}

proof fn words_differ()
    ensures
        stream::role_named("key"@) == Some(StreamRole::Key),
        stream::role_named("value"@) == Some(StreamRole::Value),
        stream::role_named("headers"@) == Some(StreamRole::Headers),
        stream::role_named("timestamp"@) == Some(StreamRole::Timestamp),
        stream::role_named("partition"@) == Some(StreamRole::Partition),
{
    reveal_strlit("key");
    reveal_strlit("value");
    reveal_strlit("headers");
    reveal_strlit("timestamp");
    reveal_strlit("partition");
    assert("key"@.len() == 3);
    assert("value"@.len() == 5);
    assert("headers"@.len() == 7);
    assert("timestamp"@[0] == 't' && "timestamp"@.len() == 9);
    assert("partition"@[0] == 'p' && "partition"@.len() == 9);
}

proof fn columns_are_read(
    fields: Seq<Field>,
    m: StreamMapV,
    columns: Seq<ColumnCells>,
    row: int,
    k: nat,
)
    requires
        k <= fields.len(),
        columns.len() == fields.len(),
        !(exists|j: int| shape::first_repeat(shape::names(fields), j)),
        stream::stream_roles(fields, fields.len()) == Ok::<
            Seq<(Seq<char>, StreamRole)>,
            crate::error::Failure,
        >(m.roles),
        forall|i: int|
            0 <= i < m.roles.len() ==> stream::role_fits(
                (#[trigger] m.roles[i]).1,
                columns[i],
                shape::rows_of(columns[i]),
            ),
    ensures
        stream::part_of(m, columns, row, k) matches Ok(acc) ==> is_row(
            fields,
            columns,
            row,
            k,
            m.fixed_partition,
            acc.record,
            acc.partition,
        ),
    decreases k,
{
    roles_are_by_name(fields, fields.len());
    words_differ();
    if k > 0 && stream::part_of(m, columns, row, k) is Ok {
        let at = k - 1;
        columns_are_read(fields, m, columns, row, (k - 1) as nat);
        let before = stream::part_of(m, columns, row, (k - 1) as nat)->Ok_0;
        let acc = stream::part_of(m, columns, row, k)->Ok_0;
        let name = fields[at].name@;
        let role = m.roles[at].1;
        assert(stream::role_named(name) == Some(role));
        assert(stream::role_fits(role, columns[at], shape::rows_of(columns[at])));
        assert forall|j: int| 0 <= j < at implies (#[trigger] fields[j]).name@ != name by {
            names_differ(fields, j, at);
        }
        assert(without(fields, (k - 1) as nat, name));
        if columns[at] is Times {
            times_are_read(columns[at]->Times_0@[row]);
        }
        assert(stream::stream_step(before, role, columns[at], row, m.partitions) == Ok::<
            PartV,
            Seq<char>,
        >(acc));
        assert(forall|other: Seq<char>|
            #[trigger] without(fields, k, other) ==> without(fields, (k - 1) as nat, other) && other
                != name) by {
            assert forall|other: Seq<char>| #[trigger] without(fields, k, other) implies without(
                fields,
                (k - 1) as nat,
                other,
            ) && other != name by {
                assert(fields[at].name@ == name);
            }
        }
        assert forall|other: Seq<char>|
            other != name && #[trigger] without(fields, (k - 1) as nat, other) implies without(
            fields,
            k,
            other,
        ) by {
            assert forall|j: int| 0 <= j < k implies (#[trigger] fields[j]).name@ != other by {
                if j < at {
                    assert(fields[j].name@ != other);
                }
            }
        }
    }
}

proof fn records_are_rows(m: StreamMapV, columns: Seq<ColumnCells>, n: nat, i: int)
    requires
        0 <= i < n,
        stream::records_of(m, columns, n) is Ok,
    ensures
        stream::records_of(m, columns, n)->Ok_0.len() == n,
        stream::record_of(m, columns, i) == Ok::<(u32, RecordV), (Seq<char>, Seq<char>)>(
            stream::records_of(m, columns, n)->Ok_0[i],
        ),
    decreases n,
{
    reveal_with_fuel(stream::records_of, 2);
    if n > 1 {
        if i < n - 1 {
            records_are_rows(m, columns, (n - 1) as nat, i);
        } else {
            records_are_rows(m, columns, (n - 1) as nat, 0);
        }
    }
}

/// Every row of a batch becomes one record, in order. A record has the key,
/// the value, the headers and the time of its row's columns of these names,
/// or none. It goes to the partition of its row, else to that of the path,
/// else to its key's hash over the stream's partitions, else to the only
/// partition.
pub proof fn rows_become_their_records(
    fields: Seq<Field>,
    fixed: Option<u32>,
    partitions: u32,
    batch: RecordBatch,
    row: int,
)
    requires
        0 <= row < batch.rows,
        stream::stream_mapping(fields, fixed, partitions) matches Ok(m) && stream::batch_fits(
            m.roles,
            batch,
        ) && stream::records(m, batch) is Ok,
    ensures
        ({
            let m = stream::stream_mapping(fields, fixed, partitions)->Ok_0;
            let out = stream::records(m, batch)->Ok_0;
            let (p, r) = out[row];
            let spread = if partitions == 0 {
                1
            } else {
                partitions
            };
            &&& out.len() == batch.rows
            &&& exists|given: Option<u32>|
                #![trigger is_row(fields, batch.columns@, row, fields.len(), fixed, r, given)]
                is_row(fields, batch.columns@, row, fields.len(), fixed, r, given) && match given {
                    Some(g) => p == g,
                    None => match r.key {
                        Some(key) => p == stream::xxh3_of(key) as int % spread as int,
                        None => spread == 1 && p == 0,
                    },
                }
            &&& p < spread
        }),
{
    let m = stream::stream_mapping(fields, fixed, partitions)->Ok_0;
    let columns = batch.columns@;
    roles_are_by_name(fields, fields.len());
    records_are_rows(m, columns, batch.rows as nat, row);
    assert forall|i: int| 0 <= i < m.roles.len() implies stream::role_fits(
        (#[trigger] m.roles[i]).1,
        columns[i],
        shape::rows_of(columns[i]),
    ) by {
        assert(stream::role_fits(m.roles[i].1, columns[i], batch.rows as nat));
    }
    columns_are_read(fields, m, columns, row, fields.len());
    let acc = stream::part_of(m, columns, row, m.roles.len())->Ok_0;
    assert(is_row(fields, columns, row, fields.len(), fixed, acc.record, acc.partition));
    given_partitions_are_there(m, columns, row, m.roles.len());
    if acc.partition is None && acc.record.key is Some {
        let h = stream::xxh3_of(acc.record.key->0);
        assert(0 <= h % (m.partitions as u64) < m.partitions);
    }
}

proof fn given_partitions_are_there(m: StreamMapV, columns: Seq<ColumnCells>, row: int, k: nat)
    requires
        m.fixed_partition matches Some(p) ==> p < m.partitions,
    ensures
        stream::part_of(m, columns, row, k) matches Ok(acc) ==> (acc.partition matches Some(p) ==> p
            < m.partitions),
    decreases k,
{
    if k > 0 && k <= m.roles.len() {
        given_partitions_are_there(m, columns, row, (k - 1) as nat);
    }
}

} // verus!
