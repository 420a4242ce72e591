//! Mapping record batches to the records of a stream and their partitions.

use crate::cells;
use crate::error;
use crate::error::{Failure, ServiceError};
use crate::flight_ingest::rows;
use crate::flight_ingest::shape;
use crate::flight_ingest::shape::{
    ColumnCells, DataType, Field, RecordBatch, RowError, RowFault, TimeCell,
};
use crate::flight_ingest::collection;
use crate::text;
use vstd::prelude::*;
use vstd::string::*;

verus! {

/// What one column of a stream put carries.
#[derive(Clone, Copy, Debug, PartialEq, Eq, Structural)]
pub enum StreamRole {
    Key,
    Value,
    Headers,
    Timestamp,
    Partition,
}

/// The role of a column's name.
pub open spec fn role_named(name: Seq<char>) -> Option<StreamRole> {
    if name == "key"@ {
        Some(StreamRole::Key)
    } else if name == "value"@ {
        Some(StreamRole::Value)
    } else if name == "headers"@ {
        Some(StreamRole::Headers)
    } else if name == "timestamp"@ {
        Some(StreamRole::Timestamp)
    } else if name == "partition"@ {
        Some(StreamRole::Partition)
    } else {
        None
    }
}

/// Whether a column of a role can have a type.
pub open spec fn type_fits(role: StreamRole, t: DataType) -> bool {
    match role {
        StreamRole::Key => shape::bytes_like(t),
        StreamRole::Value => shape::bytes_like(t),
        StreamRole::Headers => shape::headers_like(t),
        StreamRole::Timestamp => t is Timestamp || t is Int64,
        StreamRole::Partition => t is UInt32 || t is Int32,
    }
}

/// The role of a column, or why it can have none.
pub open spec fn stream_role(f: Field) -> Result<StreamRole, Failure> {
    match role_named(f.name@) {
        None => Err(
            collection::column_error(
                f.name@,
                ": a stream put takes the columns key, value, headers, timestamp and partition"@,
            ),
        ),
        Some(role) => if type_fits(role, f.data_type) {
            Ok(role)
        } else {
            Err(
                collection::column_error(
                    f.name@,
                    ": "@ + f.shown@ + " is not a valid type for it"@,
                ),
            )
        },
    }
}

fn column_role(f: &Field) -> (r: Result<StreamRole, ServiceError>)
    ensures
        match r {
            Ok(role) => stream_role(*f) == Ok::<StreamRole, Failure>(role),
            Err(e) => stream_role(*f) == Err::<StreamRole, Failure>(e@),
        },
{
    let name: &str = f.name.as_str();
    let t = &f.data_type;
    let (role, fits): (StreamRole, bool) = if text::same(name, "key") {
        (StreamRole::Key, shape::is_bytes(t))
    } else if text::same(name, "value") {
        (StreamRole::Value, shape::is_bytes(t))
    } else if text::same(name, "headers") {
        (StreamRole::Headers, shape::is_headers(t))
    } else if text::same(name, "timestamp") {
        (
            StreamRole::Timestamp,
            match t {
                DataType::Timestamp(_) | DataType::Int64 => true,
                _ => false,
            },
        )
    } else if text::same(name, "partition") {
        (
            StreamRole::Partition,
            match t {
                DataType::UInt32 | DataType::Int32 => true,
                _ => false,
            },
        )
    } else {
        return Err(
            error::invalid(
                text::cat3(
                    "column ",
                    name,
                    ": a stream put takes the columns key, value, headers, timestamp and partition",
                ),
            ),
        );
    };
    if fits {
        Ok(role)
    } else {
        Err(
            error::invalid(
                text::cat3(
                    "column ",
                    name,
                    &text::cat3(": ", &f.shown, " is not a valid type for it"),
                ),
            ),
        )
    }
}

/// The roles of the first `n` columns, or the error of the first without
/// one.
pub open spec fn stream_roles(fields: Seq<Field>, n: nat) -> Result<
    Seq<(Seq<char>, StreamRole)>,
    Failure,
>
    decreases n,
{
    if n == 0 || n > fields.len() {
        Ok(Seq::empty())
    } else {
        match stream_roles(fields, (n - 1) as nat) {
            Err(e) => Err(e),
            Ok(roles) => match stream_role(fields[n - 1]) {
                Err(e) => Err(e),
                Ok(role) => Ok(roles.push((fields[n - 1].name@, role))),
            },
        }
    }
}

proof fn roles_stay_wrong(fields: Seq<Field>, n: nat, m: nat)
    requires
        n <= m <= fields.len(),
        stream_roles(fields, n) is Err,
    ensures
        stream_roles(fields, m) == stream_roles(fields, n),
    decreases m - n,
{
    if n < m {
        roles_stay_wrong(fields, n, (m - 1) as nat);
    }
}

/// How batches map to a stream.
pub struct StreamMapV {
    pub roles: Seq<(Seq<char>, StreamRole)>,
    pub fixed_partition: Option<u32>,
    pub partitions: u32,
}

/// Whether a column names each row's partition.
pub open spec fn has_partition(roles: Seq<(Seq<char>, StreamRole)>) -> bool {
    exists|i: int| 0 <= i < roles.len() && (#[trigger] roles[i]).1 == StreamRole::Partition
}

/// How batches of a schema map to a stream of some partitions, or why they
/// cannot: names must differ, each column must have a role, and a partition
/// of the path must be one of the stream's and the only one given.
pub open spec fn stream_mapping(
    fields: Seq<Field>,
    fixed_partition: Option<u32>,
    partitions: u32,
) -> Result<StreamMapV, Failure> {
    let names = shape::names(fields);
    if exists|i: int| shape::first_repeat(names, i) {
        let i = choose|i: int| shape::first_repeat(names, i);
        Err(Failure::InvalidArgument("duplicate column "@ + names[i]))
    } else {
        match stream_roles(fields, fields.len()) {
            Err(e) => Err(e),
            Ok(roles) => {
                let made = StreamMapV {
                    roles,
                    fixed_partition,
                    partitions: if partitions == 0 {
                        1
                    } else {
                        partitions
                    },
                };
                match fixed_partition {
                    None => Ok(made),
                    Some(p) => if has_partition(roles) {
                        Err(
                            Failure::InvalidArgument(
                                "a partition column and a partition in the descriptor path cannot be combined"@,
                            ),
                        )
                    } else if p >= partitions {
                        Err(Failure::InvalidArgument(out_of_range(p as int, partitions)))
                    } else {
                        Ok(made)
                    },
                }
            },
        }
    }
}

/// What is wrong with a partition that a stream does not have.
pub open spec fn out_of_range(p: int, partitions: u32) -> Seq<char> {
    "partition "@ + text::decimal_int(p) + " is out of range: the stream has "@ + text::decimal(
        partitions as nat,
    )
}

fn range_message(p: i64, partitions: u32) -> (r: String)
    ensures
        r@ == out_of_range(p as int, partitions),
{
    let mut m = text::cat3("partition ", &text::dec_i64(p), " is out of range: the stream has ");
    m.append(&text::dec(partitions as u64));
    m
}

/// What some columns carry.
pub open spec fn role_views(s: Seq<(String, StreamRole)>) -> Seq<(Seq<char>, StreamRole)> {
    Seq::new(s.len(), |i: int| (s[i].0@, s[i].1))
}

/// Built once from a stream's schema; maps every batch of that schema.
#[derive(Debug)]
pub struct StreamBatchMapper {
    roles: Vec<(String, StreamRole)>,
    fixed_partition: Option<u32>,
    partitions: u32,
}

impl View for StreamBatchMapper {
    type V = StreamMapV;

    closed spec fn view(&self) -> StreamMapV {
        StreamMapV {
            roles: role_views(self.roles@),
            fixed_partition: self.fixed_partition,
            partitions: self.partitions,
        }
    }
}

/// A record of a stream.
#[derive(Debug)]
pub struct Record {
    pub key: Option<Vec<u8>>,
    pub value: Option<Vec<u8>>,
    pub headers: Vec<(String, Option<Vec<u8>>)>,
    pub timestamp_ms: i64,
}

/// What a record is.
pub struct RecordV {
    pub key: Option<Seq<u8>>,
    pub value: Option<Seq<u8>>,
    pub headers: Seq<(Seq<char>, Option<Seq<u8>>)>,
    pub timestamp_ms: i64,
}

impl View for Record {
    type V = RecordV;

    open spec fn view(&self) -> RecordV {
        RecordV {
            key: rows::opt_bytes(self.key),
            value: rows::opt_bytes(self.value),
            headers: rows::header_views(self.headers@),
            timestamp_ms: self.timestamp_ms,
        }
    }
}

/// What some records of partitions are.
pub open spec fn record_views(s: Seq<(u32, Record)>) -> Seq<(u32, RecordV)> {
    Seq::new(s.len(), |i: int| (s[i].0, s[i].1@))
}

/// The 64-bit XXH3 hash of bytes.
pub uninterp spec fn xxh3_of(b: Seq<u8>) -> u64;

/// `xxhash_rust::xxh3::xxh3_64`: the hash of the bytes with the default seed
/// and secret, a function of the bytes alone.
#[verifier::external_body]
fn hash_of(b: &[u8]) -> (r: u64)
    ensures
        r == xxh3_of(b@),
{
    xxhash_rust::xxh3::xxh3_64(b)
}

/// The partition of a record: the one given, else its key's hash spread over
/// the partitions, else the only one there is.
pub open spec fn partition_for(given: Option<u32>, hash: Option<u64>, partitions: u32) -> Option<
    u32,
> {
    match (given, hash) {
        (Some(p), _) => Some(p),
        (None, Some(h)) => Some((h % (partitions as u64)) as u32),
        (None, None) => if partitions == 1 {
            Some(0u32)
        } else {
            None
        },
    }
}

/// The partition of a record, given its key's hash.
pub fn choose_partition(given: Option<u32>, hash: Option<u64>, partitions: u32) -> (r: Option<u32>)
    requires
        partitions > 0,
    ensures
        r == partition_for(given, hash, partitions),
{
    match given {
        Some(p) => Some(p),
        None => match hash {
            Some(h) => Some((h % (partitions as u64)) as u32),
            None => if partitions == 1 {
                Some(0)
            } else {
                None
            },
        },
    }
}

/// A record that is being read, and the partition given so far.
pub struct PartV {
    pub record: RecordV,
    pub partition: Option<u32>,
}

/// The milliseconds of a timestamp, if it is not null.
pub open spec fn time_of(c: TimeCell) -> Option<i64> {
    match c {
        TimeCell::Null => None,
        TimeCell::Millis(v) => Some(v),
        TimeCell::Unit(v, unit) => Some(cells::millis_of(v as int, unit) as i64),
    }
}

/// The record after one more column, or what is wrong with that column.
pub open spec fn stream_step(
    acc: PartV,
    role: StreamRole,
    cells: ColumnCells,
    row: int,
    partitions: u32,
) -> Result<PartV, Seq<char>> {
    match (role, cells) {
        (StreamRole::Key, ColumnCells::Blobs(v)) => Ok(
            PartV { record: RecordV { key: rows::opt_bytes(v@[row]), ..acc.record }, ..acc },
        ),
        (StreamRole::Value, ColumnCells::Blobs(v)) => Ok(
            PartV { record: RecordV { value: rows::opt_bytes(v@[row]), ..acc.record }, ..acc },
        ),
        (StreamRole::Headers, ColumnCells::Headers(v)) => match rows::headers_of(v@[row]) {
            Err(m) => Err(m),
            Ok(headers) => Ok(PartV { record: RecordV { headers, ..acc.record }, ..acc }),
        },
        (StreamRole::Timestamp, ColumnCells::Times(v)) => match time_of(v@[row]) {
            None => Ok(acc),
            Some(timestamp_ms) => Ok(
                PartV { record: RecordV { timestamp_ms, ..acc.record }, ..acc },
            ),
        },
        (StreamRole::Partition, ColumnCells::Numbers(v)) => match v@[row] {
            None => Err("the partition is null"@),
            Some(p) => if 0 <= p < partitions {
                Ok(PartV { partition: Some(p as u32), ..acc })
            } else {
                Err(out_of_range(p as int, partitions))
            },
        },
        _ => Ok(acc),
    }
}

/// Whether a column's values are of the kind that its role reads, one for
/// every row.
pub open spec fn role_fits(role: StreamRole, cells: ColumnCells, rows: nat) -> bool {
    &&& match role {
        StreamRole::Key => cells is Blobs,
        StreamRole::Value => cells is Blobs,
        StreamRole::Headers => cells is Headers,
        StreamRole::Timestamp => cells is Times,
        StreamRole::Partition => cells is Numbers,
    }
    &&& shape::rows_of(cells) == rows
}

/// Whether a batch has the schema of its roles.
pub open spec fn batch_fits(roles: Seq<(Seq<char>, StreamRole)>, batch: RecordBatch) -> bool {
    roles.len() == batch.columns@.len() ==> forall|i: int|
        0 <= i < roles.len() ==> role_fits(
            (#[trigger] roles[i]).1,
            batch.columns@[i],
            batch.rows as nat,
        )
}

/// A record before its first column.
pub open spec fn empty_part(fixed_partition: Option<u32>) -> PartV {
    PartV {
        record: RecordV { key: None, value: None, headers: Seq::empty(), timestamp_ms: (-1) as i64 },
        partition: fixed_partition,
    }
}

/// The record of the first `k` columns, or the first of them that is wrong
/// and what is wrong with it.
pub open spec fn part_of(m: StreamMapV, columns: Seq<ColumnCells>, row: int, k: nat) -> Result<
    PartV,
    (Seq<char>, Seq<char>),
>
    decreases k,
{
    if k == 0 || k > m.roles.len() {
        Ok(empty_part(m.fixed_partition))
    } else {
        match part_of(m, columns, row, (k - 1) as nat) {
            Err(e) => Err(e),
            Ok(acc) => match stream_step(
                acc,
                m.roles[k - 1].1,
                columns[k - 1],
                row,
                m.partitions,
            ) {
                Err(message) => Err((m.roles[k - 1].0, message)),
                Ok(acc) => Ok(acc),
            },
        }
    }
}

proof fn part_stays_wrong(m: StreamMapV, columns: Seq<ColumnCells>, row: int, k: nat, n: nat)
    requires
        k <= n <= m.roles.len(),
        part_of(m, columns, row, k) is Err,
    ensures
        part_of(m, columns, row, n) == part_of(m, columns, row, k),
    decreases n - k,
{
    if k < n {
        part_stays_wrong(m, columns, row, k, (n - 1) as nat);
    }
}

/// The hash of a record's key, if it has one.
pub open spec fn key_hash(r: RecordV) -> Option<u64> {
    match r.key {
        Some(k) => Some(xxh3_of(k)),
        None => None,
    }
}

/// The partition and record of a row, or what is wrong with it.
pub open spec fn record_of(m: StreamMapV, columns: Seq<ColumnCells>, row: int) -> Result<
    (u32, RecordV),
    (Seq<char>, Seq<char>),
> {
    match part_of(m, columns, row, m.roles.len()) {
        Err(e) => Err(e),
        Ok(acc) => match partition_for(acc.partition, key_hash(acc.record), m.partitions) {
            Some(p) => Ok((p, acc.record)),
            None => Err(("key"@, "a null key needs a partition column"@)),
        },
    }
}

/// The records of the first `n` rows, or the first row that is wrong.
pub open spec fn records_of(m: StreamMapV, columns: Seq<ColumnCells>, n: nat) -> Result<
    Seq<(u32, RecordV)>,
    RowFault,
>
    decreases n,
{
    if n == 0 {
        Ok(Seq::empty())
    } else {
        match records_of(m, columns, (n - 1) as nat) {
            Err(e) => Err(e),
            Ok(out) => match record_of(m, columns, n - 1) {
                Err((column, message)) => Err(RowFault { row: (n - 1) as nat, column, message }),
                Ok(r) => Ok(out.push(r)),
            },
        }
    }
}

proof fn records_stay_wrong(m: StreamMapV, columns: Seq<ColumnCells>, n: nat, k: nat)
    requires
        n <= k,
        records_of(m, columns, n) is Err,
    ensures
        records_of(m, columns, k) == records_of(m, columns, n),
    decreases k - n,
{
    if n < k {
        records_stay_wrong(m, columns, n, (k - 1) as nat);
    }
}

/// The records of a batch, or the first row that is wrong.
pub open spec fn records(m: StreamMapV, batch: RecordBatch) -> Result<
    Seq<(u32, RecordV)>,
    RowFault,
> {
    if batch.columns@.len() != m.roles.len() {
        Err(shape::column_count_fault(batch.columns@.len(), m.roles.len()))
    } else {
        records_of(m, batch.columns@, batch.rows as nat)
    }
}

struct Part {
    record: Record,
    partition: Option<u32>,
}

spec fn part_view(p: Part) -> PartV {
    PartV { record: p.record@, partition: p.partition }
}

fn read_column(
    acc: Part,
    role: StreamRole,
    cells: &ColumnCells,
    row: usize,
    rows: usize,
    partitions: u32,
) -> (r: Result<Part, String>)
    requires
        role_fits(role, *cells, rows as nat),
        row < rows,
    ensures
        match r {
            Ok(a) => stream_step(part_view(acc), role, *cells, row as int, partitions) == Ok::<
                PartV,
                Seq<char>,
            >(part_view(a)),
            Err(m) => stream_step(part_view(acc), role, *cells, row as int, partitions) == Err::<
                PartV,
                Seq<char>,
            >(m@),
        },
{
    let mut acc = acc;
    match (role, cells) {
        (StreamRole::Key, ColumnCells::Blobs(v)) => {
            acc.record.key = rows::copy_bytes(&v[row]);
            Ok(acc)
        },
        (StreamRole::Value, ColumnCells::Blobs(v)) => {
            acc.record.value = rows::copy_bytes(&v[row]);
            Ok(acc)
        },
        (StreamRole::Headers, ColumnCells::Headers(v)) => match rows::headers_at(&v[row]) {
            Err(m) => Err(m),
            Ok(headers) => {
                acc.record.headers = headers;
                Ok(acc)
            },
        },
        (StreamRole::Timestamp, ColumnCells::Times(v)) => match v[row] {
            TimeCell::Null => Ok(acc),
            TimeCell::Millis(ms) => {
                acc.record.timestamp_ms = ms;
                Ok(acc)
            },
            TimeCell::Unit(n, unit) => {
                acc.record.timestamp_ms = cells::timestamp_ms(n, unit);
                Ok(acc)
            },
        },
        (StreamRole::Partition, ColumnCells::Numbers(v)) => match v[row] {
            None => Err("the partition is null".to_owned()),
            Some(p) => if p >= 0 && p < partitions as i64 {
                acc.partition = Some(p as u32);
                Ok(acc)
            } else {
                Err(range_message(p, partitions))
            },
        },
        _ => Ok(acc),
    }
}

impl StreamBatchMapper {
    /// The mapper of a schema's columns into a stream.
    pub fn new(fields: &Vec<Field>, fixed_partition: Option<u32>, partitions: u32) -> (r: Result<
        StreamBatchMapper,
        ServiceError,
    >)
        ensures
            match r {
                Ok(m) => stream_mapping(fields@, fixed_partition, partitions) == Ok::<
                    StreamMapV,
                    Failure,
                >(m@) && m@.partitions > 0,
                Err(e) => stream_mapping(fields@, fixed_partition, partitions) == Err::<
                    StreamMapV,
                    Failure,
                >(e@),
            },
    {
        let ghost names = shape::names(fields@);
        if let Err(e) = collection::unique_columns(fields) {
            proof {
                let i = choose|i: int|
                    #[trigger] shape::first_repeat(names, i) && e@ == Failure::InvalidArgument(
                        "duplicate column "@ + names[i],
                    );
                let j = choose|i: int| shape::first_repeat(names, i);
                collection::one_first_repeat(names, i, j);
            }
            return Err(e);
        }
        proof {
            assert forall|i: int| !shape::first_repeat(names, i) by {
                assert(!shape::repeats_at(names, i));
            }
        }
        let mut roles: Vec<(String, StreamRole)> = Vec::new();
        let mut with_partition = false;
        let mut i: usize = 0;
        assert(role_views(roles@) =~= Seq::empty());
        while i < fields.len()
            invariant
                i <= fields@.len(),
                stream_roles(fields@, i as nat) == Ok::<Seq<(Seq<char>, StreamRole)>, Failure>(
                    role_views(roles@),
                ),
                with_partition == has_partition(role_views(roles@)),
                names == shape::names(fields@),
                forall|i: int| !#[trigger] shape::first_repeat(names, i),
            decreases fields.len() - i,
        {
            match column_role(&fields[i]) {
                Err(e) => {
                    proof {
                        roles_stay_wrong(fields@, i as nat + 1, fields@.len());
                    }
                    return Err(e);
                },
                Ok(role) => {
                    let ghost was = role_views(roles@);
                    let ghost n = was.len() as int;
                    roles.push((fields[i].name.clone(), role));
                    let ghost now = role_views(roles@);
                    proof {
                        assert(now =~= was.push((fields@[i as int].name@, role)));
                        assert(now[n].1 == role);
                        if has_partition(was) {
                            let j = choose|j: int|
                                0 <= j < was.len() && (#[trigger] was[j]).1
                                    == StreamRole::Partition;
                            assert(now[j].1 == StreamRole::Partition);
                        }
                        if has_partition(now) && role != StreamRole::Partition {
                            let j = choose|j: int|
                                0 <= j < now.len() && (#[trigger] now[j]).1
                                    == StreamRole::Partition;
                            assert(was[j].1 == StreamRole::Partition);
                        }
                    }
                    if role == StreamRole::Partition {
                        with_partition = true;
                    }
                },
            }
            i += 1;
        }
        if let Some(p) = fixed_partition {
            if with_partition {
                return Err(
                    error::invalid(
                        "a partition column and a partition in the descriptor path cannot be combined".to_owned(),
                    ),
                );
            }
            if p >= partitions {
                return Err(error::invalid(range_message(p as i64, partitions)));
            }
        }
        Ok(
            StreamBatchMapper {
                roles,
                fixed_partition,
                partitions: if partitions == 0 {
                    1
                } else {
                    partitions
                },
            },
        )
    }

    /// One partition and record per row, in row order.
    pub fn map(&self, batch: &RecordBatch) -> (r: Result<Vec<(u32, Record)>, RowError>)
        requires
            self@.partitions > 0,
            batch_fits(self@.roles, *batch),
        ensures
            match r {
                Ok(out) => records(self@, *batch) == Ok::<Seq<(u32, RecordV)>, RowFault>(
                    record_views(out@),
                ),
                Err(e) => records(self@, *batch) == Err::<Seq<(u32, RecordV)>, RowFault>(e@),
            },
    {
        if batch.columns.len() != self.roles.len() {
            return Err(shape::column_count_error(batch.columns.len(), self.roles.len()));
        }
        let mut out: Vec<(u32, Record)> = Vec::new();
        let mut row: usize = 0;
        assert(record_views(out@) =~= Seq::empty());
        while row < batch.rows
            invariant
                row <= batch.rows,
                self@.partitions > 0,
                batch_fits(self@.roles, *batch),
                batch.columns@.len() == self@.roles.len(),
                records_of(self@, batch.columns@, row as nat) == Ok::<
                    Seq<(u32, RecordV)>,
                    RowFault,
                >(record_views(out@)),
            decreases batch.rows - row,
        {
            match self.map_row(batch, row) {
                Err(e) => {
                    proof {
                        records_stay_wrong(
                            self@,
                            batch.columns@,
                            row as nat + 1,
                            batch.rows as nat,
                        );
                    }
                    return Err(e);
                },
                Ok((p, record)) => {
                    let ghost was = out@;
                    let ghost v = record@;
                    out.push((p, record));
                    assert(record_views(out@) =~= record_views(was).push((p, v)));
                },
            }
            row += 1;
        }
        Ok(out)
    }

    fn map_row(&self, batch: &RecordBatch, row: usize) -> (r: Result<(u32, Record), RowError>)
        requires
            self@.partitions > 0,
            batch_fits(self@.roles, *batch),
            batch.columns@.len() == self@.roles.len(),
            row < batch.rows,
        ensures
            match r {
                Ok((p, record)) => record_of(self@, batch.columns@, row as int) == Ok::<
                    (u32, RecordV),
                    (Seq<char>, Seq<char>),
                >((p, record@)),
                Err(e) => e@.row == row && record_of(self@, batch.columns@, row as int) == Err::<
                    (u32, RecordV),
                    (Seq<char>, Seq<char>),
                >((e@.column, e@.message)),
            },
    {
        let mut acc = Part {
            record: Record { key: None, value: None, headers: Vec::new(), timestamp_ms: -1 },
            partition: self.fixed_partition,
        };
        assert(part_view(acc).record.headers =~= Seq::empty());
        let mut k: usize = 0;
        while k < self.roles.len()
            invariant
                k <= self.roles@.len(),
                self@.roles == role_views(self.roles@),
                self@.partitions == self.partitions,
                batch_fits(self@.roles, *batch),
                batch.columns@.len() == self@.roles.len(),
                row < batch.rows,
                part_of(self@, batch.columns@, row as int, k as nat) == Ok::<
                    PartV,
                    (Seq<char>, Seq<char>),
                >(part_view(acc)),
            decreases self.roles.len() - k,
        {
            assert(self@.roles[k as int] == (self.roles@[k as int].0@, self.roles@[k as int].1));
            match read_column(
                acc,
                self.roles[k].1,
                &batch.columns[k],
                row,
                batch.rows,
                self.partitions,
            ) {
                Err(message) => {
                    proof {
                        part_stays_wrong(
                            self@,
                            batch.columns@,
                            row as int,
                            k as nat + 1,
                            self@.roles.len(),
                        );
                    }
                    return Err(RowError { row, column: self.roles[k].0.clone(), message });
                },
                Ok(next) => {
                    acc = next;
                },
            }
            k += 1;
        }
        let hash: Option<u64> = match &acc.record.key {
            Some(key) => Some(hash_of(key)),
            None => None,
        };
        match choose_partition(acc.partition, hash, self.partitions) {
            Some(p) => Ok((p, acc.record)),
            None => Err(
                RowError {
                    row,
                    column: "key".to_owned(),
                    message: "a null key needs a partition column".to_owned(),
                },
            ),
        }
    }
}

/// A record's partition is one of the stream's, whatever its row holds.
pub proof fn partitions_are_in_range(m: StreamMapV, columns: Seq<ColumnCells>, row: int)
    requires
        m.partitions > 0,
        m.fixed_partition matches Some(p) ==> p < m.partitions,
    ensures
        record_of(m, columns, row) matches Ok(r) ==> r.0 < m.partitions,
{
    given_partition_in_range(m, columns, row, m.roles.len());
}

proof fn given_partition_in_range(m: StreamMapV, columns: Seq<ColumnCells>, row: int, k: nat)
    requires
        m.partitions > 0,
        m.fixed_partition matches Some(p) ==> p < m.partitions,
    ensures
        part_of(m, columns, row, k) matches Ok(acc) ==> (acc.partition matches Some(p) ==> p
            < m.partitions),
    decreases k,
{
    if k > 0 && k <= m.roles.len() {
        given_partition_in_range(m, columns, row, (k - 1) as nat);
    }
}

} // verus!
