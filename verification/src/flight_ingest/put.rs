//! The steps of a put: its messages, its batches in chunks, what it answers,
//! and what its failures say.

use crate::error;
use crate::error::{Failure, ServiceError};
use crate::flight;
use crate::flight::{CallStatus, StatusCode};
use crate::flight_ingest::shape::{RowError, RowFault};
use crate::flight_ingest::stream;
use crate::flight_ingest::stream::{Record, RecordV};
use crate::text;
use vstd::prelude::*;
use vstd::string::*;

verus! {

/// The offsets that a batch appended to one partition.
#[derive(Clone, Copy, Debug, PartialEq, Eq, Structural)]
pub struct PartitionOffsets {
    pub partition: u32,
    pub base_offset: u64,
    pub last_offset: u64,
}

/// The answer to one batch of a put by path.
#[derive(Debug)]
pub struct PutAck {
    /// The number of the batch.
    pub batch: u64,
    /// Its rows.
    pub rows: u64,
    /// Every token acknowledged so far in the put, merged, in text.
    pub token: String,
    /// Streams only: the offsets that the batch appended, by partition.
    pub offsets: Vec<PartitionOffsets>,
}

/// The rows of a chunk: as asked for, at least one and at most `most`.
pub open spec fn chunk_size(chunk_rows: nat, most: nat) -> nat {
    if chunk_rows < 1 {
        1
    } else if chunk_rows > most {
        most
    } else {
        chunk_rows
    }
}

/// The chunks of the rows from `start` on: consecutive ranges of `n` rows,
/// the last perhaps shorter.
pub open spec fn chunks_from(start: nat, rows: nat, n: nat) -> Seq<(nat, nat)>
    decreases rows - start,
{
    if start >= rows || n == 0 {
        Seq::empty()
    } else {
        let end = if rows - start <= n {
            rows
        } else {
            start + n
        };
        seq![(start, end)] + chunks_from(end, rows, n)
    }
}

/// What some ranges are.
pub open spec fn range_views(s: Seq<(usize, usize)>) -> Seq<(nat, nat)> {
    Seq::new(s.len(), |i: int| (s[i].0 as nat, s[i].1 as nat))
}

fn size_of_chunk(chunk_rows: usize, max_write_ops: usize) -> (r: usize)
    requires
        max_write_ops >= 1,
    ensures
        r == chunk_size(chunk_rows as nat, max_write_ops as nat),
        1 <= r <= max_write_ops,
{
    if chunk_rows < 1 {
        1
    } else if chunk_rows > max_write_ops {
        max_write_ops
    } else {
        chunk_rows
    }
}

/// The end of the chunk at `start`.
fn chunk_end(start: usize, rows: usize, n: usize) -> (r: usize)
    requires
        start < rows,
        n >= 1,
    ensures
        r == (if rows - start <= n {
            rows as int
        } else {
            start + n
        }),
        start < r <= rows,
{
    if rows - start <= n {
        rows
    } else {
        start + n
    }
}

/// The chunks of a batch of `rows` rows: consecutive ranges, in row order.
pub fn chunk_ranges(rows: usize, chunk_rows: usize, max_write_ops: usize) -> (r: Vec<
    (usize, usize),
>)
    requires
        max_write_ops >= 1,
    ensures
        range_views(r@) == chunks_from(
            0,
            rows as nat,
            chunk_size(chunk_rows as nat, max_write_ops as nat),
        ),
{
    let n: usize = size_of_chunk(chunk_rows, max_write_ops);
    let mut out: Vec<(usize, usize)> = Vec::new();
    let mut start: usize = 0;
    let ghost all = chunks_from(0, rows as nat, n as nat);
    proof {
        assert(range_views(out@) + all =~= all);
    }
    while start < rows
        invariant
            start <= rows,
            n >= 1,
            all == chunks_from(0, rows as nat, n as nat),
            range_views(out@) + chunks_from(start as nat, rows as nat, n as nat) == all,
        decreases rows - start,
    {
        let end: usize = chunk_end(start, rows, n);
        let ghost was = range_views(out@);
        out.push((start, end));
        proof {
            let rest = chunks_from(end as nat, rows as nat, n as nat);
            assert(range_views(out@) =~= was.push((start as nat, end as nat)));
            assert(was.push((start as nat, end as nat)) + rest =~= was + (seq![
                (start as nat, end as nat),
            ] + rest));
        }
        start = end;
    }
    proof {
        assert(range_views(out@) + Seq::<(nat, nat)>::empty() =~= range_views(out@));
    }
    out
}

/// The chunks of a batch cover its rows once and in order: the first begins
/// at the first row, each begins where the one before it ends, none is empty
/// or longer than a chunk may be, and the last ends with the batch.
pub proof fn chunks_cover(start: nat, rows: nat, n: nat)
    requires
        start < rows,
        n >= 1,
    ensures
        ({
            let c = chunks_from(start, rows, n);
            &&& c.len() > 0
            &&& c[0].0 == start
            &&& c.last().1 == rows
            &&& forall|i: int| 0 <= i < c.len() ==> c[i].0 < (#[trigger] c[i]).1 <= c[i].0 + n
            &&& forall|i: int| 0 < i < c.len() ==> (#[trigger] c[i]).0 == c[i - 1].1
        }),
    decreases rows - start,
{
    let c = chunks_from(start, rows, n);
    let end = c[0].1;
    let rest = chunks_from(end, rows, n);
    assert(c =~= seq![(start, end)] + rest);
    if end < rows {
        chunks_cover(end, rows, n);
        assert forall|i: int| 0 <= i < c.len() implies c[i].0 < (#[trigger] c[i]).1 <= c[i].0
            + n by {
            if i > 0 {
                assert(c[i] == rest[i - 1]);
            }
        }
        assert forall|i: int| 0 < i < c.len() implies (#[trigger] c[i]).0 == c[i - 1].1 by {
            assert(c[i] == rest[i - 1]);
            if i > 1 {
                assert(c[i - 1] == rest[i - 2]);
            }
        }
        assert(c.last() == rest.last());
    }
}

/// Why a put stopped: a service error, or a status of the incoming messages.
#[derive(Debug)]
pub enum PutError {
    Service(ServiceError),
    Status(CallStatus),
}

/// The code and the message of a put's error.
pub open spec fn put_status(e: PutError) -> (StatusCode, Seq<char>) {
    match e {
        PutError::Service(err) => (flight::status_code(err@), error::message_of(err@)),
        PutError::Status(s) => (s.code, s.message@),
    }
}

impl PutError {
    /// The status, which tells how many rows were written if any were.
    pub fn into_status(self, written: u64) -> (r: CallStatus)
        ensures
            r.code == put_status(self).0,
            r.message@ == (if written == 0 {
                put_status(self).1
            } else {
                put_status(self).1 + " ("@ + text::decimal(written as nat)
                    + " rows were written before the failure)"@
            }),
    {
        let status = match self {
            PutError::Service(err) => flight::status_of(&err),
            PutError::Status(status) => status,
        };
        if written == 0 {
            return status;
        }
        let mut message = text::cat3(&status.message, " (", &text::dec(written));
        message.append(" rows were written before the failure)");
        CallStatus { code: status.code, message }
    }
}

/// Whether an error is the one of a put that the server's shutdown stopped.
pub open spec fn is_shutdown(e: PutError) -> bool {
    e matches PutError::Status(s) && s.code == StatusCode::Unavailable && s.message@
        == "the server is shutting down"@
}

fn shutting_down() -> (r: PutError)
    ensures
        is_shutdown(r),
{
    PutError::Status(
        CallStatus {
            code: StatusCode::Unavailable,
            message: "the server is shutting down".to_owned(),
        },
    )
}

/// The error of a row that cannot be mapped.
pub open spec fn row_failure(batch: nat, f: RowFault) -> Failure {
    Failure::InvalidArgument(
        "batch "@ + text::decimal(batch) + " row "@ + text::decimal(f.row) + " column "@ + f.column
            + ": "@ + f.message,
    )
}

/// The error of a row that cannot be mapped.
pub fn row_error(batch: u64, err: &RowError) -> (r: ServiceError)
    ensures
        r@ == row_failure(batch as nat, err@),
{
    let mut m = text::cat3("batch ", &text::dec(batch), " row ");
    m.append(&text::dec(err.row as u64));
    m.append(" column ");
    m.append(&err.column);
    m.append(": ");
    m.append(&err.message);
    error::invalid(m)
}

/// The number and the rest of a message `op {number}: {rest}`.
pub open spec fn op_in(message: Seq<char>) -> Option<(nat, Seq<char>)> {
    match text::without_prefix(message, "op "@) {
        None => None,
        Some(rest) => match text::cut_first(rest, ": "@) {
            None => None,
            Some((index, tail)) => match text::number_in(index, usize::MAX as nat) {
                Some(n) => Some((n, tail)),
                None => None,
            },
        },
    }
}

/// A message about one operation of a chunk as one about a row of its batch,
/// or about the batch where it names no operation.
pub open spec fn op_message(message: Seq<char>, batch: nat, base: nat) -> Seq<char> {
    match op_in(message) {
        Some((i, tail)) => "batch "@ + text::decimal(batch) + " row "@ + text::decimal(base + i)
            + ": "@ + tail,
        None => "batch "@ + text::decimal(batch) + ": "@ + message,
    }
}

/// The error of a refused chunk that begins at a row.
pub open spec fn op_failure(f: Failure, batch: nat, base: nat) -> Failure {
    match f {
        Failure::InvalidArgument(m) => Failure::InvalidArgument(op_message(m, batch, base)),
        Failure::SchemaViolation { field, message } => Failure::SchemaViolation {
            field,
            message: op_message(message, batch, base),
        },
        other => other,
    }
}

/// Whether the row that an error's operation names can be counted.
pub open spec fn op_countable(f: Failure, base: nat) -> bool {
    match f {
        Failure::InvalidArgument(m) => op_in(m) matches Some(p) ==> base + p.0 <= usize::MAX,
        Failure::SchemaViolation { message, .. } => op_in(message) matches Some(p) ==> base + p.0
            <= usize::MAX,
        _ => true,
    }
}

fn rewrite_op_message(message: &str, batch: u64, base: usize) -> (r: String)
    requires
        op_in(message@) matches Some(p) ==> base + p.0 <= usize::MAX,
    ensures
        r@ == op_message(message@, batch as nat, base as nat),
{
    if let Some(rest) = text::strip_prefix(message, "op ") {
        if let Some((index, tail)) = text::split_first(rest, ": ") {
            if let Some(i) = text::parse_number(index, usize::MAX as u64) {
                let mut m = text::cat3("batch ", &text::dec(batch), " row ");
                m.append(&text::dec(base as u64 + i));
                m.append(": ");
                m.append(tail);
                return m;
            }
        }
    }
    let mut m = text::cat3("batch ", &text::dec(batch), ": ");
    m.append(message);
    m
}

/// A refused chunk's error, told of rows of its batch.
pub fn rewrite_op(err: ServiceError, batch: u64, base: usize) -> (r: ServiceError)
    requires
        op_countable(err@, base as nat),
    ensures
        r@ == op_failure(err@, batch as nat, base as nat),
{
    match err {
        ServiceError::InvalidArgument(m) => ServiceError::InvalidArgument(
            rewrite_op_message(&m, batch, base),
        ),
        ServiceError::SchemaViolation { field, message } => ServiceError::SchemaViolation {
            field,
            message: rewrite_op_message(&message, batch, base),
        },
        other => other,
    }
}

/// The rows of a chunk's partition, from the `i`-th on.
pub open spec fn rows_of_partition(rows: Seq<(u32, Vec<usize>)>, partition: nat, i: int) -> Option<
    Seq<usize>,
>
    decreases rows.len() - i,
{
    if i < 0 || i >= rows.len() {
        None
    } else if rows[i].0 == partition {
        Some(rows[i].1@)
    } else {
        rows_of_partition(rows, partition, i + 1)
    }
}

/// The row that a message `record {number}: ... partition {partition}`
/// names, and what stands after the number.
pub open spec fn record_in(message: Seq<char>, rows: Seq<(u32, Vec<usize>)>) -> Option<
    (usize, Seq<char>),
> {
    match text::without_prefix(message, "record "@) {
        None => None,
        Some(rest) => match text::cut_first(rest, ": "@) {
            None => None,
            Some((index, tail)) => match text::cut_last(tail, "partition "@) {
                None => None,
                Some((_, p)) => match (
                    text::number_in(p, u32::MAX as nat),
                    text::number_in(index, usize::MAX as nat),
                ) {
                    (Some(p), Some(i)) => match rows_of_partition(rows, p, 0) {
                        Some(places) => if i < places.len() {
                            Some((places[i as int], tail))
                        } else {
                            None
                        },
                        None => None,
                    },
                    _ => None,
                },
            },
        },
    }
}

/// A message about one record of a partition as one about a row of its
/// batch, or about the batch where it names no record.
pub open spec fn record_message(
    message: Seq<char>,
    batch: nat,
    rows: Seq<(u32, Vec<usize>)>,
) -> Seq<char> {
    match record_in(message, rows) {
        Some((row, tail)) => "batch "@ + text::decimal(batch) + " row "@ + text::decimal(row as nat)
            + ": "@ + tail,
        None => "batch "@ + text::decimal(batch) + ": "@ + message,
    }
}

fn partition_rows<'a>(rows: &'a Vec<(u32, Vec<usize>)>, partition: u64) -> (r: Option<
    &'a Vec<usize>,
>)
    ensures
        match r {
            Some(v) => rows_of_partition(rows@, partition as nat, 0) == Some(v@),
            None => rows_of_partition(rows@, partition as nat, 0) is None,
        },
{
    let mut i: usize = 0;
    while i < rows.len()
        invariant
            i <= rows@.len(),
            rows_of_partition(rows@, partition as nat, 0) == rows_of_partition(
                rows@,
                partition as nat,
                i as int,
            ),
        decreases rows.len() - i,
    {
        if rows[i].0 as u64 == partition {
            return Some(&rows[i].1);
        }
        i += 1;
    }
    None
}

fn named_record<'a>(message: &'a str, rows: &Vec<(u32, Vec<usize>)>) -> (r: Option<
    (usize, &'a str),
>)
    ensures
        match r {
            Some((row, tail)) => record_in(message@, rows@) == Some((row, tail@)),
            None => record_in(message@, rows@) is None,
        },
{
    let rest = match text::strip_prefix(message, "record ") {
        Some(rest) => rest,
        None => {
            return None;
        },
    };
    let (index, tail) = match text::split_first(rest, ": ") {
        Some(sides) => sides,
        None => {
            return None;
        },
    };
    let p = match text::split_last(tail, "partition ") {
        Some((_, p)) => p,
        None => {
            return None;
        },
    };
    match (
        text::parse_number(p, u32::MAX as u64),
        text::parse_number(index, usize::MAX as u64),
    ) {
        (Some(p), Some(i)) => match partition_rows(rows, p) {
            Some(places) => if i < places.len() as u64 {
                Some((places[i as usize], tail))
            } else {
                None
            },
            None => None,
        },
        _ => None,
    }
}

/// A refused chunk's error of a stream, told of rows of its batch through
/// the rows of each partition.
pub fn rewrite_record(err: ServiceError, batch: u64, rows: &Vec<(u32, Vec<usize>)>) -> (r:
    ServiceError)
    ensures
        r@ == (match err@ {
            Failure::InvalidArgument(m) => Failure::InvalidArgument(
                record_message(m, batch as nat, rows@),
            ),
            other => other,
        }),
{
    match err {
        ServiceError::InvalidArgument(message) => {
            let mut m = text::cat2("batch ", &text::dec(batch));
            match named_record(&message, rows) {
                Some((row, tail)) => {
                    m.append(" row ");
                    m.append(&text::dec(row as u64));
                    m.append(": ");
                    m.append(tail);
                },
                None => {
                    m.append(": ");
                    m.append(&message);
                },
            }
            ServiceError::InvalidArgument(m)
        },
        other => other,
    }
}

/// An error that names the operation it is about.
pub open spec fn named_op(f: Failure, i: nat) -> Failure {
    match f {
        Failure::InvalidArgument(m) => Failure::InvalidArgument(
            "op "@ + text::decimal(i) + ": "@ + m,
        ),
        Failure::SchemaViolation { field, message } => Failure::SchemaViolation {
            field,
            message: "op "@ + text::decimal(i) + ": "@ + message,
        },
        other => other,
    }
}

fn name_op(err: &ServiceError, i: usize) -> (r: ServiceError)
    ensures
        r@ == named_op(err@, i as nat),
{
    match err {
        ServiceError::InvalidArgument(m) => {
            let mut t = text::cat3("op ", &text::dec(i as u64), ": ");
            t.append(m);
            ServiceError::InvalidArgument(t)
        },
        ServiceError::SchemaViolation { field, message } => {
            let mut t = text::cat3("op ", &text::dec(i as u64), ": ");
            t.append(message);
            ServiceError::SchemaViolation { field: field.clone(), message: t }
        },
        _ => err.copy(),
    }
}

/// The first rejected operation, from the `i`-th on.
pub open spec fn first_rejected(results: Seq<Option<ServiceError>>, i: int) -> Option<int>
    decreases results.len() - i,
{
    if i < 0 || i >= results.len() {
        None
    } else if results[i] is Some {
        Some(i)
    } else {
        first_rejected(results, i + 1)
    }
}

fn find_rejected(results: &Vec<Option<ServiceError>>) -> (r: Option<usize>)
    ensures
        match r {
            Some(i) => i < results@.len() && results@[i as int] is Some && first_rejected(
                results@,
                0,
            ) == Some(i as int),
            None => first_rejected(results@, 0) is None,
        },
{
    let mut i: usize = 0;
    while i < results.len()
        invariant
            i <= results@.len(),
            first_rejected(results@, 0) == first_rejected(results@, i as int),
        decreases results.len() - i,
    {
        if results[i].is_some() {
            return Some(i);
        }
        i += 1;
    }
    None
}

/// An error that names an operation tells of that operation's row.
pub proof fn named_ops_name_rows(f: Failure, i: nat, batch: nat, base: nat)
    requires
        i <= usize::MAX,
    ensures
        op_failure(named_op(f, i), batch, base) == (match f {
            Failure::InvalidArgument(m) => Failure::InvalidArgument(
                "batch "@ + text::decimal(batch) + " row "@ + text::decimal(base + i) + ": "@ + m,
            ),
            Failure::SchemaViolation { field, message } => Failure::SchemaViolation {
                field,
                message: "batch "@ + text::decimal(batch) + " row "@ + text::decimal(base + i)
                    + ": "@ + message,
            },
            other => other,
        }),
{
    match f {
        Failure::InvalidArgument(m) => {
            op_reads_back(m, i);
        },
        Failure::SchemaViolation { message, .. } => {
            op_reads_back(message, i);
        },
        _ => {},
    }
}

proof fn op_reads_back(m: Seq<char>, i: nat)
    requires
        i <= usize::MAX,
    ensures
        op_in("op "@ + text::decimal(i) + ": "@ + m) == Some((i, m)),
{
    let d = text::decimal(i);
    let s = "op "@ + d + ": "@ + m;
    let rest = d + ": "@ + m;
    reveal_strlit("op ");
    reveal_strlit(": ");
    assert(s =~= "op "@ + rest);
    text::prefix_of_sum("op "@, rest);
    assert(s.skip("op "@.len() as int) =~= rest);
    text::decimal_is_canonical(i);
    assert forall|j: int| 0 <= j < d.len() implies !#[trigger] text::occurs(rest, ": "@, j) by {
        assert(rest.subrange(j, j + 2)[0] == d[j]);
        assert(text::is_digit(d[j]));
    }
    assert(rest.subrange(d.len() as int, d.len() as int + 2) =~= ": "@);
    assert(text::occurs(rest, ": "@, d.len() as int));
    first_place_is(rest, ": "@, 0, d.len() as int);
    assert(rest.take(d.len() as int) =~= d);
    assert(rest.skip(d.len() as int + 2) =~= m);
    assert(text::unsigned_digits(d) == d);
}

proof fn first_place_is(s: Seq<char>, p: Seq<char>, i: int, at: int)
    requires
        0 <= i <= at,
        text::occurs(s, p, at),
        forall|j: int| i <= j < at ==> !#[trigger] text::occurs(s, p, j),
    ensures
        text::first_place(s, p, i) == Some(at),
    decreases at - i,
{
    if i < at {
        first_place_is(s, p, i + 1, at);
    }
}

/// What a put receives while it waits for a message.
#[derive(Debug)]
pub enum Received {
    /// The server shuts down.
    Stopped,
    Ended,
    /// The messages end with a status.
    Refused(CallStatus),
    /// A message cannot be decoded.
    Broken(String),
    Nothing,
    Schema,
    Batch,
}

/// What a put does next.
#[derive(Clone, Copy, Debug, PartialEq, Eq, Structural)]
pub enum PutNext {
    Read,
    MakeMapper,
    MapBatch,
    Finish,
}

/// What a put does with a chunk.
#[derive(Clone, Copy, Debug, PartialEq, Eq, Structural)]
pub enum ChunkStep {
    /// The listener left: stop, with what is written.
    Leave,
    /// Write the rows of this range.
    Write { start: usize, end: usize },
    /// Every chunk is written.
    Done,
}

/// One put: whether its schema is known, the batches and rows so far, and
/// the batch that is being written.
#[derive(Debug)]
pub struct Put {
    pub chunk_rows: usize,
    pub ready: bool,
    pub batch_no: u64,
    pub written: u64,
    pub rows: usize,
    pub done: usize,
}

/// What a message leads to: the next step, or the error.
pub open spec fn message_step(ready: bool, r: Received, next: Result<PutNext, PutError>) -> bool {
    match r {
        Received::Stopped => next matches Err(e) && is_shutdown(e),
        Received::Ended => next == Ok::<PutNext, PutError>(PutNext::Finish),
        Received::Refused(s) => next matches Err(PutError::Status(t)) && t == s,
        Received::Broken(m) => next matches Err(PutError::Service(e)) && e@
            == Failure::InvalidArgument("DoPut: "@ + m@),
        Received::Nothing => next == Ok::<PutNext, PutError>(PutNext::Read),
        Received::Schema => if ready {
            next matches Err(PutError::Service(e)) && e@ == Failure::InvalidArgument(
                "DoPut: a second schema message"@,
            )
        } else {
            next == Ok::<PutNext, PutError>(PutNext::MakeMapper)
        },
        Received::Batch => if ready {
            next == Ok::<PutNext, PutError>(PutNext::MapBatch)
        } else {
            next matches Err(PutError::Service(e)) && e@ == Failure::InvalidArgument(
                "DoPut: a record batch before the schema"@,
            )
        },
    }
}

impl Put {
    /// A put that has read nothing.
    pub fn new(chunk_rows: usize) -> (r: Put)
        ensures
            r == (Put { chunk_rows, ready: false, batch_no: 0, written: 0, rows: 0, done: 0 }),
    {
        Put { chunk_rows, ready: false, batch_no: 0, written: 0, rows: 0, done: 0 }
    }

    /// What the put does with what it received.
    pub fn on_message(&self, received: Received) -> (r: Result<PutNext, PutError>)
        ensures
            message_step(self.ready, received, r),
    {
        match received {
            Received::Stopped => Err(shutting_down()),
            Received::Ended => Ok(PutNext::Finish),
            Received::Refused(status) => Err(PutError::Status(status)),
            Received::Broken(m) => Err(
                PutError::Service(error::invalid(text::cat2("DoPut: ", &m))),
            ),
            Received::Nothing => Ok(PutNext::Read),
            Received::Schema => if self.ready {
                Err(
                    PutError::Service(error::invalid("DoPut: a second schema message".to_owned())),
                )
            } else {
                Ok(PutNext::MakeMapper)
            },
            Received::Batch => if self.ready {
                Ok(PutNext::MapBatch)
            } else {
                Err(
                    PutError::Service(
                        error::invalid("DoPut: a record batch before the schema".to_owned()),
                    ),
                )
            },
        }
    }

    /// The schema is known from now on.
    pub fn mapper_made(&mut self)
        ensures
            *final(self) == (Put { ready: true, ..*old(self) }),
    {
        self.ready = true;
    }

    /// Begins to write a batch of `rows` mapped rows.
    pub fn begin_batch(&mut self, rows: usize)
        ensures
            *final(self) == (Put { rows, done: 0, ..*old(self) }),
    {
        self.rows = rows;
        self.done = 0;
    }

    /// The chunks of the batch that are still to be written.
    pub open spec fn remaining(&self, max_write_ops: usize) -> Seq<(nat, nat)> {
        chunks_from(
            self.done as nat,
            self.rows as nat,
            chunk_size(self.chunk_rows as nat, max_write_ops as nat),
        )
    }

    /// What to do before the next chunk, given whether someone still listens
    /// for answers and whether the server shuts down.
    pub fn next_chunk(&self, listening: bool, stopping: bool, max_write_ops: usize) -> (r: Result<
        ChunkStep,
        PutError,
    >)
        requires
            max_write_ops >= 1,
        ensures
            match r {
                Err(e) => is_shutdown(e) && stopping && listening && self.remaining(
                    max_write_ops,
                ).len() > 0,
                Ok(ChunkStep::Done) => self.remaining(max_write_ops).len() == 0,
                Ok(ChunkStep::Leave) => !listening && self.remaining(max_write_ops).len() > 0,
                Ok(ChunkStep::Write { start, end }) => listening && !stopping && self.remaining(
                    max_write_ops,
                ).len() > 0 && self.remaining(max_write_ops)[0] == (start as nat, end as nat)
                    && self.done == start < end <= self.rows,
            },
    {
        let n: usize = size_of_chunk(self.chunk_rows, max_write_ops);
        if self.done >= self.rows {
            return Ok(ChunkStep::Done);
        }
        if !listening {
            return Ok(ChunkStep::Leave);
        }
        if stopping {
            return Err(shutting_down());
        }
        Ok(ChunkStep::Write { start: self.done, end: chunk_end(self.done, self.rows, n) })
    }

    /// Takes in the outcome of writing the chunk up to `end` to a
    /// collection: an error, or which operations were rejected. The rows
    /// count as written only where none was.
    pub fn chunk_written(
        &mut self,
        end: usize,
        outcome: Result<Vec<Option<ServiceError>>, ServiceError>,
    ) -> (r: Result<(), PutError>)
        requires
            old(self).done <= end <= old(self).rows,
            old(self).written + (end - old(self).done) <= u64::MAX,
            outcome matches Err(e) ==> op_countable(e@, old(self).done as nat),
            outcome matches Ok(results) ==> results@.len() <= end - old(self).done,
        ensures
            match outcome {
                Err(e) => (r matches Err(PutError::Service(f)) && f@ == op_failure(
                    e@,
                    old(self).batch_no as nat,
                    old(self).done as nat,
                )) && *final(self) == *old(self),
                Ok(results) => match first_rejected(results@, 0) {
                    Some(i) => (r matches Err(PutError::Service(f)) && f@ == op_failure(
                        named_op(results@[i]->0@, i as nat),
                        old(self).batch_no as nat,
                        old(self).done as nat,
                    )) && *final(self) == *old(self),
                    None => r is Ok && *final(self) == (Put {
                        written: (old(self).written + (end - old(self).done)) as u64,
                        done: end,
                        ..*old(self)
                    }),
                },
            },
    {
        match outcome {
            Err(e) => Err(PutError::Service(rewrite_op(e, self.batch_no, self.done))),
            Ok(results) => {
                if let Some(i) = find_rejected(&results) {
                    if let Some(e) = &results[i] {
                        let told = name_op(e, i);
                        proof {
                            match e@ {
                                Failure::InvalidArgument(m) => {
                                    op_reads_back(m, i as nat);
                                },
                                Failure::SchemaViolation { message, .. } => {
                                    op_reads_back(message, i as nat);
                                },
                                _ => {},
                            }
                        }
                        return Err(
                            PutError::Service(rewrite_op(told, self.batch_no, self.done)),
                        );
                    }
                }
                self.written = self.written + (end - self.done) as u64;
                self.done = end;
                Ok(())
            },
        }
    }

    /// Counts the rows of a chunk that was written to a stream.
    pub fn chunk_produced(&mut self, end: usize)
        requires
            old(self).done <= end <= old(self).rows,
            old(self).written + (end - old(self).done) <= u64::MAX,
        ensures
            *final(self) == (Put {
                written: (old(self).written + (end - old(self).done)) as u64,
                done: end,
                ..*old(self)
            }),
    {
        self.written = self.written + (end - self.done) as u64;
        self.done = end;
    }

    /// The answer to the batch, with every token so far in text.
    pub fn answer(&self, token: String, offsets: Vec<PartitionOffsets>) -> (r: PutAck)
        ensures
            r.batch == self.batch_no,
            r.rows == self.rows,
            r.token == token,
            r.offsets == offsets,
    {
        PutAck { batch: self.batch_no, rows: self.rows as u64, token, offsets }
    }

    /// Goes on to the next batch, or stops where the listener left.
    pub fn answered(&mut self, listening: bool) -> (r: PutNext)
        requires
            old(self).batch_no < u64::MAX,
        ensures
            if listening {
                r == PutNext::Read && *final(self) == (Put {
                    batch_no: (old(self).batch_no + 1) as u64,
                    ..*old(self)
                })
            } else {
                r == PutNext::Finish && *final(self) == *old(self)
            },
    {
        if listening {
            self.batch_no = self.batch_no + 1;
            PutNext::Read
        } else {
            PutNext::Finish
        }
    }
}

/// Writing a chunk leaves the chunks after it.
pub proof fn chunks_go_on(p: Put, q: Put, end: usize, max_write_ops: usize)
    requires
        max_write_ops >= 1,
        p.remaining(max_write_ops).len() > 0,
        p.remaining(max_write_ops)[0].1 == end,
        q.chunk_rows == p.chunk_rows,
        q.rows == p.rows,
        q.done == end,
    ensures
        q.remaining(max_write_ops) == p.remaining(max_write_ops).skip(1),
{
    let n = chunk_size(p.chunk_rows as nat, max_write_ops as nat);
    let rest = chunks_from(end as nat, p.rows as nat, n);
    assert(p.remaining(max_write_ops) =~= seq![(p.done as nat, end as nat)] + rest);
    assert(p.remaining(max_write_ops).skip(1) =~= rest);
}

/// The records of a chunk for one partition, and their rows in the batch.
#[derive(Debug)]
pub struct Group {
    pub partition: u32,
    pub records: Vec<Record>,
    pub rows: Vec<usize>,
}

/// What a group is.
pub struct GroupV {
    pub partition: u32,
    pub records: Seq<RecordV>,
    pub rows: Seq<usize>,
}

/// What some records are.
pub open spec fn bare_records(s: Seq<Record>) -> Seq<RecordV> {
    Seq::new(s.len(), |i: int| s[i]@)
}

impl View for Group {
    type V = GroupV;

    open spec fn view(&self) -> GroupV {
        GroupV {
            partition: self.partition,
            records: bare_records(self.records@),
            rows: self.rows@,
        }
    }
}

/// What some groups are.
pub open spec fn group_views(s: Seq<Group>) -> Seq<GroupV> {
    Seq::new(s.len(), |i: int| s[i]@)
}

/// The groups with one more record, from the `j`-th group on.
pub open spec fn grouped_with(
    gs: Seq<GroupV>,
    partition: u32,
    record: RecordV,
    row: usize,
    j: int,
) -> Seq<GroupV>
    decreases gs.len() - j,
{
    let one = GroupV { partition, records: seq![record], rows: seq![row] };
    if j < 0 || j >= gs.len() {
        gs.push(one)
    } else if gs[j].partition == partition {
        gs.update(
            j,
            GroupV {
                partition,
                records: gs[j].records.push(record),
                rows: gs[j].rows.push(row),
            },
        )
    } else if gs[j].partition > partition {
        gs.insert(j, one)
    } else {
        grouped_with(gs, partition, record, row, j + 1)
    }
}

/// The groups of the first `n` records of a chunk that begins at a row.
pub open spec fn grouped(rows: Seq<(u32, RecordV)>, start: nat, n: nat) -> Seq<GroupV>
    decreases n,
{
    if n == 0 || n > rows.len() {
        Seq::empty()
    } else {
        grouped_with(
            grouped(rows, start, (n - 1) as nat),
            rows[n - 1].0,
            rows[n - 1].1,
            (start + n - 1) as usize,
            0,
        )
    }
}

/// Adds a record to its group.
fn add_to_group(gs: &mut Vec<Group>, partition: u32, record: Record, row: usize)
    ensures
        group_views(final(gs)@) == grouped_with(
            group_views(old(gs)@),
            partition,
            record@,
            row,
            0,
        ),
{
    let ghost was = group_views(gs@);
    let ghost one = GroupV { partition, records: seq![record@], rows: seq![row] };
    let mut j: usize = 0;
    while j < gs.len() && gs[j].partition < partition
        invariant
            j <= gs@.len(),
            gs@ == old(gs)@,
            was == group_views(gs@),
            grouped_with(was, partition, record@, row, 0) == grouped_with(
                was,
                partition,
                record@,
                row,
                j as int,
            ),
        decreases gs.len() - j,
    {
        assert(was[j as int].partition == gs@[j as int].partition);
        j += 1;
    }
    if j < gs.len() && gs[j].partition == partition {
        let mut g = gs.remove(j);
        let ghost before = g@;
        let ghost rv = record@;
        g.records.push(record);
        g.rows.push(row);
        proof {
            assert(bare_records(g.records@) =~= before.records.push(rv));
        }
        gs.insert(j, g);
        proof {
            assert(group_views(gs@) =~= was.update(j as int, g@));
        }
    } else {
        let ghost rv = record@;
        let mut records: Vec<Record> = Vec::new();
        records.push(record);
        let mut rows: Vec<usize> = Vec::new();
        rows.push(row);
        let g = Group { partition, records, rows };
        proof {
            assert(bare_records(g.records@) =~= seq![rv]);
            assert(g.rows@ =~= seq![row]);
            assert(g@ == one);
        }
        if j < gs.len() {
            gs.insert(j, g);
            assert(group_views(gs@) =~= was.insert(j as int, one));
        } else {
            gs.push(g);
            assert(group_views(gs@) =~= was.push(one));
        }
    }
}

/// The records of a chunk by partition, in the order of partitions.
pub fn group_chunk(rows: Vec<(u32, Record)>, start: usize) -> (r: Vec<Group>)
    requires
        start + rows@.len() <= usize::MAX,
    ensures
        group_views(r@) == grouped(
            stream::record_views(rows@),
            start as nat,
            rows@.len(),
        ),
{
    let ghost all = rows@;
    let ghost views = stream::record_views(rows@);
    let total: usize = rows.len();
    let mut gs: Vec<Group> = Vec::new();
    let mut i: usize = 0;
    assert(group_views(gs@) =~= Seq::empty());
    for entry in it: rows
        invariant
            it.seq() == all,
            i == it.index(),
            i <= total,
            total == all.len(),
            start + total <= usize::MAX,
            views == stream::record_views(all),
            group_views(gs@) == grouped(views, start as nat, i as nat),
    {
        proof {
            assert(entry == all[i as int]);
            assert(views[i as int] == (entry.0, entry.1@));
        }
        let (partition, record) = entry;
        add_to_group(&mut gs, partition, record, start + i);
        i += 1;
    }
    gs
}

/// The rows of each group, for naming the rows of refused records.
pub fn group_rows(gs: &Vec<Group>) -> (r: Vec<(u32, Vec<usize>)>)
    ensures
        r@.len() == gs@.len(),
        forall|i: int|
            0 <= i < gs@.len() ==> (#[trigger] r@[i]).0 == gs@[i].partition && r@[i].1@
                == gs@[i].rows@,
{
    let mut out: Vec<(u32, Vec<usize>)> = Vec::new();
    let mut i: usize = 0;
    while i < gs.len()
        invariant
            i <= gs@.len(),
            out@.len() == i,
            forall|j: int|
                0 <= j < i ==> (#[trigger] out@[j]).0 == gs@[j].partition && out@[j].1@
                    == gs@[j].rows@,
        decreases gs.len() - i,
    {
        let mut rows: Vec<usize> = Vec::new();
        let mut k: usize = 0;
        while k < gs[i].rows.len()
            invariant
                i < gs@.len(),
                k <= gs@[i as int].rows@.len(),
                rows@ == gs@[i as int].rows@.take(k as int),
            decreases gs@[i as int].rows@.len() - k,
        {
            rows.push(gs[i].rows[k]);
            proof {
                let all = gs@[i as int].rows@;
                assert(all.take(k as int + 1) =~= all.take(k as int).push(all[k as int]));
            }
            k += 1;
        }
        proof {
            let all = gs@[i as int].rows@;
            assert(all.take(all.len() as int) =~= all);
        }
        out.push((gs[i].partition, rows));
        i += 1;
    }
    out
}

/// The records of a partition among the first `n`.
pub open spec fn records_in(rows: Seq<(u32, RecordV)>, partition: u32, n: nat) -> Seq<RecordV>
    decreases n,
{
    if n == 0 || n > rows.len() {
        Seq::empty()
    } else {
        let before = records_in(rows, partition, (n - 1) as nat);
        if rows[n - 1].0 == partition {
            before.push(rows[n - 1].1)
        } else {
            before
        }
    }
}

/// Whether groups are in the order of their partitions, each with the
/// records of its partition in row order, and every record in a group.
pub open spec fn groups_hold(gs: Seq<GroupV>, rows: Seq<(u32, RecordV)>, n: nat) -> bool {
    &&& forall|i: int, j: int|
        0 <= i < j < gs.len() ==> (#[trigger] gs[i]).partition < (#[trigger] gs[j]).partition
    &&& forall|i: int|
        0 <= i < gs.len() ==> (#[trigger] gs[i]).records == records_in(rows, gs[i].partition, n)
    &&& forall|k: int|
        0 <= k < n ==> exists|i: int|
            0 <= i < gs.len() && #[trigger] gs[i].partition == (#[trigger] rows[k]).0
}

/// A chunk's groups hold each of its records once, under its partition and
/// in row order, and come in the order of partitions.
pub proof fn groups_split_the_chunk(rows: Seq<(u32, RecordV)>, start: nat, n: nat)
    requires
        n <= rows.len(),
    ensures
        groups_hold(grouped(rows, start, n), rows, n),
    decreases n,
{
    if n > 0 {
        let m = (n - 1) as nat;
        groups_split_the_chunk(rows, start, m);
        let gs = grouped(rows, start, m);
        let (p, rec) = rows[m as int];
        let row = (start + n - 1) as usize;
        let j = group_place(gs, p, 0);
        grouped_with_at(gs, p, rec, row, 0);
        place_bounds(gs, p, 0);
        let now = grouped(rows, start, n);
        if j < gs.len() && gs[j].partition == p {
            assert forall|i: int| 0 <= i < now.len() implies (#[trigger] now[i]).records
                == records_in(rows, now[i].partition, n) by {
                if i != j {
                    assert(now[i] == gs[i]);
                    assert(gs[i].partition != p);
                }
            }
            assert forall|k: int| 0 <= k < n implies exists|i: int|
                0 <= i < now.len() && #[trigger] now[i].partition == (#[trigger] rows[k]).0 by {
                if k < m {
                    let i = choose|i: int|
                        0 <= i < gs.len() && #[trigger] gs[i].partition == rows[k].0;
                    assert(now[i].partition == rows[k].0);
                } else {
                    assert(now[j].partition == rows[k].0);
                }
            }
        } else {
            absent_partition(gs, rows, p, m, j);
            assert forall|a: int, b: int| 0 <= a < b < now.len() implies (#[trigger] now[a]).partition
                < (#[trigger] now[b]).partition by {
                if a < j {
                    assert(now[a] == gs[a]);
                } else if a > j {
                    assert(now[a] == gs[a - 1]);
                }
                if b < j {
                    assert(now[b] == gs[b]);
                } else if b > j {
                    assert(now[b] == gs[b - 1]);
                }
            }
            assert forall|i: int| 0 <= i < now.len() implies (#[trigger] now[i]).records
                == records_in(rows, now[i].partition, n) by {
                if i < j {
                    assert(now[i] == gs[i]);
                } else if i > j {
                    assert(now[i] == gs[i - 1]);
                } else {
                    assert(records_in(rows, p, n) =~= seq![rec]);
                }
            }
            assert forall|k: int| 0 <= k < n implies exists|i: int|
                0 <= i < now.len() && #[trigger] now[i].partition == (#[trigger] rows[k]).0 by {
                if k < m {
                    let i = choose|i: int|
                        0 <= i < gs.len() && #[trigger] gs[i].partition == rows[k].0;
                    if i < j {
                        assert(now[i].partition == rows[k].0);
                    } else {
                        assert(now[i + 1].partition == rows[k].0);
                    }
                } else {
                    assert(now[j].partition == rows[k].0);
                }
            }
        }
    }
}

/// The first group whose partition is not below `p`.
spec fn group_place(gs: Seq<GroupV>, p: u32, j: int) -> int
    decreases gs.len() - j,
{
    if j < 0 || j >= gs.len() || gs[j].partition >= p {
        j
    } else {
        group_place(gs, p, j + 1)
    }
}

proof fn place_bounds(gs: Seq<GroupV>, p: u32, j: int)
    requires
        0 <= j <= gs.len(),
    ensures
        j <= group_place(gs, p, j) <= gs.len(),
        forall|i: int| j <= i < group_place(gs, p, j) ==> (#[trigger] gs[i]).partition < p,
        group_place(gs, p, j) < gs.len() ==> gs[group_place(gs, p, j)].partition >= p,
    decreases gs.len() - j,
{
    if j < gs.len() && gs[j].partition < p {
        place_bounds(gs, p, j + 1);
    }
}

proof fn grouped_with_at(gs: Seq<GroupV>, p: u32, rec: RecordV, row: usize, j: int)
    requires
        0 <= j <= gs.len(),
    ensures
        ({
            let at = group_place(gs, p, j);
            let one = GroupV { partition: p, records: seq![rec], rows: seq![row] };
            grouped_with(gs, p, rec, row, j) == (if at < gs.len() && gs[at].partition == p {
                gs.update(
                    at,
                    GroupV {
                        partition: p,
                        records: gs[at].records.push(rec),
                        rows: gs[at].rows.push(row),
                    },
                )
            } else {
                gs.insert(at, one)
            })
        }),
    decreases gs.len() - j,
{
    if j < gs.len() && gs[j].partition < p {
        grouped_with_at(gs, p, rec, row, j + 1);
    } else if j >= gs.len() {
        let one = GroupV { partition: p, records: seq![rec], rows: seq![row] };
        assert(gs.push(one) =~= gs.insert(j, one));
    }
}

proof fn absent_partition(gs: Seq<GroupV>, rows: Seq<(u32, RecordV)>, p: u32, m: nat, j: int)
    requires
        m <= rows.len(),
        groups_hold(gs, rows, m),
        0 <= j <= gs.len(),
        forall|i: int| 0 <= i < j ==> (#[trigger] gs[i]).partition < p,
        j < gs.len() ==> gs[j].partition > p,
    ensures
        records_in(rows, p, m) == Seq::<RecordV>::empty(),
{
    assert forall|k: int| 0 <= k < m implies (#[trigger] rows[k]).0 != p by {
        let i = choose|i: int| 0 <= i < gs.len() && #[trigger] gs[i].partition == rows[k].0;
        if i >= j && j < gs.len() {
            if i > j {
                assert(gs[j].partition < gs[i].partition);
            }
        }
    }
    none_in(rows, p, m);
}

proof fn none_in(rows: Seq<(u32, RecordV)>, p: u32, m: nat)
    requires
        m <= rows.len(),
        forall|k: int| 0 <= k < m ==> (#[trigger] rows[k]).0 != p,
    ensures
        records_in(rows, p, m) == Seq::<RecordV>::empty(),
    decreases m,
{
    if m > 0 {
        none_in(rows, p, (m - 1) as nat);
    }
}

/// What a produced partition answers.
#[derive(Clone, Copy, Debug, PartialEq, Eq, Structural)]
pub struct AppendAck {
    pub stream: u64,
    pub partition: u32,
    pub base_offset: u64,
    pub last_offset: u64,
}

/// The offsets with one more answer, from the `j`-th on: the partition's
/// range grows to hold it, or is new in its place.
pub open spec fn offsets_with(os: Seq<PartitionOffsets>, a: AppendAck, j: int) -> Seq<
    PartitionOffsets,
>
    decreases os.len() - j,
{
    let one = PartitionOffsets {
        partition: a.partition,
        base_offset: a.base_offset,
        last_offset: a.last_offset,
    };
    if j < 0 || j >= os.len() {
        os.push(one)
    } else if os[j].partition == a.partition {
        os.update(
            j,
            PartitionOffsets {
                partition: a.partition,
                base_offset: if os[j].base_offset <= a.base_offset {
                    os[j].base_offset
                } else {
                    a.base_offset
                },
                last_offset: if os[j].last_offset >= a.last_offset {
                    os[j].last_offset
                } else {
                    a.last_offset
                },
            },
        )
    } else if os[j].partition > a.partition {
        os.insert(j, one)
    } else {
        offsets_with(os, a, j + 1)
    }
}

/// Takes the answer of a partition into a batch's offsets.
pub fn add_offsets(os: &mut Vec<PartitionOffsets>, a: &AppendAck)
    ensures
        final(os)@ == offsets_with(old(os)@, *a, 0),
{
    let mut j: usize = 0;
    while j < os.len() && os[j].partition < a.partition
        invariant
            j <= os@.len(),
            os@ == old(os)@,
            offsets_with(os@, *a, 0) == offsets_with(os@, *a, j as int),
        decreases os.len() - j,
    {
        j += 1;
    }
    if j < os.len() && os[j].partition == a.partition {
        let o = os[j];
        os.set(
            j,
            PartitionOffsets {
                partition: a.partition,
                base_offset: if o.base_offset <= a.base_offset {
                    o.base_offset
                } else {
                    a.base_offset
                },
                last_offset: if o.last_offset >= a.last_offset {
                    o.last_offset
                } else {
                    a.last_offset
                },
            },
        );
    } else {
        let one = PartitionOffsets {
            partition: a.partition,
            base_offset: a.base_offset,
            last_offset: a.last_offset,
        };
        if j < os.len() {
            os.insert(j, one);
        } else {
            os.push(one);
        }
    }
}

/// The token of some answers: each partition's next offset.
pub fn token_of_acks(acks: &Vec<AppendAck>) -> (r: Vec<(u64, u32, u64)>)
    requires
        forall|i: int| 0 <= i < acks@.len() ==> (#[trigger] acks@[i]).last_offset < u64::MAX,
    ensures
        r@ == Seq::new(
            acks@.len(),
            |i: int|
                (acks@[i].stream, acks@[i].partition, (acks@[i].last_offset + 1) as u64),
        ),
{
    let mut out: Vec<(u64, u32, u64)> = Vec::new();
    let mut i: usize = 0;
    while i < acks.len()
        invariant
            i <= acks@.len(),
            out@.len() == i,
            forall|j: int| 0 <= j < acks@.len() ==> (#[trigger] acks@[j]).last_offset < u64::MAX,
            forall|j: int|
                0 <= j < i ==> #[trigger] out@[j] == (
                    acks@[j].stream,
                    acks@[j].partition,
                    (acks@[j].last_offset + 1) as u64,
                ),
        decreases acks.len() - i,
    {
        let a = acks[i];
        out.push((a.stream, a.partition, a.last_offset + 1));
        i += 1;
    }
    out
}

} // verus!
