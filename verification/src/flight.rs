//! The decisions of the Flight SQL service: its self-contained statement
//! tickets, the read and namespace that a request's metadata ask for, its
//! bounds, and the status of an error.

use crate::bytes;
use crate::collection::CollectionSchema;
use crate::crc;
use crate::error;
use crate::error::{Failure, ServiceError};
use crate::flight_ingest::target::IngestAction;
use crate::ir::{ConsistencyToken, ConsistencyV, ReadConsistency};
use crate::text;
use vstd::prelude::*;
use vstd::string::*;
use vstd::utf8::*;

verus! {

/// The metadata key naming a request's namespace.
pub const NAMESPACE_METADATA: &'static str = "operon-namespace";

/// The namespace of a request without [`NAMESPACE_METADATA`].
pub const DEFAULT_NAMESPACE: &'static str = "default";

/// The metadata key of a request's consistency token.
pub const CONSISTENCY_METADATA: &'static str = "operon-consistency-token";

/// The metadata key of a request's pinned manifest.
pub const PIN_MANIFEST_METADATA: &'static str = "operon-pin-manifest";

/// The statement ticket format version.
pub const TICKET_VERSION: u16 = 1;

/// The one table type.
pub const TABLE_TYPE: &'static str = "TABLE";

/// The Arrow version the server declares.
pub const ARROW_VERSION: &'static str = "58.4";

/// How many milliseconds the listener waits after a failed accept.
pub const ACCEPT_ERROR_PAUSE: u64 = 100;

/// The first bytes of every statement ticket: `OPFS`.
pub const TICKET_MAGIC: [u8; 4] = [79, 80, 70, 83];

/// What a read of a statement needs: the ticket is self-contained, so any
/// node can serve it.
#[derive(Clone, Debug)]
pub struct StatementTicket {
    pub namespace: String,
    pub query: String,
    /// The consistency token in text; none reads the latest state.
    pub token: Option<String>,
    /// With a token, the statement reads this manifest.
    pub pinned_manifest: Option<u64>,
}

/// What a ticket says.
pub struct TicketV {
    pub namespace: Seq<char>,
    pub query: Seq<char>,
    pub token: Option<Seq<char>>,
    pub pinned_manifest: Option<u64>,
}

impl View for StatementTicket {
    type V = TicketV;

    open spec fn view(&self) -> TicketV {
        TicketV {
            namespace: self.namespace@,
            query: self.query@,
            token: text::opt_text(self.token),
            pinned_manifest: self.pinned_manifest,
        }
    }
}

/// The four fields of a ticket that postcard reads at the front of bytes,
/// and how many bytes are left after them.
pub uninterp spec fn postcard_read(b: Seq<u8>) -> Option<
    (Seq<char>, Seq<char>, Option<Seq<char>>, Option<u64>, nat),
>;

/// A number in groups of seven bits, the lowest first; every byte but the
/// last has its top bit set.
pub open spec fn varint(n: nat) -> Seq<u8>
    decreases n,
{
    if n < 128 {
        seq![n as u8]
    } else {
        seq![(n % 128 + 128) as u8] + varint(n / 128)
    }
}

/// A text as the number of its UTF-8 bytes and the bytes.
pub open spec fn text_bytes(s: Seq<char>) -> Seq<u8> {
    varint(encode_utf8(s).len()) + encode_utf8(s)
}

/// The bytes of four fields as postcard writes them: the texts, and each
/// optional field behind a byte that tells whether it is there.
pub open spec fn postcard_bytes(
    namespace: Seq<char>,
    query: Seq<char>,
    token: Option<Seq<char>>,
    pinned_manifest: Option<u64>,
) -> Seq<u8> {
    text_bytes(namespace) + text_bytes(query) + (match token {
        Some(s) => seq![1u8] + text_bytes(s),
        None => seq![0u8],
    }) + (match pinned_manifest {
        Some(n) => seq![1u8] + varint(n as nat),
        None => seq![0u8],
    })
}

/// `postcard::to_stdvec` of the four fields in order. Reading the bytes
/// gives the fields back and leaves nothing.
#[verifier::external_body]
fn write_fields(t: &StatementTicket) -> (r: Vec<u8>)
    ensures
        r@ == postcard_bytes(
            t.namespace@,
            t.query@,
            text::opt_text(t.token),
            t.pinned_manifest,
        ),
        postcard_read(r@) == Some(
            (t.namespace@, t.query@, text::opt_text(t.token), t.pinned_manifest, 0nat),
        ),
{
    postcard::to_stdvec(&(&t.namespace, &t.query, &t.token, &t.pinned_manifest)).expect(
        "a ticket always serializes",
    )
}

/// `postcard::take_from_bytes`: the four fields at the front of the bytes
/// and the number of bytes after them, or none where the bytes do not begin
/// with four such fields.
#[verifier::external_body]
fn read_fields(b: &[u8]) -> (r: Option<(StatementTicket, usize)>)
    ensures
        match r {
            Some((t, rest)) => postcard_read(b@) == Some(
                (
                    t.namespace@,
                    t.query@,
                    text::opt_text(t.token),
                    t.pinned_manifest,
                    rest as nat,
                ),
            ),
            None => postcard_read(b@) is None,
        },
{
    match postcard::take_from_bytes::<(String, String, Option<String>, Option<u64>)>(b) {
        Ok(((namespace, query, token, pinned_manifest), rest)) => Some(
            (StatementTicket { namespace, query, token, pinned_manifest }, rest.len()),
        ),
        Err(_) => None,
    }
}

/// The bytes of a ticket before its checksum: the magic, the version and the
/// fields.
pub open spec fn ticket_body(t: TicketV) -> Seq<u8> {
    TICKET_MAGIC@ + bytes::le(TICKET_VERSION as nat, 2) + postcard_bytes(
        t.namespace,
        t.query,
        t.token,
        t.pinned_manifest,
    )
}

/// The bytes of a ticket: its body and the checksum over it.
pub open spec fn ticket_bytes(t: TicketV) -> Seq<u8> {
    ticket_body(t) + bytes::le(crc::crc32c_of(ticket_body(t)) as nat, 4)
}

/// The ticket that bytes hold: the magic, the version, the fields without
/// anything behind them, and the checksum over all of it.
pub open spec fn ticket_in(b: Seq<u8>) -> Option<TicketV> {
    let n = b.len() - 4;
    if b.len() >= 10 && b.take(4) == TICKET_MAGIC@ && bytes::le_value(b.subrange(4, 6))
        == TICKET_VERSION && bytes::le_value(b.skip(n)) == crc::crc32c_of(b.take(n)) {
        match postcard_read(b.subrange(6, n)) {
            Some((namespace, query, token, pinned_manifest, rest)) => if rest == 0 {
                Some(TicketV { namespace, query, token, pinned_manifest })
            } else {
                None
            },
            None => None,
        }
    } else {
        None
    }
}

/// The error of a ticket that cannot be read.
pub open spec fn bad_ticket() -> Failure {
    Failure::InvalidArgument("invalid statement ticket"@)
}

fn invalid_ticket() -> (r: ServiceError)
    ensures
        r@ == bad_ticket(),
{
    ServiceError::InvalidArgument("invalid statement ticket".to_owned())
}

/// The magic, the version in two bytes, the fields and their checksum in
/// four bytes, least significant first. Decoding the bytes gives the ticket
/// back.
pub fn encode_ticket(ticket: &StatementTicket) -> (r: Vec<u8>)
    ensures
        r@ == ticket_bytes(ticket@),
        ticket_in(r@) == Some(ticket@),
{
    let mut out: Vec<u8> = Vec::new();
    let magic: [u8; 4] = TICKET_MAGIC;
    bytes::push_range(&mut out, &magic, 0, 4);
    bytes::push_le(&mut out, TICKET_VERSION as u64, 2);
    let body = write_fields(ticket);
    bytes::push_range(&mut out, &body, 0, body.len());
    proof {
        assert(TICKET_MAGIC@.subrange(0, 4) =~= TICKET_MAGIC@);
        assert(body@.subrange(0, body@.len() as int) =~= body@);
        assert(out@ =~= ticket_body(ticket@));
    }
    let crc: u32 = crc::checksum(&out);
    bytes::push_le(&mut out, crc as u64, 4);
    proof {
        let b = out@;
        let n = b.len() - 4;
        bytes::pow256_values();
        bytes::le_round_trip(crc as nat, 4);
        bytes::le_round_trip(1, 2);
        assert(b.take(n) =~= ticket_body(ticket@));
        assert(b.skip(n) =~= bytes::le(crc as nat, 4));
        assert(b.take(4) =~= TICKET_MAGIC@);
        assert(b.subrange(4, 6) =~= bytes::le(1, 2));
        assert(b.subrange(6, n) =~= body@);
    }
    out
}

/// The ticket of its bytes; a wrong magic, an unknown version, a bad
/// checksum or trailing bytes make an invalid argument.
pub fn decode_ticket(b: &[u8]) -> (r: Result<StatementTicket, ServiceError>)
    ensures
        match r {
            Ok(t) => ticket_in(b@) == Some(t@),
            Err(e) => e@ == bad_ticket() && ticket_in(b@) is None,
        },
{
    if b.len() < 10 {
        return Err(invalid_ticket());
    }
    let n: usize = b.len() - 4;
    let head = bytes::copy_range(b, 0, 4);
    let magic: [u8; 4] = TICKET_MAGIC;
    proof {
        assert(b@.subrange(0, 4) =~= b@.take(4));
    }
    if !bytes::same_bytes(&head, &magic) {
        return Err(invalid_ticket());
    }
    let version: u64 = bytes::read_le(b, 4, 6);
    if version != TICKET_VERSION as u64 {
        return Err(invalid_ticket());
    }
    let crc: u64 = bytes::read_le(b, n, b.len());
    let body = bytes::copy_range(b, 0, n);
    proof {
        assert(b@.subrange(n as int, b@.len() as int) =~= b@.skip(n as int));
        assert(body@ =~= b@.take(n as int));
    }
    if crc::checksum(&body) as u64 != crc {
        return Err(invalid_ticket());
    }
    let fields = bytes::copy_range(b, 6, n);
    match read_fields(&fields) {
        Some((ticket, rest)) => if rest == 0 {
            Ok(ticket)
        } else {
            Err(invalid_ticket())
        },
        None => Err(invalid_ticket()),
    }
}

proof fn other_bytes_hold_another_number(a: Seq<u8>, b: Seq<u8>)
    requires
        a.len() == b.len(),
        bytes::le_value(a) == bytes::le_value(b),
    ensures
        a == b,
    decreases a.len(),
{
    if a.len() > 0 {
        other_bytes_hold_another_number(a.drop_first(), b.drop_first());
        assert(a =~= seq![a[0]] + a.drop_first());
        assert(b =~= seq![b[0]] + b.drop_first());
    } else {
        assert(a =~= b);
    }
}

/// A ticket with one byte changed is no ticket.
pub proof fn a_changed_ticket_is_refused(b: Seq<u8>, i: int, x: u8)
    requires
        ticket_in(b) is Some,
        0 <= i < b.len(),
        b[i] != x,
    ensures
        ticket_in(b.update(i, x)) is None,
{
    let c = b.update(i, x);
    let n = b.len() - 4;
    if i < n {
        assert(c.take(n) =~= b.take(n).update(i, x));
        assert(c.skip(n) =~= b.skip(n));
        crc::a_changed_byte_is_noticed(b.take(n), i, x);
    } else {
        assert(c.take(n) =~= b.take(n));
        if bytes::le_value(c.skip(n)) == bytes::le_value(b.skip(n)) {
            other_bytes_hold_another_number(c.skip(n), b.skip(n));
            assert(c.skip(n)[i - n] == x);
        }
    }
}

/// What a read at a parsed token asks for: at least the token's writes, or
/// the latest state without one.
pub open spec fn consistency_with(token: Option<Seq<(u64, u32, u64)>>) -> ConsistencyV {
    match token {
        Some(token) => ConsistencyV::AtLeast(token),
        None => ConsistencyV::Strong,
    }
}

fn consistency_of(token: Option<ConsistencyToken>) -> (r: ReadConsistency)
    ensures
        r@ == consistency_with(opt_token(token)),
{
    match token {
        Some(token) => ReadConsistency::AtLeast(token),
        None => ReadConsistency::Strong,
    }
}

/// The entries of a token that may be absent.
pub open spec fn opt_token(token: Option<ConsistencyToken>) -> Option<Seq<(u64, u32, u64)>> {
    match token {
        Some(token) => Some(token@),
        None => None,
    }
}

/// The read of a ticket, given what its token's text parses to: a pinned
/// manifest with a token, at least a token alone, else the latest state. A
/// token that does not parse, or a pinned manifest without a token, is an
/// invalid ticket.
pub open spec fn ticket_read(
    t: TicketV,
    parsed: Option<Seq<(u64, u32, u64)>>,
) -> Result<ConsistencyV, Failure> {
    if t.token is Some && parsed is None {
        Err(bad_ticket())
    } else {
        let token = if t.token is Some {
            parsed
        } else {
            None
        };
        match (t.pinned_manifest, token) {
            (Some(manifest_version), Some(token)) => Ok(
                ConsistencyV::Pinned { manifest_version, token },
            ),
            (Some(_), None) => Err(bad_ticket()),
            (None, token) => Ok(consistency_with(token)),
        }
    }
}

/// The read of a statement ticket whose token's text parses to `parsed`.
pub fn ticket_consistency(ticket: &StatementTicket, parsed: Option<ConsistencyToken>) -> (r: Result<
    ReadConsistency,
    ServiceError,
>)
    ensures
        match r {
            Ok(c) => ticket_read(ticket@, opt_token(parsed)) == Ok::<ConsistencyV, Failure>(c@),
            Err(e) => ticket_read(ticket@, opt_token(parsed)) == Err::<ConsistencyV, Failure>(e@),
        },
{
    let token: Option<ConsistencyToken> = match &ticket.token {
        Some(_) => match parsed {
            Some(token) => Some(token),
            None => {
                return Err(invalid_ticket());
            },
        },
        None => None,
    };
    match ticket.pinned_manifest {
        Some(manifest_version) => match token {
            Some(token) => Ok(ReadConsistency::Pinned { manifest_version, token }),
            None => Err(invalid_ticket()),
        },
        None => Ok(consistency_of(token)),
    }
}

/// A metadata value: absent, not in visible ASCII, or its text.
#[derive(Debug)]
pub enum Header {
    Absent,
    Unreadable,
    Text(String),
}

/// The text of a header that has one.
pub open spec fn header_text(h: Header) -> Option<Seq<char>> {
    match h {
        Header::Text(s) => Some(s@),
        _ => None,
    }
}

/// The manifest that a pin header names in canonical decimal form.
pub open spec fn is_pin(pin: Header, version: u64) -> bool {
    header_text(pin) == Some(text::decimal(version as nat))
}

/// The error of a pin without a canonical version or without a token.
pub open spec fn bad_pin() -> Failure {
    Failure::InvalidArgument(
        PIN_MANIFEST_METADATA@ + " needs a canonical manifest version and "@
            + CONSISTENCY_METADATA@,
    )
}

fn invalid_pin() -> (r: ServiceError)
    ensures
        r@ == bad_pin(),
{
    error::invalid(
        text::cat3(
            PIN_MANIFEST_METADATA,
            " needs a canonical manifest version and ",
            CONSISTENCY_METADATA,
        ),
    )
}

/// The token and the pinned manifest of a statement's metadata. A pin needs
/// both a canonical version and a token that parsed.
pub fn statement_read(token: Option<ConsistencyToken>, pin: &Header) -> (r: Result<
    (Option<ConsistencyToken>, Option<u64>),
    ServiceError,
>)
    ensures
        match r {
            Ok((t, version)) => t == token && match version {
                Some(version) => is_pin(*pin, version) && token is Some,
                None => pin is Absent,
            },
            Err(e) => e@ == bad_pin() && pin !is Absent && (token is None || forall|n: u64|
                !#[trigger] is_pin(*pin, n)),
        },
{
    match pin {
        Header::Absent => Ok((token, None)),
        Header::Unreadable => Err(invalid_pin()),
        Header::Text(s) => match text::canonical_u64(s) {
            Some(version) => if token.is_some() {
                Ok((token, Some(version)))
            } else {
                Err(invalid_pin())
            },
            None => {
                proof {
                    assert forall|n: u64| !#[trigger] is_pin(*pin, n) by {
                        assert(s@ != text::decimal(n as nat));
                    }
                }
                Err(invalid_pin())
            },
        },
    }
}

/// The read that a statement's metadata ask for: a pin with a token reads
/// that manifest, a token alone at least its writes, and neither the latest
/// state. A token that does not parse counts as none.
pub fn metadata_consistency(token: Option<ConsistencyToken>, pin: &Header) -> (r: Result<
    ReadConsistency,
    ServiceError,
>)
    ensures
        match r {
            Ok(c) => match c@ {
                ConsistencyV::Pinned { manifest_version, token: t } => is_pin(
                    *pin,
                    manifest_version,
                ) && opt_token(token) == Some(t),
                other => pin is Absent && other == consistency_with(opt_token(token)),
            },
            Err(e) => e@ == bad_pin() && pin !is Absent && (token is None || forall|n: u64|
                !#[trigger] is_pin(*pin, n)),
        },
{
    match statement_read(token, pin) {
        Err(e) => Err(e),
        Ok((token, pinned)) => match pinned {
            Some(manifest_version) => match token {
                Some(token) => Ok(ReadConsistency::Pinned { manifest_version, token }),
                None => Ok(consistency_of(None)),
            },
            None => Ok(consistency_of(token)),
        },
    }
}

/// The ticket that answers a statement: its namespace and query, the text of
/// the token it reads at, and its pinned manifest.
pub fn statement_ticket(
    namespace: String,
    query: String,
    token_text: Option<String>,
    pinned_manifest: Option<u64>,
) -> (r: StatementTicket)
    ensures
        r@ == (TicketV {
            namespace: namespace@,
            query: query@,
            token: text::opt_text(token_text),
            pinned_manifest,
        }),
{
    StatementTicket { namespace, query, token: token_text, pinned_manifest }
}

/// The namespace of a request: its header's text, unless that is absent,
/// unreadable or empty.
pub open spec fn namespace_in(header: Header) -> Seq<char> {
    match header_text(header) {
        Some(s) => if s.len() == 0 {
            DEFAULT_NAMESPACE@
        } else {
            s
        },
        None => DEFAULT_NAMESPACE@,
    }
}

/// The namespace of a request.
pub fn namespace_of(header: &Header) -> (r: String)
    ensures
        r@ == namespace_in(*header),
{
    match header {
        Header::Text(s) => if s.as_str().unicode_len() == 0 {
            DEFAULT_NAMESPACE.to_owned()
        } else {
            s.clone()
        },
        _ => DEFAULT_NAMESPACE.to_owned(),
    }
}

/// The text of a request's id type, for a text key column that declares
/// none.
pub fn id_type_of(header: &Header) -> (r: Option<String>)
    ensures
        text::opt_text(r) == header_text(*header),
{
    match header {
        Header::Text(s) => Some(s.clone()),
        _ => None,
    }
}

/// The names equal to `catalog`, or all of them without one.
pub open spec fn listed(names: Seq<Seq<char>>, catalog: Option<Seq<char>>) -> Seq<Seq<char>> {
    match catalog {
        Some(c) => names.filter(|n: Seq<char>| n == c),
        None => names,
    }
}

/// The namespaces that a metadata command lists: the catalog that it names,
/// else every one.
pub fn namespaces(names: Vec<String>, catalog: Option<&str>) -> (r: Vec<String>)
    ensures
        text::texts(r@) == listed(
            text::texts(names@),
            match catalog {
                Some(c) => Some(c@),
                None => None,
            },
        ),
{
    match catalog {
        None => names,
        Some(c) => {
            let ghost all = text::texts(names@);
            let ghost wanted = c@;
            let ghost keep = |n: Seq<char>| n == wanted;
            let mut out: Vec<String> = Vec::new();
            let mut i: usize = 0;
            proof {
                assert(all.take(0).filter(keep) =~= text::texts(out@)) by {
                    reveal(Seq::filter);
                }
            }
            while i < names.len()
                invariant
                    i <= names@.len(),
                    all == text::texts(names@),
                    wanted == c@,
                    keep == (|n: Seq<char>| n == wanted),
                    text::texts(out@) == all.take(i as int).filter(keep),
                decreases names.len() - i,
            {
                if text::same(&names[i], c) {
                    out.push(names[i].clone());
                }
                proof {
                    assert(all.take(i as int + 1).drop_last() =~= all.take(i as int));
                    assert(all.take(i as int + 1).last() == names@[i as int]@);
                    reveal(Seq::filter);
                    assert(text::texts(out@) =~= all.take(i as int + 1).filter(keep));
                }
                i += 1;
            }
            proof {
                assert(all.take(all.len() as int) =~= all);
            }
            out
        },
    }
}

/// How the Flight SQL service bounds its work.
#[derive(Clone, Copy, Debug)]
pub struct FlightConfig {
    /// How many milliseconds one statement may plan and stream; a put has
    /// no deadline.
    pub max_duration: u64,
    /// The largest message that the server decodes.
    pub max_message_bytes: usize,
    /// The rows of one ingest chunk.
    pub put_chunk_rows: usize,
}

impl Default for FlightConfig {
    /// Ten minutes, 64 MiB and 10 000 rows.
    fn default() -> (r: FlightConfig)
        ensures
            r == (FlightConfig {
                max_duration: 600_000,
                max_message_bytes: 67_108_864,
                put_chunk_rows: 10_000,
            }),
    {
        FlightConfig {
            max_duration: 600_000,
            max_message_bytes: 67_108_864,
            put_chunk_rows: 10_000,
        }
    }
}

/// What is wrong with a configuration, where a chunk holds at most `most`
/// rows.
pub open spec fn config_fault(c: FlightConfig, most: usize) -> Option<Seq<char>> {
    if !(1 <= c.put_chunk_rows <= most) {
        Some(
            "flight.put_chunk_rows must be 1..="@ + text::decimal(most as nat) + ", got "@
                + text::decimal(c.put_chunk_rows as nat),
        )
    } else if c.max_message_bytes == 0 {
        Some("flight.max_message_bytes must be at least 1"@)
    } else {
        None
    }
}

impl FlightConfig {
    /// Refuses chunks of no rows or of more than the `max_write_ops` of one
    /// write, and messages of no bytes.
    pub fn validate(&self, max_write_ops: usize) -> (r: Result<(), String>)
        ensures
            match r {
                Ok(_) => config_fault(*self, max_write_ops) is None,
                Err(m) => config_fault(*self, max_write_ops) == Some(m@),
            },
    {
        if self.put_chunk_rows < 1 || self.put_chunk_rows > max_write_ops {
            let mut m = text::cat2(
                "flight.put_chunk_rows must be 1..=",
                &text::dec(max_write_ops as u64),
            );
            m.append(", got ");
            m.append(&text::dec(self.put_chunk_rows as u64));
            Err(m)
        } else if self.max_message_bytes == 0 {
            Err("flight.max_message_bytes must be at least 1".to_owned())
        } else {
            Ok(())
        }
    }
}

/// The code of a status.
#[derive(Clone, Copy, Debug, PartialEq, Eq, Structural)]
pub enum StatusCode {
    NotFound,
    AlreadyExists,
    InvalidArgument,
    Unavailable,
    DeadlineExceeded,
    Internal,
    Unimplemented,
    ResourceExhausted,
}

/// A status that a call ends with.
#[derive(Clone, Debug)]
pub struct CallStatus {
    pub code: StatusCode,
    pub message: String,
}

/// The status code of an error.
pub open spec fn status_code(f: Failure) -> StatusCode {
    match f {
        Failure::NotFound { .. } => StatusCode::NotFound,
        Failure::AlreadyExists(_) => StatusCode::AlreadyExists,
        Failure::InvalidArgument(_) => StatusCode::InvalidArgument,
        Failure::SchemaViolation { .. } => StatusCode::InvalidArgument,
        Failure::Unavailable(_) => StatusCode::Unavailable,
        Failure::Timeout => StatusCode::DeadlineExceeded,
        Failure::Internal(_) => StatusCode::Internal,
    }
}

/// The status of an error, with the error's message.
pub fn status_of(err: &ServiceError) -> (r: CallStatus)
    ensures
        r.code == status_code(err@),
        r.message@ == error::message_of(err@),
{
    let code = match err {
        ServiceError::NotFound { .. } => StatusCode::NotFound,
        ServiceError::AlreadyExists(_) => StatusCode::AlreadyExists,
        ServiceError::InvalidArgument(_) => StatusCode::InvalidArgument,
        ServiceError::SchemaViolation { .. } => StatusCode::InvalidArgument,
        ServiceError::Unavailable(_) => StatusCode::Unavailable,
        ServiceError::Timeout => StatusCode::DeadlineExceeded,
        ServiceError::Internal(_) => StatusCode::Internal,
    };
    CallStatus { code, message: err.message() }
}

/// What came of waiting for the next batch of a stream.
#[derive(Debug)]
pub enum StreamEvent<B> {
    Batch(B),
    Failed(ServiceError),
    Ended,
    Deadline,
}

/// What a stream gives next, and whether it goes on.
#[derive(Debug)]
pub enum StreamStep<B> {
    Batch(B),
    Last(ServiceError),
    End,
}

/// The next item of a stream with a deadline: its batches, and a last error
/// when it fails or does not answer in time.
pub fn bounded<B>(event: StreamEvent<B>) -> (r: StreamStep<B>)
    ensures
        match event {
            StreamEvent::Batch(b) => r == StreamStep::Batch(b),
            StreamEvent::Failed(e) => r == StreamStep::<B>::Last(e),
            StreamEvent::Ended => r is End,
            StreamEvent::Deadline => r matches StreamStep::Last(e) && e@ is Timeout,
        },
{
    match event {
        StreamEvent::Batch(b) => StreamStep::Batch(b),
        StreamEvent::Failed(e) => StreamStep::Last(e),
        StreamEvent::Ended => StreamStep::End,
        StreamEvent::Deadline => StreamStep::Last(ServiceError::Timeout),
    }
}

/// The status of a put whose command is none that is served: its message
/// names a type. A put by path names none.
pub fn fallback_refusal(type_url: &str) -> (r: Option<CallStatus>)
    ensures
        match r {
            Some(s) => type_url@.len() > 0 && s.code == StatusCode::Unimplemented && s.message@
                == "do_put: The defined request is invalid: "@ + type_url@,
            None => type_url@.len() == 0,
        },
{
    if type_url.unicode_len() == 0 {
        None
    } else {
        Some(
            CallStatus {
                code: StatusCode::Unimplemented,
                message: text::cat2("do_put: The defined request is invalid: ", type_url),
            },
        )
    }
}

/// The schema that an ingest loads into: that of an existing collection, or
/// none where the collection is made from the batches.
pub fn schema_to_load(action: IngestAction, existing: Option<CollectionSchema>) -> (r: Option<
    CollectionSchema,
>)
    ensures
        r == (match action {
            IngestAction::Append => existing,
            IngestAction::Create => None,
        }),
{
    match action {
        IngestAction::Append => existing,
        IngestAction::Create => None,
    }
}

/// The rows that an ingest answers: those written, or the largest number
/// there is.
pub fn rows_answered(written: u64) -> (r: i64)
    ensures
        r == (if written <= i64::MAX {
            written as int
        } else {
            i64::MAX as int
        }),
{
    if written <= i64::MAX as u64 {
        written as i64
    } else {
        i64::MAX
    }
}

} // verus!
