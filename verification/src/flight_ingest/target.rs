//! Where a put writes, and how its text keys are read.

use crate::error;
use crate::error::{Failure, ServiceError};
use crate::flight_ingest::shape::Field;
use crate::text;
use vstd::prelude::*;
use vstd::string::*;

verus! {

/// The first element of a collection path: `["collections", name]`.
pub const PUT_COLLECTIONS: &'static str = "collections";

/// The first element of a stream path: `["streams", stream]` or `["streams",
/// stream, partition]`.
pub const PUT_STREAMS: &'static str = "streams";

/// The column of the primary key.
pub const ID_COLUMN: &'static str = "_id";

/// The column of the source.
pub const SOURCE_COLUMN: &'static str = "_source";

/// Metadata of a string key column: `str`, `u64` or `uuid`. Also read from
/// the request where the column has none.
pub const ID_TYPE_METADATA: &'static str = "operon-id-type";

/// How a string key column is read.
#[derive(Clone, Copy, Debug, PartialEq, Eq, Structural)]
pub enum IdType {
    Str,
    U64,
    Uuid,
}

/// The id type of a name.
pub open spec fn id_type_named(s: Seq<char>) -> Option<IdType> {
    if s == "str"@ {
        Some(IdType::Str)
    } else if s == "u64"@ {
        Some(IdType::U64)
    } else if s == "uuid"@ {
        Some(IdType::Uuid)
    } else {
        None
    }
}

/// The error of an unknown id type.
pub open spec fn bad_id_type(s: Seq<char>) -> Failure {
    Failure::InvalidArgument(
        ID_TYPE_METADATA@ + " must be str, u64 or uuid, got "@ + text::debug_text(s),
    )
}

/// The id type of a text, or its error.
pub open spec fn id_type_in(s: Seq<char>) -> Result<IdType, Failure> {
    match id_type_named(s) {
        Some(t) => Ok(t),
        None => Err(bad_id_type(s)),
    }
}

/// The id type that a schema declares: that of its first key column, else
/// the fallback's, else a string.
pub open spec fn declared_id_type(fields: Seq<Field>, fallback: Option<Seq<char>>) -> Result<
    IdType,
    Failure,
> {
    let declared = match first_named(fields, ID_COLUMN@, 0) {
        Some(f) => text::opt_text(f.id_type),
        None => None,
    };
    match declared {
        Some(s) => id_type_in(s),
        None => match fallback {
            Some(s) => id_type_in(s),
            None => Ok(IdType::Str),
        },
    }
}

/// The first column of a name, from the `i`-th on.
pub open spec fn first_named(fields: Seq<Field>, name: Seq<char>, i: int) -> Option<Field>
    decreases fields.len() - i,
{
    if i < 0 || i >= fields.len() {
        None
    } else if fields[i].name@ == name {
        Some(fields[i])
    } else {
        first_named(fields, name, i + 1)
    }
}

fn field_named<'a>(fields: &'a Vec<Field>, name: &str) -> (r: Option<&'a Field>)
    ensures
        match r {
            Some(f) => first_named(fields@, name@, 0) == Some(*f),
            None => first_named(fields@, name@, 0) is None,
        },
{
    let mut i: usize = 0;
    while i < fields.len()
        invariant
            i <= fields@.len(),
            first_named(fields@, name@, 0) == first_named(fields@, name@, i as int),
        decreases fields.len() - i,
    {
        if text::same(&fields[i].name, name) {
            return Some(&fields[i]);
        }
        i += 1;
    }
    None
}

impl IdType {
    /// The id type of a metadata value.
    pub fn parse(value: &str) -> (r: Result<IdType, ServiceError>)
        ensures
            match r {
                Ok(t) => id_type_in(value@) == Ok::<IdType, Failure>(t),
                Err(e) => id_type_in(value@) == Err::<IdType, Failure>(e@),
            },
    {
        if text::same(value, "str") {
            Ok(IdType::Str)
        } else if text::same(value, "u64") {
            Ok(IdType::U64)
        } else if text::same(value, "uuid") {
            Ok(IdType::Uuid)
        } else {
            Err(
                error::invalid(
                    text::cat3(
                        ID_TYPE_METADATA,
                        " must be str, u64 or uuid, got ",
                        &text::debug_of(value),
                    ),
                ),
            )
        }
    }

    /// The id type of a schema's key column, else of the fallback.
    pub fn of_schema(fields: &Vec<Field>, fallback: &Option<String>) -> (r: Result<
        IdType,
        ServiceError,
    >)
        ensures
            match r {
                Ok(t) => declared_id_type(fields@, text::opt_text(*fallback)) == Ok::<
                    IdType,
                    Failure,
                >(t),
                Err(e) => declared_id_type(fields@, text::opt_text(*fallback)) == Err::<
                    IdType,
                    Failure,
                >(e@),
            },
    {
        if let Some(field) = field_named(fields, ID_COLUMN) {
            if let Some(value) = &field.id_type {
                return IdType::parse(value);
            }
        }
        match fallback {
            Some(value) => IdType::parse(value),
            None => Ok(IdType::Str),
        }
    }
}

/// Where a put writes.
#[derive(Debug)]
pub enum PutTarget {
    /// A collection, by name or alias.
    Collection { name: String },
    /// A stream; a partition pins every row to it.
    Stream { name: String, partition: Option<u32> },
}

/// What a target is.
pub enum TargetV {
    Collection { name: Seq<char> },
    Stream { name: Seq<char>, partition: Option<u32> },
}

impl View for PutTarget {
    type V = TargetV;

    open spec fn view(&self) -> TargetV {
        match self {
            PutTarget::Collection { name } => TargetV::Collection { name: name@ },
            PutTarget::Stream { name, partition } => TargetV::Stream {
                name: name@,
                partition: *partition,
            },
        }
    }
}

/// Whether a path names a target: a collection or a stream with a name, the
/// stream perhaps with a partition in canonical decimal form.
pub open spec fn path_names(path: Seq<Seq<char>>, t: TargetV) -> bool {
    match t {
        TargetV::Collection { name } => path == seq![PUT_COLLECTIONS@, name] && name.len() > 0,
        TargetV::Stream { name, partition: None } => path == seq![PUT_STREAMS@, name] && name.len()
            > 0,
        TargetV::Stream { name, partition: Some(p) } => path == seq![
            PUT_STREAMS@,
            name,
            text::decimal(p as nat),
        ] && name.len() > 0,
    }
}

/// The first `n` elements of a path, quoted, with commas between them.
pub open spec fn quoted(path: Seq<Seq<char>>, n: nat) -> Seq<char>
    decreases n,
{
    if n == 0 || n > path.len() {
        ""@
    } else if n == 1 {
        text::debug_text(path[0])
    } else {
        quoted(path, (n - 1) as nat) + ", "@ + text::debug_text(path[n - 1])
    }
}

/// The error of a path that names no target.
pub open spec fn unknown_path_error(path: Seq<Seq<char>>) -> Failure {
    Failure::InvalidArgument(
        "unknown DoPut path ["@ + quoted(path, path.len())
            + "]: use [\"collections\", name] or [\"streams\", name(, partition)]"@,
    )
}

/// The elements of a path, quoted, with commas between them.
pub fn quoted_list(path: &Vec<String>) -> (r: String)
    ensures
        r@ == quoted(text::texts(path@), path@.len()),
{
    let ghost ps = text::texts(path@);
    let mut list = "".to_owned();
    let mut i: usize = 0;
    while i < path.len()
        invariant
            i <= path@.len(),
            ps == text::texts(path@),
            list@ == quoted(ps, i as nat),
        decreases path.len() - i,
    {
        let shown = text::debug_of(&path[i]);
        if i == 0 {
            list = shown;
        } else {
            list.append(", ");
            list.append(&shown);
        }
        i += 1;
    }
    list
}

fn unknown_path(path: &Vec<String>) -> (r: ServiceError)
    ensures
        r@ == unknown_path_error(text::texts(path@)),
{
    error::invalid(
        text::cat3(
            "unknown DoPut path [",
            &quoted_list(path),
            "]: use [\"collections\", name] or [\"streams\", name(, partition)]",
        ),
    )
}

/// The target that a descriptor's path names.
pub fn put_target_from_path(path: &Vec<String>) -> (r: Result<PutTarget, ServiceError>)
    ensures
        match r {
            Ok(t) => path_names(text::texts(path@), t@),
            Err(e) => e@ == unknown_path_error(text::texts(path@)) && forall|t: TargetV|
                !#[trigger] path_names(text::texts(path@), t),
        },
{
    let ghost ps = text::texts(path@);
    proof {
        reveal_strlit("collections");
        reveal_strlit("streams");
        assert(PUT_COLLECTIONS@.len() == 11);
        assert(PUT_STREAMS@.len() == 7);
        assert(PUT_COLLECTIONS@ != PUT_STREAMS@);
    }
    if path.len() == 2 && path[1].as_str().unicode_len() > 0 {
        if text::same(&path[0], PUT_COLLECTIONS) {
            assert(ps =~= seq![PUT_COLLECTIONS@, path@[1]@]);
            return Ok(PutTarget::Collection { name: path[1].clone() });
        }
        if text::same(&path[0], PUT_STREAMS) {
            assert(ps =~= seq![PUT_STREAMS@, path@[1]@]);
            return Ok(PutTarget::Stream { name: path[1].clone(), partition: None });
        }
    }
    if path.len() == 3 && path[1].as_str().unicode_len() > 0 && text::same(&path[0], PUT_STREAMS) {
        if let Some(p) = text::canonical_u64(&path[2]) {
            if p <= u32::MAX as u64 {
                assert(ps =~= seq![PUT_STREAMS@, path@[1]@, text::decimal(p as nat)]);
                return Ok(PutTarget::Stream { name: path[1].clone(), partition: Some(p as u32) });
            }
            proof {
                text::decimal_is_canonical(p as nat);
            }
        }
    }
    proof {
        assert forall|t: TargetV| !#[trigger] path_names(ps, t) by {
            if path_names(ps, t) {
                assert(ps[0] == path@[0]@ && ps[1] == path@[1]@);
                match t {
                    TargetV::Stream { partition: Some(p), .. } => {
                        assert(ps[2] == path@[2]@);
                        let n = p as u64;
                        assert(path@[2]@ == text::decimal(n as nat));
                        text::decimal_is_canonical(n as nat);
                    },
                    _ => {},
                }
            }
        }
    }
    Err(unknown_path(path))
}

/// What an ingest command asks for.
#[derive(Debug)]
pub struct IngestCommand {
    pub temporary: bool,
    pub in_transaction: bool,
    pub catalog: Option<String>,
    pub schema: Option<String>,
    pub table: String,
}

/// The namespace of an ingest command: its catalog unless absent or empty.
pub open spec fn command_namespace(cmd: IngestCommand, default_ns: Seq<char>) -> Seq<char> {
    match cmd.catalog {
        Some(c) => if c@.len() > 0 {
            c@
        } else {
            default_ns
        },
        None => default_ns,
    }
}

/// The target of an ingest command, or its error.
pub open spec fn command_target(cmd: IngestCommand) -> Result<TargetV, Failure> {
    if cmd.temporary {
        Err(Failure::InvalidArgument("temporary tables are not supported"@))
    } else if cmd.in_transaction {
        Err(Failure::InvalidArgument("transactions are not supported"@))
    } else {
        match cmd.schema {
            None => Ok(TargetV::Collection { name: cmd.table@ }),
            Some(s) => if s@ == PUT_COLLECTIONS@ {
                Ok(TargetV::Collection { name: cmd.table@ })
            } else if s@ == PUT_STREAMS@ {
                Ok(TargetV::Stream { name: cmd.table@, partition: None })
            } else {
                Err(
                    Failure::InvalidArgument(
                        "unknown schema "@ + s@ + ": use collections or streams"@,
                    ),
                )
            },
        }
    }
}

/// The namespace and the target of an ingest command.
pub fn put_target_from_ingest(cmd: &IngestCommand, default_ns: &str) -> (r: Result<
    (String, PutTarget),
    ServiceError,
>)
    ensures
        match r {
            Ok((ns, t)) => ns@ == command_namespace(*cmd, default_ns@) && command_target(*cmd)
                == Ok::<TargetV, Failure>(t@),
            Err(e) => command_target(*cmd) == Err::<TargetV, Failure>(e@),
        },
{
    if cmd.temporary {
        return Err(error::invalid("temporary tables are not supported".to_owned()));
    }
    if cmd.in_transaction {
        return Err(error::invalid("transactions are not supported".to_owned()));
    }
    let ns = match &cmd.catalog {
        Some(c) => if c.as_str().unicode_len() > 0 {
            c.clone()
        } else {
            default_ns.to_owned()
        },
        None => default_ns.to_owned(),
    };
    match &cmd.schema {
        None => Ok((ns, PutTarget::Collection { name: cmd.table.clone() })),
        Some(s) => if text::same(s, PUT_COLLECTIONS) {
            Ok((ns, PutTarget::Collection { name: cmd.table.clone() }))
        } else if text::same(s, PUT_STREAMS) {
            Ok((ns, PutTarget::Stream { name: cmd.table.clone(), partition: None }))
        } else {
            Err(error::invalid(text::cat3("unknown schema ", s, ": use collections or streams")))
        },
    }
}

/// What an ingest does with a target that exists.
#[derive(Clone, Copy, Debug, PartialEq, Eq, Structural)]
pub enum IfExists {
    Unspecified,
    Fail,
    Append,
    Replace,
}

/// What an ingest does with a target that does not exist.
#[derive(Clone, Copy, Debug, PartialEq, Eq, Structural)]
pub enum IfNotExist {
    Unspecified,
    Create,
    Fail,
}

/// `TableExistsOption::try_from` of a command's number: one is to fail, two
/// to append, three to replace; every other number counts as unspecified.
#[verifier::external_body]
fn exists_option(n: i32) -> (r: IfExists)
    ensures
        r == (if n == 1 {
            IfExists::Fail
        } else if n == 2 {
            IfExists::Append
        } else if n == 3 {
            IfExists::Replace
        } else {
            IfExists::Unspecified
        }),
{
    match arrow_flight::sql::TableExistsOption::try_from(n) {
        Ok(arrow_flight::sql::TableExistsOption::Fail) => IfExists::Fail,
        Ok(arrow_flight::sql::TableExistsOption::Append) => IfExists::Append,
        Ok(arrow_flight::sql::TableExistsOption::Replace) => IfExists::Replace,
        Ok(arrow_flight::sql::TableExistsOption::Unspecified) => IfExists::Unspecified,
        Err(_) => IfExists::Unspecified,
    }
}

/// `TableNotExistOption::try_from` of a command's number: one is to create,
/// two to fail; every other number counts as unspecified.
#[verifier::external_body]
fn not_exist_option(n: i32) -> (r: IfNotExist)
    ensures
        r == (if n == 1 {
            IfNotExist::Create
        } else if n == 2 {
            IfNotExist::Fail
        } else {
            IfNotExist::Unspecified
        }),
{
    match arrow_flight::sql::TableNotExistOption::try_from(n) {
        Ok(arrow_flight::sql::TableNotExistOption::Create) => IfNotExist::Create,
        Ok(arrow_flight::sql::TableNotExistOption::Fail) => IfNotExist::Fail,
        Ok(arrow_flight::sql::TableNotExistOption::Unspecified) => IfNotExist::Unspecified,
        Err(_) => IfNotExist::Unspecified,
    }
}

/// The numbers of a command's table options.
#[derive(Clone, Copy, Debug)]
pub struct TableOptions {
    pub if_exists: i32,
    pub if_not_exist: i32,
}

/// What an ingest does with its target.
#[derive(Clone, Copy, Debug, PartialEq, Eq, Structural)]
pub enum IngestAction {
    /// Load the existing target.
    Append,
    /// Create the collection from the batches' schema, then load it.
    Create,
}

/// What options say: to replace is never possible; an existing target is
/// loaded unless the command fails on it; a missing one is made only where
/// the command creates it and it is a collection. A missing stream is a
/// missing object, the kind of what has none of its own.
pub open spec fn action_of(
    options: Option<TableOptions>,
    target: TargetV,
    exists_: bool,
) -> Result<IngestAction, Failure> {
    let (if_exists, if_not_exist) = match options {
        Some(o) => (o.if_exists, o.if_not_exist),
        None => (0i32, 0i32),
    };
    let (name, kind) = match target {
        TargetV::Collection { name } => (name, "collection"@),
        TargetV::Stream { name, .. } => (name, "object"@),
    };
    if if_exists == 3 {
        Err(
            Failure::InvalidArgument(
                "replace is not supported: drop the collection through the native API, then ingest with create"@,
            ),
        )
    } else if exists_ {
        if if_exists == 1 {
            Err(Failure::AlreadyExists(name))
        } else {
            Ok(IngestAction::Append)
        }
    } else if if_not_exist == 1 {
        if target is Collection {
            Ok(IngestAction::Create)
        } else {
            Err(Failure::InvalidArgument("create streams through the native API"@))
        }
    } else {
        Err(Failure::NotFound { kind, name })
    }
}

/// What an ingest does with its target.
pub fn ingest_action(options: Option<TableOptions>, target: &PutTarget, exists_: bool) -> (r: Result<
    IngestAction,
    ServiceError,
>)
    ensures
        match r {
            Ok(a) => action_of(options, target@, exists_) == Ok::<IngestAction, Failure>(a),
            Err(e) => action_of(options, target@, exists_) == Err::<IngestAction, Failure>(e@) && (e@
                matches Failure::NotFound { kind, .. } ==> error::not_found_kinds().contains(kind)),
        },
{
    proof {
        let kinds = error::not_found_kinds();
        assert(kinds[1] == "collection"@ && kinds[7] == "object"@);
    }
    let (if_exists, if_not_exist) = match options {
        Some(o) => (exists_option(o.if_exists), not_exist_option(o.if_not_exist)),
        None => (IfExists::Unspecified, IfNotExist::Unspecified),
    };
    if if_exists == IfExists::Replace {
        return Err(
            error::invalid(
                "replace is not supported: drop the collection through the native API, then ingest with create".to_owned(),
            ),
        );
    }
    if exists_ {
        if if_exists == IfExists::Fail {
            return match target {
                PutTarget::Collection { name } => Err(ServiceError::AlreadyExists(name.clone())),
                PutTarget::Stream { name, .. } => Err(ServiceError::AlreadyExists(name.clone())),
            };
        }
        return Ok(IngestAction::Append);
    }
    match target {
        PutTarget::Collection { name } => if if_not_exist == IfNotExist::Create {
            Ok(IngestAction::Create)
        } else {
            Err(ServiceError::NotFound { kind: "collection", name: name.clone() })
        },
        PutTarget::Stream { name, .. } => if if_not_exist == IfNotExist::Create {
            Err(error::invalid("create streams through the native API".to_owned()))
        } else {
            Err(ServiceError::NotFound { kind: "object", name: name.clone() })
        },
    }
}

} // verus!
