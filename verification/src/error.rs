//! The one error type of the service's operations, and its JSON body.

use crate::json::value;
use crate::json::value::{Json, Tree};
use crate::text;
use vstd::prelude::*;
use vstd::string::*;

verus! {

/// Why a service call failed. Every variant has one code and one HTTP
/// status.
#[derive(Debug)]
pub enum ServiceError {
    NotFound { kind: &'static str, name: String },
    AlreadyExists(String),
    InvalidArgument(String),
    SchemaViolation { field: String, message: String },
    Unavailable(String),
    Timeout,
    Internal(String),
}

/// What an error says.
pub enum Failure {
    NotFound { kind: Seq<char>, name: Seq<char> },
    AlreadyExists(Seq<char>),
    InvalidArgument(Seq<char>),
    SchemaViolation { field: Seq<char>, message: Seq<char> },
    Unavailable(Seq<char>),
    Timeout,
    Internal(Seq<char>),
}

impl View for ServiceError {
    type V = Failure;

    open spec fn view(&self) -> Failure {
        match self {
            ServiceError::NotFound { kind, name } => Failure::NotFound { kind: kind@, name: name@ },
            ServiceError::AlreadyExists(m) => Failure::AlreadyExists(m@),
            ServiceError::InvalidArgument(m) => Failure::InvalidArgument(m@),
            ServiceError::SchemaViolation { field, message } => Failure::SchemaViolation {
                field: field@,
                message: message@,
            },
            ServiceError::Unavailable(m) => Failure::Unavailable(m@),
            ServiceError::Timeout => Failure::Timeout,
            ServiceError::Internal(m) => Failure::Internal(m@),
        }
    }
}

/// The kinds that a missing object has in a body.
pub const NOT_FOUND_KINDS: [&'static str; 8] = [
    "namespace",
    "collection",
    "alias",
    "pin",
    "document",
    "field",
    "vector",
    "object",
];

/// The kinds that a missing object has in a body.
pub open spec fn not_found_kinds() -> Seq<Seq<char>> {
    Seq::new(8, |i: int| NOT_FOUND_KINDS@[i]@)
}

/// The kind that a body's `kind` reads as.
pub open spec fn known_kind(kind: Seq<char>) -> Seq<char> {
    if not_found_kinds().contains(kind) {
        kind
    } else {
        "object"@
    }
}

/// The known kind of a text.
fn kind_named(kind: &str) -> (r: &'static str)
    ensures
        r@ == known_kind(kind@),
{
    let ghost all = not_found_kinds();
    proof {
        assert(all[0] == "namespace"@ && all[1] == "collection"@ && all[2] == "alias"@ && all[3]
            == "pin"@ && all[4] == "document"@ && all[5] == "field"@ && all[6] == "vector"@
            && all[7] == "object"@);
        assert(all.contains(kind@) ==> exists|i: int| 0 <= i < 8 && all[i] == kind@);
    }
    if text::same(kind, "namespace") {
        "namespace"
    } else if text::same(kind, "collection") {
        "collection"
    } else if text::same(kind, "alias") {
        "alias"
    } else if text::same(kind, "pin") {
        "pin"
    } else if text::same(kind, "document") {
        "document"
    } else if text::same(kind, "field") {
        "field"
    } else if text::same(kind, "vector") {
        "vector"
    } else {
        "object"
    }
}

/// The code of an error.
pub open spec fn code_of(f: Failure) -> Seq<char> {
    match f {
        Failure::NotFound { .. } => "not_found"@,
        Failure::AlreadyExists(_) => "already_exists"@,
        Failure::InvalidArgument(_) => "invalid_argument"@,
        Failure::SchemaViolation { .. } => "schema_violation"@,
        Failure::Unavailable(_) => "unavailable"@,
        Failure::Timeout => "timeout"@,
        Failure::Internal(_) => "internal"@,
    }
}

/// The message of an error.
pub open spec fn message_of(f: Failure) -> Seq<char> {
    match f {
        Failure::NotFound { kind, name } => kind + " "@ + text::debug_text(name) + " not found"@,
        Failure::AlreadyExists(m) => "already exists: "@ + m,
        Failure::InvalidArgument(m) => "invalid argument: "@ + m,
        Failure::SchemaViolation { field, message } => violation_prefix(field) + message,
        Failure::Unavailable(m) => "unavailable: "@ + m,
        Failure::Timeout => "timed out"@,
        Failure::Internal(m) => "internal error: "@ + m,
    }
}

/// What the message of a schema violation begins with.
pub open spec fn violation_prefix(field: Seq<char>) -> Seq<char> {
    "schema violation on "@ + field + ": "@
}

/// The body of an error.
pub open spec fn body_of(f: Failure) -> Tree {
    let error = ("error"@, Tree::Text(code_of(f)));
    let message = ("message"@, Tree::Text(message_of(f)));
    Tree::Object(
        match f {
            Failure::NotFound { kind, name } => seq![
                error,
                ("kind"@, Tree::Text(kind)),
                message,
                ("name"@, Tree::Text(name)),
            ],
            Failure::SchemaViolation { field, .. } => seq![
                error,
                ("field"@, Tree::Text(field)),
                message,
            ],
            _ => seq![error, message],
        },
    )
}

/// The text of `key` in a body, empty when there is none.
pub open spec fn text_or_empty(entries: Seq<(Seq<char>, Tree)>, key: Seq<char>) -> Seq<char> {
    match value::string_in(value::lookup(entries, key)) {
        Some(s) => s,
        None => ""@,
    }
}

/// A message without the prefix of its error, when it carries it.
pub open spec fn detail(message: Seq<char>, prefix: Seq<char>) -> Seq<char> {
    match text::without_prefix(message, prefix) {
        Some(rest) => rest,
        None => message,
    }
}

/// The error that a body describes.
pub open spec fn read_body(body: Tree) -> Option<Failure> {
    match body {
        Tree::Object(entries) => {
            let message = text_or_empty(entries, "message"@);
            match value::string_in(value::lookup(entries, "error"@)) {
                None => None,
                Some(code) => if code == "not_found"@ {
                    let kind = match value::string_in(value::lookup(entries, "kind"@)) {
                        Some(kind) => kind,
                        None => "object"@,
                    };
                    Some(
                        Failure::NotFound {
                            kind: known_kind(kind),
                            name: text_or_empty(entries, "name"@),
                        },
                    )
                } else if code == "already_exists"@ {
                    Some(Failure::AlreadyExists(detail(message, "already exists: "@)))
                } else if code == "invalid_argument"@ {
                    Some(Failure::InvalidArgument(detail(message, "invalid argument: "@)))
                } else if code == "schema_violation"@ {
                    let field = text_or_empty(entries, "field"@);
                    Some(
                        Failure::SchemaViolation {
                            field,
                            message: detail(message, violation_prefix(field)),
                        },
                    )
                } else if code == "unavailable"@ {
                    Some(Failure::Unavailable(detail(message, "unavailable: "@)))
                } else if code == "timeout"@ {
                    Some(Failure::Timeout)
                } else if code == "internal"@ {
                    Some(Failure::Internal(detail(message, "internal error: "@)))
                } else {
                    None
                },
            }
        },
        _ => None,
    }
}

/// The string at `key`, if the body has one there.
fn text_at<'a>(entries: &'a Vec<(String, Json)>, key: &str) -> (r: Option<&'a str>)
    ensures
        match r {
            Some(s) => value::string_in(value::lookup(value::entries_of(entries@), key@)) == Some(
                s@,
            ),
            None => value::string_in(value::lookup(value::entries_of(entries@), key@)) is None,
        },
{
    match value::find(entries, key) {
        Some(v) => v.as_str(),
        None => None,
    }
}

/// The string at `key`, empty when there is none.
fn text_or(entries: &Vec<(String, Json)>, key: &str) -> (r: String)
    ensures
        r@ == text_or_empty(value::entries_of(entries@), key@),
{
    match text_at(entries, key) {
        Some(s) => s.to_owned(),
        None => "".to_owned(),
    }
}

fn without(message: &str, prefix: &str) -> (r: String)
    ensures
        r@ == detail(message@, prefix@),
{
    match text::strip_prefix(message, prefix) {
        Some(rest) => rest.to_owned(),
        None => message.to_owned(),
    }
}

/// An invalid argument with its message.
pub fn invalid(message: String) -> (r: ServiceError)
    ensures
        r@ == Failure::InvalidArgument(message@),
{
    ServiceError::InvalidArgument(message)
}

impl ServiceError {
    /// A copy of the error.
    pub fn copy(&self) -> (r: ServiceError)
        ensures
            r@ == self@,
    {
        match self {
            ServiceError::NotFound { kind, name } => ServiceError::NotFound {
                kind: *kind,
                name: name.clone(),
            },
            ServiceError::AlreadyExists(m) => ServiceError::AlreadyExists(m.clone()),
            ServiceError::InvalidArgument(m) => ServiceError::InvalidArgument(m.clone()),
            ServiceError::SchemaViolation { field, message } => ServiceError::SchemaViolation {
                field: field.clone(),
                message: message.clone(),
            },
            ServiceError::Unavailable(m) => ServiceError::Unavailable(m.clone()),
            ServiceError::Timeout => ServiceError::Timeout,
            ServiceError::Internal(m) => ServiceError::Internal(m.clone()),
        }
    }

    /// The body's `error` value.
    pub fn code(&self) -> (r: &'static str)
        ensures
            r@ == code_of(self@),
    {
        match self {
            ServiceError::NotFound { .. } => "not_found",
            ServiceError::AlreadyExists(_) => "already_exists",
            ServiceError::InvalidArgument(_) => "invalid_argument",
            ServiceError::SchemaViolation { .. } => "schema_violation",
            ServiceError::Unavailable(_) => "unavailable",
            ServiceError::Timeout => "timeout",
            ServiceError::Internal(_) => "internal",
        }
    }

    /// The status of the native REST surface.
    pub fn http_status(&self) -> (r: u16)
        ensures
            r == (match self@ {
                Failure::NotFound { .. } => 404u16,
                Failure::AlreadyExists(_) => 409,
                Failure::InvalidArgument(_) => 400,
                Failure::SchemaViolation { .. } => 400,
                Failure::Unavailable(_) => 503,
                Failure::Timeout => 504,
                Failure::Internal(_) => 500,
            }),
    {
        match self {
            ServiceError::NotFound { .. } => 404,
            ServiceError::AlreadyExists(_) => 409,
            ServiceError::InvalidArgument(_) => 400,
            ServiceError::SchemaViolation { .. } => 400,
            ServiceError::Unavailable(_) => 503,
            ServiceError::Timeout => 504,
            ServiceError::Internal(_) => 500,
        }
    }

    /// Whether the same call may succeed later.
    pub fn is_retryable(&self) -> (r: bool)
        ensures
            r == (self@ is Unavailable || self@ is Timeout),
    {
        match self {
            ServiceError::Unavailable(_) => true,
            ServiceError::Timeout => true,
            _ => false,
        }
    }

    /// The message that the error shows.
    pub fn message(&self) -> (r: String)
        ensures
            r@ == message_of(self@),
    {
        match self {
            ServiceError::NotFound { kind, name } => {
                let mut out = (*kind).to_owned();
                out.append(" ");
                out.append(text::debug_of(name.as_str()).as_str());
                out.append(" not found");
                out
            },
            ServiceError::AlreadyExists(m) => text::cat2("already exists: ", m.as_str()),
            ServiceError::InvalidArgument(m) => text::cat2("invalid argument: ", m.as_str()),
            ServiceError::SchemaViolation { field, message } => {
                let prefix = text::cat3("schema violation on ", field.as_str(), ": ");
                text::cat2(prefix.as_str(), message.as_str())
            },
            ServiceError::Unavailable(m) => text::cat2("unavailable: ", m.as_str()),
            ServiceError::Timeout => "timed out".to_owned(),
            ServiceError::Internal(m) => text::cat2("internal error: ", m.as_str()),
        }
    }

    /// `{"error": code, "message": message}`, with `kind` and `name` for a
    /// missing object and `field` for a schema violation.
    pub fn to_body(&self) -> (r: Json)
        ensures
            r@ == body_of(self@),
    {
        broadcast use {crate::json::value::view_object, crate::json::value::view_array};

        let message = value::string(self.message().as_str());
        let mut entries: Vec<(String, Json)> = Vec::new();
        entries.push(("error".to_owned(), value::string(self.code())));
        match self {
            ServiceError::NotFound { kind, name } => {
                entries.push(("kind".to_owned(), value::string(*kind)));
                entries.push(("message".to_owned(), message));
                entries.push(("name".to_owned(), value::string(name.as_str())));
            },
            ServiceError::SchemaViolation { field, .. } => {
                entries.push(("field".to_owned(), value::string(field.as_str())));
                entries.push(("message".to_owned(), message));
            },
            _ => {
                entries.push(("message".to_owned(), message));
            },
        }
        proof {
            assert(value::entries_of(entries@) =~= body_of(self@)->Object_0);
        }
        Json::Object(entries)
    }

    /// The error that a [`ServiceError::to_body`] body describes; `None` for
    /// a body that is not an object with a known `error` code.
    pub fn from_body(body: &Json) -> (r: Option<ServiceError>)
        ensures
            match r {
                Some(e) => read_body(body@) == Some(e@),
                None => read_body(body@) is None,
            },
    {
        let entries = match body.as_object() {
            Some(entries) => entries,
            None => {
                return None;
            },
        };
        let message = text_or(entries, "message");
        let code = match text_at(entries, "error") {
            Some(code) => code,
            None => {
                return None;
            },
        };
        if text::same(code, "not_found") {
            let kind = match text_at(entries, "kind") {
                Some(kind) => kind_named(kind),
                None => kind_named("object"),
            };
            Some(ServiceError::NotFound { kind, name: text_or(entries, "name") })
        } else if text::same(code, "already_exists") {
            Some(ServiceError::AlreadyExists(without(message.as_str(), "already exists: ")))
        } else if text::same(code, "invalid_argument") {
            Some(ServiceError::InvalidArgument(without(message.as_str(), "invalid argument: ")))
        } else if text::same(code, "schema_violation") {
            let field = text_or(entries, "field");
            let prefix = text::cat3("schema violation on ", field.as_str(), ": ");
            Some(
                ServiceError::SchemaViolation {
                    message: without(message.as_str(), prefix.as_str()),
                    field,
                },
            )
        } else if text::same(code, "unavailable") {
            Some(ServiceError::Unavailable(without(message.as_str(), "unavailable: ")))
        } else if text::same(code, "timeout") {
            Some(ServiceError::Timeout)
        } else if text::same(code, "internal") {
            Some(ServiceError::Internal(without(message.as_str(), "internal error: ")))
        } else {
            None
        }
    }
}

/// The codes differ, and so do the keys of a body.
proof fn literals_differ()
    ensures
        "not_found"@ != "already_exists"@,
        "not_found"@ != "invalid_argument"@,
        "not_found"@ != "schema_violation"@,
        "not_found"@ != "unavailable"@,
        "not_found"@ != "timeout"@,
        "not_found"@ != "internal"@,
        "already_exists"@ != "invalid_argument"@,
        "already_exists"@ != "schema_violation"@,
        "already_exists"@ != "unavailable"@,
        "already_exists"@ != "timeout"@,
        "already_exists"@ != "internal"@,
        "invalid_argument"@ != "schema_violation"@,
        "invalid_argument"@ != "unavailable"@,
        "invalid_argument"@ != "timeout"@,
        "invalid_argument"@ != "internal"@,
        "schema_violation"@ != "unavailable"@,
        "schema_violation"@ != "timeout"@,
        "schema_violation"@ != "internal"@,
        "unavailable"@ != "timeout"@,
        "unavailable"@ != "internal"@,
        "timeout"@ != "internal"@,
        "error"@ != "kind"@,
        "error"@ != "message"@,
        "error"@ != "name"@,
        "error"@ != "field"@,
        "kind"@ != "message"@,
        "kind"@ != "name"@,
        "message"@ != "name"@,
        "message"@ != "field"@,
{
    reveal_strlit("not_found");
    reveal_strlit("already_exists");
    reveal_strlit("invalid_argument");
    reveal_strlit("schema_violation");
    reveal_strlit("unavailable");
    reveal_strlit("timeout");
    reveal_strlit("internal");
    reveal_strlit("error");
    reveal_strlit("kind");
    reveal_strlit("message");
    reveal_strlit("name");
    reveal_strlit("field");
    assert("not_found"@[0] == 'n' && "already_exists"@[0] == 'a' && "invalid_argument"@[2] == 'v'
        && "internal"@[2] == 't' && "internal"@[0] == 'i' && "schema_violation"@[0] == 's'
        && "unavailable"@[0] == 'u' && "timeout"@[0] == 't' && "invalid_argument"@[0] == 'i');
    assert("error"@[0] == 'e' && "kind"@[0] == 'k' && "message"@[0] == 'm' && "name"@[0] == 'n'
        && "field"@[0] == 'f');
}

/// An error's body reads back as the error, when a missing object's kind is
/// one of the known ones.
pub proof fn body_round_trip(f: Failure)
    requires
        f matches Failure::NotFound { kind, .. } ==> not_found_kinds().contains(kind),
    ensures
        read_body(body_of(f)) == Some(f),
{
    broadcast use crate::text::prefix_of_sum;

    literals_differ();
    let entries = body_of(f)->Object_0;
    reveal_with_fuel(value::lookup, 5);
    assert(entries[0].0 == "error"@);
    match f {
        Failure::NotFound { kind, name } => {
            assert(entries.drop_first().drop_first().drop_first()[0].0 == "name"@);
        },
        Failure::SchemaViolation { field, message } => {
            assert(entries.drop_first().drop_first()[0].0 == "message"@);
        },
        _ => {
            assert(entries.drop_first()[0].0 == "message"@);
        },
    }
}

} // verus!
