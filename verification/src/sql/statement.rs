//! How statements run: what a failed one is answered with, and where its
//! rows are cut.

use crate::error::{Failure, ServiceError};
use crate::text;
use vstd::prelude::*;
use vstd::string::*;

verus! {

/// The one schema of every namespace's catalog.
pub const COLLECTIONS_SCHEMA: &'static str = "collections";

/// The search functions.
pub const SQL_SEARCH_FUNCTIONS: [&'static str; 5] = [
    "vector_search",
    "text_search",
    "hybrid_search",
    "rrf",
    "rerank",
];

/// How many hits a search function gives that is not told.
pub const SQL_DEFAULT_K: usize = 1_000;

/// What a statement's own error is answered with.
pub open spec fn statement_failure(shown: Seq<char>) -> Failure {
    Failure::InvalidArgument("sql: "@ + shown)
}

/// A planning error: the error of the service that it carries, else the
/// caller's.
pub fn planning(carried: Option<ServiceError>, shown: &str) -> (r: ServiceError)
    ensures
        match carried {
            Some(e) => r == e,
            None => r@ == statement_failure(shown@),
        },
{
    match carried {
        Some(e) => e,
        None => ServiceError::InvalidArgument(text::cat2("sql: ", shown)),
    }
}

/// An execution error: the error of the service that it carries; that of the
/// engine where it is at fault or exhausted; else the caller's.
pub fn execution(carried: Option<ServiceError>, engine: bool, shown: &str) -> (r: ServiceError)
    ensures
        match carried {
            Some(e) => r == e,
            None => r@ == (if engine {
                Failure::Internal("sql: "@ + shown@)
            } else {
                statement_failure(shown@)
            }),
        },
{
    match carried {
        Some(e) => e,
        None => if engine {
            ServiceError::Internal(text::cat2("sql: ", shown))
        } else {
            ServiceError::InvalidArgument(text::cat2("sql: ", shown))
        },
    }
}

/// The error of a statement that would change something.
pub fn not_read_only(shown: &str) -> (r: ServiceError)
    ensures
        r@ == Failure::InvalidArgument("only read-only queries are allowed: "@ + shown@),
{
    ServiceError::InvalidArgument(text::cat2("only read-only queries are allowed: ", shown))
}

/// What is done with a batch of a result.
#[derive(Clone, Copy, Debug, PartialEq, Eq, Structural)]
pub enum Cut {
    /// It is empty.
    Skip,
    /// Its first rows are the result's.
    Take(usize),
    /// Nothing of it is, and the result ends.
    Stop,
}

/// How much of a result was taken.
#[derive(Clone, Copy, Debug, PartialEq, Eq, Structural)]
pub struct Taken {
    pub max_rows: usize,
    pub rows: usize,
    /// More rows existed than were taken.
    pub truncated: bool,
}

/// How much is taken after one more batch.
pub open spec fn after(t: Taken, batch: usize) -> Taken {
    if t.truncated {
        t
    } else if t.rows + batch <= t.max_rows {
        Taken { rows: (t.rows + batch) as usize, ..t }
    } else {
        Taken { rows: t.max_rows, truncated: true, ..t }
    }
}

impl Taken {
    /// Nothing taken yet, of at most so many rows.
    pub fn none(max_rows: usize) -> (r: Taken)
        ensures
            r == (Taken { max_rows, rows: 0, truncated: false }),
    {
        Taken { max_rows, rows: 0, truncated: false }
    }

    /// What is done with the next batch of so many rows.
    pub fn take(&mut self, batch: usize) -> (r: Cut)
        requires
            old(self).rows <= old(self).max_rows,
            !old(self).truncated,
        ensures
            *final(self) == after(*old(self), batch),
            r == (if batch == 0 {
                Cut::Skip
            } else if old(self).rows == old(self).max_rows {
                Cut::Stop
            } else {
                Cut::Take((final(self).rows - old(self).rows) as usize)
            }),
    {
        if batch == 0 {
            return Cut::Skip;
        }
        if self.rows == self.max_rows {
            self.truncated = true;
            return Cut::Stop;
        }
        let left: usize = self.max_rows - self.rows;
        let n: usize = if batch <= left {
            batch
        } else {
            left
        };
        if n < batch {
            self.truncated = true;
        }
        self.rows = self.rows + n;
        Cut::Take(n)
    }
}

/// The rows of the first batches.
pub open spec fn row_sum(batches: Seq<usize>, n: nat) -> nat
    decreases n,
{
    if n == 0 || n > batches.len() {
        0
    } else {
        row_sum(batches, (n - 1) as nat) + batches[n - 1] as nat
    }
}

/// How much is taken of the first batches.
pub open spec fn taken_of(batches: Seq<usize>, max_rows: usize, n: nat) -> Taken
    decreases n,
{
    if n == 0 || n > batches.len() {
        Taken { max_rows, rows: 0, truncated: false }
    } else {
        after(taken_of(batches, max_rows, (n - 1) as nat), batches[n - 1])
    }
}

/// A result has as many rows as the statement gives, at most those allowed,
/// and says that it was cut just where there were more.
pub proof fn results_are_cut(batches: Seq<usize>, max_rows: usize, n: nat)
    requires
        n <= batches.len(),
    ensures
        taken_of(batches, max_rows, n).rows == (if row_sum(batches, n) <= max_rows {
            row_sum(batches, n)
        } else {
            max_rows as nat
        }),
        taken_of(batches, max_rows, n).truncated == (row_sum(batches, n) > max_rows),
        taken_of(batches, max_rows, n).max_rows == max_rows,
    decreases n,
{
    if n > 0 {
        results_are_cut(batches, max_rows, (n - 1) as nat);
    }
}

/// Whether a catalog has a schema.
pub fn has_schema(name: &str) -> (r: bool)
    ensures
        r == (name@ == COLLECTIONS_SCHEMA@),
{
    text::same(name, COLLECTIONS_SCHEMA)
}

/// A table of what a name resolved to: none where nothing has that name.
pub fn table<T>(resolved: Result<T, ServiceError>) -> (r: Result<Option<T>, ServiceError>)
    ensures
        r == (match resolved {
            Ok(t) => Ok::<Option<T>, ServiceError>(Some(t)),
            Err(ServiceError::NotFound { .. }) => Ok(None),
            Err(e) => Err(e),
        }),
{
    match resolved {
        Ok(t) => Ok(Some(t)),
        Err(ServiceError::NotFound { .. }) => Ok(None),
        Err(e) => Err(e),
    }
}

/// Whether a table is among the names of a namespace.
pub fn table_exists(names: &Vec<String>, name: &str) -> (r: bool)
    ensures
        r == !text::absent(text::texts(names@), name@),
{
    match text::find(names, name) {
        Some(i) => {
            assert(text::texts(names@)[i as int] == name@);
            true
        },
        None => false,
    }
}

} // verus!
