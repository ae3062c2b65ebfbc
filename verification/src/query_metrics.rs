//! Query-execution metric events: where a query ran, what kind of event
//! and statement it was, and a timer handle for measuring phases of its
//! execution.

use vstd::prelude::*;

verus! {

/// An error raised while interpreting metric labels.
#[derive(Clone, Copy, Debug, PartialEq, Eq, Structural)]
pub enum MetricsError {
    /// A string names no known query destination.
    InvalidQueryDestination,
}

/// Where a query ended up executing.
#[derive(Debug, PartialEq, Eq, Structural, Clone, Copy, Default)]
pub enum QueryDestination {
    #[default]
    Readyset,
    ReadysetThenUpstream,
    Upstream,
    Both,
}

/// Compare two strings by content.
fn str_eq(a: &str, b: &str) -> (r: bool)
    ensures
        r == (a@ == b@),
{
    let sa = String::from_str(a);
    let sb = String::from_str(b);
    sa.eq(&sb)
}

impl QueryDestination {
    /// Parse a destination label; exactly the four known labels are
    /// accepted.
    pub fn try_from_str(value: &str) -> (r: Result<QueryDestination, MetricsError>)
        ensures
            r == (if value@ == "readyset"@ {
                Ok::<QueryDestination, MetricsError>(QueryDestination::Readyset)
            } else if value@ == "readyset_then_upstream"@ {
                Ok::<QueryDestination, MetricsError>(QueryDestination::ReadysetThenUpstream)
            } else if value@ == "upstream"@ {
                Ok::<QueryDestination, MetricsError>(QueryDestination::Upstream)
            } else if value@ == "both"@ {
                Ok::<QueryDestination, MetricsError>(QueryDestination::Both)
            } else {
                Err::<QueryDestination, MetricsError>(MetricsError::InvalidQueryDestination)
            }),
    {
        if str_eq(value, "readyset") {
            Ok(QueryDestination::Readyset)
        } else if str_eq(value, "readyset_then_upstream") {
            Ok(QueryDestination::ReadysetThenUpstream)
        } else if str_eq(value, "upstream") {
            Ok(QueryDestination::Upstream)
        } else if str_eq(value, "both") {
            Ok(QueryDestination::Both)
        } else {
            Err(MetricsError::InvalidQueryDestination)
        }
    }

    /// The label this destination is recorded under.
    pub fn label(&self) -> (r: &'static str)
        ensures
            r@ == match *self {
                QueryDestination::Readyset => "readyset"@,
                QueryDestination::ReadysetThenUpstream => "readyset_then_upstream"@,
                QueryDestination::Upstream => "upstream"@,
                QueryDestination::Both => "both"@,
            },
    {
        match self {
            QueryDestination::Readyset => "readyset",
            QueryDestination::ReadysetThenUpstream => "readyset_then_upstream",
            QueryDestination::Upstream => "upstream",
            QueryDestination::Both => "both",
        }
    }
}

/// The protocol phase a query execution event belongs to.
#[derive(Copy, Debug, Clone, PartialEq, Eq, Structural)]
pub enum EventType {
    Prepare,
    Execute,
    Query,
}

impl EventType {
    /// The label this event type is recorded under.
    pub fn label(&self) -> (r: &'static str)
        ensures
            r@ == match *self {
                EventType::Prepare => "prepare"@,
                EventType::Execute => "execute"@,
                EventType::Query => "query"@,
            },
    {
        match self {
            EventType::Prepare => "prepare",
            EventType::Execute => "execute",
            EventType::Query => "query",
        }
    }
}

/// The kind of a SQL query.
#[derive(Copy, Clone, Debug, PartialEq, Eq, Structural)]
pub enum SqlQueryType {
    Read,
    Write,
    Other,
}

impl SqlQueryType {
    /// The label this query type is recorded under.
    pub fn label(&self) -> (r: &'static str)
        ensures
            r@ == match *self {
                SqlQueryType::Read => "read"@,
                SqlQueryType::Write => "write"@,
                SqlQueryType::Other => "other"@,
            },
    {
        match self {
            SqlQueryType::Read => "read",
            SqlQueryType::Write => "write",
            SqlQueryType::Other => "other",
        }
    }
}

/// The database a metric corresponds to.
#[derive(Debug, Clone, Copy, PartialEq, Eq, Structural)]
pub enum DatabaseType {
    MySql,
    Psql,
    ReadySet,
}

impl DatabaseType {
    /// The label this database type is recorded under.
    pub fn label(&self) -> (r: &'static str)
        ensures
            r@ == match *self {
                DatabaseType::MySql => "mysql"@,
                DatabaseType::Psql => "psql"@,
                DatabaseType::ReadySet => "readyset"@,
            },
    {
        match self {
            DatabaseType::MySql => "mysql",
            DatabaseType::Psql => "psql",
            DatabaseType::ReadySet => "readyset",
        }
    }
}

#[verifier::external_type_specification]
#[verifier::external_body]
pub struct ExInstant(std::time::Instant);

/// Relies on `std::time::Instant::now`: an opaque reading of the
/// monotonic clock, about which nothing further can be promised.
#[verifier::external_body]
fn instant_now() -> std::time::Instant {
    std::time::Instant::now()
}

/// Relies on `std::time::Instant::elapsed`: the (opaque) time since this
/// instant was taken.
#[verifier::external_body]
fn instant_elapsed(start: &std::time::Instant) -> std::time::Duration {
    start.elapsed()
}

/// A handle measuring one phase of a query's execution: it captures the
/// clock when created and yields the elapsed duration when finished.
pub struct QueryExecutionTimerHandle {
    start: std::time::Instant,
}

impl QueryExecutionTimerHandle {
    /// Start timing now.
    pub fn new() -> QueryExecutionTimerHandle {
        QueryExecutionTimerHandle { start: instant_now() }
    }

    /// Stop timing and yield the elapsed duration.
    pub fn finish(self) -> std::time::Duration {
        instant_elapsed(&self.start)
    }
}

} // verus!
