//! Access history vocabulary: event types, query scopes and the recording configuration.

use vstd::prelude::*;
use vstd::string::StringExecFns;
use crate::text::str_eq;

verus! {

/// Type of access event recorded in the access history.
#[derive(Debug, Clone, Copy, PartialEq, Eq, Structural)]
pub enum AccessEventType {
    Read,
    Write,
    Watch,
    FederatedRead,
    AiWrite,
}

/// The text form of each `AccessEventType`.
pub open spec fn access_event_type_name(x: AccessEventType) -> Seq<char> {
    match x {
        AccessEventType::Read => "read"@,
        AccessEventType::Write => "write"@,
        AccessEventType::Watch => "watch"@,
        AccessEventType::FederatedRead => "federated_read"@,
        AccessEventType::AiWrite => "ai_write"@,
    }
}

/// The `AccessEventType` that a text names, if any.
pub open spec fn access_event_type_parse(s: Seq<char>) -> Option<AccessEventType> {
    if s == "read"@ {
        Some(AccessEventType::Read)
    } else if s == "write"@ {
        Some(AccessEventType::Write)
    } else if s == "watch"@ {
        Some(AccessEventType::Watch)
    } else if s == "federated_read"@ {
        Some(AccessEventType::FederatedRead)
    } else if s == "ai_write"@ {
        Some(AccessEventType::AiWrite)
    } else {
        None
    }
}

impl AccessEventType {
    /// The text form of this value.
    pub fn as_str(&self) -> (r: &'static str)
        ensures
            r@ == access_event_type_name(*self),
    {
        match self {
            AccessEventType::Read => "read",
            AccessEventType::Write => "write",
            AccessEventType::Watch => "watch",
            AccessEventType::FederatedRead => "federated_read",
            AccessEventType::AiWrite => "ai_write",
        }
    }

    /// Parses the text form; `None` for any other text.
    pub fn from_str(s: &str) -> (r: Option<AccessEventType>)
        ensures
            r == access_event_type_parse(s@),
    {
        if str_eq(s, "read") {
            Some(AccessEventType::Read)
        } else if str_eq(s, "write") {
            Some(AccessEventType::Write)
        } else if str_eq(s, "watch") {
            Some(AccessEventType::Watch)
        } else if str_eq(s, "federated_read") {
            Some(AccessEventType::FederatedRead)
        } else if str_eq(s, "ai_write") {
            Some(AccessEventType::AiWrite)
        } else {
            None
        }
    }
}

/// Reading back the text form of a `AccessEventType` gives the same value, and a text
/// that reads as a value is that value's text form.
pub proof fn lemma_access_event_type_roundtrip(x: AccessEventType, s: Seq<char>)
    ensures
        access_event_type_parse(access_event_type_name(x)) == Some(x),
        access_event_type_parse(s) == Some(x) && s != access_event_type_name(x) ==> false,
{
    reveal_strlit("read");
    reveal_strlit("write");
    reveal_strlit("watch");
    reveal_strlit("federated_read");
    reveal_strlit("ai_write");
    assert("write"@.len() != "read"@.len());
    assert("watch"@.len() != "read"@.len());
    assert("watch"@[1] != "write"@[1]);
    assert("federated_read"@.len() != "read"@.len());
    assert("federated_read"@.len() != "write"@.len());
    assert("federated_read"@.len() != "watch"@.len());
    assert("ai_write"@.len() != "read"@.len());
    assert("ai_write"@.len() != "write"@.len());
    assert("ai_write"@.len() != "watch"@.len());
    assert("ai_write"@.len() != "federated_read"@.len());
}
/// Scope under which the access occurred.
#[derive(Debug, Clone, Copy, PartialEq, Eq, Structural)]
pub enum QueryScope {
    Local,
    Federated,
    AiQuery,
    FederatedAndAi,
}

/// The text form of each `QueryScope`.
pub open spec fn query_scope_name(x: QueryScope) -> Seq<char> {
    match x {
        QueryScope::Local => "local"@,
        QueryScope::Federated => "federated"@,
        QueryScope::AiQuery => "ai_query"@,
        QueryScope::FederatedAndAi => "federated_and_ai"@,
    }
}

/// The `QueryScope` that a text names, if any.
pub open spec fn query_scope_parse(s: Seq<char>) -> Option<QueryScope> {
    if s == "local"@ {
        Some(QueryScope::Local)
    } else if s == "federated"@ {
        Some(QueryScope::Federated)
    } else if s == "ai_query"@ {
        Some(QueryScope::AiQuery)
    } else if s == "federated_and_ai"@ {
        Some(QueryScope::FederatedAndAi)
    } else {
        None
    }
}

impl QueryScope {
    /// The text form of this value.
    pub fn as_str(&self) -> (r: &'static str)
        ensures
            r@ == query_scope_name(*self),
    {
        match self {
            QueryScope::Local => "local",
            QueryScope::Federated => "federated",
            QueryScope::AiQuery => "ai_query",
            QueryScope::FederatedAndAi => "federated_and_ai",
        }
    }

    /// Parses the text form; `None` for any other text.
    pub fn from_str(s: &str) -> (r: Option<QueryScope>)
        ensures
            r == query_scope_parse(s@),
    {
        if str_eq(s, "local") {
            Some(QueryScope::Local)
        } else if str_eq(s, "federated") {
            Some(QueryScope::Federated)
        } else if str_eq(s, "ai_query") {
            Some(QueryScope::AiQuery)
        } else if str_eq(s, "federated_and_ai") {
            Some(QueryScope::FederatedAndAi)
        } else {
            None
        }
    }
}

/// Reading back the text form of a `QueryScope` gives the same value, and a text
/// that reads as a value is that value's text form.
pub proof fn lemma_query_scope_roundtrip(x: QueryScope, s: Seq<char>)
    ensures
        query_scope_parse(query_scope_name(x)) == Some(x),
        query_scope_parse(s) == Some(x) && s != query_scope_name(x) ==> false,
{
    reveal_strlit("local");
    reveal_strlit("federated");
    reveal_strlit("ai_query");
    reveal_strlit("federated_and_ai");
    assert("federated"@.len() != "local"@.len());
    assert("ai_query"@.len() != "local"@.len());
    assert("ai_query"@.len() != "federated"@.len());
    assert("federated_and_ai"@.len() != "local"@.len());
    assert("federated_and_ai"@.len() != "federated"@.len());
    assert("federated_and_ai"@.len() != "ai_query"@.len());
}
/// Configuration for access history behaviour.
#[derive(Debug, Clone)]
pub struct AccessHistoryConfig {
    /// How long to retain access history entries. Default: 365 days.
    pub retention_period_secs: i64,
    /// Whether to automatically trim old entries. Default: true.
    pub auto_trim: bool,
    /// Interval between auto-trim runs. Default: 24 hours.
    pub auto_trim_interval_secs: i64,
    /// Collections to exclude from access history recording.
    pub exclude_collections: Vec<String>,
    /// Whether to track watch events. Default: false.
    pub track_watch_events: bool,
}

impl Default for AccessHistoryConfig {
    fn default() -> (r: Self)
        ensures
            r.retention_period_secs == 365 * 24 * 3600,
            r.auto_trim,
            r.auto_trim_interval_secs == 24 * 3600,
            r.exclude_collections@.len() == 1,
            r.exclude_collections@[0]@ == "__access_history__"@,
            !r.track_watch_events,
    {
        AccessHistoryConfig {
            retention_period_secs: 365 * 24 * 3600,
            auto_trim: true,
            auto_trim_interval_secs: 24 * 3600,
            exclude_collections: vec![String::from_str("__access_history__")],
            track_watch_events: false,
        }
    }
}

} // verus!
