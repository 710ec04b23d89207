use vstd::prelude::*;

verus! {

/// Failure categories reported by the library. Each variant carries a
/// human-readable message.
#[derive(Debug, Clone)]
pub enum TwlawError {
    InvalidInput(String),
    NotFound(String),
    UpstreamBlocked(String),
    ParseChanged(String),
    Network(String),
    Data(String),
}

/// The stable machine-readable code of each error category.
pub open spec fn error_code_spec(e: TwlawError) -> Seq<char> {
    match e {
        TwlawError::InvalidInput(_) => "invalid_input"@,
        TwlawError::NotFound(_) => "not_found"@,
        TwlawError::UpstreamBlocked(_) => "upstream_blocked"@,
        TwlawError::ParseChanged(_) => "parse_changed"@,
        TwlawError::Network(_) => "network_error"@,
        TwlawError::Data(_) => "data_error"@,
    }
}

/// The process exit status of each error category.
pub open spec fn exit_code_spec(e: TwlawError) -> i32 {
    match e {
        TwlawError::InvalidInput(_) => 2,
        TwlawError::NotFound(_) => 3,
        TwlawError::UpstreamBlocked(_) => 4,
        TwlawError::ParseChanged(_) => 5,
        TwlawError::Network(_) => 6,
        TwlawError::Data(_) => 7,
    }
}

/// The message carried by an error.
pub open spec fn error_message_spec(e: TwlawError) -> Seq<char> {
    match e {
        TwlawError::InvalidInput(m) => m@,
        TwlawError::NotFound(m) => m@,
        TwlawError::UpstreamBlocked(m) => m@,
        TwlawError::ParseChanged(m) => m@,
        TwlawError::Network(m) => m@,
        TwlawError::Data(m) => m@,
    }
}

impl TwlawError {
    pub fn code(&self) -> (res: &'static str)
        ensures
            res@ == error_code_spec(*self),
    {
        match self {
            TwlawError::InvalidInput(_) => "invalid_input",
            TwlawError::NotFound(_) => "not_found",
            TwlawError::UpstreamBlocked(_) => "upstream_blocked",
            TwlawError::ParseChanged(_) => "parse_changed",
            TwlawError::Network(_) => "network_error",
            TwlawError::Data(_) => "data_error",
        }
    }

    pub fn exit_code(&self) -> (res: i32)
        ensures
            res == exit_code_spec(*self),
    {
        match self {
            TwlawError::InvalidInput(_) => 2,
            TwlawError::NotFound(_) => 3,
            TwlawError::UpstreamBlocked(_) => 4,
            TwlawError::ParseChanged(_) => 5,
            TwlawError::Network(_) => 6,
            TwlawError::Data(_) => 7,
        }
    }

    /// The human-readable message (what the error displays as).
    pub fn message(&self) -> (res: &str)
        ensures
            res@ == error_message_spec(*self),
    {
        match self {
            TwlawError::InvalidInput(m) => m.as_str(),
            TwlawError::NotFound(m) => m.as_str(),
            TwlawError::UpstreamBlocked(m) => m.as_str(),
            TwlawError::ParseChanged(m) => m.as_str(),
            TwlawError::Network(m) => m.as_str(),
            TwlawError::Data(m) => m.as_str(),
        }
    }
}


/// Each error category has its own code and its own exit status, and no
/// failure exits with status 0.
pub proof fn lemma_error_codes_distinct(a: TwlawError, b: TwlawError)
    ensures
        (error_code_spec(a) == error_code_spec(b)) == (exit_code_spec(a) == exit_code_spec(b)),
        2 <= exit_code_spec(a) <= 7,
{
    reveal_strlit("invalid_input");
    reveal_strlit("not_found");
    reveal_strlit("upstream_blocked");
    reveal_strlit("parse_changed");
    reveal_strlit("network_error");
    reveal_strlit("data_error");
    assert("invalid_input"@[0] != "not_found"@[0]);
    assert("invalid_input"@.len() != "upstream_blocked"@.len());
    assert("invalid_input"@[0] != "parse_changed"@[0]);
    assert("invalid_input"@[0] != "network_error"@[0]);
    assert("invalid_input"@.len() != "data_error"@.len());
    assert("not_found"@.len() != "upstream_blocked"@.len());
    assert("not_found"@.len() != "parse_changed"@.len());
    assert("not_found"@.len() != "network_error"@.len());
    assert("not_found"@.len() != "data_error"@.len());
    assert("upstream_blocked"@.len() != "parse_changed"@.len());
    assert("upstream_blocked"@.len() != "network_error"@.len());
    assert("upstream_blocked"@.len() != "data_error"@.len());
    assert("parse_changed"@[0] != "network_error"@[0]);
    assert("parse_changed"@.len() != "data_error"@.len());
    assert("network_error"@.len() != "data_error"@.len());
}

} // verus!
