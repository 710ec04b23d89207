//! When to try a request again: the decisions of the bounded retry loops
//! around the live HTTP requests (the requests and the waiting are the
//! caller's).
use vstd::prelude::*;
use crate::rx::opt_string_view;

verus! {

/// How many times a request is tried.
pub const RETRY_ATTEMPTS: usize = 3;

/// A status worth retrying: 429 Too Many Requests or a server error.
pub open spec fn retryable_status(status: u16) -> bool {
    status == 429 || (500 <= status && status <= 599)
}

pub fn should_retry_status(status: u16) -> (res: bool)
    ensures
        res == retryable_status(status),
{
    status == 429 || (500 <= status && status <= 599)
}

/// The wait before the next try: the base delay doubled per attempt, at most
/// sixteen-fold.
pub open spec fn backoff_ms(base: u64, attempt: usize) -> int {
    let k: int = if attempt < 4 { attempt as int } else { 4 };
    base * (if k == 0 { 1int } else if k == 1 { 2int } else if k == 2 { 4int } else if k == 3 { 8int } else { 16int })
}

pub fn retry_delay_ms(base: u64, attempt: usize) -> (res: u64)
    requires
        base <= u64::MAX / 16,
    ensures
        res == backoff_ms(base, attempt),
{
    let m: u64 = if attempt == 0 {
        1
    } else if attempt == 1 {
        2
    } else if attempt == 2 {
        4
    } else if attempt == 3 {
        8
    } else {
        16
    };
    base * m
}

/// The state of one retry loop.
#[derive(Debug, Clone)]
pub struct Retry {
    pub attempts: usize,
    pub attempt: usize,
    pub base_delay_ms: u64,
    pub last_error: Option<String>,
}

impl Retry {
    pub open spec fn wf(self) -> bool {
        self.base_delay_ms <= u64::MAX / 16
    }

    /// A loop of `attempts` tries, waiting `base_delay_ms` (doubled per try)
    /// between them.
    pub fn new(attempts: usize, base_delay_ms: u64) -> (res: Retry)
        requires
            base_delay_ms <= u64::MAX / 16,
        ensures
            res.wf(),
            res.attempts == attempts,
            res.attempt == 0,
            res.base_delay_ms == base_delay_ms,
            res.last_error is None,
    {
        Retry { attempts, attempt: 0, base_delay_ms, last_error: None }
    }

    /// A response arrived with `status`. `Some(wait)`: wait that many
    /// milliseconds and try again; `None`: read this response. A wait is
    /// granted only while another try stays within `attempts`, so a loop makes
    /// at most `attempts` tries.
    pub fn after_status(&mut self, status: u16) -> (res: Option<u64>)
        requires
            old(self).wf(),
        ensures
            final(self).wf(),
            final(self).attempts == old(self).attempts,
            final(self).base_delay_ms == old(self).base_delay_ms,
            opt_string_view(final(self).last_error) == opt_string_view(old(self).last_error),
            res is Some ==> final(self).attempt < final(self).attempts,
            if retryable_status(status) && old(self).attempt + 1 < old(self).attempts {
                res == Some(backoff_ms(old(self).base_delay_ms, old(self).attempt) as u64) && final(self).attempt
                    == old(self).attempt + 1
            } else {
                res is None && final(self).attempt == old(self).attempt
            },
    {
        if should_retry_status(status) && self.attempt < self.attempts && self.attempt + 1 < self.attempts {
            let wait = retry_delay_ms(self.base_delay_ms, self.attempt);
            self.attempt = self.attempt + 1;
            Some(wait)
        } else {
            None
        }
    }

    /// The try failed with `message`; `retryable` says whether the failure
    /// may pass. `Some(wait)`: wait and try again; `None`: give up.
    pub fn after_failure(&mut self, retryable: bool, message: String) -> (res: Option<u64>)
        requires
            old(self).wf(),
        ensures
            final(self).wf(),
            final(self).attempts == old(self).attempts,
            final(self).base_delay_ms == old(self).base_delay_ms,
            opt_string_view(final(self).last_error) == Some(message@),
            res is Some ==> final(self).attempt < final(self).attempts,
            if retryable && old(self).attempt + 1 < old(self).attempts {
                res == Some(backoff_ms(old(self).base_delay_ms, old(self).attempt) as u64) && final(self).attempt
                    == old(self).attempt + 1
            } else {
                res is None && final(self).attempt == old(self).attempt
            },
    {
        self.last_error = Some(message);
        if retryable && self.attempt < self.attempts && self.attempt + 1 < self.attempts {
            let wait = retry_delay_ms(self.base_delay_ms, self.attempt);
            self.attempt = self.attempt + 1;
            Some(wait)
        } else {
            None
        }
    }

    /// The message of the last failure, or `unknown network error`.
    pub fn last_error_message(&self) -> (res: String)
        ensures
            res@ == (match self.last_error {
                Some(m) => m@,
                None => "unknown network error"@,
            }),
    {
        match &self.last_error {
            Some(m) => m.clone(),
            None => crate::text::owned("unknown network error"),
        }
    }
}

} // verus!
