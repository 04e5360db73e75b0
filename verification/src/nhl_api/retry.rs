//! The NHL client's request loop as a state machine: after each response
//! the loop either reads the body, waits and asks again (rate limited),
//! or gives up with an error. The caller performs the request, the wait
//! and the read.
use vstd::prelude::*;

use crate::error::Error;
use crate::text::push_str;

verus! {

/// How many rate-limited answers are retried before giving up.
pub const MAX_RETRIES: u64 = 3;

/// Base wait between retries, in milliseconds; the n-th retry waits n
/// times this.
pub const RETRY_BASE_DELAY_MS: u64 = 500;

/// What came back from one request.
#[derive(Debug)]
pub enum FetchEvent {
    /// Status 429.
    RateLimited,
    /// Any other non-success status, with the status as displayed and the
    /// body text (or `"Unknown error"` when it could not be read).
    Failed { status: String, body: String },
    /// A success status.
    Succeeded,
}

/// What the loop does next.
#[derive(Debug)]
pub enum FetchAction {
    /// Wait this many milliseconds, then send the request again.
    RetryAfterMs(u64),
    /// Stop with this error.
    Fail(Error),
    /// Read the body: the request succeeded.
    ReadBody,
}

/// The retries spent so far on one request.
#[derive(Debug)]
pub struct FetchState {
    pub retries: u64,
}

impl FetchState {
    /// A request not yet retried.
    pub fn new() -> (r: FetchState)
        ensures
            r.retries == 0,
    {
        FetchState { retries: 0 }
    }

    /// The next step after `event`. A rate-limited answer counts one more
    /// retry: past [`MAX_RETRIES`] the request fails, otherwise it is sent
    /// again after `RETRY_BASE_DELAY_MS` times the retry count. Another
    /// failure status ends the request with an NHL API error naming the
    /// status and the body; success reads the body.
    pub fn next_step(&mut self, event: FetchEvent) -> (r: FetchAction)
        requires
            old(self).retries <= MAX_RETRIES,
        ensures
            match event {
                FetchEvent::RateLimited => {
                    &&& final(self).retries == old(self).retries + 1
                    &&& if final(self).retries > MAX_RETRIES {
                        r matches FetchAction::Fail(Error::NhlApi(m)) && m@
                            == "NHL API rate limit exceeded after retries"@
                    } else {
                        r == FetchAction::RetryAfterMs(
                            (RETRY_BASE_DELAY_MS * final(self).retries) as u64,
                        )
                    }
                },
                FetchEvent::Failed { status, body } => {
                    &&& final(self).retries == old(self).retries
                    &&& r matches FetchAction::Fail(Error::NhlApi(m)) && m@ == "NHL API returned status "@
                        + status@ + ": "@ + body@
                },
                FetchEvent::Succeeded => {
                    &&& final(self).retries == old(self).retries
                    &&& r is ReadBody
                },
            },
    {
        match event {
            FetchEvent::RateLimited => {
                self.retries = self.retries + 1;
                if self.retries > MAX_RETRIES {
                    FetchAction::Fail(
                        Error::NhlApi(String::from_str("NHL API rate limit exceeded after retries")),
                    )
                } else {
                    FetchAction::RetryAfterMs(RETRY_BASE_DELAY_MS * self.retries)
                }
            },
            FetchEvent::Failed { status, body } => {
                let mut m = String::from_str("NHL API returned status ");
                push_str(&mut m, status.as_str());
                push_str(&mut m, ": ");
                push_str(&mut m, body.as_str());
                FetchAction::Fail(Error::NhlApi(m))
            },
            FetchEvent::Succeeded => FetchAction::ReadBody,
        }
    }
}

/// A request that keeps being rate limited is sent four times in all:
/// the first three 429 answers are retried after 500, 1000 and 1500 ms,
/// the fourth ends it.
pub proof fn lemma_rate_limit_gives_up_after_three_retries(retries: u64)
    requires
        retries <= MAX_RETRIES,
    ensures
        retries + 1 <= MAX_RETRIES ==> RETRY_BASE_DELAY_MS * (retries + 1) <= 1500,
        retries == MAX_RETRIES ==> retries + 1 > MAX_RETRIES,
{
}

} // verus!
