//! The client's waiting policy: each round trip waits a bounded time for its
//! reply and is sent again a bounded number of times.
use vstd::prelude::*;

verus! {

/// How many times one query is sent before the client gives up.
pub const MAX_ATTEMPTS: u32 = 3;

/// How long the client waits for one reply, in milliseconds.
pub const REPLY_TIMEOUT_MS: u64 = 2000;

/// What happened to the query that was last sent.
#[derive(Debug, Clone, Copy, PartialEq, Eq)]
pub enum ExchangeEvent {
    /// A reply came.
    Reply,
    /// No reply came in time.
    TimedOut,
}

/// What the client does next.
#[derive(Debug, Clone, Copy, PartialEq, Eq)]
pub enum ExchangeAction {
    /// The round trip is over.
    Done,
    /// Send the query again.
    Resend,
    /// Give up with a timeout.
    GiveUp,
}

/// The next step of a round trip in which the query has been sent `sent`
/// times, after `event`; with it, how many times it has then been sent.
pub fn next_step(sent: u32, event: ExchangeEvent) -> (r: (u32, ExchangeAction))
    requires
        1 <= sent <= MAX_ATTEMPTS,
    ensures
        event == ExchangeEvent::Reply ==> r == (sent, ExchangeAction::Done),
        event == ExchangeEvent::TimedOut && sent < MAX_ATTEMPTS ==> r == (
            (sent + 1) as u32,
            ExchangeAction::Resend,
        ),
        event == ExchangeEvent::TimedOut && sent == MAX_ATTEMPTS ==> r == (
            sent,
            ExchangeAction::GiveUp,
        ),
        1 <= r.0 <= MAX_ATTEMPTS,
{
    match event {
        ExchangeEvent::Reply => (sent, ExchangeAction::Done),
        ExchangeEvent::TimedOut => {
            if sent < MAX_ATTEMPTS {
                (sent + 1, ExchangeAction::Resend)
            } else {
                (sent, ExchangeAction::GiveUp)
            }
        },
    }
}

} // verus!
