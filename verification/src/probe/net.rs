//! Waiting until the server's port accepts connections. The two pods of a
//! probe start at about the same time, so the client is always too early.

use crate::number;
use vstd::prelude::*;

verus! {

/// The first pause between two tries, in milliseconds.
pub const FIRST_BACKOFF_MS: u64 = 200;

/// The longest pause between two tries, in milliseconds.
pub const BACKOFF_CAP_MS: u64 = 2000;

/// What a try came to.
#[derive(Debug, Clone, Copy, PartialEq, Eq, Structural)]
pub enum Attempt {
    /// The deadline has passed; nothing was tried.
    Late,
    /// The port accepted the connection.
    Connected,
    /// It did not.
    Refused,
}

/// What to do after a try.
#[derive(Debug)]
pub enum Next {
    /// The wait is over.
    Ready,
    /// The wait failed, for the given reason.
    GiveUp(String),
    /// Try again after `pause_ms` milliseconds, and then, if need be, after
    /// `backoff_ms`.
    Retry { pause_ms: u64, backoff_ms: u64 },
}

/// The model of what to do after a try.
pub enum NextModel {
    Ready,
    GiveUp(Seq<char>),
    Retry { pause_ms: nat, backoff_ms: nat },
}

impl View for Next {
    type V = NextModel;

    open spec fn view(&self) -> NextModel {
        match self {
            Next::Ready => NextModel::Ready,
            Next::GiveUp(s) => NextModel::GiveUp(s@),
            Next::Retry { pause_ms, backoff_ms } => NextModel::Retry {
                pause_ms: *pause_ms as nat,
                backoff_ms: *backoff_ms as nat,
            },
        }
    }
}

/// The pause after the given one: twice as long, up to the longest.
pub open spec fn backoff_after(ms: nat) -> nat {
    if ms * 2 < 2000 {
        ms * 2
    } else {
        2000
    }
}

/// What to do after a try, where the pause is `backoff` milliseconds.
pub open spec fn next_of(host: Seq<char>, port: nat, backoff: nat, attempt: Attempt) -> NextModel {
    match attempt {
        Attempt::Late => NextModel::GiveUp(
            "timeout waiting for "@ + host + ":"@ + number::decimal(port) + " to accept TCP"@,
        ),
        Attempt::Connected => NextModel::Ready,
        Attempt::Refused => NextModel::Retry { pause_ms: backoff, backoff_ms: backoff_after(backoff) },
    }
}

/// What to do after a try to connect to the port of the host, where the
/// pause is `backoff_ms`. The first pause is `FIRST_BACKOFF_MS`.
pub fn wait_connectable(host: &str, port: u16, backoff_ms: u64, attempt: Attempt) -> (r: Next)
    ensures
        r@ == next_of(host@, port as nat, backoff_ms as nat, attempt),
{
    match attempt {
        Attempt::Late => {
            let mut s = "timeout waiting for ".to_owned();
            s.append(host);
            s.append(":");
            s.append(number::dec(port as u64).as_str());
            s.append(" to accept TCP");
            Next::GiveUp(s)
        },
        Attempt::Connected => Next::Ready,
        Attempt::Refused => {
            let next: u64 = if backoff_ms < 1000 {
                backoff_ms * 2
            } else {
                2000
            };
            Next::Retry { pause_ms: backoff_ms, backoff_ms: next }
        },
    }
}

/// The pause before try number `n`, counted from zero.
pub open spec fn pause_before(n: nat) -> nat
    decreases n,
{
    if n == 0 {
        200
    } else {
        backoff_after(pause_before((n - 1) as nat))
    }
}

/// The pauses double from the first one on, and never exceed the longest.
pub proof fn law_pauses_double_up_to_cap(n: nat)
    ensures
        200 <= pause_before(n) <= 2000,
        pause_before(n + 1) == if pause_before(n) < 1000 {
            pause_before(n) * 2
        } else {
            2000
        },
        n >= 4 ==> pause_before(n) == 2000,
    decreases n,
{
    reveal_with_fuel(pause_before, 6);
    if n > 0 {
        law_pauses_double_up_to_cap((n - 1) as nat);
    }
}

} // verus!
