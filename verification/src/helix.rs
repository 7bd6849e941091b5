use vstd::prelude::*;

use crate::cli::{helix_bin_of, Cli};
use crate::protocol::helix_cli::{FLAG_REMOTE, FLAG_SUBSCRIBE};
use crate::text::{i32_to_decimal, signed_decimal, texts_of};
use vstd::string::StringExecFns;

verus! {

/// How many times `hx --remote` is tried before giving up.
pub const SOCKET_RETRY_ATTEMPTS: u32 = 75;

/// How long to wait between two tries, in milliseconds.
pub const SOCKET_RETRY_DELAY_MS: u64 = 200;

/// What follows one try of `hx --remote`.
#[derive(Debug, Clone, Copy, PartialEq, Eq, Structural)]
pub enum RetryStep {
    /// The command reached Helix.
    Done,
    /// Wait `delay_ms`, then make try number `next_attempt`.
    RetryAfter { next_attempt: u32, delay_ms: u64 },
    /// The last try failed: report its error.
    GiveUp,
}

/// What follows try number `attempt` (counted from 1).
pub open spec fn retry_step(attempt: u32, succeeded: bool) -> RetryStep {
    if succeeded {
        RetryStep::Done
    } else if attempt >= SOCKET_RETRY_ATTEMPTS {
        RetryStep::GiveUp
    } else {
        RetryStep::RetryAfter { next_attempt: (attempt + 1) as u32, delay_ms: SOCKET_RETRY_DELAY_MS }
    }
}

/// How many tries are made, from try number `attempt` on, when every one fails.
pub open spec fn tries_when_failing(attempt: u32) -> nat
    decreases SOCKET_RETRY_ATTEMPTS - attempt,
{
    match retry_step(attempt, false) {
        RetryStep::RetryAfter { next_attempt, .. } => if next_attempt > attempt {
            1 + tries_when_failing(next_attempt)
        } else {
            1
        },
        _ => 1,
    }
}

/// The decision after try number `attempt` of `hx --remote`.
pub fn step_after_attempt(attempt: u32, succeeded: bool) -> (r: RetryStep)
    requires
        1 <= attempt <= SOCKET_RETRY_ATTEMPTS,
    ensures
        r == retry_step(attempt, succeeded),
{
    if succeeded {
        RetryStep::Done
    } else if attempt == SOCKET_RETRY_ATTEMPTS {
        RetryStep::GiveUp
    } else {
        RetryStep::RetryAfter { next_attempt: attempt + 1, delay_ms: SOCKET_RETRY_DELAY_MS }
    }
}

/// When every try fails, exactly `SOCKET_RETRY_ATTEMPTS` tries are made from the first
/// one on, each but the last followed by a wait of `SOCKET_RETRY_DELAY_MS`.
pub proof fn lemma_failing_tries_count(attempt: u32)
    requires
        1 <= attempt <= SOCKET_RETRY_ATTEMPTS,
    ensures
        tries_when_failing(attempt) == SOCKET_RETRY_ATTEMPTS - attempt + 1,
    decreases SOCKET_RETRY_ATTEMPTS - attempt,
{
    if attempt < SOCKET_RETRY_ATTEMPTS {
        lemma_failing_tries_count((attempt + 1) as u32);
    }
}

/// A program and its arguments.
#[derive(Debug)]
pub struct Invocation {
    pub program: String,
    pub args: Vec<String>,
}

/// `hx --remote <cmd>`, with the command line's Helix binary.
pub fn remote_invocation(cli: &Cli, cmd: &str) -> (r: Invocation)
    ensures
        r.program@ == helix_bin_of(*cli),
        texts_of(r.args@) == seq!["--remote"@, cmd@],
{
    let mut args: Vec<String> = Vec::new();
    args.push(String::from_str(FLAG_REMOTE));
    args.push(String::from_str(cmd));
    assert(texts_of(args@) == seq!["--remote"@, cmd@]);
    Invocation { program: String::from_str(cli.helix_bin()), args }
}

/// `hx --subscribe <events>`, with the command line's Helix binary.
pub fn subscribe_invocation(cli: &Cli, events: &str) -> (r: Invocation)
    ensures
        r.program@ == helix_bin_of(*cli),
        texts_of(r.args@) == seq!["--subscribe"@, events@],
{
    let mut args: Vec<String> = Vec::new();
    args.push(String::from_str(FLAG_SUBSCRIBE));
    args.push(String::from_str(events));
    assert(texts_of(args@) == seq!["--subscribe"@, events@]);
    Invocation { program: String::from_str(cli.helix_bin()), args }
}

/// The exit code reported for a process, `-1` when it has none (killed by a signal).
pub open spec fn code_or_minus_one(code: Option<i32>) -> int {
    match code {
        Some(c) => c as int,
        None => -1,
    }
}

/// `"<program> <flag> exited with <code>"`.
pub open spec fn exit_failure_text(program: Seq<char>, flag: Seq<char>, code: Option<i32>) -> Seq<
    char,
> {
    program + " "@ + flag + " exited with "@ + signed_decimal(code_or_minus_one(code))
}

/// The message for a Helix process that exited unsuccessfully.
pub fn exit_failure_message(program: &str, flag: &str, code: Option<i32>) -> (m: String)
    ensures
        m@ == exit_failure_text(program@, flag@, code),
{
    let c: i32 = match code {
        Some(c) => c,
        None => -1,
    };
    let digits = i32_to_decimal(c);
    let mut m = String::from_str(program);
    m.append(" ");
    m.append(flag);
    m.append(" exited with ");
    m.append(digits.as_str());
    m
}

/// How a run of tries of `hx --remote` goes from try number `attempt` on, where
/// `outcomes[k]` tells whether the `k`-th of these tries succeeds: how many tries are
/// made, whether the last one succeeded, and how long is waited in all, in milliseconds.
pub open spec fn retry_run(attempt: u32, outcomes: Seq<bool>) -> (nat, bool, nat)
    decreases SOCKET_RETRY_ATTEMPTS - attempt, outcomes.len(),
{
    if outcomes.len() == 0 {
        (0, false, 0)
    } else {
        match retry_step(attempt, outcomes[0]) {
            RetryStep::Done => (1, true, 0),
            RetryStep::GiveUp => (1, false, 0),
            RetryStep::RetryAfter { next_attempt, delay_ms } => if next_attempt > attempt {
                let (n, ok, waited) = retry_run(next_attempt, outcomes.skip(1));
                (1 + n, ok, delay_ms as nat + waited)
            } else {
                (1, false, 0)
            },
        }
    }
}

/// From try number `attempt` on, the tries stop at the first one that succeeds, with a
/// wait of `SOCKET_RETRY_DELAY_MS` before each later try; when none of the remaining
/// tries succeeds, all `SOCKET_RETRY_ATTEMPTS - attempt + 1` are made and the last one's
/// failure is the outcome.
pub proof fn lemma_retry_run(attempt: u32, outcomes: Seq<bool>)
    requires
        1 <= attempt <= SOCKET_RETRY_ATTEMPTS,
        outcomes.len() > SOCKET_RETRY_ATTEMPTS - attempt,
    ensures
        forall|i: int|
            0 <= i <= SOCKET_RETRY_ATTEMPTS - attempt && #[trigger] outcomes[i] && (forall|j: int|
                0 <= j < i ==> !outcomes[j]) ==> retry_run(attempt, outcomes) == (
            (i + 1) as nat,
            true,
            (i * SOCKET_RETRY_DELAY_MS) as nat,
        ),
        (forall|j: int| 0 <= j <= SOCKET_RETRY_ATTEMPTS - attempt ==> !#[trigger] outcomes[j])
            ==> retry_run(attempt, outcomes) == (
            (SOCKET_RETRY_ATTEMPTS - attempt + 1) as nat,
            false,
            ((SOCKET_RETRY_ATTEMPTS - attempt) * SOCKET_RETRY_DELAY_MS) as nat,
        ),
    decreases SOCKET_RETRY_ATTEMPTS - attempt,
{
    if !outcomes[0] && attempt < SOCKET_RETRY_ATTEMPTS {
        let next = (attempt + 1) as u32;
        let tail = outcomes.skip(1);
        lemma_retry_run(next, tail);
        assert forall|i: int|
            0 <= i <= SOCKET_RETRY_ATTEMPTS - attempt && #[trigger] outcomes[i] && (forall|j: int|
                0 <= j < i ==> !outcomes[j]) implies retry_run(attempt, outcomes) == (
            (i + 1) as nat,
            true,
            (i * SOCKET_RETRY_DELAY_MS) as nat,
        ) by {
            assert(i >= 1);
            assert(tail[i - 1] == outcomes[i]);
            assert forall|j: int| 0 <= j < i - 1 implies !tail[j] by {
                assert(tail[j] == outcomes[j + 1]);
            }
        }
        if forall|j: int| 0 <= j <= SOCKET_RETRY_ATTEMPTS - attempt ==> !#[trigger] outcomes[j] {
            assert forall|j: int| 0 <= j <= SOCKET_RETRY_ATTEMPTS - next implies !#[trigger] tail[j] by {
                assert(tail[j] == outcomes[j + 1]);
            }
        }
    }
}

} // verus!
