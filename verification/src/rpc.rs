//! The rules of the message fabric: how many answers make a quorum, when a
//! broadcast is complete, and how long to wait between attempts to reach one
//! peer.

use vstd::prelude::*;
use vstd::set_lib::*;

verus! {

/// The delay before the first retry, in milliseconds.
pub const EXPONENTIAL_BACKOFF_MIN: u64 = 50;

/// The longest delay between two attempts, in milliseconds.
pub const EXPONENTIAL_BACKOFF_MAX: u64 = 1000;

/// The factor by which the delay grows with each failure.
pub const EXPONENTIAL_BACKOFF_MULTIPLIER: u64 = 2;

/// The size of a quorum among `nodes` agents: the least majority.
pub open spec fn quorum_of(nodes: int) -> int {
    nodes / 2 + 1
}

/// The delay that follows `delay`: grown by the multiplier, up to the
/// longest delay.
pub open spec fn backoff_after(delay: int) -> int {
    if delay * EXPONENTIAL_BACKOFF_MULTIPLIER <= EXPONENTIAL_BACKOFF_MAX {
        delay * EXPONENTIAL_BACKOFF_MULTIPLIER
    } else {
        EXPONENTIAL_BACKOFF_MAX as int
    }
}

/// The delay before the retry that follows `failures` failed attempts in a
/// row, `failures` being at least one.
pub open spec fn delay_before_retry(failures: nat) -> int
    decreases failures,
{
    if failures <= 1 {
        EXPONENTIAL_BACKOFF_MIN as int
    } else {
        backoff_after(delay_before_retry((failures - 1) as nat))
    }
}

/// The least number of agents that form a majority of `nodes` agents.
pub fn quorum(nodes: usize) -> (size: usize)
    ensures
        size == quorum_of(nodes as int),
{
    nodes / 2 + 1
}

/// The delay to use after a failure that followed a wait of `delay`
/// milliseconds.
pub fn next_delay(delay: u64) -> (next: u64)
    ensures
        next == backoff_after(delay as int),
        next <= EXPONENTIAL_BACKOFF_MAX,
        delay <= EXPONENTIAL_BACKOFF_MAX ==> delay <= next,
{
    if delay > EXPONENTIAL_BACKOFF_MAX / EXPONENTIAL_BACKOFF_MULTIPLIER {
        EXPONENTIAL_BACKOFF_MAX
    } else {
        delay * EXPONENTIAL_BACKOFF_MULTIPLIER
    }
}

/// Where one request to one peer stands after an attempt.
#[derive(Debug)]
pub enum Delivery<T, E> {
    /// The peer has answered.
    Done(T),
    /// The attempt failed with `error`: wait `wait` milliseconds, try again,
    /// and come back with `delay` if that fails too.
    Retry { error: E, wait: u64, delay: u64 },
}

/// Decides what follows an attempt to reach a peer, made after `delay` was
/// set as the wait before the next one: an answer ends the sending, and a
/// failure asks for another attempt after `delay`, with a longer delay to
/// follow. The first attempt is made with `EXPONENTIAL_BACKOFF_MIN`.
pub fn send<T, E>(outcome: Result<T, E>, delay: u64) -> (delivery: Delivery<T, E>)
    ensures
        delivery == match outcome {
            Ok(response) => Delivery::<T, E>::Done(response),
            Err(error) => Delivery::<T, E>::Retry {
                error,
                wait: delay,
                delay: backoff_after(delay as int) as u64,
            },
        },
{
    match outcome {
        Ok(response) => Delivery::Done(response),
        Err(error) => Delivery::Retry { error, wait: delay, delay: next_delay(delay) },
    }
}

/// The answers to a broadcast so far, and whether they are enough.
#[derive(Debug)]
pub enum Gathered<T> {
    /// More answers are awaited.
    Pending(Vec<T>),
    /// Enough have answered: these are the answers.
    Complete(Vec<T>),
}

impl<T> Gathered<T> {
    /// The answers, in the order in which they came.
    pub open spec fn answers(self) -> Seq<T> {
        match self {
            Gathered::Pending(answers) => answers@,
            Gathered::Complete(answers) => answers@,
        }
    }
}

/// Adds an answer to those gathered, and says whether `needed` are there.
fn gather<T>(answers: Vec<T>, answer: T, needed: usize) -> (gathered: Gathered<T>)
    ensures
        gathered.answers() == answers@.push(answer),
        gathered is Complete <==> answers@.len() + 1 >= needed,
{
    let mut answers = answers;
    answers.push(answer);
    if answers.len() >= needed {
        Gathered::Complete(answers)
    } else {
        Gathered::Pending(answers)
    }
}

/// Takes in one more answer to a request that went to each of `nodes`
/// agents with retries: the broadcast is complete as soon as a quorum has
/// answered.
pub fn broadcast_quorum<T>(answers: Vec<T>, answer: T, nodes: usize) -> (gathered: Gathered<T>)
    ensures
        gathered.answers() == answers@.push(answer),
        gathered is Complete <==> answers@.len() + 1 >= quorum_of(nodes as int),
{
    gather(answers, answer, quorum(nodes))
}

/// Takes in one more outcome of a request that went to each of `nodes`
/// agents without retries: the broadcast is complete once every attempt has
/// settled, in an answer or in an error.
pub fn try_to_broadcast<T, E>(outcomes: Vec<Result<T, E>>, outcome: Result<T, E>, nodes: usize) -> (
    gathered: Gathered<Result<T, E>>
)
    ensures
        gathered.answers() == outcomes@.push(outcome),
        gathered is Complete <==> outcomes@.len() + 1 >= nodes,
{
    gather(outcomes, outcome, nodes)
}

/// Every delay between two attempts lies between the shortest and the
/// longest delay, and no delay is shorter than the one before it.
pub proof fn lemma_delays_are_bounded_and_grow(failures: nat)
    requires
        failures >= 1,
    ensures
        EXPONENTIAL_BACKOFF_MIN <= delay_before_retry(failures) <= EXPONENTIAL_BACKOFF_MAX,
        delay_before_retry(failures) <= delay_before_retry(failures + 1),
    decreases failures,
{
    if failures > 1 {
        lemma_delays_are_bounded_and_grow((failures - 1) as nat);
    }
}

/// A quorum is more than half of the agents.
pub proof fn lemma_quorum_is_majority(nodes: int)
    requires
        nodes >= 0,
    ensures
        2 * quorum_of(nodes) > nodes,
        nodes >= 1 ==> quorum_of(nodes) <= nodes,
{
}

/// Any two quorums among `nodes` agents, the agents being numbered from
/// zero, have an agent in common.
pub proof fn lemma_quorums_intersect(nodes: int, first: Set<int>, second: Set<int>)
    requires
        nodes >= 0,
        first.finite(),
        second.finite(),
        forall|agent: int| first.contains(agent) ==> 0 <= agent < nodes,
        forall|agent: int| second.contains(agent) ==> 0 <= agent < nodes,
        first.len() >= quorum_of(nodes),
        second.len() >= quorum_of(nodes),
    ensures
        exists|agent: int| first.contains(agent) && second.contains(agent),
{
    let all = set_int_range(0, nodes);
    lemma_int_range(0, nodes);
    if first.disjoint(second) {
        lemma_set_disjoint_lens(first, second);
        assert((first + second).subset_of(all));
        lemma_len_subset(first + second, all);
        assert(false);
    }
    let agent = choose|agent: int| first.contains(agent) && second.contains(agent);
    assert(first.contains(agent) && second.contains(agent));
}

} // verus!
