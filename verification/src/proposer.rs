//! The proposer half of an agent: how it numbers its proposals, which value it
//! puts to the cluster after a quorum of promises, and what it concludes from
//! a quorum of answers to an accept request.

use crate::acceptor::{
    AcceptRequest, AcceptResponse, ChooseRequest, PrepareRequest, PrepareResponse,
};
use crate::state::{value_view, Address, Durable, DurableView, ProposalNumber, Value};
use vstd::prelude::*;

verus! {

/// The longest wait before a proposer that was overtaken starts again, in
/// milliseconds.
pub const CONTENTION_DELAY_MAX: u64 = 100;

impl DurableView {
    /// The number of the next proposal of the agent at `address`.
    pub open spec fn next_number(self, address: Address) -> ProposalNumber {
        ProposalNumber { round: self.next_round as u64, proposer_address: address }
    }

    /// The record after the agent has taken a proposal number: the round
    /// counter is one further, and nothing else changes.
    pub open spec fn advanced(self) -> DurableView {
        DurableView { next_round: self.next_round + 1, ..self }
    }

    /// The record after the agent has seen `promises`, the promises that a
    /// quorum reported in answer to an accept request: the round counter is
    /// beyond every round among them, and nothing else changes.
    pub open spec fn caught_up(self, promises: Seq<ProposalNumber>) -> DurableView {
        DurableView { next_round: round_beyond(self.next_round, promises), ..self }
    }
}

/// The least round that is at least `next_round` and greater than the round
/// of every proposal number in `promises`.
pub open spec fn round_beyond(next_round: nat, promises: Seq<ProposalNumber>) -> nat
    decreases promises.len(),
{
    if promises.len() == 0 {
        next_round
    } else {
        let before = round_beyond(next_round, promises.drop_last());
        if before <= promises.last().round {
            (promises.last().round + 1) as nat
        } else {
            before
        }
    }
}

/// The accepted proposal with the greatest number among `answers`, the
/// answers to a prepare request; among several with that number, the last.
/// None where no answer holds an accepted proposal.
pub open spec fn highest_accepted(answers: Seq<Option<(ProposalNumber, Value)>>) -> Option<
    (ProposalNumber, Value),
>
    decreases answers.len(),
{
    if answers.len() == 0 {
        None
    } else {
        match (highest_accepted(answers.drop_last()), answers.last()) {
            (Some(best), Some(last)) => if last.0.below(best.0) {
                Some(best)
            } else {
                Some(last)
            },
            (Some(best), None) => Some(best),
            (None, last) => last,
        }
    }
}

/// The value to put to the cluster after a quorum of answers to a prepare
/// request: the value of the highest accepted proposal among them; where
/// there is none, the proposer's own value; where it has none either, nothing.
pub open spec fn value_to_propose(
    answers: Seq<Option<(ProposalNumber, Value)>>,
    original_value: Option<Value>,
) -> Option<Value> {
    match highest_accepted(answers) {
        Some((_, value)) => Some(value),
        None => original_value,
    }
}

/// Whether a proposal is chosen after a quorum of answers to its accept
/// request: every answer reports the proposal's own number as the promise.
pub open spec fn chosen_by(promises: Seq<ProposalNumber>, proposal_number: ProposalNumber) -> bool {
    forall|i: int| 0 <= i < promises.len() ==> #[trigger] promises[i] == proposal_number
}

/// The answers to a prepare request as contracts see them.
pub open spec fn answers_view(responses: Seq<PrepareResponse>) -> Seq<
    Option<(ProposalNumber, Value)>,
> {
    responses.map_values(|response: PrepareResponse| response@)
}

/// The answers to an accept request as contracts see them.
pub open spec fn promises_view(responses: Seq<AcceptResponse>) -> Seq<ProposalNumber> {
    responses.map_values(|response: AcceptResponse| response.min_proposal_number)
}

/// What `highest_accepted` returns is one of the answers, no answer holds a
/// greater number, and every later answer holds a smaller one. It returns
/// nothing only where no answer holds an accepted proposal.
pub proof fn lemma_highest_accepted(answers: Seq<Option<(ProposalNumber, Value)>>)
    ensures
        highest_accepted(answers) is None ==> forall|i: int|
            0 <= i < answers.len() ==> answers[i] is None,
        highest_accepted(answers) matches Some(best) ==> {
            &&& exists|i: int|
                {
                    &&& 0 <= i < answers.len()
                    &&& answers[i] == Some(best)
                    &&& forall|j: int|
                        i < j < answers.len() ==> (#[trigger] answers[j] matches Some(other)
                            ==> other.0.below(best.0))
                }
            &&& forall|j: int|
                0 <= j < answers.len() ==> (#[trigger] answers[j] matches Some(other)
                    ==> other.0.at_most(best.0))
        },
    decreases answers.len(),
{
    if answers.len() > 0 {
        let earlier = answers.drop_last();
        lemma_highest_accepted(earlier);
        let last_index = answers.len() - 1;
        assert(forall|i: int| 0 <= i < earlier.len() ==> earlier[i] == answers[i]);
        match (highest_accepted(earlier), answers.last()) {
            (Some(best), Some(last)) => {
                if last.0.below(best.0) {
                    let i = choose|i: int|
                        {
                            &&& 0 <= i < earlier.len()
                            &&& earlier[i] == Some(best)
                            &&& forall|j: int|
                                i < j < earlier.len() ==> (#[trigger] earlier[j] matches Some(
                                    other,
                                ) ==> other.0.below(best.0))
                        };
                    assert(answers[i] == Some(best));
                    assert forall|j: int| i < j < answers.len() implies (
                    #[trigger] answers[j] matches Some(other) ==> other.0.below(best.0)) by {
                        if j < earlier.len() {
                            assert(earlier[j] == answers[j]);
                        }
                    }
                    assert forall|j: int| 0 <= j < answers.len() implies (
                    #[trigger] answers[j] matches Some(other) ==> other.0.at_most(best.0)) by {
                        if j < earlier.len() {
                            assert(earlier[j] == answers[j]);
                        }
                    }
                } else {
                    assert(answers[last_index] == Some(last));
                    assert forall|j: int| 0 <= j < answers.len() implies (
                    #[trigger] answers[j] matches Some(other) ==> other.0.at_most(last.0)) by {
                        if j < earlier.len() {
                            assert(earlier[j] == answers[j]);
                        }
                    }
                }
            },
            (Some(best), None) => {
                let i = choose|i: int|
                    {
                        &&& 0 <= i < earlier.len()
                        &&& earlier[i] == Some(best)
                        &&& forall|j: int|
                            i < j < earlier.len() ==> (#[trigger] earlier[j] matches Some(other)
                                ==> other.0.below(best.0))
                    };
                assert(answers[i] == Some(best));
                assert forall|j: int| i < j < answers.len() implies (
                #[trigger] answers[j] matches Some(other) ==> other.0.below(best.0)) by {
                    if j < earlier.len() {
                        assert(earlier[j] == answers[j]);
                    }
                }
                assert forall|j: int| 0 <= j < answers.len() implies (
                #[trigger] answers[j] matches Some(other) ==> other.0.at_most(best.0)) by {
                    if j < earlier.len() {
                        assert(earlier[j] == answers[j]);
                    }
                }
            },
            (None, Some(last)) => {
                assert(answers[last_index] == Some(last));
                assert forall|j: int| 0 <= j < answers.len() implies (
                #[trigger] answers[j] matches Some(other) ==> other.0.at_most(last.0)) by {
                    if j < earlier.len() {
                        assert(earlier[j] == answers[j]);
                    }
                }
            },
            (None, None) => {
                assert forall|i: int| 0 <= i < answers.len() implies answers[i] is None by {
                    if i < earlier.len() {
                        assert(earlier[i] == answers[i]);
                    }
                }
            },
        }
    }
}

/// What `round_beyond` returns is at least `next_round` and beyond every
/// round among the promises, and it is `next_round` itself or the round after
/// one of them.
pub proof fn lemma_round_beyond(next_round: nat, promises: Seq<ProposalNumber>)
    ensures
        next_round <= round_beyond(next_round, promises),
        forall|i: int|
            0 <= i < promises.len() ==> (#[trigger] promises[i]).round < round_beyond(
                next_round,
                promises,
            ),
        round_beyond(next_round, promises) == next_round || exists|i: int|
            0 <= i < promises.len() && round_beyond(next_round, promises) == (
            #[trigger] promises[i]).round + 1,
    decreases promises.len(),
{
    if promises.len() > 0 {
        let earlier = promises.drop_last();
        lemma_round_beyond(next_round, earlier);
        assert(forall|i: int| 0 <= i < earlier.len() ==> earlier[i] == promises[i]);
        let before = round_beyond(next_round, earlier);
        if before <= promises.last().round {
            assert(promises[promises.len() - 1] == promises.last());
        } else if before != next_round {
            let i = choose|i: int|
                0 <= i < earlier.len() && before == (#[trigger] earlier[i]).round + 1;
            assert(promises[i] == earlier[i]);
        }
    }
}

/// An agent's proposal numbers increase: a number that it takes is below any
/// number that it takes later, whatever happened to its record in between,
/// for the round counter never goes back.
pub proof fn lemma_later_number_is_greater(
    address: Address,
    earlier: DurableView,
    later: DurableView,
)
    requires
        earlier.next_round < u64::MAX,
        earlier.advanced().next_round <= later.next_round <= u64::MAX,
    ensures
        earlier.next_number(address).below(later.next_number(address)),
{
}

/// Agents at different endpoints never take the same proposal number.
pub proof fn lemma_numbers_of_agents_differ(
    first_address: Address,
    first: DurableView,
    second_address: Address,
    second: DurableView,
)
    requires
        first_address != second_address,
    ensures
        first.next_number(first_address) != second.next_number(second_address),
{
}

/// Takes the next proposal number of the agent at `nodes[node_index]`: its
/// round is the round counter, which then moves on by one.
pub fn generate_proposal_number(nodes: &[Address], node_index: usize, state: &mut Durable) -> (
    proposal_number: ProposalNumber
)
    requires
        node_index < nodes@.len(),
        old(state).next_round < u64::MAX,
    ensures
        proposal_number == old(state)@.next_number(nodes@[node_index as int]),
        proposal_number.round == old(state).next_round,
        proposal_number.proposer_address == nodes@[node_index as int],
        final(state)@ == old(state)@.advanced(),
        final(state).next_round == old(state).next_round + 1,
{
    let proposal_number = ProposalNumber {
        round: state.next_round,
        proposer_address: nodes[node_index],
    };
    state.next_round += 1;
    proposal_number
}

/// The proposer's own value as contracts see it.
pub open spec fn original_view(original_value: Option<&str>) -> Option<Value> {
    match original_value {
        Some(value) => Some(value@),
        None => None,
    }
}

/// Decides which value to put to the cluster after a quorum has answered a
/// prepare request: the value of the highest accepted proposal among the
/// answers, else the proposer's own, else none.
pub fn select_value(responses: &Vec<PrepareResponse>, original_value: Option<&str>) -> (value:
    Option<String>)
    ensures
        value_view(value) == value_to_propose(
            answers_view(responses@),
            original_view(original_value),
        ),
{
    let ghost answers = answers_view(responses@);
    let mut best: Option<(ProposalNumber, &String)> = None;
    let mut i: usize = 0;
    while i < responses.len()
        invariant
            0 <= i <= responses.len(),
            answers == answers_view(responses@),
            match best {
                Some((number, value)) => highest_accepted(answers.take(i as int)) == Some(
                    (number, value@),
                ),
                None => highest_accepted(answers.take(i as int)) is None,
            },
        decreases responses.len() - i,
    {
        proof {
            assert(answers.take(i + 1).drop_last() == answers.take(i as int));
            assert(answers.take(i + 1).last() == responses@[i as int]@);
        }
        if let Some((number, value)) = &responses[i].accepted_proposal {
            let replace = match best {
                Some((highest, _)) => !(*number < highest),
                None => true,
            };
            if replace {
                best = Some((*number, value));
            }
        }
        i += 1;
    }
    proof {
        assert(answers.take(i as int) == answers);
    }
    match best {
        Some((_, value)) => Some(value.clone()),
        None => match original_value {
            Some(value) => Some(value.to_owned()),
            None => None,
        },
    }
}

/// Takes in the answers of a quorum to the accept request for
/// `proposal_number`: moves the round counter beyond every round that the
/// answers report, and says whether the proposal is chosen. The second part
/// of the result says whether the durable record changed.
pub fn observe_promises(
    responses: &Vec<AcceptResponse>,
    proposal_number: ProposalNumber,
    state: &mut Durable,
) -> (outcome: (bool, bool))
    requires
        forall|i: int|
            0 <= i < responses@.len() ==> (#[trigger] responses@[i]).min_proposal_number.round
                < u64::MAX,
    ensures
        final(state)@ == old(state)@.caught_up(promises_view(responses@)),
        outcome.0 == chosen_by(promises_view(responses@), proposal_number),
        outcome.1 == (final(state)@ != old(state)@),
        old(state).next_round <= final(state).next_round,
        forall|i: int|
            0 <= i < responses@.len() ==> (#[trigger] responses@[i]).min_proposal_number.round
                < final(state).next_round,
{
    let ghost promises = promises_view(responses@);
    let ghost before = state@;
    let mut value_chosen = true;
    let mut changed = false;
    let mut i: usize = 0;
    while i < responses.len()
        invariant
            0 <= i <= responses.len(),
            promises == promises_view(responses@),
            before == old(state)@,
            forall|j: int|
                0 <= j < responses@.len() ==> (#[trigger] responses@[j]).min_proposal_number.round
                    < u64::MAX,
            state@ == before.caught_up(promises.take(i as int)),
            value_chosen == chosen_by(promises.take(i as int), proposal_number),
            changed == (state@ != before),
            before.next_round <= state@.next_round,
        decreases responses.len() - i,
    {
        proof {
            assert(promises.take(i + 1).drop_last() == promises.take(i as int));
            assert(promises.take(i + 1).last() == responses@[i as int].min_proposal_number);
        }
        let promised = responses[i].min_proposal_number;
        if promised != proposal_number {
            value_chosen = false;
        }
        if state.next_round <= promised.round {
            state.next_round = promised.round + 1;
            changed = true;
        }
        proof {
            let shorter = promises.take(i as int);
            let longer = promises.take(i + 1);
            if chosen_by(shorter, proposal_number) && promised == proposal_number {
                assert forall|j: int| 0 <= j < longer.len() implies #[trigger] longer[j]
                    == proposal_number by {
                    if j < i {
                        assert(shorter[j] == proposal_number);
                    }
                }
            } else if promised != proposal_number {
                assert(longer[i as int] != proposal_number);
            } else {
                let j = choose|j: int|
                    0 <= j < shorter.len() && #[trigger] shorter[j] != proposal_number;
                assert(longer[j] != proposal_number);
            }
        }
        i += 1;
    }
    proof {
        assert(promises.take(i as int) == promises);
        lemma_round_beyond(before.next_round, promises);
        assert forall|j: int| 0 <= j < responses@.len() implies (
        #[trigger] responses@[j]).min_proposal_number.round < state.next_round by {
            assert(promises[j] == responses@[j].min_proposal_number);
        }
    }
    (value_chosen, changed)
}

/// Turns a random number into the wait before a proposer that was overtaken
/// starts again, in milliseconds: every wait from none to the longest comes
/// equally often as the random number goes through its range.
pub fn contention_delay(random: u64) -> (delay: u64)
    ensures
        delay == (random as int) % (CONTENTION_DELAY_MAX + 1),
        delay <= CONTENTION_DELAY_MAX,
{
    random % (CONTENTION_DELAY_MAX + 1)
}

/// Where a proposer stands between two rounds of messages.
#[derive(Debug)]
pub enum Phase {
    /// No attempt is under way.
    Idle,
    /// A prepare request with this number is out.
    Preparing { proposal_number: ProposalNumber },
    /// An accept request for this proposal is out.
    Accepting { proposal_number: ProposalNumber, value: String },
    /// The proposer is done: a value is chosen, or there was none to propose.
    Finished,
}

/// What a proposer is told.
#[derive(Debug)]
pub enum Event {
    /// Begin an attempt.
    Start,
    /// A quorum has answered the prepare request.
    Prepared(Vec<PrepareResponse>),
    /// A quorum has answered the accept request.
    Accepted(Vec<AcceptResponse>),
}

/// What a proposer asks of its caller.
#[derive(Debug)]
pub enum Action {
    /// Send this prepare request to every agent and report the answers of a
    /// quorum.
    Prepare(PrepareRequest),
    /// Send this accept request to every agent and report the answers of a
    /// quorum.
    Accept(AcceptRequest),
    /// The value is chosen: tell every agent, as far as they can be reached.
    Choose(ChooseRequest),
    /// The proposal was overtaken: wait a random while, then start again.
    Retry,
    /// Nothing is accepted anywhere in the quorum and there is no value to
    /// propose: stop.
    Finish,
    /// The event is none that the phase waits for: nothing to do.
    Wait,
}

/// One step of a proposer: its next phase, what it asks of its caller, and
/// whether the durable record has to reach stable storage before any message
/// leaves.
#[derive(Debug)]
pub struct Step {
    pub phase: Phase,
    pub action: Action,
    pub persist: bool,
}

/// A phase as contracts see it.
pub enum PhaseView {
    Idle,
    Preparing { proposal_number: ProposalNumber },
    Accepting { proposal_number: ProposalNumber, value: Value },
    Finished,
}

/// An event as contracts see it.
pub enum EventView {
    Start,
    Prepared(Seq<Option<(ProposalNumber, Value)>>),
    Accepted(Seq<ProposalNumber>),
}

/// An action as contracts see it.
pub enum ActionView {
    Prepare(Option<ProposalNumber>),
    Accept(ProposalNumber, Value),
    Choose(Value),
    Retry,
    Finish,
    Wait,
}

impl View for Phase {
    type V = PhaseView;

    open spec fn view(&self) -> PhaseView {
        match self {
            Phase::Idle => PhaseView::Idle,
            Phase::Preparing { proposal_number } => PhaseView::Preparing {
                proposal_number: *proposal_number,
            },
            Phase::Accepting { proposal_number, value } => PhaseView::Accepting {
                proposal_number: *proposal_number,
                value: value@,
            },
            Phase::Finished => PhaseView::Finished,
        }
    }
}

impl View for Event {
    type V = EventView;

    open spec fn view(&self) -> EventView {
        match self {
            Event::Start => EventView::Start,
            Event::Prepared(responses) => EventView::Prepared(answers_view(responses@)),
            Event::Accepted(responses) => EventView::Accepted(promises_view(responses@)),
        }
    }
}

impl View for Action {
    type V = ActionView;

    open spec fn view(&self) -> ActionView {
        match self {
            Action::Prepare(request) => ActionView::Prepare(request.proposal_number),
            Action::Accept(request) => ActionView::Accept(request@.0, request@.1),
            Action::Choose(request) => ActionView::Choose(request@),
            Action::Retry => ActionView::Retry,
            Action::Finish => ActionView::Finish,
            Action::Wait => ActionView::Wait,
        }
    }
}

/// The rule of the proposer: from a phase, an event, the proposer's own
/// endpoint, its own value and its durable record to the next phase, the
/// action and the durable record after the step.
///
/// - Idle, told to start: it takes its next proposal number and sends a
///   prepare request with it.
/// - Preparing, given a quorum's answers: it sends an accept request for the
///   value that `value_to_propose` names, or finishes where there is none.
/// - Accepting, given a quorum's answers: it moves its round counter beyond
///   the rounds they report; where every answer reports its own number the
///   value is chosen, and else it retries.
/// - Any other pair changes nothing.
pub open spec fn next_step(
    phase: PhaseView,
    event: EventView,
    address: Address,
    original_value: Option<Value>,
    durable: DurableView,
) -> (PhaseView, ActionView, DurableView) {
    match (phase, event) {
        (PhaseView::Idle, EventView::Start) => {
            let proposal_number = durable.next_number(address);
            (
                PhaseView::Preparing { proposal_number },
                ActionView::Prepare(Some(proposal_number)),
                durable.advanced(),
            )
        },
        (PhaseView::Preparing { proposal_number }, EventView::Prepared(answers)) => {
            match value_to_propose(answers, original_value) {
                Some(value) => (
                    PhaseView::Accepting { proposal_number, value },
                    ActionView::Accept(proposal_number, value),
                    durable,
                ),
                None => (PhaseView::Finished, ActionView::Finish, durable),
            }
        },
        (PhaseView::Accepting { proposal_number, value }, EventView::Accepted(promises)) => {
            if chosen_by(promises, proposal_number) {
                (PhaseView::Finished, ActionView::Choose(value), durable.caught_up(promises))
            } else {
                (PhaseView::Idle, ActionView::Retry, durable.caught_up(promises))
            }
        },
        _ => (phase, ActionView::Wait, durable),
    }
}

/// Whether the rounds in an event leave room for the round counter to move
/// beyond them.
pub open spec fn rounds_in_range(event: EventView) -> bool {
    event matches EventView::Accepted(promises) ==> forall|i: int|
        0 <= i < promises.len() ==> (#[trigger] promises[i]).round < u64::MAX
}

/// Takes one step of the proposer at `nodes[node_index]`, which proposes
/// `original_value` if the cluster holds no value yet. The caller sends what
/// the action names, waits as it says, and comes back with the event; where
/// `persist` is set it first brings the durable record to stable storage.
pub fn propose(
    phase: Phase,
    event: Event,
    nodes: &[Address],
    node_index: usize,
    original_value: Option<&str>,
    state: &mut Durable,
) -> (step: Step)
    requires
        node_index < nodes@.len(),
        phase is Idle && event is Start ==> old(state).next_round < u64::MAX,
        phase is Accepting ==> rounds_in_range(event@),
    ensures
        (step.phase@, step.action@, final(state)@) == next_step(
            phase@,
            event@,
            nodes@[node_index as int],
            original_view(original_value),
            old(state)@,
        ),
        step.persist == (final(state)@ != old(state)@),
        old(state).next_round <= final(state).next_round,
{
    match (phase, event) {
        (Phase::Idle, Event::Start) => {
            let proposal_number = generate_proposal_number(nodes, node_index, state);
            Step {
                phase: Phase::Preparing { proposal_number },
                action: Action::Prepare(PrepareRequest { proposal_number: Some(proposal_number) }),
                persist: true,
            }
        },
        (Phase::Preparing { proposal_number }, Event::Prepared(responses)) => {
            match select_value(&responses, original_value) {
                Some(value) => Step {
                    phase: Phase::Accepting { proposal_number, value: value.clone() },
                    action: Action::Accept(AcceptRequest { proposal: (proposal_number, value) }),
                    persist: false,
                },
                None => Step { phase: Phase::Finished, action: Action::Finish, persist: false },
            }
        },
        (Phase::Accepting { proposal_number, value }, Event::Accepted(responses)) => {
            proof {
                assert forall|i: int| 0 <= i < responses@.len() implies (
                #[trigger] responses@[i]).min_proposal_number.round < u64::MAX by {
                    assert(promises_view(responses@)[i] == responses@[i].min_proposal_number);
                }
            }
            let (value_chosen, persist) = observe_promises(&responses, proposal_number, state);
            if value_chosen {
                Step {
                    phase: Phase::Finished,
                    action: Action::Choose(ChooseRequest { value }),
                    persist,
                }
            } else {
                Step { phase: Phase::Idle, action: Action::Retry, persist }
            }
        },
        (phase, _) => Step { phase, action: Action::Wait, persist: false },
    }
}

} // verus!
