use paxos::acceptor::{AcceptResponse, PrepareResponse};
use paxos::proposer::{
    contention_delay, generate_proposal_number, observe_promises, propose, select_value, Action,
    Event, Phase, CONTENTION_DELAY_MAX,
};
use paxos::state::{initial, Address, IpAddress, ProposalNumber};

fn address(last: u8, port: u16) -> Address {
    Address::new(IpAddress::v4(127, 0, 0, last), port)
}

fn number(round: u64, port: u16) -> ProposalNumber {
    ProposalNumber { round, proposer_address: address(1, port) }
}

fn accepted(round: u64, port: u16, value: &str) -> PrepareResponse {
    PrepareResponse { accepted_proposal: Some((number(round, port), value.to_string())) }
}

fn nothing() -> PrepareResponse {
    PrepareResponse { accepted_proposal: None }
}

#[test]
fn proposer_first_proposal_number() {
    let mut state = initial();
    let address0 = Address::new(IpAddress::v4(192, 168, 0, 1), 3000);
    let address1 = Address::new(IpAddress::v4(127, 0, 0, 2), 3001);
    let address2 = Address::new(IpAddress::v4(127, 0, 0, 3), 3002);
    let nodes = vec![address0, address1, address2];
    let pn = generate_proposal_number(&nodes, 1, &mut state.0);
    assert_eq!(pn.round, 0);
    assert_eq!(pn.proposer_address, address1);
}

#[test]
fn proposer_second_proposal_number() {
    let mut state = initial();
    let nodes = vec![Address::new(IpAddress::v4(127, 0, 0, 1), 3000)];
    let pn0 = generate_proposal_number(&nodes, 0, &mut state.0);
    let pn1 = generate_proposal_number(&nodes, 0, &mut state.0);
    assert!(pn1 > pn0);
}

#[test]
fn protocol_first_proposal_number() {
    let mut state = initial();
    let address1 = Address::new(IpAddress::v4(127, 0, 0, 1), 3000);
    let address2 = Address::new(IpAddress::v4(127, 0, 0, 2), 3001);
    let address3 = Address::new(IpAddress::v4(127, 0, 0, 3), 3002);
    let nodes = vec![address1, address2, address3];
    let pn = generate_proposal_number(&nodes, 1, &mut state.0);
    assert_eq!(pn.round, 0);
    assert_eq!(pn.proposer_address.ip, IpAddress::V4(0x7f00_0002));
    assert_eq!(pn.proposer_address.port, 3001);
}

#[test]
fn protocol_second_proposal_number() {
    let mut state = initial();
    let nodes = vec![Address::new(IpAddress::v4(127, 0, 0, 1), 3000)];
    let pn1 = generate_proposal_number(&nodes, 0, &mut state.0);
    let pn2 = generate_proposal_number(&nodes, 0, &mut state.0);
    assert!(pn2 > pn1);
}

#[test]
fn generating_a_number_moves_the_round_counter_only() {
    let mut state = initial();
    let promised = number(9, 1);
    state.0.next_round = 41;
    state.0.min_proposal_number = Some(promised);
    state.0.accepted_proposal = Some((promised, "v".to_string()));
    let nodes = vec![address(1, 3000), address(2, 3000)];
    let pn = generate_proposal_number(&nodes, 0, &mut state.0);
    assert_eq!(pn, ProposalNumber { round: 41, proposer_address: address(1, 3000) });
    assert_eq!(state.0.next_round, 42);
    assert_eq!(state.0.min_proposal_number, Some(promised));
    assert_eq!(state.0.accepted_proposal, Some((promised, "v".to_string())));
}

#[test]
fn agents_at_different_endpoints_take_different_numbers() {
    let nodes = vec![address(1, 3000), address(1, 3001)];
    let mut first = initial();
    let mut second = initial();
    let pn0 = generate_proposal_number(&nodes, 0, &mut first.0);
    let pn1 = generate_proposal_number(&nodes, 1, &mut second.0);
    assert_eq!(pn0.round, pn1.round);
    assert_ne!(pn0, pn1);
}

#[test]
fn select_value_picks_up_the_highest_accepted_proposal() {
    let responses = vec![accepted(1, 1, "a"), nothing(), accepted(3, 1, "c"), accepted(2, 9, "b")];
    assert_eq!(select_value(&responses, Some("mine")), Some("c".to_string()));
    assert_eq!(select_value(&responses, None), Some("c".to_string()));
}

#[test]
fn select_value_breaks_round_ties_by_address() {
    let responses = vec![accepted(2, 7, "high"), accepted(2, 3, "low")];
    assert_eq!(select_value(&responses, Some("mine")), Some("high".to_string()));
}

#[test]
fn select_value_takes_the_last_of_equal_numbers() {
    let responses = vec![accepted(2, 3, "first"), accepted(1, 3, "x"), accepted(2, 3, "last")];
    assert_eq!(select_value(&responses, None), Some("last".to_string()));
}

#[test]
fn select_value_falls_back_to_the_original_value() {
    let responses = vec![nothing(), nothing()];
    assert_eq!(select_value(&responses, Some("mine")), Some("mine".to_string()));
    assert_eq!(select_value(&responses, None), None);
    assert_eq!(select_value(&Vec::new(), Some("mine")), Some("mine".to_string()));
    assert_eq!(select_value(&Vec::new(), None), None);
}

#[test]
fn observe_promises_sees_a_chosen_proposal() {
    let mut state = initial();
    state.0.next_round = 3;
    let own = number(2, 1);
    let responses =
        vec![AcceptResponse { min_proposal_number: own }, AcceptResponse { min_proposal_number: own }];
    let (chosen, changed) = observe_promises(&responses, own, &mut state.0);
    assert!(chosen);
    assert!(!changed);
    assert_eq!(state.0.next_round, 3);
}

#[test]
fn observe_promises_moves_beyond_the_highest_round() {
    let mut state = initial();
    state.0.next_round = 1;
    let own = number(0, 1);
    let responses = vec![
        AcceptResponse { min_proposal_number: own },
        AcceptResponse { min_proposal_number: number(5, 2) },
        AcceptResponse { min_proposal_number: number(3, 3) },
    ];
    let (chosen, changed) = observe_promises(&responses, own, &mut state.0);
    assert!(!chosen);
    assert!(changed);
    assert_eq!(state.0.next_round, 6);
}

#[test]
fn observe_promises_moves_past_a_round_equal_to_the_counter() {
    let mut state = initial();
    state.0.next_round = 4;
    let own = number(3, 1);
    let responses = vec![AcceptResponse { min_proposal_number: number(4, 2) }];
    let (chosen, changed) = observe_promises(&responses, own, &mut state.0);
    assert!(!chosen);
    assert!(changed);
    assert_eq!(state.0.next_round, 5);
}

#[test]
fn observe_promises_is_preempted_by_an_equal_round_at_another_address() {
    let mut state = initial();
    state.0.next_round = 1;
    let own = number(0, 1);
    let responses = vec![AcceptResponse { min_proposal_number: number(0, 2) }];
    let (chosen, changed) = observe_promises(&responses, own, &mut state.0);
    assert!(!chosen);
    assert!(!changed);
    assert_eq!(state.0.next_round, 1);
}

#[test]
fn observe_promises_with_no_answers_changes_nothing() {
    let mut state = initial();
    state.0.next_round = 2;
    let (chosen, changed) = observe_promises(&Vec::new(), number(1, 1), &mut state.0);
    assert!(chosen);
    assert!(!changed);
    assert_eq!(state.0.next_round, 2);
}

#[test]
fn propose_walks_through_an_attempt_that_succeeds() {
    let nodes = vec![address(1, 3000), address(1, 3001), address(1, 3002)];
    let mut state = initial();

    let step = propose(Phase::Idle, Event::Start, &nodes, 1, Some("x"), &mut state.0);
    let own = ProposalNumber { round: 0, proposer_address: address(1, 3001) };
    assert!(step.persist);
    assert_eq!(state.0.next_round, 1);
    assert!(matches!(step.phase, Phase::Preparing { proposal_number } if proposal_number == own));
    assert!(matches!(step.action, Action::Prepare(ref r) if r.proposal_number == Some(own)));

    let step = propose(
        step.phase,
        Event::Prepared(vec![nothing(), nothing()]),
        &nodes,
        1,
        Some("x"),
        &mut state.0,
    );
    assert!(!step.persist);
    assert!(matches!(step.phase, Phase::Accepting { proposal_number, ref value }
        if proposal_number == own && value == "x"));
    assert!(matches!(step.action, Action::Accept(ref r) if r.proposal == (own, "x".to_string())));

    let step = propose(
        step.phase,
        Event::Accepted(vec![
            AcceptResponse { min_proposal_number: own },
            AcceptResponse { min_proposal_number: own },
        ]),
        &nodes,
        1,
        Some("x"),
        &mut state.0,
    );
    assert!(!step.persist);
    assert!(matches!(step.phase, Phase::Finished));
    assert!(matches!(step.action, Action::Choose(ref r) if r.value == "x"));
    assert_eq!(state.0.next_round, 1);
}

#[test]
fn propose_retries_when_overtaken() {
    let nodes = vec![address(1, 3000), address(1, 3001), address(1, 3002)];
    let mut state = initial();
    let step = propose(Phase::Idle, Event::Start, &nodes, 0, Some("a"), &mut state.0);
    let step = propose(
        step.phase,
        Event::Prepared(vec![nothing(), nothing()]),
        &nodes,
        0,
        Some("a"),
        &mut state.0,
    );
    let own = ProposalNumber { round: 0, proposer_address: address(1, 3000) };
    let other = ProposalNumber { round: 1, proposer_address: address(1, 3001) };
    let step = propose(
        step.phase,
        Event::Accepted(vec![
            AcceptResponse { min_proposal_number: own },
            AcceptResponse { min_proposal_number: other },
        ]),
        &nodes,
        0,
        Some("a"),
        &mut state.0,
    );
    assert!(step.persist);
    assert!(matches!(step.phase, Phase::Idle));
    assert!(matches!(step.action, Action::Retry));
    assert_eq!(state.0.next_round, 2);

    let step = propose(step.phase, Event::Start, &nodes, 0, Some("a"), &mut state.0);
    let next = ProposalNumber { round: 2, proposer_address: address(1, 3000) };
    assert!(matches!(step.action, Action::Prepare(ref r) if r.proposal_number == Some(next)));
    assert_eq!(state.0.next_round, 3);
}

#[test]
fn propose_without_a_value_finishes_when_nothing_is_accepted() {
    let nodes = vec![address(1, 3000)];
    let mut state = initial();
    let step = propose(Phase::Idle, Event::Start, &nodes, 0, None, &mut state.0);
    let step =
        propose(step.phase, Event::Prepared(vec![nothing()]), &nodes, 0, None, &mut state.0);
    assert!(!step.persist);
    assert!(matches!(step.phase, Phase::Finished));
    assert!(matches!(step.action, Action::Finish));
}

#[test]
fn propose_without_a_value_picks_up_what_is_accepted() {
    let nodes = vec![address(1, 3000)];
    let mut state = initial();
    let step = propose(Phase::Idle, Event::Start, &nodes, 0, None, &mut state.0);
    let step = propose(
        step.phase,
        Event::Prepared(vec![accepted(0, 9, "found")]),
        &nodes,
        0,
        None,
        &mut state.0,
    );
    let own = ProposalNumber { round: 0, proposer_address: address(1, 3000) };
    assert!(matches!(step.action, Action::Accept(ref r) if r.proposal == (own, "found".to_string())));
}

#[test]
fn propose_waits_on_an_event_that_its_phase_does_not_expect() {
    let nodes = vec![address(1, 3000)];
    let mut state = initial();
    let step = propose(Phase::Idle, Event::Prepared(vec![]), &nodes, 0, Some("v"), &mut state.0);
    assert!(matches!(step.phase, Phase::Idle));
    assert!(matches!(step.action, Action::Wait));
    assert!(!step.persist);
    assert_eq!(state.0.next_round, 0);

    let own = ProposalNumber { round: 0, proposer_address: address(1, 3000) };
    let step = propose(
        Phase::Preparing { proposal_number: own },
        Event::Start,
        &nodes,
        0,
        Some("v"),
        &mut state.0,
    );
    assert!(matches!(step.phase, Phase::Preparing { proposal_number } if proposal_number == own));
    assert!(matches!(step.action, Action::Wait));

    let step = propose(
        Phase::Accepting { proposal_number: own, value: "v".to_string() },
        Event::Prepared(vec![nothing()]),
        &nodes,
        0,
        Some("v"),
        &mut state.0,
    );
    assert!(matches!(step.phase, Phase::Accepting { .. }));
    assert!(matches!(step.action, Action::Wait));

    let step = propose(Phase::Finished, Event::Start, &nodes, 0, Some("v"), &mut state.0);
    assert!(matches!(step.phase, Phase::Finished));
    assert!(matches!(step.action, Action::Wait));
    assert_eq!(state.0.next_round, 0);
}

#[test]
fn contention_delay_stays_within_its_bound() {
    assert_eq!(CONTENTION_DELAY_MAX, 100);
    assert_eq!(contention_delay(0), 0);
    assert_eq!(contention_delay(100), 100);
    assert_eq!(contention_delay(101), 0);
    assert_eq!(contention_delay(250), 48);
    assert_eq!(contention_delay(u64::MAX), u64::MAX % 101);
    for random in 0..1000u64 {
        assert!(contention_delay(random * 7919) <= CONTENTION_DELAY_MAX);
    }
}
