use paxos::acceptor::{handle_request, Request, Response};
use paxos::proposer::{propose, Action, Event, Phase};
use paxos::rpc::{broadcast_quorum, Gathered};
use paxos::state::{initial, restore, Address, Durable, IpAddress, ProposalNumber, Stored, Volatile};

struct Node {
    state: (Durable, Volatile),
    sink: Vec<String>,
    persisted: u32,
}

fn cluster(size: u16) -> (Vec<Address>, Vec<Node>) {
    let addresses: Vec<Address> =
        (0..size).map(|i| Address::new(IpAddress::v4(127, 0, 0, 1), 3000 + i)).collect();
    let nodes = (0..size).map(|_| Node { state: initial(), sink: Vec::new(), persisted: 0 }).collect();
    (addresses, nodes)
}

fn deliver(node: &mut Node, request: &Request) -> Response {
    let reply = handle_request(request, &mut node.state);
    if reply.persist {
        node.persisted += 1;
    }
    if let Some(line) = reply.emit {
        node.sink.push(line);
    }
    reply.response
}

fn restart(node: &mut Node) {
    let durable = std::mem::replace(&mut node.state, initial()).0;
    node.state = restore::<String>(Stored::Found(durable)).unwrap();
    node.sink.clear();
}

fn step(
    nodes: &mut [Node],
    addresses: &[Address],
    index: usize,
    value: Option<&str>,
    phase: Phase,
    event: Event,
) -> (Phase, Action) {
    let taken = propose(phase, event, addresses, index, value, &mut nodes[index].state.0);
    if taken.persist {
        nodes[index].persisted += 1;
    }
    (taken.phase, taken.action)
}

fn gather(nodes: &mut [Node], order: &[usize], request: &Request) -> Vec<Response> {
    let mut answers = Vec::new();
    for peer in order {
        let answer = deliver(&mut nodes[*peer], request);
        match broadcast_quorum(answers, answer, nodes.len()) {
            Gathered::Complete(all) => return all,
            Gathered::Pending(some) => answers = some,
        }
    }
    panic!("no quorum among the peers that can be reached");
}

fn prepared(responses: Vec<Response>) -> Event {
    Event::Prepared(
        responses
            .into_iter()
            .map(|response| match response {
                Response::Prepare(answer) => answer,
                _ => panic!("not an answer to a prepare request"),
            })
            .collect(),
    )
}

fn accepted(responses: Vec<Response>) -> Event {
    Event::Accepted(
        responses
            .into_iter()
            .map(|response| match response {
                Response::Accept(answer) => answer,
                _ => panic!("not an answer to an accept request"),
            })
            .collect(),
    )
}

/// Runs a proposer until it is done, reaching the peers in `order`; gives the
/// number of attempts it took.
fn run_proposer(
    nodes: &mut [Node],
    addresses: &[Address],
    index: usize,
    value: Option<&str>,
    order: &[usize],
) -> u32 {
    let mut attempts = 0;
    let mut phase = Phase::Idle;
    let mut event = Event::Start;
    loop {
        if matches!(event, Event::Start) {
            attempts += 1;
            assert!(attempts < 10, "the proposer does not come to an end");
        }
        let (next, action) = step(nodes, addresses, index, value, phase, event);
        phase = next;
        event = match action {
            Action::Prepare(request) => prepared(gather(nodes, order, &Request::Prepare(request))),
            Action::Accept(request) => accepted(gather(nodes, order, &Request::Accept(request))),
            Action::Choose(request) => {
                let request = Request::Choose(request);
                for node in nodes.iter_mut() {
                    deliver(node, &request);
                }
                return attempts;
            }
            Action::Retry => Event::Start,
            Action::Finish => return attempts,
            Action::Wait => panic!("the proposer waits for an event that was just given"),
        };
    }
}

#[test]
fn single_agent_single_proposal() {
    let (addresses, mut nodes) = cluster(1);
    let attempts = run_proposer(&mut nodes, &addresses, 0, Some("hello"), &[0]);
    assert_eq!(attempts, 1);
    assert_eq!(nodes[0].sink, vec!["hello".to_string()]);
    let number = ProposalNumber { round: 0, proposer_address: addresses[0] };
    assert_eq!(nodes[0].state.0.next_round, 1);
    assert_eq!(nodes[0].state.0.min_proposal_number, Some(number));
    assert_eq!(nodes[0].state.0.accepted_proposal, Some((number, "hello".to_string())));
    assert_eq!(nodes[0].state.1.chosen_value, Some("hello".to_string()));
    // The number, the promise and the acceptance each went to stable storage.
    assert_eq!(nodes[0].persisted, 3);
}

#[test]
fn three_agents_one_proposer() {
    let (addresses, mut nodes) = cluster(3);
    run_proposer(&mut nodes, &addresses, 0, Some("x"), &[0, 1, 2]);
    for node in &nodes {
        assert_eq!(node.sink, vec!["x".to_string()]);
        assert_eq!(node.state.1.chosen_value, Some("x".to_string()));
    }
    // The third agent was not in the quorum: it learned without accepting.
    assert_eq!(nodes[2].state.0.accepted_proposal, None);
}

#[test]
fn competing_proposer_picks_up_the_existing_value() {
    let (addresses, mut nodes) = cluster(3);
    run_proposer(&mut nodes, &addresses, 0, Some("a"), &[0, 1, 2]);
    restart(&mut nodes[1]);
    assert_eq!(nodes[1].state.1.chosen_value, None);

    run_proposer(&mut nodes, &addresses, 1, Some("b"), &[1, 2, 0]);
    assert_eq!(nodes[1].sink, vec!["a".to_string()]);
    assert_eq!(nodes[0].sink, vec!["a".to_string()]);
    assert_eq!(nodes[2].sink, vec!["a".to_string()]);
    for node in &nodes {
        assert_eq!(node.state.1.chosen_value, Some("a".to_string()));
        if let Some((_, value)) = &node.state.0.accepted_proposal {
            assert_eq!(value, "a");
        }
    }
}

#[test]
fn preemption_and_retry() {
    let (addresses, mut nodes) = cluster(3);
    nodes[1].state.0.next_round = 1;

    // Agent 0 takes round 0 and hears promises from a quorum.
    let (phase, action) = step(&mut nodes, &addresses, 0, Some("y"), Phase::Idle, Event::Start);
    let request = match action {
        Action::Prepare(request) => Request::Prepare(request),
        _ => panic!("a proposer that starts sends a prepare request"),
    };
    let promises = prepared(gather(&mut nodes, &[0, 1, 2], &request));

    // Before it can go on, agent 1 completes a whole attempt with round 1.
    let attempts = run_proposer(&mut nodes, &addresses, 1, Some("z"), &[1, 2, 0]);
    assert_eq!(attempts, 1);

    // Agent 0 goes on with "y", is overtaken, and moves beyond round 1.
    let (phase, action) = step(&mut nodes, &addresses, 0, Some("y"), phase, promises);
    let request = match action {
        Action::Accept(request) => {
            assert_eq!(request.proposal.1, "y");
            Request::Accept(request)
        }
        _ => panic!("a proposer with a value sends an accept request"),
    };
    let answers = accepted(gather(&mut nodes, &[0, 1, 2], &request));
    let (phase, action) = step(&mut nodes, &addresses, 0, Some("y"), phase, answers);
    assert!(matches!(action, Action::Retry));
    assert!(matches!(phase, Phase::Idle));
    assert_eq!(nodes[0].state.0.next_round, 2);

    // On the next attempt it picks up "z".
    let attempts = run_proposer(&mut nodes, &addresses, 0, Some("y"), &[0, 2, 1]);
    assert_eq!(attempts, 1);
    assert_eq!(nodes[0].state.0.next_round, 3);
    for node in &nodes {
        assert_eq!(node.sink, vec!["z".to_string()]);
        assert_eq!(node.state.1.chosen_value, Some("z".to_string()));
    }
}

#[test]
fn proposers_in_turn_agree_whatever_quorums_they_reach() {
    let orders: [[usize; 5]; 4] =
        [[0, 1, 2, 3, 4], [4, 3, 2, 1, 0], [2, 4, 0, 1, 3], [1, 3, 4, 2, 0]];
    for first in 0..5usize {
        for order in &orders {
            let (addresses, mut nodes) = cluster(5);
            run_proposer(&mut nodes, &addresses, first, Some("first"), order);
            for second in 0..5usize {
                let mut reversed = *order;
                reversed.reverse();
                run_proposer(&mut nodes, &addresses, second, Some("second"), &reversed);
            }
            for node in &nodes {
                assert_eq!(node.sink, vec!["first".to_string()]);
            }
        }
    }
}

#[test]
fn a_probe_finds_nothing_in_a_fresh_cluster() {
    let (addresses, mut nodes) = cluster(3);
    let attempts = run_proposer(&mut nodes, &addresses, 2, None, &[2, 1, 0]);
    assert_eq!(attempts, 1);
    for node in &nodes {
        assert!(node.sink.is_empty());
        assert_eq!(node.state.0.accepted_proposal, None);
    }
    assert_eq!(nodes[2].state.0.next_round, 1);
}

#[test]
fn a_probe_spreads_a_value_that_was_accepted() {
    let (addresses, mut nodes) = cluster(3);
    run_proposer(&mut nodes, &addresses, 0, Some("v"), &[0, 1, 2]);
    for node in nodes.iter_mut() {
        restart(node);
    }
    run_proposer(&mut nodes, &addresses, 2, None, &[2, 1, 0]);
    for node in &nodes {
        assert_eq!(node.sink, vec!["v".to_string()]);
    }
}
