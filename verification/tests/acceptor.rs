use paxos::acceptor::{
    accept, handle_request, learn, prepare, route, AcceptRequest, ChooseRequest, Method,
    PrepareRequest, Request, Response, Route, ACCEPT_ENDPOINT, CHOOSE_ENDPOINT, PREPARE_ENDPOINT,
};
use paxos::state::{initial, Address, IpAddress, ProposalNumber};

fn local(port: u16) -> Address {
    Address::new(IpAddress::v4(127, 0, 0, 1), port)
}

#[test]
fn prepare_initializes_min_proposal_number() {
    let mut state = initial();
    let request = PrepareRequest {
        proposal_number: Some(ProposalNumber { round: 0, proposer_address: local(8080) }),
    };
    let response = prepare(&request, &mut state);
    assert_eq!(state.0.min_proposal_number, request.proposal_number);
    assert_eq!(response.accepted_proposal, None);
}

#[test]
fn prepare_increases_min_proposal_number() {
    let mut state = initial();
    state.0.min_proposal_number =
        Some(ProposalNumber { round: 0, proposer_address: local(8080) });
    let request = PrepareRequest {
        proposal_number: Some(ProposalNumber { round: 1, proposer_address: local(8080) }),
    };
    let response = prepare(&request, &mut state);
    assert_eq!(state.0.min_proposal_number, request.proposal_number);
    assert_eq!(response.accepted_proposal, None);
}

#[test]
fn prepare_does_not_decrease_min_proposal_number() {
    let mut state = initial();
    state.0.min_proposal_number =
        Some(ProposalNumber { round: 1, proposer_address: local(8080) });
    let request = PrepareRequest {
        proposal_number: Some(ProposalNumber { round: 0, proposer_address: local(8080) }),
    };
    let response = prepare(&request, &mut state);
    assert_ne!(state.0.min_proposal_number, request.proposal_number);
    assert_eq!(response.accepted_proposal, None);
}

#[test]
fn prepare_returns_accepted_proposal() {
    let mut state = initial();
    let accepted_proposal =
        (ProposalNumber { round: 0, proposer_address: local(8080) }, "foo".to_string());
    state.0.min_proposal_number = Some(accepted_proposal.0);
    state.0.accepted_proposal = Some(accepted_proposal.clone());
    let request = PrepareRequest {
        proposal_number: Some(ProposalNumber { round: 1, proposer_address: local(8080) }),
    };
    let response = prepare(&request, &mut state);
    assert_eq!(response.accepted_proposal, Some(accepted_proposal));
}

#[test]
fn accept_success() {
    let mut state = initial();
    let proposal = (ProposalNumber { round: 0, proposer_address: local(8080) }, "foo".to_string());

    let prepare_request = PrepareRequest { proposal_number: Some(proposal.0) };
    prepare(&prepare_request, &mut state);

    let accept_request = AcceptRequest { proposal: proposal.clone() };
    let accept_response = accept(&accept_request, &mut state);

    assert_eq!(state.0.accepted_proposal, Some(proposal.clone()));
    assert_eq!(accept_response.min_proposal_number, proposal.0);
    assert_eq!(state.0.min_proposal_number, Some(proposal.0));
}

#[test]
fn accept_failure() {
    let mut state = initial();
    let proposal0 =
        (ProposalNumber { round: 0, proposer_address: local(8080) }, "foo".to_string());
    let proposal1 =
        (ProposalNumber { round: 1, proposer_address: local(8081) }, "bar".to_string());

    let prepare_request1 = PrepareRequest { proposal_number: Some(proposal0.0) };
    prepare(&prepare_request1, &mut state);

    let prepare_request2 = PrepareRequest { proposal_number: Some(proposal1.0) };
    prepare(&prepare_request2, &mut state);

    let accept_request = AcceptRequest { proposal: proposal0 };
    let accept_response = accept(&accept_request, &mut state);

    assert_eq!(state.0.accepted_proposal, None);
    assert_eq!(accept_response.min_proposal_number, proposal1.0);
    assert_eq!(state.0.min_proposal_number, Some(proposal1.0));
}

#[test]
fn choose_updates_state() {
    let mut state = initial();
    let request = ChooseRequest { value: "foo".to_string() };
    learn(&request, &mut state);
    assert_eq!(state.1.chosen_value, Some(request.value));
}

#[test]
fn prepare_without_a_number_changes_nothing() {
    let mut state = initial();
    let number = ProposalNumber { round: 4, proposer_address: local(8080) };
    state.0.min_proposal_number = Some(number);
    state.0.accepted_proposal = Some((number, "kept".to_string()));
    let response = prepare(&PrepareRequest { proposal_number: None }, &mut state);
    assert_eq!(state.0.min_proposal_number, Some(number));
    assert_eq!(state.0.next_round, 0);
    assert_eq!(response.accepted_proposal, Some((number, "kept".to_string())));
}

#[test]
fn prepare_with_the_promised_number_keeps_the_promise() {
    let mut state = initial();
    let number = ProposalNumber { round: 2, proposer_address: local(8080) };
    state.0.min_proposal_number = Some(number);
    prepare(&PrepareRequest { proposal_number: Some(number) }, &mut state);
    assert_eq!(state.0.min_proposal_number, Some(number));
}

#[test]
fn accept_without_a_promise_accepts() {
    let mut state = initial();
    let number = ProposalNumber { round: 3, proposer_address: local(8080) };
    let response = accept(&AcceptRequest { proposal: (number, "v".to_string()) }, &mut state);
    assert_eq!(response.min_proposal_number, number);
    assert_eq!(state.0.min_proposal_number, Some(number));
    assert_eq!(state.0.accepted_proposal, Some((number, "v".to_string())));
}

#[test]
fn accept_at_the_promised_number_accepts() {
    let mut state = initial();
    let number = ProposalNumber { round: 3, proposer_address: local(8080) };
    state.0.min_proposal_number = Some(number);
    let response = accept(&AcceptRequest { proposal: (number, "v".to_string()) }, &mut state);
    assert_eq!(response.min_proposal_number, number);
    assert_eq!(state.0.accepted_proposal, Some((number, "v".to_string())));
}

#[test]
fn accept_above_the_promise_raises_the_promise() {
    let mut state = initial();
    let low = ProposalNumber { round: 1, proposer_address: local(8080) };
    let high = ProposalNumber { round: 1, proposer_address: local(8081) };
    state.0.min_proposal_number = Some(low);
    state.0.accepted_proposal = Some((low, "old".to_string()));
    let response = accept(&AcceptRequest { proposal: (high, "new".to_string()) }, &mut state);
    assert_eq!(response.min_proposal_number, high);
    assert_eq!(state.0.min_proposal_number, Some(high));
    assert_eq!(state.0.accepted_proposal, Some((high, "new".to_string())));
}

#[test]
fn rejected_accept_answers_above_the_request() {
    let mut state = initial();
    let low = ProposalNumber { round: 1, proposer_address: local(8080) };
    let high = ProposalNumber { round: 2, proposer_address: local(8080) };
    state.0.min_proposal_number = Some(high);
    state.0.accepted_proposal = Some((low, "old".to_string()));
    let response = accept(&AcceptRequest { proposal: (low, "new".to_string()) }, &mut state);
    assert!(response.min_proposal_number > low);
    assert_eq!(state.0.accepted_proposal, Some((low, "old".to_string())));
}

#[test]
fn learn_emits_the_first_value_only() {
    let mut state = initial();
    let first = learn(&ChooseRequest { value: "a".to_string() }, &mut state);
    assert_eq!(first.1, Some("a".to_string()));
    let second = learn(&ChooseRequest { value: "b".to_string() }, &mut state);
    assert_eq!(second.1, None);
    let third = learn(&ChooseRequest { value: "a".to_string() }, &mut state);
    assert_eq!(third.1, None);
    assert_eq!(state.1.chosen_value, Some("a".to_string()));
    assert_eq!(state.0.min_proposal_number, None);
    assert_eq!(state.0.accepted_proposal, None);
}

#[test]
fn handle_request_says_when_to_persist() {
    let mut state = initial();
    let low = ProposalNumber { round: 0, proposer_address: local(8080) };
    let high = ProposalNumber { round: 1, proposer_address: local(8080) };

    let reply = handle_request(
        &Request::Prepare(PrepareRequest { proposal_number: Some(high) }),
        &mut state,
    );
    assert!(reply.persist);
    assert_eq!(reply.emit, None);
    assert!(matches!(reply.response, Response::Prepare(ref r) if r.accepted_proposal.is_none()));

    let reply = handle_request(
        &Request::Prepare(PrepareRequest { proposal_number: Some(low) }),
        &mut state,
    );
    assert!(!reply.persist);
    let reply =
        handle_request(&Request::Prepare(PrepareRequest { proposal_number: None }), &mut state);
    assert!(!reply.persist);
    assert_eq!(state.0.min_proposal_number, Some(high));

    let reply = handle_request(
        &Request::Accept(AcceptRequest { proposal: (low, "x".to_string()) }),
        &mut state,
    );
    assert!(!reply.persist);
    assert!(matches!(reply.response, Response::Accept(r) if r.min_proposal_number == high));
    assert_eq!(state.0.accepted_proposal, None);

    let reply = handle_request(
        &Request::Accept(AcceptRequest { proposal: (high, "y".to_string()) }),
        &mut state,
    );
    assert!(reply.persist);
    assert!(matches!(reply.response, Response::Accept(r) if r.min_proposal_number == high));
    assert_eq!(state.0.accepted_proposal, Some((high, "y".to_string())));

    let reply =
        handle_request(&Request::Choose(ChooseRequest { value: "y".to_string() }), &mut state);
    assert!(!reply.persist);
    assert_eq!(reply.emit, Some("y".to_string()));
    assert!(matches!(reply.response, Response::Choose(_)));
    let reply =
        handle_request(&Request::Choose(ChooseRequest { value: "z".to_string() }), &mut state);
    assert!(!reply.persist);
    assert_eq!(reply.emit, None);
    assert_eq!(state.1.chosen_value, Some("y".to_string()));
}

#[test]
fn route_tells_the_endpoints_apart() {
    assert_eq!(PREPARE_ENDPOINT, "/prepare");
    assert_eq!(ACCEPT_ENDPOINT, "/accept");
    assert_eq!(CHOOSE_ENDPOINT, "/choose");
    assert_eq!(route(Method::Post, "/prepare"), Route::Prepare);
    assert_eq!(route(Method::Post, "/accept"), Route::Accept);
    assert_eq!(route(Method::Post, "/choose"), Route::Choose);
    assert_eq!(route(Method::Get, "/"), Route::Status);
    assert_eq!(route(Method::Get, "/favicon.ico"), Route::Favicon);
    assert_eq!(route(Method::Get, "/prepare"), Route::NotFound);
    assert_eq!(route(Method::Post, "/"), Route::NotFound);
    assert_eq!(route(Method::Other, "/accept"), Route::NotFound);
    assert_eq!(route(Method::Post, "/prepare/"), Route::NotFound);
    assert_eq!(route(Method::Get, ""), Route::NotFound);
}

#[test]
fn requests_clone_to_equal_requests() {
    let number = ProposalNumber { round: 7, proposer_address: local(1) };
    let accept_request = AcceptRequest { proposal: (number, "v".to_string()) };
    assert_eq!(accept_request.clone().proposal, (number, "v".to_string()));
    let choose_request = ChooseRequest { value: "w".to_string() };
    assert_eq!(choose_request.clone().value, "w");
    let mut state = initial();
    state.0.accepted_proposal = Some((number, "v".to_string()));
    let response = prepare(&PrepareRequest { proposal_number: None }, &mut state);
    assert_eq!(response.clone().accepted_proposal, Some((number, "v".to_string())));
}
