//! The acceptor half of an agent: how it answers a prepare, an accept and a
//! choose request, and what each answer does to its state.

use crate::state::{
    lemma_order_is_transitive, proposal_view, value_view, Durable, DurableView, ProposalNumber,
    Value, Volatile, VolatileView,
};
use vstd::prelude::*;

verus! {

/// The endpoint for prepare requests.
pub const PREPARE_ENDPOINT: &'static str = "/prepare";

/// The endpoint for accept requests.
pub const ACCEPT_ENDPOINT: &'static str = "/accept";

/// The endpoint for choose requests.
pub const CHOOSE_ENDPOINT: &'static str = "/choose";

/// Asks an agent to promise that it will accept nothing below a proposal
/// number. Without a number it only asks what the agent has accepted.
#[derive(Clone, Copy, Debug)]
pub struct PrepareRequest {
    pub proposal_number: Option<ProposalNumber>,
}

/// The answer to a prepare request: what the agent has accepted so far.
#[derive(Debug)]
pub struct PrepareResponse {
    pub accepted_proposal: Option<(ProposalNumber, String)>,
}

/// Asks an agent to accept a proposal.
#[derive(Debug)]
pub struct AcceptRequest {
    pub proposal: (ProposalNumber, String),
}

/// The answer to an accept request: the agent's promise after the request.
#[derive(Clone, Copy, Debug)]
pub struct AcceptResponse {
    pub min_proposal_number: ProposalNumber,
}

/// Tells an agent which value was chosen.
#[derive(Debug)]
pub struct ChooseRequest {
    pub value: String,
}

/// The answer to a choose request. It carries nothing.
#[derive(Clone, Copy, Debug)]
pub struct ChooseResponse;

impl View for PrepareResponse {
    type V = Option<(ProposalNumber, Value)>;

    open spec fn view(&self) -> Option<(ProposalNumber, Value)> {
        proposal_view(self.accepted_proposal)
    }
}

impl View for AcceptRequest {
    type V = (ProposalNumber, Value);

    open spec fn view(&self) -> (ProposalNumber, Value) {
        (self.proposal.0, self.proposal.1@)
    }
}

impl View for ChooseRequest {
    type V = Value;

    open spec fn view(&self) -> Value {
        self.value@
    }
}

impl Clone for PrepareResponse {
    fn clone(&self) -> (copy: PrepareResponse)
        ensures
            copy@ == self@,
    {
        PrepareResponse {
            accepted_proposal: match &self.accepted_proposal {
                Some((number, value)) => Some((*number, value.clone())),
                None => None,
            },
        }
    }
}

impl Clone for AcceptRequest {
    fn clone(&self) -> (copy: AcceptRequest)
        ensures
            copy@ == self@,
    {
        AcceptRequest { proposal: (self.proposal.0, self.proposal.1.clone()) }
    }
}

impl Clone for ChooseRequest {
    fn clone(&self) -> (copy: ChooseRequest)
        ensures
            copy@ == self@,
    {
        ChooseRequest { value: self.value.clone() }
    }
}

impl DurableView {
    /// Whether a request with `number` raises the promise: there is no
    /// promise yet, or the promise is below `number`.
    pub open spec fn raised_by(self, number: ProposalNumber) -> bool {
        match self.min_proposal_number {
            Some(promised) => promised.below(number),
            None => true,
        }
    }

    /// The record after a prepare request: the promise is the greater of the
    /// old promise and the requested number, and nothing else changes.
    pub open spec fn prepared(self, request: Option<ProposalNumber>) -> DurableView {
        match request {
            Some(number) if self.raised_by(number) => DurableView {
                min_proposal_number: Some(number),
                ..self
            },
            _ => self,
        }
    }

    /// Whether a proposal with `number` is accepted: there is no promise
    /// yet, or the promise is at most `number`.
    pub open spec fn admits(self, number: ProposalNumber) -> bool {
        match self.min_proposal_number {
            Some(promised) => promised.at_most(number),
            None => true,
        }
    }

    /// The record after an accept request: where the proposal is admitted it
    /// becomes both the promise and the accepted proposal, and else nothing
    /// changes.
    pub open spec fn accepted(self, number: ProposalNumber, value: Value) -> DurableView {
        if self.admits(number) {
            DurableView {
                min_proposal_number: Some(number),
                accepted_proposal: Some((number, value)),
                ..self
            }
        } else {
            self
        }
    }

    /// The first promise is no greater than the second; no promise at all
    /// is the least.
    pub open spec fn promise_at_most(self, later: DurableView) -> bool {
        match (self.min_proposal_number, later.min_proposal_number) {
            (Some(before), Some(after)) => before.at_most(after),
            (Some(_), None) => false,
            (None, _) => true,
        }
    }
}

impl VolatileView {
    /// The record after a choose request: the first value that was learned
    /// stays.
    pub open spec fn learned(self, value: Value) -> VolatileView {
        match self.chosen_value {
            Some(_) => self,
            None => VolatileView { chosen_value: Some(value) },
        }
    }

    /// What a choose request puts on the learn sink: the value where none
    /// was learned before, and nothing where one was.
    pub open spec fn announced(self, value: Value) -> Option<Value> {
        match self.chosen_value {
            Some(_) => None,
            None => Some(value),
        }
    }
}

impl VolatileView {
    /// The record after one choose request for each of `values`, in order.
    pub open spec fn learned_all(self, values: Seq<Value>) -> VolatileView
        decreases values.len(),
    {
        if values.len() == 0 {
            self
        } else {
            self.learned_all(values.drop_last()).learned(values.last())
        }
    }
}

/// Once a value is learned, choose requests change nothing and put nothing
/// on the learn sink, whatever values they carry.
pub proof fn lemma_learned_value_stays(volatile: VolatileView, values: Seq<Value>)
    requires
        volatile.chosen_value is Some,
    ensures
        volatile.learned_all(values) == volatile,
        forall|i: int|
            0 <= i < values.len() ==> volatile.learned_all(values.take(i)).announced(
                #[trigger] values[i],
            ) is None,
    decreases values.len(),
{
    if values.len() > 0 {
        lemma_learned_value_stays(volatile, values.drop_last());
        assert forall|i: int| 0 <= i < values.len() implies volatile.learned_all(
            values.take(i),
        ).announced(#[trigger] values[i]) is None by {
            lemma_learned_value_stays(volatile, values.take(i));
        }
    }
}

/// No request lowers a promise, and no request breaks a well-formed record.
pub proof fn lemma_requests_keep_promises(request: RequestView, durable: DurableView)
    ensures
        durable.promise_at_most(request.durable_after(durable)),
        durable.wf() ==> request.durable_after(durable).wf(),
        !request.writes(durable) ==> request.durable_after(durable) == durable,
        request.durable_after(durable).next_round == durable.next_round,
{
    match request {
        RequestView::Prepare(Some(number)) => {
            if durable.raised_by(number) && durable.accepted_proposal is Some {
                lemma_order_is_transitive(
                    durable.accepted_proposal.unwrap().0,
                    durable.min_proposal_number.unwrap(),
                    number,
                );
            }
        },
        _ => {},
    }
}

/// Handles a prepare request: raises the promise to the requested number
/// where that is greater, and answers with the proposal accepted so far.
pub fn prepare(request: &PrepareRequest, state: &mut (Durable, Volatile)) -> (response:
    PrepareResponse)
    ensures
        final(state).0@ == old(state).0@.prepared(request.proposal_number),
        final(state).1@ == old(state).1@,
        response@ == old(state).0@.accepted_proposal,
        old(state).0@.promise_at_most(final(state).0@),
        old(state).0@.wf() ==> final(state).0@.wf(),
{
    if let Some(requested_proposal_number) = request.proposal_number {
        match state.0.min_proposal_number {
            Some(proposal_number) => {
                if requested_proposal_number > proposal_number {
                    state.0.min_proposal_number = Some(requested_proposal_number);
                }
            },
            None => {
                state.0.min_proposal_number = Some(requested_proposal_number);
            },
        }
    }
    PrepareResponse {
        accepted_proposal: match &state.0.accepted_proposal {
            Some((number, value)) => Some((*number, value.clone())),
            None => None,
        },
    }
}

/// Handles an accept request: accepts the proposal unless a greater number
/// has been promised, and answers with the promise that then stands.
pub fn accept(request: &AcceptRequest, state: &mut (Durable, Volatile)) -> (response:
    AcceptResponse)
    ensures
        final(state).0@ == old(state).0@.accepted(request@.0, request@.1),
        final(state).1@ == old(state).1@,
        Some(response.min_proposal_number) == final(state).0@.min_proposal_number,
        old(state).0@.admits(request@.0) <==> response.min_proposal_number == request@.0,
        !old(state).0@.admits(request@.0) ==> request@.0.below(response.min_proposal_number),
        final(state).0@.accepted_proposal != old(state).0@.accepted_proposal ==> {
            &&& final(state).0@.accepted_proposal == Some(request@)
            &&& final(state).0@.min_proposal_number == Some(request@.0)
        },
        old(state).0@.promise_at_most(final(state).0@),
        old(state).0@.wf() ==> final(state).0@.wf(),
{
    let promised: ProposalNumber = match state.0.min_proposal_number {
        Some(proposal_number) if !(request.proposal.0 >= proposal_number) => proposal_number,
        _ => {
            state.0.min_proposal_number = Some(request.proposal.0);
            state.0.accepted_proposal = Some((request.proposal.0, request.proposal.1.clone()));
            request.proposal.0
        },
    };
    AcceptResponse { min_proposal_number: promised }
}

/// Handles a choose request: learns the value unless one was learned
/// before. The second part of the result is the line to put on the learn
/// sink: the value where it was learned by this call, and nothing else.
pub fn learn(request: &ChooseRequest, state: &mut (Durable, Volatile)) -> (outcome: (
    ChooseResponse,
    Option<String>,
))
    ensures
        final(state).0@ == old(state).0@,
        final(state).1@ == old(state).1@.learned(request@),
        value_view(outcome.1) == old(state).1@.announced(request@),
        old(state).1@.chosen_value is Some ==> final(state).1@ == old(state).1@ && outcome.1
            is None,
{
    if state.1.chosen_value.is_none() {
        state.1.chosen_value = Some(request.value.clone());
        (ChooseResponse, Some(request.value.clone()))
    } else {
        (ChooseResponse, None)
    }
}

/// A request to the acceptor, whichever endpoint it came to.
#[derive(Debug)]
pub enum Request {
    Prepare(PrepareRequest),
    Accept(AcceptRequest),
    Choose(ChooseRequest),
}

/// The answer to a request, of the kind that the request asks for.
#[derive(Debug)]
pub enum Response {
    Prepare(PrepareResponse),
    Accept(AcceptResponse),
    Choose(ChooseResponse),
}

/// What the acceptor owes after a request: the answer, whether the durable
/// record has to reach stable storage before the answer leaves, and the line
/// to put on the learn sink, if any.
#[derive(Debug)]
pub struct Reply {
    pub response: Response,
    pub persist: bool,
    pub emit: Option<String>,
}

/// A request as contracts see it.
pub enum RequestView {
    Prepare(Option<ProposalNumber>),
    Accept(ProposalNumber, Value),
    Choose(Value),
}

/// An answer as contracts see it.
pub enum ResponseView {
    Prepare(Option<(ProposalNumber, Value)>),
    Accept(ProposalNumber),
    Choose,
}

impl View for Request {
    type V = RequestView;

    open spec fn view(&self) -> RequestView {
        match self {
            Request::Prepare(request) => RequestView::Prepare(request.proposal_number),
            Request::Accept(request) => RequestView::Accept(request@.0, request@.1),
            Request::Choose(request) => RequestView::Choose(request@),
        }
    }
}

impl View for Response {
    type V = ResponseView;

    open spec fn view(&self) -> ResponseView {
        match self {
            Response::Prepare(response) => ResponseView::Prepare(response@),
            Response::Accept(response) => ResponseView::Accept(response.min_proposal_number),
            Response::Choose(_) => ResponseView::Choose,
        }
    }
}

impl RequestView {
    /// The durable record after the request.
    pub open spec fn durable_after(self, durable: DurableView) -> DurableView {
        match self {
            RequestView::Prepare(number) => durable.prepared(number),
            RequestView::Accept(number, value) => durable.accepted(number, value),
            RequestView::Choose(_) => durable,
        }
    }

    /// The volatile record after the request.
    pub open spec fn volatile_after(self, volatile: VolatileView) -> VolatileView {
        match self {
            RequestView::Choose(value) => volatile.learned(value),
            _ => volatile,
        }
    }

    /// The answer to the request.
    pub open spec fn answer(self, durable: DurableView) -> ResponseView {
        match self {
            RequestView::Prepare(_) => ResponseView::Prepare(durable.accepted_proposal),
            RequestView::Accept(number, _) => ResponseView::Accept(
                if durable.admits(number) {
                    number
                } else {
                    durable.min_proposal_number.unwrap()
                },
            ),
            RequestView::Choose(_) => ResponseView::Choose,
        }
    }

    /// Whether the request writes to the durable record: a prepare request
    /// that raises the promise, and an accept request that is admitted.
    pub open spec fn writes(self, durable: DurableView) -> bool {
        match self {
            RequestView::Prepare(Some(number)) => durable.raised_by(number),
            RequestView::Prepare(None) => false,
            RequestView::Accept(number, _) => durable.admits(number),
            RequestView::Choose(_) => false,
        }
    }

    /// What the request puts on the learn sink.
    pub open spec fn announces(self, volatile: VolatileView) -> Option<Value> {
        match self {
            RequestView::Choose(value) => volatile.announced(value),
            _ => None,
        }
    }
}

/// Handles one request: applies the rule of its endpoint to the state, and
/// says what has to happen before the answer leaves. The durable record
/// changes only where `persist` is set.
pub fn handle_request(request: &Request, state: &mut (Durable, Volatile)) -> (reply: Reply)
    ensures
        final(state).0@ == request@.durable_after(old(state).0@),
        final(state).1@ == request@.volatile_after(old(state).1@),
        reply.response@ == request@.answer(old(state).0@),
        reply.persist == request@.writes(old(state).0@),
        value_view(reply.emit) == request@.announces(old(state).1@),
        !reply.persist ==> final(state).0@ == old(state).0@,
        old(state).0@.promise_at_most(final(state).0@),
        old(state).0@.wf() ==> final(state).0@.wf(),
{
    match request {
        Request::Prepare(request) => {
            let raised = match (request.proposal_number, state.0.min_proposal_number) {
                (Some(number), Some(promised)) => number > promised,
                (Some(_), None) => true,
                (None, _) => false,
            };
            let response = prepare(request, state);
            Reply { response: Response::Prepare(response), persist: raised, emit: None }
        },
        Request::Accept(request) => {
            let response = accept(request, state);
            let admitted = response.min_proposal_number == request.proposal.0;
            Reply { response: Response::Accept(response), persist: admitted, emit: None }
        },
        Request::Choose(request) => {
            let (response, emit) = learn(request, state);
            Reply { response: Response::Choose(response), persist: false, emit }
        },
    }
}

/// The method of a request, as far as the agent tells methods apart.
#[derive(Clone, Copy, Debug, PartialEq, Eq, Structural)]
pub enum Method {
    Get,
    Post,
    Other,
}

/// What a request is for.
#[derive(Clone, Copy, Debug, PartialEq, Eq, Structural)]
pub enum Route {
    /// A prepare request.
    Prepare,
    /// An accept request.
    Accept,
    /// A choose request.
    Choose,
    /// A summary of the agent's state, for a person to read.
    Status,
    /// The icon that browsers ask for.
    Favicon,
    /// Nothing that the agent serves.
    NotFound,
}

/// What a request with `method` for `path` is for.
pub open spec fn route_of(method: Method, path: Seq<char>) -> Route {
    if method == Method::Post && path == PREPARE_ENDPOINT@ {
        Route::Prepare
    } else if method == Method::Post && path == ACCEPT_ENDPOINT@ {
        Route::Accept
    } else if method == Method::Post && path == CHOOSE_ENDPOINT@ {
        Route::Choose
    } else if method == Method::Get && path == "/"@ {
        Route::Status
    } else if method == Method::Get && path == "/favicon.ico"@ {
        Route::Favicon
    } else {
        Route::NotFound
    }
}

/// Says what a request is for, by its method and its path.
pub fn route(method: Method, path: &str) -> (route: Route)
    ensures
        route == route_of(method, path@),
{
    let path = path.to_owned();
    match method {
        Method::Post => {
            if path == PREPARE_ENDPOINT.to_owned() {
                Route::Prepare
            } else if path == ACCEPT_ENDPOINT.to_owned() {
                Route::Accept
            } else if path == CHOOSE_ENDPOINT.to_owned() {
                Route::Choose
            } else {
                Route::NotFound
            }
        },
        Method::Get => {
            if path == "/".to_owned() {
                Route::Status
            } else if path == "/favicon.ico".to_owned() {
                Route::Favicon
            } else {
                Route::NotFound
            }
        },
        Method::Other => Route::NotFound,
    }
}

} // verus!
