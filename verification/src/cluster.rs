//! A cluster of agents as a whole: every agent's state, every message that
//! was ever sent, and the steps by which a cluster moves. Each step applies
//! the rule of one handler or of the proposer to one agent, so what is proved
//! of all runs of this model is proved of the rules themselves.
//!
//! The model takes for granted what the rules cannot see: that an agent
//! brings its durable record to stable storage, where a rule says so, before
//! the answer or the request that the same rule produces leaves the agent;
//! that every agent follows the rules; and that an answer is matched to the
//! request it answers. Messages may be lost, delayed, repeated and reordered;
//! agents may restart at any time, and then hold what stable storage holds.

use crate::acceptor::{RequestView, ResponseView};
use crate::proposer::{next_step, rounds_in_range, ActionView, EventView, PhaseView};
use crate::rpc::quorum_of;
use crate::state::{Address, DurableView, ProposalNumber, Value, VolatileView};
use vstd::prelude::*;

verus! {

/// One agent: its two records, the durable record as stable storage holds
/// it, and the phase of its proposer.
pub struct Agent {
    pub durable: DurableView,
    pub stored: DurableView,
    pub volatile: VolatileView,
    pub phase: PhaseView,
}

/// An answer to a prepare request: `agent` answered the request with
/// `number` by reporting `accepted`.
pub struct Promise {
    pub agent: int,
    pub number: ProposalNumber,
    pub accepted: Option<(ProposalNumber, Value)>,
}

/// An answer to an accept request: `agent` answered the request for the
/// proposal with `number` by reporting `promise`.
pub struct Acceptance {
    pub agent: int,
    pub number: ProposalNumber,
    pub promise: ProposalNumber,
}

/// A cluster: the configured endpoints, the agents at those endpoints, and
/// everything that was sent so far.
pub struct Cluster {
    /// The endpoint of each agent.
    pub nodes: Seq<Address>,
    /// The agents, in the order of their endpoints.
    pub agents: Seq<Agent>,
    /// Every answer to a prepare request that carried a number.
    pub promises: Set<Promise>,
    /// Every proposal that an accept request carried.
    pub proposals: Set<(ProposalNumber, Value)>,
    /// Every answer to an accept request.
    pub acceptances: Set<Acceptance>,
    /// Every value that a choose request carried.
    pub notices: Set<Value>,
}

/// One step of a cluster.
pub enum ClusterStep {
    /// The acceptor of `agent` handles `request`.
    Handle { agent: int, request: RequestView },
    /// The proposer of `agent`, whose own value is `original_value`, takes a
    /// step on `event`. Where the event reports answers, `senders` names the
    /// agent that gave each.
    Propose { agent: int, event: EventView, original_value: Option<Value>, senders: Seq<int> },
    /// `agent` stops, and starts again from what stable storage holds.
    Restart { agent: int },
}

impl Cluster {
    /// The number of agents.
    pub open spec fn size(self) -> int {
        self.nodes.len() as int
    }

    /// Whether `agent` names an agent of the cluster.
    pub open spec fn has(self, agent: int) -> bool {
        0 <= agent < self.size()
    }

    /// A cluster before anything has happened: the endpoints differ from
    /// one another, every agent is in its initial state, and nothing was
    /// sent.
    pub open spec fn initial(self) -> bool {
        &&& self.agents.len() == self.nodes.len()
        &&& self.nodes.no_duplicates()
        &&& forall|agent: int|
            self.has(agent) ==> #[trigger] self.agents[agent] == (Agent {
                durable: DurableView::empty(),
                stored: DurableView::empty(),
                volatile: VolatileView::empty(),
                phase: PhaseView::Idle,
            })
        &&& self.promises == Set::<Promise>::empty()
        &&& self.proposals == Set::<(ProposalNumber, Value)>::empty()
        &&& self.acceptances == Set::<Acceptance>::empty()
        &&& self.notices == Set::<Value>::empty()
    }

    /// Whether `senders` names a quorum: agents of the cluster, each named
    /// once, and at least a quorum of them.
    pub open spec fn quorum_answered(self, senders: Seq<int>) -> bool {
        &&& senders.no_duplicates()
        &&& senders.len() >= quorum_of(self.size())
        &&& forall|k: int| 0 <= k < senders.len() ==> self.has(#[trigger] senders[k])
    }

    /// Whether `answers` are answers that the agents in `senders` gave to
    /// the prepare request with `number`.
    pub open spec fn promises_heard(
        self,
        number: ProposalNumber,
        senders: Seq<int>,
        answers: Seq<Option<(ProposalNumber, Value)>>,
    ) -> bool {
        &&& senders.len() == answers.len()
        &&& forall|k: int|
            0 <= k < senders.len() ==> self.promises.contains(
                Promise { agent: #[trigger] senders[k], number, accepted: answers[k] },
            )
    }

    /// Whether `promises` are answers that the agents in `senders` gave to
    /// the accept request for the proposal with `number`.
    pub open spec fn acceptances_heard(
        self,
        number: ProposalNumber,
        senders: Seq<int>,
        promises: Seq<ProposalNumber>,
    ) -> bool {
        &&& senders.len() == promises.len()
        &&& forall|k: int|
            0 <= k < senders.len() ==> self.acceptances.contains(
                Acceptance { agent: #[trigger] senders[k], number, promise: promises[k] },
            )
    }

    /// Whether a step can happen.
    ///
    /// - An acceptor handles a prepare request at any time, an accept
    ///   request only for a proposal that a proposer has sent, and a choose
    ///   request only for a value that a proposer has sent.
    /// - A proposer starts where its round counter has room; it is told of
    ///   answers only where a quorum has given them to the request that it
    ///   waits on; an event that its phase does not wait for is always
    ///   possible, and changes nothing.
    pub open spec fn enabled(self, step: ClusterStep) -> bool {
        match step {
            ClusterStep::Handle { agent, request } => {
                &&& self.has(agent)
                &&& match request {
                    RequestView::Prepare(_) => true,
                    RequestView::Accept(number, value) => self.proposals.contains((number, value)),
                    RequestView::Choose(value) => self.notices.contains(value),
                }
            },
            ClusterStep::Propose { agent, event, original_value, senders } => {
                &&& self.has(agent)
                &&& match (self.agents[agent].phase, event) {
                    (PhaseView::Idle, EventView::Start) => self.agents[agent].durable.next_round
                        < u64::MAX,
                    (PhaseView::Preparing { proposal_number }, EventView::Prepared(answers)) => {
                        &&& self.quorum_answered(senders)
                        &&& self.promises_heard(proposal_number, senders, answers)
                    },
                    (PhaseView::Accepting { proposal_number, .. }, EventView::Accepted(promises)) => {
                        &&& self.quorum_answered(senders)
                        &&& self.acceptances_heard(proposal_number, senders, promises)
                        &&& rounds_in_range(event)
                    },
                    _ => true,
                }
            },
            ClusterStep::Restart { agent } => self.has(agent),
        }
    }

    /// The cluster after a step.
    pub open spec fn after(self, step: ClusterStep) -> Cluster {
        match step {
            ClusterStep::Handle { agent, request } => {
                let before = self.agents[agent];
                let durable = request.durable_after(before.durable);
                let now = Agent {
                    durable,
                    stored: if request.writes(before.durable) {
                        durable
                    } else {
                        before.stored
                    },
                    volatile: request.volatile_after(before.volatile),
                    phase: before.phase,
                };
                Cluster {
                    agents: self.agents.update(agent, now),
                    promises: match (request, request.answer(before.durable)) {
                        (
                            RequestView::Prepare(Some(number)),
                            ResponseView::Prepare(accepted),
                        ) => self.promises.insert(Promise { agent, number, accepted }),
                        _ => self.promises,
                    },
                    acceptances: match (request, request.answer(before.durable)) {
                        (
                            RequestView::Accept(number, _),
                            ResponseView::Accept(promise),
                        ) => self.acceptances.insert(Acceptance { agent, number, promise }),
                        _ => self.acceptances,
                    },
                    ..self
                }
            },
            ClusterStep::Propose { agent, event, original_value, senders } => {
                let before = self.agents[agent];
                let (phase, action, durable) = next_step(
                    before.phase,
                    event,
                    self.nodes[agent],
                    original_value,
                    before.durable,
                );
                Cluster {
                    agents: self.agents.update(
                        agent,
                        Agent {
                            durable,
                            stored: if durable != before.durable {
                                durable
                            } else {
                                before.stored
                            },
                            volatile: before.volatile,
                            phase,
                        },
                    ),
                    proposals: match action {
                        ActionView::Accept(number, value) => self.proposals.insert((number, value)),
                        _ => self.proposals,
                    },
                    notices: match action {
                        ActionView::Choose(value) => self.notices.insert(value),
                        _ => self.notices,
                    },
                    ..self
                }
            },
            ClusterStep::Restart { agent } => {
                let before = self.agents[agent];
                Cluster {
                    agents: self.agents.update(
                        agent,
                        Agent {
                            durable: before.stored,
                            stored: before.stored,
                            volatile: VolatileView::empty(),
                            phase: PhaseView::Idle,
                        },
                    ),
                    ..self
                }
            },
        }
    }

    /// The cluster after a run of steps.
    pub open spec fn run(self, steps: Seq<ClusterStep>) -> Cluster
        decreases steps.len(),
    {
        if steps.len() == 0 {
            self
        } else {
            self.run(steps.drop_last()).after(steps.last())
        }
    }

    /// Whether a run of steps can happen: each step can, in the cluster that
    /// the steps before it lead to.
    pub open spec fn admits_run(self, steps: Seq<ClusterStep>) -> bool
        decreases steps.len(),
    {
        steps.len() == 0 || (self.admits_run(steps.drop_last()) && self.run(
            steps.drop_last(),
        ).enabled(steps.last()))
    }
}

} // verus!
