//! Agreement: in every run of a cluster, all values that agents learn are
//! one and the same value. The proof keeps an invariant over the cluster's
//! state and messages, and shows that every step preserves it.

use crate::acceptor::RequestView;
use crate::cluster::{Acceptance, Cluster, ClusterStep, Promise};
use crate::proposer::{
    chosen_by, highest_accepted, lemma_highest_accepted, lemma_round_beyond, value_to_propose,
    EventView, PhaseView,
};
use crate::rpc::{lemma_quorums_intersect, quorum_of};
use crate::state::{lemma_order_is_total, lemma_order_is_transitive, ProposalNumber, Value};
use vstd::prelude::*;
use vstd::seq_lib::seq_to_set_is_finite;

verus! {

impl Cluster {
    /// Whether `agent` has accepted the proposal with `number`: it answered
    /// the accept request for it with that very number.
    pub open spec fn voted(self, agent: int, number: ProposalNumber) -> bool {
        self.acceptances.contains(Acceptance { agent, number, promise: number })
    }

    /// Whether `quorum` is a set of agents of the cluster that holds at
    /// least a quorum of them.
    pub open spec fn is_quorum(self, quorum: Set<int>) -> bool {
        &&& quorum.finite()
        &&& quorum.len() >= quorum_of(self.size())
        &&& forall|agent: int| #[trigger] quorum.contains(agent) ==> self.has(agent)
    }

    /// Whether `agent` has promised to accept nothing at or below `lower`.
    pub open spec fn promised_above(self, agent: int, lower: ProposalNumber) -> bool {
        self.agents[agent].durable.min_proposal_number matches Some(promised) && lower.below(
            promised,
        )
    }

    /// Whether the agents of `quorum` keep any value but `value` from being
    /// chosen with the number `lower`: each has promised above `lower`, and
    /// those that accepted the proposal with that number accepted `value`.
    pub open spec fn blocks(self, quorum: Set<int>, lower: ProposalNumber, value: Value) -> bool {
        &&& self.is_quorum(quorum)
        &&& forall|agent: int| #[trigger]
            quorum.contains(agent) ==> {
                &&& self.promised_above(agent, lower)
                &&& self.voted(agent, lower) ==> self.proposals.contains((lower, value))
            }
    }

    /// Whether it is safe to propose `value` with `number`: below that
    /// number no other value is chosen, nor will be.
    pub open spec fn safe_at(self, number: ProposalNumber, value: Value) -> bool {
        forall|lower: ProposalNumber| #[trigger]
            lower.below(number) ==> exists|quorum: Set<int>| #[trigger]
                self.blocks(quorum, lower, value)
    }

    /// Whether `number` is a proposal number that `agent` has taken.
    pub open spec fn issued_by(self, number: ProposalNumber, agent: int) -> bool {
        &&& self.has(agent)
        &&& self.nodes[agent] == number.proposer_address
        &&& number.round < self.agents[agent].durable.next_round
    }

    /// Whether every agent of `quorum` has accepted the proposal of `value`
    /// with `number`.
    pub open spec fn decided(self, number: ProposalNumber, value: Value, quorum: Set<int>) -> bool {
        &&& self.proposals.contains((number, value))
        &&& self.is_quorum(quorum)
        &&& forall|agent: int| #[trigger] quorum.contains(agent) ==> self.voted(agent, number)
    }

    /// There is an agent for each endpoint, and no endpoint occurs twice.
    pub open spec fn shape_holds(self) -> bool {
        &&& self.agents.len() == self.nodes.len()
        &&& self.nodes.no_duplicates()
    }

    /// No two proposals have the same number, each proposal's number was
    /// taken by an agent, and each proposal is safe.
    pub open spec fn proposals_hold(self) -> bool {
        &&& forall|number: ProposalNumber, first: Value, second: Value|
            #[trigger] self.proposals.contains((number, first)) && #[trigger] self.proposals.contains(
                (number, second),
            ) ==> first == second
        &&& forall|number: ProposalNumber, value: Value| #[trigger]
            self.proposals.contains((number, value)) ==> exists|agent: int| #[trigger]
                self.issued_by(number, agent)
        &&& forall|number: ProposalNumber, value: Value| #[trigger]
            self.proposals.contains((number, value)) ==> self.safe_at(number, value)
    }

    /// A proposer that waits for promises has taken its number and has put
    /// nothing to the cluster with it; one that waits for acceptances has put
    /// its proposal to the cluster.
    pub open spec fn phases_hold(self) -> bool {
        forall|agent: int|
            self.has(agent) ==> match (#[trigger] self.agents[agent]).phase {
                PhaseView::Preparing { proposal_number } => {
                    &&& self.issued_by(proposal_number, agent)
                    &&& forall|value: Value| !self.proposals.contains((proposal_number, value))
                },
                PhaseView::Accepting { proposal_number, value } => {
                    &&& self.issued_by(proposal_number, agent)
                    &&& self.proposals.contains((proposal_number, value))
                },
                _ => true,
            }
    }

    /// An agent's record is well formed, what it has accepted was proposed,
    /// and it has accepted nothing above what it holds as accepted.
    pub open spec fn acceptors_hold(self) -> bool {
        &&& forall|agent: int|
            self.has(agent) ==> {
                let durable = (#[trigger] self.agents[agent]).durable;
                &&& durable.wf()
                &&& durable.accepted_proposal matches Some(accepted) ==> self.proposals.contains(
                    accepted,
                )
            }
        &&& forall|record: Acceptance| #[trigger]
            self.acceptances.contains(record) ==> self.has(record.agent)
        &&& forall|agent: int, number: ProposalNumber| #[trigger]
            self.voted(agent, number) ==> {
                &&& exists|value: Value| #[trigger] self.proposals.contains((number, value))
                &&& self.agents[agent].durable.accepted_proposal matches Some(accepted)
                    && number.at_most(accepted.0)
            }
    }

    /// An agent that answered a prepare request has a promise of at least
    /// the number of the request; what it reported as accepted was proposed;
    /// and whatever it has accepted below the number of the request is no
    /// higher than what it reported.
    pub open spec fn promises_hold(self) -> bool {
        &&& forall|record: Promise| #[trigger]
            self.promises.contains(record) ==> {
                &&& self.has(record.agent)
                &&& self.agents[record.agent].durable.min_proposal_number matches Some(promised)
                    && record.number.at_most(promised)
                &&& record.accepted matches Some(accepted) ==> self.proposals.contains(accepted)
            }
        &&& forall|record: Promise, number: ProposalNumber|
            #![trigger self.promises.contains(record), self.voted(record.agent, number)]
            self.promises.contains(record) && self.voted(record.agent, number) && number.below(
                record.number,
            ) ==> (record.accepted matches Some(accepted) && number.at_most(accepted.0))
    }

    /// Whatever a choose request carried was accepted by a quorum, and
    /// whatever an agent has learned was carried by a choose request.
    pub open spec fn notices_hold(self) -> bool {
        &&& forall|value: Value| #[trigger]
            self.notices.contains(value) ==> exists|number: ProposalNumber, quorum: Set<int>|
                #[trigger] self.decided(number, value, quorum)
        &&& forall|agent: int|
            self.has(agent) ==> ((#[trigger] self.agents[agent]).volatile.chosen_value matches Some(
                value,
            ) ==> self.notices.contains(value))
    }

    /// Stable storage holds each agent's durable record as the agent holds it.
    pub open spec fn storage_holds(self) -> bool {
        forall|agent: int|
            self.has(agent) ==> (#[trigger] self.agents[agent]).stored
                == self.agents[agent].durable
    }

    /// What holds of a cluster after every run from an initial one.
    pub open spec fn consistent(self) -> bool {
        &&& self.shape_holds()
        &&& self.storage_holds()
        &&& self.proposals_hold()
        &&& self.phases_hold()
        &&& self.acceptors_hold()
        &&& self.promises_hold()
        &&& self.notices_hold()
    }

    /// Whether the cluster `later` has everything that `self` has, with
    /// promises that are no lower, and has no acceptance at or below a number
    /// that `self` has a promise above, unless `self` has it too.
    pub open spec fn extended_by(self, later: Cluster) -> bool {
        &&& later.nodes == self.nodes
        &&& later.agents.len() == self.agents.len()
        &&& self.proposals.subset_of(later.proposals)
        &&& forall|agent: int, lower: ProposalNumber| #[trigger]
            self.promised_above(agent, lower) && self.has(agent) ==> {
                &&& later.promised_above(agent, lower)
                &&& later.voted(agent, lower) ==> self.voted(agent, lower)
            }
    }
}

/// An initial cluster is consistent.
pub proof fn lemma_initial_is_consistent(cluster: Cluster)
    requires
        cluster.initial(),
    ensures
        cluster.consistent(),
{
}

/// What blocks a number in a cluster blocks it in every cluster that extends
/// it.
proof fn lemma_extension_keeps_blocks(
    cluster: Cluster,
    later: Cluster,
    quorum: Set<int>,
    lower: ProposalNumber,
    value: Value,
)
    requires
        cluster.extended_by(later),
        cluster.blocks(quorum, lower, value),
    ensures
        later.blocks(quorum, lower, value),
{
    assert forall|agent: int| #[trigger] quorum.contains(agent) implies {
        &&& later.promised_above(agent, lower)
        &&& later.voted(agent, lower) ==> later.proposals.contains((lower, value))
    } by {
        assert(cluster.promised_above(agent, lower));
        assert(cluster.has(agent));
        if later.voted(agent, lower) {
            assert(cluster.voted(agent, lower));
        }
    }
}

/// What is safe to propose in a cluster is safe to propose in every cluster
/// that extends it.
proof fn lemma_extension_keeps_safety(
    cluster: Cluster,
    later: Cluster,
    number: ProposalNumber,
    value: Value,
)
    requires
        cluster.extended_by(later),
        cluster.safe_at(number, value),
    ensures
        later.safe_at(number, value),
{
    assert forall|lower: ProposalNumber| #[trigger] lower.below(number) implies exists|
        quorum: Set<int>,
    | #[trigger] later.blocks(quorum, lower, value) by {
        let quorum = choose|quorum: Set<int>| #[trigger] cluster.blocks(quorum, lower, value);
        lemma_extension_keeps_blocks(cluster, later, quorum, lower, value);
    }
}

/// A step leaves stable storage with each agent's durable record as the
/// agent holds it: every rule that changes the record says that it is to be
/// stored.
pub proof fn lemma_step_keeps_storage(cluster: Cluster, step: ClusterStep)
    requires
        cluster.shape_holds(),
        cluster.storage_holds(),
        cluster.enabled(step),
    ensures
        cluster.after(step).storage_holds(),
{
    let later = cluster.after(step);
    let actor = match step {
        ClusterStep::Handle { agent, .. } => agent,
        ClusterStep::Propose { agent, .. } => agent,
        ClusterStep::Restart { agent } => agent,
    };
    assert forall|agent: int| later.has(agent) implies (#[trigger] later.agents[agent]).stored
        == later.agents[agent].durable by {
        if agent != actor {
            assert(later.agents[agent] == cluster.agents[agent]);
        } else {
            assert(cluster.agents[agent].stored == cluster.agents[agent].durable);
        }
    }
}

/// Where a later cluster extends an earlier one, has the same proposals
/// and no lower round counters, what holds of the proposals still holds.
proof fn lemma_proposals_still_hold(cluster: Cluster, later: Cluster)
    requires
        cluster.proposals_hold(),
        cluster.extended_by(later),
        later.proposals == cluster.proposals,
        forall|agent: int|
            cluster.has(agent) ==> cluster.agents[agent].durable.next_round <= (
            #[trigger] later.agents[agent]).durable.next_round,
    ensures
        later.proposals_hold(),
{
    assert forall|number: ProposalNumber, value: Value| #[trigger]
        later.proposals.contains((number, value)) implies exists|agent: int| #[trigger]
        later.issued_by(number, agent) by {
        let agent = choose|agent: int| #[trigger] cluster.issued_by(number, agent);
        assert(later.issued_by(number, agent));
    }
    assert forall|number: ProposalNumber, value: Value| #[trigger]
        later.proposals.contains((number, value)) implies later.safe_at(number, value) by {
        lemma_extension_keeps_safety(cluster, later, number, value);
    }
}

/// Where a later cluster has the same acceptances and proposals, what was
/// decided is still decided.
proof fn lemma_notices_still_hold(cluster: Cluster, later: Cluster)
    requires
        cluster.notices_hold(),
        later.nodes == cluster.nodes,
        later.agents.len() == cluster.agents.len(),
        cluster.proposals.subset_of(later.proposals),
        cluster.acceptances.subset_of(later.acceptances),
        later.notices == cluster.notices,
        forall|agent: int|
            cluster.has(agent) ==> ((#[trigger] later.agents[agent]).volatile.chosen_value matches Some(
                value,
            ) ==> later.notices.contains(value)),
    ensures
        later.notices_hold(),
{
    assert forall|value: Value| #[trigger] later.notices.contains(value) implies exists|
        number: ProposalNumber,
        quorum: Set<int>,
    | #[trigger] later.decided(number, value, quorum) by {
        let (number, quorum) = choose|number: ProposalNumber, quorum: Set<int>| #[trigger]
            cluster.decided(number, value, quorum);
        assert forall|agent: int| #[trigger] quorum.contains(agent) implies later.voted(
            agent,
            number,
        ) by {
            assert(cluster.voted(agent, number));
        }
        assert(later.decided(number, value, quorum));
    }
}

/// Where a later cluster has the same proposals, the same phases and no
/// lower round counters, what holds of the phases still holds.
proof fn lemma_phases_still_hold(cluster: Cluster, later: Cluster)
    requires
        cluster.phases_hold(),
        later.nodes == cluster.nodes,
        later.agents.len() == cluster.agents.len(),
        later.proposals == cluster.proposals,
        forall|agent: int|
            cluster.has(agent) ==> {
                &&& (#[trigger] later.agents[agent]).phase == cluster.agents[agent].phase
                &&& cluster.agents[agent].durable.next_round
                    <= later.agents[agent].durable.next_round
            },
    ensures
        later.phases_hold(),
{
    assert forall|agent: int| later.has(agent) implies match (
    #[trigger] later.agents[agent]).phase {
        PhaseView::Preparing { proposal_number } => {
            &&& later.issued_by(proposal_number, agent)
            &&& forall|value: Value| !later.proposals.contains((proposal_number, value))
        },
        PhaseView::Accepting { proposal_number, value } => {
            &&& later.issued_by(proposal_number, agent)
            &&& later.proposals.contains((proposal_number, value))
        },
        _ => true,
    } by {
        assert(cluster.agents[agent].phase == later.agents[agent].phase);
    }
}

/// A restart keeps a cluster consistent.
proof fn lemma_restart_keeps_consistent(cluster: Cluster, agent: int)
    requires
        cluster.consistent(),
        cluster.enabled(ClusterStep::Restart { agent }),
    ensures
        cluster.after(ClusterStep::Restart { agent }).consistent(),
{
    let later = cluster.after(ClusterStep::Restart { agent });
    lemma_step_keeps_storage(cluster, ClusterStep::Restart { agent });
    assert(cluster.agents[agent].stored == cluster.agents[agent].durable);
    assert(cluster.extended_by(later)) by {
        assert forall|other: int, lower: ProposalNumber| #[trigger]
            cluster.promised_above(other, lower) && cluster.has(other) implies {
            &&& later.promised_above(other, lower)
            &&& later.voted(other, lower) ==> cluster.voted(other, lower)
        } by {
            if other != agent {
                assert(later.agents[other] == cluster.agents[other]);
            }
        }
    }
    assert forall|other: int| cluster.has(other) implies (
    #[trigger] later.agents[other]).durable == cluster.agents[other].durable by {
        if other != agent {
            assert(later.agents[other] == cluster.agents[other]);
        }
    }
    lemma_proposals_still_hold(cluster, later);
    lemma_notices_still_hold(cluster, later);
    assert(later.phases_hold()) by {
        assert forall|other: int| later.has(other) implies match (
        #[trigger] later.agents[other]).phase {
            PhaseView::Preparing { proposal_number } => {
                &&& later.issued_by(proposal_number, other)
                &&& forall|value: Value| !later.proposals.contains((proposal_number, value))
            },
            PhaseView::Accepting { proposal_number, value } => {
                &&& later.issued_by(proposal_number, other)
                &&& later.proposals.contains((proposal_number, value))
            },
            _ => true,
        } by {
            if other != agent {
                assert(later.agents[other] == cluster.agents[other]);
            }
        }
    }
    assert(later.acceptors_hold()) by {
        assert forall|other: int, number: ProposalNumber| #[trigger]
            later.voted(other, number) implies {
            &&& exists|value: Value| #[trigger] later.proposals.contains((number, value))
            &&& later.agents[other].durable.accepted_proposal matches Some(accepted)
                && number.at_most(accepted.0)
        } by {
            assert(cluster.voted(other, number));
        }
    }
    assert(later.promises_hold()) by {
        assert forall|record: Promise, number: ProposalNumber|
            #![trigger later.promises.contains(record), later.voted(record.agent, number)]
            later.promises.contains(record) && later.voted(record.agent, number) && number.below(
                record.number,
            ) implies (record.accepted matches Some(accepted) && number.at_most(accepted.0)) by {
            assert(cluster.promises.contains(record) && cluster.voted(record.agent, number));
        }
    }
}

/// Handling a prepare request keeps a cluster consistent.
proof fn lemma_prepare_keeps_consistent(
    cluster: Cluster,
    agent: int,
    request: Option<ProposalNumber>,
)
    requires
        cluster.consistent(),
        cluster.enabled(ClusterStep::Handle { agent, request: RequestView::Prepare(request) }),
    ensures
        cluster.after(
            ClusterStep::Handle { agent, request: RequestView::Prepare(request) },
        ).consistent(),
{
    let later = cluster.after(
        ClusterStep::Handle { agent, request: RequestView::Prepare(request) },
    );
    lemma_step_keeps_storage(
        cluster,
        ClusterStep::Handle { agent, request: RequestView::Prepare(request) },
    );
    let before = cluster.agents[agent].durable;
    let now = later.agents[agent].durable;
    assert(now == before.prepared(request));
    assert(cluster.acceptances == later.acceptances);
    assert forall|other: int, number: ProposalNumber|
        later.voted(other, number) == cluster.voted(other, number) by {}
    assert(cluster.extended_by(later)) by {
        assert forall|other: int, lower: ProposalNumber| #[trigger]
            cluster.promised_above(other, lower) && cluster.has(other) implies {
            &&& later.promised_above(other, lower)
            &&& later.voted(other, lower) ==> cluster.voted(other, lower)
        } by {
            if other == agent {
                let promised = before.min_proposal_number.unwrap();
                if request is Some && before.raised_by(request.unwrap()) {
                    lemma_order_is_transitive(lower, promised, request.unwrap());
                }
            } else {
                assert(later.agents[other] == cluster.agents[other]);
            }
        }
    }
    lemma_proposals_still_hold(cluster, later);
    lemma_phases_still_hold(cluster, later);
    lemma_notices_still_hold(cluster, later);
    assert(later.acceptors_hold()) by {
        assert forall|other: int| later.has(other) implies {
            let durable = (#[trigger] later.agents[other]).durable;
            &&& durable.wf()
            &&& durable.accepted_proposal matches Some(accepted) ==> later.proposals.contains(
                accepted,
            )
        } by {
            if other == agent {
                assert(cluster.agents[agent].durable.wf());
                if request is Some && before.raised_by(request.unwrap()) && before.accepted_proposal
                    is Some {
                    lemma_order_is_transitive(
                        before.accepted_proposal.unwrap().0,
                        before.min_proposal_number.unwrap(),
                        request.unwrap(),
                    );
                }
            } else {
                assert(later.agents[other] == cluster.agents[other]);
            }
        }
        assert forall|other: int, number: ProposalNumber| #[trigger]
            later.voted(other, number) implies {
            &&& exists|value: Value| #[trigger] later.proposals.contains((number, value))
            &&& later.agents[other].durable.accepted_proposal matches Some(accepted)
                && number.at_most(accepted.0)
        } by {
            assert(cluster.voted(other, number));
            assert(cluster.has(other));
        }
    }
    assert(later.promises_hold()) by {
        assert forall|record: Promise| #[trigger] later.promises.contains(record) implies {
            &&& later.has(record.agent)
            &&& later.agents[record.agent].durable.min_proposal_number matches Some(promised)
                && record.number.at_most(promised)
            &&& record.accepted matches Some(accepted) ==> later.proposals.contains(accepted)
        } by {
            if cluster.promises.contains(record) {
                if record.agent == agent {
                    let promised = before.min_proposal_number.unwrap();
                    if request is Some && before.raised_by(request.unwrap()) {
                        lemma_order_is_transitive(record.number, promised, request.unwrap());
                    }
                } else {
                    assert(later.agents[record.agent] == cluster.agents[record.agent]);
                }
            } else {
                assert(record.agent == agent);
                assert(request == Some(record.number));
                assert(record.accepted == before.accepted_proposal);
                assert(cluster.agents[agent].durable.wf());
                if !before.raised_by(record.number) {
                    lemma_order_is_total(record.number, before.min_proposal_number.unwrap());
                }
            }
        }
        assert forall|record: Promise, number: ProposalNumber|
            #![trigger later.promises.contains(record), later.voted(record.agent, number)]
            later.promises.contains(record) && later.voted(record.agent, number) && number.below(
                record.number,
            ) implies (record.accepted matches Some(accepted) && number.at_most(accepted.0)) by {
            assert(cluster.voted(record.agent, number));
            if cluster.promises.contains(record) {
            } else {
                assert(record.agent == agent);
                assert(record.accepted == before.accepted_proposal);
            }
        }
    }
}

/// Handling an accept request keeps a cluster consistent.
proof fn lemma_accept_keeps_consistent(
    cluster: Cluster,
    agent: int,
    number: ProposalNumber,
    value: Value,
)
    requires
        cluster.consistent(),
        cluster.enabled(
            ClusterStep::Handle { agent, request: RequestView::Accept(number, value) },
        ),
    ensures
        cluster.after(
            ClusterStep::Handle { agent, request: RequestView::Accept(number, value) },
        ).consistent(),
{
    let later = cluster.after(
        ClusterStep::Handle { agent, request: RequestView::Accept(number, value) },
    );
    lemma_step_keeps_storage(
        cluster,
        ClusterStep::Handle { agent, request: RequestView::Accept(number, value) },
    );
    let before = cluster.agents[agent].durable;
    let now = later.agents[agent].durable;
    let admitted = before.admits(number);
    assert(now == before.accepted(number, value));
    assert(before.wf());
    assert(cluster.proposals.contains((number, value)));
    let answer = if admitted {
        number
    } else {
        before.min_proposal_number.unwrap()
    };
    assert(later.acceptances == cluster.acceptances.insert(
        Acceptance { agent, number, promise: answer },
    ));
    if !admitted {
        lemma_order_is_total(number, before.min_proposal_number.unwrap());
    }
    // The only acceptance that may be new is that of `number` by `agent`.
    assert forall|other: int, lower: ProposalNumber| #[trigger]
        later.voted(other, lower) implies cluster.voted(other, lower) || (admitted && other == agent
        && lower == number) by {}
    assert(cluster.extended_by(later)) by {
        assert forall|other: int, lower: ProposalNumber| #[trigger]
            cluster.promised_above(other, lower) && cluster.has(other) implies {
            &&& later.promised_above(other, lower)
            &&& later.voted(other, lower) ==> cluster.voted(other, lower)
        } by {
            if other == agent {
                if admitted {
                    let promised = before.min_proposal_number.unwrap();
                    lemma_order_is_transitive(lower, promised, number);
                    lemma_order_is_total(lower, number);
                }
            } else {
                assert(later.agents[other] == cluster.agents[other]);
            }
        }
    }
    lemma_proposals_still_hold(cluster, later);
    lemma_phases_still_hold(cluster, later);
    lemma_notices_still_hold(cluster, later);
    assert(later.acceptors_hold()) by {
        assert forall|other: int| later.has(other) implies {
            let durable = (#[trigger] later.agents[other]).durable;
            &&& durable.wf()
            &&& durable.accepted_proposal matches Some(accepted) ==> later.proposals.contains(
                accepted,
            )
        } by {
            if other != agent {
                assert(later.agents[other] == cluster.agents[other]);
            }
        }
        assert forall|other: int, lower: ProposalNumber| #[trigger]
            later.voted(other, lower) implies {
            &&& exists|value: Value| #[trigger] later.proposals.contains((lower, value))
            &&& later.agents[other].durable.accepted_proposal matches Some(accepted)
                && lower.at_most(accepted.0)
        } by {
            if cluster.voted(other, lower) {
                assert(cluster.has(other));
                let witness = choose|value: Value| #[trigger]
                    cluster.proposals.contains((lower, value));
                assert(later.proposals.contains((lower, witness)));
                if other == agent {
                    if admitted {
                        let accepted = before.accepted_proposal.unwrap();
                        let promised = before.min_proposal_number.unwrap();
                        lemma_order_is_transitive(lower, accepted.0, promised);
                        lemma_order_is_transitive(lower, promised, number);
                    }
                } else {
                    assert(later.agents[other] == cluster.agents[other]);
                }
            } else {
                assert(later.proposals.contains((number, value)));
            }
        }
    }
    assert(later.promises_hold()) by {
        assert(later.promises == cluster.promises);
        assert forall|record: Promise| #[trigger] later.promises.contains(record) implies {
            &&& later.has(record.agent)
            &&& later.agents[record.agent].durable.min_proposal_number matches Some(promised)
                && record.number.at_most(promised)
            &&& record.accepted matches Some(accepted) ==> later.proposals.contains(accepted)
        } by {
            if record.agent == agent {
                if admitted {
                    let promised = before.min_proposal_number.unwrap();
                    lemma_order_is_transitive(record.number, promised, number);
                }
            } else {
                assert(later.agents[record.agent] == cluster.agents[record.agent]);
            }
        }
        assert forall|record: Promise, lower: ProposalNumber|
            #![trigger later.promises.contains(record), later.voted(record.agent, lower)]
            later.promises.contains(record) && later.voted(record.agent, lower) && lower.below(
                record.number,
            ) implies (record.accepted matches Some(accepted) && lower.at_most(accepted.0)) by {
            if cluster.voted(record.agent, lower) {
            } else {
                // The new acceptance is not below any number that the agent
                // promised before.
                let promised = before.min_proposal_number.unwrap();
                lemma_order_is_transitive(lower, record.number, promised);
                lemma_order_is_transitive(lower, promised, number);
                lemma_order_is_total(lower, number);
            }
        }
    }
}

/// Handling a choose request keeps a cluster consistent.
proof fn lemma_learn_keeps_consistent(cluster: Cluster, agent: int, value: Value)
    requires
        cluster.consistent(),
        cluster.enabled(ClusterStep::Handle { agent, request: RequestView::Choose(value) }),
    ensures
        cluster.after(
            ClusterStep::Handle { agent, request: RequestView::Choose(value) },
        ).consistent(),
{
    let later = cluster.after(ClusterStep::Handle { agent, request: RequestView::Choose(value) });
    lemma_step_keeps_storage(
        cluster,
        ClusterStep::Handle { agent, request: RequestView::Choose(value) },
    );
    assert(later.agents[agent].durable == cluster.agents[agent].durable);
    assert forall|other: int, number: ProposalNumber|
        later.voted(other, number) == cluster.voted(other, number) by {}
    assert(cluster.extended_by(later)) by {
        assert forall|other: int, lower: ProposalNumber| #[trigger]
            cluster.promised_above(other, lower) && cluster.has(other) implies {
            &&& later.promised_above(other, lower)
            &&& later.voted(other, lower) ==> cluster.voted(other, lower)
        } by {
            if other != agent {
                assert(later.agents[other] == cluster.agents[other]);
            }
        }
    }
    lemma_proposals_still_hold(cluster, later);
    lemma_phases_still_hold(cluster, later);
    assert forall|other: int| cluster.has(other) implies ((
    #[trigger] later.agents[other]).volatile.chosen_value matches Some(learned)
        ==> later.notices.contains(learned)) by {
        if other != agent {
            assert(later.agents[other] == cluster.agents[other]);
        }
    }
    lemma_notices_still_hold(cluster, later);
    assert(later.acceptors_hold()) by {
        assert forall|other: int| later.has(other) implies {
            let durable = (#[trigger] later.agents[other]).durable;
            &&& durable.wf()
            &&& durable.accepted_proposal matches Some(accepted) ==> later.proposals.contains(
                accepted,
            )
        } by {
            if other != agent {
                assert(later.agents[other] == cluster.agents[other]);
            }
        }
        assert forall|other: int, number: ProposalNumber| #[trigger]
            later.voted(other, number) implies {
            &&& exists|value: Value| #[trigger] later.proposals.contains((number, value))
            &&& later.agents[other].durable.accepted_proposal matches Some(accepted)
                && number.at_most(accepted.0)
        } by {
            assert(cluster.voted(other, number));
            assert(cluster.has(other));
            if other != agent {
                assert(later.agents[other] == cluster.agents[other]);
            }
        }
    }
    assert(later.promises_hold()) by {
        assert forall|record: Promise| #[trigger] later.promises.contains(record) implies {
            &&& later.has(record.agent)
            &&& later.agents[record.agent].durable.min_proposal_number matches Some(promised)
                && record.number.at_most(promised)
            &&& record.accepted matches Some(accepted) ==> later.proposals.contains(accepted)
        } by {
            if record.agent != agent {
                assert(later.agents[record.agent] == cluster.agents[record.agent]);
            }
        }
        assert forall|record: Promise, number: ProposalNumber|
            #![trigger later.promises.contains(record), later.voted(record.agent, number)]
            later.promises.contains(record) && later.voted(record.agent, number) && number.below(
                record.number,
            ) implies (record.accepted matches Some(accepted) && number.at_most(accepted.0)) by {
            assert(cluster.voted(record.agent, number));
        }
    }
}

/// A step of a proposer that only moves its round counter or its phase
/// extends the cluster, and keeps what holds of acceptors and of promises.
proof fn lemma_proposer_leaves_acceptors(cluster: Cluster, later: Cluster, agent: int)
    requires
        cluster.consistent(),
        cluster.has(agent),
        later.nodes == cluster.nodes,
        later.agents == cluster.agents.update(agent, later.agents[agent]),
        later.agents[agent].durable.min_proposal_number
            == cluster.agents[agent].durable.min_proposal_number,
        later.agents[agent].durable.accepted_proposal
            == cluster.agents[agent].durable.accepted_proposal,
        later.promises == cluster.promises,
        later.acceptances == cluster.acceptances,
        cluster.proposals.subset_of(later.proposals),
    ensures
        cluster.extended_by(later),
        later.shape_holds(),
        later.acceptors_hold(),
        later.promises_hold(),
{
    assert forall|other: int, number: ProposalNumber|
        later.voted(other, number) == cluster.voted(other, number) by {}
    assert forall|other: int| cluster.has(other) implies {
        &&& (#[trigger] later.agents[other]).durable.min_proposal_number
            == cluster.agents[other].durable.min_proposal_number
        &&& later.agents[other].durable.accepted_proposal
            == cluster.agents[other].durable.accepted_proposal
    } by {
        if other != agent {
            assert(later.agents[other] == cluster.agents[other]);
        }
    }
    assert(cluster.extended_by(later)) by {
        assert forall|other: int, lower: ProposalNumber| #[trigger]
            cluster.promised_above(other, lower) && cluster.has(other) implies {
            &&& later.promised_above(other, lower)
            &&& later.voted(other, lower) ==> cluster.voted(other, lower)
        } by {
            assert(later.agents[other].durable.min_proposal_number
                == cluster.agents[other].durable.min_proposal_number);
        }
    }
    assert(later.acceptors_hold()) by {
        assert forall|other: int| later.has(other) implies {
            let durable = (#[trigger] later.agents[other]).durable;
            &&& durable.wf()
            &&& durable.accepted_proposal matches Some(accepted) ==> later.proposals.contains(
                accepted,
            )
        } by {
            assert(cluster.agents[other].durable.wf());
        }
        assert forall|other: int, number: ProposalNumber| #[trigger]
            later.voted(other, number) implies {
            &&& exists|value: Value| #[trigger] later.proposals.contains((number, value))
            &&& later.agents[other].durable.accepted_proposal matches Some(accepted)
                && number.at_most(accepted.0)
        } by {
            assert(cluster.voted(other, number));
            assert(cluster.has(other));
            let witness = choose|value: Value| #[trigger]
                cluster.proposals.contains((number, value));
            assert(later.proposals.contains((number, witness)));
            assert(later.agents[other].durable.accepted_proposal
                == cluster.agents[other].durable.accepted_proposal);
        }
    }
    assert(later.promises_hold()) by {
        assert forall|record: Promise| #[trigger] later.promises.contains(record) implies {
            &&& later.has(record.agent)
            &&& later.agents[record.agent].durable.min_proposal_number matches Some(promised)
                && record.number.at_most(promised)
            &&& record.accepted matches Some(accepted) ==> later.proposals.contains(accepted)
        } by {
            assert(cluster.has(record.agent));
            assert(later.agents[record.agent].durable.min_proposal_number
                == cluster.agents[record.agent].durable.min_proposal_number);
        }
        assert forall|record: Promise, number: ProposalNumber|
            #![trigger later.promises.contains(record), later.voted(record.agent, number)]
            later.promises.contains(record) && later.voted(record.agent, number) && number.below(
                record.number,
            ) implies (record.accepted matches Some(accepted) && number.at_most(accepted.0)) by {
            assert(cluster.voted(record.agent, number));
        }
    }
}

/// A proposer that starts an attempt keeps a cluster consistent.
proof fn lemma_start_keeps_consistent(
    cluster: Cluster,
    agent: int,
    original_value: Option<Value>,
    senders: Seq<int>,
)
    requires
        cluster.consistent(),
        cluster.enabled(
            ClusterStep::Propose { agent, event: EventView::Start, original_value, senders },
        ),
        cluster.agents[agent].phase is Idle,
    ensures
        cluster.after(
            ClusterStep::Propose { agent, event: EventView::Start, original_value, senders },
        ).consistent(),
{
    let later = cluster.after(
        ClusterStep::Propose { agent, event: EventView::Start, original_value, senders },
    );
    lemma_step_keeps_storage(
        cluster,
        ClusterStep::Propose { agent, event: EventView::Start, original_value, senders },
    );
    let before = cluster.agents[agent].durable;
    let number = before.next_number(cluster.nodes[agent]);
    assert(later.agents[agent].phase == PhaseView::Preparing { proposal_number: number });
    assert(later.agents[agent].durable == before.advanced());
    assert(later.proposals == cluster.proposals);
    assert(later.notices == cluster.notices);
    lemma_proposer_leaves_acceptors(cluster, later, agent);
    assert forall|other: int| cluster.has(other) implies cluster.agents[other].durable.next_round
        <= (#[trigger] later.agents[other]).durable.next_round by {
        if other != agent {
            assert(later.agents[other] == cluster.agents[other]);
        }
    }
    lemma_proposals_still_hold(cluster, later);
    assert forall|other: int| cluster.has(other) implies ((
    #[trigger] later.agents[other]).volatile.chosen_value matches Some(learned)
        ==> later.notices.contains(learned)) by {
        if other != agent {
            assert(later.agents[other] == cluster.agents[other]);
        } else {
            assert(later.agents[agent].volatile == cluster.agents[agent].volatile);
        }
    }
    lemma_notices_still_hold(cluster, later);
    assert(later.phases_hold()) by {
        assert forall|other: int| later.has(other) implies match (
        #[trigger] later.agents[other]).phase {
            PhaseView::Preparing { proposal_number } => {
                &&& later.issued_by(proposal_number, other)
                &&& forall|value: Value| !later.proposals.contains((proposal_number, value))
            },
            PhaseView::Accepting { proposal_number, value } => {
                &&& later.issued_by(proposal_number, other)
                &&& later.proposals.contains((proposal_number, value))
            },
            _ => true,
        } by {
            if other != agent {
                assert(later.agents[other] == cluster.agents[other]);
            } else {
                assert(later.issued_by(number, agent));
                assert forall|value: Value| !later.proposals.contains((number, value)) by {
                    if cluster.proposals.contains((number, value)) {
                        let owner = choose|owner: int| #[trigger] cluster.issued_by(number, owner);
                        assert(cluster.nodes[owner] == cluster.nodes[agent]);
                        assert(owner == agent);
                    }
                }
            }
        }
    }
}

/// The agents that answered, each named once, form a quorum.
proof fn lemma_senders_form_quorum(cluster: Cluster, senders: Seq<int>)
    requires
        cluster.quorum_answered(senders),
    ensures
        cluster.is_quorum(senders.to_set()),
        forall|agent: int| #[trigger]
            senders.to_set().contains(agent) ==> exists|k: int|
                0 <= k < senders.len() && #[trigger] senders[k] == agent,
{
    seq_to_set_is_finite(senders);
    senders.unique_seq_to_set();
    assert forall|agent: int| #[trigger] senders.to_set().contains(agent) implies (exists|k: int|
        0 <= k < senders.len() && #[trigger] senders[k] == agent) && cluster.has(agent) by {
        assert(senders.contains(agent));
        let k = choose|k: int| 0 <= k < senders.len() && senders[k] == agent;
        assert(cluster.has(senders[k]));
    }
}

/// The proposal that a proposer makes after a quorum has answered its
/// prepare request is safe.
proof fn lemma_new_proposal_is_safe(
    cluster: Cluster,
    later: Cluster,
    number: ProposalNumber,
    value: Value,
    senders: Seq<int>,
    answers: Seq<Option<(ProposalNumber, Value)>>,
    original_value: Option<Value>,
)
    requires
        cluster.consistent(),
        cluster.extended_by(later),
        cluster.quorum_answered(senders),
        cluster.promises_heard(number, senders, answers),
        value_to_propose(answers, original_value) == Some(value),
    ensures
        later.safe_at(number, value),
{
    let quorum = senders.to_set();
    lemma_senders_form_quorum(cluster, senders);
    lemma_highest_accepted(answers);
    assert(later.is_quorum(quorum));
    let best = highest_accepted(answers);
    assert forall|lower: ProposalNumber| #[trigger] lower.below(number) implies exists|
        witness: Set<int>,
    | #[trigger] later.blocks(witness, lower, value) by {
        if best is Some && lower.below(best.unwrap().0) {
            let (highest, found) = best.unwrap();
            assert(found == value);
            let k = choose|k: int| 0 <= k < answers.len() && answers[k] == Some((highest, found));
            let record = Promise { agent: senders[k], number, accepted: answers[k] };
            assert(cluster.promises.contains(record));
            assert(cluster.proposals.contains((highest, found)));
            assert(cluster.safe_at(highest, found));
            let witness = choose|witness: Set<int>| #[trigger]
                cluster.blocks(witness, lower, found);
            lemma_extension_keeps_blocks(cluster, later, witness, lower, found);
        } else {
            assert forall|agent: int| #[trigger] quorum.contains(agent) implies {
                &&& later.promised_above(agent, lower)
                &&& later.voted(agent, lower) ==> later.proposals.contains((lower, value))
            } by {
                let k = choose|k: int| 0 <= k < senders.len() && #[trigger] senders[k] == agent;
                let record = Promise { agent: senders[k], number, accepted: answers[k] };
                assert(cluster.promises.contains(record));
                assert(cluster.has(agent));
                let promised = cluster.agents[agent].durable.min_proposal_number.unwrap();
                lemma_order_is_transitive(lower, number, promised);
                assert(cluster.promised_above(agent, lower));
                if later.voted(agent, lower) {
                    assert(cluster.voted(record.agent, lower));
                    let (reported, _) = answers[k].unwrap();
                    let (highest, found) = best.unwrap();
                    assert(reported.at_most(highest));
                    lemma_order_is_transitive(lower, reported, highest);
                    lemma_order_is_total(lower, highest);
                    let j = choose|j: int|
                        0 <= j < answers.len() && answers[j] == Some((highest, found));
                    let source = Promise { agent: senders[j], number, accepted: answers[j] };
                    assert(cluster.promises.contains(source));
                    assert(cluster.proposals.contains((highest, found)));
                }
            }
            assert(later.blocks(quorum, lower, value));
        }
    }
}

/// A proposer that hears from a quorum in answer to its prepare request
/// keeps a cluster consistent.
proof fn lemma_prepared_keeps_consistent(
    cluster: Cluster,
    agent: int,
    answers: Seq<Option<(ProposalNumber, Value)>>,
    original_value: Option<Value>,
    senders: Seq<int>,
)
    requires
        cluster.consistent(),
        cluster.enabled(
            ClusterStep::Propose {
                agent,
                event: EventView::Prepared(answers),
                original_value,
                senders,
            },
        ),
        cluster.agents[agent].phase is Preparing,
    ensures
        cluster.after(
            ClusterStep::Propose {
                agent,
                event: EventView::Prepared(answers),
                original_value,
                senders,
            },
        ).consistent(),
{
    let later = cluster.after(
        ClusterStep::Propose { agent, event: EventView::Prepared(answers), original_value, senders },
    );
    lemma_step_keeps_storage(
        cluster,
        ClusterStep::Propose { agent, event: EventView::Prepared(answers), original_value, senders },
    );
    let number = cluster.agents[agent].phase->Preparing_proposal_number;
    assert(later.agents[agent].durable == cluster.agents[agent].durable);
    assert(later.agents[agent].volatile == cluster.agents[agent].volatile);
    assert(later.notices == cluster.notices);
    lemma_proposer_leaves_acceptors(cluster, later, agent);
    assert forall|other: int| cluster.has(other) implies ((
    #[trigger] later.agents[other]).volatile.chosen_value matches Some(learned)
        ==> later.notices.contains(learned)) by {
        if other != agent {
            assert(later.agents[other] == cluster.agents[other]);
        }
    }
    lemma_notices_still_hold(cluster, later);
    assert forall|other: int| cluster.has(other) implies cluster.agents[other].durable.next_round
        <= (#[trigger] later.agents[other]).durable.next_round by {
        if other != agent {
            assert(later.agents[other] == cluster.agents[other]);
        }
    }
    match value_to_propose(answers, original_value) {
        None => {
            assert(later.proposals == cluster.proposals);
            lemma_proposals_still_hold(cluster, later);
            assert(later.phases_hold()) by {
                assert forall|other: int| later.has(other) implies match (
                #[trigger] later.agents[other]).phase {
                    PhaseView::Preparing { proposal_number } => {
                        &&& later.issued_by(proposal_number, other)
                        &&& forall|value: Value|
                            !later.proposals.contains((proposal_number, value))
                    },
                    PhaseView::Accepting { proposal_number, value } => {
                        &&& later.issued_by(proposal_number, other)
                        &&& later.proposals.contains((proposal_number, value))
                    },
                    _ => true,
                } by {
                    if other != agent {
                        assert(later.agents[other] == cluster.agents[other]);
                    }
                }
            }
        },
        Some(value) => {
            assert(later.proposals == cluster.proposals.insert((number, value)));
            assert(later.agents[agent].phase == PhaseView::Accepting {
                proposal_number: number,
                value,
            });
            assert(cluster.issued_by(number, agent));
            assert(later.issued_by(number, agent));
            lemma_new_proposal_is_safe(
                cluster,
                later,
                number,
                value,
                senders,
                answers,
                original_value,
            );
            assert(later.proposals_hold()) by {
                assert forall|any: ProposalNumber, found: Value| #[trigger]
                    later.proposals.contains((any, found)) implies (exists|owner: int| #[trigger]
                    later.issued_by(any, owner)) && later.safe_at(any, found) by {
                    if cluster.proposals.contains((any, found)) {
                        let owner = choose|owner: int| #[trigger] cluster.issued_by(any, owner);
                        assert(later.issued_by(any, owner));
                        lemma_extension_keeps_safety(cluster, later, any, found);
                    } else {
                        assert(any == number && found == value);
                    }
                }
            }
            assert(later.phases_hold()) by {
                assert forall|other: int| later.has(other) implies match (
                #[trigger] later.agents[other]).phase {
                    PhaseView::Preparing { proposal_number } => {
                        &&& later.issued_by(proposal_number, other)
                        &&& forall|value: Value|
                            !later.proposals.contains((proposal_number, value))
                    },
                    PhaseView::Accepting { proposal_number, value } => {
                        &&& later.issued_by(proposal_number, other)
                        &&& later.proposals.contains((proposal_number, value))
                    },
                    _ => true,
                } by {
                    if other != agent {
                        assert(later.agents[other] == cluster.agents[other]);
                        if let PhaseView::Preparing { proposal_number } = cluster.agents[other].phase {
                            assert(cluster.issued_by(proposal_number, other));
                            assert(proposal_number != number);
                        }
                    }
                }
            }
        },
    }
}

/// A proposer that hears from a quorum in answer to its accept request
/// keeps a cluster consistent.
proof fn lemma_accepted_keeps_consistent(
    cluster: Cluster,
    agent: int,
    promises: Seq<ProposalNumber>,
    original_value: Option<Value>,
    senders: Seq<int>,
)
    requires
        cluster.consistent(),
        cluster.enabled(
            ClusterStep::Propose {
                agent,
                event: EventView::Accepted(promises),
                original_value,
                senders,
            },
        ),
        cluster.agents[agent].phase is Accepting,
    ensures
        cluster.after(
            ClusterStep::Propose {
                agent,
                event: EventView::Accepted(promises),
                original_value,
                senders,
            },
        ).consistent(),
{
    let later = cluster.after(
        ClusterStep::Propose {
            agent,
            event: EventView::Accepted(promises),
            original_value,
            senders,
        },
    );
    lemma_step_keeps_storage(
        cluster,
        ClusterStep::Propose {
            agent,
            event: EventView::Accepted(promises),
            original_value,
            senders,
        },
    );
    let before = cluster.agents[agent].durable;
    let number = cluster.agents[agent].phase->Accepting_proposal_number;
    let value = cluster.agents[agent].phase->Accepting_value;
    let chosen = chosen_by(promises, number);
    assert(later.agents[agent].durable == before.caught_up(promises));
    assert(later.agents[agent].volatile == cluster.agents[agent].volatile);
    assert(later.proposals == cluster.proposals);
    lemma_round_beyond(before.next_round, promises);
    lemma_proposer_leaves_acceptors(cluster, later, agent);
    assert forall|other: int| cluster.has(other) implies cluster.agents[other].durable.next_round
        <= (#[trigger] later.agents[other]).durable.next_round by {
        if other != agent {
            assert(later.agents[other] == cluster.agents[other]);
        }
    }
    lemma_proposals_still_hold(cluster, later);
    assert(later.phases_hold()) by {
        assert forall|other: int| later.has(other) implies match (
        #[trigger] later.agents[other]).phase {
            PhaseView::Preparing { proposal_number } => {
                &&& later.issued_by(proposal_number, other)
                &&& forall|value: Value| !later.proposals.contains((proposal_number, value))
            },
            PhaseView::Accepting { proposal_number, value } => {
                &&& later.issued_by(proposal_number, other)
                &&& later.proposals.contains((proposal_number, value))
            },
            _ => true,
        } by {
            if other != agent {
                assert(later.agents[other] == cluster.agents[other]);
            }
        }
    }
    assert(later.notices_hold()) by {
        assert forall|found: Value| #[trigger] later.notices.contains(found) implies exists|
            any: ProposalNumber,
            quorum: Set<int>,
        | #[trigger] later.decided(any, found, quorum) by {
            if cluster.notices.contains(found) {
                let (any, quorum) = choose|any: ProposalNumber, quorum: Set<int>| #[trigger]
                    cluster.decided(any, found, quorum);
                assert forall|voter: int| #[trigger] quorum.contains(voter) implies later.voted(
                    voter,
                    any,
                ) by {
                    assert(cluster.voted(voter, any));
                }
                assert(later.decided(any, found, quorum));
            } else {
                assert(chosen && found == value);
                let quorum = senders.to_set();
                lemma_senders_form_quorum(cluster, senders);
                assert forall|voter: int| #[trigger] quorum.contains(voter) implies later.voted(
                    voter,
                    number,
                ) by {
                    let k = choose|k: int| 0 <= k < senders.len() && #[trigger] senders[k] == voter;
                    assert(promises[k] == number);
                    assert(cluster.acceptances.contains(
                        Acceptance { agent: senders[k], number, promise: promises[k] },
                    ));
                }
                assert(later.is_quorum(quorum));
                assert(later.decided(number, value, quorum));
            }
        }
        assert forall|other: int| later.has(other) implies ((
        #[trigger] later.agents[other]).volatile.chosen_value matches Some(learned)
            ==> later.notices.contains(learned)) by {
            if other != agent {
                assert(later.agents[other] == cluster.agents[other]);
            }
            assert(cluster.agents[other].volatile == later.agents[other].volatile);
        }
    }
}

/// A step keeps a cluster consistent.
pub proof fn lemma_step_keeps_consistent(cluster: Cluster, step: ClusterStep)
    requires
        cluster.consistent(),
        cluster.enabled(step),
    ensures
        cluster.after(step).consistent(),
{
    match step {
        ClusterStep::Handle { agent, request } => {
            match request {
                RequestView::Prepare(number) => {
                    lemma_prepare_keeps_consistent(cluster, agent, number);
                },
                RequestView::Accept(number, value) => {
                    lemma_accept_keeps_consistent(cluster, agent, number, value);
                },
                RequestView::Choose(value) => {
                    lemma_learn_keeps_consistent(cluster, agent, value);
                },
            }
        },
        ClusterStep::Propose { agent, event, original_value, senders } => {
            match (cluster.agents[agent].phase, event) {
                (PhaseView::Idle, EventView::Start) => {
                    lemma_start_keeps_consistent(cluster, agent, original_value, senders);
                },
                (PhaseView::Preparing { .. }, EventView::Prepared(answers)) => {
                    lemma_prepared_keeps_consistent(
                        cluster,
                        agent,
                        answers,
                        original_value,
                        senders,
                    );
                },
                (PhaseView::Accepting { .. }, EventView::Accepted(promises)) => {
                    lemma_accepted_keeps_consistent(
                        cluster,
                        agent,
                        promises,
                        original_value,
                        senders,
                    );
                },
                _ => {
                    let later = cluster.after(step);
                    assert(later.agents =~= cluster.agents);
                    assert(later == cluster);
                },
            }
        },
        ClusterStep::Restart { agent } => {
            lemma_restart_keeps_consistent(cluster, agent);
        },
    }
}

/// A step takes no choose request back: what was sent stays sent.
pub proof fn lemma_step_keeps_notices(cluster: Cluster, step: ClusterStep)
    ensures
        cluster.notices.subset_of(cluster.after(step).notices),
{
}

/// A run from an initial cluster leads to a consistent cluster.
pub proof fn lemma_run_is_consistent(cluster: Cluster, steps: Seq<ClusterStep>)
    requires
        cluster.initial(),
        cluster.admits_run(steps),
    ensures
        cluster.run(steps).consistent(),
    decreases steps.len(),
{
    if steps.len() == 0 {
        lemma_initial_is_consistent(cluster);
    } else {
        lemma_run_is_consistent(cluster, steps.drop_last());
        lemma_step_keeps_consistent(cluster.run(steps.drop_last()), steps.last());
    }
}

/// The start of a run that can happen can happen, and what it has sent in
/// choose requests the whole run has sent.
pub proof fn lemma_run_extends_its_start(cluster: Cluster, steps: Seq<ClusterStep>, count: int)
    requires
        cluster.admits_run(steps),
        0 <= count <= steps.len(),
    ensures
        cluster.admits_run(steps.take(count)),
        cluster.run(steps.take(count)).notices.subset_of(cluster.run(steps).notices),
    decreases steps.len(),
{
    if count == steps.len() {
        assert(steps.take(count) == steps);
    } else {
        let shorter = steps.drop_last();
        assert(shorter.take(count) == steps.take(count));
        lemma_run_extends_its_start(cluster, shorter, count);
        lemma_step_keeps_notices(cluster.run(shorter), steps.last());
    }
}

/// In a consistent cluster all choose requests carry the same value.
pub proof fn lemma_notices_agree(cluster: Cluster, first: Value, second: Value)
    requires
        cluster.consistent(),
        cluster.notices.contains(first),
        cluster.notices.contains(second),
    ensures
        first == second,
{
    let (first_number, first_quorum) = choose|number: ProposalNumber, quorum: Set<int>| #[trigger]
        cluster.decided(number, first, quorum);
    let (second_number, second_quorum) = choose|number: ProposalNumber, quorum: Set<int>|
        #[trigger] cluster.decided(number, second, quorum);
    lemma_order_is_total(first_number, second_number);
    if first_number.below(second_number) {
        lemma_decided_below_agrees(
            cluster,
            first_number,
            first,
            first_quorum,
            second_number,
            second,
        );
    } else if second_number.below(first_number) {
        lemma_decided_below_agrees(
            cluster,
            second_number,
            second,
            second_quorum,
            first_number,
            first,
        );
    }
}

/// A proposal with a number above that of a decided proposal has the value
/// of the decided one.
proof fn lemma_decided_below_agrees(
    cluster: Cluster,
    lower: ProposalNumber,
    decided: Value,
    quorum: Set<int>,
    number: ProposalNumber,
    value: Value,
)
    requires
        cluster.consistent(),
        cluster.decided(lower, decided, quorum),
        cluster.proposals.contains((number, value)),
        lower.below(number),
    ensures
        decided == value,
{
    assert(cluster.safe_at(number, value));
    let witness = choose|witness: Set<int>| #[trigger] cluster.blocks(witness, lower, value);
    lemma_quorums_intersect(cluster.size(), quorum, witness);
    let agent = choose|agent: int| quorum.contains(agent) && witness.contains(agent);
    assert(cluster.voted(agent, lower));
    assert(cluster.proposals.contains((lower, value)));
}

/// Agreement. Take any run of a cluster from an initial state, any two
/// moments of the run, and at each moment any agent that holds a chosen
/// value: the two values are the same.
pub proof fn theorem_agreement(
    cluster: Cluster,
    steps: Seq<ClusterStep>,
    earlier: int,
    later: int,
    first: int,
    second: int,
)
    requires
        cluster.initial(),
        cluster.admits_run(steps),
        0 <= earlier <= later <= steps.len(),
        cluster.has(first),
        cluster.has(second),
        cluster.run(steps.take(earlier)).agents[first].volatile.chosen_value is Some,
        cluster.run(steps.take(later)).agents[second].volatile.chosen_value is Some,
    ensures
        cluster.run(steps.take(earlier)).agents[first].volatile.chosen_value == cluster.run(
            steps.take(later),
        ).agents[second].volatile.chosen_value,
{
    let until_later = steps.take(later);
    assert(until_later.take(earlier) == steps.take(earlier));
    lemma_run_extends_its_start(cluster, steps, later);
    lemma_run_extends_its_start(cluster, until_later, earlier);
    lemma_run_is_consistent(cluster, steps.take(earlier));
    lemma_run_is_consistent(cluster, until_later);
    let then = cluster.run(steps.take(earlier));
    let now = cluster.run(until_later);
    lemma_run_keeps_nodes(cluster, steps.take(earlier));
    lemma_run_keeps_nodes(cluster, until_later);
    let first_value = then.agents[first].volatile.chosen_value.unwrap();
    let second_value = now.agents[second].volatile.chosen_value.unwrap();
    assert(then.has(first));
    assert(then.notices.contains(first_value));
    assert(now.has(second));
    assert(now.notices.contains(second_value));
    assert(now.notices.contains(first_value));
    lemma_notices_agree(now, first_value, second_value);
}

/// What an agent has learned was chosen: a quorum has accepted a proposal
/// of that value.
pub proof fn theorem_learned_value_was_accepted(
    cluster: Cluster,
    steps: Seq<ClusterStep>,
    agent: int,
)
    requires
        cluster.initial(),
        cluster.admits_run(steps),
        cluster.has(agent),
        cluster.run(steps).agents[agent].volatile.chosen_value is Some,
    ensures
        exists|number: ProposalNumber, quorum: Set<int>| #[trigger]
            cluster.run(steps).decided(
                number,
                cluster.run(steps).agents[agent].volatile.chosen_value.unwrap(),
                quorum,
            ),
{
    lemma_run_is_consistent(cluster, steps);
    lemma_run_keeps_nodes(cluster, steps);
    let now = cluster.run(steps);
    assert(now.has(agent));
    assert(now.notices.contains(now.agents[agent].volatile.chosen_value.unwrap()));
}

/// After every run, stable storage holds each agent's durable record as the
/// agent holds it, so a restart loses no promise and no accepted proposal.
pub proof fn theorem_storage_is_current(cluster: Cluster, steps: Seq<ClusterStep>, agent: int)
    requires
        cluster.initial(),
        cluster.admits_run(steps),
        cluster.has(agent),
    ensures
        cluster.run(steps).agents[agent].stored == cluster.run(steps).agents[agent].durable,
        cluster.run(steps).after(ClusterStep::Restart { agent }).agents[agent].durable
            == cluster.run(steps).agents[agent].durable,
{
    lemma_run_is_consistent(cluster, steps);
    lemma_run_keeps_nodes(cluster, steps);
    let now = cluster.run(steps);
    assert(now.has(agent));
}

/// A run that can happen can go on with any step that can happen after it.
pub proof fn lemma_run_goes_on(cluster: Cluster, steps: Seq<ClusterStep>, step: ClusterStep)
    requires
        cluster.admits_run(steps),
        cluster.run(steps).enabled(step),
    ensures
        cluster.admits_run(steps.push(step)),
        cluster.run(steps.push(step)) == cluster.run(steps).after(step),
{
    assert(steps.push(step).drop_last() == steps);
}

/// Agreement is not kept by keeping agents from learning: a single agent
/// that proposes a value learns it. The run is the shortest there is: the
/// agent takes a number, promises, proposes, accepts, sees its proposal
/// chosen and learns the value.
pub proof fn lemma_single_agent_learns(cluster: Cluster, value: Value) -> (steps: Seq<ClusterStep>)
    requires
        cluster.initial(),
        cluster.size() == 1,
    ensures
        cluster.admits_run(steps),
        cluster.run(steps).agents[0].volatile.chosen_value == Some(value),
{
    let number = ProposalNumber { round: 0, proposer_address: cluster.nodes[0] };
    let alone = seq![0int];
    assert(cluster.has(0));
    assert(cluster.quorum_answered(alone));
    assert(cluster.agents[0].phase is Idle);
    let none = Seq::<ClusterStep>::empty();

    let start = ClusterStep::Propose {
        agent: 0,
        event: EventView::Start,
        original_value: Some(value),
        senders: alone,
    };
    let started = cluster.after(start);
    lemma_run_goes_on(cluster, none, start);
    assert(started.agents[0].phase == PhaseView::Preparing { proposal_number: number });

    let promise = ClusterStep::Handle { agent: 0, request: RequestView::Prepare(Some(number)) };
    let promised = started.after(promise);
    lemma_run_goes_on(cluster, none.push(start), promise);
    assert(promised.promises.contains(Promise { agent: 0, number, accepted: None }));
    assert(promised.agents[0].durable.min_proposal_number == Some(number));

    let answers = seq![None::<(ProposalNumber, Value)>];
    let hear = ClusterStep::Propose {
        agent: 0,
        event: EventView::Prepared(answers),
        original_value: Some(value),
        senders: alone,
    };
    assert(promised.quorum_answered(alone));
    assert(promised.promises_heard(number, alone, answers));
    assert(value_to_propose(answers, Some(value)) == Some(value)) by {
        reveal_with_fuel(highest_accepted, 2);
        assert(answers.drop_last() =~= Seq::empty());
    }
    let proposed = promised.after(hear);
    lemma_run_goes_on(cluster, none.push(start).push(promise), hear);
    assert(proposed.proposals.contains((number, value)));
    assert(proposed.agents[0].phase == PhaseView::Accepting { proposal_number: number, value });

    let accept = ClusterStep::Handle { agent: 0, request: RequestView::Accept(number, value) };
    let accepted = proposed.after(accept);
    lemma_run_goes_on(cluster, none.push(start).push(promise).push(hear), accept);
    assert(accepted.acceptances.contains(Acceptance { agent: 0, number, promise: number }));

    let promises = seq![number];
    let count = ClusterStep::Propose {
        agent: 0,
        event: EventView::Accepted(promises),
        original_value: Some(value),
        senders: alone,
    };
    assert(accepted.quorum_answered(alone));
    assert(accepted.acceptances_heard(number, alone, promises));
    assert(chosen_by(promises, number));
    let chosen = accepted.after(count);
    lemma_run_goes_on(cluster, none.push(start).push(promise).push(hear).push(accept), count);
    assert(chosen.notices.contains(value));

    let learn = ClusterStep::Handle { agent: 0, request: RequestView::Choose(value) };
    let steps = none.push(start).push(promise).push(hear).push(accept).push(count);
    lemma_run_goes_on(cluster, steps, learn);
    steps.push(learn)
}

/// A run keeps the endpoints of a cluster.
pub proof fn lemma_run_keeps_nodes(cluster: Cluster, steps: Seq<ClusterStep>)
    ensures
        cluster.run(steps).nodes == cluster.nodes,
    decreases steps.len(),
{
    if steps.len() > 0 {
        lemma_run_keeps_nodes(cluster, steps.drop_last());
    }
}

} // verus!
