//! What an agent holds: proposal numbers and their order, the durable record
//! that survives a restart, and the volatile record that does not.

use core::cmp::Ordering;
use vstd::prelude::*;
use vstd::std_specs::cmp::PartialOrdSpecImpl;

verus! {

/// An IP address as a number: the four octets of an IPv4 address or the
/// sixteen of an IPv6 address, most significant first.
#[derive(Clone, Copy, Debug, PartialEq, Eq, Structural)]
pub enum IpAddress {
    V4(u32),
    V6(u128),
}

/// A network endpoint: an IP address and a port.
#[derive(Clone, Copy, Debug, PartialEq, Eq, Structural)]
pub struct Address {
    pub ip: IpAddress,
    pub port: u16,
}

/// The label of a proposal: the proposer's round counter, and the proposer's
/// own endpoint to tell apart proposers that are in the same round.
#[derive(Clone, Copy, Debug, PartialEq, Eq, Structural)]
pub struct ProposalNumber {
    pub round: u64,
    pub proposer_address: Address,
}

impl IpAddress {
    /// Strict order: every IPv4 address is below every IPv6 address, and
    /// within a family the addresses are ordered as numbers.
    pub open spec fn below(self, other: IpAddress) -> bool {
        match (self, other) {
            (IpAddress::V4(a), IpAddress::V4(b)) => a < b,
            (IpAddress::V4(_), IpAddress::V6(_)) => true,
            (IpAddress::V6(_), IpAddress::V4(_)) => false,
            (IpAddress::V6(a), IpAddress::V6(b)) => a < b,
        }
    }

    /// The number that the octets `a.b.c.d` spell.
    pub open spec fn v4_number(a: u8, b: u8, c: u8, d: u8) -> int {
        a * 0x100_0000 + b * 0x1_0000 + c * 0x100 + d
    }

    /// The IPv4 address `a.b.c.d`.
    pub fn v4(a: u8, b: u8, c: u8, d: u8) -> (ip: IpAddress)
        ensures
            ip == IpAddress::V4(Self::v4_number(a, b, c, d) as u32),
            Self::v4_number(a, b, c, d) <= u32::MAX,
    {
        let number: u32 = (a as u32) * 0x100_0000 + (b as u32) * 0x1_0000 + (c as u32) * 0x100 + (
        d as u32);
        IpAddress::V4(number)
    }

    /// Whether `self` is strictly below `other`.
    pub fn is_below(&self, other: &IpAddress) -> (result: bool)
        ensures
            result == self.below(*other),
    {
        match (*self, *other) {
            (IpAddress::V4(a), IpAddress::V4(b)) => a < b,
            (IpAddress::V4(_), IpAddress::V6(_)) => true,
            (IpAddress::V6(_), IpAddress::V4(_)) => false,
            (IpAddress::V6(a), IpAddress::V6(b)) => a < b,
        }
    }
}

impl Address {
    /// Strict order: by IP address first, by port among equal IP addresses.
    pub open spec fn below(self, other: Address) -> bool {
        self.ip.below(other.ip) || (self.ip == other.ip && self.port < other.port)
    }

    /// The endpoint at `ip` and `port`.
    pub fn new(ip: IpAddress, port: u16) -> (address: Address)
        ensures
            address == (Address { ip, port }),
    {
        Address { ip, port }
    }

    /// Whether `self` is strictly below `other`.
    pub fn is_below(&self, other: &Address) -> (result: bool)
        ensures
            result == self.below(*other),
    {
        self.ip.is_below(&other.ip) || (self.ip == other.ip && self.port < other.port)
    }
}

impl ProposalNumber {
    /// Strict order: by round first, by the proposer's endpoint among equal
    /// rounds.
    pub open spec fn below(self, other: ProposalNumber) -> bool {
        self.round < other.round || (self.round == other.round && self.proposer_address.below(
            other.proposer_address,
        ))
    }

    /// The order that goes with `below`: below or equal.
    pub open spec fn at_most(self, other: ProposalNumber) -> bool {
        self.below(other) || self == other
    }

    /// Whether `self` is strictly below `other`.
    pub fn is_below(&self, other: &ProposalNumber) -> (result: bool)
        ensures
            result == self.below(*other),
    {
        self.round < other.round || (self.round == other.round && self.proposer_address.is_below(
            &other.proposer_address,
        ))
    }
}

impl PartialOrdSpecImpl for ProposalNumber {
    open spec fn obeys_partial_cmp_spec() -> bool {
        true
    }

    open spec fn partial_cmp_spec(&self, other: &ProposalNumber) -> Option<Ordering> {
        if self.below(*other) {
            Some(Ordering::Less)
        } else if *self == *other {
            Some(Ordering::Equal)
        } else {
            Some(Ordering::Greater)
        }
    }
}

impl PartialOrd for ProposalNumber {
    fn partial_cmp(&self, other: &ProposalNumber) -> (result: Option<Ordering>) {
        if self.is_below(other) {
            Some(Ordering::Less)
        } else if *self == *other {
            Some(Ordering::Equal)
        } else {
            Some(Ordering::Greater)
        }
    }
}

/// No proposal number is below itself, and of two that differ exactly one is
/// below the other.
pub proof fn lemma_order_is_total(a: ProposalNumber, b: ProposalNumber)
    ensures
        !a.below(a),
        a != b ==> (a.below(b) != b.below(a)),
        a == b ==> !a.below(b),
{
}

/// `below` is transitive, alone and mixed with `at_most`.
pub proof fn lemma_order_is_transitive(a: ProposalNumber, b: ProposalNumber, c: ProposalNumber)
    ensures
        a.below(b) && b.below(c) ==> a.below(c),
        a.at_most(b) && b.below(c) ==> a.below(c),
        a.below(b) && b.at_most(c) ==> a.below(c),
        a.at_most(b) && b.at_most(c) ==> a.at_most(c),
{
}

/// A value that the cluster may choose, as contracts see it.
pub type Value = Seq<char>;

/// An optional value as contracts see it.
pub open spec fn value_view(value: Option<String>) -> Option<Value> {
    match value {
        Some(value) => Some(value@),
        None => None,
    }
}

/// An optional proposal as contracts see it.
pub open spec fn proposal_view(proposal: Option<(ProposalNumber, String)>) -> Option<
    (ProposalNumber, Value),
> {
    match proposal {
        Some((number, value)) => Some((number, value@)),
        None => None,
    }
}

/// The part of an agent's state that is written to stable storage.
#[derive(Debug)]
pub struct Durable {
    /// The next round that this agent has not used for a proposal yet.
    pub next_round: u64,
    /// The highest proposal number that this agent has promised not to go
    /// below.
    pub min_proposal_number: Option<ProposalNumber>,
    /// The highest-numbered proposal that this agent has accepted.
    pub accepted_proposal: Option<(ProposalNumber, String)>,
}

/// The part of an agent's state that is lost on a restart.
#[derive(Debug)]
pub struct Volatile {
    /// The value that this agent has learned was chosen.
    pub chosen_value: Option<String>,
}

/// The durable record as contracts see it.
pub struct DurableView {
    pub next_round: nat,
    pub min_proposal_number: Option<ProposalNumber>,
    pub accepted_proposal: Option<(ProposalNumber, Value)>,
}

/// The volatile record as contracts see it.
pub struct VolatileView {
    pub chosen_value: Option<Value>,
}

impl View for Durable {
    type V = DurableView;

    open spec fn view(&self) -> DurableView {
        DurableView {
            next_round: self.next_round as nat,
            min_proposal_number: self.min_proposal_number,
            accepted_proposal: proposal_view(self.accepted_proposal),
        }
    }
}

impl View for Volatile {
    type V = VolatileView;

    open spec fn view(&self) -> VolatileView {
        VolatileView { chosen_value: value_view(self.chosen_value) }
    }
}

impl DurableView {
    /// The record of an agent that has not taken part in anything yet.
    pub open spec fn empty() -> DurableView {
        DurableView { next_round: 0, min_proposal_number: None, accepted_proposal: None }
    }

    /// What is accepted has been promised: the number of the accepted
    /// proposal, if there is one, is at most the promised number.
    pub open spec fn wf(self) -> bool {
        self.accepted_proposal matches Some((accepted, _)) ==> (self.min_proposal_number matches Some(
            promised,
        ) && accepted.at_most(promised))
    }
}

impl VolatileView {
    /// The record of an agent that has learned nothing yet.
    pub open spec fn empty() -> VolatileView {
        VolatileView { chosen_value: None }
    }
}

/// The state in which an agent starts when nothing has been stored.
pub fn initial() -> (state: (Durable, Volatile))
    ensures
        state.0@ == DurableView::empty(),
        state.1@ == VolatileView::empty(),
        state.0@.wf(),
{
    (
        Durable { next_round: 0, min_proposal_number: None, accepted_proposal: None },
        Volatile { chosen_value: None },
    )
}

/// What became of the attempt to read an agent's durable record from stable
/// storage. `E` says what went wrong where the record could not be read.
#[derive(Debug)]
pub enum Stored<E> {
    /// The record was read.
    Found(Durable),
    /// Nothing was stored: the agent has not run before.
    Missing,
    /// Something was stored and could not be read.
    Unreadable(E),
}

/// The state in which an agent starts: the durable record that stable
/// storage holds, or the initial one where it holds nothing, beside a
/// volatile record that is empty either way. An agent does not start over a
/// record that it cannot read.
pub fn restore<E>(stored: Stored<E>) -> (state: Result<(Durable, Volatile), E>)
    ensures
        match stored {
            Stored::Found(durable) => state matches Ok(state) && state.0@ == durable@ && state.1@
                == VolatileView::empty(),
            Stored::Missing => state matches Ok(state) && state.0@ == DurableView::empty()
                && state.1@ == VolatileView::empty(),
            Stored::Unreadable(error) => state matches Err(reason) && reason == error,
        },
{
    match stored {
        Stored::Found(durable) => Ok((durable, Volatile { chosen_value: None })),
        Stored::Missing => Ok(initial()),
        Stored::Unreadable(error) => Err(error),
    }
}

} // verus!
