//! How an agent settles who it is: its place among the configured endpoints,
//! and the endpoint it serves on.

use crate::state::{Address, IpAddress};
use vstd::prelude::*;

verus! {

/// The configuration of a cluster: the endpoint of each agent.
#[derive(Debug)]
pub struct Config {
    pub nodes: Vec<Address>,
}

/// What an agent runs with.
#[derive(Debug)]
pub struct Settings {
    /// The endpoint of each agent of the cluster.
    pub nodes: Vec<Address>,
    /// The place of this agent among them.
    pub node_index: usize,
    /// The endpoint that this agent serves on.
    pub address: Address,
    /// The value that this agent proposes, if any.
    pub proposal: Option<String>,
}

/// Why an agent cannot start. `E` says what was wrong with an option that
/// could not be read.
#[derive(Debug)]
pub enum SettingsError<E> {
    /// The node index could not be read.
    NodeIndex(E),
    /// The configuration has no endpoint at this index.
    NoSuchNode(usize),
    /// The IP address could not be read.
    Ip(E),
    /// The port could not be read.
    Port(E),
}

/// Settles an agent's settings from the configuration and from the options
/// as far as they were given and could be read. The agent serves on the
/// endpoint that the configuration has at its index, with the IP address and
/// the port replaced by those given. What is wrong is reported in this order:
/// the node index, its range, the IP address, the port.
pub fn settings<E>(
    config: Config,
    node_index: Result<usize, E>,
    ip: Option<Result<IpAddress, E>>,
    port: Option<Result<u16, E>>,
    proposal: Option<String>,
) -> (result: Result<Settings, SettingsError<E>>)
    ensures
        match result {
            Ok(settled) => {
                &&& node_index matches Ok(index)
                &&& index < config.nodes@.len()
                &&& !(ip matches Some(Err(_)))
                &&& !(port matches Some(Err(_)))
                &&& settled.nodes@ == config.nodes@
                &&& settled.node_index == index
                &&& settled.address.ip == match ip {
                    Some(Ok(given)) => given,
                    _ => config.nodes@[index as int].ip,
                }
                &&& settled.address.port == match port {
                    Some(Ok(given)) => given,
                    _ => config.nodes@[index as int].port,
                }
                &&& settled.proposal == proposal
            },
            Err(SettingsError::NodeIndex(error)) => node_index == Err::<usize, E>(error),
            Err(SettingsError::NoSuchNode(index)) => {
                &&& node_index == Ok::<usize, E>(index)
                &&& index >= config.nodes@.len()
            },
            Err(SettingsError::Ip(error)) => {
                &&& node_index matches Ok(index)
                &&& index < config.nodes@.len()
                &&& ip == Some(Err::<IpAddress, E>(error))
            },
            Err(SettingsError::Port(error)) => {
                &&& node_index matches Ok(index)
                &&& index < config.nodes@.len()
                &&& !(ip matches Some(Err(_)))
                &&& port == Some(Err::<u16, E>(error))
            },
        },
{
    let index = match node_index {
        Ok(index) => index,
        Err(error) => {
            return Err(SettingsError::NodeIndex(error));
        },
    };
    if index >= config.nodes.len() {
        return Err(SettingsError::NoSuchNode(index));
    }
    let configured = config.nodes[index];
    let ip = match ip {
        Some(Ok(given)) => given,
        Some(Err(error)) => {
            return Err(SettingsError::Ip(error));
        },
        None => configured.ip,
    };
    let port = match port {
        Some(Ok(given)) => given,
        Some(Err(error)) => {
            return Err(SettingsError::Port(error));
        },
        None => configured.port,
    };
    Ok(Settings { nodes: config.nodes, node_index: index, address: Address::new(ip, port), proposal })
}

} // verus!
