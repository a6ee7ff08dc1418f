//! Settings of the daemons, from their arguments and environment.

use vstd::prelude::*;
use vstd::string::*;

verus! {

/// Where a daemon reaches the FluxVM of its own host unless told otherwise.
pub open spec fn local_url() -> Seq<char> {
    "http://127.0.0.1:7788"@
}

/// The settings of a node agent.
#[derive(Debug, PartialEq, Eq)]
pub struct NodeConfig {
    pub name: String,
    pub central_url: String,
    /// Where the agent reaches FluxVM.
    pub fluxvm_url: String,
    /// Where the registry reaches the same FluxVM.
    pub advertise_url: String,
    /// How many seconds lie between heartbeats.
    pub interval_secs: u64,
}

/// Settles the settings of a node agent. What is not advertised is advertised as the agent
/// reaches it, and heartbeats are at least a second apart.
pub fn node_config(
    name: String,
    central_url: String,
    fluxvm_url: String,
    advertise_url: Option<String>,
    interval_secs: u64,
) -> (r: NodeConfig)
    ensures
        r.name@ == name@,
        r.central_url@ == central_url@,
        r.fluxvm_url@ == fluxvm_url@,
        r.advertise_url@ == match advertise_url {
            Some(url) => url@,
            None => fluxvm_url@,
        },
        r.interval_secs == if interval_secs == 0 {
            1
        } else {
            interval_secs
        },
{
    let advertise_url = match advertise_url {
        Some(url) => url,
        None => fluxvm_url.clone(),
    };
    let interval_secs: u64 = if interval_secs == 0 {
        1
    } else {
        interval_secs
    };
    NodeConfig { name, central_url, fluxvm_url, advertise_url, interval_secs }
}

/// The settings of a Kubernetes operator.
#[derive(Debug, PartialEq, Eq)]
pub struct OperatorConfig {
    /// The node whose VMs the operator picks up.
    pub node_name: String,
    pub base_url: String,
    pub token: Option<String>,
}

/// Why an operator cannot start.
#[derive(Debug, Clone, Copy, PartialEq, Eq, Structural)]
pub enum OperatorError {
    /// It was not told which node it runs on.
    NoNodeName,
}

/// Settles the settings of an operator, from its environment.
pub fn operator_config(
    node_name: Option<String>,
    base_url: Option<String>,
    token: Option<String>,
) -> (r: Result<OperatorConfig, OperatorError>)
    ensures
        match node_name {
            None => r == Err::<OperatorConfig, OperatorError>(OperatorError::NoNodeName),
            Some(name) => r matches Ok(c) && c.node_name@ == name@ && c.base_url@ == (
            match base_url {
                Some(url) => url@,
                None => local_url(),
            }) && c.token == token,
        },
{
    let node_name = match node_name {
        Some(name) => name,
        None => {
            return Err(OperatorError::NoNodeName);
        },
    };
    let base_url = match base_url {
        Some(url) => url,
        None => "http://127.0.0.1:7788".to_owned(),
    };
    Ok(OperatorConfig { node_name, base_url, token })
}

} // verus!
