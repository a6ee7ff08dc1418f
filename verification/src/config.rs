//! Configuration, as far as the network decisions read it.

use vstd::prelude::*;

verus! {

/// Which dataplane carries the traffic of VMs.
#[derive(Debug, Clone, Copy, PartialEq, Eq, Structural)]
pub enum DataplaneMode {
    /// nftables.
    Legacy,
    /// Traffic-control programs of FluxVM's own.
    Ebpf,
    /// The same, next to Cilium.
    Cilium,
}

/// The node-wide XDP guard.
#[derive(Debug, PartialEq, Eq)]
pub struct XdpConfig {
    pub enabled: bool,
    pub interface: Option<String>,
    pub bpf_object: String,
    pub pin_root: String,
    pub block_cidrs: Vec<String>,
}

/// The dataplane.
#[derive(Debug, PartialEq, Eq)]
pub struct DataplaneConfig {
    pub mode: DataplaneMode,
    pub bpf_object: String,
    pub pin_root: String,
    /// Whether a VM may not start without the native dataplane.
    pub required: bool,
    pub default_allow: bool,
    pub allow_cidrs: Vec<String>,
    pub allow_ports: Vec<String>,
    pub sample_rate: u32,
    pub xdp: XdpConfig,
}

/// A credential that is put into requests to a host.
#[derive(Debug, PartialEq, Eq)]
pub struct CredentialInject {
    pub host: String,
    pub authorization: String,
}

/// What sandboxes may do.
#[derive(Debug, PartialEq, Eq)]
pub struct SandboxConfig {
    pub egress_allow_domains: Vec<String>,
    pub credential_vault: Vec<CredentialInject>,
    pub dataplane: DataplaneConfig,
}

/// The configuration of a node.
#[derive(Debug, PartialEq, Eq)]
pub struct Config {
    pub state_dir: String,
    pub sandbox: SandboxConfig,
}

/// What the environment of the daemon says about where BPF state is kept.
#[derive(Debug, PartialEq, Eq)]
pub struct BpfEnv {
    /// `FLUXVM_BPF_PIN_ROOT`.
    pub pin_root: Option<String>,
    /// `FLUXVM_BPF_META_ROOT`.
    pub meta_root: Option<String>,
}

} // verus!
