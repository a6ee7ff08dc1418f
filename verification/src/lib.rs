//! FluxVM: the decisions behind a disposable-VM control plane.

pub mod central;
pub mod cidr;
pub mod cilium;
pub mod config;
pub mod crd;
pub mod dataplane;
pub mod ebpf;
pub mod egress;
pub mod follow;
pub mod job;
pub mod json;
pub mod line;
pub mod model;
pub mod netns;
pub mod number;
pub mod order;
pub mod path;
pub mod settings;
pub mod step;
pub mod text;
pub mod virtio_blk;
pub mod vmid;
pub mod xdp;
