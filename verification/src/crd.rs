//! The `DisposableVm` resource of Kubernetes.

use vstd::prelude::*;
use vstd::string::*;

verus! {

/// A VM as it is asked for.
#[derive(Debug, Clone)]
pub struct DisposableVmSpec {
    /// The node that the VM runs on. The operator of that node picks it up; nobody else does.
    pub node: String,
    /// `qemu`, `cloud-hypervisor`, `firecracker` or `auto`.
    pub backend: String,
    pub image: String,
    pub vcpus: u8,
    pub memory_mib: u64,
    pub disk_size_gib: Option<u64>,
    /// `none` or `user`.
    pub network_mode: String,
    /// `default`, `lvm-thin`, `nbd` or `ceph-rbd`.
    pub storage: String,
    pub ttl_seconds: Option<u64>,
}

impl Default for DisposableVmSpec {
    fn default() -> (r: Self)
        ensures
            r.node@ == Seq::<char>::empty(),
            r.backend@ == Seq::<char>::empty(),
            r.image@ == Seq::<char>::empty(),
            r.vcpus == 0,
            r.memory_mib == 0,
            r.disk_size_gib is None,
            r.network_mode@ == Seq::<char>::empty(),
            r.storage@ == Seq::<char>::empty(),
            r.ttl_seconds is None,
    {
        DisposableVmSpec {
            node: String::new(),
            backend: String::new(),
            image: String::new(),
            vcpus: 0,
            memory_mib: 0,
            disk_size_gib: None,
            network_mode: String::new(),
            storage: String::new(),
            ttl_seconds: None,
        }
    }
}

/// The backend of a VM that names none.
pub fn default_backend() -> (r: String)
    ensures
        r@ == "qemu"@,
{
    "qemu".to_owned()
}

/// The processors of a VM that says nothing about them.
pub fn default_vcpus() -> (r: u8)
    ensures
        r == 2,
{
    2
}

/// The memory of a VM that says nothing about it.
pub fn default_memory_mib() -> (r: u64)
    ensures
        r == 2048,
{
    2048
}

/// The network of a VM that names none.
pub fn default_network_mode() -> (r: String)
    ensures
        r@ == "none"@,
{
    "none".to_owned()
}

/// The storage of a VM that names none.
pub fn default_storage() -> (r: String)
    ensures
        r@ == "default"@,
{
    "default".to_owned()
}

/// How it stands with a VM.
#[derive(Debug, Clone, PartialEq, Eq)]
pub struct DisposableVmStatus {
    /// `Pending`, `Running` or `Failed`.
    pub phase: String,
    /// The id of the VM, once there is one.
    pub vm_id: Option<String>,
    pub error: Option<String>,
}

impl Default for DisposableVmStatus {
    fn default() -> (r: Self)
        ensures
            r.phase@ == Seq::<char>::empty(),
            r.vm_id is None,
            r.error is None,
    {
        DisposableVmStatus { phase: String::new(), vm_id: None, error: None }
    }
}

} // verus!
