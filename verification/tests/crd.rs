use fluxvm::crd::{
    default_backend, default_memory_mib, default_network_mode, default_storage, default_vcpus,
    DisposableVmSpec, DisposableVmStatus,
};
use fluxvm::settings::{node_config, operator_config, OperatorError};
use fluxvm::virtio_blk::VirtioBlockConfig;

#[test]
fn what_a_resource_leaves_out_has_defaults() {
    assert_eq!(default_backend(), "qemu");
    assert_eq!(default_vcpus(), 2);
    assert_eq!(default_memory_mib(), 2048);
    assert_eq!(default_network_mode(), "none");
    assert_eq!(default_storage(), "default");
}

#[test]
fn empty_resources_are_empty() {
    let spec = DisposableVmSpec::default();
    assert_eq!((spec.node.as_str(), spec.vcpus, spec.ttl_seconds), ("", 0, None));
    let status = DisposableVmStatus::default();
    assert_eq!(status, DisposableVmStatus { phase: String::new(), vm_id: None, error: None });
    let disk = VirtioBlockConfig { path: "/images/a.qcow2".into(), read_only: true };
    assert!(disk.read_only && disk.path.ends_with("a.qcow2"));
}

#[test]
fn a_node_advertises_what_it_uses_unless_told_otherwise() {
    let c = node_config("n".into(), "http://c".into(), "http://l".into(), None, 0);
    assert_eq!(c.advertise_url, "http://l");
    assert_eq!(c.interval_secs, 1);
    let c = node_config("n".into(), "http://c".into(), "http://l".into(), Some("http://x".into()), 10);
    assert_eq!(c.advertise_url, "http://x");
    assert_eq!((c.fluxvm_url.as_str(), c.interval_secs), ("http://l", 10));
}

#[test]
fn an_operator_needs_the_name_of_its_node() {
    assert_eq!(operator_config(None, None, None), Err(OperatorError::NoNodeName));
    let c = operator_config(Some("n".into()), None, Some("t".into())).unwrap();
    assert_eq!(c.base_url, "http://127.0.0.1:7788");
    assert_eq!(c.token.as_deref(), Some("t"));
    let c = operator_config(Some("n".into()), Some("http://x".into()), None).unwrap();
    assert_eq!((c.node_name.as_str(), c.base_url.as_str()), ("n", "http://x"));
}
