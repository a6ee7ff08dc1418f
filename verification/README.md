# FluxVM

FluxVM runs disposable virtual machines. This crate holds the decisions behind its network and
its fleet as a library that is verified with Verus.

Work on the host is never done by the library. It is described as a job: a list of steps, each of
them an action with what follows from every answer. Whoever works a job off performs the action
at hand and hands the host's reply back.

- `src/step.rs`, `src/follow.rs`, `src/job.rs`: actions, replies, and how jobs go on, are undone
  or replaced, and end.
- `src/netns.rs`: network namespaces of VMs.
- `src/dataplane.rs`: network policies, nftables, and the choice of a dataplane.
- `src/ebpf.rs`, `src/xdp.rs`, `src/cilium.rs`: the native dataplane, the XDP guard, and
  coexistence with Cilium.
- `src/egress.rs`: egress of sandboxes and their credentials.
- `src/central.rs`: the fleet registry.
- `src/crd.rs`, `src/settings.rs`, `src/config.rs`, `src/virtio_blk.rs`: resources and settings.
- `src/text.rs`, `src/number.rs`, `src/order.rs`, `src/path.rs`, `src/line.rs`, `src/cidr.rs`,
  `src/vmid.rs`, `src/json.rs`: what the rest is written with.

Functions whose names start with `law_` are proofs: each states a property of the library as a
whole. `app/` is the program around the library, which performs actions, serves HTTP and reads
files.
