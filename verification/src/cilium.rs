//! Coexistence with Cilium.
//!
//! In Cilium mode Cilium stays the dataplane of the node, and FluxVM attaches its own program to
//! the interface of the VM only. Cilium's private maps are never written. Both need Cilium and
//! the BPF file system to be visible.

use crate::step;
use crate::step::{Action, Step};
use vstd::prelude::*;
use vstd::string::*;

verus! {

/// What has to be there: Cilium's socket, and the BPF file system, whose metadata can be read.
pub open spec fn requirements() -> Seq<step::StepView> {
    Seq::<step::StepView>::empty().push(
        step::must_view(
            step::ActionView::Exists { path: "/var/run/cilium/cilium.sock"@ },
            "Cilium coexistence mode requested but /var/run/cilium/cilium.sock is not visible; mount /var/run/cilium into the FluxVM container or install Cilium on the host"@,
        ),
    ).push(
        step::must_view(
            step::ActionView::Exists { path: "/sys/fs/bpf"@ },
            "Cilium coexistence mode requires bpffs at /sys/fs/bpf"@,
        ),
    ).push(
        step::must_view(
            step::ActionView::Inspect { path: "/sys/fs/bpf"@ },
            "reading /sys/fs/bpf metadata"@,
        ),
    )
}

/// Checks that the host allows coexistence.
pub fn validate_host() -> (r: Vec<Step>)
    ensures
        step::plan(r@) == requirements(),
{
    let mut steps = step::no_steps();
    step::add_step(
        &mut steps,
        step::must(
            step::exists_at("/var/run/cilium/cilium.sock"),
            "Cilium coexistence mode requested but /var/run/cilium/cilium.sock is not visible; mount /var/run/cilium into the FluxVM container or install Cilium on the host",
        ),
    );
    step::add_step(
        &mut steps,
        step::must(
            step::exists_at("/sys/fs/bpf"),
            "Cilium coexistence mode requires bpffs at /sys/fs/bpf",
        ),
    );
    step::add_step(
        &mut steps,
        step::must(
            Action::Inspect { path: "/sys/fs/bpf".to_owned() },
            "reading /sys/fs/bpf metadata",
        ),
    );
    steps
}

} // verus!
