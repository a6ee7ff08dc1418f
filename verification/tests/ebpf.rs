use fluxvm::config::{BpfEnv, DataplaneConfig, DataplaneMode, XdpConfig};
use fluxvm::ebpf::{apply, candidate_pin_roots, hex_args, identity_for, remove, vm_meta_dir};
use fluxvm::job::Job;
use fluxvm::step::{Action, ByteOrder, Cause, Refusal, Reply};
use fluxvm::vmid::VmId;

const ID: VmId = VmId { bits: 0x0000_0001_0000_0002_0000_0003_0000_0004 };
const SIMPLE: &str = "00000001000000020000000300000004";

fn env() -> BpfEnv {
    BpfEnv { pin_root: None, meta_root: None }
}

fn config(allow: &[&str]) -> DataplaneConfig {
    DataplaneConfig {
        mode: DataplaneMode::Ebpf,
        bpf_object: "/lib/tc.o".into(),
        pin_root: "/sys/fs/bpf/fluxvm".into(),
        required: true,
        default_allow: false,
        allow_cidrs: allow.iter().map(|s| s.to_string()).collect(),
        allow_ports: Vec::new(),
        sample_rate: 0,
        xdp: XdpConfig {
            enabled: false,
            interface: None,
            bpf_object: String::new(),
            pin_root: String::new(),
            block_cidrs: Vec::new(),
        },
    }
}

fn shown(action: &Action) -> String {
    match action {
        Action::Run { program, args } => format!("{program} {}", args.join(" ")),
        Action::Exists { path } => format!("exists {path}"),
        Action::Read { path } => format!("read {path}"),
        Action::Write { path, text } => format!("write {path} {text}"),
        Action::MakeDirs { path } => format!("mkdir {path}"),
        Action::RemoveTree { path } => format!("rmtree {path}"),
        other => format!("{other:?}"),
    }
}

fn work(mut job: Job, mut host: impl FnMut(&str) -> Reply) -> (Vec<String>, Job) {
    let mut done = Vec::new();
    while let Some(action) = job.current() {
        let line = shown(action);
        let reply = host(&line);
        done.push(line);
        job.resume(reply);
    }
    (done, job)
}

#[test]
fn bytes_are_bpftool_hex_tokens() {
    assert_eq!(hex_args(&[0, 1, 0xfe]), ["00", "01", "fe"]);
}

#[test]
fn identities_are_two_words_of_the_id_and_never_zero() {
    assert_eq!(identity_for(ID), 2 ^ 4);
    assert_eq!(identity_for(VmId { bits: 0 }), 1);
    assert_eq!(identity_for(VmId { bits: u128::MAX }), 1);
    assert_eq!(identity_for(VmId { bits: 0xffff_ffff }), u32::MAX);
}

#[test]
fn a_vm_is_brought_onto_its_interface() {
    let job = Job::new(apply(
        &config(&["192.0.2.25/32"]),
        ID,
        "tap0",
        &vec!["10.20.30.40/16".to_string(), "192.0.2.25/32".to_string()],
        &env(),
        ByteOrder::Little,
    ));
    let (done, job) = work(job, |line| match line {
        "read /sys/class/net/tap0/ifindex" => Reply::Text("258\n".into()),
        l if l.starts_with("read ") => Reply::Missing("none".into()),
        "exists /lib/tc.o" => Reply::Done,
        l if l.starts_with("exists ") => Reply::Failed("no".into()),
        "tc qdisc add dev tap0 clsact" => Reply::Failed("exists".into()),
        _ => Reply::Done,
    });
    assert_eq!(job.failure, None);
    let pins = format!("/sys/fs/bpf/fluxvm/vms/{SIMPLE}");
    let meta = format!("/run/fluxvm/ebpf/vms/{SIMPLE}");
    assert_eq!(
        done,
        [
            "exists /lib/tc.o".to_string(),
            "bpftool --version".into(),
            "tc -V".into(),
            format!("read {meta}/iface"),
            format!("read {pins}/iface"),
            format!("exists {pins}"),
            format!("exists {meta}"),
            format!("mkdir {pins}/progs"),
            format!("mkdir {pins}/maps"),
            format!("mkdir {meta}"),
            format!("write {meta}/iface tap0"),
            format!("bpftool prog load /lib/tc.o {pins}/progs/fluxvm_egress type classifier pinmaps {pins}/maps"),
            "tc qdisc add dev tap0 clsact".into(),
            format!("tc filter add dev tap0 ingress pref 50 handle 1 bpf da pinned {pins}/progs/fluxvm_egress"),
            "read /sys/class/net/tap0/ifindex".into(),
            format!("bpftool map update pinned {pins}/maps/fluxvm_id key hex 02 01 00 00 value hex 06 00 00 00 00 00 00 00"),
            format!("bpftool map update pinned {pins}/maps/fluxvm_v4 key hex 30 00 00 00 06 00 00 00 0a 14 00 00 value hex 01 00 00 00"),
            format!("bpftool map update pinned {pins}/maps/fluxvm_v4 key hex 40 00 00 00 06 00 00 00 c0 00 02 19 value hex 01 00 00 00"),
        ]
    );
}

#[test]
fn words_follow_the_order_of_the_machine() {
    let job = Job::new(apply(&config(&["10.0.0.0/8"]), ID, "tap0", &Vec::new(), &env(), ByteOrder::Big));
    let (done, _) = work(job, |line| match line {
        "read /sys/class/net/tap0/ifindex" => Reply::Text("258\n".into()),
        l if l.starts_with("read ") => Reply::Missing("none".into()),
        _ => Reply::Done,
    });
    assert!(done[done.len() - 2].ends_with("key hex 00 00 01 02 value hex 00 00 00 06 00 00 00 00"));
    assert!(done[done.len() - 1]
        .ends_with("key hex 00 00 00 28 00 00 00 06 0a 00 00 00 value hex 00 00 00 01"));
}

#[test]
fn a_filter_that_is_there_already_is_not_overwritten() {
    let job = Job::new(apply(&config(&[]), ID, "tap0", &Vec::new(), &env(), ByteOrder::Little));
    let (done, job) = work(job, |line| {
        if line.starts_with("tc filter add") {
            Reply::Failed("RTNETLINK answers: File exists".into())
        } else if line.starts_with("read ") {
            Reply::Missing("none".into())
        } else {
            Reply::Done
        }
    });
    assert!(done.last().unwrap().starts_with("tc filter add"));
    let failure = job.failure.unwrap();
    assert_eq!(failure.context, "attaching FluxVM TC program");
    assert_eq!(failure.cause, Cause::Host("RTNETLINK answers: File exists".into()));
}

#[test]
fn a_tool_is_asked_until_one_spelling_works() {
    let job = Job::new(apply(&config(&[]), ID, "tap0", &Vec::new(), &env(), ByteOrder::Little));
    let (done, job) = work(job, |line| match line {
        "exists /lib/tc.o" | "bpftool -V" => Reply::Done,
        "tc -V" | "tc -Version" | "bpftool --version" => Reply::Failed("usage".into()),
        "tc --version" => Reply::Missing("gone".into()),
        _ => Reply::Done,
    });
    assert_eq!(
        done,
        ["exists /lib/tc.o", "bpftool --version", "bpftool -V", "tc -V", "tc -Version", "tc --version"]
    );
    assert_eq!(job.failure.unwrap().context, "tc is required for the eBPF dataplane");
}

#[test]
fn a_tool_that_is_missing_ends_the_work_at_once() {
    let job = Job::new(apply(&config(&[]), ID, "tap0", &Vec::new(), &env(), ByteOrder::Little));
    let (done, job) = work(job, |line| {
        if line == "exists /lib/tc.o" { Reply::Done } else { Reply::Missing("no bpftool".into()) }
    });
    assert_eq!(done, ["exists /lib/tc.o", "bpftool --version"]);
    let failure = job.failure.unwrap();
    assert_eq!(failure.context, "bpftool is required for the eBPF dataplane");
    let job = Job::new(apply(&config(&[]), ID, "tap0", &Vec::new(), &env(), ByteOrder::Little));
    let (_, job) = work(job, |line| {
        if line == "exists /lib/tc.o" { Reply::Done } else { Reply::Failed("exit 1".into()) }
    });
    let failure = job.failure.unwrap();
    assert_eq!((failure.context.as_str(), failure.cause), ("", Cause::Host("exit 1".into())));
}

#[test]
fn malformed_input_is_refused() {
    let refusal = |iface: &str, allow: &[&str], index: &str| {
        let job = Job::new(apply(&config(allow), ID, iface, &Vec::new(), &env(), ByteOrder::Little));
        let index = index.to_string();
        let (_, job) = work(job, |line| {
            if line.starts_with("read /sys") && line.ends_with("ifindex") {
                Reply::Text(index.clone())
            } else if line.starts_with("read ") {
                Reply::Missing("none".into())
            } else {
                Reply::Done
            }
        });
        let failure = job.failure.unwrap();
        (failure.context, failure.cause)
    };
    assert_eq!(
        refusal("", &[], "1"),
        (
            "cannot attach eBPF dataplane without a host-visible interface".to_string(),
            Cause::Refused(Refusal::NoInterface)
        )
    );
    assert_eq!(
        refusal("tap0", &[], "x"),
        ("parsing ifindex for tap0".to_string(), Cause::Refused(Refusal::BadIfindex))
    );
    assert_eq!(
        refusal("tap0", &["10.0.0.0"], "1"),
        (
            "invalid eBPF allow CIDR \"10.0.0.0\": CIDR \"10.0.0.0\" must include /prefix".to_string(),
            Cause::Refused(Refusal::Cidr(fluxvm::step::CidrError::NoPrefix))
        )
    );
}

#[test]
fn the_filter_is_taken_off_the_first_interface_that_was_recorded() {
    let env = BpfEnv { pin_root: Some("/other/".into()), meta_root: Some("/meta".into()) };
    let meta = format!("/meta/vms/{SIMPLE}");
    let usual = format!("/sys/fs/bpf/fluxvm/vms/{SIMPLE}");
    let other = format!("/other/vms/{SIMPLE}");
    assert_eq!(vm_meta_dir(&env, ID), meta);
    assert_eq!(candidate_pin_roots(&env, ID), [usual.clone(), other.clone()]);
    let blank = format!("read {meta}/iface");
    let named = format!("read {usual}/iface");
    let gone = format!("exists {other}");
    let (done, job) = work(Job::new(remove(&env, ID)), |line| match line {
        l if l == blank => Reply::Text(" \n".into()),
        l if l == named => Reply::Text("tap7\n".into()),
        l if l == gone => Reply::Failed("no".into()),
        l if l.starts_with("rmtree") => Reply::Failed("busy".into()),
        _ => Reply::Done,
    });
    assert_eq!(
        done,
        [
            blank.clone(),
            named.clone(),
            "tc filter del dev tap7 ingress pref 50".into(),
            format!("exists {usual}"),
            format!("rmtree {usual}"),
            gone.clone(),
            format!("exists {meta}"),
            format!("rmtree {meta}"),
        ]
    );
    assert_eq!(job.failure, None);
}

#[test]
fn a_root_that_is_the_usual_one_is_looked_at_once() {
    let env = BpfEnv { pin_root: Some("/sys/fs//bpf/./fluxvm/".into()), meta_root: None };
    assert_eq!(candidate_pin_roots(&env, ID).len(), 1);
}
