use fluxvm::config::{BpfEnv, Config, DataplaneConfig, DataplaneMode, SandboxConfig, XdpConfig};
use fluxvm::dataplane::{
    apply_nftables, apply_sandbox_policy, apply_subnet_masquerade, default_policy, delete_policy,
    effective_policy, ensure_native_mode, load_policy, parse_nft_port_rule, policy_path,
    remove_nft_table, remove_sandbox_policy, remove_sandbox_policy_best_effort, save_policy,
    validate_policy, PolicyError, StatsError, Stored, VmNetworkPolicy,
};
use fluxvm::job::Job;
use fluxvm::step::{
    Action, ByteOrder, Cause, CidrError, PortError, PortRule, Refusal, Rejection, Reply,
};
use fluxvm::vmid::VmId;
use serde_json::Value;
use std::collections::BTreeMap;

const ID: VmId = VmId { bits: 0x0000_0001_0000_0002_0000_0003_0000_0004 };
const SIMPLE: &str = "00000001000000020000000300000004";

fn config(mode: DataplaneMode, required: bool) -> Config {
    Config {
        state_dir: "/var/lib/fluxvm".into(),
        sandbox: SandboxConfig {
            egress_allow_domains: Vec::new(),
            credential_vault: Vec::new(),
            dataplane: DataplaneConfig {
                mode,
                bpf_object: "/lib/tc.o".into(),
                pin_root: "/sys/fs/bpf/fluxvm".into(),
                required,
                default_allow: false,
                allow_cidrs: vec!["10.0.0.0/8".into()],
                allow_ports: vec!["udp/53".into()],
                sample_rate: 4,
                xdp: XdpConfig {
                    enabled: false,
                    interface: None,
                    bpf_object: String::new(),
                    pin_root: String::new(),
                    block_cidrs: Vec::new(),
                },
            },
        },
    }
}

fn env() -> BpfEnv {
    BpfEnv { pin_root: None, meta_root: None }
}

fn policy(default_allow: bool, cidrs: &[&str], ports: &[&str]) -> VmNetworkPolicy {
    VmNetworkPolicy {
        default_allow,
        allow_cidrs: cidrs.iter().map(|s| s.to_string()).collect(),
        allow_ports: ports.iter().map(|s| s.to_string()).collect(),
        sample_rate: 0,
    }
}

fn shown(action: &Action) -> String {
    match action {
        Action::Run { program, args } => format!("{program} {}", args.join(" ")),
        Action::Exists { path } => format!("exists {path}"),
        Action::Inspect { path } => format!("inspect {path}"),
        Action::Read { path } => format!("read {path}"),
        Action::Write { path, .. } => format!("write {path}"),
        Action::MakeDirs { path } => format!("mkdir {path}"),
        Action::RemoveTree { path } => format!("rmtree {path}"),
        Action::RemoveFile { path } => format!("rm {path}"),
        Action::Rename { from, to } => format!("mv {from} {to}"),
        other => format!("{other:?}"),
    }
}

fn work(mut job: Job, mut host: impl FnMut(&str) -> Reply) -> (Vec<String>, Job) {
    let mut done = Vec::new();
    while let Some(action) = job.current() {
        let line = shown(action);
        let reply = host(&line);
        done.push(line);
        job.resume(reply);
    }
    (done, job)
}

fn lines(steps: Vec<fluxvm::step::Step>) -> Vec<String> {
    steps.iter().map(|s| shown(&s.action)).collect()
}

/// A file system that holds text.
#[derive(Default)]
struct Disk {
    files: BTreeMap<String, String>,
}

impl Disk {
    fn work(&mut self, mut job: Job) -> Job {
        while let Some(action) = job.current() {
            let reply = match action {
                Action::MakeDirs { .. } => Reply::Done,
                Action::Write { path, text } => {
                    self.files.insert(path.clone(), text.clone());
                    Reply::Done
                }
                Action::Rename { from, to } => match self.files.remove(from) {
                    Some(text) => {
                        self.files.insert(to.clone(), text);
                        Reply::Done
                    }
                    None => Reply::Missing("no such file".into()),
                },
                Action::RemoveFile { path } => match self.files.remove(path) {
                    Some(_) => Reply::Done,
                    None => Reply::Missing("no such file".into()),
                },
                other => panic!("{other:?}"),
            };
            job.resume(reply);
        }
        job
    }

    fn stored(&self, path: &str) -> Stored {
        match self.files.get(path) {
            None => Stored::Absent,
            Some(text) => Stored::Held(decoded(text)),
        }
    }
}

fn encoded(p: &VmNetworkPolicy) -> String {
    let list = |v: &Vec<String>| Value::Array(v.iter().map(|s| Value::from(s.as_str())).collect());
    let mut map = serde_json::Map::new();
    map.insert("default_allow".into(), Value::from(p.default_allow));
    map.insert("allow_cidrs".into(), list(&p.allow_cidrs));
    map.insert("allow_ports".into(), list(&p.allow_ports));
    map.insert("sample_rate".into(), Value::from(p.sample_rate));
    Value::Object(map).to_string()
}

fn decoded(text: &str) -> VmNetworkPolicy {
    let v: Value = serde_json::from_str(text).unwrap();
    let list = |key: &str| {
        v[key].as_array().unwrap().iter().map(|s| s.as_str().unwrap().to_string()).collect()
    };
    VmNetworkPolicy {
        default_allow: v["default_allow"].as_bool().unwrap(),
        allow_cidrs: list("allow_cidrs"),
        allow_ports: list("allow_ports"),
        sample_rate: v["sample_rate"].as_u64().unwrap() as u32,
    }
}

#[test]
fn default_policy_is_permissive() {
    let p = VmNetworkPolicy::default();
    assert!(p.default_allow);
    assert!(p.allow_cidrs.is_empty());
    assert!(p.allow_ports.is_empty());
}

#[test]
fn policy_round_trip_is_atomic_and_validated() {
    let mut disk = Disk::default();
    let cfg = config(DataplaneMode::Legacy, false);
    let id = VmId { bits: uuid::Uuid::from_u128(0x1234_5678_9abc).as_u128() };
    let policy = VmNetworkPolicy {
        default_allow: false,
        allow_cidrs: vec!["10.0.0.0/8".into()],
        allow_ports: vec!["tcp/443".into()],
        sample_rate: 10,
    };
    let path = policy_path(&cfg, id);
    let job = disk.work(save_policy(&cfg, id, &policy, &encoded(&policy)).unwrap());
    assert_eq!(job.failure, None);
    assert_eq!(disk.files.keys().collect::<Vec<_>>(), [&path]);
    assert_eq!(load_policy(disk.stored(&path)).unwrap(), Some(policy.clone()));
    let job = disk.work(delete_policy(&cfg, id));
    assert_eq!(job.failure, None);
    assert_eq!(load_policy(disk.stored(&path)).unwrap(), None);
    assert_eq!(disk.work(delete_policy(&cfg, id)).failure, None);
}

#[test]
fn bad_l4_policy_is_rejected_before_persist() {
    let disk = Disk::default();
    let cfg = config(DataplaneMode::Legacy, false);
    let id = ID;
    let policy = VmNetworkPolicy {
        allow_ports: vec!["sctp/443".into()],
        ..VmNetworkPolicy::default()
    };
    let refused = save_policy(&cfg, id, &policy, &encoded(&policy));
    assert_eq!(
        refused.unwrap_err(),
        Rejection {
            reason: Refusal::Port(PortError::BadProtocol),
            words: "unsupported L4 protocol \"sctp\"; use tcp or udp".into(),
        }
    );
    assert!(!disk.files.contains_key(&policy_path(&cfg, id)));
}

#[test]
fn a_policy_takes_the_place_of_the_earlier_one_when_it_is_complete() {
    let cfg = config(DataplaneMode::Legacy, false);
    let dir = "/var/lib/fluxvm/network-policy";
    let file = format!("{dir}/00000001-0000-0002-0000-000300000004.json");
    assert_eq!(policy_path(&cfg, ID), file);
    let p = VmNetworkPolicy::default();
    let (done, _) = work(save_policy(&cfg, ID, &p, "{}").unwrap(), |_| Reply::Done);
    assert_eq!(
        done,
        [format!("mkdir {dir}"), format!("write {file}.tmp"), format!("mv {file}.tmp {file}")]
    );
    let (done, job) = work(save_policy(&cfg, ID, &p, "{}").unwrap(), |line| {
        if line.starts_with("write") { Reply::Failed("full".into()) } else { Reply::Done }
    });
    assert_eq!(done.len(), 2);
    let failure = job.failure.unwrap();
    assert_eq!(failure.context, format!("writing temporary network policy {file}.tmp"));
    assert_eq!(failure.cause, Cause::Host("full".into()));
}

#[test]
fn a_policy_that_cannot_be_deleted_is_an_error() {
    let cfg = config(DataplaneMode::Legacy, false);
    let (_, job) = work(delete_policy(&cfg, ID), |_| Reply::Failed("denied".into()));
    assert!(job.failure.unwrap().context.starts_with("deleting network policy /var/lib/fluxvm/"));
}

#[test]
fn a_vm_without_a_policy_has_that_of_the_node() {
    let cfg = config(DataplaneMode::Legacy, false);
    let node = default_policy(&cfg);
    assert_eq!(node.allow_ports, ["udp/53"]);
    assert_eq!((node.default_allow, node.sample_rate), (false, 4));
    assert_eq!(effective_policy(&cfg, Stored::Absent).unwrap(), node);
    let own = policy(true, &["192.0.2.0/24"], &[]);
    assert_eq!(effective_policy(&cfg, Stored::Held(own.clone())).unwrap(), own);
    assert_eq!(
        effective_policy(&cfg, Stored::Unreadable("io".into())),
        Err(PolicyError::Unreadable("io".into()))
    );
    assert_eq!(
        effective_policy(&cfg, Stored::Malformed("eof".into())),
        Err(PolicyError::Malformed("eof".into()))
    );
    assert_eq!(
        effective_policy(&cfg, Stored::Held(policy(true, &["10.0.0.0/99"], &["tcp/0"]))),
        Err(PolicyError::Invalid(Rejection {
            reason: Refusal::Cidr(CidrError::PrefixTooLong),
            words: "IPv4 prefix must be <= 32, got 99".into(),
        }))
    );
}

#[test]
fn port_rules_are_read() {
    assert_eq!(parse_nft_port_rule("tcp/443"), Ok(("tcp", 443)));
    assert_eq!(parse_nft_port_rule(" UDP / 53 "), Ok(("udp", 53)));
    assert_eq!(parse_nft_port_rule("tcp/65535"), Ok(("tcp", 65535)));
    assert_eq!(parse_nft_port_rule("tcp443"), Err(PortError::NoSlash));
    assert_eq!(parse_nft_port_rule("sctp/443"), Err(PortError::BadProtocol));
    assert_eq!(parse_nft_port_rule("tcp/"), Err(PortError::BadPort));
    assert_eq!(parse_nft_port_rule("tcp/65536"), Err(PortError::BadPort));
    assert_eq!(parse_nft_port_rule("tcp/0"), Err(PortError::ZeroPort));
    assert_eq!(validate_policy(&policy(true, &["10.0.0.0/8"], &["tcp/1"])), Ok(()));
    assert_eq!(
        validate_policy(&policy(true, &[], &["tcp/1", "t\"cp"])),
        Err(Rejection {
            reason: Refusal::Port(PortError::NoSlash),
            words: "port rule \"t\\\"cp\" must be tcp/PORT or udp/PORT".into(),
        })
    );
    let words = |rule: &str| validate_policy(&policy(true, &[], &[rule])).unwrap_err().words;
    assert_eq!(words("tcp/0"), "port must be 1..65535");
    assert_eq!(words("tcp/x"), "");
    assert_eq!(words(" Sctp /x"), "unsupported L4 protocol \"sctp\"; use tcp or udp");
}

fn base() -> Vec<String> {
    let t = format!("fluxvm_{SIMPLE}");
    vec![
        format!("nft delete table inet {t}"),
        format!("nft add table inet {t}"),
        format!("nft add chain inet {t} postrouting {{ type nat hook postrouting priority srcnat; }}"),
        format!("nft add rule inet {t} postrouting ip saddr 169.254.0.3/28 masquerade"),
    ]
}

fn chain(rules: &[&str]) -> Vec<String> {
    let t = format!("fluxvm_{SIMPLE}");
    let mut all = base();
    all.push(format!(
        "nft add chain inet {t} forward {{ type filter hook forward priority filter; policy drop; }}"
    ));
    for r in rules {
        all.push(format!("nft add rule inet {t} forward {r}"));
    }
    all
}

#[test]
fn nftables_get_the_whole_policy() {
    let guest = "169.254.0.3/28";
    let plan = |p: VmNetworkPolicy| lines(apply_nftables(ID, guest, &p));
    assert_eq!(plan(policy(true, &[], &[])), base());
    assert_eq!(plan(policy(false, &[], &[])), chain(&[]));
    assert_eq!(
        plan(policy(true, &["10.0.0.0/8", "192.0.2.0/24"], &[])),
        chain(&[
            "ip saddr 169.254.0.3/28 ip daddr 10.0.0.0/8 accept",
            "ip saddr 169.254.0.3/28 ip daddr 192.0.2.0/24 accept",
            "ct state established,related accept",
        ])
    );
    assert_eq!(
        plan(policy(false, &[], &["TCP/443", "udp/053"])),
        chain(&[
            "ip saddr 169.254.0.3/28 tcp dport 443 accept",
            "ip saddr 169.254.0.3/28 udp dport 53 accept",
            "ct state established,related accept",
        ])
    );
    assert_eq!(
        plan(policy(true, &["10.0.0.0/8", "192.0.2.0/24"], &["tcp/443", "udp/53"])),
        chain(&[
            "ip saddr 169.254.0.3/28 ip daddr 10.0.0.0/8 tcp dport 443 accept",
            "ip saddr 169.254.0.3/28 ip daddr 10.0.0.0/8 udp dport 53 accept",
            "ip saddr 169.254.0.3/28 ip daddr 192.0.2.0/24 tcp dport 443 accept",
            "ip saddr 169.254.0.3/28 ip daddr 192.0.2.0/24 udp dport 53 accept",
            "ct state established,related accept",
        ])
    );
}

#[test]
fn a_table_that_is_not_there_is_no_obstacle() {
    let job = Job::new(apply_subnet_masquerade("t", "10.0.0.0/8"));
    let (done, job) = work(job, |line| {
        if line.starts_with("nft delete") { Reply::Failed("no table".into()) } else { Reply::Done }
    });
    assert_eq!((done.len(), job.failure), (4, None));
    let job = Job::new(vec![remove_nft_table("t")]);
    let (done, job) = work(job, |_| Reply::Missing("no nft".into()));
    assert_eq!(done, ["nft delete table inet t"]);
    assert_eq!(job.failure, None);
    let job = Job::new(apply_subnet_masquerade("t", "10.0.0.0/8"));
    let (done, job) = work(job, |_| Reply::Missing("no nft".into()));
    assert_eq!(done.len(), 2);
    assert_eq!(job.failure.unwrap().context, "running nft (install nftables)");
    let job = Job::new(apply_subnet_masquerade("t", "10.0.0.0/8"));
    let (_, job) = work(job, |_| Reply::Failed("nft add failed".into()));
    let failure = job.failure.unwrap();
    assert_eq!((failure.context.as_str(), failure.cause), ("", Cause::Host("nft add failed".into())));
}

#[test]
fn a_port_rule_that_is_none_stops_nftables() {
    let job = Job::new(apply_nftables(ID, "169.254.0.3/28", &policy(true, &[], &["tcp/1", "x"])));
    let (done, job) = work(job, |_| Reply::Done);
    assert_eq!(done.len(), 7);
    let failure = job.failure.unwrap();
    assert_eq!(failure.context, "port rule \"x\" must be tcp/PORT or udp/PORT");
    assert_eq!(failure.cause, Cause::Refused(Refusal::Port(PortError::NoSlash)));
}

fn applied(
    cfg: &Config,
    p: VmNetworkPolicy,
    iface: Option<&str>,
    host: impl FnMut(&str) -> Reply,
) -> (Vec<String>, Job) {
    let extra = vec!["10.0.0.0/8".to_string(), "1.2.3.4/32".to_string()];
    let job = apply_sandbox_policy(
        cfg,
        Stored::Held(p),
        ID,
        iface,
        "169.254.0.3/28",
        &extra,
        &env(),
        ByteOrder::Little,
    );
    work(job.unwrap(), host)
}

fn filtered() -> Vec<String> {
    chain(&[
        "ip saddr 169.254.0.3/28 ip daddr 1.2.3.4/32 accept",
        "ip saddr 169.254.0.3/28 ip daddr 10.0.0.0/8 accept",
        "ct state established,related accept",
    ])
}

#[test]
fn the_legacy_dataplane_is_nftables_alone() {
    let cfg = config(DataplaneMode::Legacy, true);
    let p = policy(true, &["10.0.0.0/8"], &[]);
    let (done, job) = applied(&cfg, p, None, |_| Reply::Done);
    assert_eq!(done, filtered());
    assert_eq!(job.failure, None);
}

#[test]
fn nftables_take_over_where_the_native_dataplane_fails() {
    let cfg = config(DataplaneMode::Ebpf, false);
    let p = policy(true, &["10.0.0.0/8"], &[]);
    let (done, job) = applied(&cfg, p.clone(), Some("tap0"), |line| {
        if line == "exists /lib/tc.o" { Reply::Failed("no".into()) } else { Reply::Done }
    });
    assert_eq!(job.failure, None);
    assert_eq!(done[0], "exists /lib/tc.o");
    assert_eq!(done[1..], filtered()[..]);
    let (done, job) = applied(&cfg, p, None, |_| Reply::Done);
    assert_eq!(job.failure, None);
    assert_eq!(done[1..], filtered()[..]);
}

#[test]
fn a_required_dataplane_is_not_replaced() {
    let cfg = config(DataplaneMode::Cilium, true);
    let p = policy(true, &["10.0.0.0/8"], &[]);
    let (done, job) = applied(&cfg, p, Some("tap0"), |line| {
        if line == "inspect /sys/fs/bpf" { Reply::Failed("denied".into()) } else { Reply::Done }
    });
    assert_eq!(
        done,
        ["exists /var/run/cilium/cilium.sock", "exists /sys/fs/bpf", "inspect /sys/fs/bpf"]
    );
    let failure = job.failure.unwrap();
    assert_eq!(failure.context, "reading /sys/fs/bpf metadata");
}

#[test]
fn the_native_dataplane_gets_the_networks_of_the_policy() {
    let cfg = config(DataplaneMode::Ebpf, true);
    let p = policy(true, &["10.0.0.0/8"], &[]);
    let (done, job) = applied(&cfg, p, Some("tap0"), |line| match line {
        "read /sys/class/net/tap0/ifindex" => Reply::Text("2".into()),
        l if l.starts_with("read ") => Reply::Missing("none".into()),
        _ => Reply::Done,
    });
    assert_eq!(job.failure, None);
    let updates: Vec<&String> = done.iter().filter(|l| l.contains("map update")).collect();
    assert_eq!(updates.len(), 3);
    assert!(updates[0].ends_with("key hex 02 00 00 00 value hex 06 00 00 00 00 00 00 00"));
    assert!(updates[1].ends_with("key hex 40 00 00 00 06 00 00 00 01 02 03 04 value hex 01 00 00 00"));
    assert!(updates[2].ends_with("key hex 28 00 00 00 06 00 00 00 0a 00 00 00 value hex 01 00 00 00"));
}

#[test]
fn the_loader_gets_the_whole_policy() {
    let p = VmNetworkPolicy { sample_rate: 10, ..policy(true, &[], &["TCP/443", "udp/53"]) };
    let cfg = config(DataplaneMode::Ebpf, true);
    let job = apply_sandbox_policy(
        &cfg,
        Stored::Held(p.clone()),
        ID,
        Some("tap0"),
        "169.254.0.3/28",
        &Vec::new(),
        &env(),
        ByteOrder::Little,
    );
    assert_eq!(
        job.unwrap().current(),
        Some(&Action::Configure {
            pins: format!("/sys/fs/bpf/fluxvm/vms/{SIMPLE}"),
            identity: 6,
            ports: vec![
                PortRule { proto: "tcp".into(), port: 443 },
                PortRule { proto: "udp".into(), port: 53 },
            ],
            sample_rate: 10,
        })
    );
    let (done, job) = applied(&cfg, p.clone(), Some("tap0"), |line| match line {
        "read /sys/class/net/tap0/ifindex" => Reply::Text("2".into()),
        l if l.starts_with("read ") => Reply::Missing("none".into()),
        _ => Reply::Done,
    });
    assert_eq!(job.failure, None);
    assert!(!done.iter().any(|l| l.starts_with("nft")));
    let only_ports = apply_sandbox_policy(
        &cfg,
        Stored::Held(policy(true, &[], &["tcp/443"])),
        ID,
        Some("tap0"),
        "169.254.0.3/28",
        &Vec::new(),
        &env(),
        ByteOrder::Little,
    );
    let (done, _) = work(only_ports.unwrap(), |line| match line {
        "read /sys/class/net/tap0/ifindex" => Reply::Text("2".into()),
        l if l.starts_with("read ") => Reply::Missing("none".into()),
        _ => Reply::Done,
    });
    assert!(done.last().unwrap().ends_with("value hex 06 00 00 00 00 00 00 00"));
    let (done, job) = applied(&config(DataplaneMode::Ebpf, false), p, Some("tap0"), |line| {
        if line.starts_with("Configure") { Reply::Failed("no map".into()) } else { Reply::Done }
    });
    assert_eq!(job.failure, None);
    assert!(done[1].starts_with("nft delete"));
    assert!(done.iter().any(|l| l.ends_with("ip daddr 10.0.0.0/8 tcp dport 443 accept")));
}

#[test]
fn a_port_rule_that_is_none_stops_the_native_dataplane() {
    let mut cfg = config(DataplaneMode::Ebpf, true);
    cfg.sandbox.dataplane.allow_ports = vec!["tcp/443".into(), "tcp".into()];
    let job = apply_sandbox_policy(
        &cfg,
        Stored::Absent,
        ID,
        Some("tap0"),
        "169.254.0.3/28",
        &Vec::new(),
        &env(),
        ByteOrder::Little,
    );
    let (done, job) = work(job.unwrap(), |_| Reply::Done);
    assert_eq!(done.len(), 1);
    let failure = job.failure.unwrap();
    assert_eq!(failure.context, "port rule \"tcp\" must be tcp/PORT or udp/PORT");
    assert_eq!(failure.cause, Cause::Refused(Refusal::Port(PortError::NoSlash)));
}

#[test]
fn saving_the_policy_of_one_vm_leaves_those_of_others() {
    let mut disk = Disk::default();
    let cfg = config(DataplaneMode::Legacy, false);
    let other = VmId { bits: ID.bits + 1 };
    let mine = VmNetworkPolicy { sample_rate: 3, ..policy(true, &["10.0.0.0/8", "1.0.0.0/8"], &[]) };
    let theirs = policy(false, &[], &["udp/53", "tcp/1"]);
    disk.work(save_policy(&cfg, other, &theirs, &encoded(&theirs)).unwrap());
    disk.work(save_policy(&cfg, ID, &mine, &encoded(&mine)).unwrap());
    let load = |disk: &Disk, id| load_policy(disk.stored(&policy_path(&cfg, id))).unwrap();
    assert_eq!(load(&disk, ID), Some(mine));
    assert_eq!(load(&disk, other), Some(theirs.clone()));
    disk.work(delete_policy(&cfg, ID));
    assert_eq!(load(&disk, ID), None);
    assert_eq!(load(&disk, other), Some(theirs));
}

#[test]
fn a_policy_that_cannot_be_told_is_not_applied() {
    let job = apply_sandbox_policy(
        &config(DataplaneMode::Legacy, false),
        Stored::Unreadable("io".into()),
        ID,
        None,
        "169.254.0.3/28",
        &Vec::new(),
        &env(),
        ByteOrder::Little,
    );
    assert_eq!(job.unwrap_err(), PolicyError::Unreadable("io".into()));
}

#[test]
fn lifting_a_policy_never_fails() {
    let cfg = config(DataplaneMode::Ebpf, false);
    for job in [
        remove_sandbox_policy(&cfg, &env(), ID),
        remove_sandbox_policy_best_effort(&env(), ID),
    ] {
        let (done, job) = work(job, |_| Reply::Failed("x".into()));
        assert_eq!(done[0], format!("nft delete table inet fluxvm_{SIMPLE}"));
        assert_eq!(done[1], format!("read /run/fluxvm/ebpf/vms/{SIMPLE}/iface"));
        assert_eq!(job.failure, None);
    }
}

#[test]
fn pins_below_the_configured_root_go_too() {
    let mut cfg = config(DataplaneMode::Ebpf, false);
    cfg.sandbox.dataplane.pin_root = "/pins".into();
    let (done, _) = work(remove_sandbox_policy(&cfg, &env(), ID), |_| Reply::Done);
    assert_eq!(
        done[done.len() - 2..],
        [format!("exists /pins/vms/{SIMPLE}"), format!("rmtree /pins/vms/{SIMPLE}")]
    );
    let (done, _) = work(remove_sandbox_policy_best_effort(&env(), ID), |_| Reply::Done);
    assert!(!done.iter().any(|l| l.contains("/pins/")));
}

#[test]
fn only_the_native_dataplane_counts_packets() {
    assert_eq!(
        ensure_native_mode(&config(DataplaneMode::Legacy, false)),
        Err(StatsError::NotNative)
    );
    assert_eq!(ensure_native_mode(&config(DataplaneMode::Ebpf, false)), Ok(()));
    assert_eq!(ensure_native_mode(&config(DataplaneMode::Cilium, false)), Ok(()));
}

#[test]
fn different_vms_share_neither_files_nor_tables_nor_directories() {
    let cfg = config(DataplaneMode::Legacy, false);
    let other = VmId { bits: ID.bits + 1 };
    assert_ne!(policy_path(&cfg, ID), policy_path(&cfg, other));
    let tables = |id| lines(apply_nftables(id, "g", &VmNetworkPolicy::default()));
    assert_ne!(tables(ID)[0], tables(other)[0]);
    assert_ne!(
        fluxvm::ebpf::vm_pin_dir("/sys/fs/bpf/fluxvm", ID),
        fluxvm::ebpf::vm_pin_dir("/sys/fs/bpf/fluxvm", other)
    );
    assert_ne!(
        fluxvm::ebpf::vm_meta_dir(&env(), ID),
        fluxvm::ebpf::vm_meta_dir(&env(), other)
    );
}
