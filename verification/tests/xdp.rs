use fluxvm::config::{BpfEnv, DataplaneConfig, DataplaneMode, XdpConfig};
use fluxvm::job::Job;
use fluxvm::step::{Action, ByteOrder, Cause, CidrError, Refusal, Reply};
use fluxvm::xdp::{ensure, explain, interface_xdp_state, link_state, pinned_program_id, program_in, remove};
use serde_json::Value;

fn config(mode: DataplaneMode, enabled: bool, iface: Option<&str>, block: &[&str]) -> DataplaneConfig {
    DataplaneConfig {
        mode,
        bpf_object: String::new(),
        pin_root: String::new(),
        required: false,
        default_allow: true,
        allow_cidrs: Vec::new(),
        allow_ports: Vec::new(),
        sample_rate: 0,
        xdp: XdpConfig {
            enabled,
            interface: iface.map(|s| s.to_string()),
            bpf_object: "/lib/xdp.o".into(),
            pin_root: "/pin".into(),
            block_cidrs: block.iter().map(|s| s.to_string()).collect(),
        },
    }
}

fn env() -> BpfEnv {
    BpfEnv { pin_root: None, meta_root: None }
}

fn shown(action: &Action) -> String {
    match action {
        Action::Run { program, args } => format!("{program} {}", args.join(" ")),
        Action::Capture { program, args } => format!("{program} {}", args.join(" ")),
        Action::Exists { path } => format!("exists {path}"),
        Action::Read { path } => format!("read {path}"),
        Action::Write { path, text } => format!("write {path} {text}"),
        Action::MakeDirs { path } => format!("mkdir {path}"),
        Action::RemoveTree { path } => format!("rmtree {path}"),
        Action::RaiseMemlock => "memlock".into(),
        other => format!("{other:?}"),
    }
}

fn work(mut job: Job, mut host: impl FnMut(&str) -> Reply) -> (Vec<String>, Job) {
    let mut done = Vec::new();
    while let Some(action) = job.current() {
        let line = shown(action);
        let reply = host(&line);
        done.push(line);
        job.resume(reply);
    }
    (done, job)
}

const LOOK: &str = "ip -j -d link show dev eth0";
const SHOW: &str = "bpftool -j prog show pinned /pin/xdp/progs/fluxvm_xdp_guard";

fn no() -> Reply {
    Reply::Failed("no".into())
}

#[test]
fn modern_iproute2_xdp_shape_is_understood() {
    let json: Value =
        serde_json::from_str(r#"{"xdp":{"mode":2,"prog":{"id":77,"name":"guard"}}}"#).unwrap();
    let xdp = &json["xdp"];
    let id = program_in(xdp);
    assert_eq!(id, Some(77));
}

#[test]
fn every_shape_of_link_state_is_understood() {
    let state = |text: &str| interface_xdp_state(text.as_bytes());
    assert_eq!(state(r#"[{"xdp":{"mode":2,"prog":{"id":77}}}]"#), Ok((true, Some(77))));
    assert_eq!(state(r#"[{"xdp":{"prog_id":5}}]"#), Ok((true, Some(5))));
    assert_eq!(state(r#"[{"xdp":{"prog":{"id":"x"},"prog_id":5}}]"#), Ok((true, Some(5))));
    assert_eq!(state(r#"[{"xdp":{"prog":{"id":4294967296}}}]"#), Ok((true, None)));
    assert_eq!(state(r#"[{"xdp":{"prog":{"id":-1}}}]"#), Ok((true, None)));
    assert_eq!(state(r#"[{"xdp":{"mode":1}}]"#), Ok((true, None)));
    assert_eq!(state(r#"[{"xdp":{}}]"#), Ok((false, None)));
    assert_eq!(state(r#"[{"xdp":null}]"#), Ok((false, None)));
    assert_eq!(state(r#"[{"ifname":"eth0"},{"xdp":{"mode":1}}]"#), Ok((false, None)));
    assert_eq!(state("[]"), Ok((false, None)));
    assert_eq!(state("{}"), Ok((false, None)));
    assert_eq!(state("nonsense"), Err(Refusal::NotJson));
    let doc: Value = serde_json::from_str(r#"[{"xdp":[]}]"#).unwrap();
    assert_eq!(link_state(&doc), (false, None));
}

#[test]
fn every_shape_of_program_is_understood() {
    let id = |text: &str| pinned_program_id(text.as_bytes());
    assert_eq!(id(r#"{"id":9}"#), Ok(9));
    assert_eq!(id(r#"[{"id":9},{"id":8}]"#), Ok(9));
    assert_eq!(id("[]"), Err(Refusal::NoProgram));
    assert_eq!(id("{}"), Err(Refusal::NoProgramId));
    assert_eq!(id(r#"{"id":"9"}"#), Err(Refusal::NoProgramId));
    assert_eq!(id(r#"{"id":4294967296}"#), Err(Refusal::ProgramIdTooLarge));
    assert_eq!(id("{"), Err(Refusal::NotJson));
}

#[test]
fn the_guard_is_brought_onto_a_free_interface() {
    let cfg = config(DataplaneMode::Ebpf, true, Some("eth0"), &["198.51.100.7/24"]);
    let (done, job) = work(ensure(&cfg, &env(), ByteOrder::Little), |line| match line {
        "exists /lib/xdp.o" => Reply::Done,
        l if l.starts_with("exists ") => no(),
        LOOK => Reply::Output(b"[{}]".to_vec()),
        SHOW => Reply::Output(br#"{"id":41}"#.to_vec()),
        _ => Reply::Done,
    });
    assert_eq!(job.failure, None);
    assert_eq!(
        done,
        [
            "exists /lib/xdp.o",
            "bpftool version",
            "ip -V",
            "memlock",
            "exists /pin/xdp",
            "exists /run/fluxvm/xdp",
            LOOK,
            "mkdir /pin/xdp/progs",
            "mkdir /pin/xdp/maps",
            "mkdir /run/fluxvm/xdp",
            "write /run/fluxvm/xdp/iface eth0",
            "bpftool prog load /lib/xdp.o /pin/xdp/progs/fluxvm_xdp_guard type xdp pinmaps /pin/xdp/maps",
            SHOW,
            "write /run/fluxvm/xdp/prog_id 41",
            "bpftool map update pinned /pin/xdp/maps/fvm_xdp_block4 key hex 18 00 00 00 c6 33 64 00 value hex 01 00 00 00",
            "ip link set dev eth0 xdp pinned /pin/xdp/progs/fluxvm_xdp_guard",
        ]
    );
}

#[test]
fn a_program_that_is_there_is_never_replaced() {
    let cfg = config(DataplaneMode::Ebpf, true, Some("eth0"), &[]);
    let (done, job) = work(ensure(&cfg, &env(), ByteOrder::Little), |line| match line {
        "exists /lib/xdp.o" => Reply::Done,
        l if l.starts_with("exists ") => no(),
        LOOK => Reply::Output(br#"[{"xdp":{"prog":{"id":3}}}]"#.to_vec()),
        _ => Reply::Done,
    });
    assert_eq!(done.last().unwrap(), LOOK);
    let failure = job.failure.unwrap();
    assert_eq!(failure.context, "interface eth0");
    assert_eq!(failure.cause, Cause::Refused(Refusal::XdpBusy));
}

#[test]
fn a_failed_load_takes_everything_away() {
    let cfg = config(DataplaneMode::Ebpf, true, Some("eth0"), &["bad"]);
    let mut loaded = false;
    let (done, job) = work(ensure(&cfg, &env(), ByteOrder::Little), |line| match line {
        l if l.starts_with("bpftool prog load") => {
            loaded = true;
            Reply::Done
        }
        "exists /lib/xdp.o" => Reply::Done,
        l if l.starts_with("exists ") => if loaded { Reply::Done } else { no() },
        "read /run/fluxvm/xdp/iface" => Reply::Text("eth0".into()),
        "read /run/fluxvm/xdp/prog_id" => Reply::Text("41".into()),
        LOOK => Reply::Output(b"[{}]".to_vec()),
        SHOW => Reply::Output(br#"{"id":41}"#.to_vec()),
        _ => Reply::Done,
    });
    let failure = job.failure.unwrap();
    assert_eq!(failure.context, "XDP CIDR must include /prefix");
    assert_eq!(failure.cause, Cause::Refused(Refusal::Cidr(CidrError::NoPrefix)));
    let tail = &done[done.len() - 10..];
    assert_eq!(tail[0], "exists /pin/xdp");
    assert_eq!(
        &tail[5..],
        [LOOK, "exists /pin/xdp", "rmtree /pin/xdp", "exists /run/fluxvm/xdp", "rmtree /run/fluxvm/xdp"]
    );
    assert!(!done.iter().any(|l| l.contains("xdp pinned") || l.ends_with("xdp off")));
}

#[test]
fn each_flaw_of_a_blocked_network_is_told() {
    assert_eq!(explain(CidrError::NoPrefix), "XDP CIDR must include /prefix");
    assert_eq!(explain(CidrError::PrefixTooLong), "IPv4 prefix must be <= 32");
    assert_eq!(explain(CidrError::BadAddress), "");
    assert_eq!(explain(CidrError::BadPrefix), "");
}

#[test]
fn the_guard_is_refused_where_it_must_not_run() {
    let cause = |cfg: DataplaneConfig| {
        let (done, job) = work(ensure(&cfg, &env(), ByteOrder::Little), |_| Reply::Done);
        assert_eq!(done.len(), 1);
        job.failure.unwrap().cause
    };
    assert_eq!(
        cause(config(DataplaneMode::Cilium, true, Some("eth0"), &[])),
        Cause::Refused(Refusal::XdpWithCilium)
    );
    assert_eq!(
        cause(config(DataplaneMode::Ebpf, true, None, &[])),
        Cause::Refused(Refusal::XdpNoInterface)
    );
    let off = config(DataplaneMode::Cilium, false, Some("eth0"), &[]);
    assert!(ensure(&off, &env(), ByteOrder::Little).current().is_none());
}

fn removal(link: &str, owner: &str) -> (Vec<String>, Job) {
    let cfg = config(DataplaneMode::Ebpf, true, Some("eth0"), &[]);
    let link = link.as_bytes().to_vec();
    let owner = owner.to_string();
    work(remove(&cfg.xdp, &env()), move |line| match line {
        "read /run/fluxvm/xdp/iface" => Reply::Text("eth0\n".into()),
        "exists /run/fluxvm/xdp/prog_id" => no(),
        "read /pin/xdp/prog_id" => Reply::Text(owner.clone()),
        LOOK => Reply::Output(link.clone()),
        _ => Reply::Done,
    })
}

#[test]
fn only_the_own_program_is_detached() {
    let (done, job) = removal(r#"[{"xdp":{"prog":{"id":41}}}]"#, "41\n");
    assert_eq!(job.failure, None);
    assert_eq!(
        done,
        [
            "exists /pin/xdp",
            "exists /run/fluxvm/xdp/iface",
            "read /run/fluxvm/xdp/iface",
            "exists /run/fluxvm/xdp/prog_id",
            "read /pin/xdp/prog_id",
            LOOK,
            "ip link set dev eth0 xdp off",
            "exists /pin/xdp",
            "rmtree /pin/xdp",
            "exists /run/fluxvm/xdp",
            "rmtree /run/fluxvm/xdp",
        ]
    );
    let (done, job) = removal(r#"[{"xdp":{"prog":{"id":42}}}]"#, "41");
    assert_eq!(job.failure, None);
    assert!(done.contains(&"rmtree /pin/xdp".to_string()));
    assert!(!done.iter().any(|l| l.ends_with("xdp off")));
}

#[test]
fn a_program_that_cannot_be_told_stops_the_removal() {
    let (done, job) = removal(r#"[{"xdp":{"mode":1}}]"#, "41");
    let failure = job.failure.unwrap();
    assert_eq!(failure.context, "interface eth0");
    assert_eq!(failure.cause, Cause::Refused(Refusal::XdpUnknown));
    assert_eq!(done.last().unwrap(), LOOK);
    let (_, job) = removal("[{}]", "many");
    let failure = job.failure.unwrap();
    assert_eq!(failure.context, "parsing FluxVM XDP program id");
    assert_eq!(failure.cause, Cause::Refused(Refusal::BadProgramId));
    let (_, job) = removal("?", "41");
    let failure = job.failure.unwrap();
    assert_eq!(failure.context, "parsing ip -j link output");
    assert_eq!(failure.cause, Cause::Refused(Refusal::NotJson));
}

#[test]
fn nothing_is_removed_where_nothing_is_left() {
    let cfg = config(DataplaneMode::Ebpf, true, Some("eth0"), &[]);
    let (done, job) = work(remove(&cfg.xdp, &env()), |_| no());
    assert_eq!(done, ["exists /pin/xdp", "exists /run/fluxvm/xdp"]);
    assert_eq!(job.failure, None);
}

#[test]
fn what_a_program_is_needed_for_is_told_where_it_is_missing() {
    let cfg = config(DataplaneMode::Ebpf, true, Some("eth0"), &[]);
    let told = |at: &'static str, reply: fn(String) -> Reply, show: &'static [u8]| {
        let (_, job) = work(ensure(&cfg, &env(), ByteOrder::Little), |line| match line {
            l if l == at => reply("words".into()),
            "exists /lib/xdp.o" => Reply::Done,
            l if l.starts_with("exists ") => no(),
            LOOK => Reply::Output(b"[{}]".to_vec()),
            SHOW => Reply::Output(show.to_vec()),
            _ => Reply::Done,
        });
        job.failure.unwrap().context
    };
    assert_eq!(told("bpftool version", Reply::Missing, b""), "bpftool is required");
    assert_eq!(told("bpftool version", Reply::Failed, b""), "");
    assert_eq!(told("ip -V", Reply::Missing, b""), "ip is required");
    assert_eq!(told("ip -V", Reply::Failed, b""), "");
    assert_eq!(told(LOOK, Reply::Missing, b""), "querying link XDP state");
    assert_eq!(told(LOOK, Reply::Failed, b""), "");
    assert_eq!(told(SHOW, Reply::Missing, b""), "querying pinned XDP program");
    assert_eq!(told(SHOW, Reply::Failed, b""), "");
    assert_eq!(told("nothing", Reply::Failed, b"?"), "parsing bpftool program JSON");
}
