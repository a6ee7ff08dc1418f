use fluxvm::job::Job;
use fluxvm::netns::{
    cleanup, dhcp_dir, guest_ip_from_lease, leasefile_path, prepare, short_id, subnet_block,
    NetnsError,
};
use fluxvm::step::{Action, Cause, Refusal, Reply};
use fluxvm::vmid::VmId;

const ID: VmId = VmId { bits: 0xabcd_ef01_0000_0000_0000_0000_0000_0c32 };

fn shown(action: &Action) -> String {
    match action {
        Action::Run { program, args } => format!("{program} {}", args.join(" ")),
        Action::Spawn { program, args, log } => format!("{program} {} > {log}", args.join(" ")),
        Action::Terminate { pid } => format!("kill {pid}"),
        Action::Read { path } => format!("read {path}"),
        Action::Write { path, text } => format!("write {path} {text}"),
        Action::MakeDirs { path } => format!("mkdir {path}"),
        Action::RemoveTree { path } => format!("rmtree {path}"),
        other => format!("{other:?}"),
    }
}

fn work(mut job: Job, mut host: impl FnMut(&str) -> Reply) -> (Vec<String>, Job) {
    let mut done = Vec::new();
    while let Some(action) = job.current() {
        let line = shown(action);
        let reply = host(&line);
        done.push(line);
        job.resume(reply);
    }
    (done, job)
}

fn teardown() -> Vec<String> {
    vec![
        "read /run/fluxvm/netns-dhcp/eph-abcdef01/dnsmasq.pid".into(),
        "rmtree /run/fluxvm/netns-dhcp/eph-abcdef01".into(),
        "iptables -t nat -D POSTROUTING -s 169.254.195.32/28 -j MASQUERADE".into(),
        "ip netns del eph-abcdef01".into(),
    ]
}

#[test]
fn blocks_come_from_the_low_twelve_bits() {
    assert_eq!(subnet_block(ID), (195, 32));
    assert_eq!(subnet_block(VmId { bits: 0 }), (0, 0));
    assert_eq!(subnet_block(VmId { bits: 4095 }), (255, 240));
    assert_eq!(subnet_block(VmId { bits: 4096 + 17 }), (1, 16));
    assert_eq!(subnet_block(VmId { bits: u128::MAX }), (255, 240));
    assert_eq!(short_id(ID), "abcdef01");
}

#[test]
fn leases_stand_below_the_directory_of_the_namespace() {
    assert_eq!(dhcp_dir("eph-1"), "/run/fluxvm/netns-dhcp/eph-1");
    assert_eq!(leasefile_path("eph-1"), "/run/fluxvm/netns-dhcp/eph-1/leases");
}

#[test]
fn a_namespace_needs_a_mac_address() {
    assert_eq!(prepare(ID, None).unwrap_err(), NetnsError::NoMac);
}

#[test]
fn a_namespace_is_prepared_step_by_step() {
    let (handle, job) = prepare(ID, Some("52:54:00:00:00:01")).unwrap();
    assert_eq!(handle.netns, "eph-abcdef01");
    assert_eq!(handle.tap_name, "tapabcdef01");
    assert_eq!(handle.dhcp_leasefile, "/run/fluxvm/netns-dhcp/eph-abcdef01/leases");
    assert_eq!(handle.guest_ip, "169.254.195.35");
    assert_eq!(handle.guest_cidr, "169.254.195.35/28");
    assert_eq!(handle.gateway, "169.254.195.33");
    let (done, job) = work(job, |line| {
        if line.contains(" -C ") {
            Reply::Failed("no rule".into())
        } else if line.contains("dnsmasq --no-daemon") {
            Reply::Started(Some(4711))
        } else {
            Reply::Done
        }
    });
    assert_eq!(job.failure, None);
    assert_eq!(
        done,
        [
            "ip netns add eph-abcdef01",
            "ip link add vhabcdef01 type veth peer name vnabcdef01",
            "ip link set vnabcdef01 netns eph-abcdef01",
            "ip addr add 169.254.195.33/28 dev vhabcdef01",
            "ip link set vhabcdef01 up",
            "ip netns exec eph-abcdef01 ip link set lo up",
            "ip netns exec eph-abcdef01 ip link add brabcdef01 type bridge",
            "ip netns exec eph-abcdef01 ip link set vnabcdef01 master brabcdef01",
            "ip netns exec eph-abcdef01 ip tuntap add dev tapabcdef01 mode tap",
            "ip netns exec eph-abcdef01 ip link set dev tapabcdef01 address 52:54:00:00:00:01",
            "ip netns exec eph-abcdef01 ip link set tapabcdef01 master brabcdef01",
            "ip netns exec eph-abcdef01 ip addr add 169.254.195.34/28 dev brabcdef01",
            "ip netns exec eph-abcdef01 ip link set vnabcdef01 up",
            "ip netns exec eph-abcdef01 ip link set tapabcdef01 up",
            "ip netns exec eph-abcdef01 ip link set brabcdef01 up",
            "ip netns exec eph-abcdef01 ip route add default via 169.254.195.33",
            "sysctl -w net.ipv4.ip_forward=1",
            "iptables -t nat -C POSTROUTING -s 169.254.195.32/28 -j MASQUERADE",
            "iptables -t nat -A POSTROUTING -s 169.254.195.32/28 -j MASQUERADE",
            "mkdir /run/fluxvm/netns-dhcp/eph-abcdef01",
            "ip netns exec eph-abcdef01 dnsmasq --no-daemon --interface=brabcdef01 --bind-interfaces --except-interface=lo --dhcp-range=169.254.195.35,169.254.195.46,1h --dhcp-host=52:54:00:00:00:01,169.254.195.35 --dhcp-leasefile=/run/fluxvm/netns-dhcp/eph-abcdef01/leases --server=1.1.1.1 --server=8.8.8.8 > /run/fluxvm/netns-dhcp/eph-abcdef01/dnsmasq.log",
            "write /run/fluxvm/netns-dhcp/eph-abcdef01/dnsmasq.pid 4711",
        ]
    );
}

#[test]
fn a_rule_that_is_there_is_not_added_again() {
    let (_, job) = prepare(ID, Some("m")).unwrap();
    let (done, _) = work(job, |line| {
        if line.contains("dnsmasq --no-daemon") { Reply::Started(Some(1)) } else { Reply::Done }
    });
    assert_eq!(done.iter().filter(|l| l.contains(" -C ")).count(), 1);
    assert_eq!(done.iter().filter(|l| l.contains(" -A ")).count(), 0);
}

#[test]
fn a_preparation_that_fails_anywhere_is_taken_down() {
    for at in 0..21usize {
        let (_, job) = prepare(ID, Some("m")).unwrap();
        let mut n = 0;
        let (done, job) = work(job, |line| {
            n += 1;
            if n == at + 1 && !line.contains(" -C ") {
                Reply::Failed(format!("step {at}"))
            } else if line.contains(" -C ") {
                Reply::Failed("no rule".into())
            } else if line.contains("dnsmasq --no-daemon") {
                Reply::Started(Some(1))
            } else if line.starts_with("read ") {
                Reply::Missing("no pid".into())
            } else {
                Reply::Done
            }
        });
        if at == 17 {
            assert_eq!(job.failure, None);
        } else {
            assert_eq!(job.failure.unwrap().cause, Cause::Host(format!("step {at}")));
            assert_eq!(done[at + 1..], teardown()[..]);
        }
    }
}

#[test]
fn a_server_that_ends_at_once_is_a_failure() {
    let (_, job) = prepare(ID, Some("m")).unwrap();
    let (done, job) = work(job, |line| {
        if line.contains("dnsmasq --no-daemon") { Reply::Started(None) } else { Reply::Done }
    });
    let failure = job.failure.unwrap();
    assert_eq!(failure.context, "");
    assert_eq!(failure.cause, Cause::Refused(Refusal::ExitedAtOnce));
    assert!(done.contains(&"ip netns del eph-abcdef01".to_string()));
}

#[test]
fn the_server_is_ended_before_its_namespace() {
    let job = Job::new(cleanup(ID, "eph-abcdef01"));
    let (done, job) = work(job, |line| {
        if line.starts_with("read ") { Reply::Text(" 4711\n".into()) } else { Reply::Failed("x".into()) }
    });
    let mut expected = teardown();
    expected.insert(1, "kill 4711".into());
    assert_eq!(done, expected);
    assert_eq!(job.failure, None);
    let (done, _) = work(Job::new(cleanup(ID, "eph-abcdef01")), |_| Reply::Text("junk".into()));
    assert_eq!(done, teardown());
}

#[test]
fn leases_are_looked_up_by_mac_address() {
    let leases = "1700000000 52:54:00:aa:bb:cc 169.254.1.3 host id\n\
                  short line\n\
                  1700000001 52:54:00:AA:BB:DD 169.254.1.4\n\
                  1700000002 52:54:00:aa:bb:cc 169.254.1.9 host id\n";
    let ip = |mac: &str| guest_ip_from_lease(Some(leases), mac);
    assert_eq!(ip("52:54:00:AA:BB:CC").as_deref(), Some("169.254.1.3"));
    assert_eq!(ip("52:54:00:aa:bb:dd").as_deref(), Some("169.254.1.4"));
    assert_eq!(ip("52:54:00:aa:bb:ee"), None);
    assert_eq!(ip("line"), None);
    assert_eq!(guest_ip_from_lease(None, "52:54:00:aa:bb:cc"), None);
}

#[test]
fn every_address_of_a_vm_is_in_its_network() {
    for bits in [0u128, 0xc32, 4095, u128::MAX] {
        let id = VmId { bits };
        let (handle, job) = prepare(id, Some("m")).unwrap();
        let (third, base) = subnet_block(id);
        let whole = fluxvm::cidr::parse_ipv4_cidr(&format!("169.254.{third}.{base}/28")).unwrap();
        assert_eq!(whole.network, u32::from_be_bytes([169, 254, third, base]));
        assert_eq!(fluxvm::cidr::parse_ipv4_cidr(&handle.guest_cidr), Ok(whole));
        assert_eq!(
            fluxvm::cidr::parse_ipv4_cidr(&format!("{}/28", handle.gateway)),
            Ok(whole)
        );
        assert_ne!(handle.guest_ip, handle.gateway);
        assert!(handle.tap_name.len() <= 15);
        assert!(job.current().is_some());
    }
}
