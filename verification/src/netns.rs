//! Network namespaces for VMs.
//!
//! A namespaced VM has a routing table and interfaces of its own. A veth pair joins the
//! namespace to the host, which translates its addresses; inside, a bridge joins the veth to
//! the tap device of the VM, and a DHCP server on the bridge hands out the address that is
//! reserved for the VM.
//!
//! ```text
//!   host                               |  namespace of the VM
//!   vh<id> 169.254.X.B+1/28 <-- veth --> vn<id> -- br<id> 169.254.X.B+2/28 -- tap<id> -- VM
//!   masquerade for 169.254.X.B/28      |  DHCP serves .B+3 to .B+14
//! ```
//!
//! The block of sixteen addresses follows from the low twelve bits of the VM's id.

use crate::cidr;
use crate::job;
use crate::job::Job;
use crate::line;
use crate::model;
use crate::number;
use crate::path;
use crate::step;
use crate::step::{Action, Follow, Next, Step};
use crate::text;
use crate::vmid;
use crate::vmid::VmId;
use vstd::prelude::*;
use vstd::string::*;

verus! {

// ---------------------------------------------------------------------------------------------
// Names and addresses
// ---------------------------------------------------------------------------------------------

/// The eight digits that stand for a VM in the names of its devices.
pub open spec fn short(id: VmId) -> Seq<char> {
    vmid::simple(id).take(8)
}

/// The eight digits that stand for a VM in the names of its devices.
pub fn short_id(id: VmId) -> (r: String)
    ensures
        r@ == short(id),
{
    let all = vmid::simple_text(id);
    proof {
        number::lemma_hex_digits_len(id.bits as nat, 32);
        assert(all@.subrange(0, 8) =~= all@.take(8));
    }
    all.as_str().substring_char(0, 8).to_owned()
}

/// The block of addresses of a VM: the third byte of its addresses, and where the fourth byte
/// starts.
pub open spec fn block_of(id: VmId) -> (u8, u8) {
    let n = id.bits % 4096;
    ((n / 16) as u8, (n % 16 * 16) as u8)
}

/// The block of addresses of a VM.
pub fn subnet_block(id: VmId) -> (r: (u8, u8))
    ensures
        r == block_of(id),
{
    let n: u16 = (id.bits % 4096) as u16;
    ((n / 16) as u8, (n % 16 * 16) as u8)
}

/// An address in the block of a VM.
pub open spec fn host_at(id: VmId, k: nat) -> Seq<char> {
    cidr::quad(169, 254, block_of(id).0, (block_of(id).1 + k) as u8)
}

/// The same, with the length of the prefix.
pub open spec fn host_in(id: VmId, k: nat) -> Seq<char> {
    host_at(id, k) + "/28"@
}

fn host_text(id: VmId, k: u8) -> (r: String)
    requires
        k < 16,
    ensures
        r@ == host_at(id, k as nat),
{
    let (third, base) = subnet_block(id);
    cidr::to_dotted(169, 254, third, base + k)
}

/// The name of the namespace of a VM.
pub open spec fn netns_name(id: VmId) -> Seq<char> {
    "eph-"@ + short(id)
}

/// The name of the veth end on the host.
pub open spec fn veth_host(id: VmId) -> Seq<char> {
    "vh"@ + short(id)
}

/// The name of the veth end in the namespace.
pub open spec fn veth_ns(id: VmId) -> Seq<char> {
    "vn"@ + short(id)
}

/// The name of the bridge.
pub open spec fn bridge(id: VmId) -> Seq<char> {
    "br"@ + short(id)
}

/// The name of the tap device.
pub open spec fn tap(id: VmId) -> Seq<char> {
    "tap"@ + short(id)
}

/// Where the state of the DHCP server of a namespace stands.
pub open spec fn state_dir(netns: Seq<char>) -> Seq<char> {
    path::joined("/run/fluxvm/netns-dhcp"@, netns)
}

/// Where the state of the DHCP server of a namespace stands.
pub fn dhcp_dir(netns: &str) -> (r: String)
    ensures
        r@ == state_dir(netns@),
{
    path::join("/run/fluxvm/netns-dhcp", netns)
}

/// Where the leases of a namespace stand.
pub open spec fn lease_file(netns: Seq<char>) -> Seq<char> {
    path::joined(state_dir(netns), "leases"@)
}

/// Where the leases of a namespace stand.
pub fn leasefile_path(netns: &str) -> (r: String)
    ensures
        r@ == lease_file(netns@),
{
    path::join(dhcp_dir(netns).as_str(), "leases")
}

/// What a VM gets to know about its namespace.
#[derive(Debug, PartialEq, Eq)]
pub struct NetnsHandle {
    pub netns: String,
    pub tap_name: String,
    pub dhcp_leasefile: String,
    /// The address that is reserved for the VM.
    pub guest_ip: String,
    /// The same, with the length of the prefix.
    pub guest_cidr: String,
    /// The address of the host end, through which the VM reaches the outside.
    pub gateway: String,
}

/// What a [`NetnsHandle`] is.
pub struct NetnsHandleView {
    pub netns: Seq<char>,
    pub tap_name: Seq<char>,
    pub dhcp_leasefile: Seq<char>,
    pub guest_ip: Seq<char>,
    pub guest_cidr: Seq<char>,
    pub gateway: Seq<char>,
}

impl View for NetnsHandle {
    type V = NetnsHandleView;

    open spec fn view(&self) -> NetnsHandleView {
        NetnsHandleView {
            netns: self.netns@,
            tap_name: self.tap_name@,
            dhcp_leasefile: self.dhcp_leasefile@,
            guest_ip: self.guest_ip@,
            guest_cidr: self.guest_cidr@,
            gateway: self.gateway@,
        }
    }
}

/// What the namespace of a VM is like.
pub open spec fn handle(id: VmId) -> NetnsHandleView {
    NetnsHandleView {
        netns: netns_name(id),
        tap_name: tap(id),
        dhcp_leasefile: lease_file(netns_name(id)),
        guest_ip: host_at(id, 3),
        guest_cidr: host_in(id, 3),
        gateway: host_at(id, 1),
    }
}

/// Why a namespace cannot be prepared.
#[derive(Debug, Clone, Copy, PartialEq, Eq, Structural)]
pub enum NetnsError {
    /// There is no MAC address to reserve the address of the VM for.
    NoMac,
}

// ---------------------------------------------------------------------------------------------
// Cleaning up
// ---------------------------------------------------------------------------------------------

/// The rule that translates the addresses of a VM, as `iptables` takes it.
pub open spec fn masquerade(op: Seq<char>, id: VmId) -> step::ActionView {
    step::run_view(
        "iptables"@,
        line::blank().push("-t"@).push("nat"@).push(op).push("POSTROUTING"@).push("-s"@).push(
            host_in(id, 0),
        ).push("-j"@).push("MASQUERADE"@),
    )
}

fn masquerade_rule(op: &str, id: VmId) -> (r: Action)
    ensures
        r@ == masquerade(op@, id),
{
    let subnet = host_text(id, 0).concat("/28");
    step::run(
        "iptables",
        line::start().w("-t").w("nat").w(op).w("POSTROUTING").w("-s").w(subnet.as_str()).w("-j").w(
            "MASQUERADE",
        ),
    )
}

/// Taking a namespace down: the DHCP server is ended before the namespace goes, since a process
/// inside would keep it alive. Nothing in it can fail.
pub open spec fn teardown(id: VmId, netns: Seq<char>) -> Seq<step::StepView> {
    let dir = state_dir(netns);
    Seq::<step::StepView>::empty().push(
        step::attempt_view(
            step::ActionView::Read { path: path::joined(dir, "dnsmasq.pid"@) },
        ).followed(step::FollowView::ServerPid),
    ).push(step::attempt_view(step::ActionView::RemoveTree { path: dir })).push(
        step::attempt_view(masquerade("-D"@, id)),
    ).push(
        step::attempt_view(
            step::run_view("ip"@, line::blank().push("netns"@).push("del"@).push(netns)),
        ),
    )
}

/// Takes a namespace down.
pub fn cleanup(id: VmId, netns: &str) -> (r: Vec<Step>)
    ensures
        step::plan(r@) == teardown(id, netns@),
{
    let dir = dhcp_dir(netns);
    let pid_file = path::join(dir.as_str(), "dnsmasq.pid");
    let mut steps = step::no_steps();
    step::add_step(
        &mut steps,
        step::attempt(step::read(pid_file.as_str())).follow_with(Follow::ServerPid),
    );
    step::add_step(&mut steps, step::attempt(step::remove_tree(dir.as_str())));
    step::add_step(&mut steps, step::attempt(masquerade_rule("-D", id)));
    step::add_step(
        &mut steps,
        step::attempt(step::run("ip", line::start().w("netns").w("del").w(netns))),
    );
    steps
}

/// What follows from the recorded process id of a DHCP server: it is ended, where the record is
/// a process id.
pub open spec fn after_pid(raw: Seq<char>) -> Seq<step::StepView> {
    match number::unsigned(text::trimmed(raw), 0xffff_ffff) {
        Some(pid) => Seq::<step::StepView>::empty().push(
            step::attempt_view(step::ActionView::Terminate { pid: pid as u32 }),
        ),
        None => Seq::empty(),
    }
}

/// Goes on from the recorded process id of a DHCP server.
pub fn pid_known(raw: &str) -> (r: Vec<Step>)
    ensures
        step::plan(r@) == after_pid(raw@),
{
    let mut steps = step::no_steps();
    if let Some(pid) = number::parse_unsigned(text::trim(raw), 0xffff_ffff) {
        step::add_step(&mut steps, step::attempt(Action::Terminate { pid: pid as u32 }));
    }
    steps
}

// ---------------------------------------------------------------------------------------------
// Preparing
// ---------------------------------------------------------------------------------------------

/// A step of the preparation: where it fails, the namespace is taken down again.
pub open spec fn stage(action: step::ActionView, context: Seq<char>) -> step::StepView {
    step::must_view(action, context).going(Next::Skip(0), Next::Unwind, Next::Unwind)
}

fn stage_step(action: Action, context: &str) -> (r: Step)
    ensures
        r@ == stage(action@, context@),
{
    step::must(action, context).going(Next::Skip(0), Next::Unwind, Next::Unwind)
}

/// A command line that runs `ip` inside the namespace of a VM.
pub open spec fn in_ns(id: VmId) -> Seq<Seq<char>> {
    line::blank().push("netns"@).push("exec"@).push(netns_name(id)).push("ip"@)
}

/// The host end: the namespace, the veth pair, and its end on the host.
pub open spec fn outside(id: VmId) -> Seq<step::StepView> {
    Seq::<step::StepView>::empty().push(
        stage(
            step::run_view(
                "ip"@,
                line::blank().push("netns"@).push("add"@).push(netns_name(id)),
            ),
            "creating network namespace"@,
        ),
    ).push(
        stage(
            step::run_view(
                "ip"@,
                line::blank().push("link"@).push("add"@).push(veth_host(id)).push("type"@).push(
                    "veth"@,
                ).push("peer"@).push("name"@).push(veth_ns(id)),
            ),
            "creating veth pair"@,
        ),
    ).push(
        stage(
            step::run_view(
                "ip"@,
                line::blank().push("link"@).push("set"@).push(veth_ns(id)).push("netns"@).push(
                    netns_name(id),
                ),
            ),
            "moving veth namespace-end into the namespace"@,
        ),
    ).push(
        stage(
            step::run_view(
                "ip"@,
                line::blank().push("addr"@).push("add"@).push(host_in(id, 1)).push("dev"@).push(
                    veth_host(id),
                ),
            ),
            "assigning host-end veth address"@,
        ),
    ).push(
        stage(
            step::run_view(
                "ip"@,
                line::blank().push("link"@).push("set"@).push(veth_host(id)).push("up"@),
            ),
            "bringing up host-end veth"@,
        ),
    )
}

/// The inside of the namespace: the bridge, the tap device, their addresses and the route.
pub open spec fn inside(id: VmId, mac: Seq<char>) -> Seq<step::StepView> {
    Seq::<step::StepView>::empty().push(
        stage(
            step::run_view(
                "ip"@,
                in_ns(id).push("link"@).push("set"@).push("lo"@).push("up"@),
            ),
            "bringing up loopback in namespace"@,
        ),
    ).push(
        stage(
            step::run_view(
                "ip"@,
                in_ns(id).push("link"@).push("add"@).push(bridge(id)).push("type"@).push(
                    "bridge"@,
                ),
            ),
            "creating internal bridge in namespace"@,
        ),
    ).push(
        stage(
            step::run_view(
                "ip"@,
                in_ns(id).push("link"@).push("set"@).push(veth_ns(id)).push("master"@).push(
                    bridge(id),
                ),
            ),
            "attaching veth namespace-end to internal bridge"@,
        ),
    ).push(
        stage(
            step::run_view(
                "ip"@,
                in_ns(id).push("tuntap"@).push("add"@).push("dev"@).push(tap(id)).push(
                    "mode"@,
                ).push("tap"@),
            ),
            "creating tap device in namespace"@,
        ),
    ).push(
        stage(
            step::run_view(
                "ip"@,
                in_ns(id).push("link"@).push("set"@).push("dev"@).push(tap(id)).push(
                    "address"@,
                ).push(mac),
            ),
            "setting tap MAC address"@,
        ),
    ).push(
        stage(
            step::run_view(
                "ip"@,
                in_ns(id).push("link"@).push("set"@).push(tap(id)).push("master"@).push(
                    bridge(id),
                ),
            ),
            "attaching tap to internal bridge"@,
        ),
    ).push(
        stage(
            step::run_view(
                "ip"@,
                in_ns(id).push("addr"@).push("add"@).push(host_in(id, 2)).push("dev"@).push(
                    bridge(id),
                ),
            ),
            "assigning internal bridge address"@,
        ),
    ).push(
        stage(
            step::run_view(
                "ip"@,
                in_ns(id).push("link"@).push("set"@).push(veth_ns(id)).push("up"@),
            ),
            "bringing up veth namespace-end"@,
        ),
    ).push(
        stage(
            step::run_view("ip"@, in_ns(id).push("link"@).push("set"@).push(tap(id)).push("up"@)),
            "bringing up tap"@,
        ),
    ).push(
        stage(
            step::run_view(
                "ip"@,
                in_ns(id).push("link"@).push("set"@).push(bridge(id)).push("up"@),
            ),
            "bringing up internal bridge"@,
        ),
    ).push(
        stage(
            step::run_view(
                "ip"@,
                in_ns(id).push("route"@).push("add"@).push("default"@).push("via"@).push(
                    host_at(id, 1),
                ),
            ),
            "adding default route in namespace"@,
        ),
    )
}

/// The arguments that start the DHCP server. The address of the VM is tied to its MAC address.
pub open spec fn server_args(id: VmId, mac: Seq<char>) -> Seq<Seq<char>> {
    line::blank().push("netns"@).push("exec"@).push(netns_name(id)).push("dnsmasq"@).push(
        "--no-daemon"@,
    ).push("--interface="@ + bridge(id)).push("--bind-interfaces"@).push(
        "--except-interface=lo"@,
    ).push("--dhcp-range="@ + host_at(id, 3) + ","@ + host_at(id, 14) + ",1h"@).push(
        "--dhcp-host="@ + mac + ","@ + host_at(id, 3),
    ).push("--dhcp-leasefile="@ + lease_file(netns_name(id))).push("--server=1.1.1.1"@).push(
        "--server=8.8.8.8"@,
    )
}

/// The way out: forwarding and address translation on the host, whose rule is added unless it
/// is there already, and the DHCP server.
pub open spec fn service(id: VmId, mac: Seq<char>) -> Seq<step::StepView> {
    let dir = state_dir(netns_name(id));
    Seq::<step::StepView>::empty().push(
        stage(
            step::run_view("sysctl"@, line::blank().push("-w"@).push("net.ipv4.ip_forward=1"@)),
            "enabling IP forwarding"@,
        ),
    ).push(
        step::attempt_view(masquerade("-C"@, id)).going(
            Next::Skip(1),
            Next::Skip(0),
            Next::Skip(0),
        ),
    ).push(stage(masquerade("-A"@, id), "adding NAT rule"@)).push(
        stage(step::ActionView::MakeDirs { path: dir }, "creating dnsmasq state dir"@),
    ).push(
        stage(
            step::ActionView::Spawn {
                program: "ip"@,
                args: server_args(id, mac),
                log: path::joined(dir, "dnsmasq.log"@),
            },
            "spawning dnsmasq DHCP server"@,
        ).followed(
            step::FollowView::ServerStarted { pid_file: path::joined(dir, "dnsmasq.pid"@) },
        ),
    )
}

/// What follows from the start of the DHCP server: recording its process id.
pub open spec fn after_start(pid: u32, pid_file: Seq<char>) -> step::StepView {
    stage(
        step::ActionView::Write { path: pid_file, text: number::decimal(pid as nat) },
        "recording dnsmasq pid"@,
    )
}

/// Goes on from the start of the DHCP server.
pub fn server_started(pid: u32, pid_file: &str) -> (r: Step)
    ensures
        r@ == after_start(pid, pid_file@),
{
    let written = number::to_decimal(pid as u64);
    stage_step(step::write(pid_file, written.as_str()), "recording dnsmasq pid")
}

/// Preparing the namespace of a VM, which is taken down again where a step fails.
pub open spec fn preparation(id: VmId, mac: Seq<char>) -> job::JobView {
    job::fresh(
        outside(id) + inside(id, mac) + service(id, mac),
        teardown(id, netns_name(id)),
    )
}

struct Names {
    netns: String,
    veth_host: String,
    veth_ns: String,
    bridge: String,
    tap: String,
}

impl Names {
    spec fn of(self, id: VmId) -> bool {
        &&& self.netns@ == netns_name(id)
        &&& self.veth_host@ == veth_host(id)
        &&& self.veth_ns@ == veth_ns(id)
        &&& self.bridge@ == bridge(id)
        &&& self.tap@ == tap(id)
    }

    fn new(id: VmId) -> (r: Names)
        ensures
            r.of(id),
    {
        let short = short_id(id);
        Names {
            netns: "eph-".to_owned().concat(short.as_str()),
            veth_host: "vh".to_owned().concat(short.as_str()),
            veth_ns: "vn".to_owned().concat(short.as_str()),
            bridge: "br".to_owned().concat(short.as_str()),
            tap: "tap".to_owned().concat(short.as_str()),
        }
    }
}

fn outside_steps(id: VmId, n: &Names) -> (r: Vec<Step>)
    requires
        n.of(id),
    ensures
        step::plan(r@) == outside(id),
{
    let mut s = step::no_steps();
    let host_ip = host_text(id, 1).concat("/28");
    step::add_step(
        &mut s,
        stage_step(
            step::run("ip", line::start().w("netns").w("add").w(n.netns.as_str())),
            "creating network namespace",
        ),
    );
    step::add_step(
        &mut s,
        stage_step(
            step::run(
                "ip",
                line::start().w("link").w("add").w(n.veth_host.as_str()).w("type").w("veth").w(
                    "peer",
                ).w("name").w(n.veth_ns.as_str()),
            ),
            "creating veth pair",
        ),
    );
    step::add_step(
        &mut s,
        stage_step(
            step::run(
                "ip",
                line::start().w("link").w("set").w(n.veth_ns.as_str()).w("netns").w(
                    n.netns.as_str(),
                ),
            ),
            "moving veth namespace-end into the namespace",
        ),
    );
    step::add_step(
        &mut s,
        stage_step(
            step::run(
                "ip",
                line::start().w("addr").w("add").w(host_ip.as_str()).w("dev").w(
                    n.veth_host.as_str(),
                ),
            ),
            "assigning host-end veth address",
        ),
    );
    step::add_step(
        &mut s,
        stage_step(
            step::run("ip", line::start().w("link").w("set").w(n.veth_host.as_str()).w("up")),
            "bringing up host-end veth",
        ),
    );
    s
}

fn ns(n: &Names) -> (r: line::Line)
    ensures
        r@ == line::blank().push("netns"@).push("exec"@).push(n.netns@).push("ip"@),
{
    line::start().w("netns").w("exec").w(n.netns.as_str()).w("ip")
}

fn inside_steps(id: VmId, n: &Names, mac: &str) -> (r: Vec<Step>)
    requires
        n.of(id),
    ensures
        step::plan(r@) == inside(id, mac@),
{
    let mut s = step::no_steps();
    let ns_ip = host_text(id, 2).concat("/28");
    let gateway = host_text(id, 1);
    step::add_step(
        &mut s,
        stage_step(
            step::run("ip", ns(n).w("link").w("set").w("lo").w("up")),
            "bringing up loopback in namespace",
        ),
    );
    step::add_step(
        &mut s,
        stage_step(
            step::run(
                "ip",
                ns(n).w("link").w("add").w(n.bridge.as_str()).w("type").w("bridge"),
            ),
            "creating internal bridge in namespace",
        ),
    );
    step::add_step(
        &mut s,
        stage_step(
            step::run(
                "ip",
                ns(n).w("link").w("set").w(n.veth_ns.as_str()).w("master").w(n.bridge.as_str()),
            ),
            "attaching veth namespace-end to internal bridge",
        ),
    );
    step::add_step(
        &mut s,
        stage_step(
            step::run(
                "ip",
                ns(n).w("tuntap").w("add").w("dev").w(n.tap.as_str()).w("mode").w("tap"),
            ),
            "creating tap device in namespace",
        ),
    );
    step::add_step(
        &mut s,
        stage_step(
            step::run(
                "ip",
                ns(n).w("link").w("set").w("dev").w(n.tap.as_str()).w("address").w(mac),
            ),
            "setting tap MAC address",
        ),
    );
    step::add_step(
        &mut s,
        stage_step(
            step::run(
                "ip",
                ns(n).w("link").w("set").w(n.tap.as_str()).w("master").w(n.bridge.as_str()),
            ),
            "attaching tap to internal bridge",
        ),
    );
    step::add_step(
        &mut s,
        stage_step(
            step::run(
                "ip",
                ns(n).w("addr").w("add").w(ns_ip.as_str()).w("dev").w(n.bridge.as_str()),
            ),
            "assigning internal bridge address",
        ),
    );
    step::add_step(
        &mut s,
        stage_step(
            step::run("ip", ns(n).w("link").w("set").w(n.veth_ns.as_str()).w("up")),
            "bringing up veth namespace-end",
        ),
    );
    step::add_step(
        &mut s,
        stage_step(
            step::run("ip", ns(n).w("link").w("set").w(n.tap.as_str()).w("up")),
            "bringing up tap",
        ),
    );
    step::add_step(
        &mut s,
        stage_step(
            step::run("ip", ns(n).w("link").w("set").w(n.bridge.as_str()).w("up")),
            "bringing up internal bridge",
        ),
    );
    step::add_step(
        &mut s,
        stage_step(
            step::run("ip", ns(n).w("route").w("add").w("default").w("via").w(gateway.as_str())),
            "adding default route in namespace",
        ),
    );
    s
}

fn server_line(id: VmId, n: &Names, mac: &str) -> (r: line::Line)
    requires
        n.of(id),
    ensures
        r@ == server_args(id, mac@),
{
    let guest = host_text(id, 3);
    let last = host_text(id, 14);
    let interface = "--interface=".to_owned().concat(n.bridge.as_str());
    let range = "--dhcp-range=".to_owned().concat(guest.as_str()).concat(",").concat(
        last.as_str(),
    ).concat(",1h");
    let host = "--dhcp-host=".to_owned().concat(mac).concat(",").concat(guest.as_str());
    let leases = "--dhcp-leasefile=".to_owned().concat(leasefile_path(n.netns.as_str()).as_str());
    line::start().w("netns").w("exec").w(n.netns.as_str()).w("dnsmasq").w("--no-daemon").w(
        interface.as_str(),
    ).w("--bind-interfaces").w("--except-interface=lo").w(range.as_str()).w(host.as_str()).w(
        leases.as_str(),
    ).w("--server=1.1.1.1").w("--server=8.8.8.8")
}

fn service_steps(id: VmId, n: &Names, mac: &str) -> (r: Vec<Step>)
    requires
        n.of(id),
    ensures
        step::plan(r@) == service(id, mac@),
{
    let mut s = step::no_steps();
    let dir = dhcp_dir(n.netns.as_str());
    let log = path::join(dir.as_str(), "dnsmasq.log");
    let pid_file = path::join(dir.as_str(), "dnsmasq.pid");
    step::add_step(
        &mut s,
        stage_step(
            step::run("sysctl", line::start().w("-w").w("net.ipv4.ip_forward=1")),
            "enabling IP forwarding",
        ),
    );
    step::add_step(
        &mut s,
        step::attempt(masquerade_rule("-C", id)).going(
            Next::Skip(1),
            Next::Skip(0),
            Next::Skip(0),
        ),
    );
    step::add_step(&mut s, stage_step(masquerade_rule("-A", id), "adding NAT rule"));
    step::add_step(
        &mut s,
        stage_step(step::make_dirs(dir.as_str()), "creating dnsmasq state dir"),
    );
    step::add_step(
        &mut s,
        stage_step(
            Action::Spawn {
                program: "ip".to_owned(),
                args: server_line(id, n, mac).words,
                log,
            },
            "spawning dnsmasq DHCP server",
        ).follow_with(Follow::ServerStarted { pid_file }),
    );
    s
}

/// Prepares the namespace of a VM. Its address can be reserved only for a known MAC address.
pub fn prepare(id: VmId, mac: Option<&str>) -> (r: Result<(NetnsHandle, Job), NetnsError>)
    ensures
        match mac {
            None => r == Err::<(NetnsHandle, Job), NetnsError>(NetnsError::NoMac),
            Some(mac) => r matches Ok((h, j)) && h@ == handle(id) && j@ == preparation(id, mac@),
        },
{
    let mac = match mac {
        Some(mac) => mac,
        None => {
            return Err(NetnsError::NoMac);
        },
    };
    let n = Names::new(id);
    let mut todo = outside_steps(id, &n);
    step::add_steps(&mut todo, inside_steps(id, &n, mac));
    step::add_steps(&mut todo, service_steps(id, &n, mac));
    let undo = cleanup(id, n.netns.as_str());
    let guest_ip = host_text(id, 3);
    let guest_cidr = guest_ip.clone().concat("/28");
    let dhcp_leasefile = leasefile_path(n.netns.as_str());
    let handle = NetnsHandle {
        netns: n.netns,
        tap_name: n.tap,
        dhcp_leasefile,
        guest_ip,
        guest_cidr,
        gateway: host_text(id, 1),
    };
    Ok((handle, Job::with_undo(todo, undo)))
}

// ---------------------------------------------------------------------------------------------
// Leases
// ---------------------------------------------------------------------------------------------

/// The address in a line of a lease file, where the line is about a MAC address: `<timestamp>
/// <mac> <ip> ...`. The case of letters does not matter.
pub open spec fn leased(one: Seq<char>, mac: Seq<char>) -> Option<Seq<char>> {
    let f = text::fields(one);
    if f.len() >= 3 && text::lowered(f[1]) == text::lowered(mac) {
        Some(f[2])
    } else {
        None
    }
}

/// The address in the first of several lines that is about a MAC address.
pub open spec fn first_leased(all: Seq<Seq<char>>, mac: Seq<char>) -> Option<Seq<char>>
    decreases all.len(),
{
    if all.len() == 0 {
        None
    } else if leased(all[0], mac) is Some {
        leased(all[0], mac)
    } else {
        first_leased(all.skip(1), mac)
    }
}

/// Looks up the address that is leased to a MAC address, in what the lease file holds. Without
/// a file that could be read, none is known.
pub fn guest_ip_from_lease(contents: Option<&str>, mac: &str) -> (r: Option<String>)
    ensures
        match contents {
            None => r is None,
            Some(s) => match first_leased(text::lines(s@), mac@) {
                Some(ip) => r matches Some(found) && found@ == ip,
                None => r is None,
            },
        },
{
    let held = match contents {
        Some(s) => s,
        None => {
            return None;
        },
    };
    let wanted = text::lower(mac);
    let lines = text::split_lines(held);
    let ghost all = text::lines(held@);
    let mut i: usize = 0;
    assert(all.skip(0) =~= all);
    while i < lines.len()
        invariant
            i <= lines.len(),
            contents == Some(held),
            all == text::lines(held@),
            lines.deep_view() == all,
            wanted@ == text::lowered(mac@),
            first_leased(all, mac@) == first_leased(all.skip(i as int), mac@),
        decreases lines.len() - i,
    {
        let f = text::split_fields(lines[i]);
        let ghost fv = f.deep_view();
        assert(all.skip(i as int)[0] == lines.deep_view()[i as int]);
        assert(fv == text::fields(all.skip(i as int)[0]));
        if f.len() >= 3 {
            let lease_mac = text::lower(f[1]);
            assert(lease_mac@ == text::lowered(fv[1]));
            if text::same(lease_mac.as_str(), wanted.as_str()) {
                return Some(f[2].to_owned());
            }
        }
        assert(all.skip(i as int).skip(1) =~= all.skip(i + 1));
        i += 1;
    }
    assert(all.skip(i as int) =~= Seq::<Seq<char>>::empty());
    None
}

// ---------------------------------------------------------------------------------------------
// Laws
// ---------------------------------------------------------------------------------------------

/// The network of sixteen addresses that belongs to a VM.
pub open spec fn network_of(id: VmId) -> cidr::Ipv4Cidr {
    cidr::Ipv4Cidr {
        network: cidr::address_of(169, 254, block_of(id).0, block_of(id).1),
        prefix: 28,
    }
}

/// Blocks do not straddle: the fourth byte of a block starts at a multiple of sixteen, and the
/// block ends with the byte.
pub proof fn law_block_is_aligned(id: VmId)
    ensures
        block_of(id).1 % 16 == 0,
        block_of(id).1 + 15 <= 255,
{
}

/// Two VMs share a block exactly where the low twelve bits of their ids agree.
pub proof fn law_block_is_the_low_bits(a: VmId, b: VmId)
    ensures
        block_of(a) == block_of(b) <==> a.bits % 4096 == b.bits % 4096,
{
    let m = a.bits % 4096;
    let n = b.bits % 4096;
    assert(m == m / 16 * 16 + m % 16);
    assert(n == n / 16 * 16 + n % 16);
}

proof fn lemma_slash_28()
    ensures
        "/28"@ == seq!['/'] + number::decimal(28),
{
    reveal_strlit("/28");
    assert(number::decimal(2) =~= seq!['2']);
    assert(number::decimal(28) == number::decimal(2).push('8'));
    assert("/28"@ =~= seq!['/'] + number::decimal(28));
}

/// Every address of a VM, written with its prefix, describes the network of the VM.
pub proof fn law_addresses_share_the_network(id: VmId, k: nat)
    requires
        k < 16,
    ensures
        cidr::address(host_at(id, k)) == Some((network_of(id).network + k) as u32),
        cidr::covers(network_of(id), (network_of(id).network + k) as u32),
        cidr::parsed(host_in(id, k)) == Ok::<cidr::Ipv4Cidr, step::CidrError>(network_of(id)),
{
    let third = block_of(id).0;
    let base = block_of(id).1;
    law_block_is_aligned(id);
    let n = network_of(id).network;
    let x = cidr::address_of(169, 254, third, (base + k) as u8);
    let j = k as u32;
    assert(x == n + j);
    assert(n % 16 == 0) by {
        assert(n == (169 * 0x10_0000 + 254 * 0x1000 + third * 16 + base / 16) * 16);
    }
    assert(x & (0xffff_ffffu32 << 4u32) == n) by (bit_vector)
        requires
            n % 16 == 0,
            j < 16,
            x == n + j,
    ;
    cidr::lemma_octets(169, 254, third, (base + k) as u8);
    assert(cidr::dotted(x) == host_at(id, k));
    cidr::law_address_round_trip(x);
    lemma_slash_28();
    cidr::law_network_covers_its_address(x, 28);
}

/// The addresses of a VM are different from each other.
pub proof fn law_addresses_differ(id: VmId, j: nat, k: nat)
    requires
        j < 16,
        k < 16,
        j != k,
    ensures
        host_at(id, j) != host_at(id, k),
{
    law_addresses_share_the_network(id, j);
    law_addresses_share_the_network(id, k);
}

/// The names of a VM's devices fit into what the kernel takes, fifteen characters.
pub proof fn law_device_names_fit(id: VmId)
    ensures
        veth_host(id).len() <= 15,
        veth_ns(id).len() <= 15,
        bridge(id).len() <= 15,
        tap(id).len() <= 15,
{
    reveal_strlit("vh");
    reveal_strlit("vn");
    reveal_strlit("br");
    reveal_strlit("tap");
    number::lemma_hex_digits_len(id.bits as nat, 32);
}

/// What a VM gets to know about its namespace is what is set up: the leases stand where they are
/// looked for, and the DHCP server hands the reserved address to the VM and to nobody else.
pub proof fn law_handle_is_what_is_served(id: VmId, mac: Seq<char>)
    ensures
        handle(id).dhcp_leasefile == lease_file(handle(id).netns),
        server_args(id, mac).contains("--dhcp-host="@ + mac + ","@ + handle(id).guest_ip),
        server_args(id, mac).contains("--dhcp-leasefile="@ + handle(id).dhcp_leasefile),
        handle(id).guest_cidr == handle(id).guest_ip + "/28"@,
        inside(id, mac).last().action == step::run_view(
            "ip"@,
            in_ns(id).push("route"@).push("add"@).push("default"@).push("via"@).push(
                handle(id).gateway,
            ),
        ),
{
    assert(server_args(id, mac)[9] == "--dhcp-host="@ + mac + ","@ + handle(id).guest_ip);
    assert(server_args(id, mac)[10] == "--dhcp-leasefile="@ + handle(id).dhcp_leasefile);
}

/// The devices and the namespace of a VM are known by the first eight digits of its id, each
/// under a name of its own.
pub proof fn law_names_come_from_the_id(id: VmId)
    ensures
        ({
            let digits = number::hex_digits(id.bits as nat, 32).take(8);
            &&& digits.len() == 8
            &&& netns_name(id) == "eph-"@ + digits
            &&& veth_host(id) == "vh"@ + digits
            &&& veth_ns(id) == "vn"@ + digits
            &&& bridge(id) == "br"@ + digits
            &&& tap(id) == "tap"@ + digits
        }),
        veth_host(id) != veth_ns(id),
        veth_ns(id) != bridge(id),
        veth_ns(id) != tap(id),
        bridge(id) != tap(id),
{
    number::lemma_hex_digits_len(id.bits as nat, 32);
    reveal_strlit("vh");
    reveal_strlit("vn");
    reveal_strlit("br");
    reveal_strlit("tap");
    assert(veth_host(id)[1] == 'h' && veth_ns(id)[1] == 'n' && bridge(id)[1] == 'r');
    assert(tap(id)[1] == 'a');
}

proof fn lemma_calls(id: VmId, mac: Seq<char>, k: int, netns: Option<Seq<char>>, words: Seq<Seq<char>>)
    requires
        0 <= k < preparation(id, mac).todo.len(),
        model::runs(preparation(id, mac).todo[k].action, "ip"@),
        model::ip_words(preparation(id, mac).todo[k].action, netns) =~= words,
        preparation(id, mac).todo[k].on_failure == Next::Unwind,
        preparation(id, mac).todo[k].on_missing == Next::Unwind,
    ensures
        model::calls_ip(preparation(id, mac).todo, netns, words),
{
}

/// The host end of a namespace: the namespace is made, the pair of devices is made, one end of it
/// goes into the namespace, and the other end gets the address of the gateway and is brought up.
#[verifier::spinoff_prover]
#[verifier::rlimit(50)]
pub proof fn law_host_end_is_wired(id: VmId, mac: Seq<char>)
    ensures
        ({
            let todo = preparation(id, mac).todo;
            let netns = handle(id).netns;
            let gateway = handle(id).gateway;
            &&& model::calls_ip(todo, None, seq!["netns"@, "add"@, netns])
            &&& model::calls_ip(
                todo,
                None,
                seq![
                    "link"@,
                    "add"@,
                    veth_host(id),
                    "type"@,
                    "veth"@,
                    "peer"@,
                    "name"@,
                    veth_ns(id),
                ],
            )
            &&& model::calls_ip(todo, None, seq!["link"@, "set"@, veth_ns(id), "netns"@, netns])
            &&& model::calls_ip(
                todo,
                None,
                seq!["addr"@, "add"@, gateway + "/28"@, "dev"@, veth_host(id)],
            )
            &&& model::calls_ip(todo, None, seq!["link"@, "set"@, veth_host(id), "up"@])
        }),
{
    let todo = preparation(id, mac).todo;
    let all = outside(id);
    assert(all.len() == 5);
    assert(todo[0] == all[0] && todo[1] == all[1] && todo[2] == all[2] && todo[3] == all[3]
        && todo[4] == all[4]);
    let netns = handle(id).netns;
    lemma_calls(id, mac, 0, None, seq!["netns"@, "add"@, netns]);
    lemma_calls(
        id,
        mac,
        1,
        None,
        seq!["link"@, "add"@, veth_host(id), "type"@, "veth"@, "peer"@, "name"@, veth_ns(id)],
    );
    lemma_calls(id, mac, 2, None, seq!["link"@, "set"@, veth_ns(id), "netns"@, netns]);
    lemma_calls(
        id,
        mac,
        3,
        None,
        seq!["addr"@, "add"@, handle(id).gateway + "/28"@, "dev"@, veth_host(id)],
    );
    lemma_calls(id, mac, 4, None, seq!["link"@, "set"@, veth_host(id), "up"@]);
}

/// The inside of a namespace: the end of the pair and the tap device of the VM, which has the MAC
/// address of the VM, are ports of one bridge; all three are up, the bridge has an address, and
/// the way out goes through the gateway.
#[verifier::spinoff_prover]
#[verifier::rlimit(50)]
pub proof fn law_inside_is_wired(id: VmId, mac: Seq<char>)
    ensures
        ({
            let todo = preparation(id, mac).todo;
            let netns = Some(handle(id).netns);
            let dev = handle(id).tap_name;
            &&& model::calls_ip(todo, netns, seq!["link"@, "set"@, "lo"@, "up"@])
            &&& model::calls_ip(
                todo,
                netns,
                seq!["link"@, "add"@, bridge(id), "type"@, "bridge"@],
            )
            &&& model::calls_ip(
                todo,
                netns,
                seq!["link"@, "set"@, veth_ns(id), "master"@, bridge(id)],
            )
            &&& model::calls_ip(
                todo,
                netns,
                seq!["tuntap"@, "add"@, "dev"@, dev, "mode"@, "tap"@],
            )
            &&& model::calls_ip(
                todo,
                netns,
                seq!["link"@, "set"@, "dev"@, dev, "address"@, mac],
            )
            &&& model::calls_ip(todo, netns, seq!["link"@, "set"@, dev, "master"@, bridge(id)])
            &&& model::calls_ip(
                todo,
                netns,
                seq!["addr"@, "add"@, host_in(id, 2), "dev"@, bridge(id)],
            )
            &&& model::calls_ip(todo, netns, seq!["link"@, "set"@, veth_ns(id), "up"@])
            &&& model::calls_ip(todo, netns, seq!["link"@, "set"@, dev, "up"@])
            &&& model::calls_ip(todo, netns, seq!["link"@, "set"@, bridge(id), "up"@])
            &&& model::calls_ip(
                todo,
                netns,
                seq!["route"@, "add"@, "default"@, "via"@, handle(id).gateway],
            )
        }),
{
    let todo = preparation(id, mac).todo;
    let all = inside(id, mac);
    let netns = Some(handle(id).netns);
    let dev = handle(id).tap_name;
    assert(all.len() == 11 && outside(id).len() == 5);
    assert forall|k: int| 0 <= k < 11 implies #[trigger] all[k] == todo[k + 5] by {}
    assert(all[0] == todo[5] && all[1] == todo[6] && all[2] == todo[7] && all[3] == todo[8]);
    assert(all[4] == todo[9] && all[5] == todo[10] && all[6] == todo[11] && all[7] == todo[12]);
    assert(all[8] == todo[13] && all[9] == todo[14] && all[10] == todo[15]);
    lemma_calls(id, mac, 5, netns, seq!["link"@, "set"@, "lo"@, "up"@]);
    lemma_calls(id, mac, 6, netns, seq!["link"@, "add"@, bridge(id), "type"@, "bridge"@]);
    lemma_calls(id, mac, 7, netns, seq!["link"@, "set"@, veth_ns(id), "master"@, bridge(id)]);
    lemma_calls(id, mac, 8, netns, seq!["tuntap"@, "add"@, "dev"@, dev, "mode"@, "tap"@]);
    lemma_calls(id, mac, 9, netns, seq!["link"@, "set"@, "dev"@, dev, "address"@, mac]);
    lemma_calls(id, mac, 10, netns, seq!["link"@, "set"@, dev, "master"@, bridge(id)]);
    lemma_calls(id, mac, 11, netns, seq!["addr"@, "add"@, host_in(id, 2), "dev"@, bridge(id)]);
    lemma_calls(id, mac, 12, netns, seq!["link"@, "set"@, veth_ns(id), "up"@]);
    lemma_calls(id, mac, 13, netns, seq!["link"@, "set"@, dev, "up"@]);
    lemma_calls(id, mac, 14, netns, seq!["link"@, "set"@, bridge(id), "up"@]);
    lemma_calls(
        id,
        mac,
        15,
        netns,
        seq!["route"@, "add"@, "default"@, "via"@, handle(id).gateway],
    );
}

/// The address of the VM, that of the gateway and that of the bridge are different addresses of
/// the network of the VM, and so are the last ones that the DHCP server hands out.
#[verifier::spinoff_prover]
#[verifier::rlimit(50)]
pub proof fn law_handle_is_in_the_network(id: VmId)
    ensures
        cidr::parsed(handle(id).guest_cidr) == Ok::<cidr::Ipv4Cidr, step::CidrError>(
            network_of(id),
        ),
        cidr::address(handle(id).guest_ip) == Some((network_of(id).network + 3) as u32),
        cidr::address(handle(id).gateway) == Some((network_of(id).network + 1) as u32),
        cidr::parsed(host_in(id, 2)) == Ok::<cidr::Ipv4Cidr, step::CidrError>(network_of(id)),
        network_of(id).network / 0x1_0000 == 169 * 256 + 254,
        network_of(id).network % 0x1_0000 == id.bits % 4096 * 16,
        handle(id).gateway != handle(id).guest_ip,
        handle(id).gateway != host_at(id, 2),
        handle(id).guest_ip != host_at(id, 2),
{
    law_addresses_share_the_network(id, 1);
    law_addresses_share_the_network(id, 2);
    law_addresses_share_the_network(id, 3);
    law_addresses_differ(id, 1, 2);
    law_addresses_differ(id, 2, 3);
    law_addresses_differ(id, 1, 3);
    let n = (id.bits % 4096) as int;
    let third = block_of(id).0;
    let base = block_of(id).1;
    assert(n == 16 * (n / 16) + n % 16);
    assert(third as int * 256 + base as int == n * 16);
    assert(network_of(id).network as int == (169 * 256 + 254) * 0x1_0000 + n * 16);
}

proof fn lemma_translates(id: VmId, verb: Seq<char>)
    ensures
        model::translates(masquerade(verb, id), verb, host_in(id, 0)),
{
    assert(model::arguments(masquerade(verb, id)) =~= seq![
        "-t"@,
        "nat"@,
        verb,
        "POSTROUTING"@,
        "-s"@,
        host_in(id, 0),
        "-j"@,
        "MASQUERADE"@,
    ]);
}

/// The way out of a namespace comes last: forwarding is switched on, and the rule that translates
/// the addresses of the VM is looked for and added where it is not there.
#[verifier::spinoff_prover]
#[verifier::rlimit(50)]
pub proof fn law_way_out_is_set_up(id: VmId, mac: Seq<char>)
    ensures
        ({
            let steps = service(id, mac);
            &&& preparation(id, mac).todo.skip(16) == steps
            &&& steps.len() == 5
            &&& model::runs(steps[0].action, "sysctl"@)
            &&& model::arguments(steps[0].action) == seq!["-w"@, "net.ipv4.ip_forward=1"@]
            &&& steps[0].on_failure == Next::Unwind
            &&& model::translates(steps[1].action, "-C"@, host_in(id, 0))
            &&& steps[1].on_success == Next::Skip(1)
            &&& steps[1].on_failure == Next::Skip(0)
            &&& model::translates(steps[2].action, "-A"@, host_in(id, 0))
            &&& steps[2].on_failure == Next::Unwind
        }),
        cidr::parsed(host_in(id, 0)) == Ok::<cidr::Ipv4Cidr, step::CidrError>(network_of(id)),
{
    let steps = service(id, mac);
    law_addresses_share_the_network(id, 0);
    lemma_translates(id, "-C"@);
    lemma_translates(id, "-A"@);
    assert(outside(id).len() == 5 && inside(id, mac).len() == 11);
    assert(preparation(id, mac).todo.skip(16) =~= steps);
    assert(model::arguments(steps[0].action) =~= seq!["-w"@, "net.ipv4.ip_forward=1"@]);
}

/// The DHCP server is started inside the namespace and keeps its state in a directory that is made
/// for it.
pub proof fn law_server_is_started(id: VmId, mac: Seq<char>)
    ensures
        ({
            let steps = service(id, mac);
            &&& steps[3].action == (step::ActionView::MakeDirs {
                path: path::joined("/run/fluxvm/netns-dhcp"@, handle(id).netns),
            })
            &&& steps[3].on_failure == Next::Unwind
            &&& steps[4].action matches step::ActionView::Spawn { program, args, log: _ }
                && program == "ip"@ && args == server_args(id, mac)
            &&& steps[4].on_failure == Next::Unwind
            &&& server_args(id, mac).take(4) == seq![
                "netns"@,
                "exec"@,
                handle(id).netns,
                "dnsmasq"@,
            ]
        }),
{
    assert(server_args(id, mac).take(4) =~= seq![
        "netns"@,
        "exec"@,
        handle(id).netns,
        "dnsmasq"@,
    ]);
}

/// The DHCP server listens on the bridge only, and hands out addresses of the VM's network, from
/// that of the VM up to the last one.
pub proof fn law_server_serves_the_network(id: VmId, mac: Seq<char>)
    ensures
        server_args(id, mac).contains("--interface="@ + bridge(id)),
        server_args(id, mac).contains("--bind-interfaces"@),
        server_args(id, mac).contains(
            "--dhcp-range="@ + host_at(id, 3) + ","@ + host_at(id, 14) + ",1h"@,
        ),
        cidr::address(host_at(id, 3)) == Some((network_of(id).network + 3) as u32),
        cidr::address(host_at(id, 14)) == Some((network_of(id).network + 14) as u32),
        cidr::covers(network_of(id), (network_of(id).network + 14) as u32),
{
    let args = server_args(id, mac);
    law_addresses_share_the_network(id, 3);
    law_addresses_share_the_network(id, 14);
    assert(args[5] == "--interface="@ + bridge(id));
    assert(args[6] == "--bind-interfaces"@);
    assert(args[8] == "--dhcp-range="@ + host_at(id, 3) + ","@ + host_at(id, 14) + ",1h"@);
}

/// Taking a namespace down takes away what the preparation made: the state of the DHCP server,
/// the rule that translates the addresses, and the namespace with all that is in it. The record
/// that is read is the one that the start of the server leads to.
#[verifier::spinoff_prover]
#[verifier::rlimit(50)]
pub proof fn law_teardown_takes_away_what_was_made(id: VmId, mac: Seq<char>)
    ensures
        ({
            let steps = teardown(id, handle(id).netns);
            let dir = path::joined("/run/fluxvm/netns-dhcp"@, handle(id).netns);
            &&& preparation(id, mac).undo == steps
            &&& steps.len() == 4
            &&& steps[0].action == (step::ActionView::Read {
                path: path::joined(dir, "dnsmasq.pid"@),
            })
            &&& steps[0].follow == step::FollowView::ServerPid
            &&& service(id, mac)[4].follow == (step::FollowView::ServerStarted {
                pid_file: path::joined(dir, "dnsmasq.pid"@),
            })
            &&& steps[1].action == (step::ActionView::RemoveTree { path: dir })
            &&& model::translates(steps[2].action, "-D"@, host_in(id, 0))
            &&& model::runs(steps[3].action, "ip"@)
            &&& model::arguments(steps[3].action) == seq!["netns"@, "del"@, handle(id).netns]
        }),
{
    let steps = teardown(id, handle(id).netns);
    lemma_translates(id, "-D"@);
    assert(model::arguments(steps[3].action) =~= seq!["netns"@, "del"@, handle(id).netns]);
}

/// Taking a namespace down never fails, whatever the host replies.
pub proof fn law_teardown_never_fails(
    id: VmId,
    netns: Seq<char>,
    replies: Seq<step::ReplyView>,
)
    ensures
        job::after(job::fresh(teardown(id, netns), Seq::empty()), replies).failure is None,
{
    job::law_harmless_work_succeeds(job::fresh(teardown(id, netns), Seq::empty()), replies);
}

/// A preparation that fails, at whatever step, goes on with taking the namespace down.
pub proof fn law_failed_preparation_is_taken_down(
    id: VmId,
    mac: Seq<char>,
    replies: Seq<step::ReplyView>,
    last: step::ReplyView,
)
    requires
        job::after(preparation(id, mac), replies).failure is None,
        job::resumed(job::after(preparation(id, mac), replies), last).failure is Some,
    ensures
        job::resumed(job::after(preparation(id, mac), replies), last).todo == teardown(
            id,
            netns_name(id),
        ),
{
    assert(job::all_guarded(outside(id)));
    assert(job::all_guarded(inside(id, mac)));
    assert(job::all_guarded(service(id, mac)));
    job::law_guarded_work_is_undone(preparation(id, mac), replies, last);
}

/// Where the namespace is taken down, a recorded DHCP server is ended before anything else.
pub proof fn law_server_is_ended_first(id: VmId, netns: Seq<char>, raw: Seq<char>, pid: u32)
    requires
        number::unsigned(text::trimmed(raw), 0xffff_ffff) == Some(pid as nat),
    ensures
        job::resumed(
            job::fresh(teardown(id, netns), Seq::empty()),
            step::ReplyView::Text(raw),
        ).todo == seq![step::attempt_view(step::ActionView::Terminate { pid })] + teardown(
            id,
            netns,
        ).skip(1),
{
    assert(teardown(id, netns).skip(1).skip(0) =~= teardown(id, netns).skip(1));
}

/// What is recorded about a DHCP server that was started is what ends it later.
pub proof fn law_recorded_server_is_the_one_ended(pid: u32, pid_file: Seq<char>)
    ensures
        after_start(pid, pid_file).action matches step::ActionView::Write { path, text } && path
            == pid_file && after_pid(text) == seq![
            step::attempt_view(step::ActionView::Terminate { pid }),
        ],
{
    let written = number::decimal(pid as nat);
    number::lemma_decimal_digits(pid as nat);
    number::lemma_trim_digits(written);
    number::law_decimal_round_trip(pid as nat, 0xffff_ffff);
}

/// The lease that is found is that of the first line about the MAC address, and none is found
/// exactly where no line is about it.
pub proof fn law_first_lease_counts(all: Seq<Seq<char>>, mac: Seq<char>)
    ensures
        match first_leased(all, mac) {
            Some(ip) => exists|i: int|
                0 <= i < all.len() && leased(#[trigger] all[i], mac) == Some(ip) && forall|j: int|
                    0 <= j < i ==> leased(#[trigger] all[j], mac) is None,
            None => forall|j: int| 0 <= j < all.len() ==> leased(#[trigger] all[j], mac) is None,
        },
    decreases all.len(),
{
    if all.len() > 0 && leased(all[0], mac) is None {
        let rest = all.skip(1);
        law_first_lease_counts(rest, mac);
        match first_leased(rest, mac) {
            Some(ip) => {
                let i = choose|i: int|
                    0 <= i < rest.len() && leased(#[trigger] rest[i], mac) == Some(ip) && forall|
                        j: int,
                    |
                        0 <= j < i ==> leased(#[trigger] rest[j], mac) is None;
                assert(all[i + 1] == rest[i]);
                assert forall|j: int| 0 <= j < i + 1 implies leased(#[trigger] all[j], mac)
                    is None by {
                    if j > 0 {
                        assert(all[j] == rest[j - 1]);
                    }
                }
            },
            None => {
                assert forall|j: int| 0 <= j < all.len() implies leased(#[trigger] all[j], mac)
                    is None by {
                    if j > 0 {
                        assert(all[j] == rest[j - 1]);
                    }
                }
            },
        }
    }
}

/// Letters of a MAC address count the same in either case.
pub proof fn law_lease_ignores_case(all: Seq<Seq<char>>, a: Seq<char>, b: Seq<char>)
    requires
        text::lowered(a) == text::lowered(b),
    ensures
        first_leased(all, a) == first_leased(all, b),
    decreases all.len(),
{
    if all.len() > 0 {
        law_lease_ignores_case(all.skip(1), a, b);
    }
}

/// A line of a lease file is a time, a MAC address, an address and more. The address is found for
/// that MAC address, in either case of letters, and for no other.
pub proof fn law_lease_is_found(
    time: Seq<char>,
    mac: Seq<char>,
    ip: Seq<char>,
    more: Seq<char>,
    wanted: Seq<char>,
)
    requires
        time.len() > 0 && mac.len() > 0 && ip.len() > 0,
        forall|i: int| 0 <= i < time.len() ==> !text::white(#[trigger] time[i]),
        forall|i: int| 0 <= i < mac.len() ==> !text::white(#[trigger] mac[i]),
        forall|i: int| 0 <= i < ip.len() ==> !text::white(#[trigger] ip[i]),
    ensures
        leased(time + (seq![' '] + (mac + (seq![' '] + (ip + (seq![' '] + more))))), wanted)
            == if text::lowered(mac) == text::lowered(wanted) {
            Some(ip)
        } else {
            None
        },
{
    let two = ip + (seq![' '] + more);
    let one = mac + (seq![' '] + two);
    let all = time + (seq![' '] + one);
    text::law_word_in_front_is_a_field(ip, ' ', more);
    text::law_word_in_front_is_a_field(mac, ' ', two);
    text::law_word_in_front_is_a_field(time, ' ', one);
    let f = text::fields(all);
    assert(f == seq![time] + (seq![mac] + (seq![ip] + text::fields(more))));
    assert(f[1] == mac && f[2] == ip);
}

/// A line about another MAC address does not hide the lines behind it.
pub proof fn law_other_leases_are_passed_over(
    one: Seq<char>,
    rest: Seq<Seq<char>>,
    mac: Seq<char>,
)
    ensures
        leased(one, mac) is None ==> first_leased(seq![one] + rest, mac) == first_leased(rest, mac),
        leased(one, mac) is Some ==> first_leased(seq![one] + rest, mac) == leased(one, mac),
{
    assert((seq![one] + rest).skip(1) =~= rest);
}

/// The DHCP server stays in the foreground, keeps off the loopback device, and passes questions
/// for names on to public servers.
pub proof fn law_server_resolves_names(id: VmId, mac: Seq<char>)
    ensures
        server_args(id, mac).contains("--no-daemon"@),
        server_args(id, mac).contains("--except-interface=lo"@),
        server_args(id, mac).contains("--server=1.1.1.1"@),
        server_args(id, mac).contains("--server=8.8.8.8"@),
{
    let args = server_args(id, mac);
    assert(args[4] == "--no-daemon"@);
    assert(args[7] == "--except-interface=lo"@);
    assert(args[11] == "--server=1.1.1.1"@);
    assert(args[12] == "--server=8.8.8.8"@);
}

/// A record that is no process id ends nothing.
pub proof fn law_broken_record_ends_nothing(raw: Seq<char>)
    ensures
        number::unsigned(text::trimmed(raw), 0xffff_ffff) is None <==> after_pid(raw).len() == 0,
{
}

} // verus!
