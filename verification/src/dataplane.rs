//! The dataplane of a VM: its network policy, where the policy is kept, and how it is brought
//! onto the host.
//!
//! `legacy` uses nftables. `ebpf` uses traffic-control programs and maps of FluxVM's own.
//! `cilium` leaves the node to Cilium and uses the same programs on the interface of the VM.

use crate::cidr;
use crate::cilium;
use crate::config::{BpfEnv, Config, DataplaneMode};
use crate::ebpf;
use crate::job;
use crate::job::Job;
use crate::line;
use crate::model;
use crate::number;
use crate::order;
use crate::path;
use crate::step;
use crate::step::{Action, ByteOrder, Next, PortError, PortRule, Refusal, Rejection, Step};
use crate::text;
use crate::vmid;
use crate::vmid::VmId;
use vstd::prelude::*;
use vstd::string::*;

verus! {

// ---------------------------------------------------------------------------------------------
// Policies
// ---------------------------------------------------------------------------------------------

/// What the network of a VM lets through.
#[derive(Debug, Clone, PartialEq, Eq)]
pub struct VmNetworkPolicy {
    /// The action where no allowlist is configured. Once either allowlist has entries, what it
    /// does not name is denied, whatever this says.
    pub default_allow: bool,
    pub allow_cidrs: Vec<String>,
    /// Entries such as `tcp/443` and `udp/53`. With entries in both lists, traffic has to match
    /// both.
    pub allow_ports: Vec<String>,
    /// How much allowed traffic is reported: nothing at zero, else about one packet in as many.
    pub sample_rate: u32,
}

/// What a [`VmNetworkPolicy`] is.
pub struct PolicyView {
    pub default_allow: bool,
    pub allow_cidrs: Seq<Seq<char>>,
    pub allow_ports: Seq<Seq<char>>,
    pub sample_rate: u32,
}

impl View for VmNetworkPolicy {
    type V = PolicyView;

    open spec fn view(&self) -> PolicyView {
        PolicyView {
            default_allow: self.default_allow,
            allow_cidrs: self.allow_cidrs.deep_view(),
            allow_ports: self.allow_ports.deep_view(),
            sample_rate: self.sample_rate,
        }
    }
}

/// The policy that lets everything through.
pub open spec fn permissive() -> PolicyView {
    PolicyView {
        default_allow: true,
        allow_cidrs: Seq::empty(),
        allow_ports: Seq::empty(),
        sample_rate: 0,
    }
}

impl Default for VmNetworkPolicy {
    fn default() -> (r: Self)
        ensures
            r@ == permissive(),
    {
        let allow_cidrs: Vec<String> = Vec::new();
        let allow_ports: Vec<String> = Vec::new();
        assert(allow_cidrs.deep_view() =~= Seq::<Seq<char>>::empty());
        assert(allow_ports.deep_view() =~= Seq::<Seq<char>>::empty());
        VmNetworkPolicy { default_allow: true, allow_cidrs, allow_ports, sample_rate: 0 }
    }
}

/// The policy of a node for VMs that have none of their own.
pub open spec fn node_policy(cfg: Config) -> PolicyView {
    PolicyView {
        default_allow: cfg.sandbox.dataplane.default_allow,
        allow_cidrs: cfg.sandbox.dataplane.allow_cidrs.deep_view(),
        allow_ports: cfg.sandbox.dataplane.allow_ports.deep_view(),
        sample_rate: cfg.sandbox.dataplane.sample_rate,
    }
}

/// The policy of a node for VMs that have none of their own.
pub fn default_policy(cfg: &Config) -> (r: VmNetworkPolicy)
    ensures
        r@ == node_policy(*cfg),
{
    let dp = &cfg.sandbox.dataplane;
    VmNetworkPolicy {
        default_allow: dp.default_allow,
        allow_cidrs: line::copy_all(&dp.allow_cidrs),
        allow_ports: line::copy_all(&dp.allow_ports),
        sample_rate: dp.sample_rate,
    }
}

/// What a port rule names: a protocol and a port. The case of the protocol and white space round
/// either do not matter.
pub open spec fn port_rule(raw: Seq<char>) -> Result<(Seq<char>, u16), PortError> {
    match text::cut(raw, '/') {
        None => Err(PortError::NoSlash),
        Some((proto, port)) => {
            let name = text::lowered(text::trimmed(proto));
            if name != "tcp"@ && name != "udp"@ {
                Err(PortError::BadProtocol)
            } else {
                match number::unsigned(text::trimmed(port), 0xffff) {
                    None => Err(PortError::BadPort),
                    Some(n) => if n == 0 {
                        Err(PortError::ZeroPort)
                    } else {
                        Ok((name, n as u16))
                    },
                }
            }
        },
    }
}

/// Reads a port rule.
pub fn parse_nft_port_rule(raw: &str) -> (r: Result<(&'static str, u16), PortError>)
    ensures
        match r {
            Ok((proto, port)) => port_rule(raw@) == Ok::<(Seq<char>, u16), PortError>(
                (proto@, port),
            ),
            Err(e) => port_rule(raw@) == Err::<(Seq<char>, u16), PortError>(e),
        },
{
    let (proto, port) = match text::split_once(raw, '/') {
        Some(parts) => parts,
        None => {
            return Err(PortError::NoSlash);
        },
    };
    let lower = text::lower(text::trim(proto));
    let name: &'static str = if text::same(lower.as_str(), "tcp") {
        "tcp"
    } else if text::same(lower.as_str(), "udp") {
        "udp"
    } else {
        return Err(PortError::BadProtocol);
    };
    match number::parse_unsigned(text::trim(port), 0xffff) {
        None => Err(PortError::BadPort),
        Some(n) => if n == 0 {
            Err(PortError::ZeroPort)
        } else {
            Ok((name, n as u16))
        },
    }
}

/// What is wrong with a text that is no port rule, in words. Of a malformed port there is nothing
/// to add to the refusal itself.
pub open spec fn port_complaint(raw: Seq<char>) -> Seq<char> {
    match (text::cut(raw, '/'), port_rule(raw)) {
        (None, _) => "port rule "@ + text::quoted(raw) + " must be tcp/PORT or udp/PORT"@,
        (Some((proto, _)), Err(PortError::BadProtocol)) => "unsupported L4 protocol "@
            + text::quoted(text::lowered(text::trimmed(proto))) + "; use tcp or udp"@,
        (_, Err(PortError::ZeroPort)) => "port must be 1..65535"@,
        _ => Seq::empty(),
    }
}

/// Tells what is wrong with a text that is no port rule.
fn explain_port(raw: &str, e: PortError) -> (r: String)
    requires
        port_rule(raw@) == Err::<(Seq<char>, u16), PortError>(e),
    ensures
        r@ == port_complaint(raw@),
{
    let proto = match text::split_once(raw, '/') {
        Some((proto, _)) => proto,
        None => {
            return "port rule ".to_owned().concat(text::quote(raw).as_str()).concat(
                " must be tcp/PORT or udp/PORT",
            );
        },
    };
    match e {
        PortError::BadProtocol => {
            let name = text::lower(text::trim(proto));
            "unsupported L4 protocol ".to_owned().concat(
                text::quote(name.as_str()).as_str(),
            ).concat("; use tcp or udp")
        },
        PortError::ZeroPort => "port must be 1..65535".to_owned(),
        PortError::NoSlash | PortError::BadPort => String::new(),
    }
}

/// The first network of a list that is none, as the reason to refuse the list.
pub open spec fn bad_net(raws: Seq<Seq<char>>) -> Option<step::RejectionView>
    decreases raws.len(),
{
    if raws.len() == 0 {
        None
    } else {
        match cidr::parsed(raws[0]) {
            Err(e) => Some(
                step::RejectionView { reason: Refusal::Cidr(e), words: cidr::complaint(raws[0]) },
            ),
            Ok(_) => bad_net(raws.skip(1)),
        }
    }
}

/// The first port rule of a list that is none, as the reason to refuse the list.
pub open spec fn bad_port(raws: Seq<Seq<char>>) -> Option<step::RejectionView>
    decreases raws.len(),
{
    if raws.len() == 0 {
        None
    } else {
        match port_rule(raws[0]) {
            Err(e) => Some(
                step::RejectionView { reason: Refusal::Port(e), words: port_complaint(raws[0]) },
            ),
            Ok(_) => bad_port(raws.skip(1)),
        }
    }
}

/// What is wrong with a policy, if anything: every network has to be one, and every port rule.
pub open spec fn flaw(policy: PolicyView) -> Option<step::RejectionView> {
    match bad_net(policy.allow_cidrs) {
        Some(e) => Some(e),
        None => bad_port(policy.allow_ports),
    }
}

/// Checks a policy.
pub fn validate_policy(policy: &VmNetworkPolicy) -> (r: Result<(), Rejection>)
    ensures
        match r {
            Err(e) => flaw(policy@) == Some(e@),
            Ok(()) => flaw(policy@) is None,
        },
{
    let ghost nets = policy@.allow_cidrs;
    let mut i: usize = 0;
    assert(nets.skip(0) =~= nets);
    while i < policy.allow_cidrs.len()
        invariant
            i <= policy.allow_cidrs.len(),
            nets == policy.allow_cidrs.deep_view(),
            nets == policy@.allow_cidrs,
            bad_net(nets) == bad_net(nets.skip(i as int)),
        decreases policy.allow_cidrs.len() - i,
    {
        assert(nets.skip(i as int)[0] == policy.allow_cidrs@[i as int]@);
        if let Err(e) = cidr::parse_ipv4_cidr(policy.allow_cidrs[i].as_str()) {
            let words = cidr::explain(policy.allow_cidrs[i].as_str());
            return Err(Rejection { reason: Refusal::Cidr(e), words });
        }
        assert(nets.skip(i as int).skip(1) =~= nets.skip(i + 1));
        i += 1;
    }
    assert(bad_net(nets) is None);
    match name_ports(&policy.allow_ports) {
        Err(e) => Err(e),
        Ok(_) => Ok(()),
    }
}

/// The protocols and ports that rules name.
pub open spec fn named_ports(raws: Seq<Seq<char>>) -> Seq<(Seq<char>, u16)> {
    raws.map_values(|raw: Seq<char>| port_rule(raw)->Ok_0)
}

/// Reads several port rules.
fn name_ports(list: &Vec<String>) -> (r: Result<Vec<PortRule>, Rejection>)
    ensures
        match r {
            Err(e) => bad_port(list.deep_view()) == Some(e@),
            Ok(named) => bad_port(list.deep_view()) is None && step::rules(named@) == named_ports(
                list.deep_view(),
            ),
        },
{
    let ghost ports = list.deep_view();
    let mut named: Vec<PortRule> = Vec::new();
    let mut k: usize = 0;
    assert(ports.skip(0) =~= ports);
    assert(step::rules(named@) =~= named_ports(ports.take(0)));
    while k < list.len()
        invariant
            k <= list.len(),
            ports == list.deep_view(),
            step::rules(named@) == named_ports(ports.take(k as int)),
            bad_port(ports) == bad_port(ports.skip(k as int)),
        decreases list.len() - k,
    {
        let raw = list[k].as_str();
        assert(ports.skip(k as int)[0] == raw@);
        match parse_nft_port_rule(raw) {
            Err(e) => {
                let words = explain_port(raw, e);
                return Err(Rejection { reason: Refusal::Port(e), words });
            },
            Ok((proto, port)) => {
                let rule = PortRule { proto: proto.to_owned(), port };
                let ghost before = step::rules(named@);
                named.push(rule);
                assert(step::rules(named@) =~= before.push(rule@));
                assert(named_ports(ports.take(k + 1)) =~= named_ports(ports.take(k as int)).push(
                    rule@,
                ));
            },
        }
        assert(ports.skip(k as int).skip(1) =~= ports.skip(k + 1));
        k += 1;
    }
    assert(bad_port(ports) is None);
    assert(ports.take(list.len() as int) =~= ports);
    Ok(named)
}

// ---------------------------------------------------------------------------------------------
// Where policies are kept
// ---------------------------------------------------------------------------------------------

/// The directory of the policies of a node.
pub open spec fn policy_dir(cfg: Config) -> Seq<char> {
    path::joined(cfg.state_dir@, "network-policy"@)
}

/// The file of the policy of a VM.
pub open spec fn policy_file(cfg: Config, id: VmId) -> Seq<char> {
    path::joined(policy_dir(cfg), vmid::hyphenated(id) + ".json"@)
}

/// The file that a policy is written to before it takes the place of the earlier one.
pub open spec fn draft_file(cfg: Config, id: VmId) -> Seq<char> {
    path::joined(policy_dir(cfg), vmid::hyphenated(id) + ".json.tmp"@)
}

/// The file of the policy of a VM.
pub fn policy_path(cfg: &Config, id: VmId) -> (r: String)
    ensures
        r@ == policy_file(*cfg, id),
{
    let dir = path::join(cfg.state_dir.as_str(), "network-policy");
    let name = vmid::hyphenated_text(id).concat(".json");
    path::join(dir.as_str(), name.as_str())
}

/// What the file of a policy turned out to hold.
#[derive(Debug, PartialEq, Eq)]
pub enum Stored {
    /// There is no file.
    Absent,
    /// The file could not be read.
    Unreadable(String),
    /// The file holds no policy.
    Malformed(String),
    /// The file holds a policy.
    Held(VmNetworkPolicy),
}

/// What a [`Stored`] is.
pub enum StoredView {
    Absent,
    Unreadable(Seq<char>),
    Malformed(Seq<char>),
    Held(PolicyView),
}

impl View for Stored {
    type V = StoredView;

    open spec fn view(&self) -> StoredView {
        match *self {
            Stored::Absent => StoredView::Absent,
            Stored::Unreadable(e) => StoredView::Unreadable(e@),
            Stored::Malformed(e) => StoredView::Malformed(e@),
            Stored::Held(p) => StoredView::Held(p@),
        }
    }
}

/// Why there is no telling what the policy of a VM is.
#[derive(Debug, PartialEq, Eq)]
pub enum PolicyError {
    /// Its file could not be read.
    Unreadable(String),
    /// Its file holds no policy.
    Malformed(String),
    /// The policy is none that can be brought onto the host.
    Invalid(Rejection),
}

/// What a [`PolicyError`] is.
pub enum PolicyErrorView {
    Unreadable(Seq<char>),
    Malformed(Seq<char>),
    Invalid(step::RejectionView),
}

impl View for PolicyError {
    type V = PolicyErrorView;

    open spec fn view(&self) -> PolicyErrorView {
        match *self {
            PolicyError::Unreadable(e) => PolicyErrorView::Unreadable(e@),
            PolicyError::Malformed(e) => PolicyErrorView::Malformed(e@),
            PolicyError::Invalid(e) => PolicyErrorView::Invalid(e@),
        }
    }
}

/// The policy of its own that a VM has, from what its file holds.
pub open spec fn loaded(stored: StoredView) -> Result<Option<PolicyView>, PolicyErrorView> {
    match stored {
        StoredView::Absent => Ok(None),
        StoredView::Unreadable(e) => Err(PolicyErrorView::Unreadable(e)),
        StoredView::Malformed(e) => Err(PolicyErrorView::Malformed(e)),
        StoredView::Held(p) => match flaw(p) {
            Some(e) => Err(PolicyErrorView::Invalid(e)),
            None => Ok(Some(p)),
        },
    }
}

/// The policy of its own that a VM has.
pub fn load_policy(stored: Stored) -> (r: Result<Option<VmNetworkPolicy>, PolicyError>)
    ensures
        match r {
            Ok(Some(p)) => loaded(stored@) == Ok::<Option<PolicyView>, PolicyErrorView>(Some(p@)),
            Ok(None) => loaded(stored@) == Ok::<Option<PolicyView>, PolicyErrorView>(None),
            Err(e) => loaded(stored@) == Err::<Option<PolicyView>, PolicyErrorView>(e@),
        },
{
    match stored {
        Stored::Absent => Ok(None),
        Stored::Unreadable(e) => Err(PolicyError::Unreadable(e)),
        Stored::Malformed(e) => Err(PolicyError::Malformed(e)),
        Stored::Held(p) => match validate_policy(&p) {
            Err(e) => Err(PolicyError::Invalid(e)),
            Ok(()) => Ok(Some(p)),
        },
    }
}

/// The policy that counts for a VM: its own, or else that of the node.
pub open spec fn effective(cfg: Config, stored: StoredView) -> Result<
    PolicyView,
    PolicyErrorView,
> {
    match loaded(stored) {
        Ok(Some(p)) => Ok(p),
        Ok(None) => Ok(node_policy(cfg)),
        Err(e) => Err(e),
    }
}

/// The policy that counts for a VM.
pub fn effective_policy(cfg: &Config, stored: Stored) -> (r: Result<VmNetworkPolicy, PolicyError>)
    ensures
        match r {
            Ok(p) => effective(*cfg, stored@) == Ok::<PolicyView, PolicyErrorView>(p@),
            Err(e) => effective(*cfg, stored@) == Err::<PolicyView, PolicyErrorView>(e@),
        },
{
    match load_policy(stored) {
        Ok(Some(p)) => Ok(p),
        Ok(None) => Ok(default_policy(cfg)),
        Err(e) => Err(e),
    }
}

/// Keeping a policy, in the form in which it is written: it is drafted next to its file, and
/// takes the place of the file only once it is complete.
pub open spec fn saving(cfg: Config, id: VmId, written: Seq<char>) -> Seq<step::StepView> {
    let draft = draft_file(cfg, id);
    let file = policy_file(cfg, id);
    Seq::<step::StepView>::empty().push(
        step::must_view(
            step::ActionView::MakeDirs { path: policy_dir(cfg) },
            "creating network policy directory "@ + policy_dir(cfg),
        ),
    ).push(
        step::must_view(
            step::ActionView::Write { path: draft, text: written },
            "writing temporary network policy "@ + draft,
        ),
    ).push(
        step::must_view(
            step::ActionView::Rename { from: draft, to: file },
            "committing network policy "@ + file,
        ),
    )
}

/// Keeps a policy, in the form in which it is written. A policy with a flaw is refused before
/// anything is touched.
pub fn save_policy(cfg: &Config, id: VmId, policy: &VmNetworkPolicy, written: &str) -> (r: Result<
    Job,
    Rejection,
>)
    ensures
        match r {
            Err(e) => flaw(policy@) == Some(e@),
            Ok(job) => flaw(policy@) is None && job@ == job::fresh(
                saving(*cfg, id, written@),
                Seq::empty(),
            ),
        },
{
    if let Err(e) = validate_policy(policy) {
        return Err(e);
    }
    let dir = path::join(cfg.state_dir.as_str(), "network-policy");
    let file = policy_path(cfg, id);
    let draft_name = vmid::hyphenated_text(id).concat(".json.tmp");
    let draft = path::join(dir.as_str(), draft_name.as_str());
    let mut steps = step::no_steps();
    let context = "creating network policy directory ".to_owned().concat(dir.as_str());
    step::add_step(&mut steps, step::must(step::make_dirs(dir.as_str()), context.as_str()));
    let context = "writing temporary network policy ".to_owned().concat(draft.as_str());
    step::add_step(&mut steps, step::must(step::write(draft.as_str(), written), context.as_str()));
    let context = "committing network policy ".to_owned().concat(file.as_str());
    step::add_step(
        &mut steps,
        step::must(Action::Rename { from: draft, to: file }, context.as_str()),
    );
    Ok(Job::new(steps))
}

/// Forgetting the policy of a VM. One that is not there is forgotten already.
pub open spec fn deletion(cfg: Config, id: VmId) -> step::StepView {
    step::must_view(
        step::ActionView::RemoveFile { path: policy_file(cfg, id) },
        "deleting network policy "@ + policy_file(cfg, id),
    ).going(Next::Skip(0), Next::Abort, Next::Skip(0))
}

/// Forgets the policy of a VM.
pub fn delete_policy(cfg: &Config, id: VmId) -> (r: Job)
    ensures
        r@ == job::fresh(Seq::<step::StepView>::empty().push(deletion(*cfg, id)), Seq::empty()),
{
    let file = policy_path(cfg, id);
    let context = "deleting network policy ".to_owned().concat(file.as_str());
    let mut steps = step::no_steps();
    step::add_step(
        &mut steps,
        step::must(Action::RemoveFile { path: file }, context.as_str()).going(
            Next::Skip(0),
            Next::Abort,
            Next::Skip(0),
        ),
    );
    Job::new(steps)
}

// ---------------------------------------------------------------------------------------------
// nftables
// ---------------------------------------------------------------------------------------------

/// A call of `nft` that has to succeed.
pub open spec fn nft(args: Seq<Seq<char>>) -> step::StepView {
    step::needing_view(step::run_view("nft"@, args), "running nft (install nftables)"@)
}

/// Calls `nft`.
pub fn run_nft(args: line::Line) -> (r: Step)
    ensures
        r@ == nft(args@),
{
    step::needing(step::run("nft", args), "running nft (install nftables)")
}

/// The removal of a table, which may not be there.
pub open spec fn table_removal(table: Seq<char>) -> step::StepView {
    step::attempt_view(
        step::run_view(
            "nft"@,
            line::blank().push("delete"@).push("table"@).push("inet"@).push(table),
        ),
    )
}

/// Removes a table, which may not be there.
pub fn remove_nft_table(table: &str) -> (r: Step)
    ensures
        r@ == table_removal(table@),
{
    step::attempt(
        step::run("nft", line::start().w("delete").w("table").w("inet").w(table)),
    )
}

/// Setting up a table that translates the addresses of a network, in place of an earlier one.
pub open spec fn masquerading(table: Seq<char>, source: Seq<char>) -> Seq<step::StepView> {
    Seq::<step::StepView>::empty().push(table_removal(table)).push(
        nft(line::blank().push("add"@).push("table"@).push("inet"@).push(table)),
    ).push(
        nft(
            line::blank().push("add"@).push("chain"@).push("inet"@).push(table).push(
                "postrouting"@,
            ).push("{"@).push("type"@).push("nat"@).push("hook"@).push("postrouting"@).push(
                "priority"@,
            ).push("srcnat;"@).push("}"@),
        ),
    ).push(
        nft(
            line::blank().push("add"@).push("rule"@).push("inet"@).push(table).push(
                "postrouting"@,
            ).push("ip"@).push("saddr"@).push(source).push("masquerade"@),
        ),
    )
}

/// Sets up a table that translates the addresses of a network.
pub fn apply_subnet_masquerade(table: &str, source_cidr: &str) -> (r: Vec<Step>)
    ensures
        step::plan(r@) == masquerading(table@, source_cidr@),
{
    let mut steps = step::no_steps();
    step::add_step(&mut steps, remove_nft_table(table));
    step::add_step(
        &mut steps,
        run_nft(line::start().w("add").w("table").w("inet").w(table)),
    );
    step::add_step(
        &mut steps,
        run_nft(
            line::start().w("add").w("chain").w("inet").w(table).w("postrouting").w("{").w(
                "type",
            ).w("nat").w("hook").w("postrouting").w("priority").w("srcnat;").w("}"),
        ),
    );
    step::add_step(
        &mut steps,
        run_nft(
            line::start().w("add").w("rule").w("inet").w(table).w("postrouting").w("ip").w(
                "saddr",
            ).w(source_cidr).w("masquerade"),
        ),
    );
    steps
}

/// The table of a VM.
pub open spec fn vm_table(id: VmId) -> Seq<char> {
    "fluxvm_"@ + vmid::simple(id)
}

fn vm_table_name(id: VmId) -> (r: String)
    ensures
        r@ == vm_table(id),
{
    "fluxvm_".to_owned().concat(vmid::simple_text(id).as_str())
}

/// Removes the table of a VM.
pub fn remove_nftables(id: VmId) -> (r: Step)
    ensures
        r@ == table_removal(vm_table(id)),
{
    remove_nft_table(vm_table_name(id).as_str())
}

/// What a rule of the forward chain lets through.
pub enum Rule {
    /// Traffic of the VM, where a network is named to that network, and where a port rule is
    /// named to that port.
    Accept { net: Option<Seq<char>>, port: Option<Seq<char>> },
    /// Traffic that belongs to a connection that was let through.
    Established,
}

/// The call that adds a rule. A port rule that is none is refused.
pub open spec fn rule_step(table: Seq<char>, guest: Seq<char>, rule: Rule) -> step::StepView {
    let start = line::blank().push("add"@).push("rule"@).push("inet"@).push(table).push(
        "forward"@,
    );
    match rule {
        Rule::Established => nft(
            start.push("ct"@).push("state"@).push("established,related"@).push("accept"@),
        ),
        Rule::Accept { net, port } => {
            let from = start.push("ip"@).push("saddr"@).push(guest);
            let to = match net {
                Some(c) => from.push("ip"@).push("daddr"@).push(c),
                None => from,
            };
            match port {
                None => nft(to.push("accept"@)),
                Some(raw) => match port_rule(raw) {
                    Ok((proto, n)) => nft(
                        to.push(proto).push("dport"@).push(number::decimal(n as nat)).push(
                            "accept"@,
                        ),
                    ),
                    Err(e) => step::must_view(
                        step::ActionView::Refuse { reason: Refusal::Port(e) },
                        port_complaint(raw),
                    ),
                },
            }
        },
    }
}

fn accept_step(table: &str, guest: &str, net: Option<&str>, port: Option<&str>) -> (r: Step)
    ensures
        r@ == rule_step(
            table@,
            guest@,
            (Rule::Accept {
                net: match net {
                    Some(c) => Some(c@),
                    None => None,
                },
                port: match port {
                    Some(p) => Some(p@),
                    None => None,
                },
            }),
        ),
{
    let from = line::start().w("add").w("rule").w("inet").w(table).w("forward").w("ip").w(
        "saddr",
    ).w(guest);
    let to = match net {
        Some(c) => from.w("ip").w("daddr").w(c),
        None => from,
    };
    match port {
        None => run_nft(to.w("accept")),
        Some(raw) => match parse_nft_port_rule(raw) {
            Ok((proto, n)) => {
                let n = number::to_decimal(n as u64);
                run_nft(to.w(proto).w("dport").w(n.as_str()).w("accept"))
            },
            Err(e) => {
                let context = explain_port(raw, e);
                step::must(step::refuse(Refusal::Port(e)), context.as_str())
            },
        },
    }
}

/// The rules for one network and every port rule.
pub open spec fn to_net(net: Seq<char>, ports: Seq<Seq<char>>) -> Seq<Rule> {
    ports.map_values(|p: Seq<char>| Rule::Accept { net: Some(net), port: Some(p) })
}

/// The rules for every network and every port rule.
pub open spec fn to_nets(nets: Seq<Seq<char>>, ports: Seq<Seq<char>>) -> Seq<Rule>
    decreases nets.len(),
{
    if nets.len() == 0 {
        Seq::empty()
    } else {
        to_nets(nets.drop_last(), ports) + to_net(nets.last(), ports)
    }
}

/// The rules of the forward chain. Whatever stands in both allowlists has to be matched in both;
/// connections that were let through go on where there is an allowlist at all.
pub open spec fn rules(policy: PolicyView) -> Seq<Rule> {
    let nets = policy.allow_cidrs;
    let ports = policy.allow_ports;
    if nets.len() > 0 && ports.len() > 0 {
        to_nets(nets, ports).push(Rule::Established)
    } else if nets.len() > 0 {
        nets.map_values(|c: Seq<char>| Rule::Accept { net: Some(c), port: None }).push(
            Rule::Established,
        )
    } else if ports.len() > 0 {
        ports.map_values(|p: Seq<char>| Rule::Accept { net: None, port: Some(p) }).push(
            Rule::Established,
        )
    } else {
        Seq::empty()
    }
}

/// Whether a policy needs a forward chain.
pub open spec fn enforced(policy: PolicyView) -> bool {
    policy.allow_cidrs.len() > 0 || policy.allow_ports.len() > 0 || !policy.default_allow
}

/// The calls that add rules.
pub open spec fn rule_steps(table: Seq<char>, guest: Seq<char>, list: Seq<Rule>) -> Seq<
    step::StepView,
> {
    list.map_values(|r: Rule| rule_step(table, guest, r))
}

/// The forward chain, which drops what no rule lets through.
pub open spec fn forward_chain(table: Seq<char>) -> step::StepView {
    nft(
        line::blank().push("add"@).push("chain"@).push("inet"@).push(table).push("forward"@).push(
            "{"@,
        ).push("type"@).push("filter"@).push("hook"@).push("forward"@).push("priority"@).push(
            "filter;"@,
        ).push("policy"@).push("drop;"@).push("}"@),
    )
}

/// Bringing a policy onto the host with nftables.
pub open spec fn filtering(id: VmId, guest: Seq<char>, policy: PolicyView) -> Seq<
    step::StepView,
> {
    let table = vm_table(id);
    if enforced(policy) {
        masquerading(table, guest).push(forward_chain(table)) + rule_steps(
            table,
            guest,
            rules(policy),
        )
    } else {
        masquerading(table, guest)
    }
}

fn add_pairs(
    steps: &mut Vec<Step>,
    table: &str,
    guest: &str,
    net: &str,
    ports: &Vec<String>,
)
    ensures
        step::plan(final(steps)@) == step::plan(old(steps)@) + rule_steps(
            table@,
            guest@,
            to_net(net@, ports.deep_view()),
        ),
{
    let ghost before = step::plan(steps@);
    let ghost all = to_net(net@, ports.deep_view());
    let mut i: usize = 0;
    assert(before + rule_steps(table@, guest@, all.take(0)) =~= before);
    while i < ports.len()
        invariant
            i <= ports.len(),
            all == to_net(net@, ports.deep_view()),
            step::plan(steps@) == before + rule_steps(table@, guest@, all.take(i as int)),
        decreases ports.len() - i,
    {
        step::add_step(steps, accept_step(table, guest, Some(net), Some(ports[i].as_str())));
        assert(all[i as int] == (Rule::Accept { net: Some(net@), port: Some(ports@[i as int]@) }));
        assert(step::plan(steps@) =~= before + rule_steps(table@, guest@, all.take(i + 1)));
        i += 1;
    }
    assert(all.take(ports.len() as int) =~= all);
}

fn add_rules(steps: &mut Vec<Step>, table: &str, guest: &str, policy: &VmNetworkPolicy)
    ensures
        step::plan(final(steps)@) == step::plan(old(steps)@) + rule_steps(
            table@,
            guest@,
            rules(policy@),
        ),
{
    let ghost before = step::plan(steps@);
    let ghost nets = policy@.allow_cidrs;
    let ghost ports = policy@.allow_ports;
    let cidrs: &Vec<String> = &policy.allow_cidrs;
    let rules_in: &Vec<String> = &policy.allow_ports;
    let mut i: usize = 0;
    if cidrs.len() > 0 && rules_in.len() > 0 {
        assert(before + rule_steps(table@, guest@, to_nets(nets.take(0), ports)) =~= before);
        while i < cidrs.len()
            invariant
                i <= cidrs.len(),
                nets == cidrs.deep_view(),
                ports == rules_in.deep_view(),
                step::plan(steps@) == before + rule_steps(
                    table@,
                    guest@,
                    to_nets(nets.take(i as int), ports),
                ),
            decreases cidrs.len() - i,
        {
            add_pairs(steps, table, guest, cidrs[i].as_str(), rules_in);
            assert(nets.take(i + 1).drop_last() =~= nets.take(i as int));
            assert(nets.take(i + 1).last() == cidrs@[i as int]@);
            assert(step::plan(steps@) =~= before + rule_steps(
                table@,
                guest@,
                to_nets(nets.take(i + 1), ports),
            ));
            i += 1;
        }
        assert(nets.take(cidrs.len() as int) =~= nets);
    } else if cidrs.len() > 0 {
        let ghost all = nets.map_values(|c: Seq<char>| Rule::Accept { net: Some(c), port: None });
        assert(before + rule_steps(table@, guest@, all.take(0)) =~= before);
        while i < cidrs.len()
            invariant
                i <= cidrs.len(),
                nets == cidrs.deep_view(),
                all == nets.map_values(|c: Seq<char>| Rule::Accept { net: Some(c), port: None }),
                step::plan(steps@) == before + rule_steps(table@, guest@, all.take(i as int)),
            decreases cidrs.len() - i,
        {
            step::add_step(steps, accept_step(table, guest, Some(cidrs[i].as_str()), None));
            assert(step::plan(steps@) =~= before + rule_steps(table@, guest@, all.take(i + 1)));
            i += 1;
        }
        assert(all.take(cidrs.len() as int) =~= all);
    } else if rules_in.len() > 0 {
        let ghost all = ports.map_values(|p: Seq<char>| Rule::Accept { net: None, port: Some(p) });
        assert(before + rule_steps(table@, guest@, all.take(0)) =~= before);
        while i < rules_in.len()
            invariant
                i <= rules_in.len(),
                ports == rules_in.deep_view(),
                all == ports.map_values(|p: Seq<char>| Rule::Accept { net: None, port: Some(p) }),
                step::plan(steps@) == before + rule_steps(table@, guest@, all.take(i as int)),
            decreases rules_in.len() - i,
        {
            step::add_step(steps, accept_step(table, guest, None, Some(rules_in[i].as_str())));
            assert(step::plan(steps@) =~= before + rule_steps(table@, guest@, all.take(i + 1)));
            i += 1;
        }
        assert(all.take(rules_in.len() as int) =~= all);
    }
    if cidrs.len() > 0 || rules_in.len() > 0 {
        step::add_step(
            steps,
            run_nft(
                line::start().w("add").w("rule").w("inet").w(table).w("forward").w("ct").w(
                    "state",
                ).w("established,related").w("accept"),
            ),
        );
    }
    assert(step::plan(steps@) =~= before + rule_steps(table@, guest@, rules(policy@)));
}

/// Brings a policy onto the host with nftables.
pub fn apply_nftables(id: VmId, guest_cidr: &str, policy: &VmNetworkPolicy) -> (r: Vec<Step>)
    ensures
        step::plan(r@) == filtering(id, guest_cidr@, policy@),
{
    let table = vm_table_name(id);
    let table = table.as_str();
    let mut steps = apply_subnet_masquerade(table, guest_cidr);
    if policy.allow_cidrs.len() > 0 || policy.allow_ports.len() > 0 || !policy.default_allow {
        step::add_step(
            &mut steps,
            run_nft(
                line::start().w("add").w("chain").w("inet").w(table).w("forward").w("{").w(
                    "type",
                ).w("filter").w("hook").w("forward").w("priority").w("filter;").w("policy").w(
                    "drop;",
                ).w("}"),
            ),
        );
        add_rules(&mut steps, table, guest_cidr, policy);
    }
    steps
}

// ---------------------------------------------------------------------------------------------
// Bringing a policy onto the host
// ---------------------------------------------------------------------------------------------

/// A policy with further networks. Every network stands in it once, in order.
pub open spec fn extended(policy: PolicyView, extra: Seq<Seq<char>>) -> PolicyView {
    PolicyView { allow_cidrs: order::sorted_set(policy.allow_cidrs + extra), ..policy }
}

/// What the native dataplane brings onto an interface for a policy. Whatever is listed makes an
/// allowlist, whatever the action by default: what the lists do not name is denied.
pub open spec fn native_program(cfg: Config, policy: PolicyView) -> ebpf::Program {
    ebpf::Program {
        object: cfg.sandbox.dataplane.bpf_object@,
        pin_root: cfg.sandbox.dataplane.pin_root@,
        default_allow: policy.default_allow && policy.allow_cidrs.len() == 0
            && policy.allow_ports.len() == 0,
        nets: policy.allow_cidrs,
    }
}

/// Handing what a policy says besides networks to the loader: its port rules, and how much
/// allowed traffic is sampled. It comes before anything is loaded, so that a loader that cannot
/// do it leaves the interface as it is.
pub open spec fn handover(cfg: Config, policy: PolicyView, id: VmId) -> Seq<step::StepView> {
    if policy.allow_ports.len() == 0 && policy.sample_rate == 0 {
        Seq::empty()
    } else {
        Seq::<step::StepView>::empty().push(
            match bad_port(policy.allow_ports) {
                Some(e) => step::must_view(
                    step::ActionView::Refuse { reason: e.reason },
                    e.words,
                ),
                None => step::must_view(
                    step::ActionView::Configure {
                        pins: ebpf::pin_dir(cfg.sandbox.dataplane.pin_root@, id),
                        identity: ebpf::identity(id),
                        ports: named_ports(policy.allow_ports),
                        sample_rate: policy.sample_rate,
                    },
                    "configuring FluxVM TC program"@,
                ),
            },
        )
    }
}

/// Bringing a policy onto the host with the native dataplane. It needs the interface of the VM,
/// and next to Cilium it needs Cilium. The loader gets the whole policy.
pub open spec fn native(
    cfg: Config,
    policy: PolicyView,
    id: VmId,
    iface: Option<Seq<char>>,
    env: BpfEnv,
    order: ByteOrder,
) -> Seq<step::StepView> {
    let start = if cfg.sandbox.dataplane.mode == DataplaneMode::Cilium {
        cilium::requirements()
    } else {
        Seq::empty()
    };
    match iface {
        None => start.push(
            step::must_view(
                step::ActionView::Refuse { reason: Refusal::NoInterface },
                "eBPF dataplane needs a host-visible VM interface"@,
            ),
        ),
        Some(name) => start + handover(cfg, policy, id) + ebpf::application(
            native_program(cfg, policy),
            id,
            name,
            env,
            order,
        ),
    }
}

/// Bringing a policy onto the host. Where the native dataplane is wanted and not required,
/// nftables take its place if it fails.
pub open spec fn enforcement(
    cfg: Config,
    policy: PolicyView,
    id: VmId,
    iface: Option<Seq<char>>,
    guest: Seq<char>,
    env: BpfEnv,
    order: ByteOrder,
) -> job::JobView {
    if cfg.sandbox.dataplane.mode == DataplaneMode::Legacy {
        job::fresh(filtering(id, guest, policy), Seq::empty())
    } else {
        job::JobView {
            instead: if cfg.sandbox.dataplane.required {
                None
            } else {
                Some(filtering(id, guest, policy))
            },
            ..job::fresh(native(cfg, policy, id, iface, env, order), Seq::empty())
        }
    }
}

/// What an optional text is.
pub open spec fn optional(s: Option<&str>) -> Option<Seq<char>> {
    match s {
        Some(t) => Some(t@),
        None => None,
    }
}

fn handover_steps(cfg: &Config, policy: &VmNetworkPolicy, id: VmId) -> (r: Vec<Step>)
    ensures
        step::plan(r@) == handover(*cfg, policy@, id),
{
    let mut steps = step::no_steps();
    if policy.allow_ports.len() == 0 && policy.sample_rate == 0 {
        return steps;
    }
    match name_ports(&policy.allow_ports) {
        Err(e) => {
            step::add_step(&mut steps, step::must(step::refuse(e.reason), e.words.as_str()));
        },
        Ok(ports) => {
            let pins = ebpf::vm_pin_dir(cfg.sandbox.dataplane.pin_root.as_str(), id);
            step::add_step(
                &mut steps,
                step::must(
                    Action::Configure {
                        pins,
                        identity: ebpf::identity_for(id),
                        ports,
                        sample_rate: policy.sample_rate,
                    },
                    "configuring FluxVM TC program",
                ),
            );
        },
    }
    steps
}

fn native_steps(
    cfg: &Config,
    policy: &VmNetworkPolicy,
    id: VmId,
    iface: Option<&str>,
    env: &BpfEnv,
    order: ByteOrder,
) -> (r: Vec<Step>)
    ensures
        step::plan(r@) == native(*cfg, policy@, id, optional(iface), *env, order),
{
    let dp = &cfg.sandbox.dataplane;
    let mut steps = if dp.mode == DataplaneMode::Cilium {
        cilium::validate_host()
    } else {
        step::no_steps()
    };
    match iface {
        None => {
            step::add_step(
                &mut steps,
                step::must(
                    step::refuse(Refusal::NoInterface),
                    "eBPF dataplane needs a host-visible VM interface",
                ),
            );
        },
        Some(name) => {
            step::add_steps(&mut steps, handover_steps(cfg, policy, id));
            let more = ebpf::bring_up(
                dp.bpf_object.as_str(),
                dp.pin_root.as_str(),
                policy.default_allow && policy.allow_cidrs.len() == 0 && policy.allow_ports.len()
                    == 0,
                &policy.allow_cidrs,
                id,
                name,
                env,
                order,
            );
            step::add_steps(&mut steps, more);
        },
    }
    steps
}

/// Brings the policy of a VM onto the host, with further networks that are allowed.
pub fn apply_sandbox_policy(
    cfg: &Config,
    stored: Stored,
    id: VmId,
    iface: Option<&str>,
    guest_cidr: &str,
    extra_allow_cidrs: &Vec<String>,
    env: &BpfEnv,
    order: ByteOrder,
) -> (r: Result<Job, PolicyError>)
    ensures
        match r {
            Ok(job) => effective(*cfg, stored@) matches Ok(policy) && job@ == enforcement(
                *cfg,
                extended(policy, extra_allow_cidrs.deep_view()),
                id,
                optional(iface),
                guest_cidr@,
                *env,
                order,
            ),
            Err(e) => effective(*cfg, stored@) == Err::<PolicyView, PolicyErrorView>(e@),
        },
{
    let own = match effective_policy(cfg, stored) {
        Ok(policy) => policy,
        Err(e) => {
            return Err(e);
        },
    };
    let allow_cidrs = order::sort_unique(&line::join_all(&own.allow_cidrs, extra_allow_cidrs));
    let policy = VmNetworkPolicy { allow_cidrs, ..own };
    let filter = apply_nftables(id, guest_cidr, &policy);
    if cfg.sandbox.dataplane.mode == DataplaneMode::Legacy {
        return Ok(Job::new(filter));
    }
    let todo = native_steps(cfg, &policy, id, iface, env, order);
    let instead = if cfg.sandbox.dataplane.required {
        None
    } else {
        Some(filter)
    };
    Ok(Job { instead, ..Job::new(todo) })
}

/// Taking everything that belongs to the policy of a VM off the host where nobody knows the
/// configuration: its table, then what the native dataplane left.
pub open spec fn lifting(env: BpfEnv, id: VmId) -> Seq<step::StepView> {
    Seq::<step::StepView>::empty().push(table_removal(vm_table(id))) + ebpf::removal(env, id)
}

/// The same where the configuration is known: the pins below its root go too.
pub open spec fn config_lifting(cfg: Config, env: BpfEnv, id: VmId) -> Seq<step::StepView> {
    lifting(env, id) + ebpf::clear(ebpf::pin_dir(cfg.sandbox.dataplane.pin_root@, id))
}

fn lifting_steps(env: &BpfEnv, id: VmId) -> (r: Vec<Step>)
    ensures
        step::plan(r@) == lifting(*env, id),
{
    let mut steps = step::no_steps();
    step::add_step(&mut steps, remove_nftables(id));
    step::add_steps(&mut steps, ebpf::remove(env, id));
    steps
}

/// Takes the policy of a VM off the host.
pub fn remove_sandbox_policy(cfg: &Config, env: &BpfEnv, id: VmId) -> (r: Job)
    ensures
        r@ == job::fresh(config_lifting(*cfg, *env, id), Seq::empty()),
{
    let mut steps = lifting_steps(env, id);
    let dir = ebpf::vm_pin_dir(cfg.sandbox.dataplane.pin_root.as_str(), id);
    ebpf::clear_dir(&mut steps, dir.as_str());
    Job::new(steps)
}

/// Takes the policy of a VM off the host where a network is torn down by somebody who does not
/// know the configuration.
pub fn remove_sandbox_policy_best_effort(env: &BpfEnv, id: VmId) -> (r: Job)
    ensures
        r@ == job::fresh(lifting(*env, id), Seq::empty()),
{
    Job::new(lifting_steps(env, id))
}

/// Why there are no statistics.
#[derive(Debug, Clone, Copy, PartialEq, Eq, Structural)]
pub enum StatsError {
    /// Only the native dataplane counts packets.
    NotNative,
}

/// Checks that the dataplane of a node is one that counts packets and flows.
pub fn ensure_native_mode(cfg: &Config) -> (r: Result<(), StatsError>)
    ensures
        r == if cfg.sandbox.dataplane.mode == DataplaneMode::Legacy {
            Err::<(), StatsError>(StatsError::NotNative)
        } else {
            Ok::<(), StatsError>(())
        },
{
    if cfg.sandbox.dataplane.mode == DataplaneMode::Legacy {
        return Err(StatsError::NotNative);
    }
    Ok(())
}

// ---------------------------------------------------------------------------------------------
// Laws of policies
// ---------------------------------------------------------------------------------------------

/// A policy has no flaw exactly where every network is one, and every port rule.
pub proof fn law_policy_without_flaw(policy: PolicyView)
    ensures
        flaw(policy) is None <==> {
            &&& forall|i: int|
                0 <= i < policy.allow_cidrs.len() ==> cidr::parsed(
                    #[trigger] policy.allow_cidrs[i],
                ) is Ok
            &&& forall|i: int|
                0 <= i < policy.allow_ports.len() ==> port_rule(
                    #[trigger] policy.allow_ports[i],
                ) is Ok
        },
{
    lemma_bad_net(policy.allow_cidrs);
    lemma_bad_port(policy.allow_ports);
}

proof fn lemma_bad_net(raws: Seq<Seq<char>>)
    ensures
        bad_net(raws) is None <==> forall|i: int|
            0 <= i < raws.len() ==> cidr::parsed(#[trigger] raws[i]) is Ok,
    decreases raws.len(),
{
    if raws.len() > 0 {
        let rest = raws.skip(1);
        lemma_bad_net(rest);
        assert forall|i: int| 1 <= i < raws.len() implies #[trigger] raws[i] == rest[i - 1] by {}
        if bad_net(raws) is None {
            assert forall|i: int| 0 <= i < raws.len() implies cidr::parsed(#[trigger] raws[i])
                is Ok by {
                if i > 0 {
                    assert(raws[i] == rest[i - 1]);
                }
            }
        } else if cidr::parsed(raws[0]) is Ok {
            let i = choose|i: int| 0 <= i < rest.len() && cidr::parsed(#[trigger] rest[i]) is Err;
            assert(raws[i + 1] == rest[i]);
        }
    }
}

proof fn lemma_bad_port(raws: Seq<Seq<char>>)
    ensures
        bad_port(raws) is None <==> forall|i: int|
            0 <= i < raws.len() ==> port_rule(#[trigger] raws[i]) is Ok,
    decreases raws.len(),
{
    if raws.len() > 0 {
        let rest = raws.skip(1);
        lemma_bad_port(rest);
        if bad_port(raws) is None {
            assert forall|i: int| 0 <= i < raws.len() implies port_rule(#[trigger] raws[i])
                is Ok by {
                if i > 0 {
                    assert(raws[i] == rest[i - 1]);
                }
            }
        } else if port_rule(raws[0]) is Ok {
            let i = choose|i: int| 0 <= i < rest.len() && port_rule(#[trigger] rest[i]) is Err;
            assert(raws[i + 1] == rest[i]);
        }
    }
}

/// Every port of either protocol can be named.
pub proof fn law_every_port_can_be_named(port: u16, udp: bool)
    requires
        port > 0,
    ensures
        ({
            let proto = if udp {
                "udp"@
            } else {
                "tcp"@
            };
            port_rule(proto + (seq!['/'] + number::decimal(port as nat))) == Ok::<
                (Seq<char>, u16),
                PortError,
            >((proto, port))
        }),
{
    reveal_strlit("tcp");
    reveal_strlit("udp");
    let proto = if udp {
        "udp"@
    } else {
        "tcp"@
    };
    let n = number::decimal(port as nat);
    let s = proto + (seq!['/'] + n);
    text::lemma_position_is(s, '/', 3);
    assert(s.take(3) =~= proto);
    assert(s.skip(4) =~= n);
    assert(text::trimmed(proto) == proto);
    assert(text::lowered(proto) =~= proto);
    number::lemma_decimal_digits(port as nat);
    number::lemma_trim_digits(n);
    number::law_decimal_round_trip(port as nat, 0xffff);
}

/// What is kept of a policy without a flaw is what counts later, and nothing else is ever kept.
pub proof fn law_kept_policy_counts(cfg: Config, policy: PolicyView)
    ensures
        flaw(policy) is None ==> effective(cfg, StoredView::Held(policy)) == Ok::<
            PolicyView,
            PolicyErrorView,
        >(policy),
        flaw(policy) matches Some(e) ==> effective(cfg, StoredView::Held(policy)) == Err::<
            PolicyView,
            PolicyErrorView,
        >(PolicyErrorView::Invalid(e)),
        effective(cfg, StoredView::Absent) == Ok::<PolicyView, PolicyErrorView>(node_policy(cfg)),
{
}

proof fn lemma_hyphenated(id: VmId)
    ensures
        vmid::hyphenated(id).len() == 36,
        vmid::hyphenated(id)[0] != '/',
{
    number::lemma_hex_digits_len(id.bits as nat, 32);
    number::lemma_hex_digits_are_digits(id.bits as nat, 32);
    assert(vmid::hyphenated(id)[0] == vmid::simple(id)[0]);
}

/// The file of a policy is touched once, by the last step, which puts the complete draft in its
/// place.
pub proof fn law_policy_is_kept_whole(cfg: Config, id: VmId, written: Seq<char>)
    ensures
        saving(cfg, id, written).len() == 3,
        draft_file(cfg, id) != policy_file(cfg, id),
        saving(cfg, id, written)[0].action == (step::ActionView::MakeDirs {
            path: policy_dir(cfg),
        }),
        saving(cfg, id, written)[1].action == (step::ActionView::Write {
            path: draft_file(cfg, id),
            text: written,
        }),
        saving(cfg, id, written)[2].action == (step::ActionView::Rename {
            from: draft_file(cfg, id),
            to: policy_file(cfg, id),
        }),
{
    reveal_strlit(".json");
    reveal_strlit(".json.tmp");
    lemma_hyphenated(id);
    let a = vmid::hyphenated(id) + ".json"@;
    let b = vmid::hyphenated(id) + ".json.tmp"@;
    assert(a[0] == vmid::hyphenated(id)[0]);
    assert(b[0] == vmid::hyphenated(id)[0]);
    assert(draft_file(cfg, id).len() == policy_file(cfg, id).len() + 4);
}

/// The files of a host behind an action that succeeds. Only what an action does to files is
/// told.
pub open spec fn performed(
    disk: Map<Seq<char>, Seq<char>>,
    action: step::ActionView,
) -> Map<Seq<char>, Seq<char>> {
    match action {
        step::ActionView::Write { path, text } => disk.insert(path, text),
        step::ActionView::Rename { from, to } => disk.insert(to, disk[from]).remove(from),
        step::ActionView::RemoveFile { path } => disk.remove(path),
        _ => disk,
    }
}

/// A policy that is kept is there in the form in which it was written, the draft is gone, and no
/// other file has changed. Until the last step the earlier policy is there as it was. Once it is
/// deleted, the policy is gone.
pub proof fn law_policy_round_trip(
    cfg: Config,
    id: VmId,
    written: Seq<char>,
    disk: Map<Seq<char>, Seq<char>>,
    other: Seq<char>,
)
    requires
        other != policy_file(cfg, id),
        other != draft_file(cfg, id),
    ensures
        ({
            let steps = saving(cfg, id, written);
            let file = policy_file(cfg, id);
            let one = performed(disk, steps[0].action);
            let two = performed(one, steps[1].action);
            let three = performed(two, steps[2].action);
            &&& one.contains_key(file) == disk.contains_key(file) && one[file] == disk[file]
            &&& two.contains_key(file) == disk.contains_key(file) && two[file] == disk[file]
            &&& three.contains_key(file) && three[file] == written
            &&& !three.contains_key(draft_file(cfg, id))
            &&& three.contains_key(other) == disk.contains_key(other)
            &&& disk.contains_key(other) ==> three[other] == disk[other]
            &&& !performed(three, deletion(cfg, id).action).contains_key(file)
        }),
{
    law_policy_is_kept_whole(cfg, id, written);
}

/// What is found of a policy on a disk, with a way of reading what a file holds.
pub open spec fn stored_at(
    disk: Map<Seq<char>, Seq<char>>,
    file: Seq<char>,
    read: spec_fn(Seq<char>) -> StoredView,
) -> StoredView {
    if disk.contains_key(file) {
        read(disk[file])
    } else {
        StoredView::Absent
    }
}

/// The files of a host behind every step of keeping a policy.
pub open spec fn kept(
    disk: Map<Seq<char>, Seq<char>>,
    cfg: Config,
    id: VmId,
    written: Seq<char>,
) -> Map<Seq<char>, Seq<char>> {
    let steps = saving(cfg, id, written);
    performed(performed(performed(disk, steps[0].action), steps[1].action), steps[2].action)
}

proof fn lemma_no_policy_is_a_draft(cfg: Config, a: VmId, b: VmId)
    ensures
        policy_file(cfg, b) != draft_file(cfg, a),
{
    reveal_strlit(".json");
    reveal_strlit(".json.tmp");
    lemma_hyphenated(a);
    lemma_hyphenated(b);
    let x = vmid::hyphenated(b) + ".json"@;
    let y = vmid::hyphenated(a) + ".json.tmp"@;
    assert(x[0] == vmid::hyphenated(b)[0] && y[0] == vmid::hyphenated(a)[0]);
    assert(policy_file(cfg, b).last() == x.last() && x.last() == 'n');
    assert(draft_file(cfg, a).last() == y.last() && y.last() == 'p');
}

/// What was saved is what is loaded: where the written form is read back as the policy, the
/// policy that is loaded behind saving it is that policy, with every field. The policy of every
/// other VM is what it was, and behind deleting it the VM has none of its own.
pub proof fn law_saved_policy_is_loaded(
    cfg: Config,
    a: VmId,
    b: VmId,
    policy: PolicyView,
    written: Seq<char>,
    disk: Map<Seq<char>, Seq<char>>,
    read: spec_fn(Seq<char>) -> StoredView,
)
    requires
        flaw(policy) is None,
        read(written) == StoredView::Held(policy),
        a != b,
    ensures
        ({
            let now = kept(disk, cfg, a, written);
            let gone = performed(now, deletion(cfg, a).action);
            &&& loaded(stored_at(now, policy_file(cfg, a), read)) == Ok::<
                Option<PolicyView>,
                PolicyErrorView,
            >(Some(policy))
            &&& stored_at(now, policy_file(cfg, b), read) == stored_at(
                disk,
                policy_file(cfg, b),
                read,
            )
            &&& loaded(stored_at(gone, policy_file(cfg, a), read)) == Ok::<
                Option<PolicyView>,
                PolicyErrorView,
            >(None)
            &&& stored_at(gone, policy_file(cfg, b), read) == stored_at(
                disk,
                policy_file(cfg, b),
                read,
            )
        }),
{
    if policy_file(cfg, b) == policy_file(cfg, a) {
        law_policy_files_differ(cfg, a, b);
    }
    lemma_no_policy_is_a_draft(cfg, a, b);
    law_policy_round_trip(cfg, a, written, disk, policy_file(cfg, b));
}

/// Saving succeeds exactly where every one of its three steps does.
pub proof fn law_saving_takes_every_step(
    cfg: Config,
    id: VmId,
    written: Seq<char>,
    replies: Seq<step::ReplyView>,
)
    requires
        replies.len() == 3,
    ensures
        job::after(
            job::fresh(saving(cfg, id, written), Seq::empty()),
            replies,
        ).failure is None <==> forall|i: int|
            0 <= i < 3 ==> !((#[trigger] replies[i]) is Failed) && !(replies[i] is Missing),
{
    reveal_with_fuel(job::after, 4);
    let start = job::fresh(saving(cfg, id, written), Seq::empty());
    let one = job::resumed(start, replies[0]);
    let two = job::resumed(one, replies[1]);
    let steps = start.todo;
    assert(steps.skip(1).skip(0) =~= steps.skip(1));
    assert(Seq::<step::StepView>::empty() + steps.skip(1) =~= steps.skip(1));
    assert(steps.skip(1)[0] == steps[1] && steps.skip(1).skip(1) =~= steps.skip(2));
    assert(steps.skip(2).skip(0) =~= steps.skip(2));
    assert(Seq::<step::StepView>::empty() + steps.skip(2) =~= steps.skip(2));
    assert(replies.skip(1)[0] == replies[1]);
    assert(replies.skip(1).skip(1)[0] == replies[2]);
    let good = |r: step::ReplyView| !(r is Failed) && !(r is Missing);
    if good(replies[0]) {
        assert(one.todo =~= steps.skip(1));
        if good(replies[1]) {
            assert(two.todo =~= steps.skip(2));
        } else {
            job::law_first_failure_stays(two, replies.skip(2));
        }
    } else {
        job::law_first_failure_stays(one, replies.skip(1));
    }
    assert(replies.skip(1).skip(1) =~= replies.skip(2));
    assert(replies.skip(2).skip(1) =~= Seq::<step::ReplyView>::empty());
}

/// Where a step of keeping a policy fails, no further step is taken.
pub proof fn law_failed_keeping_stops(
    cfg: Config,
    id: VmId,
    written: Seq<char>,
    replies: Seq<step::ReplyView>,
    last: step::ReplyView,
)
    requires
        ({
            let start = job::fresh(saving(cfg, id, written), Seq::empty());
            &&& job::after(start, replies).failure is None
            &&& job::resumed(job::after(start, replies), last).failure is Some
        }),
    ensures
        job::resumed(
            job::after(job::fresh(saving(cfg, id, written), Seq::empty()), replies),
            last,
        ).todo.len() == 0,
{
    job::law_failed_work_stops(
        job::fresh(saving(cfg, id, written), Seq::empty()),
        replies,
        last,
    );
}

/// Different VMs have different policy files.
pub proof fn law_policy_files_differ(cfg: Config, a: VmId, b: VmId)
    requires
        policy_file(cfg, a) == policy_file(cfg, b),
    ensures
        a == b,
{
    let x = vmid::hyphenated(a);
    let y = vmid::hyphenated(b);
    lemma_hyphenated(a);
    lemma_hyphenated(b);
    let f = x + ".json"@;
    let g = y + ".json"@;
    assert(f[0] == x[0] && g[0] == y[0]);
    path::lemma_joined_injective(policy_dir(cfg), f, g);
    assert(x =~= f.take(36));
    assert(y =~= g.take(36));
    vmid::law_hyphenated_injective(a, b);
}

/// A policy that is not there is deleted already; any other failure is one.
pub proof fn law_missing_policy_is_deleted(cfg: Config, id: VmId, words: Seq<char>)
    ensures
        ({
            let start = job::fresh(
                Seq::<step::StepView>::empty().push(deletion(cfg, id)),
                Seq::empty(),
            );
            &&& job::resumed(start, step::ReplyView::Missing(words)).failure is None
            &&& job::resumed(start, step::ReplyView::Missing(words)).todo.len() == 0
            &&& job::resumed(start, step::ReplyView::Failed(words)).failure is Some
        }),
{
}

// ---------------------------------------------------------------------------------------------
// Laws of traffic
// ---------------------------------------------------------------------------------------------

/// A packet that a VM sends.
pub struct Packet {
    /// The address that it goes to.
    pub to: u32,
    /// The name of its protocol.
    pub proto: Seq<char>,
    /// The port that it goes to.
    pub port: u16,
    /// Whether it belongs to a connection that was let through.
    pub established: bool,
}

/// Whether a packet goes into a network.
pub open spec fn goes_into(net: Seq<char>, packet: Packet) -> bool {
    cidr::parsed(net) matches Ok(n) && cidr::covers(n, packet.to)
}

/// Whether a packet goes to the port that a rule names.
pub open spec fn goes_to_port(rule: Seq<char>, packet: Packet) -> bool {
    port_rule(rule) == Ok::<(Seq<char>, u16), PortError>((packet.proto, packet.port))
}

/// Whether a rule lets a packet through.
pub open spec fn lets(rule: Rule, packet: Packet) -> bool {
    match rule {
        Rule::Established => packet.established,
        Rule::Accept { net, port } => {
            &&& net matches Some(n) ==> goes_into(n, packet)
            &&& port matches Some(p) ==> goes_to_port(p, packet)
        },
    }
}

/// Whether one of several rules lets a packet through.
pub open spec fn some_lets(list: Seq<Rule>, packet: Packet) -> bool {
    exists|i: int| 0 <= i < list.len() && lets(#[trigger] list[i], packet)
}

/// Whether a packet goes into one of several networks.
pub open spec fn in_nets(nets: Seq<Seq<char>>, packet: Packet) -> bool {
    exists|i: int| 0 <= i < nets.len() && goes_into(#[trigger] nets[i], packet)
}

/// Whether a packet goes to one of several ports.
pub open spec fn at_ports(ports: Seq<Seq<char>>, packet: Packet) -> bool {
    exists|i: int| 0 <= i < ports.len() && goes_to_port(#[trigger] ports[i], packet)
}

/// Whether a packet gets through. Without a chain, everything does; with one, what a rule lets
/// through.
pub open spec fn gets_through(policy: PolicyView, packet: Packet) -> bool {
    !enforced(policy) || some_lets(rules(policy), packet)
}

proof fn lemma_pairs(nets: Seq<Seq<char>>, ports: Seq<Seq<char>>, packet: Packet)
    ensures
        some_lets(to_nets(nets, ports), packet) <==> in_nets(nets, packet) && at_ports(
            ports,
            packet,
        ),
    decreases nets.len(),
{
    if nets.len() > 0 {
        let before = nets.drop_last();
        let net = nets.last();
        let a = to_nets(before, ports);
        let b = to_net(net, ports);
        lemma_pairs(before, ports, packet);
        lemma_some_lets_add(a, b, packet);
        assert(some_lets(b, packet) <==> goes_into(net, packet) && at_ports(ports, packet)) by {
            if goes_into(net, packet) && at_ports(ports, packet) {
                let i = choose|i: int|
                    0 <= i < ports.len() && goes_to_port(#[trigger] ports[i], packet);
                assert(lets(b[i], packet));
            }
            if some_lets(b, packet) {
                let i = choose|i: int| 0 <= i < b.len() && lets(#[trigger] b[i], packet);
                assert(goes_to_port(ports[i], packet));
            }
        }
        assert(in_nets(nets, packet) <==> in_nets(before, packet) || goes_into(net, packet)) by {
            if in_nets(before, packet) {
                let i = choose|i: int|
                    0 <= i < before.len() && goes_into(#[trigger] before[i], packet);
                assert(nets[i] == before[i]);
            }
            if goes_into(net, packet) {
                assert(nets[nets.len() - 1] == net);
            }
            if in_nets(nets, packet) {
                let i = choose|i: int| 0 <= i < nets.len() && goes_into(#[trigger] nets[i], packet);
                if i < before.len() {
                    assert(before[i] == nets[i]);
                }
            }
        }
    }
}

proof fn lemma_some_lets_add(a: Seq<Rule>, b: Seq<Rule>, packet: Packet)
    ensures
        some_lets(a + b, packet) <==> some_lets(a, packet) || some_lets(b, packet),
{
    let c = a + b;
    if some_lets(a, packet) {
        let i = choose|i: int| 0 <= i < a.len() && lets(#[trigger] a[i], packet);
        assert(c[i] == a[i]);
    }
    if some_lets(b, packet) {
        let i = choose|i: int| 0 <= i < b.len() && lets(#[trigger] b[i], packet);
        assert(c[a.len() + i] == b[i]);
    }
    if some_lets(c, packet) {
        let i = choose|i: int| 0 <= i < c.len() && lets(#[trigger] c[i], packet);
        if i < a.len() {
            assert(a[i] == c[i]);
        } else {
            assert(b[i - a.len()] == c[i]);
        }
    }
}

/// Without allowlists the action by default decides. Once either has entries, a new connection
/// has to match every allowlist that has entries, whatever the action by default.
pub proof fn law_allowlists_decide(policy: PolicyView, packet: Packet)
    ensures
        gets_through(policy, packet) <==> {
            let nets = policy.allow_cidrs;
            let ports = policy.allow_ports;
            if nets.len() == 0 && ports.len() == 0 {
                policy.default_allow
            } else {
                packet.established || (nets.len() > 0 ==> in_nets(nets, packet)) && (ports.len()
                    > 0 ==> at_ports(ports, packet))
            }
        },
{
    let nets = policy.allow_cidrs;
    let ports = policy.allow_ports;
    let last = seq![Rule::Established];
    assert(some_lets(last, packet) <==> packet.established) by {
        if packet.established {
            assert(lets(last[0], packet));
        }
    }
    if nets.len() > 0 && ports.len() > 0 {
        lemma_pairs(nets, ports, packet);
        assert(rules(policy) =~= to_nets(nets, ports) + last);
        lemma_some_lets_add(to_nets(nets, ports), last, packet);
    } else if nets.len() > 0 {
        let all = nets.map_values(|c: Seq<char>| Rule::Accept { net: Some(c), port: None });
        assert(rules(policy) =~= all + last);
        lemma_some_lets_add(all, last, packet);
        if in_nets(nets, packet) {
            let i = choose|i: int| 0 <= i < nets.len() && goes_into(#[trigger] nets[i], packet);
            assert(lets(all[i], packet));
        }
        if some_lets(all, packet) {
            let i = choose|i: int| 0 <= i < all.len() && lets(#[trigger] all[i], packet);
            assert(goes_into(nets[i], packet));
        }
    } else if ports.len() > 0 {
        let all = ports.map_values(|p: Seq<char>| Rule::Accept { net: None, port: Some(p) });
        assert(rules(policy) =~= all + last);
        lemma_some_lets_add(all, last, packet);
        if at_ports(ports, packet) {
            let i = choose|i: int|
                0 <= i < ports.len() && goes_to_port(#[trigger] ports[i], packet);
            assert(lets(all[i], packet));
        }
        if some_lets(all, packet) {
            let i = choose|i: int| 0 <= i < all.len() && lets(#[trigger] all[i], packet);
            assert(goes_to_port(ports[i], packet));
        }
    }
}

/// The words of a rule behind the name of its chain.
spec fn rule_words(guest: Seq<char>, rule: Rule) -> Seq<Seq<char>> {
    match rule {
        Rule::Established => seq!["ct"@, "state"@, "established,related"@, "accept"@],
        Rule::Accept { net, port } => seq!["ip"@, "saddr"@, guest] + match net {
            Some(c) => seq!["ip"@, "daddr"@, c],
            None => Seq::empty(),
        } + match port {
            Some(raw) => match port_rule(raw) {
                Ok((proto, n)) => seq![proto, "dport"@, number::decimal(n as nat)],
                Err(_) => Seq::empty(),
            },
            None => Seq::empty(),
        } + seq!["accept"@],
    }
}

/// Whether the port rule that a rule names is one.
spec fn names_port(rule: Rule) -> bool {
    rule matches Rule::Accept { net: _, port: Some(p) } ==> port_rule(p) is Ok
}

proof fn lemma_words_differ()
    ensures
        "add"@ != "delete"@,
        "table"@ != "chain"@,
        "table"@ != "rule"@,
        "chain"@ != "rule"@,
        "forward"@ != "postrouting"@,
        "filter"@ != "nat"@,
        "saddr"@ != "daddr"@,
        "saddr"@ != "dport"@,
        "daddr"@ != "dport"@,
        "state"@ != "dport"@,
        "ip"@ != "ct"@,
{
    reveal_strlit("add");
    reveal_strlit("delete");
    reveal_strlit("table");
    reveal_strlit("chain");
    reveal_strlit("rule");
    reveal_strlit("forward");
    reveal_strlit("postrouting");
    reveal_strlit("filter");
    reveal_strlit("nat");
    reveal_strlit("saddr");
    reveal_strlit("daddr");
    reveal_strlit("dport");
    reveal_strlit("state");
    reveal_strlit("ip");
    reveal_strlit("ct");
    assert("add"@.len() != "delete"@.len());
    assert("table"@[0] == 't' && "chain"@[0] == 'c');
    assert("rule"@.len() == 4 && "table"@.len() == 5 && "chain"@.len() == 5);
    assert("forward"@.len() != "postrouting"@.len());
    assert("filter"@.len() != "nat"@.len());
    assert("saddr"@[0] == 's' && "daddr"@[0] == 'd' && "dport"@[1] == 'p' && "daddr"@[1] == 'a');
    assert("dport"@[0] == 'd' && "state"@[0] == 's');
    assert("ip"@[0] == 'i' && "ct"@[0] == 'c');
}

proof fn lemma_played_push(
    state: Option<model::Table>,
    steps: Seq<step::StepView>,
    s: step::StepView,
    table: Seq<char>,
)
    ensures
        model::played(state, steps.push(s), table) == model::after_call(
            model::played(state, steps, table),
            s.action,
            table,
        ),
{
    assert(steps.push(s).drop_last() =~= steps);
}

/// What setting up the translation of addresses leaves, whatever was there: a table that
/// translates the addresses of the source, and lets everything through.
#[verifier::spinoff_prover]
#[verifier::rlimit(50)]
pub proof fn law_source_is_masqueraded(
    state: Option<model::Table>,
    table: Seq<char>,
    source: Seq<char>,
)
    ensures
        model::masquerades(model::played(state, masquerading(table, source), table), source),
        model::played(state, masquerading(table, source), table) == Some(
            (model::Table {
                forward: false,
                drops: false,
                rules: Seq::empty(),
                translates: true,
                translations: seq![seq!["ip"@, "saddr"@, source, "masquerade"@]],
            }),
        ),
{
    lemma_words_differ();
    let all = masquerading(table, source);
    let none = Seq::<step::StepView>::empty();
    let one = none.push(all[0]);
    let two = one.push(all[1]);
    let three = two.push(all[2]);
    assert(all =~= three.push(all[3]));
    lemma_played_push(state, none, all[0], table);
    lemma_played_push(state, one, all[1], table);
    lemma_played_push(state, two, all[2], table);
    lemma_played_push(state, three, all[3], table);
    let args = model::arguments(all[3].action);
    assert(args.skip(5) =~= seq!["ip"@, "saddr"@, source, "masquerade"@]);
    let t = model::played(state, all, table)->Some_0;
    assert(t.translations =~= seq![seq!["ip"@, "saddr"@, source, "masquerade"@]]);
}

proof fn lemma_rule_is_added(
    t: model::Table,
    table: Seq<char>,
    guest: Seq<char>,
    rule: Rule,
)
    requires
        t.forward,
        names_port(rule),
    ensures
        model::after_call(Some(t), rule_step(table, guest, rule).action, table) == Some(
            (model::Table { rules: t.rules.push(rule_words(guest, rule)), ..t }),
        ),
{
    lemma_words_differ();
    let args = model::arguments(rule_step(table, guest, rule).action);
    assert(args.skip(5) =~= rule_words(guest, rule));
}

proof fn lemma_rules_are_added(
    state: Option<model::Table>,
    start: Seq<step::StepView>,
    t: model::Table,
    table: Seq<char>,
    guest: Seq<char>,
    list: Seq<Rule>,
)
    requires
        model::played(state, start, table) == Some(t),
        t.forward,
        forall|i: int| 0 <= i < list.len() ==> names_port(#[trigger] list[i]),
    ensures
        model::played(state, start + rule_steps(table, guest, list), table) == Some(
            (model::Table {
                rules: t.rules + list.map_values(|r: Rule| rule_words(guest, r)),
                ..t
            }),
        ),
    decreases list.len(),
{
    let all = rule_steps(table, guest, list);
    let words = |r: Rule| rule_words(guest, r);
    if list.len() == 0 {
        assert(start + all =~= start);
        assert(t.rules + list.map_values(words) =~= t.rules);
    } else {
        let before = list.drop_last();
        let last = list.last();
        assert forall|i: int| 0 <= i < before.len() implies names_port(#[trigger] before[i]) by {
            assert(before[i] == list[i]);
        }
        assert(names_port(list[list.len() - 1]));
        lemma_rules_are_added(state, start, t, table, guest, before);
        let sofar = start + rule_steps(table, guest, before);
        assert(start + all =~= sofar.push(rule_step(table, guest, last)));
        lemma_played_push(state, sofar, rule_step(table, guest, last), table);
        let u = model::Table { rules: t.rules + before.map_values(words), ..t };
        lemma_rule_is_added(u, table, guest, last);
        assert(u.rules.push(rule_words(guest, last)) =~= t.rules + list.map_values(words));
    }
}

proof fn lemma_words_accept(guest: Seq<char>, rule: Rule, packet: Packet)
    requires
        names_port(rule),
    ensures
        model::accepts(rule_words(guest, rule), guest, packet) <==> lets(rule, packet),
{
    lemma_words_differ();
    let verdict = seq!["accept"@];
    assert(model::accepts(verdict, guest, packet));
    match rule {
        Rule::Established => {
            let w = rule_words(guest, rule);
            assert(w.skip(3) =~= verdict);
            assert(w[0] == "ct"@ && w[1] == "state"@ && w[2] == "established,related"@);
            assert(model::accepts(w, guest, packet) <==> packet.established);
        },
        Rule::Accept { net, port } => {
            let at = match port {
                Some(raw) => match port_rule(raw) {
                    Ok((proto, n)) => seq![proto, "dport"@, number::decimal(n as nat)],
                    Err(_) => Seq::empty(),
                },
                None => Seq::empty(),
            };
            let a = at + verdict;
            if let Some(raw) = port {
                let (proto, n) = port_rule(raw)->Ok_0;
                number::law_decimal_round_trip(n as nat, 0xffff);
                assert(a.skip(3) =~= verdict);
            } else {
                assert(a =~= verdict);
            }
            assert(model::accepts(a, guest, packet) <==> (port matches Some(p) ==> goes_to_port(
                p,
                packet,
            )));
            let to = match net {
                Some(c) => seq!["ip"@, "daddr"@, c],
                None => Seq::empty(),
            };
            let b = to + a;
            if net is Some {
                assert(b.skip(3) =~= a);
            } else {
                assert(b =~= a);
            }
            let c = rule_words(guest, rule);
            assert(c.skip(3) =~= b);
            assert(c[0] == "ip"@ && c[1] == "saddr"@ && c[2] == guest);
            assert(model::accepts(b, guest, packet) <==> lets(rule, packet));
        },
    }
}

proof fn lemma_rules_pass(t: model::Table, guest: Seq<char>, list: Seq<Rule>, packet: Packet)
    requires
        t.forward,
        t.drops,
        t.rules == list.map_values(|r: Rule| rule_words(guest, r)),
        forall|i: int| 0 <= i < list.len() ==> names_port(#[trigger] list[i]),
    ensures
        model::passes(Some(t), guest, packet) <==> some_lets(list, packet),
{
    if some_lets(list, packet) {
        let i = choose|i: int| 0 <= i < list.len() && lets(#[trigger] list[i], packet);
        lemma_words_accept(guest, list[i], packet);
        assert(t.rules[i] == rule_words(guest, list[i]));
        assert(model::accepts(t.rules[i], guest, packet));
    }
    if model::passes(Some(t), guest, packet) {
        let i = choose|i: int|
            0 <= i < t.rules.len() && model::accepts(#[trigger] t.rules[i], guest, packet);
        assert(t.rules[i] == rule_words(guest, list[i]));
        lemma_words_accept(guest, list[i], packet);
        assert(lets(list[i], packet));
    }
}

/// What bringing a policy onto the host leaves behind, whatever table of the VM was there: a
/// packet of the guest gets through exactly where the allowlists say so. Without allowlists the
/// action by default decides; once either has entries, a packet gets through where it belongs to a
/// connection that was let through, or goes into a listed network, where any is listed, and to a
/// listed port, where any is listed. The address of the guest is translated in any case.
#[verifier::spinoff_prover]
#[verifier::rlimit(50)]
pub proof fn law_plan_enforces_the_allowlists(
    state: Option<model::Table>,
    id: VmId,
    guest: Seq<char>,
    policy: PolicyView,
    packet: Packet,
)
    requires
        flaw(policy) is None,
    ensures
        ({
            let left = model::played(state, filtering(id, guest, policy), vm_table(id));
            let nets = policy.allow_cidrs;
            let ports = policy.allow_ports;
            &&& model::masquerades(left, guest)
            &&& model::passes(left, guest, packet) <==> if nets.len() == 0 && ports.len() == 0 {
                policy.default_allow
            } else {
                packet.established || (nets.len() > 0 ==> in_nets(nets, packet)) && (ports.len()
                    > 0 ==> at_ports(ports, packet))
            }
        }),
{
    let table = vm_table(id);
    let start = masquerading(table, guest);
    let list = rules(policy);
    law_source_is_masqueraded(state, table, guest);
    law_allowlists_decide(policy, packet);
    if enforced(policy) {
        lemma_words_differ();
        let chain = forward_chain(table);
        lemma_played_push(state, start, chain, table);
        let t = model::played(state, start.push(chain), table)->Some_0;
        assert(t.forward && t.drops && t.rules.len() == 0);
        assert forall|i: int| 0 <= i < list.len() implies names_port(#[trigger] list[i]) by {
            let k = start.len() + 1 + i;
            law_policy_without_flaw_is_not_refused(id, guest, policy, k as int);
            assert(filtering(id, guest, policy)[k as int] == rule_step(table, guest, list[i]));
        }
        lemma_rules_are_added(state, start.push(chain), t, table, guest, list);
        let words = list.map_values(|r: Rule| rule_words(guest, r));
        assert(t.rules + words =~= words);
        let left = model::played(state, filtering(id, guest, policy), table);
        assert(left == Some((model::Table { rules: words, ..t })));
        lemma_rules_pass(left->Some_0, guest, list, packet);
        assert(model::passes(left, guest, packet) <==> some_lets(list, packet));
        assert(model::masquerades(left, guest));
    } else {
        assert(model::passes(
            model::played(state, filtering(id, guest, policy), table),
            guest,
            packet,
        ));
    }
}

/// Whether a rule names no port rule but those of a list.
spec fn names_only(rule: Rule, ports: Seq<Seq<char>>) -> bool {
    rule matches Rule::Accept { net: _, port: Some(p) } ==> ports.contains(p)
}

proof fn lemma_pairs_name_only(nets: Seq<Seq<char>>, ports: Seq<Seq<char>>)
    ensures
        forall|i: int|
            0 <= i < to_nets(nets, ports).len() ==> names_only(
                #[trigger] to_nets(nets, ports)[i],
                ports,
            ),
    decreases nets.len(),
{
    if nets.len() > 0 {
        lemma_pairs_name_only(nets.drop_last(), ports);
        let a = to_nets(nets.drop_last(), ports);
        let b = to_net(nets.last(), ports);
        assert forall|i: int| 0 <= i < to_nets(nets, ports).len() implies names_only(
            #[trigger] to_nets(nets, ports)[i],
            ports,
        ) by {
            if i < a.len() {
                assert(to_nets(nets, ports)[i] == a[i]);
            } else {
                assert(to_nets(nets, ports)[i] == b[i - a.len()]);
                assert(ports.contains(ports[i - a.len()]));
            }
        }
    }
}

/// A policy without a flaw is never refused while it is brought onto the host with nftables.
pub proof fn law_policy_without_flaw_is_not_refused(
    id: VmId,
    guest: Seq<char>,
    policy: PolicyView,
    i: int,
)
    requires
        flaw(policy) is None,
        0 <= i < filtering(id, guest, policy).len(),
    ensures
        filtering(id, guest, policy)[i].action !is Refuse,
{
    let table = vm_table(id);
    let ports = policy.allow_ports;
    let list = rules(policy);
    law_policy_without_flaw(policy);
    lemma_pairs_name_only(policy.allow_cidrs, ports);
    let start = masquerading(table, guest).len() + 1;
    if i >= start {
        let rule = list[i - start];
        assert(filtering(id, guest, policy)[i] == rule_step(table, guest, rule));
        assert(names_only(rule, ports)) by {
            if policy.allow_cidrs.len() == 0 && i - start < ports.len() {
                assert(ports.contains(ports[i - start]));
            }
        }
        if let Rule::Accept { net: _, port: Some(p) } = rule {
            let k = choose|k: int| 0 <= k < ports.len() && ports[k] == p;
            assert(port_rule(ports[k]) is Ok);
        }
    }
}

proof fn lemma_pair_is_there(nets: Seq<Seq<char>>, ports: Seq<Seq<char>>, i: int, j: int)
    requires
        0 <= i < nets.len(),
        0 <= j < ports.len(),
    ensures
        to_nets(nets, ports).contains(Rule::Accept { net: Some(nets[i]), port: Some(ports[j]) }),
    decreases nets.len(),
{
    let a = to_nets(nets.drop_last(), ports);
    let b = to_net(nets.last(), ports);
    let rule = Rule::Accept { net: Some(nets[i]), port: Some(ports[j]) };
    if i < nets.len() - 1 {
        lemma_pair_is_there(nets.drop_last(), ports, i, j);
        assert(nets.drop_last()[i] == nets[i]);
        let k = choose|k: int| 0 <= k < a.len() && a[k] == rule;
        assert((a + b)[k] == rule);
    } else {
        assert(b[j] == rule);
        assert((a + b)[a.len() + j] == rule);
    }
}

/// Every network and every port that are allowed together have a call of their own, behind the
/// chain that drops what no rule accepts.
#[verifier::spinoff_prover]
#[verifier::rlimit(50)]
pub proof fn law_every_pair_has_its_call(
    id: VmId,
    guest: Seq<char>,
    policy: PolicyView,
    i: int,
    j: int,
)
    requires
        0 <= i < policy.allow_cidrs.len(),
        0 <= j < policy.allow_ports.len(),
    ensures
        ({
            let steps = filtering(id, guest, policy);
            exists|c: int, k: int|
                #![trigger steps[c], steps[k]]
                0 <= c < k < steps.len() && model::runs(steps[c].action, "nft"@)
                    && model::arguments(steps[c].action) == seq![
                    "add"@,
                    "chain"@,
                    "inet"@,
                    vm_table(id),
                    "forward"@,
                    "{"@,
                    "type"@,
                    "filter"@,
                    "hook"@,
                    "forward"@,
                    "priority"@,
                    "filter;"@,
                    "policy"@,
                    "drop;"@,
                    "}"@,
                ] && match port_rule(policy.allow_ports[j]) {
                    Ok((proto, n)) => model::runs(steps[k].action, "nft"@) && model::arguments(
                        steps[k].action,
                    ) == seq![
                        "add"@,
                        "rule"@,
                        "inet"@,
                        vm_table(id),
                        "forward"@,
                        "ip"@,
                        "saddr"@,
                        guest,
                        "ip"@,
                        "daddr"@,
                        policy.allow_cidrs[i],
                        proto,
                        "dport"@,
                        number::decimal(n as nat),
                        "accept"@,
                    ],
                    Err(e) => steps[k].action == (step::ActionView::Refuse {
                        reason: Refusal::Port(e),
                    }),
                }
        }),
{
    let steps = filtering(id, guest, policy);
    let table = vm_table(id);
    let list = rules(policy);
    let rule = Rule::Accept {
        net: Some(policy.allow_cidrs[i]),
        port: Some(policy.allow_ports[j]),
    };
    let pairs = to_nets(policy.allow_cidrs, policy.allow_ports);
    lemma_pair_is_there(policy.allow_cidrs, policy.allow_ports, i, j);
    let m = choose|m: int| 0 <= m < pairs.len() && pairs[m] == rule;
    assert(list[m] == rule);
    let c = masquerading(table, guest).len() as int;
    let k = c + 1 + m;
    assert(steps[c] == forward_chain(table));
    assert(model::arguments(steps[c].action) =~= seq![
        "add"@,
        "chain"@,
        "inet"@,
        vm_table(id),
        "forward"@,
        "{"@,
        "type"@,
        "filter"@,
        "hook"@,
        "forward"@,
        "priority"@,
        "filter;"@,
        "policy"@,
        "drop;"@,
        "}"@,
    ]);
    assert(steps[k] == rule_step(table, guest, rule));
    if let Ok((proto, n)) = port_rule(policy.allow_ports[j]) {
        assert(model::arguments(steps[k].action) =~= seq![
            "add"@,
            "rule"@,
            "inet"@,
            vm_table(id),
            "forward"@,
            "ip"@,
            "saddr"@,
            guest,
            "ip"@,
            "daddr"@,
            policy.allow_cidrs[i],
            proto,
            "dport"@,
            number::decimal(n as nat),
            "accept"@,
        ]);
    }
}

/// A port rule is a protocol and a port with a slash between them, the first one where there are
/// several. It is one exactly where the protocol is TCP or UDP, in any case, and the port a
/// decimal number from 1 to 65535.
pub proof fn law_port_rule_is_read(raw: Seq<char>, i: int)
    requires
        0 <= i < raw.len(),
        raw[i] == '/',
        forall|j: int| 0 <= j < i ==> raw[j] != '/',
    ensures
        ({
            let proto = text::lowered(text::trimmed(raw.take(i)));
            let port = number::unsigned(text::trimmed(raw.skip(i + 1)), 65535);
            &&& port_rule(raw) is Ok <==> (proto == "tcp"@ || proto == "udp"@) && port is Some
                && port != Some(0nat)
            &&& port_rule(raw) matches Ok((p, n)) ==> p == proto && port == Some(n as nat)
            &&& port_rule(raw) == Err::<(Seq<char>, u16), PortError>(PortError::BadProtocol) <==>
                proto != "tcp"@ && proto != "udp"@
            &&& port_rule(raw) == Err::<(Seq<char>, u16), PortError>(PortError::ZeroPort) <==> (
            proto == "tcp"@ || proto == "udp"@) && port == Some(0nat)
        }),
{
    text::lemma_position_is(raw, '/', i);
}

/// A text without a slash is no port rule.
pub proof fn law_port_rule_needs_a_slash(raw: Seq<char>)
    ensures
        port_rule(raw) == Err::<(Seq<char>, u16), PortError>(PortError::NoSlash) <==> forall|j: int|
            0 <= j < raw.len() ==> raw[j] != '/',
{
    text::lemma_position(raw, '/');
}

/// The flaw that a policy is refused for is that of its first network that is none, or else that
/// of its first port rule that is none.
pub proof fn law_first_flaw_is_told(policy: PolicyView)
    ensures
        flaw(policy) matches Some(e) ==> {
            let nets = policy.allow_cidrs;
            let ports = policy.allow_ports;
            ||| exists|i: int|
                0 <= i < nets.len() && (cidr::parsed(#[trigger] nets[i]) matches Err(c) && e.reason
                    == Refusal::Cidr(c)) && forall|j: int|
                    0 <= j < i ==> cidr::parsed(#[trigger] nets[j]) is Ok
            ||| (forall|j: int| 0 <= j < nets.len() ==> cidr::parsed(#[trigger] nets[j]) is Ok)
                && exists|i: int|
                0 <= i < ports.len() && (port_rule(#[trigger] ports[i]) matches Err(c) && e.reason
                    == Refusal::Port(c)) && forall|j: int|
                    0 <= j < i ==> port_rule(#[trigger] ports[j]) is Ok
        },
{
    lemma_bad_net(policy.allow_cidrs);
    lemma_first_bad_net(policy.allow_cidrs);
    lemma_first_bad_port(policy.allow_ports);
}

proof fn lemma_first_bad_net(raws: Seq<Seq<char>>)
    ensures
        bad_net(raws) matches Some(e) ==> exists|i: int|
            0 <= i < raws.len() && (cidr::parsed(#[trigger] raws[i]) matches Err(c) && e.reason
                == Refusal::Cidr(c)) && forall|j: int|
                0 <= j < i ==> cidr::parsed(#[trigger] raws[j]) is Ok,
    decreases raws.len(),
{
    if raws.len() > 0 && bad_net(raws) is Some {
        let rest = raws.skip(1);
        if cidr::parsed(raws[0]) is Ok {
            lemma_first_bad_net(rest);
            let e = bad_net(raws)->Some_0;
            let i = choose|i: int|
                0 <= i < rest.len() && (cidr::parsed(#[trigger] rest[i]) matches Err(c) && e.reason
                    == Refusal::Cidr(c)) && forall|j: int|
                    0 <= j < i ==> cidr::parsed(#[trigger] rest[j]) is Ok;
            assert(raws[i + 1] == rest[i]);
            assert forall|j: int| 0 <= j < i + 1 implies cidr::parsed(#[trigger] raws[j]) is Ok by {
                if j > 0 {
                    assert(raws[j] == rest[j - 1]);
                }
            }
        }
    }
}

proof fn lemma_first_bad_port(raws: Seq<Seq<char>>)
    ensures
        bad_port(raws) matches Some(e) ==> exists|i: int|
            0 <= i < raws.len() && (port_rule(#[trigger] raws[i]) matches Err(c) && e.reason
                == Refusal::Port(c)) && forall|j: int|
                0 <= j < i ==> port_rule(#[trigger] raws[j]) is Ok,
    decreases raws.len(),
{
    if raws.len() > 0 && bad_port(raws) is Some {
        let rest = raws.skip(1);
        if port_rule(raws[0]) is Ok {
            lemma_first_bad_port(rest);
            let e = bad_port(raws)->Some_0;
            let i = choose|i: int|
                0 <= i < rest.len() && (port_rule(#[trigger] rest[i]) matches Err(c) && e.reason
                    == Refusal::Port(c)) && forall|j: int|
                    0 <= j < i ==> port_rule(#[trigger] rest[j]) is Ok;
            assert(raws[i + 1] == rest[i]);
            assert forall|j: int| 0 <= j < i + 1 implies port_rule(#[trigger] raws[j]) is Ok by {
                if j > 0 {
                    assert(raws[j] == rest[j - 1]);
                }
            }
        }
    }
}

/// A policy that nobody has written lets every packet through and reports nothing; that of a node
/// says what its configuration says.
pub proof fn law_policies_by_default(cfg: Config, packet: Packet, i: int)
    ensures
        gets_through(permissive(), packet),
        permissive().sample_rate == 0,
        flaw(permissive()) is None,
        node_policy(cfg).default_allow == cfg.sandbox.dataplane.default_allow,
        node_policy(cfg).sample_rate == cfg.sandbox.dataplane.sample_rate,
        node_policy(cfg).allow_cidrs.len() == cfg.sandbox.dataplane.allow_cidrs@.len(),
        node_policy(cfg).allow_ports.len() == cfg.sandbox.dataplane.allow_ports@.len(),
        0 <= i < cfg.sandbox.dataplane.allow_cidrs@.len() ==> node_policy(cfg).allow_cidrs[i]
            == cfg.sandbox.dataplane.allow_cidrs@[i]@,
        0 <= i < cfg.sandbox.dataplane.allow_ports@.len() ==> node_policy(cfg).allow_ports[i]
            == cfg.sandbox.dataplane.allow_ports@[i]@,
{
    law_policy_without_flaw(permissive());
}

/// A policy that cannot be read, or is none, is an error and not the policy of the node: nothing
/// is let through because a file is broken.
pub proof fn law_broken_policy_is_an_error(cfg: Config, stored: StoredView)
    ensures
        effective(cfg, stored) is Ok <==> match stored {
            StoredView::Absent => true,
            StoredView::Held(p) => flaw(p) is None,
            _ => false,
        },
        stored matches StoredView::Unreadable(e) ==> effective(cfg, stored) == Err::<
            PolicyView,
            PolicyErrorView,
        >(PolicyErrorView::Unreadable(e)),
        stored matches StoredView::Malformed(e) ==> effective(cfg, stored) == Err::<
            PolicyView,
            PolicyErrorView,
        >(PolicyErrorView::Malformed(e)),
        effective(cfg, stored) matches Ok(p) ==> p == match stored {
            StoredView::Held(own) => own,
            _ => node_policy(cfg),
        },
{
}

/// The port rules that the loader gets are those of the policy, each with its protocol and its
/// port, in order.
pub proof fn law_loader_gets_every_port(ports: Seq<Seq<char>>, i: int)
    requires
        0 <= i < ports.len(),
        bad_port(ports) is None,
    ensures
        named_ports(ports).len() == ports.len(),
        port_rule(ports[i]) == Ok::<(Seq<char>, u16), PortError>(named_ports(ports)[i]),
{
    lemma_bad_port(ports);
    assert(port_rule(ports[i]) is Ok);
}

/// Further networks are added to those of the policy: each stands in the result once, in order,
/// and nothing else does.
pub proof fn law_further_networks_are_added(policy: PolicyView, extra: Seq<Seq<char>>, c: Seq<char>)
    ensures
        extended(policy, extra).allow_cidrs.contains(c) <==> policy.allow_cidrs.contains(c)
            || extra.contains(c),
        order::ascending(extended(policy, extra).allow_cidrs),
        extended(policy, extra).allow_ports == policy.allow_ports,
        extended(policy, extra).default_allow == policy.default_allow,
        extended(policy, extra).sample_rate == policy.sample_rate,
{
    let all = policy.allow_cidrs + extra;
    order::law_sorted_set(all);
    if policy.allow_cidrs.contains(c) {
        let i = choose|i: int| 0 <= i < policy.allow_cidrs.len() && policy.allow_cidrs[i] == c;
        assert(all[i] == c);
    }
    if extra.contains(c) {
        let i = choose|i: int| 0 <= i < extra.len() && extra[i] == c;
        assert(all[policy.allow_cidrs.len() + i] == c);
    }
}

/// The loader of the native dataplane gets the whole policy: its networks, its port rules and its
/// sample rate, and no leave to let through by default what an allowlist does not name.
pub proof fn law_native_policy_is_whole(
    cfg: Config,
    policy: PolicyView,
    id: VmId,
    name: Seq<char>,
    env: BpfEnv,
    order: ByteOrder,
)
    requires
        flaw(policy) is None,
    ensures
        native_program(cfg, policy).nets == policy.allow_cidrs,
        native_program(cfg, policy).default_allow <==> policy.default_allow
            && policy.allow_cidrs.len() == 0 && policy.allow_ports.len() == 0,
        policy.allow_ports.len() > 0 || policy.sample_rate > 0 ==> exists|i: int|
            0 <= i < native(cfg, policy, id, Some(name), env, order).len() && (#[trigger] native(
                cfg,
                policy,
                id,
                Some(name),
                env,
                order,
            )[i]).action == (step::ActionView::Configure {
                pins: ebpf::pin_dir(cfg.sandbox.dataplane.pin_root@, id),
                identity: ebpf::identity(id),
                ports: named_ports(policy.allow_ports),
                sample_rate: policy.sample_rate,
            }),
{
    let all = native(cfg, policy, id, Some(name), env, order);
    if policy.allow_ports.len() > 0 || policy.sample_rate > 0 {
        let k: int = if cfg.sandbox.dataplane.mode == DataplaneMode::Cilium {
            3
        } else {
            0
        };
        assert(cilium::requirements().len() == 3);
        assert(all[k] == handover(cfg, policy, id)[0]);
    }
}

// ---------------------------------------------------------------------------------------------
// Laws of fallback and removal
// ---------------------------------------------------------------------------------------------

proof fn lemma_native_is_steady(
    cfg: Config,
    policy: PolicyView,
    id: VmId,
    iface: Option<Seq<char>>,
    env: BpfEnv,
    order: ByteOrder,
)
    ensures
        job::all_steady(native(cfg, policy, id, iface, env, order)),
{
    assert(job::all_steady(cilium::requirements()));
    if let Some(name) = iface {
        ebpf::lemma_application_is_steady(native_program(cfg, policy), id, name, env, order);
    }
}

/// Where the native dataplane is wanted and not required, it never makes the work fail: as soon
/// as a step of it does, the policy is brought onto the host with nftables, from the beginning.
pub proof fn law_native_failure_falls_back(
    cfg: Config,
    policy: PolicyView,
    id: VmId,
    iface: Option<Seq<char>>,
    guest: Seq<char>,
    env: BpfEnv,
    order: ByteOrder,
    replies: Seq<step::ReplyView>,
)
    requires
        cfg.sandbox.dataplane.mode != DataplaneMode::Legacy,
        !cfg.sandbox.dataplane.required,
    ensures
        ({
            let start = enforcement(cfg, policy, id, iface, guest, env, order);
            ||| job::after(start, replies).failure is None && job::after(start, replies).instead
                is Some
            ||| exists|k: int|
                0 < k <= replies.len() && #[trigger] job::after(start, replies.take(k))
                    == job::fresh(filtering(id, guest, policy), Seq::empty())
        }),
{
    let start = enforcement(cfg, policy, id, iface, guest, env, order);
    lemma_native_is_steady(cfg, policy, id, iface, env, order);
    job::law_steady_work_is_replaced(start, replies);
}

/// Where the native dataplane is required, a failure of it is a failure of the work, and nothing
/// takes its place.
pub proof fn law_required_dataplane_is_not_replaced(
    cfg: Config,
    policy: PolicyView,
    id: VmId,
    iface: Option<Seq<char>>,
    guest: Seq<char>,
    env: BpfEnv,
    order: ByteOrder,
    replies: Seq<step::ReplyView>,
    last: step::ReplyView,
)
    requires
        cfg.sandbox.dataplane.mode != DataplaneMode::Legacy,
        cfg.sandbox.dataplane.required,
        ({
            let start = enforcement(cfg, policy, id, iface, guest, env, order);
            &&& job::after(start, replies).failure is None
            &&& job::resumed(job::after(start, replies), last).failure is Some
        }),
    ensures
        job::resumed(
            job::after(enforcement(cfg, policy, id, iface, guest, env, order), replies),
            last,
        ).todo.len() == 0,
{
    let start = enforcement(cfg, policy, id, iface, guest, env, order);
    job::law_failed_work_stops(start, replies, last);
}

/// Taking a policy off the host never fails, whatever the host replies.
pub proof fn law_lifting_never_fails(
    cfg: Config,
    env: BpfEnv,
    id: VmId,
    replies: Seq<step::ReplyView>,
)
    ensures
        job::after(job::fresh(lifting(env, id), Seq::empty()), replies).failure is None,
        job::after(
            job::fresh(config_lifting(cfg, env, id), Seq::empty()),
            replies,
        ).failure is None,
{
    ebpf::lemma_removal_is_harmless(env, id);
    assert(job::all_harmless(lifting(env, id)));
    assert(job::all_harmless(config_lifting(cfg, env, id)));
    job::law_harmless_work_succeeds(job::fresh(lifting(env, id), Seq::empty()), replies);
    job::law_harmless_work_succeeds(
        job::fresh(config_lifting(cfg, env, id), Seq::empty()),
        replies,
    );
}

/// Without the native dataplane the policy is brought onto the host with nftables, and nothing
/// else is tried.
pub proof fn law_legacy_uses_nftables(
    cfg: Config,
    policy: PolicyView,
    id: VmId,
    iface: Option<Seq<char>>,
    guest: Seq<char>,
    env: BpfEnv,
    order: ByteOrder,
)
    requires
        cfg.sandbox.dataplane.mode == DataplaneMode::Legacy,
    ensures
        ({
            let work = enforcement(cfg, policy, id, iface, guest, env, order);
            &&& work.todo == filtering(id, guest, policy)
            &&& work.instead is None
            &&& work.undo.len() == 0
            &&& work.failure is None
        }),
{
}

/// What the native dataplane brings onto an interface for a policy, stated of a plan: the program
/// of the VM from the configured object, below the configured root, with leave to let through by
/// default only where the policy says so and lists nothing.
pub open spec fn native_at(
    steps: Seq<step::StepView>,
    at: (int, int, int, int),
    cfg: Config,
    policy: PolicyView,
    id: VmId,
    name: Seq<char>,
    env: BpfEnv,
    order: ByteOrder,
) -> bool {
    ebpf::attached_at(
        steps,
        at,
        (ebpf::Program {
            object: cfg.sandbox.dataplane.bpf_object@,
            pin_root: cfg.sandbox.dataplane.pin_root@,
            default_allow: policy.default_allow && policy.allow_cidrs.len() == 0
                && policy.allow_ports.len() == 0,
            nets: policy.allow_cidrs,
        }),
        id,
        name,
        env,
        order,
    )
}

/// The native dataplane brings the program of the VM onto the interface that was named.
#[verifier::spinoff_prover]
#[verifier::rlimit(50)]
pub proof fn law_native_program_is_attached(
    cfg: Config,
    policy: PolicyView,
    id: VmId,
    name: Seq<char>,
    env: BpfEnv,
    order: ByteOrder,
)
    requires
        name.len() > 0,
    ensures
        exists|at: (int, int, int, int)| #[trigger]
            native_at(
                native(cfg, policy, id, Some(name), env, order),
                at,
                cfg,
                policy,
                id,
                name,
                env,
                order,
            ),
{
    let what = native_program(cfg, policy);
    let steps = native(cfg, policy, id, Some(name), env, order);
    let all = ebpf::application(what, id, name, env, order);
    let n = steps.len() - all.len();
    ebpf::law_program_is_attached(what, id, name, env, order);
    let at = choose|at: (int, int, int, int)| #[trigger]
        ebpf::attached_at(all, at, what, id, name, env, order);
    lemma_attached_behind(steps, all, at, what, id, name, env, order);
    assert(native_at(
        steps,
        (at.0 + n, at.1 + n, at.2 + n, at.3 + n),
        cfg,
        policy,
        id,
        name,
        env,
        order,
    ));
}

proof fn lemma_attached_behind(
    steps: Seq<step::StepView>,
    all: Seq<step::StepView>,
    at: (int, int, int, int),
    what: ebpf::Program,
    id: VmId,
    name: Seq<char>,
    env: BpfEnv,
    order: ByteOrder,
)
    requires
        all.len() <= steps.len(),
        forall|k: int|
            0 <= k < all.len() ==> #[trigger] all[k] == steps[steps.len() - all.len() + k],
        ebpf::attached_at(all, at, what, id, name, env, order),
    ensures
        ({
            let n = steps.len() - all.len();
            ebpf::attached_at(
                steps,
                (at.0 + n, at.1 + n, at.2 + n, at.3 + n),
                what,
                id,
                name,
                env,
                order,
            )
        }),
{
    let n = steps.len() - all.len();
    assert(all[at.0] == steps[n + at.0]);
    assert(all[at.1] == steps[n + at.1]);
    assert(all[at.2] == steps[n + at.2]);
    assert(all[at.3] == steps[n + at.3]);
}

/// The native dataplane brings every network of the policy into the map that the program of the
/// VM was loaded with.
#[verifier::spinoff_prover]
#[verifier::rlimit(50)]
pub proof fn law_native_networks_are_entered(
    cfg: Config,
    policy: PolicyView,
    id: VmId,
    name: Seq<char>,
    env: BpfEnv,
    order: ByteOrder,
    i: int,
)
    requires
        name.len() > 0,
        0 <= i < policy.allow_cidrs.len(),
    ensures
        ebpf::settled(
            native(cfg, policy, id, Some(name), env, order),
            path::joined(
                path::joined(ebpf::pin_dir(cfg.sandbox.dataplane.pin_root@, id), "maps"@),
                "fluxvm_v4"@,
            ),
            ebpf::identity(id),
            policy.allow_cidrs[i],
            order,
        ),
{
    let what = native_program(cfg, policy);
    let all = ebpf::application(what, id, name, env, order);
    let map = path::joined(
        path::joined(ebpf::pin_dir(cfg.sandbox.dataplane.pin_root@, id), "maps"@),
        "fluxvm_v4"@,
    );
    ebpf::law_every_network_is_entered(what, id, name, env, order, i);
    lemma_settled_behind(
        native_start(cfg) + handover(cfg, policy, id),
        all,
        map,
        ebpf::identity(id),
        policy.allow_cidrs[i],
        order,
    );
}

/// What the native dataplane asks for before anything else.
spec fn native_start(cfg: Config) -> Seq<step::StepView> {
    if cfg.sandbox.dataplane.mode == DataplaneMode::Cilium {
        cilium::requirements()
    } else {
        Seq::empty()
    }
}

proof fn lemma_settled_behind(
    front: Seq<step::StepView>,
    all: Seq<step::StepView>,
    map: Seq<char>,
    identity: u32,
    raw: Seq<char>,
    order: ByteOrder,
)
    requires
        ebpf::settled(all, map, identity, raw, order),
    ensures
        ebpf::settled(front + all, map, identity, raw, order),
{
    let k = choose|k: int|
        0 <= k < all.len() && ebpf::settles(#[trigger] all[k], map, identity, raw, order)
            && all[k].on_failure == Next::Abort;
    assert((front + all)[front.len() + k] == all[k]);
}

/// The native dataplane needs an interface, and next to Cilium it asks for Cilium before anything
/// else.
#[verifier::spinoff_prover]
#[verifier::rlimit(50)]
pub proof fn law_native_dataplane_has_needs(
    cfg: Config,
    policy: PolicyView,
    id: VmId,
    iface: Option<Seq<char>>,
    env: BpfEnv,
    order: ByteOrder,
)
    ensures
        iface is None ==> native(cfg, policy, id, iface, env, order).last().action == (
        step::ActionView::Refuse { reason: Refusal::NoInterface }),
        cfg.sandbox.dataplane.mode == DataplaneMode::Cilium ==> {
            let steps = native(cfg, policy, id, iface, env, order);
            &&& steps.len() > 3
            &&& steps[0].action == (step::ActionView::Exists {
                path: "/var/run/cilium/cilium.sock"@,
            })
            &&& steps[1].action == (step::ActionView::Exists { path: "/sys/fs/bpf"@ })
            &&& steps[2].action == (step::ActionView::Inspect { path: "/sys/fs/bpf"@ })
            &&& forall|k: int|
                0 <= k < 3 ==> (#[trigger] steps[k]).on_failure == Next::Abort
                    && steps[k].on_missing == Next::Abort
        },
        cfg.sandbox.dataplane.mode != DataplaneMode::Cilium && iface is None ==> native(
            cfg,
            policy,
            id,
            iface,
            env,
            order,
        ).len() == 1,
{
    let start = cilium::requirements();
    assert(start.len() == 3);
    if let Some(name) = iface {
        assert(ebpf::application(native_program(cfg, policy), id, name, env, order).len() > 0);
    }
}

/// Behind taking a policy off the host the table of the VM is gone, and every directory that may
/// hold its pins or its metadata is removed, the one below the configured root among them.
#[verifier::spinoff_prover]
#[verifier::rlimit(50)]
pub proof fn law_lifting_clears_the_host(
    state: Option<model::Table>,
    cfg: Config,
    env: BpfEnv,
    id: VmId,
)
    ensures
        model::played(state, lifting(env, id).take(1), vm_table(id)) is None,
        model::played(state, config_lifting(cfg, env, id).take(1), vm_table(id)) is None,
        ebpf::removes(lifting(env, id), ebpf::meta_dir(env, id)),
        ebpf::removes(lifting(env, id), ebpf::pin_dir("/sys/fs/bpf/fluxvm"@, id)),
        env.pin_root matches Some(root) ==> ebpf::removes(
            lifting(env, id),
            ebpf::pin_dir(root@, id),
        ) || path::same_path(ebpf::pin_dir(root@, id), ebpf::pin_dir("/sys/fs/bpf/fluxvm"@, id)),
        ebpf::removes(
            config_lifting(cfg, env, id),
            ebpf::pin_dir(cfg.sandbox.dataplane.pin_root@, id),
        ),
        forall|dir: Seq<char>| #[trigger]
            ebpf::removes(lifting(env, id), dir) ==> ebpf::removes(
                config_lifting(cfg, env, id),
                dir,
            ),
{
    lemma_words_differ();
    let a = lifting(env, id);
    let b = config_lifting(cfg, env, id);
    let none = Seq::<step::StepView>::empty();
    let r = ebpf::removal(env, id);
    assert(a.take(1) =~= none.push(table_removal(vm_table(id))));
    assert(b.take(1) =~= none.push(table_removal(vm_table(id))));
    lemma_played_push(state, none, table_removal(vm_table(id)), vm_table(id));
    ebpf::law_removal_clears_every_place(env, id);
    assert forall|dir: Seq<char>| ebpf::removes(r, dir) implies #[trigger] ebpf::removes(
        a,
        dir,
    ) by {
        let k = choose|k: int|
            0 <= k < r.len() && (#[trigger] r[k]).action == (step::ActionView::RemoveTree {
                path: dir,
            });
        assert(a[k + 1] == r[k]);
    }
    assert forall|dir: Seq<char>| #[trigger] ebpf::removes(a, dir) implies ebpf::removes(
        b,
        dir,
    ) by {
        let k = choose|k: int|
            0 <= k < a.len() && (#[trigger] a[k]).action == (step::ActionView::RemoveTree {
                path: dir,
            });
        assert(b[k] == a[k]);
    }
    assert(b.last() == ebpf::clear(
        ebpf::pin_dir(cfg.sandbox.dataplane.pin_root@, id),
    )[1]);
    assert(b[b.len() - 1] == b.last());
}

/// What the policy of a VM is brought onto the host with is what is taken off: both name the
/// same table, and no other VM has it.
pub proof fn law_tables_differ(a: VmId, b: VmId)
    requires
        vm_table(a) == vm_table(b),
    ensures
        a == b,
{
    assert(vmid::simple(a) =~= vm_table(a).skip("fluxvm_"@.len() as int));
    assert(vmid::simple(b) =~= vm_table(b).skip("fluxvm_"@.len() as int));
    vmid::law_simple_injective(a, b);
}

// ---------------------------------------------------------------------------------------------
// Laws of files, words and fields
// ---------------------------------------------------------------------------------------------

/// The policy of a VM stands below the directory of the node's state, in a file that the id of the
/// VM names.
pub proof fn law_policy_file_is_below_the_state(cfg: Config, id: VmId)
    requires
        cfg.state_dir@.len() > 0,
        cfg.state_dir@.last() != '/',
    ensures
        policy_file(cfg, id) == cfg.state_dir@ + "/network-policy/"@ + vmid::hyphenated(id)
            + ".json"@,
{
    reveal_strlit("network-policy");
    reveal_strlit("/network-policy/");
    lemma_hyphenated(id);
    let name = vmid::hyphenated(id) + ".json"@;
    assert(name[0] == vmid::hyphenated(id)[0]);
    assert(policy_dir(cfg).last() == 'y');
    assert(policy_file(cfg, id) =~= cfg.state_dir@ + "/network-policy/"@ + vmid::hyphenated(id)
        + ".json"@);
}

/// What is wrong with a port rule is told in words that quote it.
pub proof fn law_port_complaint_tells_the_error(raw: Seq<char>)
    ensures
        port_rule(raw) == Err::<(Seq<char>, u16), PortError>(PortError::NoSlash) ==> port_complaint(
            raw,
        ) == "port rule "@ + text::quoted(raw) + " must be tcp/PORT or udp/PORT"@,
        port_rule(raw) == Err::<(Seq<char>, u16), PortError>(PortError::BadProtocol) ==>
            port_complaint(raw) == "unsupported L4 protocol "@ + text::quoted(
            text::lowered(text::trimmed(text::cut(raw, '/')->Some_0.0)),
        ) + "; use tcp or udp"@,
        port_rule(raw) == Err::<(Seq<char>, u16), PortError>(PortError::ZeroPort) ==>
            port_complaint(raw) == "port must be 1..65535"@,
{
}

/// What a policy is shows in its fields.
pub proof fn law_policy_shows_its_fields(p: VmNetworkPolicy, i: int)
    ensures
        p@.default_allow == p.default_allow,
        p@.sample_rate == p.sample_rate,
        p@.allow_cidrs.len() == p.allow_cidrs@.len(),
        p@.allow_ports.len() == p.allow_ports@.len(),
        0 <= i < p.allow_cidrs@.len() ==> p@.allow_cidrs[i] == p.allow_cidrs@[i]@,
        0 <= i < p.allow_ports@.len() ==> p@.allow_ports[i] == p.allow_ports@[i]@,
{
}

/// Where keeping or deleting a policy fails, the failure names the file that it was about.
pub proof fn law_failed_keeping_names_the_file(cfg: Config, id: VmId, written: Seq<char>)
    ensures
        text::has_suffix(saving(cfg, id, written)[0].context, policy_dir(cfg)),
        text::has_suffix(saving(cfg, id, written)[1].context, draft_file(cfg, id)),
        text::has_suffix(saving(cfg, id, written)[2].context, policy_file(cfg, id)),
        text::has_suffix(deletion(cfg, id).context, policy_file(cfg, id)),
{
    let s = Seq::<char>::empty();
    text::law_suffix_stands_at_the_end(
        s,
        "creating network policy directory "@,
        policy_dir(cfg),
    );
    text::law_suffix_stands_at_the_end(
        s,
        "writing temporary network policy "@,
        draft_file(cfg, id),
    );
    text::law_suffix_stands_at_the_end(s, "committing network policy "@, policy_file(cfg, id));
    text::law_suffix_stands_at_the_end(s, "deleting network policy "@, policy_file(cfg, id));
}

/// A policy that names no port and asks for no samples has nothing to be handed to the loader.
pub proof fn law_nothing_is_handed_over_for_nothing(cfg: Config, policy: PolicyView, id: VmId)
    ensures
        handover(cfg, policy, id).len() == 0 <==> policy.allow_ports.len() == 0
            && policy.sample_rate == 0,
        handover(cfg, policy, id).len() <= 1,
        policy.allow_ports.len() > 0 && bad_port(policy.allow_ports) is Some ==> handover(
            cfg,
            policy,
            id,
        )[0].action is Refuse,
{
}

} // verus!
