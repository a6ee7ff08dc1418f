//! The registry of a fleet: which nodes there are, which of them is to run a VM, and what the
//! registry answers to requests that it forwards.
//!
//! Requests for VMs and records of VMs are passed through as they are. What a node makes of them
//! is the node's business.

use crate::json;
use crate::order;
use crate::text;
use vstd::prelude::*;
use vstd::string::*;

verus! {

// ---------------------------------------------------------------------------------------------
// Time
// ---------------------------------------------------------------------------------------------

/// The nanoseconds of a second.
pub const NANOS: u32 = 1_000_000_000;

/// How many seconds a node counts as healthy behind its last heartbeat. Nodes send one every ten
/// seconds unless told otherwise, so that a few may go missing.
pub const HEALTHY_WINDOW_SECS: i64 = 30;

/// The first second that a date can be told of, counted from 1970.
pub const FIRST_SECOND: i64 = -8_334_601_228_800;

/// The last second that a date can be told of, counted from 1970.
pub const LAST_SECOND: i64 = 8_210_266_876_799;

/// A point in time, to the nanosecond.
#[derive(Debug, Clone, Copy, PartialEq, Eq)]
pub struct Timestamp {
    secs: i64,
    nanos: u32,
}

impl Timestamp {
    #[verifier::type_invariant]
    spec fn wf(self) -> bool {
        FIRST_SECOND <= self.secs <= LAST_SECOND && self.nanos < NANOS
    }

    /// The nanoseconds since 1970.
    pub closed spec fn at(self) -> int {
        self.secs * NANOS + self.nanos
    }

    /// A point in time, from the seconds since 1970 and the nanoseconds of the second, where a
    /// date can be told of it.
    pub fn new(secs: i64, nanos: u32) -> (r: Option<Timestamp>)
        ensures
            match r {
                Some(t) => FIRST_SECOND <= secs <= LAST_SECOND && nanos < NANOS && t.at() == secs
                    * NANOS + nanos,
                None => !(FIRST_SECOND <= secs <= LAST_SECOND && nanos < NANOS),
            },
    {
        if FIRST_SECOND <= secs && secs <= LAST_SECOND && nanos < NANOS {
            Some(Timestamp { secs, nanos })
        } else {
            None
        }
    }

    /// The seconds since 1970, and the nanoseconds of the second.
    pub fn parts(&self) -> (r: (i64, u32))
        ensures
            r.0 * NANOS + r.1 == self.at(),
            r.1 < NANOS,
    {
        proof {
            use_type_invariant(self);
        }
        (self.secs, self.nanos)
    }
}

/// The whole seconds of a number of nanoseconds, towards zero.
pub open spec fn whole_seconds(nanos: int) -> int {
    if nanos >= 0 {
        nanos / NANOS as int
    } else {
        -((-nanos) / NANOS as int)
    }
}

/// The difference of two `chrono::DateTime<Utc>`, and `TimeDelta::num_seconds` of it: the whole
/// seconds from one point in time to another, towards zero. `DateTime::from_timestamp` gives a
/// date for each of the points in time that are asked for here.
#[verifier::external_body]
fn seconds_between(secs: i64, nanos: u32, since_secs: i64, since_nanos: u32) -> (r: i64)
    requires
        FIRST_SECOND <= secs <= LAST_SECOND,
        nanos < NANOS,
        FIRST_SECOND <= since_secs <= LAST_SECOND,
        since_nanos < NANOS,
    ensures
        r == whole_seconds((secs * NANOS + nanos) - (since_secs * NANOS + since_nanos)),
{
    let now = chrono::DateTime::from_timestamp(secs, nanos).unwrap();
    let since = chrono::DateTime::from_timestamp(since_secs, since_nanos).unwrap();
    (now - since).num_seconds()
}

// ---------------------------------------------------------------------------------------------
// Nodes
// ---------------------------------------------------------------------------------------------

/// What is known about a node.
#[derive(Debug, Clone)]
pub struct NodeInfo {
    pub name: String,
    /// Where the registry reaches the node.
    pub fluxvm_url: String,
    pub vcpus_total: u32,
    pub memory_mib_total: u64,
    pub vm_count: usize,
    /// When the last heartbeat came.
    pub last_seen: Timestamp,
}

/// What a [`NodeInfo`] says.
pub struct NodeView {
    pub name: Seq<char>,
    pub fluxvm_url: Seq<char>,
    pub vcpus_total: u32,
    pub memory_mib_total: u64,
    pub vm_count: usize,
    pub last_seen: int,
}

impl View for NodeInfo {
    type V = NodeView;

    open spec fn view(&self) -> NodeView {
        NodeView {
            name: self.name@,
            fluxvm_url: self.fluxvm_url@,
            vcpus_total: self.vcpus_total,
            memory_mib_total: self.memory_mib_total,
            vm_count: self.vm_count,
            last_seen: self.last_seen.at(),
        }
    }
}

/// Whether a node counts as healthy: its last heartbeat is not older than the window.
pub open spec fn is_healthy(node: NodeView, now: int) -> bool {
    now - node.last_seen <= HEALTHY_WINDOW_SECS * NANOS
}

impl NodeInfo {
    /// Whether a node counts as healthy.
    pub fn healthy(&self, now: Timestamp) -> (r: bool)
        ensures
            r == is_healthy(self@, now.at()),
    {
        let seen: Timestamp = self.last_seen;
        proof {
            use_type_invariant(&now);
            use_type_invariant(&seen);
        }
        seconds_between(now.secs, now.nanos, seen.secs, seen.nanos) < HEALTHY_WINDOW_SECS || (
        now.secs - seen.secs == HEALTHY_WINDOW_SECS && now.nanos == seen.nanos)
    }

    /// The same again.
    pub fn copy(&self) -> (r: NodeInfo)
        ensures
            r@ == self@,
    {
        NodeInfo {
            name: self.name.clone(),
            fluxvm_url: self.fluxvm_url.clone(),
            vcpus_total: self.vcpus_total,
            memory_mib_total: self.memory_mib_total,
            vm_count: self.vm_count,
            last_seen: self.last_seen,
        }
    }
}

/// What a node says about itself in a heartbeat.
#[derive(Debug)]
pub struct RegisterRequest {
    pub name: String,
    pub fluxvm_url: String,
    pub vcpus_total: u32,
    pub memory_mib_total: u64,
    pub vm_count: usize,
}

/// What is known about a node from its heartbeat.
pub open spec fn node_of(req: RegisterRequest, now: int) -> NodeView {
    NodeView {
        name: req.name@,
        fluxvm_url: req.fluxvm_url@,
        vcpus_total: req.vcpus_total,
        memory_mib_total: req.memory_mib_total,
        vm_count: req.vm_count,
        last_seen: now,
    }
}

// ---------------------------------------------------------------------------------------------
// The fleet
// ---------------------------------------------------------------------------------------------

/// The nodes that are registered.
#[derive(Debug)]
pub struct Fleet {
    nodes: Vec<NodeInfo>,
}

impl Fleet {
    #[verifier::type_invariant]
    spec fn wf(self) -> bool {
        distinct(self@)
    }
}

/// What several nodes say.
pub open spec fn all_nodes(nodes: Seq<NodeInfo>) -> Seq<NodeView> {
    nodes.map_values(|n: NodeInfo| n@)
}

impl View for Fleet {
    type V = Seq<NodeView>;

    closed spec fn view(&self) -> Seq<NodeView> {
        all_nodes(self.nodes@)
    }
}

/// Whether every name stands for one node.
pub open spec fn distinct(nodes: Seq<NodeView>) -> bool {
    forall|i: int, j: int|
        #![trigger nodes[i], nodes[j]]
        0 <= i < j < nodes.len() ==> nodes[i].name != nodes[j].name
}

/// Where the node of a name stands; behind the last node where there is none.
pub open spec fn place(nodes: Seq<NodeView>, name: Seq<char>) -> int
    decreases nodes.len(),
{
    if nodes.len() == 0 || nodes[0].name == name {
        0
    } else {
        1 + place(nodes.skip(1), name)
    }
}

/// The node of a name.
pub open spec fn known(nodes: Seq<NodeView>, name: Seq<char>) -> Option<NodeView> {
    if place(nodes, name) < nodes.len() {
        Some(nodes[place(nodes, name)])
    } else {
        None
    }
}

/// The nodes with one more, or with one in place of the earlier one of its name.
pub open spec fn registered(nodes: Seq<NodeView>, node: NodeView) -> Seq<NodeView> {
    if place(nodes, node.name) < nodes.len() {
        nodes.update(place(nodes, node.name), node)
    } else {
        nodes.push(node)
    }
}

proof fn lemma_place(nodes: Seq<NodeView>, name: Seq<char>)
    ensures
        0 <= place(nodes, name) <= nodes.len(),
        place(nodes, name) < nodes.len() ==> nodes[place(nodes, name)].name == name,
        forall|j: int| 0 <= j < place(nodes, name) ==> (#[trigger] nodes[j]).name != name,
    decreases nodes.len(),
{
    if nodes.len() > 0 && nodes[0].name != name {
        lemma_place(nodes.skip(1), name);
        assert forall|j: int| 0 <= j < place(nodes, name) implies (#[trigger] nodes[j]).name
            != name by {
            if j > 0 {
                assert(nodes[j] == nodes.skip(1)[j - 1]);
            }
        }
    }
}

proof fn lemma_place_is(nodes: Seq<NodeView>, name: Seq<char>, n: int)
    requires
        0 <= n <= nodes.len(),
        n < nodes.len() ==> nodes[n].name == name,
        forall|j: int| 0 <= j < n ==> (#[trigger] nodes[j]).name != name,
    ensures
        place(nodes, name) == n,
{
    lemma_place(nodes, name);
    let p = place(nodes, name);
    if p < n {
        assert(nodes[p].name != name);
    }
    if n < p {
        assert(nodes[n].name != name);
    }
}

impl Fleet {
    /// A fleet without nodes.
    pub fn new() -> (r: Fleet)
        ensures
            r@ == Seq::<NodeView>::empty(),
            distinct(r@),
    {
        let nodes: Vec<NodeInfo> = Vec::new();
        assert(all_nodes(nodes@) =~= Seq::<NodeView>::empty());
        Fleet { nodes }
    }

    fn find(&self, name: &str) -> (r: usize)
        ensures
            r == place(self@, name@),
            r <= self.nodes.len(),
    {
        let mut i: usize = 0;
        while i < self.nodes.len() && !text::same(self.nodes[i].name.as_str(), name)
            invariant
                i <= self.nodes.len(),
                forall|j: int| 0 <= j < i ==> (#[trigger] self@[j]).name != name@,
            decreases self.nodes.len() - i,
        {
            assert(self@[i as int] == self.nodes@[i as int]@);
            i += 1;
        }
        proof {
            if i < self.nodes.len() {
                assert(self@[i as int] == self.nodes@[i as int]@);
            }
            lemma_place_is(self@, name@, i as int);
        }
        i
    }

    /// The node of a name.
    pub fn get(&self, name: &str) -> (r: Option<&NodeInfo>)
        ensures
            match r {
                Some(n) => known(self@, name@) == Some(n@),
                None => known(self@, name@) is None,
            },
    {
        let i: usize = self.find(name);
        if i < self.nodes.len() {
            assert(self@[i as int] == self.nodes@[i as int]@);
            Some(&self.nodes[i])
        } else {
            None
        }
    }

    /// Takes in a heartbeat.
    pub fn register(&mut self, req: RegisterRequest, now: Timestamp)
        ensures
            final(self)@ == registered(old(self)@, node_of(req, now.at())),
            distinct(final(self)@),
            known(final(self)@, req.name@) matches Some(n) && {
                &&& n.name == req.name@
                &&& n.fluxvm_url == req.fluxvm_url@
                &&& n.vcpus_total == req.vcpus_total
                &&& n.memory_mib_total == req.memory_mib_total
                &&& n.vm_count == req.vm_count
                &&& n.last_seen == now.at()
            },
            forall|name: Seq<char>|
                name != req.name@ ==> #[trigger] known(final(self)@, name) == known(
                    old(self)@,
                    name,
                ),
    {
        let ghost before = self@;
        let i: usize = self.find(req.name.as_str());
        let node = NodeInfo {
            name: req.name,
            fluxvm_url: req.fluxvm_url,
            vcpus_total: req.vcpus_total,
            memory_mib_total: req.memory_mib_total,
            vm_count: req.vm_count,
            last_seen: now,
        };
        proof {
            use_type_invariant(&*self);
            lemma_place(before, req.name@);
            law_names_stay_distinct(before, node@);
            law_last_heartbeat_counts(before, node@, req.name@);
            assert forall|name: Seq<char>| name != req.name@ implies #[trigger] known(
                registered(before, node@),
                name,
            ) == known(before, name) by {
                law_last_heartbeat_counts(before, node@, name);
            }
        }
        let mut nodes: Vec<NodeInfo> = Vec::new();
        std::mem::swap(&mut nodes, &mut self.nodes);
        if i < nodes.len() {
            nodes.set(i, node);
            assert(all_nodes(nodes@) =~= before.update(i as int, node@));
        } else {
            nodes.push(node);
            assert(all_nodes(nodes@) =~= before.push(node@));
        }
        self.nodes = nodes;
    }
}

// ---------------------------------------------------------------------------------------------
// Choosing a node
// ---------------------------------------------------------------------------------------------

/// Whether one node is chosen before another: it runs fewer VMs, or as many and its name comes
/// first.
pub open spec fn preferred(a: NodeView, b: NodeView) -> bool {
    a.vm_count < b.vm_count || a.vm_count == b.vm_count && order::before(a.name, b.name)
}

/// Whether a node is healthy, and chosen before every other healthy node.
pub open spec fn chosen(nodes: Seq<NodeView>, now: int, n: NodeView) -> bool {
    &&& nodes.contains(n)
    &&& is_healthy(n, now)
    &&& forall|m: NodeView| #[trigger]
        nodes.contains(m) && is_healthy(m, now) ==> m == n || preferred(n, m)
}

/// The node that is chosen, if any is healthy.
pub open spec fn choice(nodes: Seq<NodeView>, now: int) -> Option<NodeView> {
    if exists|n: NodeView| chosen(nodes, now, n) {
        Some(choose|n: NodeView| chosen(nodes, now, n))
    } else {
        None
    }
}

/// Two nodes are not each chosen before the other.
proof fn lemma_preferred_asymmetric(a: NodeView, b: NodeView)
    requires
        preferred(a, b),
    ensures
        !preferred(b, a),
        a != b,
{
    order::lemma_before_irreflexive(a.name);
    if order::before(a.name, b.name) && order::before(b.name, a.name) {
        order::lemma_before_transitive(a.name, b.name, a.name);
    }
}

proof fn lemma_chosen_is_choice(nodes: Seq<NodeView>, now: int, n: NodeView)
    requires
        chosen(nodes, now, n),
    ensures
        choice(nodes, now) == Some(n),
{
    let m = choose|m: NodeView| chosen(nodes, now, m);
    assert(chosen(nodes, now, m));
    if m != n {
        assert(nodes.contains(m) && nodes.contains(n));
        assert(preferred(n, m));
        assert(preferred(m, n));
        lemma_preferred_asymmetric(n, m);
    }
}

proof fn lemma_preferred_transitive(a: NodeView, b: NodeView, c: NodeView)
    requires
        preferred(a, b),
        preferred(b, c),
    ensures
        preferred(a, c),
{
    if a.vm_count == b.vm_count && b.vm_count == c.vm_count {
        order::lemma_before_transitive(a.name, b.name, c.name);
    }
}

/// Chooses the healthy node with the fewest VMs. Among several it is the one whose name comes
/// first.
pub fn pick_least_loaded(fleet: &Fleet, now: Timestamp) -> (r: Option<&NodeInfo>)
    ensures
        match r {
            Some(n) => choice(fleet@, now.at()) == Some(n@),
            None => choice(fleet@, now.at()) is None,
        },
{
    proof {
        use_type_invariant(fleet);
    }
    let ghost nodes = fleet@;
    let ghost t = now.at();
    let mut best: Option<usize> = None;
    let mut i: usize = 0;
    while i < fleet.nodes.len()
        invariant
            i <= fleet.nodes.len(),
            nodes == fleet@,
            nodes == all_nodes(fleet.nodes@),
            t == now.at(),
            distinct(nodes),
            match best {
                None => forall|j: int| 0 <= j < i ==> !is_healthy(#[trigger] nodes[j], t),
                Some(b) => {
                    &&& b < i
                    &&& is_healthy(nodes[b as int], t)
                    &&& forall|j: int|
                        0 <= j < i && is_healthy(#[trigger] nodes[j], t) ==> j == b || preferred(
                            nodes[b as int],
                            nodes[j],
                        )
                },
            },
        decreases fleet.nodes.len() - i,
    {
        let node = &fleet.nodes[i];
        assert(node@ == nodes[i as int]);
        if node.healthy(now) {
            match best {
                None => {
                    best = Some(i);
                },
                Some(b) => {
                    let held = &fleet.nodes[b];
                    assert(held@ == nodes[b as int]);
                    proof {
                        order::lemma_before_total(nodes[b as int].name, nodes[i as int].name);
                    }
                    if node.vm_count < held.vm_count || (node.vm_count == held.vm_count
                        && order::is_before(node.name.as_str(), held.name.as_str())) {
                        proof {
                            assert forall|j: int|
                                0 <= j < i && is_healthy(#[trigger] nodes[j], t) implies preferred(
                                nodes[i as int],
                                nodes[j],
                            ) by {
                                if j != b {
                                    lemma_preferred_transitive(
                                        nodes[i as int],
                                        nodes[b as int],
                                        nodes[j],
                                    );
                                }
                            }
                        }
                        best = Some(i);
                    }
                },
            }
        }
        i += 1;
    }
    match best {
        None => {
            proof {
                if exists|n: NodeView| chosen(nodes, t, n) {
                    let n = choose|n: NodeView| chosen(nodes, t, n);
                    assert(nodes.contains(n));
                    let j = choose|j: int| 0 <= j < nodes.len() && nodes[j] == n;
                    assert(!is_healthy(nodes[j], t));
                }
            }
            None
        },
        Some(b) => {
            proof {
                let n = nodes[b as int];
                assert(nodes.contains(n));
                assert forall|m: NodeView| #[trigger]
                    nodes.contains(m) && is_healthy(m, t) implies m == n || preferred(n, m) by {
                    let j = choose|j: int| 0 <= j < nodes.len() && nodes[j] == m;
                    assert(is_healthy(nodes[j], t));
                }
                lemma_chosen_is_choice(nodes, t, n);
            }
            assert(fleet.nodes@[b as int]@ == nodes[b as int]);
            Some(&fleet.nodes[b])
        },
    }
}

// ---------------------------------------------------------------------------------------------
// Requests
// ---------------------------------------------------------------------------------------------

/// A request that the registry refuses: the HTTP status of the answer, and why.
#[derive(Debug, Clone)]
pub struct AppError {
    pub status: u16,
    pub message: String,
}

/// What an [`AppError`] is.
pub struct AppErrorView {
    pub status: u16,
    pub message: Seq<char>,
}

impl View for AppError {
    type V = AppErrorView;

    open spec fn view(&self) -> AppErrorView {
        AppErrorView { status: self.status, message: self.message@ }
    }
}

/// The refusal of a request that names a node that is not registered.
pub open spec fn no_such_node(name: Seq<char>) -> AppErrorView {
    AppErrorView { status: 400, message: "no registered node named '"@ + name + "'"@ }
}

/// The refusal of a request for which no node is healthy.
pub open spec fn no_healthy_node() -> AppErrorView {
    AppErrorView { status: 503, message: "no healthy nodes registered"@ }
}

/// The refusal of a request that a node could not be asked, or did not answer.
pub open spec fn bad_gateway(why: Seq<char>) -> AppErrorView {
    AppErrorView { status: 502, message: why }
}

/// Refuses a request because a node could not be asked, or did not answer.
pub fn unanswered(why: String) -> (r: AppError)
    ensures
        r@ == bad_gateway(why@),
{
    AppError { status: 502, message: why }
}

fn unknown_node(name: &str) -> (r: AppError)
    ensures
        r@ == no_such_node(name@),
{
    AppError {
        status: 400,
        message: "no registered node named '".to_owned().concat(name).concat("'"),
    }
}

/// Where the VMs of a node are asked for.
pub open spec fn vms_url(base: Seq<char>) -> Seq<char> {
    base + "/v1/vms"@
}

/// Where one VM of a node is asked for.
pub open spec fn vm_url(base: Seq<char>, id: Seq<char>) -> Seq<char> {
    base + "/v1/vms/"@ + id
}

/// A node as it is listed.
#[derive(Debug)]
pub struct NodeStatus {
    pub node: NodeInfo,
    pub healthy: bool,
}

/// Every node, and whether it is healthy.
pub fn list_nodes(fleet: &Fleet, now: Timestamp) -> (r: Vec<NodeStatus>)
    ensures
        r@.len() == fleet@.len(),
        forall|i: int|
            0 <= i < r@.len() ==> (#[trigger] r@[i]).node@ == fleet@[i] && r@[i].healthy
                == is_healthy(fleet@[i], now.at()),
        forall|i: int|
            0 <= i < r@.len() ==> {
                &&& (#[trigger] r@[i]).node.name@ == fleet@[i].name
                &&& r@[i].node.fluxvm_url@ == fleet@[i].fluxvm_url
                &&& r@[i].node.vcpus_total == fleet@[i].vcpus_total
                &&& r@[i].node.memory_mib_total == fleet@[i].memory_mib_total
                &&& r@[i].node.vm_count == fleet@[i].vm_count
                &&& r@[i].node.last_seen.at() == fleet@[i].last_seen
                &&& r@[i].healthy <==> now.at() - fleet@[i].last_seen <= 30_000_000_000
            },
{
    let mut r: Vec<NodeStatus> = Vec::new();
    let mut i: usize = 0;
    while i < fleet.nodes.len()
        invariant
            i <= fleet.nodes.len(),
            r@.len() == i,
            forall|j: int|
                0 <= j < i ==> (#[trigger] r@[j]).node@ == fleet@[j] && r@[j].healthy
                    == is_healthy(fleet@[j], now.at()),
        decreases fleet.nodes.len() - i,
    {
        let node = &fleet.nodes[i];
        assert(node@ == fleet@[i as int]);
        let healthy: bool = node.healthy(now);
        r.push(NodeStatus { node: node.copy(), healthy });
        i += 1;
    }
    r
}

/// The node that a request for a VM names. A member `node` that is no text names none.
pub open spec fn requested(body: json::Json) -> Option<Seq<char>> {
    match json::member(body, "node"@) {
        Some(json::Json::Text(name)) => Some(name),
        _ => None,
    }
}

/// The node that is to run a VM: the one that the request names, whether it is healthy or not,
/// or else the one that is chosen.
pub open spec fn target(nodes: Seq<NodeView>, body: json::Json, now: int) -> Result<
    NodeView,
    AppErrorView,
> {
    match requested(body) {
        Some(name) => match known(nodes, name) {
            Some(n) => Ok(n),
            None => Err(no_such_node(name)),
        },
        None => match choice(nodes, now) {
            Some(n) => Ok(n),
            None => Err(no_healthy_node()),
        },
    }
}

/// A request for a VM, ready to be sent.
#[derive(Debug)]
pub struct Forward {
    /// The node that it goes to.
    pub node: String,
    pub url: String,
    pub body: serde_json::Value,
}

/// Decides which node is to run a VM. The request goes there without the member that names the
/// node.
pub fn create_vm(fleet: &Fleet, body: serde_json::Value, now: Timestamp) -> (r: Result<
    Forward,
    AppError,
>)
    ensures
        match r {
            Ok(f) => target(fleet@, json::json_of(body), now.at()) matches Ok(n) && f.node@
                == n.name && f.url@ == vms_url(n.fluxvm_url) && json::json_of(f.body)
                == json::without(json::json_of(body), "node"@),
            Err(e) => target(fleet@, json::json_of(body), now.at()) == Err::<
                NodeView,
                AppErrorView,
            >(e@),
        },
{
    let mut body = body;
    let named = json::take_member(&mut body, "node");
    let name: Option<String> = match &named {
        Some(v) => match json::as_text(v) {
            Some(s) => Some(s.to_owned()),
            None => None,
        },
        None => None,
    };
    let node = match name {
        Some(name) => match fleet.get(name.as_str()) {
            Some(n) => n,
            None => {
                return Err(unknown_node(name.as_str()));
            },
        },
        None => match pick_least_loaded(fleet, now) {
            Some(n) => n,
            None => {
                return Err(
                    AppError { status: 503, message: "no healthy nodes registered".to_owned() },
                );
            },
        },
    };
    Ok(
        Forward {
            node: node.name.clone(),
            url: node.fluxvm_url.clone().concat("/v1/vms"),
            body,
        },
    )
}

/// What the answer of a node to a request for a VM comes to: the record of the VM, or why the
/// node would not have it.
pub open spec fn creation(node: Seq<char>, success: bool, record: json::Json) -> Result<
    (Seq<char>, json::Json),
    AppErrorView,
> {
    if success {
        Ok((node, record))
    } else {
        Err(bad_gateway("node '"@ + node + "' rejected create: "@ + json::shown(record)))
    }
}

/// A VM that was created, and the node that runs it.
#[derive(Debug)]
pub struct CreatedVm {
    pub node: String,
    pub vm: serde_json::Value,
}

/// Makes an answer of what a node answered to a request for a VM.
pub fn vm_created(node: String, success: bool, record: serde_json::Value) -> (r: Result<
    CreatedVm,
    AppError,
>)
    ensures
        match r {
            Ok(c) => creation(node@, success, json::json_of(record)) == Ok::<
                (Seq<char>, json::Json),
                AppErrorView,
            >((c.node@, json::json_of(c.vm))),
            Err(e) => creation(node@, success, json::json_of(record)) == Err::<
                (Seq<char>, json::Json),
                AppErrorView,
            >(e@),
        },
{
    if !success {
        let shown = json::show(&record);
        return Err(
            unanswered(
                "node '".to_owned().concat(node.as_str()).concat("' rejected create: ").concat(
                    shown.as_str(),
                ),
            ),
        );
    }
    Ok(CreatedVm { node, vm: record })
}

/// The healthy nodes, in order.
pub open spec fn healthy_nodes(nodes: Seq<NodeView>, now: int) -> Seq<NodeView>
    decreases nodes.len(),
{
    if nodes.len() == 0 {
        Seq::empty()
    } else if is_healthy(nodes.last(), now) {
        healthy_nodes(nodes.drop_last(), now).push(nodes.last())
    } else {
        healthy_nodes(nodes.drop_last(), now)
    }
}

/// The nodes that are asked for their VMs.
pub fn list_targets(fleet: &Fleet, now: Timestamp) -> (r: Vec<NodeInfo>)
    ensures
        all_nodes(r@) == healthy_nodes(fleet@, now.at()),
{
    let mut r: Vec<NodeInfo> = Vec::new();
    let mut i: usize = 0;
    assert(all_nodes(r@) =~= healthy_nodes(fleet@.take(0), now.at()));
    while i < fleet.nodes.len()
        invariant
            i <= fleet.nodes.len(),
            all_nodes(r@) == healthy_nodes(fleet@.take(i as int), now.at()),
        decreases fleet.nodes.len() - i,
    {
        let node = &fleet.nodes[i];
        assert(node@ == fleet@[i as int]);
        assert(fleet@.take(i + 1).drop_last() =~= fleet@.take(i as int));
        assert(fleet@.take(i + 1).last() == node@);
        let ghost before = all_nodes(r@);
        if node.healthy(now) {
            let copy = node.copy();
            r.push(copy);
            assert(all_nodes(r@) =~= before.push(copy@));
        }
        i += 1;
    }
    assert(fleet@.take(fleet.nodes.len() as int) =~= fleet@);
    r
}

/// Where the VMs of a node are asked for.
pub fn list_url(node: &NodeInfo) -> (r: String)
    ensures
        r@ == vms_url(node@.fluxvm_url),
{
    node.fluxvm_url.clone().concat("/v1/vms")
}

/// The VMs in the answer of a node, each with the name of the node. An answer without a list of
/// items holds none.
pub open spec fn tagged(body: json::Json, node: Seq<char>) -> Seq<json::Json> {
    match json::member(body, "items"@) {
        Some(json::Json::Array(items)) => items.map_values(
            |vm: json::Json| json::with_text(vm, "node"@, node),
        ),
        _ => Seq::empty(),
    }
}

/// What came back of asking a node for its VMs.
#[derive(Debug)]
pub struct NodeAnswer {
    pub node: String,
    /// The answer; none where the node could not be asked, or answered something that is no
    /// JSON.
    pub body: Option<serde_json::Value>,
}

/// The VMs in the answer of one node.
pub open spec fn listed(answer: NodeAnswer) -> Seq<json::Json> {
    match answer.body {
        Some(body) => tagged(json::json_of(body), answer.node@),
        None => Seq::empty(),
    }
}

/// The VMs in the answers of several nodes, in their order.
pub open spec fn all_listed(answers: Seq<NodeAnswer>) -> Seq<json::Json>
    decreases answers.len(),
{
    if answers.len() == 0 {
        Seq::empty()
    } else {
        all_listed(answers.drop_last()) + listed(answers.last())
    }
}

fn add_listed(out: &mut Vec<serde_json::Value>, answer: &NodeAnswer)
    ensures
        json::all_of(final(out)@) == json::all_of(old(out)@) + listed(*answer),
{
    let ghost before = json::all_of(out@);
    let body = match &answer.body {
        Some(body) => body,
        None => {
            assert(before + listed(*answer) =~= before);
            return;
        },
    };
    let items = match json::get(body, "items") {
        Some(items) => items,
        None => {
            assert(before + listed(*answer) =~= before);
            return;
        },
    };
    let list = match json::elements(items) {
        Some(list) => list,
        None => {
            assert(before + listed(*answer) =~= before);
            return;
        },
    };
    let ghost all = listed(*answer);
    let mut i: usize = 0;
    assert(before + all.take(0) =~= before);
    while i < list.len()
        invariant
            i <= list.len(),
            all == json::all_of(list@).map_values(
                |vm: json::Json| json::with_text(vm, "node"@, answer.node@),
            ),
            json::all_of(out@) == before + all.take(i as int),
        decreases list.len() - i,
    {
        let mut vm = json::copy(&list[i]);
        json::put_text(&mut vm, "node", answer.node.as_str());
        let ghost so_far = json::all_of(out@);
        out.push(vm);
        assert(json::all_of(out@) =~= so_far.push(json::json_of(vm)));
        assert(json::all_of(list@)[i as int] == json::json_of(list@[i as int]));
        assert(json::all_of(out@) =~= before + all.take(i + 1));
        i += 1;
    }
    assert(all.take(list.len() as int) =~= all);
}

/// Puts the VMs of several nodes into one list. A node that did not answer is left out.
pub fn list_vms(answers: &Vec<NodeAnswer>) -> (r: Vec<serde_json::Value>)
    ensures
        json::all_of(r@) == all_listed(answers@),
{
    let mut out: Vec<serde_json::Value> = Vec::new();
    let mut i: usize = 0;
    assert(json::all_of(out@) =~= all_listed(answers@.take(0)));
    while i < answers.len()
        invariant
            i <= answers.len(),
            json::all_of(out@) == all_listed(answers@.take(i as int)),
        decreases answers.len() - i,
    {
        add_listed(&mut out, &answers[i]);
        assert(answers@.take(i + 1).drop_last() =~= answers@.take(i as int));
        i += 1;
    }
    assert(answers@.take(answers.len() as int) =~= answers@);
    out
}

/// Where a VM is asked to be deleted.
pub open spec fn deletion_target(nodes: Seq<NodeView>, node: Seq<char>, id: Seq<char>) -> Result<
    Seq<char>,
    AppErrorView,
> {
    match known(nodes, node) {
        Some(n) => Ok(vm_url(n.fluxvm_url, id)),
        None => Err(no_such_node(node)),
    }
}

/// Decides where a VM is asked to be deleted.
pub fn delete_vm(fleet: &Fleet, node: &str, id: &str) -> (r: Result<String, AppError>)
    ensures
        match r {
            Ok(url) => deletion_target(fleet@, node@, id@) == Ok::<Seq<char>, AppErrorView>(url@),
            Err(e) => deletion_target(fleet@, node@, id@) == Err::<Seq<char>, AppErrorView>(e@),
        },
{
    match fleet.get(node) {
        Some(n) => Ok(n.fluxvm_url.clone().concat("/v1/vms/").concat(id)),
        None => Err(unknown_node(node)),
    }
}

/// What the answer of a node to the request to delete a VM comes to: the status of the answer
/// where it did, or why it would not.
pub open spec fn deletion(node: Seq<char>, success: bool, body: Seq<char>) -> Result<
    u16,
    AppErrorView,
> {
    if success {
        Ok(204)
    } else {
        Err(bad_gateway("node '"@ + node + "' rejected delete: "@ + body))
    }
}

/// Makes an answer of what a node answered to the request to delete a VM.
pub fn vm_deleted(node: &str, success: bool, body: &str) -> (r: Result<u16, AppError>)
    ensures
        match r {
            Ok(status) => deletion(node@, success, body@) == Ok::<u16, AppErrorView>(status),
            Err(e) => deletion(node@, success, body@) == Err::<u16, AppErrorView>(e@),
        },
{
    if success {
        Ok(204)
    } else {
        Err(
            unanswered(
                "node '".to_owned().concat(node).concat("' rejected delete: ").concat(body),
            ),
        )
    }
}

// ---------------------------------------------------------------------------------------------
// Laws of the fleet
// ---------------------------------------------------------------------------------------------

/// However many heartbeats come, every name stands for one node.
pub proof fn law_names_stay_distinct(nodes: Seq<NodeView>, node: NodeView)
    requires
        distinct(nodes),
    ensures
        distinct(registered(nodes, node)),
{
    lemma_place(nodes, node.name);
    let p = place(nodes, node.name);
    let after = registered(nodes, node);
    assert forall|i: int, j: int|
        #![trigger after[i], after[j]]
        0 <= i < j < after.len() implies after[i].name != after[j].name by {
        if p < nodes.len() {
            if i != p {
                assert(after[i] == nodes[i]);
            }
            if j != p {
                assert(after[j] == nodes[j]);
            }
            assert(nodes[i].name != nodes[j].name);
        } else if j < nodes.len() {
            assert(nodes[i].name != nodes[j].name);
        }
    }
}

/// A node is known by what its last heartbeat said, and a heartbeat changes nothing about other
/// nodes.
pub proof fn law_last_heartbeat_counts(nodes: Seq<NodeView>, node: NodeView, name: Seq<char>)
    requires
        distinct(nodes),
    ensures
        known(registered(nodes, node), name) == if name == node.name {
            Some(node)
        } else {
            known(nodes, name)
        },
{
    let after = registered(nodes, node);
    let p = place(nodes, node.name);
    let q = place(nodes, name);
    lemma_place(nodes, node.name);
    lemma_place(nodes, name);
    if name == node.name {
        assert forall|j: int| 0 <= j < p implies (#[trigger] after[j]).name != name by {
            assert(after[j] == nodes[j]);
        }
        lemma_place_is(after, name, p);
    } else if q < nodes.len() {
        assert(q != p);
        assert(after[q] == nodes[q]);
        assert forall|j: int| 0 <= j < q implies (#[trigger] after[j]).name != name by {
            if j != p {
                assert(after[j] == nodes[j]);
            }
        }
        lemma_place_is(after, name, q);
    } else {
        assert forall|j: int| 0 <= j < after.len() implies (#[trigger] after[j]).name != name by {
            if j != p {
                assert(after[j] == nodes[j]);
            }
        }
        lemma_place_is(after, name, after.len() as int);
    }
}

/// Behind a heartbeat the node of that name is known by every field of the heartbeat, and by the
/// time at which it came.
pub proof fn law_heartbeat_is_kept(nodes: Seq<NodeView>, req: RegisterRequest, now: int)
    requires
        distinct(nodes),
    ensures
        known(registered(nodes, node_of(req, now)), req.name@) matches Some(n) && {
            &&& n.name == req.name@
            &&& n.fluxvm_url == req.fluxvm_url@
            &&& n.vcpus_total == req.vcpus_total
            &&& n.memory_mib_total == req.memory_mib_total
            &&& n.vm_count == req.vm_count
            &&& n.last_seen == now
        },
{
    law_last_heartbeat_counts(nodes, node_of(req, now), req.name@);
}

/// A heartbeat adds a node exactly where its name was not known, and none is ever taken away.
pub proof fn law_heartbeat_adds_at_most_one(nodes: Seq<NodeView>, req: RegisterRequest, now: int)
    requires
        distinct(nodes),
    ensures
        registered(nodes, node_of(req, now)).len() == nodes.len() + if exists|i: int|
            0 <= i < nodes.len() && (#[trigger] nodes[i]).name == req.name@ {
            0int
        } else {
            1int
        },
        forall|i: int|
            0 <= i < nodes.len() && (#[trigger] nodes[i]).name != req.name@ ==> registered(
                nodes,
                node_of(req, now),
            )[i] == nodes[i],
{
    lemma_place(nodes, req.name@);
}

/// A node is known by a name exactly where it is registered and has that name.
pub proof fn law_known_by_name(nodes: Seq<NodeView>, name: Seq<char>)
    requires
        distinct(nodes),
    ensures
        match known(nodes, name) {
            Some(n) => nodes.contains(n) && n.name == name,
            None => forall|i: int| 0 <= i < nodes.len() ==> (#[trigger] nodes[i]).name != name,
        },
{
    lemma_place(nodes, name);
}

/// A node is chosen exactly where one is healthy, and the one that is chosen is registered, is
/// healthy, and no other healthy node runs fewer VMs.
pub proof fn law_choice_is_least_loaded(nodes: Seq<NodeView>, now: int)
    requires
        distinct(nodes),
    ensures
        choice(nodes, now) is None <==> forall|i: int|
            0 <= i < nodes.len() ==> !is_healthy(#[trigger] nodes[i], now),
        choice(nodes, now) matches Some(n) ==> {
            &&& chosen(nodes, now, n)
            &&& forall|i: int|
                0 <= i < nodes.len() && is_healthy(#[trigger] nodes[i], now) ==> n.vm_count
                    <= nodes[i].vm_count
        },
{
    if exists|i: int| 0 <= i < nodes.len() && is_healthy(#[trigger] nodes[i], now) {
        lemma_some_is_chosen(nodes, now);
    }
    if let Some(n) = choice(nodes, now) {
        assert(chosen(nodes, now, n));
        let k = choose|k: int| 0 <= k < nodes.len() && nodes[k] == n;
        assert(is_healthy(nodes[k], now));
        assert forall|i: int|
            0 <= i < nodes.len() && is_healthy(#[trigger] nodes[i], now) implies n.vm_count
            <= nodes[i].vm_count by {
            assert(nodes.contains(nodes[i]));
        }
    }
}

proof fn lemma_some_is_chosen(nodes: Seq<NodeView>, now: int)
    requires
        distinct(nodes),
        exists|i: int| 0 <= i < nodes.len() && is_healthy(#[trigger] nodes[i], now),
    ensures
        exists|n: NodeView| chosen(nodes, now, n),
    decreases nodes.len(),
{
    let rest = nodes.drop_last();
    let last = nodes.last();
    assert forall|i: int, j: int|
        #![trigger rest[i], rest[j]]
        0 <= i < j < rest.len() implies rest[i].name != rest[j].name by {
        assert(nodes[i].name != nodes[j].name);
    }
    assert(nodes[nodes.len() - 1] == last);
    assert forall|m: NodeView| #[trigger] nodes.contains(m) implies m == last || rest.contains(
        m,
    ) by {
        let j = choose|j: int| 0 <= j < nodes.len() && nodes[j] == m;
        if j < rest.len() {
            assert(rest[j] == m);
        }
    }
    if exists|i: int| 0 <= i < rest.len() && is_healthy(#[trigger] rest[i], now) {
        lemma_some_is_chosen(rest, now);
        let n = choose|n: NodeView| chosen(rest, now, n);
        let k = choose|k: int| 0 <= k < rest.len() && rest[k] == n;
        assert(nodes[k] == n);
        assert(n.name != last.name);
        order::lemma_before_total(n.name, last.name);
        if is_healthy(last, now) && preferred(last, n) {
            assert forall|m: NodeView| #[trigger]
                nodes.contains(m) && is_healthy(m, now) implies m == last || preferred(last, m) by {
                if m != last && m != n {
                    lemma_preferred_transitive(last, n, m);
                }
            }
            assert(chosen(nodes, now, last));
        } else {
            assert(chosen(nodes, now, n));
        }
    } else {
        let i = choose|i: int| 0 <= i < nodes.len() && is_healthy(#[trigger] nodes[i], now);
        if i < rest.len() {
            assert(is_healthy(rest[i], now));
        }
        assert forall|m: NodeView| #[trigger]
            nodes.contains(m) && is_healthy(m, now) implies m == last by {
            if m != last {
                let j = choose|j: int| 0 <= j < rest.len() && rest[j] == m;
                assert(is_healthy(rest[j], now));
            }
        }
        assert(chosen(nodes, now, last));
    }
}

/// Among the healthy nodes with the fewest VMs the one whose name comes first is chosen.
pub proof fn law_ties_go_to_the_first_name(nodes: Seq<NodeView>, now: int, i: int)
    requires
        distinct(nodes),
        0 <= i < nodes.len(),
        now - nodes[i].last_seen <= 30_000_000_000,
    ensures
        choice(nodes, now) matches Some(n) && (n == nodes[i] || n.vm_count < nodes[i].vm_count
            || n.vm_count == nodes[i].vm_count && order::before(n.name, nodes[i].name)),
{
    law_choice_is_least_loaded(nodes, now);
    assert(is_healthy(nodes[i], now));
    assert(nodes.contains(nodes[i]));
}

/// The choice does not depend on the order in which nodes came.
pub proof fn law_choice_ignores_order(a: Seq<NodeView>, b: Seq<NodeView>, now: int)
    requires
        distinct(a),
        distinct(b),
        forall|n: NodeView|
            #![trigger a.contains(n)]
            #![trigger b.contains(n)]
            a.contains(n) <==> b.contains(n),
    ensures
        choice(a, now) == choice(b, now),
{
    if exists|n: NodeView| chosen(a, now, n) {
        let n = choose|n: NodeView| chosen(a, now, n);
        assert(chosen(b, now, n));
        lemma_chosen_is_choice(b, now, n);
    } else if exists|n: NodeView| chosen(b, now, n) {
        let n = choose|n: NodeView| chosen(b, now, n);
        assert(chosen(a, now, n));
    }
}

/// A heartbeat makes a node healthy, until more than half a minute has passed without another.
pub proof fn law_heartbeat_makes_healthy(req: RegisterRequest, seen: int, now: int)
    ensures
        is_healthy(node_of(req, seen), now) <==> now - seen <= 30_000_000_000,
{
}

/// A request for a VM that names a node goes to that node, and to no other, even where it is not
/// healthy; one that names none goes to a healthy node.
pub proof fn law_named_node_is_used(nodes: Seq<NodeView>, body: json::Json, now: int)
    ensures
        requested(body) matches Some(name) ==> target(nodes, body, now) == match known(nodes, name) {
            Some(n) => Ok::<NodeView, AppErrorView>(n),
            None => Err::<NodeView, AppErrorView>(no_such_node(name)),
        },
        requested(body) is None ==> (target(nodes, body, now) matches Ok(n) ==> is_healthy(n, now)),
{
    if let Some(n) = choice(nodes, now) {
        assert(chosen(nodes, now, n));
    }
}

/// A request that cannot be placed is refused: with 400 and the name where it names a node that
/// is not registered, with 503 where it names none and no node is healthy, and in no other case.
pub proof fn law_unplaced_request_is_refused(nodes: Seq<NodeView>, body: json::Json, now: int)
    requires
        distinct(nodes),
    ensures
        target(nodes, body, now) matches Err(e) ==> match json::member(body, "node"@) {
            Some(json::Json::Text(name)) => {
                &&& e.status == 400
                &&& e.message == "no registered node named '"@ + name + "'"@
                &&& forall|i: int| 0 <= i < nodes.len() ==> (#[trigger] nodes[i]).name != name
            },
            _ => {
                &&& e.status == 503
                &&& e.message == "no healthy nodes registered"@
                &&& forall|i: int|
                    0 <= i < nodes.len() ==> now - (#[trigger] nodes[i]).last_seen > 30_000_000_000
            },
        },
        target(nodes, body, now) matches Ok(n) ==> nodes.contains(n) && match json::member(
            body,
            "node"@,
        ) {
            Some(json::Json::Text(name)) => n.name == name,
            _ => now - n.last_seen <= 30_000_000_000 && forall|i: int|
                0 <= i < nodes.len() && now - (#[trigger] nodes[i]).last_seen <= 30_000_000_000
                    ==> n.vm_count <= nodes[i].vm_count,
        },
{
    if let Some(name) = requested(body) {
        law_known_by_name(nodes, name);
    }
    law_choice_is_least_loaded(nodes, now);
    if choice(nodes, now) is None {
        assert forall|i: int| 0 <= i < nodes.len() implies now - (#[trigger] nodes[i]).last_seen
            > 30_000_000_000 by {
            assert(!is_healthy(nodes[i], now));
        }
    } else {
        let n = choice(nodes, now)->Some_0;
        assert forall|i: int|
            0 <= i < nodes.len() && now - (#[trigger] nodes[i]).last_seen
                <= 30_000_000_000 implies n.vm_count <= nodes[i].vm_count by {
            assert(is_healthy(nodes[i], now));
        }
    }
}

/// A VM is deleted on the node that is named, below the address of that node, and on no other; a
/// node that is not registered is refused with 400.
pub proof fn law_deletion_goes_to_the_named_node(
    nodes: Seq<NodeView>,
    i: int,
    node: Seq<char>,
    id: Seq<char>,
)
    requires
        distinct(nodes),
    ensures
        0 <= i < nodes.len() && nodes[i].name == node ==> deletion_target(nodes, node, id) == Ok::<
            Seq<char>,
            AppErrorView,
        >(nodes[i].fluxvm_url + "/v1/vms/"@ + id),
        deletion_target(nodes, node, id) matches Err(e) ==> e.status == 400 && e.message
            == "no registered node named '"@ + node + "'"@ && forall|j: int|
            0 <= j < nodes.len() ==> (#[trigger] nodes[j]).name != node,
{
    lemma_place(nodes, node);
    let p = place(nodes, node);
    if 0 <= i < nodes.len() && nodes[i].name == node {
        if p < i {
            assert(nodes[p].name != nodes[i].name);
        }
    }
}

/// What a node answered is passed on: its record where it took the VM, with 502 and its words
/// where it did not.
pub proof fn law_answer_is_passed_on(
    node: Seq<char>,
    success: bool,
    record: json::Json,
    body: Seq<char>,
)
    ensures
        creation(node, success, record) is Ok <==> success,
        bad_gateway(body).status == 502,
        bad_gateway(body).message == body,
        creation(node, success, record) matches Ok(c) ==> c.0 == node && c.1 == record,
        creation(node, success, record) matches Err(e) ==> e.status == 502 && e.message
            == "node '"@ + node + "' rejected create: "@ + json::shown(record),
        deletion(node, success, body) is Ok <==> success,
        deletion(node, success, body) matches Ok(status) ==> status == 204,
        deletion(node, success, body) matches Err(e) ==> e.status == 502 && e.message == "node '"@
            + node + "' rejected delete: "@ + body,
{
}

/// What is known about a node shows in its fields.
pub proof fn law_node_shows_its_fields(n: NodeInfo)
    ensures
        n@.name == n.name@,
        n@.fluxvm_url == n.fluxvm_url@,
        n@.vcpus_total == n.vcpus_total,
        n@.memory_mib_total == n.memory_mib_total,
        n@.vm_count == n.vm_count,
        n@.last_seen == n.last_seen.at(),
{
}

/// The VMs of a node are asked for below the address of the node, and one VM below that.
pub proof fn law_addresses_are_below_the_node(base: Seq<char>, id: Seq<char>)
    ensures
        base.is_prefix_of(vms_url(base)),
        vms_url(base).skip(base.len() as int) == "/v1/vms"@,
        vm_url(base, id) == vms_url(base) + (seq!['/'] + id),
{
    reveal_strlit("/v1/vms");
    reveal_strlit("/v1/vms/");
    assert(vms_url(base).skip(base.len() as int) =~= "/v1/vms"@);
    assert(vm_url(base, id) =~= vms_url(base) + (seq!['/'] + id));
    assert(base =~= vms_url(base).take(base.len() as int));
}

/// An answer without a list of items adds nothing to the list.
pub proof fn law_answer_without_items_lists_nothing(answer: NodeAnswer)
    requires
        answer.body matches Some(body) ==> !(json::member(json::json_of(body), "items"@) matches Some(
            json::Json::Array(_),
        )),
    ensures
        listed(answer).len() == 0,
{
}

/// No node is asked twice.
pub proof fn law_no_node_is_asked_twice(nodes: Seq<NodeView>, now: int)
    requires
        distinct(nodes),
    ensures
        distinct(healthy_nodes(nodes, now)),
    decreases nodes.len(),
{
    if nodes.len() > 0 {
        let before = nodes.drop_last();
        let last = nodes.last();
        let h = healthy_nodes(before, now);
        assert forall|i: int, j: int|
            #![trigger before[i], before[j]]
            0 <= i < j < before.len() implies before[i].name != before[j].name by {
            assert(nodes[i].name != nodes[j].name);
        }
        law_no_node_is_asked_twice(before, now);
        assert forall|i: int| 0 <= i < h.len() implies (#[trigger] h[i]).name != last.name by {
            law_healthy_nodes_are_asked(before, now, h[i]);
            assert(h.contains(h[i]));
            let k = choose|k: int| 0 <= k < before.len() && before[k] == h[i];
            assert(nodes[k].name != nodes[nodes.len() - 1].name);
        }
    }
}

/// A request for a VM that is forwarded names no node, and says all else that it said.
pub proof fn law_forwarded_request_names_no_node(body: json::Json, key: Seq<char>)
    ensures
        requested(json::without(body, "node"@)) is None,
        key != "node"@ ==> json::member(json::without(body, "node"@), key) == json::member(
            body,
            key,
        ),
{
}

/// Every VM that is listed says which node it came from, and says all else that its node said
/// about it.
pub proof fn law_listed_vm_names_its_node(
    vm: json::Json,
    node: Seq<char>,
    key: Seq<char>,
)
    requires
        vm is Object,
    ensures
        json::member(json::with_text(vm, "node"@, node), "node"@) == Some(json::Json::Text(node)),
        key != "node"@ ==> json::member(json::with_text(vm, "node"@, node), key) == json::member(
            vm,
            key,
        ),
{
}

/// Every item in the answer of a node is listed, in its order, and nothing else: an object with
/// the name of the node, and with all else that the node said of it; an item that is no object as
/// it is.
pub proof fn law_every_item_is_listed(answer: NodeAnswer, items: Seq<json::Json>, i: int)
    requires
        answer.body matches Some(body) && json::member(json::json_of(body), "items"@) == Some(
            json::Json::Array(items),
        ),
        0 <= i < items.len(),
    ensures
        listed(answer).len() == items.len(),
        items[i] is Object ==> {
            &&& listed(answer)[i] is Object
            &&& json::member(listed(answer)[i], "node"@) == Some(json::Json::Text(answer.node@))
            &&& forall|key: Seq<char>|
                key != "node"@ ==> #[trigger] json::member(listed(answer)[i], key)
                    == json::member(items[i], key)
        },
        !(items[i] is Object) ==> listed(answer)[i] == items[i],
{
}

/// How many VMs were listed from the first few answers.
pub open spec fn listed_from(answers: Seq<NodeAnswer>, n: int) -> int
    decreases n,
{
    if n <= 0 {
        0
    } else {
        listed_from(answers, n - 1) + listed(answers[n - 1]).len()
    }
}

/// The list holds the VMs of every answer, those of one node behind those of the node before it,
/// and nothing else.
pub proof fn law_every_answer_is_listed(answers: Seq<NodeAnswer>, k: int, i: int)
    requires
        0 <= k < answers.len(),
        0 <= i < listed(answers[k]).len(),
    ensures
        all_listed(answers).len() == listed_from(answers, answers.len() as int),
        0 <= listed_from(answers, k) + i < all_listed(answers).len(),
        all_listed(answers)[listed_from(answers, k) + i] == listed(answers[k])[i],
{
    lemma_listed_from(answers, answers.len() as int);
    lemma_listed_from(answers, k);
    lemma_listed_from(answers, k + 1);
    assert(answers.take(answers.len() as int) =~= answers);
    assert(answers.take(k + 1).drop_last() =~= answers.take(k));
    lemma_listed_goes_on(answers, k + 1, answers.len() as int);
    let first = all_listed(answers.take(k + 1));
    assert(first == all_listed(answers.take(k)) + listed(answers[k]));
    assert(all_listed(answers)[listed_from(answers, k) + i] == first[listed_from(answers, k) + i]);
}

proof fn lemma_listed_from(answers: Seq<NodeAnswer>, n: int)
    requires
        0 <= n <= answers.len(),
    ensures
        all_listed(answers.take(n)).len() == listed_from(answers, n),
    decreases n,
{
    if n > 0 {
        lemma_listed_from(answers, n - 1);
        assert(answers.take(n).drop_last() =~= answers.take(n - 1));
    }
}

proof fn lemma_listed_goes_on(answers: Seq<NodeAnswer>, a: int, b: int)
    requires
        0 <= a <= b <= answers.len(),
    ensures
        all_listed(answers.take(a)).len() <= all_listed(answers.take(b)).len(),
        forall|i: int|
            0 <= i < all_listed(answers.take(a)).len() ==> all_listed(answers.take(b))[i]
                == #[trigger] all_listed(answers.take(a))[i],
    decreases b - a,
{
    if a < b {
        lemma_listed_goes_on(answers, a, b - 1);
        assert(answers.take(b).drop_last() =~= answers.take(b - 1));
    }
}

/// A node that did not answer takes nothing from the list: the VMs of the others are all there.
pub proof fn law_silent_node_is_left_out(
    before: Seq<NodeAnswer>,
    silent: NodeAnswer,
    behind: Seq<NodeAnswer>,
)
    requires
        silent.body is None,
    ensures
        all_listed(before.push(silent) + behind) == all_listed(before + behind),
    decreases behind.len(),
{
    if behind.len() == 0 {
        assert(before.push(silent) + behind =~= before.push(silent));
        assert(before.push(silent).drop_last() =~= before);
        assert(before + behind =~= before);
        assert(all_listed(before) + Seq::<json::Json>::empty() =~= all_listed(before));
    } else {
        let rest = behind.drop_last();
        law_silent_node_is_left_out(before, silent, rest);
        assert((before.push(silent) + behind).drop_last() =~= before.push(silent) + rest);
        assert((before + behind).drop_last() =~= before + rest);
    }
}

/// Only healthy nodes are asked for their VMs, and all of them.
pub proof fn law_healthy_nodes_are_asked(nodes: Seq<NodeView>, now: int, n: NodeView)
    ensures
        healthy_nodes(nodes, now).contains(n) <==> nodes.contains(n) && is_healthy(n, now),
    decreases nodes.len(),
{
    if nodes.len() > 0 {
        let before = nodes.drop_last();
        let last = nodes.last();
        law_healthy_nodes_are_asked(before, now, n);
        let h = healthy_nodes(before, now);
        assert(nodes.contains(n) <==> before.contains(n) || last == n) by {
            if before.contains(n) {
                let i = choose|i: int| 0 <= i < before.len() && before[i] == n;
                assert(nodes[i] == n);
            }
            if last == n {
                assert(nodes[nodes.len() - 1] == n);
            }
            if nodes.contains(n) {
                let i = choose|i: int| 0 <= i < nodes.len() && nodes[i] == n;
                if i < before.len() {
                    assert(before[i] == n);
                }
            }
        }
        assert(h.push(last).contains(n) <==> h.contains(n) || last == n) by {
            if h.contains(n) {
                let i = choose|i: int| 0 <= i < h.len() && h[i] == n;
                assert(h.push(last)[i] == n);
            }
            if last == n {
                assert(h.push(last)[h.len() as int] == n);
            }
            if h.push(last).contains(n) {
                let i = choose|i: int| 0 <= i < h.push(last).len() && h.push(last)[i] == n;
                if i < h.len() {
                    assert(h[i] == n);
                }
            }
        }
    }
}

} // verus!
