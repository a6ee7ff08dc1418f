//! The optional XDP guard of a node: a program on a physical interface that drops packets from
//! blocked networks.
//!
//! Other agents may own XDP on an interface. The guard is refused next to Cilium, it never
//! replaces a program that is there already, and it detaches a program only where that is the
//! one it attached itself.

use crate::cidr;
use crate::cidr::Ipv4Cidr;
use crate::config::{BpfEnv, DataplaneConfig, DataplaneMode, XdpConfig};
use crate::ebpf;
use crate::follow;
use crate::job;
use crate::job::Job;
use crate::json;
use crate::line;
use crate::model;
use crate::number;
use crate::path;
use crate::step;
use crate::step::{Action, Block, ByteOrder, CidrError, Follow, Next, Refusal, Step};
use crate::text;
use vstd::prelude::*;
use vstd::string::*;

verus! {

// ---------------------------------------------------------------------------------------------
// What tools report
// ---------------------------------------------------------------------------------------------

/// What `ip` reports about XDP on a link: the `xdp` member of the first link, unless it is
/// null.
pub open spec fn reported(doc: json::Json) -> Option<json::Json> {
    match doc {
        json::Json::Array(links) => if links.len() > 0 {
            match json::member(links[0], "xdp"@) {
                Some(x) => if x is Null {
                    None
                } else {
                    Some(x)
                },
                None => None,
            }
        } else {
            None
        },
        _ => None,
    }
}

/// The id of a program as a number of 32 bits.
pub open spec fn narrow(id: Option<u64>) -> Option<u32> {
    match id {
        Some(n) => if n <= u32::MAX {
            Some(n as u32)
        } else {
            None
        },
        None => None,
    }
}

/// The whole number that a member of a document is.
pub open spec fn whole_member(doc: json::Json, key: Seq<char>) -> Option<u64> {
    match json::member(doc, key) {
        Some(x) => json::whole(x),
        None => None,
    }
}

/// The id of the program that a report names: `prog.id`, or `prog_id` where there is none.
pub open spec fn named_program(xdp: json::Json) -> Option<u64> {
    let modern = match json::member(xdp, "prog"@) {
        Some(prog) => whole_member(prog, "id"@),
        None => None,
    };
    if modern is Some {
        modern
    } else {
        whole_member(xdp, "prog_id"@)
    }
}

/// Whether a report says that a program is attached: it does where it says anything.
pub open spec fn says_attached(xdp: json::Json) -> bool {
    exists|key: Seq<char>| json::member(xdp, key) is Some
}

/// Whether a link carries an XDP program, and which one.
pub open spec fn state(doc: json::Json) -> (bool, Option<u32>) {
    match reported(doc) {
        None => (false, None),
        Some(xdp) => (says_attached(xdp), narrow(named_program(xdp))),
    }
}

/// The id of the program that `bpftool` reports.
pub open spec fn pinned(doc: json::Json) -> Result<u32, Refusal> {
    let program = match doc {
        json::Json::Array(list) => if list.len() > 0 {
            Some(list[0])
        } else {
            None
        },
        other => Some(other),
    };
    match program {
        None => Err(Refusal::NoProgram),
        Some(p) => match whole_member(p, "id"@) {
            None => Err(Refusal::NoProgramId),
            Some(n) => if n <= u32::MAX {
                Ok(n as u32)
            } else {
                Err(Refusal::ProgramIdTooLarge)
            },
        },
    }
}

fn get_whole(v: &serde_json::Value, key: &str) -> (r: Option<u64>)
    ensures
        r == whole_member(json::json_of(*v), key@),
{
    match json::get(v, key) {
        Some(x) => json::as_whole(x),
        None => None,
    }
}

/// The id of the program that a report names.
pub fn program_in(xdp: &serde_json::Value) -> (r: Option<u64>)
    ensures
        r == named_program(json::json_of(*xdp)),
{
    let modern = match json::get(xdp, "prog") {
        Some(prog) => get_whole(prog, "id"),
        None => None,
    };
    if modern.is_some() {
        modern
    } else {
        get_whole(xdp, "prog_id")
    }
}

/// Whether a link carries an XDP program, and which one, from what `ip` reports.
pub fn link_state(doc: &serde_json::Value) -> (r: (bool, Option<u32>))
    ensures
        r == state(json::json_of(*doc)),
{
    let links = match json::elements(doc) {
        Some(links) => links,
        None => {
            return (false, None);
        },
    };
    if links.len() == 0 {
        return (false, None);
    }
    assert(json::all_of(links@)[0] == json::json_of(links@[0]));
    let xdp = match json::get(&links[0], "xdp") {
        Some(xdp) => xdp,
        None => {
            return (false, None);
        },
    };
    if json::is_null(xdp) {
        return (false, None);
    }
    let id: Option<u32> = match program_in(xdp) {
        Some(n) => if n <= 0xffff_ffff {
            Some(n as u32)
        } else {
            None
        },
        None => None,
    };
    let attached: bool = id.is_some() || json::get(xdp, "attached").is_some() || json::get(
        xdp,
        "mode",
    ).is_some() || match json::as_object(xdp) {
        Some(members) => !json::is_empty(members),
        None => false,
    };
    proof {
        let doc = json::json_of(*xdp);
        if says_attached(doc) {
            let key = choose|key: Seq<char>| json::member(doc, key) is Some;
            assert(doc->Object_0.contains_key(key));
        }
        if doc is Object && doc->Object_0 != Map::<Seq<char>, json::Json>::empty() {
            let m = doc->Object_0;
            assert(exists|key: Seq<char>| m.contains_key(key)) by {
                if forall|key: Seq<char>| !m.contains_key(key) {
                    assert(m =~= Map::<Seq<char>, json::Json>::empty());
                }
            }
            let key = choose|key: Seq<char>| m.contains_key(key);
            assert(json::member(doc, key) is Some);
        }
        if id is Some {
            assert(json::member(doc, "prog"@) is Some || json::member(doc, "prog_id"@) is Some);
        }
    }
    (attached, id)
}

/// The id of a pinned program, from what `bpftool` reports.
pub fn pinned_program(doc: &serde_json::Value) -> (r: Result<u32, Refusal>)
    ensures
        r == pinned(json::json_of(*doc)),
{
    let program = match json::elements(doc) {
        Some(list) => {
            if list.len() == 0 {
                return Err(Refusal::NoProgram);
            }
            assert(json::all_of(list@)[0] == json::json_of(list@[0]));
            &list[0]
        },
        None => doc,
    };
    match get_whole(program, "id") {
        None => Err(Refusal::NoProgramId),
        Some(n) => if n <= 0xffff_ffff {
            Ok(n as u32)
        } else {
            Err(Refusal::ProgramIdTooLarge)
        },
    }
}

/// What the output of `ip -j` says about XDP on a link.
pub open spec fn output_state(bytes: Seq<u8>) -> Result<(bool, Option<u32>), Refusal> {
    match json::parsed(bytes) {
        Some(doc) => Ok(state(doc)),
        None => Err(Refusal::NotJson),
    }
}

/// Reads the output of `ip -j`.
pub fn interface_xdp_state(output: &[u8]) -> (r: Result<(bool, Option<u32>), Refusal>)
    ensures
        r == output_state(output@),
{
    match json::parse(output) {
        Ok(doc) => Ok(link_state(&doc)),
        Err(_) => Err(Refusal::NotJson),
    }
}

/// What the output of `bpftool -j` says about a pinned program.
pub open spec fn output_program(bytes: Seq<u8>) -> Result<u32, Refusal> {
    match json::parsed(bytes) {
        Some(doc) => pinned(doc),
        None => Err(Refusal::NotJson),
    }
}

/// Reads the output of `bpftool -j`.
pub fn pinned_program_id(output: &[u8]) -> (r: Result<u32, Refusal>)
    ensures
        r == output_program(output@),
{
    match json::parse(output) {
        Ok(doc) => pinned_program(&doc),
        Err(_) => Err(Refusal::NotJson),
    }
}

// ---------------------------------------------------------------------------------------------
// Removing
// ---------------------------------------------------------------------------------------------

/// Where the ownership markers stand.
pub open spec fn meta_dir(env: BpfEnv) -> Seq<char> {
    match env.meta_root {
        Some(root) => path::joined(root@, "xdp"@),
        None => "/run/fluxvm/xdp"@,
    }
}

/// Where the ownership markers stand.
pub fn xdp_meta_dir(env: &BpfEnv) -> (r: String)
    ensures
        r@ == meta_dir(*env),
{
    match &env.meta_root {
        Some(root) => path::join(root.as_str(), "xdp"),
        None => "/run/fluxvm/xdp".to_owned(),
    }
}

/// Reading a marker: from the metadata where it is there, else from the place where earlier
/// versions put it.
pub open spec fn marker(
    meta: Seq<char>,
    root: Seq<char>,
    name: Seq<char>,
    follow: step::FollowView,
    fail: Next,
) -> Seq<step::StepView> {
    let here = path::joined(meta, name);
    let there = path::joined(root, name);
    Seq::<step::StepView>::empty().push(
        step::given_view(step::ActionView::Exists { path: here }).inside(Block::Removal),
    ).push(
        step::must_view(
            step::ActionView::Read { path: here },
            "reading XDP ownership marker "@ + here,
        ).followed(follow).inside(Block::Removal).going(Next::Skip(1), fail, fail),
    ).push(
        step::must_view(
            step::ActionView::Read { path: there },
            "reading XDP ownership marker "@ + there,
        ).followed(follow).inside(Block::Removal).going(Next::Skip(0), fail, fail),
    )
}

/// Reads a marker.
pub fn read_xdp_marker(
    meta: &str,
    root: &str,
    name: &str,
    follow: Follow,
    fail: Next,
) -> (r: Vec<Step>)
    ensures
        step::plan(r@) == marker(meta@, root@, name@, follow@, fail),
{
    let again = follow.copy();
    let here = path::join(meta, name);
    let there = path::join(root, name);
    let here_context = "reading XDP ownership marker ".to_owned().concat(here.as_str());
    let there_context = "reading XDP ownership marker ".to_owned().concat(there.as_str());
    let mut steps = step::no_steps();
    step::add_step(&mut steps, step::given(step::exists_at(here.as_str())).inside(Block::Removal));
    step::add_step(
        &mut steps,
        step::must(step::read(here.as_str()), here_context.as_str()).follow_with(follow).inside(
            Block::Removal,
        ).going(Next::Skip(1), fail, fail),
    );
    step::add_step(
        &mut steps,
        step::must(step::read(there.as_str()), there_context.as_str()).follow_with(again).inside(
            Block::Removal,
        ).going(Next::Skip(0), fail, fail),
    );
    steps
}

/// Asking what an interface carries.
pub open spec fn query(iface: Seq<char>) -> step::ActionView {
    step::capture_view(
        "ip"@,
        line::blank().push("-j"@).push("-d"@).push("link"@).push("show"@).push("dev"@).push(iface),
    )
}

fn query_link(iface: &str) -> (r: Action)
    ensures
        r@ == query(iface@),
{
    step::capture("ip", line::start().w("-j").w("-d").w("link").w("show").w("dev").w(iface))
}

/// Taking the program off an interface.
pub open spec fn detach(iface: Seq<char>) -> step::ActionView {
    step::run_view(
        "ip"@,
        line::blank().push("link"@).push("set"@).push("dev"@).push(iface).push("xdp"@).push(
            "off"@,
        ),
    )
}

fn detach_link(iface: &str) -> (r: Action)
    ensures
        r@ == detach(iface@),
{
    step::run("ip", line::start().w("link").w("set").w("dev").w(iface).w("xdp").w("off"))
}

/// What follows from the recorded interface: reading which program was attached to it.
pub open spec fn after_iface(
    raw: Seq<char>,
    meta: Seq<char>,
    root: Seq<char>,
    fail: Next,
) -> Seq<step::StepView> {
    marker(
        meta,
        root,
        "prog_id"@,
        step::FollowView::XdpOwner { iface: text::trimmed(raw), fail },
        fail,
    )
}

/// Goes on from the recorded interface.
pub fn iface_known(raw: &str, meta: &str, root: &str, fail: Next) -> (r: Vec<Step>)
    ensures
        step::plan(r@) == after_iface(raw@, meta@, root@, fail),
{
    let iface = text::trim(raw);
    read_xdp_marker(
        meta,
        root,
        "prog_id",
        Follow::XdpOwner { iface: iface.to_owned(), fail },
        fail,
    )
}

/// What follows from the recorded program: asking what the interface carries now, where an
/// interface was recorded.
pub open spec fn after_owner(raw: Seq<char>, iface: Seq<char>, fail: Next) -> Result<
    Seq<step::StepView>,
    Refusal,
> {
    match number::unsigned(text::trimmed(raw), 0xffff_ffff) {
        None => Err(Refusal::BadProgramId),
        Some(owner) => if iface.len() == 0 {
            Ok(Seq::empty())
        } else {
            Ok(
                Seq::<step::StepView>::empty().push(
                    step::needing_view(query(iface), "querying link XDP state"@).followed(
                        step::FollowView::XdpOwned { iface, owner: owner as u32, fail },
                    ).inside(Block::Removal).going(Next::Skip(0), fail, fail),
                ),
            )
        },
    }
}

/// Goes on from the recorded program.
pub fn owner_known(raw: &str, iface: &str, fail: Next) -> (r: Result<Vec<Step>, Refusal>)
    ensures
        match r {
            Ok(steps) => after_owner(raw@, iface@, fail) == Ok::<Seq<step::StepView>, Refusal>(
                step::plan(steps@),
            ),
            Err(e) => after_owner(raw@, iface@, fail) == Err::<Seq<step::StepView>, Refusal>(e),
        },
{
    let owner: u32 = match number::parse_unsigned(text::trim(raw), 0xffff_ffff) {
        None => {
            return Err(Refusal::BadProgramId);
        },
        Some(n) => n as u32,
    };
    let mut steps = step::no_steps();
    if !iface.is_empty() {
        step::add_step(
            &mut steps,
            step::needing(query_link(iface), "querying link XDP state").follow_with(
                Follow::XdpOwned { iface: iface.to_owned(), owner, fail },
            ).inside(Block::Removal).going(Next::Skip(0), fail, fail),
        );
    }
    Ok(steps)
}

/// What follows from what an interface carries: the program is detached where it is the one
/// that was attached, another one is left alone, and one that cannot be told stops the work.
pub open spec fn after_state(
    seen: (bool, Option<u32>),
    iface: Seq<char>,
    owner: u32,
    fail: Next,
) -> Result<Seq<step::StepView>, Refusal> {
    match seen {
        (false, _) => Ok(Seq::empty()),
        (true, None) => Err(Refusal::XdpUnknown),
        (true, Some(id)) => if id == owner {
            Ok(
                Seq::<step::StepView>::empty().push(
                    step::must_view(
                        detach(iface),
                        "detaching FluxVM-owned XDP program"@,
                    ).inside(Block::Removal).going(Next::Skip(0), fail, fail),
                ),
            )
        } else {
            Ok(Seq::empty())
        },
    }
}

/// Goes on from what an interface carries.
pub fn state_known(seen: (bool, Option<u32>), iface: &str, owner: u32, fail: Next) -> (r: Result<
    Vec<Step>,
    Refusal,
>)
    ensures
        match r {
            Ok(steps) => after_state(seen, iface@, owner, fail) == Ok::<
                Seq<step::StepView>,
                Refusal,
            >(step::plan(steps@)),
            Err(e) => after_state(seen, iface@, owner, fail) == Err::<
                Seq<step::StepView>,
                Refusal,
            >(e),
        },
{
    let mut steps = step::no_steps();
    match seen {
        (false, _) => Ok(steps),
        (true, None) => Err(Refusal::XdpUnknown),
        (true, Some(id)) => {
            if id == owner {
                step::add_step(
                    &mut steps,
                    step::must(detach_link(iface), "detaching FluxVM-owned XDP program").inside(
                        Block::Removal,
                    ).going(Next::Skip(0), fail, fail),
                );
            }
            Ok(steps)
        },
    }
}

/// The removal of the guard. There is nothing to do where neither pins nor markers are there.
/// A step that fails goes on as `fail` says.
pub open spec fn removal(pin_root: Seq<char>, env: BpfEnv, fail: Next) -> Seq<step::StepView> {
    let root = path::joined(pin_root, "xdp"@);
    let meta = meta_dir(env);
    (Seq::<step::StepView>::empty().push(
        step::attempt_view(step::ActionView::Exists { path: root }).inside(Block::Removal).going(
            Next::Skip(1),
            Next::Skip(0),
            Next::Skip(0),
        ),
    ).push(
        step::attempt_view(step::ActionView::Exists { path: meta }).inside(Block::Removal).going(
            Next::Skip(0),
            Next::Leave,
            Next::Leave,
        ),
    ) + marker(
        meta,
        root,
        "iface"@,
        step::FollowView::XdpIface { meta, root, fail },
        fail,
    )).push(step::given_view(step::ActionView::Exists { path: root }).inside(Block::Removal)).push(
        step::must_view(
            step::ActionView::RemoveTree { path: root },
            "removing XDP pin directory "@ + root,
        ).inside(Block::Removal).going(Next::Skip(0), fail, fail),
    ).push(step::given_view(step::ActionView::Exists { path: meta }).inside(Block::Removal)).push(
        step::attempt_view(step::ActionView::RemoveTree { path: meta }).inside(Block::Removal),
    )
}

fn removal_steps(pin_root: &str, env: &BpfEnv, fail: Next) -> (r: Vec<Step>)
    ensures
        step::plan(r@) == removal(pin_root@, *env, fail),
{
    let root = path::join(pin_root, "xdp");
    let meta = xdp_meta_dir(env);
    let mut steps = step::no_steps();
    step::add_step(
        &mut steps,
        step::attempt(step::exists_at(root.as_str())).inside(Block::Removal).going(
            Next::Skip(1),
            Next::Skip(0),
            Next::Skip(0),
        ),
    );
    step::add_step(
        &mut steps,
        step::attempt(step::exists_at(meta.as_str())).inside(Block::Removal).going(
            Next::Skip(0),
            Next::Leave,
            Next::Leave,
        ),
    );
    let follow = Follow::XdpIface { meta: meta.clone(), root: root.clone(), fail };
    step::add_steps(
        &mut steps,
        read_xdp_marker(meta.as_str(), root.as_str(), "iface", follow, fail),
    );
    step::add_step(&mut steps, step::given(step::exists_at(root.as_str())).inside(Block::Removal));
    let context = "removing XDP pin directory ".to_owned().concat(root.as_str());
    step::add_step(
        &mut steps,
        step::must(step::remove_tree(root.as_str()), context.as_str()).inside(
            Block::Removal,
        ).going(Next::Skip(0), fail, fail),
    );
    step::add_step(&mut steps, step::given(step::exists_at(meta.as_str())).inside(Block::Removal));
    step::add_step(
        &mut steps,
        step::attempt(step::remove_tree(meta.as_str())).inside(Block::Removal),
    );
    steps
}

/// Removes the guard.
pub fn remove(cfg: &XdpConfig, env: &BpfEnv) -> (r: Job)
    ensures
        r@ == job::fresh(removal(cfg.pin_root@, *env, Next::Abort), Seq::empty()),
{
    Job::new(removal_steps(cfg.pin_root.as_str(), env, Next::Abort))
}

// ---------------------------------------------------------------------------------------------
// Applying
// ---------------------------------------------------------------------------------------------

/// Checking that `bpftool` is there.
pub open spec fn bpftool_check() -> step::StepView {
    step::needing_view(
        step::run_view("bpftool"@, line::blank().push("version"@)),
        "bpftool is required"@,
    )
}

/// Checks that `bpftool` is there.
pub fn require_bpftool() -> (r: Step)
    ensures
        r@ == bpftool_check(),
{
    step::needing(step::run("bpftool", line::start().w("version")), "bpftool is required")
}

/// Checking that `ip` is there.
pub open spec fn ip_check() -> step::StepView {
    step::needing_view(step::run_view("ip"@, line::blank().push("-V"@)), "ip is required"@)
}

/// Checks that `ip` is there.
pub fn require_ip() -> (r: Step)
    ensures
        r@ == ip_check(),
{
    step::needing(step::run("ip", line::start().w("-V")), "ip is required")
}

/// The key of a network in the block map: the length of the prefix, then the network.
pub open spec fn block_key(net: Ipv4Cidr, order: ByteOrder) -> Seq<u8> {
    ebpf::word(order, net.prefix as u32) + cidr::octets(net.network)
}

/// What is wrong with a text that describes no network, in words. Of a malformed address or
/// prefix there is nothing to add to the refusal itself.
pub open spec fn complaint(e: CidrError) -> Seq<char> {
    match e {
        CidrError::NoPrefix => "XDP CIDR must include /prefix"@,
        CidrError::PrefixTooLong => "IPv4 prefix must be <= 32"@,
        CidrError::BadAddress | CidrError::BadPrefix => Seq::empty(),
    }
}

/// Tells what is wrong with a text that describes no network.
pub fn explain(e: CidrError) -> (r: String)
    ensures
        r@ == complaint(e),
{
    match e {
        CidrError::NoPrefix => "XDP CIDR must include /prefix".to_owned(),
        CidrError::PrefixTooLong => "IPv4 prefix must be <= 32".to_owned(),
        CidrError::BadAddress | CidrError::BadPrefix => String::new(),
    }
}

/// The work of entering a network into the block map, where it is one.
pub open spec fn block(map: Seq<char>, raw: Seq<char>, order: ByteOrder) -> step::StepView {
    match cidr::parsed(raw) {
        Ok(net) => step::bare_view(
            ebpf::map_update(map, block_key(net, order), ebpf::word(order, 1)),
        ),
        Err(e) => step::must_view(
            step::ActionView::Refuse { reason: Refusal::Cidr(e) },
            complaint(e),
        ),
    }.going(Next::Skip(0), Next::Unwind, Next::Unwind)
}

fn block_step(map: &str, raw: &str, order: ByteOrder) -> (r: Step)
    ensures
        r@ == block(map@, raw@, order),
{
    let s = match cidr::parse_ipv4_cidr(raw) {
        Ok(net) => {
            let mut key = ebpf::to_word(order, net.prefix as u32);
            let mut net_bytes = cidr::to_octets(net.network);
            key.append(&mut net_bytes);
            let one = ebpf::to_word(order, 1);
            step::bare(ebpf::bpftool_map_update(map, key.as_slice(), one.as_slice()))
        },
        Err(e) => {
            let context = explain(e);
            step::must(step::refuse(Refusal::Cidr(e)), context.as_str())
        },
    };
    s.going(Next::Skip(0), Next::Unwind, Next::Unwind)
}

/// The work of entering several networks into the block map.
pub open spec fn blocks(map: Seq<char>, raws: Seq<Seq<char>>, order: ByteOrder) -> Seq<
    step::StepView,
> {
    raws.map_values(|raw: Seq<char>| block(map, raw, order))
}

/// The look at the interface that comes before anything is attached to it.
pub open spec fn look(iface: Seq<char>) -> step::StepView {
    step::needing_view(query(iface), "querying link XDP state"@).followed(
        step::FollowView::XdpFree { iface },
    )
}

/// What is checked before anything is changed, and the removal of an earlier attachment of our
/// own. That removal is best effort; what is attached behind it is somebody else's.
pub open spec fn preparation(cfg: XdpConfig, iface: Seq<char>, env: BpfEnv) -> Seq<
    step::StepView,
> {
    let root = path::joined(cfg.pin_root@, "xdp"@);
    let meta = meta_dir(env);
    (Seq::<step::StepView>::empty().push(
        step::must_view(
            step::ActionView::Exists { path: cfg.bpf_object@ },
            "XDP object does not exist at "@ + cfg.bpf_object@,
        ),
    ).push(bpftool_check()).push(ip_check()).push(
        step::bare_view(step::ActionView::RaiseMemlock),
    ) + removal(cfg.pin_root@, env, Next::Leave)).push(
        look(iface),
    ).push(
        step::bare_view(step::ActionView::MakeDirs { path: path::joined(root, "progs"@) }),
    ).push(
        step::bare_view(step::ActionView::MakeDirs { path: path::joined(root, "maps"@) }),
    ).push(step::bare_view(step::ActionView::MakeDirs { path: meta })).push(
        step::bare_view(
            step::ActionView::Write { path: path::joined(meta, "iface"@), text: iface },
        ),
    )
}

/// Loading the program, and recording which one it is.
pub open spec fn loading(cfg: XdpConfig, env: BpfEnv) -> Seq<step::StepView> {
    let root = path::joined(cfg.pin_root@, "xdp"@);
    let prog = path::joined(path::joined(root, "progs"@), "fluxvm_xdp_guard"@);
    Seq::<step::StepView>::empty().push(
        step::bare_view(
            step::run_view(
                "bpftool"@,
                line::blank().push("prog"@).push("load"@).push(cfg.bpf_object@).push(prog).push(
                    "type"@,
                ).push("xdp"@).push("pinmaps"@).push(path::joined(root, "maps"@)),
            ),
        ).going(Next::Skip(0), Next::Unwind, Next::Unwind),
    ).push(
        step::needing_view(
            step::capture_view(
                "bpftool"@,
                line::blank().push("-j"@).push("prog"@).push("show"@).push("pinned"@).push(prog),
            ),
            "querying pinned XDP program"@,
        ).followed(step::FollowView::XdpProgram { meta: meta_dir(env) }).going(
            Next::Skip(0),
            Next::Unwind,
            Next::Unwind,
        ),
    )
}

/// What follows from the program that was loaded: recording its id.
pub open spec fn after_program(id: u32, meta: Seq<char>) -> step::StepView {
    step::bare_view(
        step::ActionView::Write {
            path: path::joined(meta, "prog_id"@),
            text: number::decimal(id as nat),
        },
    ).going(Next::Skip(0), Next::Unwind, Next::Unwind)
}

/// Goes on from the program that was loaded.
pub fn program_known(id: u32, meta: &str) -> (r: Step)
    ensures
        r@ == after_program(id, meta@),
{
    let file = path::join(meta, "prog_id");
    let written = number::to_decimal(id as u64);
    step::bare(step::write(file.as_str(), written.as_str())).going(
        Next::Skip(0),
        Next::Unwind,
        Next::Unwind,
    )
}

/// Attaching the program to the interface.
pub open spec fn attaching(cfg: XdpConfig, iface: Seq<char>) -> step::StepView {
    let root = path::joined(cfg.pin_root@, "xdp"@);
    let prog = path::joined(path::joined(root, "progs"@), "fluxvm_xdp_guard"@);
    step::bare_view(
        step::run_view(
            "ip"@,
            line::blank().push("link"@).push("set"@).push("dev"@).push(iface).push("xdp"@).push(
                "pinned"@,
            ).push(prog),
        ),
    ).going(Next::Skip(0), Next::Unwind, Next::Unwind)
}

/// Bringing the guard onto its interface. From the moment the program is loaded, a failure
/// takes everything away again.
pub open spec fn application(cfg: XdpConfig, env: BpfEnv, order: ByteOrder) -> job::JobView {
    match cfg.interface {
        None => job::fresh(
            Seq::<step::StepView>::empty().push(
                step::must_view(
                    step::ActionView::Refuse { reason: Refusal::XdpNoInterface },
                    "xdp.enabled=true requires xdp.interface"@,
                ),
            ),
            Seq::empty(),
        ),
        Some(iface) => job::fresh(
            (preparation(cfg, iface@, env) + loading(cfg, env) + blocks(
                path::joined(
                    path::joined(path::joined(cfg.pin_root@, "xdp"@), "maps"@),
                    "fvm_xdp_block4"@,
                ),
                cfg.block_cidrs.deep_view(),
                order,
            )).push(attaching(cfg, iface@)),
            removal(cfg.pin_root@, env, Next::Leave),
        ),
    }
}

fn preparation_steps(cfg: &XdpConfig, iface: &str, env: &BpfEnv) -> (r: Vec<Step>)
    ensures
        step::plan(r@) == preparation(*cfg, iface@, *env),
{
    let root = path::join(cfg.pin_root.as_str(), "xdp");
    let meta = xdp_meta_dir(env);
    let progs = path::join(root.as_str(), "progs");
    let maps = path::join(root.as_str(), "maps");
    let record = path::join(meta.as_str(), "iface");
    let mut steps = step::no_steps();
    let context = "XDP object does not exist at ".to_owned().concat(cfg.bpf_object.as_str());
    step::add_step(
        &mut steps,
        step::must(step::exists_at(cfg.bpf_object.as_str()), context.as_str()),
    );
    step::add_step(&mut steps, require_bpftool());
    step::add_step(&mut steps, require_ip());
    step::add_step(&mut steps, step::bare(Action::RaiseMemlock));
    step::add_steps(&mut steps, removal_steps(cfg.pin_root.as_str(), env, Next::Leave));
    step::add_step(
        &mut steps,
        step::needing(query_link(iface), "querying link XDP state").follow_with(
            Follow::XdpFree { iface: iface.to_owned() },
        ),
    );
    step::add_step(&mut steps, step::bare(step::make_dirs(progs.as_str())));
    step::add_step(&mut steps, step::bare(step::make_dirs(maps.as_str())));
    step::add_step(&mut steps, step::bare(step::make_dirs(meta.as_str())));
    step::add_step(&mut steps, step::bare(step::write(record.as_str(), iface)));
    steps
}

fn loading_steps(cfg: &XdpConfig, env: &BpfEnv) -> (r: Vec<Step>)
    ensures
        step::plan(r@) == loading(*cfg, *env),
{
    let root = path::join(cfg.pin_root.as_str(), "xdp");
    let prog = path::join(path::join(root.as_str(), "progs").as_str(), "fluxvm_xdp_guard");
    let maps = path::join(root.as_str(), "maps");
    let meta = xdp_meta_dir(env);
    let mut steps = step::no_steps();
    step::add_step(
        &mut steps,
        step::bare(
            step::run(
                "bpftool",
                line::start().w("prog").w("load").w(cfg.bpf_object.as_str()).w(prog.as_str()).w(
                    "type",
                ).w("xdp").w("pinmaps").w(maps.as_str()),
            ),
        ).going(Next::Skip(0), Next::Unwind, Next::Unwind),
    );
    step::add_step(
        &mut steps,
        step::needing(
            step::capture(
                "bpftool",
                line::start().w("-j").w("prog").w("show").w("pinned").w(prog.as_str()),
            ),
            "querying pinned XDP program",
        ).follow_with(Follow::XdpProgram { meta }).going(
            Next::Skip(0),
            Next::Unwind,
            Next::Unwind,
        ),
    );
    steps
}

/// Brings the guard onto its interface.
pub fn apply(cfg: &XdpConfig, env: &BpfEnv, order: ByteOrder) -> (r: Job)
    ensures
        r@ == application(*cfg, *env, order),
{
    let iface = match &cfg.interface {
        None => {
            let mut steps = step::no_steps();
            step::add_step(
                &mut steps,
                step::must(
                    step::refuse(Refusal::XdpNoInterface),
                    "xdp.enabled=true requires xdp.interface",
                ),
            );
            return Job::new(steps);
        },
        Some(iface) => iface.as_str(),
    };
    let root = path::join(cfg.pin_root.as_str(), "xdp");
    let prog = path::join(path::join(root.as_str(), "progs").as_str(), "fluxvm_xdp_guard");
    let map = path::join(path::join(root.as_str(), "maps").as_str(), "fvm_xdp_block4");
    let mut steps = preparation_steps(cfg, iface, env);
    step::add_steps(&mut steps, loading_steps(cfg, env));
    let ghost before = step::plan(steps@);
    let ghost raws = cfg.block_cidrs.deep_view();
    let mut i: usize = 0;
    assert(before + blocks(map@, raws.take(0), order) =~= before);
    while i < cfg.block_cidrs.len()
        invariant
            i <= cfg.block_cidrs.len(),
            raws == cfg.block_cidrs.deep_view(),
            step::plan(steps@) == before + blocks(map@, raws.take(i as int), order),
        decreases cfg.block_cidrs.len() - i,
    {
        step::add_step(
            &mut steps,
            block_step(map.as_str(), cfg.block_cidrs[i].as_str(), order),
        );
        assert(step::plan(steps@) =~= before + blocks(map@, raws.take(i + 1), order));
        i += 1;
    }
    assert(raws.take(cfg.block_cidrs.len() as int) =~= raws);
    step::add_step(
        &mut steps,
        step::bare(
            step::run(
                "ip",
                line::start().w("link").w("set").w("dev").w(iface).w("xdp").w("pinned").w(
                    prog.as_str(),
                ),
            ),
        ).going(Next::Skip(0), Next::Unwind, Next::Unwind),
    );
    Job::with_undo(steps, removal_steps(cfg.pin_root.as_str(), env, Next::Leave))
}

/// Bringing up the guard where the configuration asks for it.
pub open spec fn ensured(cfg: DataplaneConfig, env: BpfEnv, order: ByteOrder) -> job::JobView {
    if !cfg.xdp.enabled {
        job::fresh(Seq::empty(), Seq::empty())
    } else if cfg.mode == DataplaneMode::Cilium {
        job::fresh(
            Seq::<step::StepView>::empty().push(
                step::must_view(
                    step::ActionView::Refuse { reason: Refusal::XdpWithCilium },
                    "FluxVM XDP guard is disabled in dataplane.mode=cilium to avoid replacing Cilium XDP; use Cilium's node XDP features instead"@,
                ),
            ),
            Seq::empty(),
        )
    } else {
        application(cfg.xdp, env, order)
    }
}

/// Brings up the guard where the configuration asks for it.
pub fn ensure(cfg: &DataplaneConfig, env: &BpfEnv, order: ByteOrder) -> (r: Job)
    ensures
        r@ == ensured(*cfg, *env, order),
{
    if !cfg.xdp.enabled {
        return Job::new(step::no_steps());
    }
    if cfg.mode == DataplaneMode::Cilium {
        let mut steps = step::no_steps();
        step::add_step(
            &mut steps,
            step::must(
                step::refuse(Refusal::XdpWithCilium),
                "FluxVM XDP guard is disabled in dataplane.mode=cilium to avoid replacing Cilium XDP; use Cilium's node XDP features instead",
            ),
        );
        return Job::new(steps);
    }
    apply(&cfg.xdp, env, order)
}

// ---------------------------------------------------------------------------------------------
// Laws
// ---------------------------------------------------------------------------------------------

/// A program is detached exactly where the interface carries the one that was attached.
pub proof fn law_only_own_program_is_detached(
    seen: (bool, Option<u32>),
    iface: Seq<char>,
    owner: u32,
    fail: Next,
)
    ensures
        (after_state(seen, iface, owner, fail) matches Ok(steps) && exists|i: int|
            0 <= i < steps.len() && (#[trigger] steps[i]).action == detach(iface)) <==> seen == (
            true,
            Some(owner),
        ),
        after_state(seen, iface, owner, fail) is Err <==> seen == (true, None::<u32>),
{
    if seen == (true, Some(owner)) {
        let steps = after_state(seen, iface, owner, fail)->Ok_0;
        assert(steps[0].action == detach(iface));
    }
}

/// The id that was recorded is the id that is compared: what is written behind a load is what
/// the removal reads.
pub proof fn law_recorded_program_is_the_owner(id: u32, meta: Seq<char>, iface: Seq<char>, fail: Next)
    requires
        iface.len() > 0,
    ensures
        after_program(id, meta).action matches step::ActionView::Write { path, text } && path
            == path::joined(meta, "prog_id"@) && (after_owner(text, iface, fail) matches Ok(steps)
            && steps.len() == 1 && steps[0].follow == (step::FollowView::XdpOwned {
            iface,
            owner: id,
            fail,
        })),
{
    number::lemma_decimal_digits(id as nat);
    number::lemma_trim_digits(number::decimal(id as nat));
    number::law_decimal_round_trip(id as nat, 0xffff_ffff);
}

/// The removal of the guard where it is best effort never fails, whatever the host replies.
pub proof fn law_best_effort_removal_never_fails(
    pin_root: Seq<char>,
    env: BpfEnv,
    replies: Seq<step::ReplyView>,
)
    ensures
        job::after(
            job::fresh(removal(pin_root, env, Next::Leave), Seq::empty()),
            replies,
        ).failure is None,
{
    job::law_harmless_work_succeeds(
        job::fresh(removal(pin_root, env, Next::Leave), Seq::empty()),
        replies,
    );
}

/// The work on an interface from that look on.
pub open spec fn from_look(cfg: XdpConfig, env: BpfEnv, order: ByteOrder) -> Seq<
    step::StepView,
> {
    let todo = application(cfg, env, order).todo;
    todo.skip(4 + removal(cfg.pin_root@, env, Next::Leave).len() as int)
}

/// Whether a reply says that an interface carries no program.
pub open spec fn says_free(reply: step::ReplyView) -> bool {
    reply matches step::ReplyView::Output(bytes) && (output_state(bytes) matches Ok(seen)
        && !seen.0)
}

proof fn lemma_look_is_first(cfg: XdpConfig, iface: Seq<char>, env: BpfEnv, order: ByteOrder)
    requires
        cfg.interface matches Some(i) && i@ == iface,
    ensures
        from_look(cfg, env, order).len() > 0,
        from_look(cfg, env, order)[0] == look(iface),
        ({
            let k = 4 + removal(cfg.pin_root@, env, Next::Leave).len();
            let todo = application(cfg, env, order).todo;
            &&& job::leads_on(todo.take(k as int))
            &&& todo == todo.take(k as int) + from_look(cfg, env, order)
        }),
{
    let r = removal(cfg.pin_root@, env, Next::Leave);
    let k = 4 + r.len();
    let todo = application(cfg, env, order).todo;
    let checks = todo.take(4);
    assert(r.len() == 9);
    assert(todo[13] == look(iface));
    assert(todo.take(k as int) =~= checks + r);
    assert(job::leads_on(checks));
    assert(job::leads_on(r));
    job::lemma_leads_on_add(checks, r);
    assert(todo =~= todo.take(k as int) + todo.skip(k as int));
}

/// A program that is there already is never replaced. As long as the work has not failed,
/// everything from the look at the interface on is still to be done, unless the host has said,
/// right at that look, that the interface carries no program.
pub proof fn law_no_program_is_replaced(
    cfg: XdpConfig,
    iface: Seq<char>,
    env: BpfEnv,
    order: ByteOrder,
    replies: Seq<step::ReplyView>,
)
    requires
        cfg.interface matches Some(i) && i@ == iface,
    ensures
        ({
            let start = application(cfg, env, order);
            let tail = from_look(cfg, env, order);
            ||| job::after(start, replies).failure is Some
            ||| tail.is_suffix_of(job::after(start, replies).todo)
            ||| exists|k: int|
                0 <= k < replies.len() && (#[trigger] job::after(start, replies.take(k))).todo
                    == tail && says_free(replies[k])
        }),
{
    let start = application(cfg, env, order);
    let tail = from_look(cfg, env, order);
    let k0 = 4 + removal(cfg.pin_root@, env, Next::Leave).len();
    lemma_look_is_first(cfg, iface, env, order);
    job::law_nothing_is_passed_over(start, start.todo.take(k0 as int), tail, replies);
    if job::after(start, replies).failure is None && !tail.is_suffix_of(
        job::after(start, replies).todo,
    ) {
        let k = choose|k: int|
            0 <= k < replies.len() && (#[trigger] job::after(start, replies.take(k))).todo == tail;
        let at = job::after(start, replies.take(k));
        job::lemma_after_split(start, replies, k);
        if at.failure is Some {
            job::law_first_failure_stays(at, replies.skip(k));
        }
        if !says_free(replies[k]) {
            job::lemma_no_replacement(start, replies.take(k));
            assert(replies.skip(k)[0] == replies[k]);
            assert(job::resumed(at, replies[k]).failure is Some);
            job::law_first_failure_stays(job::resumed(at, replies[k]), replies.skip(k).skip(1));
        }
    }
}

/// An interface that carries a program is left as it is: the work ends there, with nothing left
/// to do.
pub proof fn law_busy_interface_is_left_alone(
    job: job::JobView,
    iface: Seq<char>,
    bytes: Seq<u8>,
)
    requires
        job.todo.len() > 0,
        job.todo[0] == look(iface),
        job.instead is None,
        job.failure is None,
        output_state(bytes) matches Ok(seen) && seen.0,
    ensures
        job::resumed(job, step::ReplyView::Output(bytes)).todo.len() == 0,
        job::resumed(job, step::ReplyView::Output(bytes)).failure == Some(
            step::FailureView {
                context: "interface "@ + iface,
                cause: step::CauseView::Refused(Refusal::XdpBusy),
            },
        ),
{
}

/// Once the program is being loaded, work that fails goes on with taking everything away.
pub proof fn law_failed_load_is_taken_away(
    cfg: XdpConfig,
    iface: Seq<char>,
    env: BpfEnv,
    order: ByteOrder,
    replies: Seq<step::ReplyView>,
    last: step::ReplyView,
)
    requires
        cfg.interface matches Some(i) && i@ == iface,
        ({
            let start = job::fresh(
                application(cfg, env, order).todo.skip(preparation(cfg, iface, env).len() as int),
                application(cfg, env, order).undo,
            );
            &&& job::after(start, replies).failure is None
            &&& job::resumed(job::after(start, replies), last).failure is Some
        }),
    ensures
        job::resumed(
            job::after(
                job::fresh(
                    application(cfg, env, order).todo.skip(
                        preparation(cfg, iface, env).len() as int,
                    ),
                    application(cfg, env, order).undo,
                ),
                replies,
            ),
            last,
        ).todo == removal(cfg.pin_root@, env, Next::Leave),
{
    let todo = application(cfg, env, order).todo;
    let tail = todo.skip(preparation(cfg, iface, env).len() as int);
    assert forall|i: int| 0 <= i < tail.len() implies job::guarded(#[trigger] tail[i]) by {
        let map = path::joined(
            path::joined(path::joined(cfg.pin_root@, "xdp"@), "maps"@),
            "fvm_xdp_block4"@,
        );
        let all = blocks(map, cfg.block_cidrs.deep_view(), order);
        if 2 <= i < 2 + all.len() {
            assert(tail[i] == all[i - 2]);
        }
    }
    job::law_guarded_work_is_undone(
        job::fresh(tail, application(cfg, env, order).undo),
        replies,
        last,
    );
}

/// Next to Cilium the guard is never brought up: the work fails with its first step, and leaves
/// nothing to do.
pub proof fn law_guard_is_refused_next_to_cilium(
    cfg: DataplaneConfig,
    env: BpfEnv,
    order: ByteOrder,
    reply: step::ReplyView,
)
    requires
        cfg.xdp.enabled,
        cfg.mode == DataplaneMode::Cilium,
    ensures
        job::resumed(ensured(cfg, env, order), reply).todo.len() == 0,
        job::resumed(ensured(cfg, env, order), reply).failure matches Some(f) && f.cause
            == step::CauseView::Refused(Refusal::XdpWithCilium),
{
}

/// A guard that is switched off needs no work.
pub proof fn law_guard_switched_off_is_no_work(cfg: DataplaneConfig, env: BpfEnv, order: ByteOrder)
    requires
        !cfg.xdp.enabled,
    ensures
        ensured(cfg, env, order).todo.len() == 0,
        ensured(cfg, env, order).failure is None,
{
}

/// The entry that is made for a network is read as that network.
#[verifier::spinoff_prover]
#[verifier::rlimit(50)]
pub proof fn law_block_entry_is_read(map: Seq<char>, net: Ipv4Cidr, order: ByteOrder)
    ensures
        model::blocks_network(
            ebpf::map_update(map, block_key(net, order), ebpf::word(order, 1)),
            map,
            net.prefix as int,
            net.network,
            order,
        ),
{
    let action = ebpf::map_update(map, block_key(net, order), ebpf::word(order, 1));
    let args = model::arguments(action);
    assert(args.subrange(6, 10) =~= ebpf::hex_words(ebpf::word(order, net.prefix as u32)));
    ebpf::law_word_is_read(args, 6, order, net.prefix as u32);
    assert(args.subrange(10, 14) =~= ebpf::hex_words(ebpf::word(ByteOrder::Big, net.network)));
    ebpf::law_word_is_read(args, 10, ByteOrder::Big, net.network);
    assert(args.subrange(16, 20) =~= ebpf::hex_words(ebpf::word(order, 1)));
    ebpf::law_word_is_read(args, 16, order, 1);
}

/// Whether a step enters the network of a text into a block map, or refuses a text that is no
/// network.
pub open spec fn settles(
    s: step::StepView,
    map: Seq<char>,
    raw: Seq<char>,
    order: ByteOrder,
) -> bool {
    match cidr::parsed(raw) {
        Ok(net) => model::blocks_network(s.action, map, net.prefix as int, net.network, order),
        Err(e) => s.action == step::ActionView::Refuse { reason: Refusal::Cidr(e) },
    }
}

/// The program is loaded, then every network that is to be blocked is entered into one of the
/// maps that it was loaded with, and only then it is attached to the interface: the last thing
/// that is done. A text that is no network is refused in its turn. Whatever of this fails is
/// undone.
#[verifier::spinoff_prover]
#[verifier::rlimit(50)]
pub proof fn law_every_block_is_entered(
    cfg: XdpConfig,
    iface: Seq<char>,
    env: BpfEnv,
    order: ByteOrder,
    i: int,
)
    requires
        cfg.interface matches Some(f) && f@ == iface,
        0 <= i < cfg.block_cidrs@.len(),
    ensures
        ({
            let todo = application(cfg, env, order).todo;
            let root = path::joined(cfg.pin_root@, "xdp"@);
            let maps = path::joined(root, "maps"@);
            let pin = path::joined(path::joined(root, "progs"@), "fluxvm_xdp_guard"@);
            &&& exists|l: int, k: int|
                #![trigger todo[l], todo[k]]
                {
                    &&& 0 <= l < k < todo.len() - 1
                    &&& model::loads(todo[l].action, cfg.bpf_object@, pin, "xdp"@, maps)
                    &&& todo[l].on_failure == Next::Unwind
                    &&& settles(
                        todo[k],
                        path::joined(maps, "fvm_xdp_block4"@),
                        cfg.block_cidrs@[i]@,
                        order,
                    )
                    &&& todo[k].on_failure == Next::Unwind
                }
            &&& model::guards(todo.last().action, iface, pin)
            &&& todo.last().on_failure == Next::Unwind
        }),
{
    let todo = application(cfg, env, order).todo;
    let root = path::joined(cfg.pin_root@, "xdp"@);
    let map = path::joined(path::joined(root, "maps"@), "fvm_xdp_block4"@);
    let raws = cfg.block_cidrs.deep_view();
    let l = preparation(cfg, iface, env).len() as int;
    let k = l + 2 + i;
    assert(raws[i] == cfg.block_cidrs@[i]@);
    assert(blocks(map, raws, order)[i] == block(map, raws[i], order));
    assert(todo[l] == loading(cfg, env)[0]);
    assert(todo[k] == block(map, raws[i], order));
    if let Ok(net) = cidr::parsed(raws[i]) {
        law_block_entry_is_read(map, net, order);
    }
}

/// Nothing is blocked that the configuration does not name.
#[verifier::spinoff_prover]
#[verifier::rlimit(50)]
pub proof fn law_nothing_else_is_blocked(
    cfg: XdpConfig,
    iface: Seq<char>,
    env: BpfEnv,
    order: ByteOrder,
    k: int,
)
    requires
        cfg.interface matches Some(f) && f@ == iface,
        0 <= k < application(cfg, env, order).todo.len(),
        model::runs(application(cfg, env, order).todo[k].action, "bpftool"@),
        model::arguments(application(cfg, env, order).todo[k].action)[0] == "map"@,
    ensures
        exists|i: int|
            0 <= i < cfg.block_cidrs@.len() && settles(
                application(cfg, env, order).todo[k],
                path::joined(
                    path::joined(path::joined(cfg.pin_root@, "xdp"@), "maps"@),
                    "fvm_xdp_block4"@,
                ),
                (#[trigger] cfg.block_cidrs@[i])@,
                order,
            ),
{
    reveal_strlit("map");
    reveal_strlit("prog");
    reveal_strlit("version");
    reveal_strlit("bpftool");
    reveal_strlit("ip");
    assert("map"@.len() == 3 && "prog"@.len() == 4 && "version"@.len() == 7);
    assert("bpftool"@.len() == 7 && "ip"@.len() == 2);
    let todo = application(cfg, env, order).todo;
    let raws = cfg.block_cidrs.deep_view();
    let p = preparation(cfg, iface, env);
    let r = removal(cfg.pin_root@, env, Next::Leave);
    let map = path::joined(
        path::joined(path::joined(cfg.pin_root@, "xdp"@), "maps"@),
        "fvm_xdp_block4"@,
    );
    if k < p.len() {
        assert(todo[k] == p[k]);
        if 4 <= k < 4 + r.len() {
            assert(p[k] == r[k - 4]);
            assert(r.len() == 9);
            assert(!model::runs(r[k - 4].action, "bpftool"@));
        }
        assert(p.len() == 9 + r.len());
    } else if k < p.len() + 2 {
        assert(todo[k] == loading(cfg, env)[k - p.len()]);
    } else if k < todo.len() - 1 {
        let i = k - p.len() - 2;
        assert(blocks(map, raws, order)[i] == block(map, raws[i], order));
        assert(raws[i] == cfg.block_cidrs@[i]@);
        assert(todo[k] == block(map, raws[i], order));
        if let Ok(net) = cidr::parsed(raws[i]) {
            law_block_entry_is_read(map, net, order);
        }
    } else {
        assert(todo[k] == attaching(cfg, iface));
    }
}

/// The guard that is switched on is brought onto its interface wherever no other dataplane owns
/// it, and one without an interface is refused.
pub proof fn law_guard_switched_on_is_brought_up(cfg: DataplaneConfig, env: BpfEnv, order: ByteOrder)
    requires
        cfg.xdp.enabled,
        cfg.mode != DataplaneMode::Cilium,
    ensures
        ensured(cfg, env, order) == application(cfg.xdp, env, order),
        cfg.xdp.interface is Some ==> ensured(cfg, env, order).todo.len() > 0
            && model::guards(
            ensured(cfg, env, order).todo.last().action,
            cfg.xdp.interface->Some_0@,
            path::joined(
                path::joined(path::joined(cfg.xdp.pin_root@, "xdp"@), "progs"@),
                "fluxvm_xdp_guard"@,
            ),
        ),
        cfg.xdp.interface is None ==> ensured(cfg, env, order).todo.len() == 1 && ensured(
            cfg,
            env,
            order,
        ).todo[0].action == (step::ActionView::Refuse { reason: Refusal::XdpNoInterface }),
{
}

/// Entries of different networks do not meet in the block map.
pub proof fn law_block_key_injective(m: Ipv4Cidr, n: Ipv4Cidr, order: ByteOrder)
    requires
        block_key(m, order) == block_key(n, order),
    ensures
        m == n,
{
    let a = block_key(m, order);
    let b = block_key(n, order);
    assert(a.take(4) =~= ebpf::word(order, m.prefix as u32));
    assert(b.take(4) =~= ebpf::word(order, n.prefix as u32));
    assert(a.skip(4) =~= cidr::octets(m.network));
    assert(b.skip(4) =~= cidr::octets(n.network));
    ebpf::law_word_injective(order, m.prefix as u32, n.prefix as u32);
    ebpf::law_word_injective(ByteOrder::Big, m.network, n.network);
}

/// Whether what follows from the answer to a step is part of removing the guard.
pub open spec fn removes(follow: step::FollowView) -> bool {
    follow is Nothing || follow is XdpIface || follow is XdpOwner || follow is XdpOwned
}

/// Whether a removal is under way in which no program is run but, at most, right now.
pub open spec fn removing(job: job::JobView) -> bool {
    &&& job.undo.len() == 0
    &&& job.instead is None
    &&& forall|i: int| 0 <= i < job.todo.len() ==> removes((#[trigger] job.todo[i]).follow)
    &&& forall|i: int| 1 <= i < job.todo.len() ==> (#[trigger] job.todo[i]).action !is Run
}

/// Whether steps belong to a removal and run no program.
spec fn waiting(steps: Seq<step::StepView>) -> bool {
    forall|i: int|
        0 <= i < steps.len() ==> removes((#[trigger] steps[i]).follow) && steps[i].action !is Run
}

proof fn lemma_waiting_skip(steps: Seq<step::StepView>, k: int)
    requires
        waiting(steps),
        0 <= k <= steps.len(),
    ensures
        waiting(steps.skip(k)),
{
    assert forall|i: int| 0 <= i < steps.skip(k).len() implies removes(
        (#[trigger] steps.skip(k)[i]).follow,
    ) && steps.skip(k)[i].action !is Run by {
        assert(steps.skip(k)[i] == steps[i + k]);
    }
}

proof fn lemma_waiting_is_removing(job: job::JobView)
    requires
        waiting(job.todo),
        job.undo.len() == 0,
        job.instead is None,
    ensures
        removing(job),
        job.todo.len() > 0 ==> job.todo[0].action !is Run,
{
}

proof fn lemma_removing_answer(follow: step::FollowView, reply: step::ReplyView)
    requires
        removes(follow),
    ensures
        follow::answered(follow, reply) matches Ok(a) ==> {
            &&& !a.leave
            &&& waiting(a.steps) || a.steps.len() == 1 && a.steps[0].follow is Nothing && (follow
                matches step::FollowView::XdpOwned { iface, owner, fail: _ } && (reply
                matches step::ReplyView::Output(bytes) && output_state(bytes) == Ok::<
                (bool, Option<u32>),
                Refusal,
            >((true, Some(owner)))) && a.steps[0].action == detach(iface))
        },
{
}

proof fn lemma_removing_step(job: job::JobView, reply: step::ReplyView)
    requires
        removing(job),
    ensures
        removing(job::resumed(job, reply)),
        ({
            let next = job::resumed(job, reply);
            job.todo.len() > 0 && next.todo.len() > 0 && next.todo[0].action is Run
                ==> seen_as_own(job, reply, next.todo[0].action)
        }),
{
    if job.todo.len() > 0 {
        let head = job.todo[0];
        let rest = job.todo.skip(1);
        let next = job::resumed(job, reply);
        assert(removes(head.follow));
        assert(waiting(rest)) by {
            assert forall|i: int| 0 <= i < rest.len() implies removes(
                (#[trigger] rest[i]).follow,
            ) && rest[i].action !is Run by {
                assert(rest[i] == job.todo[i + 1]);
            }
        }
        let failed = job::lemma_onward_is_rest(rest, head.on_failure, head.block);
        let missed = job::lemma_onward_is_rest(rest, head.on_missing, head.block);
        let done = job::lemma_onward_is_rest(rest, head.on_success, head.block);
        lemma_waiting_skip(rest, failed);
        lemma_waiting_skip(rest, missed);
        lemma_waiting_skip(rest, done);
        lemma_removing_answer(head.follow, reply);
        let answered = !(head.action is Refuse) && !(reply is Failed) && !(reply is Missing)
            && follow::answered(head.follow, reply) is Ok;
        if answered {
            let a = follow::answered(head.follow, reply)->Ok_0;
            let tail = rest.skip(done);
            assert(next.todo == a.steps + tail);
            lemma_answer_then_rest(a.steps, tail);
            if waiting(a.steps) {
                lemma_waiting_is_removing(next);
            }
        } else {
            assert(waiting(next.todo));
            lemma_waiting_is_removing(next);
        }
    }
}

proof fn lemma_answer_then_rest(first: Seq<step::StepView>, rest: Seq<step::StepView>)
    requires
        waiting(rest),
        waiting(first) || first.len() == 1 && removes(first[0].follow),
    ensures
        waiting(first) ==> waiting(first + rest),
        forall|i: int|
            0 <= i < (first + rest).len() ==> removes((#[trigger] (first + rest)[i]).follow),
        forall|i: int|
            1 <= i < (first + rest).len() ==> (#[trigger] (first + rest)[i]).action !is Run,
        first.len() > 0 ==> (first + rest)[0] == first[0],
{
    let all = first + rest;
    assert forall|i: int| first.len() <= i < all.len() implies #[trigger] all[i] == rest[i
        - first.len()] by {}
    assert forall|i: int| 0 <= i < first.len() implies #[trigger] all[i] == first[i] by {}
}

/// Whether a reply says that an interface carries the very program that was attached to it, and
/// an action takes that program off.
pub open spec fn seen_as_own(
    job: job::JobView,
    reply: step::ReplyView,
    action: step::ActionView,
) -> bool {
    job.todo[0].follow matches step::FollowView::XdpOwned { iface, owner, fail: _ } && (reply
        matches step::ReplyView::Output(bytes) && output_state(bytes) == Ok::<
        (bool, Option<u32>),
        Refusal,
    >((true, Some(owner)))) && action == detach(iface)
}

/// The only program that the removal of the guard ever runs is the one that detaches, and only
/// right behind the host's word that the interface carries the very program that was attached.
pub proof fn law_detaches_only_what_was_seen(
    pin_root: Seq<char>,
    env: BpfEnv,
    fail: Next,
    replies: Seq<step::ReplyView>,
    last: step::ReplyView,
)
    ensures
        ({
            let start = job::fresh(removal(pin_root, env, fail), Seq::empty());
            let before = job::after(start, replies);
            let now = job::resumed(before, last);
            before.todo.len() > 0 && now.todo.len() > 0 && now.todo[0].action is Run
                ==> seen_as_own(before, last, now.todo[0].action)
        }),
{
    let start = job::fresh(removal(pin_root, env, fail), Seq::empty());
    assert(removing(start));
    lemma_removing_run(start, replies);
    lemma_removing_step(job::after(start, replies), last);
}

proof fn lemma_removing_run(job: job::JobView, replies: Seq<step::ReplyView>)
    requires
        removing(job),
    ensures
        removing(job::after(job, replies)),
    decreases replies.len(),
{
    if replies.len() > 0 {
        lemma_removing_step(job, replies[0]);
        lemma_removing_run(job::resumed(job, replies[0]), replies.skip(1));
    }
}

/// The whole number that a document is, where there is one.
pub open spec fn whole_of(doc: Option<json::Json>) -> Option<u64> {
    match doc {
        Some(d) => json::whole(d),
        None => None,
    }
}

/// The member of a member of a document.
pub open spec fn inner_member(
    doc: json::Json,
    outer: Seq<char>,
    inner: Seq<char>,
) -> Option<json::Json> {
    match json::member(doc, outer) {
        Some(d) => json::member(d, inner),
        None => None,
    }
}

/// A link carries a program exactly where its report about XDP says anything at all. The program
/// is the one that `prog.id` names, or that `prog_id` names where there is no such number, as far
/// as the number has 32 bits.
pub proof fn law_report_is_read(links: Seq<json::Json>, x: json::Json, n: u64)
    requires
        links.len() > 0,
        json::member(links[0], "xdp"@) == Some(x),
        !(x is Null),
    ensures
        ({
            let seen = state(json::Json::Array(links));
            let modern = whole_of(inner_member(x, "prog"@, "id"@));
            let plain = whole_of(json::member(x, "prog_id"@));
            &&& seen.0 <==> exists|key: Seq<char>| json::member(x, key) is Some
            &&& modern == Some(n) || modern is None && plain == Some(n) ==> (n <= 0xffff_ffff
                ==> seen.1 == Some(n as u32)) && (n > 0xffff_ffff ==> seen.1 is None)
            &&& modern is None && plain is None ==> seen.1 is None
        }),
{
}

/// A link of which nothing is reported carries no program.
pub proof fn law_nothing_reported_is_nothing_attached(doc: json::Json)
    requires
        match doc {
            json::Json::Array(links) => links.len() == 0 || json::member(links[0], "xdp"@) is None
                || json::member(links[0], "xdp"@) == Some(json::Json::Null),
            _ => true,
        },
    ensures
        state(doc) == (false, None::<u32>),
{
}

/// The program that is pinned is the one that the report names by its id, whether the report is a
/// list or the program itself. A report that names none is refused.
pub proof fn law_pinned_program_is_read(list: Seq<json::Json>, program: json::Json, n: u64)
    requires
        list.len() > 0,
        list[0] == program,
        !(program is Array),
    ensures
        pinned(json::Json::Array(list)) == pinned(program),
        whole_of(json::member(program, "id"@)) == Some(n) ==> pinned(program) == if n <= 0xffff_ffff {
            Ok::<u32, Refusal>(n as u32)
        } else {
            Err::<u32, Refusal>(Refusal::ProgramIdTooLarge)
        },
        whole_of(json::member(program, "id"@)) is None ==> pinned(program) == Err::<u32, Refusal>(
            Refusal::NoProgramId,
        ),
        pinned(json::Json::Array(Seq::empty())) == Err::<u32, Refusal>(Refusal::NoProgram),
{
}

/// The removal of the guard looks for the recorded interface, in the metadata before anywhere
/// else, and then removes the pins and the metadata.
#[verifier::spinoff_prover]
#[verifier::rlimit(50)]
pub proof fn law_removal_clears_every_place(pin_root: Seq<char>, env: BpfEnv, fail: Next)
    ensures
        ({
            let steps = removal(pin_root, env, fail);
            let root = path::joined(pin_root, "xdp"@);
            let meta = match env.meta_root {
                Some(m) => path::joined(m@, "xdp"@),
                None => "/run/fluxvm/xdp"@,
            };
            &&& ebpf::removes(steps, root)
            &&& ebpf::removes(steps, meta)
            &&& steps[3].action == (step::ActionView::Read { path: path::joined(meta, "iface"@) })
            &&& steps[4].action == (step::ActionView::Read { path: path::joined(root, "iface"@) })
            &&& steps[3].on_success == Next::Skip(1)
            &&& steps[3].follow == (step::FollowView::XdpIface { meta, root, fail })
            &&& steps[4].follow == steps[3].follow
            &&& steps[3].on_failure == fail
            &&& steps[4].on_failure == fail
            &&& steps[6].action == (step::ActionView::RemoveTree { path: root })
            &&& steps[6].on_failure == fail
        }),
{
    let steps = removal(pin_root, env, fail);
    assert(steps.len() == 9);
    assert(steps[6].action == (step::ActionView::RemoveTree {
        path: path::joined(pin_root, "xdp"@),
    }));
    assert(steps[8].action == (step::ActionView::RemoveTree { path: meta_dir(env) }));
}

/// From the recorded interface the way leads to the recorded program, from there to a look at the
/// interface, and to nothing where no interface was recorded or the record is no number.
pub proof fn law_removal_follows_the_records(
    raw: Seq<char>,
    meta: Seq<char>,
    root: Seq<char>,
    iface: Seq<char>,
    owner: u32,
    fail: Next,
)
    requires
        iface.len() > 0,
    ensures
        ({
            let steps = after_iface(raw, meta, root, fail);
            &&& steps.len() == 3
            &&& steps[1].action == (step::ActionView::Read { path: path::joined(meta, "prog_id"@) })
            &&& steps[2].action == (step::ActionView::Read { path: path::joined(root, "prog_id"@) })
            &&& steps[1].follow == (step::FollowView::XdpOwner { iface: text::trimmed(raw), fail })
            &&& steps[2].follow == steps[1].follow
        }),
        number::unsigned(text::trimmed(raw), 0xffff_ffff) == Some(owner as nat) ==> (after_owner(
            raw,
            iface,
            fail,
        ) matches Ok(steps) && steps.len() == 1 && steps[0].action == (
        step::ActionView::Capture {
            program: "ip"@,
            args: seq!["-j"@, "-d"@, "link"@, "show"@, "dev"@, iface],
        }) && steps[0].follow == (step::FollowView::XdpOwned { iface, owner, fail })),
        number::unsigned(text::trimmed(raw), 0xffff_ffff) is None <==> after_owner(
            raw,
            iface,
            fail,
        ) is Err,
{
    if number::unsigned(text::trimmed(raw), 0xffff_ffff) == Some(owner as nat) {
        let steps = after_owner(raw, iface, fail)->Ok_0;
        assert(steps[0].action->Capture_args =~= seq![
            "-j"@,
            "-d"@,
            "link"@,
            "show"@,
            "dev"@,
            iface,
        ]);
    }
}

/// Before the program is loaded, the object and the tools are asked for, an earlier guard is
/// removed, the interface is looked at, and the interface is recorded where the removal looks for
/// it.
#[verifier::spinoff_prover]
#[verifier::rlimit(50)]
pub proof fn law_interface_is_recorded(
    cfg: XdpConfig,
    iface: Seq<char>,
    env: BpfEnv,
    order: ByteOrder,
)
    requires
        cfg.interface matches Some(f) && f@ == iface,
    ensures
        ({
            let todo = application(cfg, env, order).todo;
            let meta = match env.meta_root {
                Some(m) => path::joined(m@, "xdp"@),
                None => "/run/fluxvm/xdp"@,
            };
            &&& todo.len() > 19
            &&& todo[0].action == (step::ActionView::Exists { path: cfg.bpf_object@ })
            &&& todo[0].on_failure == Next::Abort
            &&& model::runs(todo[1].action, "bpftool"@)
            &&& model::runs(todo[2].action, "ip"@)
            &&& todo[3].action == step::ActionView::RaiseMemlock
            &&& todo.subrange(4, 13) == removal(cfg.pin_root@, env, Next::Leave)
            &&& todo[13].follow == (step::FollowView::XdpFree { iface })
            &&& todo[13].action == (step::ActionView::Capture {
                program: "ip"@,
                args: seq!["-j"@, "-d"@, "link"@, "show"@, "dev"@, iface],
            })
            &&& todo[17].action == (step::ActionView::Write {
                path: path::joined(meta, "iface"@),
                text: iface,
            })
            &&& todo[17].on_failure == Next::Abort
            &&& todo[14].action == (step::ActionView::MakeDirs {
                path: path::joined(path::joined(cfg.pin_root@, "xdp"@), "progs"@),
            })
            &&& todo[15].action == (step::ActionView::MakeDirs {
                path: path::joined(path::joined(cfg.pin_root@, "xdp"@), "maps"@),
            })
            &&& todo[16].action == (step::ActionView::MakeDirs { path: meta })
            &&& model::runs(todo[18].action, "bpftool"@)
            &&& todo[19].action == (step::ActionView::Capture {
                program: "bpftool"@,
                args: seq![
                    "-j"@,
                    "prog"@,
                    "show"@,
                    "pinned"@,
                    model::arguments(todo[18].action)[3],
                ],
            })
            &&& todo[19].follow == (step::FollowView::XdpProgram { meta })
            &&& todo[19].on_failure == Next::Unwind
        }),
{
    let todo = application(cfg, env, order).todo;
    let p = preparation(cfg, iface, env);
    let r = removal(cfg.pin_root@, env, Next::Leave);
    assert(r.len() == 9 && p.len() == 18);
    assert forall|k: int| 0 <= k < 18 implies #[trigger] todo[k] == p[k] by {}
    assert(todo.subrange(4, 13) =~= r);
    assert(p[13] == look(iface));
    assert(todo[13].action->Capture_args =~= seq![
        "-j"@,
        "-d"@,
        "link"@,
        "show"@,
        "dev"@,
        iface,
    ]);
    assert(todo[18] == loading(cfg, env)[0]);
    assert(todo[19] == loading(cfg, env)[1]);
    assert(todo[19].action->Capture_args =~= seq![
        "-j"@,
        "prog"@,
        "show"@,
        "pinned"@,
        model::arguments(todo[18].action)[3],
    ]);
}

/// The removal of the guard removes nothing but its pins and its metadata.
pub proof fn law_nothing_else_is_removed(pin_root: Seq<char>, env: BpfEnv, fail: Next, k: int)
    requires
        0 <= k < removal(pin_root, env, fail).len(),
    ensures
        removal(pin_root, env, fail)[k].action matches step::ActionView::RemoveTree { path } ==> {
            ||| path == path::joined(pin_root, "xdp"@)
            ||| env.meta_root is None && path == "/run/fluxvm/xdp"@
            ||| env.meta_root matches Some(m) && path == path::joined(m@, "xdp"@)
        },
        removal(pin_root, env, fail)[k].action is RemoveTree || removal(
            pin_root,
            env,
            fail,
        )[k].action is Exists || removal(pin_root, env, fail)[k].action is Read,
{
    assert(removal(pin_root, env, fail).len() == 9);
}

/// Where neither pins nor metadata are there, there is nothing to remove.
pub proof fn law_nothing_there_is_nothing_to_remove(
    pin_root: Seq<char>,
    env: BpfEnv,
    fail: Next,
    words: Seq<char>,
)
    ensures
        ({
            let start = job::fresh(removal(pin_root, env, fail), Seq::empty());
            let one = job::resumed(start, step::ReplyView::Missing(words));
            let two = job::resumed(one, step::ReplyView::Missing(words));
            two.todo.len() == 0 && two.failure is None
        }),
{
    let steps = removal(pin_root, env, fail);
    assert(steps.len() == 9);
    let start = job::fresh(steps, Seq::empty());
    let one = job::resumed(start, step::ReplyView::Missing(words));
    assert(one.todo =~= steps.skip(1));
    let rest = one.todo.skip(1);
    assert(rest =~= steps.skip(2));
    assert forall|i: int| 0 <= i < rest.len() implies (#[trigger] rest[i]).block
        == Block::Removal by {
        assert(rest[i] == steps[i + 2]);
    }
    let n = job::law_leaving_passes_over_the_block(rest, Block::Removal);
    assert(n == rest.len());
    assert(one.todo[0] == steps[1]);
}

/// A guard that is refused says why, and touches nothing.
pub proof fn law_refused_guard_says_why(cfg: DataplaneConfig, env: BpfEnv, order: ByteOrder)
    requires
        cfg.xdp.enabled,
    ensures
        cfg.mode == DataplaneMode::Cilium ==> ensured(cfg, env, order).todo.len() == 1 && ensured(
            cfg,
            env,
            order,
        ).todo[0].context
            == "FluxVM XDP guard is disabled in dataplane.mode=cilium to avoid replacing Cilium XDP; use Cilium's node XDP features instead"@,
        cfg.mode != DataplaneMode::Cilium && cfg.xdp.interface is None ==> ensured(
            cfg,
            env,
            order,
        ).todo.len() == 1 && ensured(cfg, env, order).todo[0].context
            == "xdp.enabled=true requires xdp.interface"@,
        ensured(cfg, env, order).instead is None,
{
}

} // verus!
