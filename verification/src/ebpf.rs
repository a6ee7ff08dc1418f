//! The native eBPF dataplane: a traffic-control program and its maps for each VM, loaded and
//! attached through `bpftool` and `tc`.
//!
//! Pins live in the BPF file system, below a directory for each VM. That file system holds no
//! regular files, so the name of the interface that a program was attached to is kept beside
//! it, in a metadata directory.

use crate::cidr;
use crate::cidr::Ipv4Cidr;
use crate::config::{BpfEnv, DataplaneConfig};
use crate::job;
use crate::line;
use crate::model;
use crate::number;
use crate::order;
use crate::path;
use crate::step;
use crate::step::{Action, Block, ByteOrder, Follow, Next, Refusal, Step};
use crate::text;
use crate::vmid;
use crate::vmid::VmId;
use vstd::prelude::*;
use vstd::string::*;

verus! {

// ---------------------------------------------------------------------------------------------
// Names and places
// ---------------------------------------------------------------------------------------------

/// The number by which the maps know a VM: two words of its id, and never zero.
pub open spec fn identity(id: VmId) -> u32 {
    let low = (id.bits % 0x1_0000_0000) as u32;
    let high = (id.bits / 0x1_0000_0000_0000_0000 % 0x1_0000_0000) as u32;
    if low ^ high == 0 {
        1
    } else {
        low ^ high
    }
}

/// The number by which the maps know a VM.
pub fn identity_for(id: VmId) -> (r: u32)
    ensures
        r == identity(id),
{
    let low: u32 = (id.bits % 0x1_0000_0000) as u32;
    let high: u32 = (id.bits / 0x1_0000_0000_0000_0000 % 0x1_0000_0000) as u32;
    let raw: u32 = low ^ high;
    if raw == 0 {
        1
    } else {
        raw
    }
}

/// Where the pins of a VM stand below a root.
pub open spec fn pin_dir(root: Seq<char>, id: VmId) -> Seq<char> {
    path::joined(path::joined(root, "vms"@), vmid::simple(id))
}

/// Where the pins of a VM stand below a root.
pub fn vm_pin_dir(root: &str, id: VmId) -> (r: String)
    ensures
        r@ == pin_dir(root@, id),
{
    path::join(path::join(root, "vms").as_str(), vmid::simple_text(id).as_str())
}

/// Where the metadata of a VM stands.
pub open spec fn meta_dir(env: BpfEnv, id: VmId) -> Seq<char> {
    match env.meta_root {
        Some(root) => path::joined(path::joined(root@, "vms"@), vmid::simple(id)),
        None => path::joined("/run/fluxvm/ebpf/vms"@, vmid::simple(id)),
    }
}

/// Where the metadata of a VM stands.
pub fn vm_meta_dir(env: &BpfEnv, id: VmId) -> (r: String)
    ensures
        r@ == meta_dir(*env, id),
{
    match &env.meta_root {
        Some(root) => path::join(
            path::join(root.as_str(), "vms").as_str(),
            vmid::simple_text(id).as_str(),
        ),
        None => path::join("/run/fluxvm/ebpf/vms", vmid::simple_text(id).as_str()),
    }
}

/// The directories in which pins of a VM may stand: below the conventional root, and below the
/// one that the environment names where that is another.
pub open spec fn pin_dirs(env: BpfEnv, id: VmId) -> Seq<Seq<char>> {
    let usual = pin_dir("/sys/fs/bpf/fluxvm"@, id);
    match env.pin_root {
        Some(root) => if path::same_path(usual, pin_dir(root@, id)) {
            seq![usual]
        } else {
            seq![usual].push(pin_dir(root@, id))
        },
        None => seq![usual],
    }
}

/// The directories in which pins of a VM may stand.
pub fn candidate_pin_roots(env: &BpfEnv, id: VmId) -> (r: Vec<String>)
    ensures
        r.deep_view() == pin_dirs(*env, id),
{
    let usual = vm_pin_dir("/sys/fs/bpf/fluxvm", id);
    let l = line::start().w(usual.as_str());
    match &env.pin_root {
        Some(root) => {
            let other = vm_pin_dir(root.as_str(), id);
            if path::is_same_path(usual.as_str(), other.as_str()) {
                l.words
            } else {
                l.w(other.as_str()).words
            }
        },
        None => l.words,
    }
}

// ---------------------------------------------------------------------------------------------
// Map entries
// ---------------------------------------------------------------------------------------------

/// The four bytes of a number in memory.
pub open spec fn word(order: ByteOrder, x: u32) -> Seq<u8> {
    match order {
        ByteOrder::Big => cidr::octets(x),
        ByteOrder::Little => cidr::octets(x).reverse(),
    }
}

/// The four bytes of a number in memory.
pub fn to_word(order: ByteOrder, x: u32) -> (r: Vec<u8>)
    ensures
        r@ == word(order, x),
{
    let b = cidr::to_octets(x);
    match order {
        ByteOrder::Big => b,
        ByteOrder::Little => {
            let r: Vec<u8> = vec![b[3], b[2], b[1], b[0]];
            assert(r@ =~= word(order, x));
            r
        },
    }
}

/// Bytes as `bpftool` takes them: each as two hexadecimal digits.
pub open spec fn hex_words(bytes: Seq<u8>) -> Seq<Seq<char>> {
    bytes.map_values(|b: u8| number::hex_byte(b))
}

/// Bytes as `bpftool` takes them.
pub fn hex_args(bytes: &[u8]) -> (r: Vec<String>)
    ensures
        r.deep_view() == hex_words(bytes@),
{
    let mut r: Vec<String> = Vec::new();
    let mut i: usize = 0;
    while i < bytes.len()
        invariant
            i <= bytes@.len(),
            bytes@.len() == bytes.len(),
            r.deep_view() == hex_words(bytes@.take(i as int)),
        decreases bytes.len() - i,
    {
        let ghost before = r.deep_view();
        let token = number::to_hex_byte(bytes[i]);
        r.push(token);
        assert(r.deep_view() =~= before.push(token@));
        assert(hex_words(bytes@.take(i + 1)) =~= hex_words(bytes@.take(i as int)).push(token@));
        i += 1;
    }
    assert(bytes@.take(bytes@.len() as int) =~= bytes@);
    r
}

/// The command that enters a value into a pinned map.
pub open spec fn map_update(map: Seq<char>, key: Seq<u8>, value: Seq<u8>) -> step::ActionView {
    step::run_view(
        "bpftool"@,
        (line::blank().push("map"@).push("update"@).push("pinned"@).push(map).push("key"@).push(
            "hex"@,
        ) + hex_words(key)).push("value"@).push("hex"@) + hex_words(value),
    )
}

/// The command that enters a value into a pinned map.
pub fn bpftool_map_update(map: &str, key: &[u8], value: &[u8]) -> (r: Action)
    ensures
        r@ == map_update(map@, key@, value@),
{
    step::run(
        "bpftool",
        line::start().w("map").w("update").w("pinned").w(map).w("key").w("hex").and(
            &hex_args(key),
        ).w("value").w("hex").and(&hex_args(value)),
    )
}

/// The number that stands for a yes or a no.
pub open spec fn flag(b: bool) -> u32 {
    if b {
        1
    } else {
        0
    }
}

/// The entry of an interface in the identity map: from the index of the interface to the
/// identity of its VM and the action that it has by default.
pub open spec fn iface_entry(
    map: Seq<char>,
    ifindex: u32,
    identity: u32,
    default_allow: bool,
    order: ByteOrder,
) -> step::ActionView {
    map_update(map, word(order, ifindex), word(order, identity) + word(order, flag(default_allow)))
}

/// Enters an interface into the identity map.
pub fn update_iface_config(
    map: &str,
    ifindex: u32,
    identity: u32,
    default_allow: bool,
    order: ByteOrder,
) -> (r: Action)
    ensures
        r@ == iface_entry(map@, ifindex, identity, default_allow, order),
{
    let key = to_word(order, ifindex);
    let mut value = to_word(order, identity);
    let mut action = to_word(
        order,
        if default_allow {
            1
        } else {
            0
        },
    );
    value.append(&mut action);
    bpftool_map_update(map, key.as_slice(), value.as_slice())
}

/// The key of a network in the allow map: the number of bits that count, which are those of the
/// identity and those of the prefix, then the identity, then the network.
pub open spec fn allow_key(identity: u32, net: Ipv4Cidr, order: ByteOrder) -> Seq<u8> {
    word(order, (32 + net.prefix) as u32) + word(order, identity) + cidr::octets(net.network)
}

/// The entry of a network in the allow map.
pub open spec fn allow_entry(
    map: Seq<char>,
    identity: u32,
    net: Ipv4Cidr,
    order: ByteOrder,
) -> step::ActionView {
    map_update(map, allow_key(identity, net, order), word(order, 1))
}

/// Enters a network into the allow map.
pub fn update_ipv4_allow(map: &str, identity: u32, net: Ipv4Cidr, order: ByteOrder) -> (r: Action)
    ensures
        r@ == allow_entry(map@, identity, net, order),
{
    let mut key = to_word(order, 32 + net.prefix as u32);
    let mut who = to_word(order, identity);
    let mut net_bytes = cidr::to_octets(net.network);
    key.append(&mut who);
    key.append(&mut net_bytes);
    let one = to_word(order, 1);
    bpftool_map_update(map, key.as_slice(), one.as_slice())
}

// ---------------------------------------------------------------------------------------------
// Tools
// ---------------------------------------------------------------------------------------------

/// A question to a tool for its version. One that answers settles the matter, so that the
/// `left` questions that follow are not asked; one that cannot be run ends it.
pub open spec fn probe(name: Seq<char>, arg: Seq<char>, left: usize) -> step::StepView {
    step::needing_view(
        step::run_view(name, line::blank().push(arg)),
        name + " is required for the eBPF dataplane"@,
    ).going(
        Next::Skip(left),
        if left == 0 {
            Next::Abort
        } else {
            Next::Skip(0)
        },
        Next::Abort,
    )
}

fn probe_step(name: &str, arg: &str, left: usize) -> (r: Step)
    ensures
        r@ == probe(name@, arg@, left),
{
    let context = name.to_owned().concat(" is required for the eBPF dataplane");
    step::needing(step::run(name, line::start().w(arg)), context.as_str()).going(
        Next::Skip(left),
        if left == 0 {
            Next::Abort
        } else {
            Next::Skip(0)
        },
        Next::Abort,
    )
}

/// The questions by which a tool shows that it is there. `tc` knows its own spellings only.
pub open spec fn tool_check(name: Seq<char>) -> Seq<step::StepView> {
    if name == "tc"@ {
        Seq::<step::StepView>::empty().push(probe(name, "-V"@, 2)).push(
            probe(name, "-Version"@, 1),
        ).push(probe(name, "--version"@, 0))
    } else {
        Seq::<step::StepView>::empty().push(probe(name, "--version"@, 1)).push(
            probe(name, "-V"@, 0),
        )
    }
}

/// Checks that a tool is there.
pub fn require_command(name: &str) -> (r: Vec<Step>)
    ensures
        step::plan(r@) == tool_check(name@),
{
    let mut steps = step::no_steps();
    if text::same(name, "tc") {
        step::add_step(&mut steps, probe_step(name, "-V", 2));
        step::add_step(&mut steps, probe_step(name, "-Version", 1));
        step::add_step(&mut steps, probe_step(name, "--version", 0));
    } else {
        step::add_step(&mut steps, probe_step(name, "--version", 1));
        step::add_step(&mut steps, probe_step(name, "-V", 0));
    }
    steps
}

// ---------------------------------------------------------------------------------------------
// Removing
// ---------------------------------------------------------------------------------------------

/// A look for the interface that was recorded. It is best effort, and the first record that
/// names an interface is the one that counts.
pub open spec fn recall(file: Seq<char>) -> step::StepView {
    step::attempt_view(step::ActionView::Read { path: file }).followed(
        step::FollowView::RecordedIface,
    ).inside(Block::Recall)
}

fn recall_step(file: &str) -> (r: Step)
    ensures
        r@ == recall(file@),
{
    step::attempt(step::read(file)).follow_with(Follow::RecordedIface).inside(Block::Recall)
}

/// The removal of the filter from an interface.
pub open spec fn detach(iface: Seq<char>) -> step::StepView {
    step::attempt_view(
        step::run_view(
            "tc"@,
            line::blank().push("filter"@).push("del"@).push("dev"@).push(iface).push(
                "ingress"@,
            ).push("pref"@).push("50"@),
        ),
    )
}

/// Takes the filter off an interface.
pub fn detach_step(iface: &str) -> (r: Step)
    ensures
        r@ == detach(iface@),
{
    step::attempt(
        step::run(
            "tc",
            line::start().w("filter").w("del").w("dev").w(iface).w("ingress").w("pref").w("50"),
        ),
    )
}

/// The looks for the recorded interface: in the metadata, then in the places where it may have
/// been put earlier.
pub open spec fn recalls(dirs: Seq<Seq<char>>) -> Seq<step::StepView> {
    dirs.map_values(|d: Seq<char>| recall(path::joined(d, "iface"@)))
}

/// The removal of a directory that may be there.
pub open spec fn clear(dir: Seq<char>) -> Seq<step::StepView> {
    Seq::<step::StepView>::empty().push(step::given_view(step::ActionView::Exists { path: dir })).push(
        step::attempt_view(step::ActionView::RemoveTree { path: dir }),
    )
}

/// The removal of several directories.
pub open spec fn clears(dirs: Seq<Seq<char>>) -> Seq<step::StepView>
    decreases dirs.len(),
{
    if dirs.len() == 0 {
        Seq::empty()
    } else {
        clears(dirs.drop_last()) + clear(dirs.last())
    }
}

/// The removal of everything that belongs to a VM: the filter on the recorded interface, the
/// pins, the metadata. Nothing in it can fail.
pub open spec fn removal(env: BpfEnv, id: VmId) -> Seq<step::StepView> {
    recalls(Seq::empty().push(meta_dir(env, id)) + pin_dirs(env, id)) + clears(pin_dirs(env, id))
        + clear(meta_dir(env, id))
}

/// Removes a directory that may be there.
pub fn clear_dir(steps: &mut Vec<Step>, dir: &str)
    ensures
        step::plan(final(steps)@) == step::plan(old(steps)@) + clear(dir@),
{
    let ghost before = step::plan(steps@);
    step::add_step(steps, step::given(step::exists_at(dir)));
    step::add_step(steps, step::attempt(step::remove_tree(dir)));
    assert(step::plan(steps@) =~= before + clear(dir@));
}

/// Removes everything that belongs to a VM.
pub fn remove(env: &BpfEnv, id: VmId) -> (r: Vec<Step>)
    ensures
        step::plan(r@) == removal(*env, id),
{
    let meta = vm_meta_dir(env, id);
    let dirs = candidate_pin_roots(env, id);
    let all = line::start().w(meta.as_str()).and(&dirs).words;
    let ghost places = all.deep_view();
    let mut steps = step::no_steps();
    let mut i: usize = 0;
    assert(recalls(places.take(0)) =~= Seq::<step::StepView>::empty());
    while i < all.len()
        invariant
            i <= all.len(),
            places == all.deep_view(),
            step::plan(steps@) == recalls(places.take(i as int)),
        decreases all.len() - i,
    {
        let file = path::join(all[i].as_str(), "iface");
        step::add_step(&mut steps, recall_step(file.as_str()));
        assert(recalls(places.take(i + 1)) =~= recalls(places.take(i as int)).push(recall(file@)));
        i += 1;
    }
    assert(places.take(all.len() as int) =~= places);
    let ghost looks = recalls(places);
    let ghost pins = dirs.deep_view();
    let mut k: usize = 0;
    assert(looks + clears(pins.take(0)) =~= looks);
    while k < dirs.len()
        invariant
            k <= dirs.len(),
            pins == dirs.deep_view(),
            step::plan(steps@) == looks + clears(pins.take(k as int)),
        decreases dirs.len() - k,
    {
        clear_dir(&mut steps, dirs[k].as_str());
        assert(pins.take(k + 1).drop_last() =~= pins.take(k as int));
        assert(pins.take(k + 1).last() == dirs[k as int]@);
        assert(step::plan(steps@) =~= looks + clears(pins.take(k + 1)));
        k += 1;
    }
    assert(pins.take(dirs.len() as int) =~= pins);
    clear_dir(&mut steps, meta.as_str());
    steps
}

// ---------------------------------------------------------------------------------------------
// Applying
// ---------------------------------------------------------------------------------------------

/// The work of entering a network into the allow map, where it is one.
pub open spec fn allow(map: Seq<char>, identity: u32, raw: Seq<char>, order: ByteOrder) ->
    step::StepView {
    match cidr::parsed(raw) {
        Ok(net) => step::bare_view(allow_entry(map, identity, net, order)),
        Err(e) => step::must_view(
            step::ActionView::Refuse { reason: Refusal::Cidr(e) },
            "invalid eBPF allow CIDR "@ + text::quoted(raw) + ": "@ + cidr::complaint(raw),
        ),
    }
}

fn allow_step(map: &str, identity: u32, raw: &str, order: ByteOrder) -> (r: Step)
    ensures
        r@ == allow(map@, identity, raw@, order),
{
    match cidr::parse_ipv4_cidr(raw) {
        Ok(net) => step::bare(update_ipv4_allow(map, identity, net, order)),
        Err(e) => {
            let context = "invalid eBPF allow CIDR ".to_owned().concat(
                text::quote(raw).as_str(),
            ).concat(": ").concat(cidr::explain(raw).as_str());
            step::must(step::refuse(Refusal::Cidr(e)), context.as_str())
        },
    }
}

/// The work of entering several networks into the allow map.
pub open spec fn allows(
    map: Seq<char>,
    identity: u32,
    raws: Seq<Seq<char>>,
    order: ByteOrder,
) -> Seq<step::StepView> {
    raws.map_values(|raw: Seq<char>| allow(map, identity, raw, order))
}

/// Loading the program, pinning it and its maps, and attaching it to an interface. A queueing
/// discipline that is there already is used as it is, and a filter that somebody else has put at
/// the same place is not overwritten: adding ours fails.
pub open spec fn attach(
    object: Seq<char>,
    dir: Seq<char>,
    meta: Seq<char>,
    iface: Seq<char>,
) -> Seq<step::StepView> {
    let progs = path::joined(dir, "progs"@);
    let maps = path::joined(dir, "maps"@);
    let pin = path::joined(progs, "fluxvm_egress"@);
    Seq::<step::StepView>::empty().push(
        step::must_view(
            step::ActionView::MakeDirs { path: progs },
            "creating eBPF program pin dir "@ + progs,
        ),
    ).push(
        step::must_view(
            step::ActionView::MakeDirs { path: maps },
            "creating eBPF map pin dir "@ + maps,
        ),
    ).push(
        step::must_view(
            step::ActionView::MakeDirs { path: meta },
            "creating eBPF meta dir "@ + meta,
        ),
    ).push(
        step::must_view(
            step::ActionView::Write { path: path::joined(meta, "iface"@), text: iface },
            "recording eBPF interface "@ + iface,
        ),
    ).push(
        step::must_view(
            step::run_view(
                "bpftool"@,
                line::blank().push("prog"@).push("load"@).push(object).push(pin).push(
                    "type"@,
                ).push("classifier"@).push("pinmaps"@).push(maps),
            ),
            "loading FluxVM TC program"@,
        ),
    ).push(
        step::must_view(
            step::run_view(
                "tc"@,
                line::blank().push("qdisc"@).push("add"@).push("dev"@).push(iface).push(
                    "clsact"@,
                ),
            ),
            "installing clsact qdisc"@,
        ).going(Next::Skip(0), Next::Skip(0), Next::Abort),
    ).push(
        step::must_view(
            step::run_view(
                "tc"@,
                line::blank().push("filter"@).push("add"@).push("dev"@).push(iface).push(
                    "ingress"@,
                ).push("pref"@).push("50"@).push("handle"@).push("1"@).push("bpf"@).push(
                    "da"@,
                ).push("pinned"@).push(pin),
            ),
            "attaching FluxVM TC program"@,
        ),
    )
}

fn attach_steps(steps: &mut Vec<Step>, object: &str, dir: &str, meta: &str, iface: &str)
    ensures
        step::plan(final(steps)@) == step::plan(old(steps)@) + attach(
            object@,
            dir@,
            meta@,
            iface@,
        ),
{
    let progs = path::join(dir, "progs");
    let maps = path::join(dir, "maps");
    let pin = path::join(progs.as_str(), "fluxvm_egress");
    let mut s = step::no_steps();
    let context = "creating eBPF program pin dir ".to_owned().concat(progs.as_str());
    step::add_step(&mut s, step::must(step::make_dirs(progs.as_str()), context.as_str()));
    let context = "creating eBPF map pin dir ".to_owned().concat(maps.as_str());
    step::add_step(&mut s, step::must(step::make_dirs(maps.as_str()), context.as_str()));
    let context = "creating eBPF meta dir ".to_owned().concat(meta);
    step::add_step(&mut s, step::must(step::make_dirs(meta), context.as_str()));
    let context = "recording eBPF interface ".to_owned().concat(iface);
    let record = path::join(meta, "iface");
    step::add_step(&mut s, step::must(step::write(record.as_str(), iface), context.as_str()));
    step::add_step(
        &mut s,
        step::must(
            step::run(
                "bpftool",
                line::start().w("prog").w("load").w(object).w(pin.as_str()).w("type").w(
                    "classifier",
                ).w("pinmaps").w(maps.as_str()),
            ),
            "loading FluxVM TC program",
        ),
    );
    step::add_step(
        &mut s,
        step::must(
            step::run(
                "tc",
                line::start().w("qdisc").w("add").w("dev").w(iface).w("clsact"),
            ),
            "installing clsact qdisc",
        ).going(Next::Skip(0), Next::Skip(0), Next::Abort),
    );
    step::add_step(
        &mut s,
        step::must(
            step::run(
                "tc",
                line::start().w("filter").w("add").w("dev").w(iface).w("ingress").w("pref").w(
                    "50",
                ).w("handle").w("1").w("bpf").w("da").w("pinned").w(pin.as_str()),
            ),
            "attaching FluxVM TC program",
        ),
    );
    step::add_steps(steps, s);
}

/// Where the kernel shows the index of an interface.
pub open spec fn ifindex_file(iface: Seq<char>) -> Seq<char> {
    "/sys/class/net/"@ + iface + "/ifindex"@
}

/// Finding out the index of an interface, and entering it into the identity map.
pub open spec fn read_index(
    iface: Seq<char>,
    map: Seq<char>,
    identity: u32,
    default_allow: bool,
    order: ByteOrder,
) -> step::StepView {
    step::must_view(
        step::ActionView::Read { path: ifindex_file(iface) },
        "reading ifindex for "@ + iface,
    ).followed(step::FollowView::Ifindex { iface, map, identity, default_allow, order })
}

/// Finds out the index of an interface.
pub fn read_ifindex(
    iface: &str,
    map: &str,
    identity: u32,
    default_allow: bool,
    order: ByteOrder,
) -> (r: Step)
    ensures
        r@ == read_index(iface@, map@, identity, default_allow, order),
{
    let file = "/sys/class/net/".to_owned().concat(iface).concat("/ifindex");
    let context = "reading ifindex for ".to_owned().concat(iface);
    step::must(step::read(file.as_str()), context.as_str()).follow_with(
        Follow::Ifindex {
            iface: iface.to_owned(),
            map: map.to_owned(),
            identity,
            default_allow,
            order,
        },
    )
}

/// What is brought onto an interface: an object file, the root of its pins, the action by
/// default, and the networks that are allowed.
pub struct Program {
    pub object: Seq<char>,
    pub pin_root: Seq<char>,
    pub default_allow: bool,
    pub nets: Seq<Seq<char>>,
}

/// What a node brings onto interfaces, with further networks.
pub open spec fn program(cfg: DataplaneConfig, allow_cidrs: Seq<Seq<char>>) -> Program {
    Program {
        object: cfg.bpf_object@,
        pin_root: cfg.pin_root@,
        default_allow: cfg.default_allow,
        nets: cfg.allow_cidrs.deep_view() + allow_cidrs,
    }
}

/// Bringing the program of a VM onto an interface: the object and the tools have to be there,
/// what is left of an earlier instance is removed, the program is loaded and attached, and its
/// maps are filled. Every network is entered once.
pub open spec fn application(
    what: Program,
    id: VmId,
    iface: Seq<char>,
    env: BpfEnv,
    order: ByteOrder,
) -> Seq<step::StepView> {
    let dir = pin_dir(what.pin_root, id);
    let maps = path::joined(dir, "maps"@);
    if iface.len() == 0 {
        Seq::<step::StepView>::empty().push(
            step::must_view(
                step::ActionView::Refuse { reason: Refusal::NoInterface },
                "cannot attach eBPF dataplane without a host-visible interface"@,
            ),
        )
    } else {
        (Seq::<step::StepView>::empty().push(
            step::must_view(
                step::ActionView::Exists { path: what.object },
                "FluxVM eBPF object does not exist at "@ + what.object,
            ),
        ) + tool_check("bpftool"@) + tool_check("tc"@) + removal(env, id) + attach(
            what.object,
            dir,
            meta_dir(env, id),
            iface,
        )).push(
            read_index(
                iface,
                path::joined(maps, "fluxvm_id"@),
                identity(id),
                what.default_allow,
                order,
            ),
        ) + allows(
            path::joined(maps, "fluxvm_v4"@),
            identity(id),
            order::sorted_set(what.nets),
            order,
        )
    }
}

/// Brings the program of a VM onto an interface.
pub fn apply(
    cfg: &DataplaneConfig,
    id: VmId,
    iface: &str,
    allow_cidrs: &Vec<String>,
    env: &BpfEnv,
    order: ByteOrder,
) -> (r: Vec<Step>)
    ensures
        step::plan(r@) == application(
            program(*cfg, allow_cidrs.deep_view()),
            id,
            iface@,
            *env,
            order,
        ),
{
    let nets = line::join_all(&cfg.allow_cidrs, allow_cidrs);
    bring_up(
        cfg.bpf_object.as_str(),
        cfg.pin_root.as_str(),
        cfg.default_allow,
        &nets,
        id,
        iface,
        env,
        order,
    )
}

/// Brings a program onto an interface.
pub fn bring_up(
    object: &str,
    pin_root: &str,
    default_allow: bool,
    nets: &Vec<String>,
    id: VmId,
    iface: &str,
    env: &BpfEnv,
    order: ByteOrder,
) -> (r: Vec<Step>)
    ensures
        step::plan(r@) == application(
            (Program { object: object@, pin_root: pin_root@, default_allow, nets: nets.deep_view() }),
            id,
            iface@,
            *env,
            order,
        ),
{
    let mut steps = step::no_steps();
    if iface.is_empty() {
        step::add_step(
            &mut steps,
            step::must(
                step::refuse(Refusal::NoInterface),
                "cannot attach eBPF dataplane without a host-visible interface",
            ),
        );
        return steps;
    }
    let context = "FluxVM eBPF object does not exist at ".to_owned().concat(object);
    step::add_step(&mut steps, step::must(step::exists_at(object), context.as_str()));
    step::add_steps(&mut steps, require_command("bpftool"));
    step::add_steps(&mut steps, require_command("tc"));
    step::add_steps(&mut steps, remove(env, id));
    let dir = vm_pin_dir(pin_root, id);
    let meta = vm_meta_dir(env, id);
    let maps = path::join(dir.as_str(), "maps");
    attach_steps(&mut steps, object, dir.as_str(), meta.as_str(), iface);
    let who: u32 = identity_for(id);
    let id_map = path::join(maps.as_str(), "fluxvm_id");
    step::add_step(&mut steps, read_ifindex(iface, id_map.as_str(), who, default_allow, order));
    let net_map = path::join(maps.as_str(), "fluxvm_v4");
    let nets = order::sort_unique(nets);
    let ghost raws = nets.deep_view();
    let ghost before = step::plan(steps@);
    let mut i: usize = 0;
    assert(before + allows(net_map@, who, raws.take(0), order) =~= before);
    while i < nets.len()
        invariant
            i <= nets.len(),
            raws == nets.deep_view(),
            step::plan(steps@) == before + allows(net_map@, who, raws.take(i as int), order),
        decreases nets.len() - i,
    {
        step::add_step(&mut steps, allow_step(net_map.as_str(), who, nets[i].as_str(), order));
        assert(step::plan(steps@) =~= before + allows(net_map@, who, raws.take(i + 1), order));
        i += 1;
    }
    assert(raws.take(nets.len() as int) =~= raws);
    steps
}

// ---------------------------------------------------------------------------------------------
// Laws
// ---------------------------------------------------------------------------------------------

/// Zero stands for no VM.
pub proof fn law_identity_is_not_zero(id: VmId)
    ensures
        identity(id) != 0,
{
}

/// Every VM has directories of its own, whatever the root.
pub proof fn law_directories_differ(root: Seq<char>, env: BpfEnv, a: VmId, b: VmId)
    requires
        pin_dir(root, a) == pin_dir(root, b) || meta_dir(env, a) == meta_dir(env, b),
    ensures
        a == b,
{
    let x = vmid::simple(a);
    let y = vmid::simple(b);
    number::lemma_hex_digits_len(a.bits as nat, 32);
    number::lemma_hex_digits_len(b.bits as nat, 32);
    number::lemma_hex_digits_are_digits(a.bits as nat, 32);
    number::lemma_hex_digits_are_digits(b.bits as nat, 32);
    assert(x[0] != '/' && y[0] != '/');
    if pin_dir(root, a) == pin_dir(root, b) {
        path::lemma_joined_injective(path::joined(root, "vms"@), x, y);
    } else {
        let base = match env.meta_root {
            Some(r) => path::joined(r@, "vms"@),
            None => "/run/fluxvm/ebpf/vms"@,
        };
        path::lemma_joined_injective(base, x, y);
    }
    vmid::law_simple_injective(a, b);
}

/// Different numbers have different bytes.
pub proof fn law_word_injective(order: ByteOrder, x: u32, y: u32)
    requires
        word(order, x) == word(order, y),
    ensures
        x == y,
{
    let a = cidr::octets(x);
    let b = cidr::octets(y);
    assert forall|i: int| 0 <= i < 4 implies a[i] == b[i] by {
        match order {
            ByteOrder::Big => {
                assert(word(order, x)[i] == a[i] && word(order, y)[i] == b[i]);
            },
            ByteOrder::Little => {
                assert(word(order, x)[3 - i] == a[i] && word(order, y)[3 - i] == b[i]);
            },
        }
    }
    assert(forall|i: int| 0 <= i < 4 ==> #[trigger] a[i] == cidr::octet(x, i));
    assert(forall|i: int| 0 <= i < 4 ==> #[trigger] b[i] == cidr::octet(y, i));
    assert(a[0] == b[0] && a[1] == b[1] && a[2] == b[2] && a[3] == b[3]);
    cidr::lemma_same_octets(x, y);
}

/// Different bytes are different words on a command line.
pub proof fn law_hex_words_injective(a: Seq<u8>, b: Seq<u8>)
    requires
        hex_words(a) == hex_words(b),
    ensures
        a == b,
{
    assert(a.len() == hex_words(a).len());
    assert forall|i: int| 0 <= i < a.len() implies a[i] == b[i] by {
        assert(hex_words(a)[i] == number::hex_byte(a[i]));
        assert(hex_words(b)[i] == number::hex_byte(b[i]));
        number::law_hex_byte_injective(a[i], b[i]);
    }
    assert(a =~= b);
}

/// A byte that is written is the byte that is read.
pub proof fn law_byte_is_read(b: u8)
    ensures
        model::is_byte(number::hex_byte(b)),
        model::byte(number::hex_byte(b)) == b,
{
}

proof fn lemma_bytes_are_read(words: Seq<Seq<char>>, at: int, bytes: Seq<u8>)
    requires
        0 <= at,
        at + 4 <= words.len(),
        bytes.len() == 4,
        words.subrange(at, at + 4) == hex_words(bytes),
    ensures
        forall|i: int| at <= i < at + 4 ==> model::is_byte(#[trigger] words[i]),
        model::number_at(words, at, ByteOrder::Big) == 0x100_0000 * bytes[0] + 0x1_0000 * bytes[1]
            + 0x100 * bytes[2] + bytes[3],
        model::number_at(words, at, ByteOrder::Little) == 0x100_0000 * bytes[3] + 0x1_0000
            * bytes[2] + 0x100 * bytes[1] + bytes[0],
{
    let part = words.subrange(at, at + 4);
    assert forall|i: int| at <= i < at + 4 implies model::is_byte(#[trigger] words[i])
        && model::byte(words[i]) == bytes[i - at] by {
        assert(words[i] == part[i - at]);
        assert(part[i - at] == number::hex_byte(bytes[i - at]));
        law_byte_is_read(bytes[i - at]);
    }
    assert(model::is_byte(words[at]) && model::is_byte(words[at + 1]));
    assert(model::is_byte(words[at + 2]) && model::is_byte(words[at + 3]));
}

proof fn lemma_word_bytes(order: ByteOrder, x: u32)
    ensures
        word(order, x).len() == 4,
        order == ByteOrder::Big ==> forall|i: int|
            0 <= i < 4 ==> #[trigger] word(order, x)[i] == cidr::octet(x, i),
        order == ByteOrder::Little ==> forall|i: int|
            0 <= i < 4 ==> #[trigger] word(order, x)[i] == cidr::octet(x, 3 - i),
{
}

/// The four bytes of a number are read as that number, from wherever they stand on a command
/// line.
pub proof fn law_word_is_read(words: Seq<Seq<char>>, at: int, order: ByteOrder, x: u32)
    requires
        0 <= at,
        at + 4 <= words.len(),
        words.subrange(at, at + 4) == hex_words(word(order, x)),
    ensures
        forall|i: int| at <= i < at + 4 ==> model::is_byte(#[trigger] words[i]),
        model::number_at(words, at, order) == x,
{
    let bytes = word(order, x);
    lemma_word_bytes(order, x);
    lemma_bytes_are_read(words, at, bytes);
    cidr::lemma_octets_sum(x);
    match order {
        ByteOrder::Big => {
            assert(bytes[0] == cidr::octet(x, 0) && bytes[1] == cidr::octet(x, 1));
            assert(bytes[2] == cidr::octet(x, 2) && bytes[3] == cidr::octet(x, 3));
        },
        ByteOrder::Little => {
            assert(bytes[3] == cidr::octet(x, 0) && bytes[2] == cidr::octet(x, 1));
            assert(bytes[1] == cidr::octet(x, 2) && bytes[0] == cidr::octet(x, 3));
        },
    }
}

/// The entry that is made for an interface is read as its index, the identity of its VM, and
/// whether traffic is allowed by default.
#[verifier::spinoff_prover]
#[verifier::rlimit(50)]
pub proof fn law_interface_entry_is_read(
    map: Seq<char>,
    ifindex: u32,
    identity: u32,
    default_allow: bool,
    order: ByteOrder,
)
    ensures
        model::enters_interface(
            iface_entry(map, ifindex, identity, default_allow, order),
            map,
            ifindex,
            identity,
            default_allow,
            order,
        ),
{
    let args = model::arguments(iface_entry(map, ifindex, identity, default_allow, order));
    let value: u32 = if default_allow {
        1
    } else {
        0
    };
    assert(args.subrange(6, 10) =~= hex_words(word(order, ifindex)));
    law_word_is_read(args, 6, order, ifindex);
    assert(args.subrange(12, 16) =~= hex_words(word(order, identity)));
    law_word_is_read(args, 12, order, identity);
    assert(args.subrange(16, 20) =~= hex_words(word(order, value)));
    law_word_is_read(args, 16, order, value);
}

/// The entries that allow and that deny by default differ, and so do those of two interfaces and
/// those of two VMs.
pub proof fn law_interface_entries_differ(
    map: Seq<char>,
    a: (u32, u32, bool),
    b: (u32, u32, bool),
    order: ByteOrder,
)
    requires
        iface_entry(map, a.0, a.1, a.2, order) == iface_entry(map, b.0, b.1, b.2, order),
    ensures
        a == b,
{
    law_interface_entry_is_read(map, a.0, a.1, a.2, order);
    law_interface_entry_is_read(map, b.0, b.1, b.2, order);
}

/// The entry that is made for a network is read as that network, of that VM.
#[verifier::spinoff_prover]
#[verifier::rlimit(50)]
pub proof fn law_allow_entry_is_read(
    map: Seq<char>,
    identity: u32,
    net: Ipv4Cidr,
    order: ByteOrder,
)
    requires
        net.prefix <= 32,
    ensures
        model::allows_network(
            allow_entry(map, identity, net, order),
            map,
            identity,
            net.prefix as int,
            net.network,
            order,
        ),
{
    let args = model::arguments(allow_entry(map, identity, net, order));
    let bits = (32 + net.prefix) as u32;
    assert(args.subrange(6, 10) =~= hex_words(word(order, bits)));
    law_word_is_read(args, 6, order, bits);
    assert(args.subrange(10, 14) =~= hex_words(word(order, identity)));
    law_word_is_read(args, 10, order, identity);
    assert(args.subrange(14, 18) =~= hex_words(word(ByteOrder::Big, net.network)));
    law_word_is_read(args, 14, ByteOrder::Big, net.network);
    assert(args.subrange(20, 24) =~= hex_words(word(order, 1)));
    law_word_is_read(args, 20, order, 1);
}

/// A key of the allow map has twelve bytes, and the bits of it that count are those of the
/// identity and those of the prefix: at least the 32 of the one, at most the 32 of the other
/// besides.
pub proof fn law_allow_key_counts_the_identity(identity: u32, net: Ipv4Cidr, order: ByteOrder)
    requires
        net.prefix <= 32,
    ensures
        allow_key(identity, net, order).len() == 12,
        allow_key(identity, net, order).take(4) == word(order, (32 + net.prefix) as u32),
        32 <= 32 + net.prefix <= 64,
        allow_key(identity, net, order).subrange(4, 8) == word(order, identity),
        allow_key(identity, net, order).subrange(8, 12) == cidr::octets(net.network),
{
    let k = allow_key(identity, net, order);
    assert(k.take(4) =~= word(order, (32 + net.prefix) as u32));
    assert(k.subrange(4, 8) =~= word(order, identity));
    assert(k.subrange(8, 12) =~= cidr::octets(net.network));
}

/// Entries of different VMs, and entries of different networks, do not meet in the allow map.
pub proof fn law_allow_key_injective(
    a: u32,
    b: u32,
    m: Ipv4Cidr,
    n: Ipv4Cidr,
    order: ByteOrder,
)
    requires
        m.prefix <= 32,
        n.prefix <= 32,
        allow_key(a, m, order) == allow_key(b, n, order),
    ensures
        a == b,
        m == n,
{
    law_allow_key_counts_the_identity(a, m, order);
    law_allow_key_counts_the_identity(b, n, order);
    law_word_injective(order, a, b);
    law_word_injective(order, (32 + m.prefix) as u32, (32 + n.prefix) as u32);
    law_word_injective(ByteOrder::Big, m.network, n.network);
}

/// No step of the removal can make work fail.
pub proof fn lemma_removal_is_harmless(env: BpfEnv, id: VmId)
    ensures
        job::all_harmless(removal(env, id)),
{
    lemma_clears_harmless(pin_dirs(env, id));
    let places = Seq::empty().push(meta_dir(env, id)) + pin_dirs(env, id);
    assert forall|i: int| 0 <= i < recalls(places).len() implies job::harmless(
        #[trigger] recalls(places)[i],
    ) by {
        assert(recalls(places)[i] == recall(path::joined(places[i], "iface"@)));
    }
}

/// The removal of what belongs to a VM never fails, whatever the host replies.
pub proof fn law_removal_never_fails(env: BpfEnv, id: VmId, replies: Seq<step::ReplyView>)
    ensures
        job::after(job::fresh(removal(env, id), Seq::empty()), replies).failure is None,
{
    lemma_removal_is_harmless(env, id);
    job::law_harmless_work_succeeds(job::fresh(removal(env, id), Seq::empty()), replies);
}

/// No step of bringing a program onto an interface undoes the work.
pub proof fn lemma_application_is_steady(
    what: Program,
    id: VmId,
    iface: Seq<char>,
    env: BpfEnv,
    order: ByteOrder,
)
    ensures
        job::all_steady(application(what, id, iface, env, order)),
{
    if iface.len() > 0 {
        let dir = pin_dir(what.pin_root, id);
        let nets = order::sorted_set(what.nets);
        let net_map = path::joined(path::joined(dir, "maps"@), "fluxvm_v4"@);
        let last = allows(net_map, identity(id), nets, order);
        lemma_removal_is_harmless(env, id);
        assert(job::all_steady(removal(env, id))) by {
            assert forall|i: int| 0 <= i < removal(env, id).len() implies job::steady(
                #[trigger] removal(env, id)[i],
            ) by {
                assert(job::harmless(removal(env, id)[i]));
            }
        }
        assert(job::all_steady(tool_check("bpftool"@)));
        assert(job::all_steady(tool_check("tc"@)));
        assert(job::all_steady(attach(what.object, dir, meta_dir(env, id), iface)));
        assert forall|i: int| 0 <= i < last.len() implies job::steady(#[trigger] last[i]) by {
            assert(last[i] == allow(net_map, identity(id), nets[i], order));
        }
    }
}

proof fn lemma_clears_harmless(dirs: Seq<Seq<char>>)
    ensures
        job::all_harmless(clears(dirs)),
    decreases dirs.len(),
{
    if dirs.len() > 0 {
        lemma_clears_harmless(dirs.drop_last());
        assert(job::all_harmless(clear(dirs.last())));
    }
}

/// The first record that names an interface is the one that counts: the filter is taken off
/// that interface, and no other record is looked at.
pub proof fn law_first_record_counts(
    job: job::JobView,
    file: Seq<char>,
    more: Seq<Seq<char>>,
    rest: Seq<step::StepView>,
    raw: Seq<char>,
)
    requires
        job.todo == seq![recall(file)] + (recalls(more) + rest),
        text::trimmed(raw).len() > 0,
        rest.len() > 0 ==> rest[0].block == Block::Main,
    ensures
        job::resumed(job, step::ReplyView::Text(raw)).todo == seq![
            detach(text::trimmed(raw)),
        ] + rest,
{
    assert(job.todo.skip(1) =~= recalls(more) + rest);
    lemma_recalls_left(more, rest);
}

proof fn lemma_recalls_left(more: Seq<Seq<char>>, rest: Seq<step::StepView>)
    requires
        rest.len() > 0 ==> rest[0].block == Block::Main,
    ensures
        job::left(recalls(more) + rest, Block::Recall) == rest,
    decreases more.len(),
{
    if more.len() == 0 {
        assert(recalls(more) + rest =~= rest);
    } else {
        assert((recalls(more) + rest)[0] == recall(path::joined(more[0], "iface"@)));
        assert((recalls(more) + rest).skip(1) =~= recalls(more.skip(1)) + rest);
        lemma_recalls_left(more.skip(1), rest);
    }
}

/// A tool counts as there as soon as one way of asking for its version succeeds.
pub proof fn law_one_version_suffices(
    job: job::JobView,
    name: Seq<char>,
    rest: Seq<step::StepView>,
    k: int,
)
    requires
        0 <= k < tool_check(name).len(),
        job.todo == tool_check(name).skip(k) + rest,
    ensures
        job::resumed(job, step::ReplyView::Done).todo == rest,
{
    let checks = tool_check(name);
    assert(job.todo[0] == checks[k]);
    assert(job.todo.skip(1) =~= checks.skip(k + 1) + rest);
    assert(job.todo.skip(1).skip(checks.len() - k - 1) =~= rest);
}

/// What somebody else has put on the interface is not overwritten: neither a queueing discipline
/// nor a filter is replaced.
pub proof fn law_nothing_is_overwritten(
    object: Seq<char>,
    dir: Seq<char>,
    meta: Seq<char>,
    iface: Seq<char>,
    i: int,
)
    requires
        0 <= i < attach(object, dir, meta, iface).len(),
    ensures
        attach(object, dir, meta, iface)[i].action matches step::ActionView::Run { program, args }
            ==> program == "tc"@ ==> args[1] == "add"@ && args[1] != "replace"@,
{
    reveal_strlit("tc");
    reveal_strlit("bpftool");
    reveal_strlit("add");
    reveal_strlit("replace");
    assert("bpftool"@.len() != "tc"@.len());
    assert("add"@.len() != "replace"@.len());
    let steps = attach(object, dir, meta, iface);
    assert(steps.len() == 7);
}

/// Whether a step enters the network of a text into an allow map, or refuses a text that is no
/// network.
pub open spec fn settles(
    s: step::StepView,
    map: Seq<char>,
    identity: u32,
    raw: Seq<char>,
    order: ByteOrder,
) -> bool {
    match cidr::parsed(raw) {
        Ok(net) => model::allows_network(
            s.action,
            map,
            identity,
            net.prefix as int,
            net.network,
            order,
        ),
        Err(e) => s.action == step::ActionView::Refuse { reason: Refusal::Cidr(e) },
    }
}

/// Whether a step of a plan enters the network of a text into an allow map, or refuses a text that
/// is no network, and stops the work where it fails.
pub open spec fn settled(
    steps: Seq<step::StepView>,
    map: Seq<char>,
    identity: u32,
    raw: Seq<char>,
    order: ByteOrder,
) -> bool {
    exists|k: int|
        0 <= k < steps.len() && settles(#[trigger] steps[k], map, identity, raw, order)
            && steps[k].on_failure == Next::Abort
}

/// How many steps come before the index of the interface is asked for.
spec fn up_to_index(
    what: Program,
    id: VmId,
    iface: Seq<char>,
    env: BpfEnv,
) -> int {
    1int + tool_check("bpftool"@).len() + tool_check("tc"@).len() + removal(env, id).len() + attach(
        what.object,
        pin_dir(what.pin_root, id),
        meta_dir(env, id),
        iface,
    ).len()
}

/// Whether steps of a plan bring a program onto an interface: one records the interface, one loads
/// the program from its object file, one attaches the same pin to the interface, and one asks for
/// the index of the interface, to enter it with the identity of the VM and the default into a map
/// that the program was loaded with. None of them may fail.
pub open spec fn attached_at(
    steps: Seq<step::StepView>,
    at: (int, int, int, int),
    what: Program,
    id: VmId,
    iface: Seq<char>,
    env: BpfEnv,
    order: ByteOrder,
) -> bool {
    let dir = pin_dir(what.pin_root, id);
    let maps = path::joined(dir, "maps"@);
    let pin = path::joined(path::joined(dir, "progs"@), "fluxvm_egress"@);
    let (w, l, a, x) = at;
    &&& 0 <= w < l < a < x < steps.len()
    &&& steps[w].action == (step::ActionView::Write {
        path: path::joined(meta_dir(env, id), "iface"@),
        text: iface,
    })
    &&& steps[w].on_failure == Next::Abort
    &&& model::loads(steps[l].action, what.object, pin, "classifier"@, maps)
    &&& steps[l].on_failure == Next::Abort
    &&& model::filters(steps[a].action, "add"@, iface)
    &&& model::arguments(steps[a].action).last() == pin
    &&& steps[a].on_failure == Next::Abort
    &&& steps[x].action == (step::ActionView::Read {
        path: "/sys/class/net/"@ + iface + "/ifindex"@,
    })
    &&& steps[x].on_failure == Next::Abort
    &&& steps[x].follow == (step::FollowView::Ifindex {
        iface,
        map: path::joined(maps, "fluxvm_id"@),
        identity: identity(id),
        default_allow: what.default_allow,
        order,
    })
}

/// The program is brought onto the interface that was named, and from the object that was named.
#[verifier::spinoff_prover]
#[verifier::rlimit(50)]
pub proof fn law_program_is_attached(
    what: Program,
    id: VmId,
    iface: Seq<char>,
    env: BpfEnv,
    order: ByteOrder,
)
    requires
        iface.len() > 0,
    ensures
        exists|at: (int, int, int, int)| #[trigger]
            attached_at(application(what, id, iface, env, order), at, what, id, iface, env, order),
{
    let steps = application(what, id, iface, env, order);
    let dir = pin_dir(what.pin_root, id);
    let all = attach(what.object, dir, meta_dir(env, id), iface);
    let x = up_to_index(what, id, iface, env);
    assert(all.len() == 7);
    assert(steps[x - 4] == all[3]);
    assert(steps[x - 3] == all[4]);
    assert(steps[x - 1] == all[6]);
    let map = path::joined(path::joined(dir, "maps"@), "fluxvm_id"@);
    assert(steps[x] == read_index(iface, map, identity(id), what.default_allow, order));
    assert(attached_at(steps, (x - 4, x - 3, x - 1, x), what, id, iface, env, order));
}

/// Every network that is allowed is entered under the identity of the VM into the map that the
/// program was loaded with, behind its attachment, whether the node or the VM names it. A text
/// that is no network is refused in its turn.
#[verifier::spinoff_prover]
#[verifier::rlimit(50)]
pub proof fn law_every_network_is_entered(
    what: Program,
    id: VmId,
    iface: Seq<char>,
    env: BpfEnv,
    order: ByteOrder,
    i: int,
)
    requires
        iface.len() > 0,
        0 <= i < what.nets.len(),
    ensures
        settled(
            application(what, id, iface, env, order),
            path::joined(path::joined(pin_dir(what.pin_root, id), "maps"@), "fluxvm_v4"@),
            identity(id),
            what.nets[i],
            order,
        ),
{
    let steps = application(what, id, iface, env, order);
    let map = path::joined(path::joined(pin_dir(what.pin_root, id), "maps"@), "fluxvm_v4"@);
    let nets = order::sorted_set(what.nets);
    order::law_sorted_set(what.nets);
    assert(what.nets.contains(what.nets[i]));
    assert(nets.contains(what.nets[i]));
    let j = choose|j: int| 0 <= j < nets.len() && nets[j] == what.nets[i];
    let k = up_to_index(what, id, iface, env) + 1 + j;
    let last = allows(map, identity(id), nets, order);
    assert(last[j] == allow(map, identity(id), nets[j], order));
    assert(steps[k] == last[j]);
    if let Ok(net) = cidr::parsed(nets[j]) {
        cidr::law_network_is_normalized(nets[j]);
        law_allow_entry_is_read(map, identity(id), net, order);
    }
}

/// Nothing is allowed that is not named.
#[verifier::spinoff_prover]
#[verifier::rlimit(50)]
pub proof fn law_nothing_else_is_entered(
    what: Program,
    id: VmId,
    iface: Seq<char>,
    env: BpfEnv,
    order: ByteOrder,
    k: int,
)
    requires
        iface.len() > 0,
        0 <= k < application(what, id, iface, env, order).len(),
        model::runs(application(what, id, iface, env, order)[k].action, "bpftool"@),
        model::arguments(application(what, id, iface, env, order)[k].action)[0] == "map"@,
    ensures
        exists|i: int|
            0 <= i < what.nets.len() && settles(
                application(what, id, iface, env, order)[k],
                path::joined(
                    path::joined(pin_dir(what.pin_root, id), "maps"@),
                    "fluxvm_v4"@,
                ),
                identity(id),
                #[trigger] what.nets[i],
                order,
            ),
{
    reveal_strlit("map");
    reveal_strlit("prog");
    reveal_strlit("--version");
    reveal_strlit("-V");
    reveal_strlit("bpftool");
    reveal_strlit("tc");
    assert("map"@.len() == 3 && "prog"@.len() == 4 && "--version"@.len() == 9 && "-V"@.len() == 2);
    assert("bpftool"@.len() == 7 && "tc"@.len() == 2);
    let steps = application(what, id, iface, env, order);
    let dir = pin_dir(what.pin_root, id);
    let map = path::joined(path::joined(dir, "maps"@), "fluxvm_v4"@);
    let nets = order::sorted_set(what.nets);
    let last = allows(map, identity(id), nets, order);
    let x = up_to_index(what, id, iface, env);
    let a = tool_check("bpftool"@);
    let b = tool_check("tc"@);
    let r = removal(env, id);
    let all = attach(what.object, dir, meta_dir(env, id), iface);
    assert(all.len() == 7 && a.len() == 2 && b.len() == 3);
    if k <= x {
        if k == 0 {
        } else if k < 3 {
            assert(steps[k] == a[k - 1]);
        } else if k < 6 {
            assert(steps[k] == b[k - 3]);
        } else if k < 6 + r.len() {
            assert(steps[k] == r[k - 6]);
            lemma_removal_runs_nothing(env, id, k - 6);
        } else if k < x {
            assert(steps[k] == all[k - 6 - r.len()]);
        }
    } else {
        let j = k - x - 1;
        assert(last[j] == allow(map, identity(id), nets[j], order));
        assert(steps[k] == last[j]);
        if let Ok(net) = cidr::parsed(nets[j]) {
            cidr::law_network_is_normalized(nets[j]);
            law_allow_entry_is_read(map, identity(id), net, order);
        }
        order::law_sorted_set(what.nets);
        assert(nets.contains(nets[j]));
        let i = choose|i: int| 0 <= i < what.nets.len() && what.nets[i] == nets[j];
        assert(settles(steps[k], map, identity(id), what.nets[i], order));
    }
}

proof fn lemma_removal_runs_nothing(env: BpfEnv, id: VmId, k: int)
    requires
        0 <= k < removal(env, id).len(),
    ensures
        !(removal(env, id)[k].action is Run),
{
    let places = Seq::empty().push(meta_dir(env, id)) + pin_dirs(env, id);
    let a = recalls(places);
    let b = clears(pin_dirs(env, id));
    if k < a.len() {
        assert(a[k] == recall(path::joined(places[k], "iface"@)));
    } else if k < a.len() + b.len() {
        lemma_clears_run_nothing(pin_dirs(env, id), k - a.len());
        assert(removal(env, id)[k] == b[k - a.len()]);
    } else {
        assert(removal(env, id)[k] == clear(meta_dir(env, id))[k - a.len() - b.len()]);
    }
}

proof fn lemma_clears_run_nothing(dirs: Seq<Seq<char>>, k: int)
    requires
        0 <= k < clears(dirs).len(),
    ensures
        !(clears(dirs)[k].action is Run),
    decreases dirs.len(),
{
    let before = clears(dirs.drop_last());
    if k < before.len() {
        lemma_clears_run_nothing(dirs.drop_last(), k);
        assert(clears(dirs)[k] == before[k]);
    } else {
        assert(clears(dirs)[k] == clear(dirs.last())[k - before.len()]);
    }
}

/// What a node brings onto interfaces is what its configuration names, and the networks that it
/// allows are those of the configuration and those that are added, and no others.
pub proof fn law_program_is_the_configured_one(
    cfg: DataplaneConfig,
    more: Seq<Seq<char>>,
    net: Seq<char>,
)
    ensures
        program(cfg, more).object == cfg.bpf_object@,
        program(cfg, more).pin_root == cfg.pin_root@,
        program(cfg, more).default_allow == cfg.default_allow,
        program(cfg, more).nets.contains(net) <==> more.contains(net) || exists|i: int|
            0 <= i < cfg.allow_cidrs@.len() && (#[trigger] cfg.allow_cidrs@[i])@ == net,
{
    let own = cfg.allow_cidrs.deep_view();
    let all = program(cfg, more).nets;
    if all.contains(net) {
        let k = choose|k: int| 0 <= k < all.len() && all[k] == net;
        if k < own.len() {
            assert(cfg.allow_cidrs@[k]@ == net);
        } else {
            assert(more[k - own.len()] == net);
        }
    }
    if more.contains(net) {
        let k = choose|k: int| 0 <= k < more.len() && more[k] == net;
        assert(all[own.len() + k] == net);
    }
    if exists|i: int| 0 <= i < cfg.allow_cidrs@.len() && (#[trigger] cfg.allow_cidrs@[i])@ == net {
        let k = choose|k: int|
            0 <= k < cfg.allow_cidrs@.len() && (#[trigger] cfg.allow_cidrs@[k])@ == net;
        assert(all[k] == net);
    }
}

/// Where a step of a plan removes a directory.
pub open spec fn removes(steps: Seq<step::StepView>, dir: Seq<char>) -> bool {
    exists|k: int|
        0 <= k < steps.len() && (#[trigger] steps[k]).action == (step::ActionView::RemoveTree {
            path: dir,
        })
}

/// Where a step of a plan looks for a recorded interface.
pub open spec fn looks_at(steps: Seq<step::StepView>, file: Seq<char>) -> bool {
    exists|k: int|
        0 <= k < steps.len() && (#[trigger] steps[k]).action == (step::ActionView::Read {
            path: file,
        }) && steps[k].follow == step::FollowView::RecordedIface
}

/// The removal clears the metadata and every place where pins of the VM may stand, the one below
/// the root that the environment names among them, and looks for the recorded interface in each
/// of these places.
#[verifier::spinoff_prover]
#[verifier::rlimit(50)]
pub proof fn law_removal_clears_every_place(env: BpfEnv, id: VmId)
    ensures
        removes(removal(env, id), meta_dir(env, id)),
        looks_at(removal(env, id), path::joined(meta_dir(env, id), "iface"@)),
        removes(removal(env, id), pin_dir("/sys/fs/bpf/fluxvm"@, id)),
        looks_at(
            removal(env, id),
            path::joined(pin_dir("/sys/fs/bpf/fluxvm"@, id), "iface"@),
        ),
        env.pin_root matches Some(root) ==> path::same_path(
            pin_dir(root@, id),
            pin_dir("/sys/fs/bpf/fluxvm"@, id),
        ) || removes(removal(env, id), pin_dir(root@, id)) && looks_at(
            removal(env, id),
            path::joined(pin_dir(root@, id), "iface"@),
        ),
{
    let usual = pin_dir("/sys/fs/bpf/fluxvm"@, id);
    let dirs = pin_dirs(env, id);
    let meta = meta_dir(env, id);
    let all = removal(env, id);
    assert(all.last().action == (step::ActionView::RemoveTree { path: meta }));
    assert(all[0] == recall(path::joined(meta, "iface"@)));
    assert(dirs[0] == usual);
    lemma_place_is_cleared(env, id, 0);
    if let Some(root) = env.pin_root {
        if !path::same_path(usual, pin_dir(root@, id)) {
            assert(dirs[1] == pin_dir(root@, id));
            lemma_place_is_cleared(env, id, 1);
        }
    }
}

proof fn lemma_place_is_cleared(env: BpfEnv, id: VmId, i: int)
    requires
        0 <= i < pin_dirs(env, id).len(),
    ensures
        removes(removal(env, id), pin_dirs(env, id)[i]),
        looks_at(removal(env, id), path::joined(pin_dirs(env, id)[i], "iface"@)),
{
    let dirs = pin_dirs(env, id);
    let places = Seq::empty().push(meta_dir(env, id)) + dirs;
    let a = recalls(places);
    let b = clears(dirs);
    lemma_clears_at(dirs, i);
    assert(places[i + 1] == dirs[i]);
    assert(removal(env, id)[i + 1] == recall(path::joined(places[i + 1], "iface"@)));
    assert(removal(env, id)[a.len() + 2 * i + 1] == b[2 * i + 1]);
}

proof fn lemma_clears_at(dirs: Seq<Seq<char>>, i: int)
    requires
        0 <= i < dirs.len(),
    ensures
        clears(dirs).len() == 2 * dirs.len(),
        clears(dirs)[2 * i + 1].action == (step::ActionView::RemoveTree { path: dirs[i] }),
    decreases dirs.len(),
{
    let before = dirs.drop_last();
    if before.len() > 0 {
        lemma_clears_at(
            before,
            if i < before.len() {
                i
            } else {
                0
            },
        );
    } else {
        assert(clears(before).len() == 0);
    }
    if i == before.len() {
        assert(clears(dirs)[2 * i + 1] == clear(dirs.last())[1]);
    } else {
        assert(clears(dirs)[2 * i + 1] == clears(before)[2 * i + 1]);
    }
}

/// What is taken off an interface is what was put on it: the filter at the same place.
pub proof fn law_detach_matches_attach(
    object: Seq<char>,
    dir: Seq<char>,
    meta: Seq<char>,
    iface: Seq<char>,
)
    ensures
        model::filters(attach(object, dir, meta, iface).last().action, "add"@, iface),
        model::filters(detach(iface).action, "del"@, iface),
{
}

/// The identity of a VM is the lowest word of its id and the third, combined bit by bit; where
/// that leaves nothing, one.
pub proof fn law_identity_mixes_two_words(id: VmId)
    ensures
        identity(id) == {
            let mixed = (id.bits as u32) ^ ((id.bits >> 64) as u32);
            if mixed == 0 {
                1u32
            } else {
                mixed
            }
        },
{
    let b = id.bits;
    assert((b % 0x1_0000_0000) as u32 == b as u32) by (bit_vector);
    assert((b / 0x1_0000_0000_0000_0000 % 0x1_0000_0000) as u32 == (b >> 64) as u32)
        by (bit_vector);
}

/// Without an interface nothing is done at all.
pub proof fn law_no_interface_is_refused(
    what: Program,
    id: VmId,
    env: BpfEnv,
    order: ByteOrder,
    reply: step::ReplyView,
)
    ensures
        ({
            let start = job::fresh(
                application(what, id, Seq::empty(), env, order),
                Seq::empty(),
            );
            &&& job::resumed(start, reply).todo.len() == 0
            &&& job::resumed(start, reply).failure matches Some(f) && f.cause
                == step::CauseView::Refused(Refusal::NoInterface)
        }),
{
}

/// A tool that cannot be run is a failure at once, and so is one that answers none of the
/// questions for its version.
pub proof fn law_missing_tool_is_a_failure(name: Seq<char>, k: int)
    requires
        0 <= k < tool_check(name).len(),
    ensures
        tool_check(name)[k].on_missing == Next::Abort,
        tool_check(name)[k].missing_context == name + " is required for the eBPF dataplane"@,
        tool_check(name).last().on_failure == Next::Abort,
        k < tool_check(name).len() - 1 ==> tool_check(name)[k].on_failure == Next::Skip(0),
        model::runs(tool_check(name)[k].action, name),
        model::arguments(tool_check(name)[k].action).len() == 1,
{
}

/// Pins and metadata of a VM stand below their root, in a directory that its digits name.
pub proof fn law_directories_are_below_the_root(root: Seq<char>, env: BpfEnv, id: VmId)
    requires
        root.len() > 0,
        root.last() != '/',
    ensures
        pin_dir(root, id) == root + "/vms/"@ + vmid::simple(id),
        env.meta_root is None ==> meta_dir(env, id) == "/run/fluxvm/ebpf/vms/"@ + vmid::simple(id),
        env.meta_root matches Some(m) ==> (m@ == root ==> meta_dir(env, id) == root + "/vms/"@
            + vmid::simple(id)),
{
    reveal_strlit("vms");
    reveal_strlit("/vms/");
    reveal_strlit("/run/fluxvm/ebpf/vms");
    reveal_strlit("/run/fluxvm/ebpf/vms/");
    let digits = vmid::simple(id);
    number::lemma_hex_digits_len(id.bits as nat, 32);
    number::lemma_hex_digits_are_digits(id.bits as nat, 32);
    assert(digits[0] != '/');
    assert(path::joined(root, "vms"@).last() == 's');
    assert(pin_dir(root, id) =~= root + "/vms/"@ + digits);
    assert(path::joined("/run/fluxvm/ebpf/vms"@, digits) =~= "/run/fluxvm/ebpf/vms/"@ + digits);
}

/// The removal removes nothing but the metadata of the VM and the directories in which its pins
/// may stand, and looks at the metadata first.
pub proof fn law_nothing_else_is_removed(env: BpfEnv, id: VmId, k: int)
    requires
        0 <= k < removal(env, id).len(),
    ensures
        removal(env, id)[0].action == (step::ActionView::Read {
            path: path::joined(meta_dir(env, id), "iface"@),
        }),
        removal(env, id)[k].action matches step::ActionView::RemoveTree { path } ==> {
            ||| path == meta_dir(env, id)
            ||| path == pin_dir("/sys/fs/bpf/fluxvm"@, id)
            ||| env.pin_root matches Some(root) && path == pin_dir(root@, id)
        },
        removal(env, id)[k].action is RemoveTree || removal(env, id)[k].action is Exists
            || removal(env, id)[k].action is Read,
{
    let dirs = pin_dirs(env, id);
    let places = Seq::empty().push(meta_dir(env, id)) + dirs;
    let a = recalls(places);
    let b = clears(dirs);
    assert(a[0] == recall(path::joined(places[0], "iface"@)));
    if k < a.len() {
        assert(a[k] == recall(path::joined(places[k], "iface"@)));
    } else if k < a.len() + b.len() {
        assert(removal(env, id)[k] == b[k - a.len()]);
        lemma_clears_only(dirs, k - a.len());
    } else {
        assert(removal(env, id)[k] == clear(meta_dir(env, id))[k - a.len() - b.len()]);
    }
}

proof fn lemma_clears_only(dirs: Seq<Seq<char>>, k: int)
    requires
        0 <= k < clears(dirs).len(),
    ensures
        clears(dirs)[k].action matches step::ActionView::RemoveTree { path } ==> dirs.contains(path),
        clears(dirs)[k].action is RemoveTree || clears(dirs)[k].action is Exists,
    decreases dirs.len(),
{
    let before = dirs.drop_last();
    if k < clears(before).len() {
        lemma_clears_only(before, k);
        assert(clears(dirs)[k] == clears(before)[k]);
        if let step::ActionView::RemoveTree { path } = clears(dirs)[k].action {
            let i = choose|i: int| 0 <= i < before.len() && before[i] == path;
            assert(dirs[i] == path);
        }
    } else {
        assert(clears(dirs)[k] == clear(dirs.last())[k - clears(before).len()]);
        assert(dirs[dirs.len() - 1] == dirs.last());
    }
}

/// Before anything is changed the object file is asked for, then both tools; before the program
/// is loaded the directories for its pins, its maps and the metadata are made. The queueing
/// discipline that the filter needs is added to the same interface, and may be there already.
#[verifier::spinoff_prover]
#[verifier::rlimit(50)]
pub proof fn law_ground_is_prepared(
    what: Program,
    id: VmId,
    iface: Seq<char>,
    env: BpfEnv,
    order: ByteOrder,
)
    requires
        iface.len() > 0,
    ensures
        ({
            let steps = application(what, id, iface, env, order);
            let n = removal(env, id).len() as int;
            let dir = pin_dir(what.pin_root, id);
            &&& steps.len() >= n + 14
            &&& steps[0].action == (step::ActionView::Exists { path: what.object })
            &&& steps[0].on_failure == Next::Abort
            &&& model::runs(steps[1].action, "bpftool"@)
            &&& model::runs(steps[3].action, "tc"@)
            &&& steps.subrange(6, 6 + n) == removal(env, id)
            &&& steps[6 + n].action == (step::ActionView::MakeDirs {
                path: path::joined(dir, "progs"@),
            })
            &&& steps[7 + n].action == (step::ActionView::MakeDirs {
                path: path::joined(dir, "maps"@),
            })
            &&& steps[8 + n].action == (step::ActionView::MakeDirs { path: meta_dir(env, id) })
            &&& steps[6 + n].on_failure == Next::Abort
            &&& steps[7 + n].on_failure == Next::Abort
            &&& steps[8 + n].on_failure == Next::Abort
            &&& model::runs(steps[11 + n].action, "tc"@)
            &&& model::arguments(steps[11 + n].action) == seq![
                "qdisc"@,
                "add"@,
                "dev"@,
                iface,
                "clsact"@,
            ]
            &&& steps[11 + n].on_failure == Next::Skip(0)
        }),
{
    reveal_strlit("bpftool");
    reveal_strlit("tc");
    assert("bpftool"@.len() != "tc"@.len());
    let steps = application(what, id, iface, env, order);
    let r = removal(env, id);
    let n = r.len() as int;
    let a = tool_check("bpftool"@);
    let b = tool_check("tc"@);
    let all = attach(what.object, pin_dir(what.pin_root, id), meta_dir(env, id), iface);
    assert(a.len() == 2 && b.len() == 3 && all.len() == 7);
    assert(steps[1] == a[0]);
    assert(steps[3] == b[0]);
    assert(steps.subrange(6, 6 + n) =~= r);
    assert(steps[6 + n] == all[0]);
    assert(steps[7 + n] == all[1]);
    assert(steps[8 + n] == all[2]);
    assert(steps[11 + n] == all[5]);
    assert(model::arguments(all[5].action) =~= seq![
        "qdisc"@,
        "add"@,
        "dev"@,
        iface,
        "clsact"@,
    ]);
}

/// Whether a step of a check asks a tool with one word.
pub open spec fn asks(steps: Seq<step::StepView>, name: Seq<char>, word: Seq<char>) -> bool {
    exists|k: int|
        0 <= k < steps.len() && model::runs((#[trigger] steps[k]).action, name) && model::arguments(
            steps[k].action,
        ) == seq![word]
}

/// Every tool is asked for its version in each of the ways that it may know; `tc` also in its own.
pub proof fn law_tools_are_asked_in_every_way(name: Seq<char>)
    ensures
        asks(tool_check(name), name, "-V"@),
        asks(tool_check(name), name, "--version"@),
        name == "tc"@ ==> asks(tool_check(name), name, "-Version"@),
{
    let steps = tool_check(name);
    assert(model::arguments(steps[0].action) =~= seq![
        if name == "tc"@ {
            "-V"@
        } else {
            "--version"@
        },
    ]);
    assert(model::arguments(steps[1].action) =~= seq![
        if name == "tc"@ {
            "-Version"@
        } else {
            "-V"@
        },
    ]);
    if name == "tc"@ {
        assert(model::arguments(steps[2].action) =~= seq!["--version"@]);
    }
}

} // verus!
