//! How the tools on a host read the command lines that they are given: a model of what a call
//! does, against which the laws of the other modules are stated. It knows nothing of how those
//! lines are made.

use crate::dataplane;
use crate::dataplane::Packet;
use crate::number;
use crate::step;
use crate::step::ByteOrder;
use vstd::prelude::*;
use vstd::string::*;

verus! {

// ---------------------------------------------------------------------------------------------
// bpftool
// ---------------------------------------------------------------------------------------------

/// The value of a hexadecimal digit in lower case; -1 for any other character.
pub open spec fn digit(c: char) -> int {
    if '0' <= c <= '9' {
        c as int - '0' as int
    } else if 'a' <= c <= 'f' {
        10 + c as int - 'a' as int
    } else {
        -1
    }
}

/// Whether a word is a byte in hexadecimal: two digits.
pub open spec fn is_byte(word: Seq<char>) -> bool {
    word.len() == 2 && digit(word[0]) >= 0 && digit(word[1]) >= 0
}

/// The byte that a word stands for.
pub open spec fn byte(word: Seq<char>) -> int {
    16 * digit(word[0]) + digit(word[1])
}

/// The number that four words stand for, as a machine of a byte order reads it from memory.
pub open spec fn number_at(words: Seq<Seq<char>>, at: int, order: ByteOrder) -> int {
    match order {
        ByteOrder::Little => byte(words[at]) + 0x100 * byte(words[at + 1]) + 0x1_0000 * byte(
            words[at + 2],
        ) + 0x100_0000 * byte(words[at + 3]),
        ByteOrder::Big => 0x100_0000 * byte(words[at]) + 0x1_0000 * byte(words[at + 1]) + 0x100
            * byte(words[at + 2]) + byte(words[at + 3]),
    }
}

/// The words behind the name of a program that is run.
pub open spec fn arguments(action: step::ActionView) -> Seq<Seq<char>> {
    match action {
        step::ActionView::Run { program: _, args } => args,
        _ => Seq::empty(),
    }
}

/// Whether a program is run under a name.
pub open spec fn runs(action: step::ActionView, name: Seq<char>) -> bool {
    action matches step::ActionView::Run { program, args: _ } && program == name
}

/// Whether `bpftool` is asked to enter a value of some bytes under a key of some bytes into a
/// pinned map. The key begins behind six words, the value two words behind the key.
pub open spec fn updates(action: step::ActionView, map: Seq<char>, key: int, value: int) -> bool {
    let args = arguments(action);
    &&& runs(action, "bpftool"@)
    &&& args.len() == 6 + key + 2 + value
    &&& args[0] == "map"@
    &&& args[1] == "update"@
    &&& args[2] == "pinned"@
    &&& args[3] == map
    &&& args[4] == "key"@
    &&& args[5] == "hex"@
    &&& forall|i: int| 6 <= i < 6 + key ==> is_byte(#[trigger] args[i])
    &&& args[6 + key] == "value"@
    &&& args[7 + key] == "hex"@
    &&& forall|i: int| 8 + key <= i < args.len() ==> is_byte(#[trigger] args[i])
}

/// Whether a call enters an interface into an identity map: under its index, the identity of its
/// VM, and one where traffic is allowed by default, zero where it is not.
pub open spec fn enters_interface(
    action: step::ActionView,
    map: Seq<char>,
    ifindex: u32,
    identity: u32,
    default_allow: bool,
    order: ByteOrder,
) -> bool {
    let args = arguments(action);
    &&& updates(action, map, 4, 8)
    &&& number_at(args, 6, order) == ifindex
    &&& number_at(args, 12, order) == identity
    &&& number_at(args, 16, order) == if default_allow {
        1int
    } else {
        0int
    }
}

/// Whether a call allows a network to a VM: under the number of bits that count, those of the
/// identity among them, the identity, and the network in the order of the wire, there stands a
/// one.
pub open spec fn allows_network(
    action: step::ActionView,
    map: Seq<char>,
    identity: u32,
    prefix: int,
    network: u32,
    order: ByteOrder,
) -> bool {
    let args = arguments(action);
    &&& updates(action, map, 12, 4)
    &&& number_at(args, 6, order) == 32 + prefix
    &&& number_at(args, 10, order) == identity
    &&& number_at(args, 14, ByteOrder::Big) == network
    &&& number_at(args, 20, order) == 1
}

/// Whether a call blocks a network: under the length of its prefix, and the network in the order
/// of the wire, there stands a one.
pub open spec fn blocks_network(
    action: step::ActionView,
    map: Seq<char>,
    prefix: int,
    network: u32,
    order: ByteOrder,
) -> bool {
    let args = arguments(action);
    &&& updates(action, map, 8, 4)
    &&& number_at(args, 6, order) == prefix
    &&& number_at(args, 10, ByteOrder::Big) == network
    &&& number_at(args, 16, order) == 1
}

/// Whether `bpftool` is asked to load a program of a kind from an object file, to pin it, and to
/// pin its maps below a directory.
pub open spec fn loads(
    action: step::ActionView,
    object: Seq<char>,
    pin: Seq<char>,
    kind: Seq<char>,
    maps: Seq<char>,
) -> bool {
    let args = arguments(action);
    &&& runs(action, "bpftool"@)
    &&& args.len() == 8
    &&& args[0] == "prog"@
    &&& args[1] == "load"@
    &&& args[2] == object
    &&& args[3] == pin
    &&& args[4] == "type"@
    &&& args[5] == kind
    &&& args[6] == "pinmaps"@
    &&& args[7] == maps
}

// ---------------------------------------------------------------------------------------------
// ip and tc
// ---------------------------------------------------------------------------------------------

/// Whether `ip` is asked to put a pinned program on an interface.
pub open spec fn guards(action: step::ActionView, iface: Seq<char>, pin: Seq<char>) -> bool {
    let args = arguments(action);
    &&& runs(action, "ip"@)
    &&& args.len() == 7
    &&& args[0] == "link"@
    &&& args[1] == "set"@
    &&& args[2] == "dev"@
    &&& args[3] == iface
    &&& args[4] == "xdp"@
    &&& args[5] == "pinned"@
    &&& args[6] == pin
}

/// Whether `tc` is asked to change the filter at the place of this library on an interface: to
/// add it, or to delete it. What is to be added follows.
pub open spec fn filters(action: step::ActionView, verb: Seq<char>, iface: Seq<char>) -> bool {
    let args = arguments(action);
    &&& runs(action, "tc"@)
    &&& args.len() >= 7
    &&& args[0] == "filter"@
    &&& args[1] == verb
    &&& args[2] == "dev"@
    &&& args[3] == iface
    &&& args[4] == "ingress"@
    &&& args[5] == "pref"@
    &&& args[6] == "50"@
}

/// The words of a call of `ip`, on the host or inside a namespace, behind the name of the program.
pub open spec fn ip_words(action: step::ActionView, netns: Option<Seq<char>>) -> Seq<Seq<char>> {
    let args = arguments(action);
    match netns {
        None => args,
        Some(name) => if args.len() >= 4 && args[0] == "netns"@ && args[1] == "exec"@ && args[2]
            == name && args[3] == "ip"@ {
            args.skip(4)
        } else {
            Seq::empty()
        },
    }
}

/// Whether a step of a plan calls `ip` with some words, on the host or inside a namespace, and a
/// failure of it is a failure of the work, which is undone.
pub open spec fn calls_ip(
    steps: Seq<step::StepView>,
    netns: Option<Seq<char>>,
    words: Seq<Seq<char>>,
) -> bool {
    exists|k: int|
        0 <= k < steps.len() && runs((#[trigger] steps[k]).action, "ip"@) && ip_words(
            steps[k].action,
            netns,
        ) == words && steps[k].on_failure == step::Next::Unwind && steps[k].on_missing
            == step::Next::Unwind
}

/// Whether a call of `iptables` does something to the rule that translates the addresses of a
/// network: to look for it, to add it or to delete it.
pub open spec fn translates(
    action: step::ActionView,
    verb: Seq<char>,
    network: Seq<char>,
) -> bool {
    runs(action, "iptables"@) && arguments(action) == seq![
        "-t"@,
        "nat"@,
        verb,
        "POSTROUTING"@,
        "-s"@,
        network,
        "-j"@,
        "MASQUERADE"@,
    ]
}

// ---------------------------------------------------------------------------------------------
// nft
// ---------------------------------------------------------------------------------------------

/// A table as nftables keeps it.
pub struct Table {
    /// Whether a chain sees the packets that are forwarded.
    pub forward: bool,
    /// Whether that chain drops what none of its rules accepts.
    pub drops: bool,
    /// The rules of that chain, in words.
    pub rules: Seq<Seq<Seq<char>>>,
    /// Whether a chain translates addresses behind the routing.
    pub translates: bool,
    /// The rules of that chain, in words.
    pub translations: Seq<Seq<Seq<char>>>,
}

/// A table without anything in it.
pub open spec fn bare_table() -> Table {
    Table {
        forward: false,
        drops: false,
        rules: Seq::empty(),
        translates: false,
        translations: Seq::empty(),
    }
}

/// Whether a call of `nft` has a verb and is about a kind of thing in a table.
pub open spec fn calls_nft(
    action: step::ActionView,
    verb: Seq<char>,
    thing: Seq<char>,
    table: Seq<char>,
) -> bool {
    let args = arguments(action);
    &&& runs(action, "nft"@)
    &&& args.len() >= 4
    &&& args[0] == verb
    &&& args[1] == thing
    &&& args[2] == "inet"@
    &&& args[3] == table
}

/// What is left of a table, and of what is in it, behind a call of `nft`.
pub open spec fn after_call(
    state: Option<Table>,
    action: step::ActionView,
    table: Seq<char>,
) -> Option<Table> {
    let args = arguments(action);
    if calls_nft(action, "delete"@, "table"@, table) {
        None
    } else if calls_nft(action, "add"@, "table"@, table) {
        match state {
            Some(t) => Some(t),
            None => Some(bare_table()),
        }
    } else if state is None || args.len() < 5 {
        state
    } else if calls_nft(action, "add"@, "chain"@, table) {
        let t = state->Some_0;
        if args.len() >= 14 && args[7] == "filter"@ && args[9] == "forward"@ && args[4]
            == "forward"@ {
            Some(Table { forward: true, drops: args[12] == "policy"@ && args[13] == "drop;"@, ..t })
        } else if args.len() >= 10 && args[7] == "nat"@ && args[9] == "postrouting"@ && args[4]
            == "postrouting"@ {
            Some(Table { translates: true, ..t })
        } else {
            Some(t)
        }
    } else if calls_nft(action, "add"@, "rule"@, table) {
        let t = state->Some_0;
        if args[4] == "forward"@ && t.forward {
            Some(Table { rules: t.rules.push(args.skip(5)), ..t })
        } else if args[4] == "postrouting"@ && t.translates {
            Some(Table { translations: t.translations.push(args.skip(5)), ..t })
        } else {
            Some(t)
        }
    } else {
        state
    }
}

/// What is left of a table behind the steps of a plan, each of them taken.
pub open spec fn played(
    state: Option<Table>,
    steps: Seq<step::StepView>,
    table: Seq<char>,
) -> Option<Table>
    decreases steps.len(),
{
    if steps.len() == 0 {
        state
    } else {
        after_call(played(state, steps.drop_last(), table), steps.last().action, table)
    }
}

/// Whether a rule, in words, accepts a packet that comes from an address. A rule is a list of
/// conditions, all of which have to hold, and a verdict.
pub open spec fn accepts(words: Seq<Seq<char>>, from: Seq<char>, packet: Packet) -> bool
    decreases words.len(),
{
    if words.len() < 4 {
        words.len() == 1 && words[0] == "accept"@
    } else {
        &&& if words[0] == "ip"@ && words[1] == "saddr"@ {
            words[2] == from
        } else if words[0] == "ip"@ && words[1] == "daddr"@ {
            dataplane::goes_into(words[2], packet)
        } else if words[0] == "ct"@ && words[1] == "state"@ {
            words[2] == "established,related"@ && packet.established
        } else {
            words[1] == "dport"@ && words[0] == packet.proto && number::unsigned(words[2], 0xffff)
                == Some(packet.port as nat)
        }
        &&& accepts(words.skip(3), from, packet)
    }
}

/// Whether a table lets a packet through that comes from an address.
pub open spec fn passes(state: Option<Table>, from: Seq<char>, packet: Packet) -> bool {
    match state {
        None => true,
        Some(t) => !t.forward || !t.drops || exists|i: int|
            0 <= i < t.rules.len() && accepts(#[trigger] t.rules[i], from, packet),
    }
}

/// Whether a table translates the addresses of a source: the packets that come from it leave
/// under the address of the host.
pub open spec fn masquerades(state: Option<Table>, source: Seq<char>) -> bool {
    state matches Some(t) && t.translates && t.translations == seq![
        seq!["ip"@, "saddr"@, source, "masquerade"@],
    ]
}

} // verus!
