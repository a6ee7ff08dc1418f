//! What is made of the answer to a step: the further steps that follow from it.

use crate::ebpf;
use crate::model;
use crate::netns;
use crate::number;
use crate::path;
use crate::step;
use crate::step::{Follow, Refusal, Reply, Step};
use crate::text;
use crate::xdp;
use vstd::prelude::*;
use vstd::string::*;

verus! {

/// What follows from an answer.
pub struct Answer {
    /// Steps to take before anything else.
    pub steps: Vec<Step>,
    /// Whether the rest of the block is left out.
    pub leave: bool,
}

/// What an [`Answer`] is.
pub struct AnswerView {
    pub steps: Seq<step::StepView>,
    pub leave: bool,
}

impl View for Answer {
    type V = AnswerView;

    open spec fn view(&self) -> AnswerView {
        AnswerView { steps: step::plan(self.steps@), leave: self.leave }
    }
}

/// What follows where nothing is left out.
pub open spec fn go_on(steps: Seq<step::StepView>) -> Result<AnswerView, Refusal> {
    Ok(AnswerView { steps, leave: false })
}

/// What follows where a further step may be refused.
pub open spec fn go_on_if(steps: Result<Seq<step::StepView>, Refusal>) -> Result<
    AnswerView,
    Refusal,
> {
    match steps {
        Ok(s) => go_on(s),
        Err(e) => Err(e),
    }
}

/// What follows from a recorded interface: the filter is taken off it, and no further record is
/// looked for. A blank record counts for nothing.
pub open spec fn after_record(raw: Seq<char>) -> AnswerView {
    let iface = text::trimmed(raw);
    if iface.len() == 0 {
        AnswerView { steps: Seq::empty(), leave: false }
    } else {
        AnswerView { steps: Seq::<step::StepView>::empty().push(ebpf::detach(iface)), leave: true }
    }
}

/// What follows from the answer to a step.
pub open spec fn answered(follow: step::FollowView, reply: step::ReplyView) -> Result<
    AnswerView,
    Refusal,
> {
    match (follow, reply) {
        (step::FollowView::Nothing, _) => go_on(Seq::empty()),
        (step::FollowView::RecordedIface, step::ReplyView::Text(raw)) => Ok(after_record(raw)),
        (
            step::FollowView::Ifindex { iface: _, map, identity, default_allow, order },
            step::ReplyView::Text(raw),
        ) => match number::unsigned(text::trimmed(raw), 0xffff_ffff) {
            None => Err(Refusal::BadIfindex),
            Some(index) => go_on(
                Seq::<step::StepView>::empty().push(
                    step::bare_view(
                        ebpf::iface_entry(map, index as u32, identity, default_allow, order),
                    ),
                ),
            ),
        },
        (step::FollowView::ServerPid, step::ReplyView::Text(raw)) => go_on(netns::after_pid(raw)),
        (
            step::FollowView::ServerStarted { pid_file },
            step::ReplyView::Started(Some(pid)),
        ) => go_on(Seq::<step::StepView>::empty().push(netns::after_start(pid, pid_file))),
        (step::FollowView::ServerStarted { pid_file: _ }, step::ReplyView::Started(None)) => Err(
            Refusal::ExitedAtOnce,
        ),
        (step::FollowView::XdpIface { meta, root, fail }, step::ReplyView::Text(raw)) => go_on(
            xdp::after_iface(raw, meta, root, fail),
        ),
        (step::FollowView::XdpOwner { iface, fail }, step::ReplyView::Text(raw)) => go_on_if(
            xdp::after_owner(raw, iface, fail),
        ),
        (
            step::FollowView::XdpOwned { iface, owner, fail },
            step::ReplyView::Output(bytes),
        ) => match xdp::output_state(bytes) {
            Ok(seen) => go_on_if(xdp::after_state(seen, iface, owner, fail)),
            Err(e) => Err(e),
        },
        (
            step::FollowView::XdpFree { iface: _ },
            step::ReplyView::Output(bytes),
        ) => match xdp::output_state(bytes) {
            Ok(seen) => if seen.0 {
                Err(Refusal::XdpBusy)
            } else {
                go_on(Seq::empty())
            },
            Err(e) => Err(e),
        },
        (
            step::FollowView::XdpProgram { meta },
            step::ReplyView::Output(bytes),
        ) => match xdp::output_program(bytes) {
            Ok(id) => go_on(Seq::<step::StepView>::empty().push(xdp::after_program(id, meta))),
            Err(e) => Err(e),
        },
        _ => Err(Refusal::Unexpected),
    }
}

/// What was being done where an answer is refused, as far as the refusal does not say it all
/// itself.
pub open spec fn context_of(follow: step::FollowView, refusal: Refusal) -> Seq<char> {
    match (follow, refusal) {
        (
            step::FollowView::Ifindex { iface, map: _, identity: _, default_allow: _, order: _ },
            Refusal::BadIfindex,
        ) => "parsing ifindex for "@ + iface,
        (
            step::FollowView::XdpOwner { iface: _, fail: _ },
            Refusal::BadProgramId,
        ) => "parsing FluxVM XDP program id"@,
        (
            step::FollowView::XdpOwned { iface, owner: _, fail: _ },
            Refusal::XdpUnknown,
        ) => "interface "@ + iface,
        (step::FollowView::XdpFree { iface }, Refusal::XdpBusy) => "interface "@ + iface,
        (
            step::FollowView::XdpOwned { iface: _, owner: _, fail: _ },
            Refusal::NotJson,
        ) => "parsing ip -j link output"@,
        (
            step::FollowView::XdpFree { iface: _ },
            Refusal::NotJson,
        ) => "parsing ip -j link output"@,
        (
            step::FollowView::XdpProgram { meta: _ },
            Refusal::NotJson,
        ) => "parsing bpftool program JSON"@,
        _ => Seq::empty(),
    }
}

/// Tells what was being done where an answer is refused.
pub fn context_for(follow: &Follow, refusal: Refusal) -> (r: String)
    ensures
        r@ == context_of(follow@, refusal),
{
    match (follow, refusal) {
        (
            Follow::Ifindex { iface, map: _, identity: _, default_allow: _, order: _ },
            Refusal::BadIfindex,
        ) => "parsing ifindex for ".to_owned().concat(iface.as_str()),
        (
            Follow::XdpOwner { iface: _, fail: _ },
            Refusal::BadProgramId,
        ) => "parsing FluxVM XDP program id".to_owned(),
        (
            Follow::XdpOwned { iface, owner: _, fail: _ },
            Refusal::XdpUnknown,
        ) => "interface ".to_owned().concat(iface.as_str()),
        (
            Follow::XdpFree { iface },
            Refusal::XdpBusy,
        ) => "interface ".to_owned().concat(iface.as_str()),
        (
            Follow::XdpOwned { iface: _, owner: _, fail: _ },
            Refusal::NotJson,
        ) => "parsing ip -j link output".to_owned(),
        (
            Follow::XdpFree { iface: _ },
            Refusal::NotJson,
        ) => "parsing ip -j link output".to_owned(),
        (
            Follow::XdpProgram { meta: _ },
            Refusal::NotJson,
        ) => "parsing bpftool program JSON".to_owned(),
        _ => String::new(),
    }
}

fn only(steps: Vec<Step>) -> (r: Answer)
    ensures
        r@ == (AnswerView { steps: step::plan(steps@), leave: false }),
{
    Answer { steps, leave: false }
}

fn one(s: Step) -> (r: Answer)
    ensures
        r@ == (AnswerView { steps: Seq::<step::StepView>::empty().push(s@), leave: false }),
{
    let mut steps = step::no_steps();
    step::add_step(&mut steps, s);
    only(steps)
}

fn record_known(raw: &str) -> (r: Answer)
    ensures
        r@ == after_record(raw@),
{
    let iface = text::trim(raw);
    let mut steps = step::no_steps();
    if iface.is_empty() {
        return only(steps);
    }
    step::add_step(&mut steps, ebpf::detach_step(iface));
    Answer { steps, leave: true }
}

/// What an answer that was worked out says.
pub open spec fn says(r: Result<Answer, Refusal>) -> Result<AnswerView, Refusal> {
    match r {
        Ok(a) => Ok(a@),
        Err(e) => Err(e),
    }
}

/// Works out what follows from the answer to a step.
pub fn answer(follow: &Follow, reply: &Reply) -> (r: Result<Answer, Refusal>)
    ensures
        says(r) == answered(follow@, reply@),
{
    match (follow, reply) {
        (Follow::Nothing, _) => Ok(only(step::no_steps())),
        (Follow::RecordedIface, Reply::Text(raw)) => Ok(record_known(raw.as_str())),
        (
            Follow::Ifindex { iface: _, map, identity, default_allow, order },
            Reply::Text(raw),
        ) => match number::parse_unsigned(text::trim(raw.as_str()), 0xffff_ffff) {
            None => Err(Refusal::BadIfindex),
            Some(index) => Ok(
                one(
                    step::bare(
                        ebpf::update_iface_config(
                            map.as_str(),
                            index as u32,
                            *identity,
                            *default_allow,
                            *order,
                        ),
                    ),
                ),
            ),
        },
        (Follow::ServerPid, Reply::Text(raw)) => Ok(only(netns::pid_known(raw.as_str()))),
        (Follow::ServerStarted { pid_file }, Reply::Started(Some(pid))) => Ok(
            one(netns::server_started(*pid, pid_file.as_str())),
        ),
        (Follow::ServerStarted { pid_file: _ }, Reply::Started(None)) => Err(
            Refusal::ExitedAtOnce,
        ),
        (Follow::XdpIface { meta, root, fail }, Reply::Text(raw)) => Ok(
            only(xdp::iface_known(raw.as_str(), meta.as_str(), root.as_str(), *fail)),
        ),
        (
            Follow::XdpOwner { iface, fail },
            Reply::Text(raw),
        ) => match xdp::owner_known(raw.as_str(), iface.as_str(), *fail) {
            Ok(steps) => Ok(only(steps)),
            Err(e) => Err(e),
        },
        (
            Follow::XdpOwned { iface, owner, fail },
            Reply::Output(bytes),
        ) => match xdp::interface_xdp_state(bytes.as_slice()) {
            Ok(seen) => match xdp::state_known(seen, iface.as_str(), *owner, *fail) {
                Ok(steps) => Ok(only(steps)),
                Err(e) => Err(e),
            },
            Err(e) => Err(e),
        },
        (
            Follow::XdpFree { iface: _ },
            Reply::Output(bytes),
        ) => match xdp::interface_xdp_state(bytes.as_slice()) {
            Ok(seen) => if seen.0 {
                Err(Refusal::XdpBusy)
            } else {
                Ok(only(step::no_steps()))
            },
            Err(e) => Err(e),
        },
        (
            Follow::XdpProgram { meta },
            Reply::Output(bytes),
        ) => match xdp::pinned_program_id(bytes.as_slice()) {
            Ok(id) => Ok(one(xdp::program_known(id, meta.as_str()))),
            Err(e) => Err(e),
        },
        _ => Err(Refusal::Unexpected),
    }
}

// ---------------------------------------------------------------------------------------------
// Laws
// ---------------------------------------------------------------------------------------------

/// The index that the kernel shows of an interface, a number and a line feed, is entered with the
/// identity and the default that it was asked for with. What is no number of 32 bits is refused.
pub proof fn law_index_is_entered(
    iface: Seq<char>,
    map: Seq<char>,
    identity: u32,
    default_allow: bool,
    order: step::ByteOrder,
    index: u32,
    raw: Seq<char>,
)
    ensures
        ({
            let asked = step::FollowView::Ifindex { iface, map, identity, default_allow, order };
            let shown = number::decimal(index as nat).push('\n');
            &&& answered(asked, step::ReplyView::Text(shown)) matches Ok(a) && !a.leave
                && a.steps.len() == 1 && model::enters_interface(
                a.steps[0].action,
                map,
                index,
                identity,
                default_allow,
                order,
            ) && a.steps[0].on_failure == step::Next::Abort
            &&& number::unsigned(text::trimmed(raw), 0xffff_ffff) is None <==> answered(
                asked,
                step::ReplyView::Text(raw),
            ) == Err::<AnswerView, Refusal>(Refusal::BadIfindex)
            &&& number::unsigned(text::trimmed(raw), 0xffff_ffff) == Some(index as nat) ==> (
            answered(asked, step::ReplyView::Text(raw)) matches Ok(a) && a.steps.len() == 1
                && model::enters_interface(
                a.steps[0].action,
                map,
                index,
                identity,
                default_allow,
                order,
            ))
        }),
{
    let digits = number::decimal(index as nat);
    number::lemma_decimal_digits(index as nat);
    number::lemma_trim_digits(digits);
    number::law_decimal_round_trip(index as nat, 0xffff_ffff);
    text::lemma_trimmed_push(digits, '\n');
    ebpf::law_interface_entry_is_read(map, index, identity, default_allow, order);
}

/// The interface that was recorded has its filter taken off, and no other record is looked at; a
/// blank record leads to nothing.
pub proof fn law_recorded_interface_is_freed(raw: Seq<char>)
    ensures
        answered(step::FollowView::RecordedIface, step::ReplyView::Text(raw)) matches Ok(a) && {
            &&& a.leave <==> text::trimmed(raw).len() > 0
            &&& a.leave ==> a.steps.len() == 1 && model::filters(
                a.steps[0].action,
                "del"@,
                text::trimmed(raw),
            )
            &&& !a.leave ==> a.steps.len() == 0
        },
{
}

/// A DHCP server that was started is recorded by its process id, where it can be found again; one
/// that exits at once is a failure.
pub proof fn law_started_server_is_recorded(pid: u32, pid_file: Seq<char>)
    ensures
        answered(
            step::FollowView::ServerStarted { pid_file },
            step::ReplyView::Started(Some(pid)),
        ) matches Ok(a) && a.steps.len() == 1 && a.steps[0].action == (step::ActionView::Write {
            path: pid_file,
            text: number::decimal(pid as nat),
        }) && a.steps[0].on_failure == step::Next::Unwind,
        answered(
            step::FollowView::ServerStarted { pid_file },
            step::ReplyView::Started(None),
        ) == Err::<AnswerView, Refusal>(Refusal::ExitedAtOnce),
        answered(
            step::FollowView::ServerPid,
            step::ReplyView::Text(number::decimal(pid as nat)),
        ) matches Ok(a) && a.steps.len() == 1 && a.steps[0].action == (
        step::ActionView::Terminate { pid }),
{
    number::lemma_decimal_digits(pid as nat);
    number::lemma_trim_digits(number::decimal(pid as nat));
    number::law_decimal_round_trip(pid as nat, 0xffff_ffff);
}

/// The program that was loaded is recorded by the id that `bpftool` reports.
pub proof fn law_loaded_program_is_recorded(meta: Seq<char>, bytes: Seq<u8>, id: u32)
    requires
        xdp::output_program(bytes) == Ok::<u32, Refusal>(id),
    ensures
        answered(
            step::FollowView::XdpProgram { meta },
            step::ReplyView::Output(bytes),
        ) matches Ok(a) && a.steps.len() == 1 && a.steps[0].action == (step::ActionView::Write {
            path: path::joined(meta, "prog_id"@),
            text: number::decimal(id as nat),
        }) && a.steps[0].on_failure == step::Next::Unwind,
{
}

/// An interface counts as free exactly where it carries no program, and a program is taken off
/// exactly where it is the one that was recorded.
pub proof fn law_look_at_the_interface_decides(
    iface: Seq<char>,
    owner: u32,
    fail: step::Next,
    bytes: Seq<u8>,
    seen: (bool, Option<u32>),
)
    requires
        xdp::output_state(bytes) == Ok::<(bool, Option<u32>), Refusal>(seen),
    ensures
        answered(
            step::FollowView::XdpFree { iface },
            step::ReplyView::Output(bytes),
        ) is Ok <==> !seen.0,
        answered(
            step::FollowView::XdpFree { iface },
            step::ReplyView::Output(bytes),
        ) matches Ok(a) ==> a.steps.len() == 0 && !a.leave,
        ({
            let answer = answered(
                step::FollowView::XdpOwned { iface, owner, fail },
                step::ReplyView::Output(bytes),
            );
            &&& answer is Err <==> seen.0 && seen.1 is None
            &&& seen == (true, Some(owner)) ==> (answer matches Ok(a) && a.steps.len() == 1
                && model::runs(a.steps[0].action, "ip"@) && model::arguments(a.steps[0].action)
                == seq!["link"@, "set"@, "dev"@, iface, "xdp"@, "off"@])
            &&& answer is Ok && seen != (true, Some(owner)) ==> (answer matches Ok(a)
                && a.steps.len() == 0)
        }),
{
    if seen == (true, Some(owner)) {
        let steps = xdp::after_state(seen, iface, owner, fail)->Ok_0;
        assert(model::arguments(steps[0].action) =~= seq![
            "link"@,
            "set"@,
            "dev"@,
            iface,
            "xdp"@,
            "off"@,
        ]);
    }
}

/// Where an answer is refused, the failure says what was being read, and of which interface.
pub proof fn law_refused_answer_says_what_was_read(
    iface: Seq<char>,
    map: Seq<char>,
    n: u32,
    b: bool,
    order: step::ByteOrder,
    fail: step::Next,
)
    ensures
        text::has_suffix(
            context_of(
                step::FollowView::Ifindex { iface, map, identity: n, default_allow: b, order },
                Refusal::BadIfindex,
            ),
            " for "@ + iface,
        ),
        text::has_suffix(
            context_of(step::FollowView::XdpFree { iface }, Refusal::XdpBusy),
            " "@ + iface,
        ),
        text::has_suffix(
            context_of(
                step::FollowView::XdpOwned { iface, owner: n, fail },
                Refusal::XdpUnknown,
            ),
            " "@ + iface,
        ),
{
    reveal_strlit("parsing ifindex for ");
    reveal_strlit(" for ");
    reveal_strlit("interface ");
    reveal_strlit(" ");
    let none = Seq::<char>::empty();
    text::law_suffix_stands_at_the_end(
        none,
        "parsing ifindex for "@.take(15),
        " for "@ + iface,
    );
    assert("parsing ifindex for "@ + iface =~= "parsing ifindex for "@.take(15) + (" for "@
        + iface));
    text::law_suffix_stands_at_the_end(none, "interface "@.take(9), " "@ + iface);
    assert("interface "@ + iface =~= "interface "@.take(9) + (" "@ + iface));
}

/// Where nothing is made of the answer, nothing follows from it, and an answer of another kind
/// than the one that was asked for is refused.
pub proof fn law_unexpected_answer_is_refused(follow: step::FollowView, reply: step::ReplyView)
    ensures
        follow == step::FollowView::Nothing ==> (answered(follow, reply) matches Ok(a)
            && a.steps.len() == 0 && !a.leave),
        follow != step::FollowView::Nothing && reply == step::ReplyView::Done ==> answered(
            follow,
            reply,
        ) == Err::<AnswerView, Refusal>(Refusal::Unexpected),
        (follow is XdpFree || follow is XdpOwned || follow is XdpProgram) && !(reply is Output)
            ==> answered(follow, reply) == Err::<AnswerView, Refusal>(Refusal::Unexpected),
        (follow is XdpIface || follow is XdpOwner || follow is Ifindex || follow is ServerPid
            || follow is RecordedIface) && !(reply is Text) ==> answered(follow, reply) == Err::<
            AnswerView,
            Refusal,
        >(Refusal::Unexpected),
        follow is ServerStarted && !(reply is Started) ==> answered(follow, reply) == Err::<
            AnswerView,
            Refusal,
        >(Refusal::Unexpected),
{
}

} // verus!
