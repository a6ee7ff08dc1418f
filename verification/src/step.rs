//! The vocabulary of host work: what can be asked of the host, what it can answer, and how one
//! piece of work leads to the next.

use crate::line::Line;
use vstd::prelude::*;
use vstd::string::*;

verus! {

// ---------------------------------------------------------------------------------------------
// Actions and replies
// ---------------------------------------------------------------------------------------------

/// One thing to do on the host.
#[derive(Debug, PartialEq, Eq)]
pub enum Action {
    /// Run a program to its end. It succeeds where the program exits successfully.
    Run { program: String, args: Vec<String> },
    /// The same, and keep what the program wrote to its standard output.
    Capture { program: String, args: Vec<String> },
    /// Start a program that goes on running, its output going to a log file.
    Spawn { program: String, args: Vec<String>, log: String },
    /// End a process.
    Terminate { pid: u32 },
    /// Look whether a path exists. It succeeds where it does.
    Exists { path: String },
    /// Read the metadata of a path.
    Inspect { path: String },
    /// Read a file.
    Read { path: String },
    /// Write a file.
    Write { path: String, text: String },
    /// Create a directory, and those above it.
    MakeDirs { path: String },
    /// Remove a directory with everything in it.
    RemoveTree { path: String },
    /// Remove a file.
    RemoveFile { path: String },
    /// Give a file another name.
    Rename { from: String, to: String },
    /// Raise the limit on locked memory.
    RaiseMemlock,
    /// Hand port rules and a sample rate to the loader of BPF programs. They go into the maps of
    /// the program that it pins at a place next, under an identity.
    Configure { pins: String, identity: u32, ports: Vec<PortRule>, sample_rate: u32 },
    /// Nothing on the host: the work is refused at this point.
    Refuse { reason: Refusal },
}

/// What an [`Action`] is.
pub enum ActionView {
    Run { program: Seq<char>, args: Seq<Seq<char>> },
    Capture { program: Seq<char>, args: Seq<Seq<char>> },
    Spawn { program: Seq<char>, args: Seq<Seq<char>>, log: Seq<char> },
    Terminate { pid: u32 },
    Exists { path: Seq<char> },
    Inspect { path: Seq<char> },
    Read { path: Seq<char> },
    Write { path: Seq<char>, text: Seq<char> },
    MakeDirs { path: Seq<char> },
    RemoveTree { path: Seq<char> },
    RemoveFile { path: Seq<char> },
    Rename { from: Seq<char>, to: Seq<char> },
    RaiseMemlock,
    Configure { pins: Seq<char>, identity: u32, ports: Seq<(Seq<char>, u16)>, sample_rate: u32 },
    Refuse { reason: Refusal },
}

impl View for Action {
    type V = ActionView;

    open spec fn view(&self) -> ActionView {
        match *self {
            Action::Run { program, args } => ActionView::Run {
                program: program@,
                args: args.deep_view(),
            },
            Action::Capture { program, args } => ActionView::Capture {
                program: program@,
                args: args.deep_view(),
            },
            Action::Spawn { program, args, log } => ActionView::Spawn {
                program: program@,
                args: args.deep_view(),
                log: log@,
            },
            Action::Terminate { pid } => ActionView::Terminate { pid },
            Action::Exists { path } => ActionView::Exists { path: path@ },
            Action::Inspect { path } => ActionView::Inspect { path: path@ },
            Action::Read { path } => ActionView::Read { path: path@ },
            Action::Write { path, text } => ActionView::Write { path: path@, text: text@ },
            Action::MakeDirs { path } => ActionView::MakeDirs { path: path@ },
            Action::RemoveTree { path } => ActionView::RemoveTree { path: path@ },
            Action::RemoveFile { path } => ActionView::RemoveFile { path: path@ },
            Action::Rename { from, to } => ActionView::Rename { from: from@, to: to@ },
            Action::RaiseMemlock => ActionView::RaiseMemlock,
            Action::Configure { pins, identity, ports, sample_rate } => ActionView::Configure {
                pins: pins@,
                identity,
                ports: rules(ports@),
                sample_rate,
            },
            Action::Refuse { reason } => ActionView::Refuse { reason },
        }
    }
}

/// A protocol and a port of it.
#[derive(Debug, PartialEq, Eq)]
pub struct PortRule {
    pub proto: String,
    pub port: u16,
}

impl View for PortRule {
    type V = (Seq<char>, u16);

    open spec fn view(&self) -> (Seq<char>, u16) {
        (self.proto@, self.port)
    }
}

/// What several port rules are.
pub open spec fn rules(list: Seq<PortRule>) -> Seq<(Seq<char>, u16)> {
    list.map_values(|r: PortRule| r@)
}

/// What the host answers to an [`Action`].
#[derive(Debug, PartialEq, Eq)]
pub enum Reply {
    /// It was done, and there is nothing to report.
    Done,
    /// What a file holds.
    Text(String),
    /// What a program wrote.
    Output(Vec<u8>),
    /// A program was started; its process id, unless it has ended already.
    Started(Option<u32>),
    /// It was tried and failed.
    Failed(String),
    /// What it needs is not there: a program to run, a file to remove.
    Missing(String),
}

/// What a [`Reply`] says.
pub enum ReplyView {
    Done,
    Text(Seq<char>),
    Output(Seq<u8>),
    Started(Option<u32>),
    Failed(Seq<char>),
    Missing(Seq<char>),
}

impl View for Reply {
    type V = ReplyView;

    open spec fn view(&self) -> ReplyView {
        match *self {
            Reply::Done => ReplyView::Done,
            Reply::Text(s) => ReplyView::Text(s@),
            Reply::Output(b) => ReplyView::Output(b@),
            Reply::Started(p) => ReplyView::Started(p),
            Reply::Failed(s) => ReplyView::Failed(s@),
            Reply::Missing(s) => ReplyView::Missing(s@),
        }
    }
}

// ---------------------------------------------------------------------------------------------
// Errors
// ---------------------------------------------------------------------------------------------

/// Why a text is no IPv4 network.
#[derive(Debug, Clone, Copy, PartialEq, Eq, Structural)]
pub enum CidrError {
    /// It has no `/prefix`.
    NoPrefix,
    /// What stands before the slash is no IPv4 address.
    BadAddress,
    /// What stands behind the slash is no number of eight bits.
    BadPrefix,
    /// The prefix is longer than an address.
    PrefixTooLong,
}

/// Why a text is no port rule.
#[derive(Debug, Clone, Copy, PartialEq, Eq, Structural)]
pub enum PortError {
    /// It has no slash.
    NoSlash,
    /// The protocol is neither `tcp` nor `udp`.
    BadProtocol,
    /// What stands behind the slash is no number of sixteen bits.
    BadPort,
    /// The port is zero.
    ZeroPort,
}

/// Why work is refused, for a reason that lies in what was asked or answered.
#[derive(Debug, Clone, Copy, PartialEq, Eq, Structural)]
pub enum Refusal {
    /// A network is malformed.
    Cidr(CidrError),
    /// A port rule is malformed.
    Port(PortError),
    /// There is no host-visible interface to attach to.
    NoInterface,
    /// The index of an interface is no number of 32 bits.
    BadIfindex,
    /// A program ended as soon as it was started.
    ExitedAtOnce,
    /// The XDP guard is to be on, but no interface is named.
    XdpNoInterface,
    /// The XDP guard is to be on next to Cilium.
    XdpWithCilium,
    /// The interface carries an XDP program already.
    XdpBusy,
    /// The interface carries an XDP program that cannot be told.
    XdpUnknown,
    /// The recorded program id is no number of 32 bits.
    BadProgramId,
    /// A tool did not write JSON.
    NotJson,
    /// A tool reported no program.
    NoProgram,
    /// A tool reported a program without an id.
    NoProgramId,
    /// A tool reported an id of more than 32 bits.
    ProgramIdTooLarge,
    /// The host answered something that does not fit the question.
    Unexpected,
}

/// A refusal, and what is wrong in words.
#[derive(Debug, PartialEq, Eq)]
pub struct Rejection {
    pub reason: Refusal,
    pub words: String,
}

/// What a [`Rejection`] is.
pub struct RejectionView {
    pub reason: Refusal,
    pub words: Seq<char>,
}

impl View for Rejection {
    type V = RejectionView;

    open spec fn view(&self) -> RejectionView {
        RejectionView { reason: self.reason, words: self.words@ }
    }
}

/// What made work fail.
#[derive(Debug, PartialEq, Eq)]
pub enum Cause {
    /// The host said so.
    Host(String),
    /// It was refused.
    Refused(Refusal),
}

/// What a [`Cause`] is.
pub enum CauseView {
    Host(Seq<char>),
    Refused(Refusal),
}

impl View for Cause {
    type V = CauseView;

    open spec fn view(&self) -> CauseView {
        match *self {
            Cause::Host(s) => CauseView::Host(s@),
            Cause::Refused(r) => CauseView::Refused(r),
        }
    }
}

/// The failure of a piece of work: what was being done, and what went wrong.
#[derive(Debug, PartialEq, Eq)]
pub struct Failure {
    pub context: String,
    pub cause: Cause,
}

/// What a [`Failure`] is.
pub struct FailureView {
    pub context: Seq<char>,
    pub cause: CauseView,
}

impl View for Failure {
    type V = FailureView;

    open spec fn view(&self) -> FailureView {
        FailureView { context: self.context@, cause: self.cause@ }
    }
}

// ---------------------------------------------------------------------------------------------
// Steps
// ---------------------------------------------------------------------------------------------

/// Where work goes on behind a step.
#[derive(Debug, Clone, Copy, PartialEq, Eq, Structural)]
pub enum Next {
    /// Behind as many further steps.
    Skip(usize),
    /// Behind the steps of the same block that follow.
    Leave,
    /// Nowhere: the work has failed.
    Abort,
    /// At what undoes the work, which has failed.
    Unwind,
}

/// Steps that belong together.
#[derive(Debug, Clone, Copy, PartialEq, Eq, Structural)]
pub enum Block {
    /// Everything that belongs to no other block.
    Main,
    /// Finding the interface that was recorded.
    Recall,
    /// Removing an earlier XDP attachment.
    Removal,
}

/// What is made of the answer to a step.
#[derive(Debug, PartialEq, Eq)]
pub enum Follow {
    /// Nothing.
    Nothing,
    /// A recorded interface: take the traffic filter off it.
    RecordedIface,
    /// An interface index: enter the interface into the identity map.
    Ifindex { iface: String, map: String, identity: u32, default_allow: bool, order: ByteOrder },
    /// The process id of a DHCP server: end it.
    ServerPid,
    /// A DHCP server was started: record its process id.
    ServerStarted { pid_file: String },
    /// The interface with the XDP attachment: find out which program was attached.
    XdpIface { meta: String, root: String, fail: Next },
    /// The program that was attached: find out what the interface carries now.
    XdpOwner { iface: String, fail: Next },
    /// What the interface carries: detach it where it is the program that was attached.
    XdpOwned { iface: String, owner: u32, fail: Next },
    /// What the interface carries: it has to be nothing.
    XdpFree { iface: String },
    /// The program that was loaded: record its id.
    XdpProgram { meta: String },
}

/// What a [`Follow`] is.
pub enum FollowView {
    Nothing,
    RecordedIface,
    Ifindex {
        iface: Seq<char>,
        map: Seq<char>,
        identity: u32,
        default_allow: bool,
        order: ByteOrder,
    },
    ServerPid,
    ServerStarted { pid_file: Seq<char> },
    XdpIface { meta: Seq<char>, root: Seq<char>, fail: Next },
    XdpOwner { iface: Seq<char>, fail: Next },
    XdpOwned { iface: Seq<char>, owner: u32, fail: Next },
    XdpFree { iface: Seq<char> },
    XdpProgram { meta: Seq<char> },
}

impl View for Follow {
    type V = FollowView;

    open spec fn view(&self) -> FollowView {
        match *self {
            Follow::Nothing => FollowView::Nothing,
            Follow::RecordedIface => FollowView::RecordedIface,
            Follow::Ifindex { iface, map, identity, default_allow, order } => FollowView::Ifindex {
                iface: iface@,
                map: map@,
                identity,
                default_allow,
                order,
            },
            Follow::ServerPid => FollowView::ServerPid,
            Follow::ServerStarted { pid_file } => FollowView::ServerStarted { pid_file: pid_file@ },
            Follow::XdpIface { meta, root, fail } => FollowView::XdpIface {
                meta: meta@,
                root: root@,
                fail,
            },
            Follow::XdpOwner { iface, fail } => FollowView::XdpOwner { iface: iface@, fail },
            Follow::XdpOwned { iface, owner, fail } => FollowView::XdpOwned {
                iface: iface@,
                owner,
                fail,
            },
            Follow::XdpFree { iface } => FollowView::XdpFree { iface: iface@ },
            Follow::XdpProgram { meta } => FollowView::XdpProgram { meta: meta@ },
        }
    }
}

impl Follow {
    /// Makes the same of another answer.
    pub fn copy(&self) -> (r: Follow)
        ensures
            r@ == self@,
    {
        match self {
            Follow::Nothing => Follow::Nothing,
            Follow::RecordedIface => Follow::RecordedIface,
            Follow::Ifindex { iface, map, identity, default_allow, order } => Follow::Ifindex {
                iface: iface.clone(),
                map: map.clone(),
                identity: *identity,
                default_allow: *default_allow,
                order: *order,
            },
            Follow::ServerPid => Follow::ServerPid,
            Follow::ServerStarted { pid_file } => Follow::ServerStarted {
                pid_file: pid_file.clone(),
            },
            Follow::XdpIface { meta, root, fail } => Follow::XdpIface {
                meta: meta.clone(),
                root: root.clone(),
                fail: *fail,
            },
            Follow::XdpOwner { iface, fail } => Follow::XdpOwner {
                iface: iface.clone(),
                fail: *fail,
            },
            Follow::XdpOwned { iface, owner, fail } => Follow::XdpOwned {
                iface: iface.clone(),
                owner: *owner,
                fail: *fail,
            },
            Follow::XdpFree { iface } => Follow::XdpFree { iface: iface.clone() },
            Follow::XdpProgram { meta } => Follow::XdpProgram { meta: meta.clone() },
        }
    }
}

/// The order of the bytes of a number in memory.
#[derive(Debug, Clone, Copy, PartialEq, Eq, Structural)]
pub enum ByteOrder {
    /// The least significant byte first.
    Little,
    /// The most significant byte first.
    Big,
}

/// One step of a piece of work.
#[derive(Debug, PartialEq, Eq)]
pub struct Step {
    pub action: Action,
    /// What is being done, for the error message where it fails.
    pub context: String,
    /// The same, where what it needs is missing.
    pub missing_context: String,
    pub follow: Follow,
    pub block: Block,
    pub on_success: Next,
    pub on_failure: Next,
    pub on_missing: Next,
}

/// What a [`Step`] is.
pub struct StepView {
    pub action: ActionView,
    pub context: Seq<char>,
    pub missing_context: Seq<char>,
    pub follow: FollowView,
    pub block: Block,
    pub on_success: Next,
    pub on_failure: Next,
    pub on_missing: Next,
}

impl View for Step {
    type V = StepView;

    open spec fn view(&self) -> StepView {
        StepView {
            action: self.action@,
            context: self.context@,
            missing_context: self.missing_context@,
            follow: self.follow@,
            block: self.block,
            on_success: self.on_success,
            on_failure: self.on_failure,
            on_missing: self.on_missing,
        }
    }
}

/// What a list of steps is.
pub open spec fn plan(steps: Seq<Step>) -> Seq<StepView> {
    steps.map_values(|s: Step| s@)
}

// ---------------------------------------------------------------------------------------------
// Building steps
// ---------------------------------------------------------------------------------------------

/// A step that has to succeed.
pub open spec fn must_view(action: ActionView, context: Seq<char>) -> StepView {
    StepView {
        action,
        context,
        missing_context: context,
        follow: FollowView::Nothing,
        block: Block::Main,
        on_success: Next::Skip(0),
        on_failure: Next::Abort,
        on_missing: Next::Abort,
    }
}

/// The same, where the host's own words say enough about a failure.
pub open spec fn bare_view(action: ActionView) -> StepView {
    must_view(action, Seq::empty())
}

/// A step that has to succeed, and that needs something: the host's own words say enough about a
/// failure, but not about the thing that is missing.
pub open spec fn needing_view(action: ActionView, context: Seq<char>) -> StepView {
    StepView { missing_context: context, ..bare_view(action) }
}

/// A step whose outcome does not matter.
pub open spec fn attempt_view(action: ActionView) -> StepView {
    StepView {
        action,
        context: Seq::empty(),
        missing_context: Seq::empty(),
        follow: FollowView::Nothing,
        block: Block::Main,
        on_success: Next::Skip(0),
        on_failure: Next::Skip(0),
        on_missing: Next::Skip(0),
    }
}

/// A step that decides whether the next one is taken: it is where this one succeeds.
pub open spec fn given_view(action: ActionView) -> StepView {
    StepView { on_failure: Next::Skip(1), on_missing: Next::Skip(1), ..attempt_view(action) }
}

impl StepView {
    /// The step with other ways to go on.
    pub open spec fn going(self, success: Next, failure: Next, missing: Next) -> StepView {
        StepView { on_success: success, on_failure: failure, on_missing: missing, ..self }
    }

    /// The step with something made of its answer.
    pub open spec fn followed(self, follow: FollowView) -> StepView {
        StepView { follow, ..self }
    }

    /// The step as part of a block.
    pub open spec fn inside(self, block: Block) -> StepView {
        StepView { block, ..self }
    }
}

/// Makes a step that has to succeed.
pub fn must(action: Action, context: &str) -> (r: Step)
    ensures
        r@ == must_view(action@, context@),
{
    Step {
        action,
        context: context.to_owned(),
        missing_context: context.to_owned(),
        follow: Follow::Nothing,
        block: Block::Main,
        on_success: Next::Skip(0),
        on_failure: Next::Abort,
        on_missing: Next::Abort,
    }
}

/// Makes a step that has to succeed, without a context.
pub fn bare(action: Action) -> (r: Step)
    ensures
        r@ == bare_view(action@),
{
    let none: String = String::new();
    must(action, none.as_str())
}

/// Makes a step that has to succeed, and that needs something.
pub fn needing(action: Action, context: &str) -> (r: Step)
    ensures
        r@ == needing_view(action@, context@),
{
    Step { missing_context: context.to_owned(), ..bare(action) }
}

/// Makes a step whose outcome does not matter.
pub fn attempt(action: Action) -> (r: Step)
    ensures
        r@ == attempt_view(action@),
{
    Step {
        action,
        context: String::new(),
        missing_context: String::new(),
        follow: Follow::Nothing,
        block: Block::Main,
        on_success: Next::Skip(0),
        on_failure: Next::Skip(0),
        on_missing: Next::Skip(0),
    }
}

/// Makes a step that decides whether the next one is taken.
pub fn given(action: Action) -> (r: Step)
    ensures
        r@ == given_view(action@),
{
    attempt(action).going(Next::Skip(0), Next::Skip(1), Next::Skip(1))
}

impl Step {
    /// Changes where work goes on.
    pub fn going(self, success: Next, failure: Next, missing: Next) -> (r: Step)
        ensures
            r@ == self@.going(success, failure, missing),
    {
        Step { on_success: success, on_failure: failure, on_missing: missing, ..self }
    }

    /// Makes something of the answer.
    pub fn follow_with(self, follow: Follow) -> (r: Step)
        ensures
            r@ == self@.followed(follow@),
    {
        Step { follow, ..self }
    }

    /// Makes the step part of a block.
    pub fn inside(self, block: Block) -> (r: Step)
        ensures
            r@ == self@.inside(block),
    {
        Step { block, ..self }
    }
}

/// A program and its arguments.
pub open spec fn run_view(program: Seq<char>, args: Seq<Seq<char>>) -> ActionView {
    ActionView::Run { program, args }
}

/// A program and its arguments, its output kept.
pub open spec fn capture_view(program: Seq<char>, args: Seq<Seq<char>>) -> ActionView {
    ActionView::Capture { program, args }
}

/// Runs a program.
pub fn run(program: &str, args: Line) -> (r: Action)
    ensures
        r@ == run_view(program@, args@),
{
    Action::Run { program: program.to_owned(), args: args.words }
}

/// Runs a program and keeps its output.
pub fn capture(program: &str, args: Line) -> (r: Action)
    ensures
        r@ == capture_view(program@, args@),
{
    Action::Capture { program: program.to_owned(), args: args.words }
}

/// Looks whether a path exists.
pub fn exists_at(path: &str) -> (r: Action)
    ensures
        r@ == (ActionView::Exists { path: path@ }),
{
    Action::Exists { path: path.to_owned() }
}

/// Reads a file.
pub fn read(path: &str) -> (r: Action)
    ensures
        r@ == (ActionView::Read { path: path@ }),
{
    Action::Read { path: path.to_owned() }
}

/// Writes a file.
pub fn write(path: &str, text: &str) -> (r: Action)
    ensures
        r@ == (ActionView::Write { path: path@, text: text@ }),
{
    Action::Write { path: path.to_owned(), text: text.to_owned() }
}

/// Creates directories.
pub fn make_dirs(path: &str) -> (r: Action)
    ensures
        r@ == (ActionView::MakeDirs { path: path@ }),
{
    Action::MakeDirs { path: path.to_owned() }
}

/// Removes a directory.
pub fn remove_tree(path: &str) -> (r: Action)
    ensures
        r@ == (ActionView::RemoveTree { path: path@ }),
{
    Action::RemoveTree { path: path.to_owned() }
}

/// Refuses to go on.
pub fn refuse(reason: Refusal) -> (r: Action)
    ensures
        r@ == (ActionView::Refuse { reason }),
{
    Action::Refuse { reason }
}

// ---------------------------------------------------------------------------------------------
// Lists of steps
// ---------------------------------------------------------------------------------------------

/// Starts a list of steps.
pub fn no_steps() -> (r: Vec<Step>)
    ensures
        plan(r@) == Seq::<StepView>::empty(),
{
    let r: Vec<Step> = Vec::new();
    assert(plan(r@) =~= Seq::<StepView>::empty());
    r
}

/// Adds a step to a list.
pub fn add_step(steps: &mut Vec<Step>, step: Step)
    ensures
        plan(final(steps)@) == plan(old(steps)@).push(step@),
{
    let ghost before = plan(steps@);
    steps.push(step);
    assert(plan(steps@) =~= before.push(step@));
}

/// Adds the steps of one list to another.
pub fn add_steps(steps: &mut Vec<Step>, more: Vec<Step>)
    ensures
        plan(final(steps)@) == plan(old(steps)@) + plan(more@),
{
    let mut rest: Vec<Step> = more;
    let ghost before = plan(steps@);
    steps.append(&mut rest);
    assert(plan(steps@) =~= before + plan(more@));
}

} // verus!
