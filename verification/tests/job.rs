use fluxvm::job::Job;
use fluxvm::line::start;
use fluxvm::step::{
    attempt, bare, must, refuse, run, given, Block, Cause, Follow, Next, Refusal, Reply, Step,
};

fn step(name: &str) -> Step {
    must(run(name, start()), name)
}

fn programs(mut job: Job, mut replies: Vec<Reply>) -> (Vec<String>, Job) {
    replies.reverse();
    let mut done = Vec::new();
    while job.current().is_some() {
        done.push(format!("{:?}", job.current().unwrap()).split('"').nth(1).unwrap_or("").to_string());
        job.resume(replies.pop().unwrap_or(Reply::Done));
    }
    (done, job)
}

fn failed() -> Reply {
    Reply::Failed("failed".into())
}

#[test]
fn work_goes_from_step_to_step() {
    let (done, job) = programs(Job::new(vec![step("a"), step("b")]), vec![]);
    assert_eq!(done, ["a", "b"]);
    assert_eq!(job.failure, None);
}

#[test]
fn work_that_fails_stops() {
    let (done, job) = programs(Job::new(vec![step("a"), step("b")]), vec![failed()]);
    assert_eq!(done, ["a"]);
    let failure = job.failure.unwrap();
    assert_eq!((failure.context.as_str(), failure.cause), ("a", Cause::Host("failed".into())));
}

#[test]
fn a_question_decides_about_the_next_step() {
    let plan = || vec![given(run("q", start())), step("a"), step("b")];
    assert_eq!(programs(Job::new(plan()), vec![]).0, ["q", "a", "b"]);
    assert_eq!(programs(Job::new(plan()), vec![failed()]).0, ["q", "b"]);
}

#[test]
fn leaving_a_block_ends_with_the_block() {
    let inside = |name: &str| step(name).inside(Block::Removal);
    let plan = vec![
        inside("a").going(Next::Skip(0), Next::Leave, Next::Leave),
        inside("b"),
        inside("c"),
        step("d"),
        inside("e"),
    ];
    assert_eq!(programs(Job::new(plan), vec![failed()]).0, ["a", "d", "e"]);
}

#[test]
fn skipping_too_far_ends_the_work() {
    let plan = vec![step("a").going(Next::Skip(9), Next::Abort, Next::Abort), step("b")];
    let (done, job) = programs(Job::new(plan), vec![]);
    assert_eq!(done, ["a"]);
    assert_eq!(job.failure, None);
}

#[test]
fn the_first_failure_is_the_one_that_is_told() {
    let first = step("a").going(Next::Skip(0), Next::Unwind, Next::Unwind);
    let job = Job::with_undo(vec![first, step("b")], vec![step("u"), step("v")]);
    let (done, job) = programs(job, vec![failed(), Reply::Missing("worse".into())]);
    assert_eq!(done, ["a", "u"]);
    assert_eq!(job.failure.unwrap().context, "a");
}

#[test]
fn a_replacement_is_used_once() {
    let job = Job { instead: Some(vec![step("x"), step("y")]), ..Job::new(vec![step("a"), step("b")]) };
    let (done, job) = programs(job, vec![failed(), failed()]);
    assert_eq!(done, ["a", "x"]);
    assert_eq!(job.failure.unwrap().context, "x");
}

#[test]
fn a_refusal_needs_no_host() {
    let job = Job::new(vec![bare(refuse(Refusal::NoInterface)), step("b")]);
    let (done, job) = programs(job, vec![Reply::Done]);
    assert_eq!(done.len(), 1);
    assert_eq!(job.failure.unwrap().cause, Cause::Refused(Refusal::NoInterface));
}

#[test]
fn an_answer_that_does_not_fit_is_refused() {
    let job = Job::new(vec![step("a").follow_with(Follow::XdpFree { iface: "eth0".into() })]);
    let (_, job) = programs(job, vec![Reply::Started(None)]);
    assert_eq!(job.failure.unwrap().cause, Cause::Refused(Refusal::Unexpected));
    let (_, job) = programs(
        Job::new(vec![attempt(run("a", start())).follow_with(Follow::ServerPid)]),
        vec![Reply::Done],
    );
    assert_eq!(job.failure, None);
}

#[test]
fn replies_behind_the_end_change_nothing() {
    let mut job = Job::new(Vec::new());
    job.resume(failed());
    assert_eq!(job, Job::new(Vec::new()));
}
