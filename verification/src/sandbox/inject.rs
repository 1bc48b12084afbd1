//! Handing tasks to the workloads of a restored guest.

use crate::sandbox::template_pool::{target_views, TargetView};
use crate::string_map::StringMap;
use crate::text::{concat3, decimal, join, joined, opt_text, same, same_set, texts, u64_to_string};
use crate::vm::{WarmForkParams, WarmForkTarget};
use vstd::prelude::*;

verus! {

/// The task of one container, as the agent is told.
pub struct ContainerTask {
    pub container_id: String,
    pub socket_path: String,
    /// Empty where the workload starts by itself.
    pub task_id: String,
    pub env_overrides: StringMap,
    pub context: String,
}

/// What the agent is asked.
pub struct InjectTaskRequest {
    pub tasks: Vec<ContainerTask>,
    pub prepare_timeout_ms: u32,
    pub commit_timeout_ms: u32,
    /// How long the agent may take in all.
    pub deadline_ms: u64,
}

/// Whether a container task says what the target says.
pub open spec fn tells(task: ContainerTask, t: TargetView, task_id: Option<Seq<char>>) -> bool {
    &&& task.container_id@ == t.container_id
    &&& task.socket_path@ == t.socket_path
    &&& task.env_overrides@ == t.env
    &&& task.context@ == t.context
    &&& task.task_id@ == (match task_id {
        Some(id) => id,
        None => Seq::empty(),
    })
}

/// How long the agent may take: without a task there is nothing to prepare.
pub open spec fn inject_deadline(params: WarmForkParams) -> int {
    (if params.task_id is Some {
        params.prepare_timeout_ms as int
    } else {
        0
    }) + params.commit_timeout_ms + 3_000
}

/// What the agent is asked for the tasks of a restored guest.
pub fn inject_request(params: &WarmForkParams) -> (r: InjectTaskRequest)
    ensures
        r.tasks@.len() == params.targets@.len(),
        forall|i: int|
            0 <= i < r.tasks@.len() ==> tells(
                #[trigger] r.tasks@[i],
                target_views(params.targets@)[i],
                opt_text(params.task_id),
            ),
        r.prepare_timeout_ms == params.prepare_timeout_ms,
        r.commit_timeout_ms == params.commit_timeout_ms,
        r.deadline_ms == inject_deadline(*params),
{
    let task_id = match &params.task_id {
        Some(id) => id.clone(),
        None => String::new(),
    };
    let mut tasks: Vec<ContainerTask> = Vec::new();
    let mut i: usize = 0;
    while i < params.targets.len()
        invariant
            i <= params.targets@.len(),
            tasks@.len() == i,
            task_id@ == (match opt_text(params.task_id) {
                Some(id) => id,
                None => Seq::empty(),
            }),
            forall|k: int|
                0 <= k < i ==> tells(
                    #[trigger] tasks@[k],
                    target_views(params.targets@)[k],
                    opt_text(params.task_id),
                ),
        decreases params.targets.len() - i,
    {
        let t: &WarmForkTarget = &params.targets[i];
        tasks.push(
            ContainerTask {
                container_id: t.container_id.clone(),
                socket_path: t.socket_path.clone(),
                task_id: task_id.clone(),
                env_overrides: t.env_overrides.copy(),
                context: t.context.clone(),
            },
        );
        i = i + 1;
    }
    let prepare: u64 = if params.task_id.is_some() {
        params.prepare_timeout_ms as u64
    } else {
        0
    };
    InjectTaskRequest {
        tasks,
        prepare_timeout_ms: params.prepare_timeout_ms,
        commit_timeout_ms: params.commit_timeout_ms,
        deadline_ms: prepare + params.commit_timeout_ms as u64 + 3_000,
    }
}

/// The status of a container whose workload started.
pub const INJECT_STARTED: &'static str = "INJECT_STARTED";

/// The status of a container whose workload is ready for a task.
pub const TARGET_CHECK_OK: &'static str = "TARGET_CHECK_OK";

/// What the agent answered for one container that was given a task.
pub struct TargetResult {
    pub container_id: String,
    /// The name of the status.
    pub status: String,
    /// The name of the phase that was reached.
    pub phase: String,
    pub message: String,
}

/// What the agent answered for one container whose socket it looked at.
pub struct CheckResult {
    pub container_id: String,
    /// The name of the status.
    pub status: String,
    pub message: String,
}

/// How the agent replied.
pub enum AgentReply<T> {
    /// The host is not connected to the agent.
    NoClient,
    /// The call failed, with what is said of it.
    CallFailed(String),
    Answers(Vec<T>),
}

/// How long the agent may take to look at the sockets of the workloads.
pub const CHECK_TIMEOUT_MS: u64 = 5_000;

/// The containers of a list of answers.
pub open spec fn result_ids(results: Seq<TargetResult>) -> Seq<Seq<char>> {
    Seq::new(results.len(), |i: int| results[i].container_id@)
}

/// The containers of a list of tasks.
pub open spec fn asked_ids(tasks: Seq<ContainerTask>) -> Seq<Seq<char>> {
    Seq::new(tasks.len(), |i: int| tasks[i].container_id@)
}

/// Whether the workload of a container started.
pub open spec fn started(r: TargetResult) -> bool {
    r.status@ == INJECT_STARTED@
}

/// Whether the workload of a container is ready for a task.
pub open spec fn ready(r: CheckResult) -> bool {
    r.status@ == TARGET_CHECK_OK@
}

/// What is said of a container whose workload did not start.
pub open spec fn start_failure(r: TargetResult) -> Seq<char> {
    "container '"@ + r.container_id@ + "': "@ + r.status@ + "/"@ + r.phase@ + " — "@ + r.message@
}

/// What is said of a container whose workload is not ready.
pub open spec fn check_failure(r: CheckResult) -> Seq<char> {
    "container '"@ + r.container_id@ + "': "@ + r.status@ + " — "@ + r.message@
}

/// What is said of the containers whose workloads did not start, in order.
pub open spec fn start_failures(results: Seq<TargetResult>) -> Seq<Seq<char>>
    decreases results.len(),
{
    if results.len() == 0 {
        Seq::empty()
    } else {
        let before = start_failures(results.drop_last());
        if started(results.last()) {
            before
        } else {
            before.push(start_failure(results.last()))
        }
    }
}

/// What is said of the containers whose workloads are not ready, in order.
pub open spec fn check_failures(results: Seq<CheckResult>) -> Seq<Seq<char>>
    decreases results.len(),
{
    if results.len() == 0 {
        Seq::empty()
    } else {
        let before = check_failures(results.drop_last());
        if ready(results.last()) {
            before
        } else {
            before.push(check_failure(results.last()))
        }
    }
}

/// Why the tasks did not all start, or the workloads are not all ready.
pub enum InjectError {
    /// The host is not connected to the agent.
    NoClient,
    /// The call failed, with what is said of it.
    CallFailed(String),
    /// The agent answered for another number of containers.
    CountMismatch { sent: usize, got: usize },
    /// The agent answered for other containers.
    ContainerMismatch,
    /// Some workloads did not start or are not ready; what is said of each.
    Failed(Vec<String>),
}

fn say(container_id: &str, status: &str, phase: Option<&str>, message: &str) -> (r: String)
    ensures
        r@ == "container '"@ + container_id@ + "': "@ + status@ + (match phase {
            Some(p) => "/"@ + p@,
            None => Seq::empty(),
        }) + " — "@ + message@,
{
    let mut text = concat3("container '", container_id, "': ");
    text.append(status);
    let ghost head = text@;
    match phase {
        Some(p) => {
            text.append("/");
            text.append(p);
            assert(text@ =~= head + ("/"@ + p@));
        },
        None => {
            assert(text@ =~= head + Seq::<char>::empty());
        },
    }
    text.append(" — ");
    text.append(message);
    text
}

fn collect_start_failures(results: &Vec<TargetResult>) -> (r: Vec<String>)
    ensures
        texts(r@) == start_failures(results@),
{
    let mut out: Vec<String> = Vec::new();
    let mut i: usize = 0;
    assert(results@.take(0) =~= Seq::<TargetResult>::empty());
    assert(texts(out@) =~= start_failures(results@.take(0)));
    while i < results.len()
        invariant
            i <= results@.len(),
            texts(out@) == start_failures(results@.take(i as int)),
        decreases results.len() - i,
    {
        proof {
            assert(results@.take(i + 1).drop_last() =~= results@.take(i as int));
            assert(results@.take(i + 1).last() == results@[i as int]);
        }
        let result = &results[i];
        if !same(result.status.as_str(), INJECT_STARTED) {
            let ghost before = out@;
            let line = say(
                result.container_id.as_str(),
                result.status.as_str(),
                Some(result.phase.as_str()),
                result.message.as_str(),
            );
            assert(line@ =~= start_failure(*result));
            out.push(line);
            assert(texts(out@) =~= texts(before).push(start_failure(*result)));
        }
        i = i + 1;
    }
    assert(results@.take(i as int) =~= results@);
    out
}

fn collect_check_failures(results: &Vec<CheckResult>) -> (r: Vec<String>)
    ensures
        texts(r@) == check_failures(results@),
{
    let mut out: Vec<String> = Vec::new();
    let mut i: usize = 0;
    assert(results@.take(0) =~= Seq::<CheckResult>::empty());
    assert(texts(out@) =~= check_failures(results@.take(0)));
    while i < results.len()
        invariant
            i <= results@.len(),
            texts(out@) == check_failures(results@.take(i as int)),
        decreases results.len() - i,
    {
        proof {
            assert(results@.take(i + 1).drop_last() =~= results@.take(i as int));
            assert(results@.take(i + 1).last() == results@[i as int]);
        }
        let result = &results[i];
        if !same(result.status.as_str(), TARGET_CHECK_OK) {
            let ghost before = out@;
            let line = say(
                result.container_id.as_str(),
                result.status.as_str(),
                None,
                result.message.as_str(),
            );
            assert(line@ =~= check_failure(*result));
            out.push(line);
            assert(texts(out@) =~= texts(before).push(check_failure(*result)));
        }
        i = i + 1;
    }
    assert(results@.take(i as int) =~= results@);
    out
}

fn ids_of_results(results: &Vec<TargetResult>) -> (r: Vec<String>)
    ensures
        texts(r@) == result_ids(results@),
{
    let mut out: Vec<String> = Vec::new();
    let mut i: usize = 0;
    while i < results.len()
        invariant
            i <= results@.len(),
            out@.len() == i,
            forall|k: int| 0 <= k < i ==> (#[trigger] out@[k])@ == results@[k].container_id@,
        decreases results.len() - i,
    {
        out.push(results[i].container_id.clone());
        i = i + 1;
    }
    assert(texts(out@) =~= result_ids(results@));
    out
}

fn ids_of_tasks(tasks: &Vec<ContainerTask>) -> (r: Vec<String>)
    ensures
        texts(r@) == asked_ids(tasks@),
{
    let mut out: Vec<String> = Vec::new();
    let mut i: usize = 0;
    while i < tasks.len()
        invariant
            i <= tasks@.len(),
            out@.len() == i,
            forall|k: int| 0 <= k < i ==> (#[trigger] out@[k])@ == tasks@[k].container_id@,
        decreases tasks.len() - i,
    {
        out.push(tasks[i].container_id.clone());
        i = i + 1;
    }
    assert(texts(out@) =~= asked_ids(tasks@));
    out
}

/// Whether every task started: the agent must answer for each container that was
/// asked, and for each that its workload started.
pub fn check_injected(tasks: &Vec<ContainerTask>, reply: AgentReply<TargetResult>) -> (r: Result<
    (),
    InjectError,
>)
    ensures
        match reply {
            AgentReply::NoClient => r matches Err(InjectError::NoClient),
            AgentReply::CallFailed(said) => r matches Err(InjectError::CallFailed(s)) && s@ == said@,
            AgentReply::Answers(v) => match r {
                Ok(()) => v@.len() == tasks@.len() && result_ids(v@).to_set() == asked_ids(
                    tasks@,
                ).to_set() && start_failures(v@).len() == 0,
                Err(InjectError::NoClient) | Err(InjectError::CallFailed(_)) => false,
                Err(InjectError::CountMismatch { sent, got }) => sent == tasks@.len() && got
                    == v@.len() && sent != got,
                Err(InjectError::ContainerMismatch) => v@.len() == tasks@.len() && result_ids(
                    v@,
                ).to_set() != asked_ids(tasks@).to_set(),
                Err(InjectError::Failed(lines)) => v@.len() == tasks@.len() && result_ids(
                    v@,
                ).to_set() == asked_ids(tasks@).to_set() && start_failures(v@).len() > 0 && texts(
                    lines@,
                ) == start_failures(v@),
            },
        },
{
    let results = match reply {
        AgentReply::Answers(v) => v,
        AgentReply::NoClient => {
            return Err(InjectError::NoClient);
        },
        AgentReply::CallFailed(said) => {
            return Err(InjectError::CallFailed(said));
        },
    };
    if results.len() != tasks.len() {
        return Err(InjectError::CountMismatch { sent: tasks.len(), got: results.len() });
    }
    let asked = ids_of_tasks(tasks);
    let answered = ids_of_results(&results);
    if !same_set(&answered, &asked) {
        return Err(InjectError::ContainerMismatch);
    }
    let failed = collect_start_failures(&results);
    if failed.len() > 0 {
        assert(texts(failed@).len() == failed@.len());
        return Err(InjectError::Failed(failed));
    }
    assert(texts(failed@).len() == 0);
    Ok(())
}

/// Whether every workload is ready for a task: no answer says otherwise.
pub fn check_inject_socket(reply: AgentReply<CheckResult>) -> (r: Result<(), InjectError>)
    ensures
        match reply {
            AgentReply::NoClient => r matches Err(InjectError::NoClient),
            AgentReply::CallFailed(said) => r matches Err(InjectError::CallFailed(s)) && s@ == said@,
            AgentReply::Answers(v) => match r {
                Ok(()) => check_failures(v@).len() == 0,
                Err(InjectError::Failed(lines)) => check_failures(v@).len() > 0 && texts(lines@)
                    == check_failures(v@),
                Err(_) => false,
            },
        },
{
    let results = match reply {
        AgentReply::Answers(v) => v,
        AgentReply::NoClient => {
            return Err(InjectError::NoClient);
        },
        AgentReply::CallFailed(said) => {
            return Err(InjectError::CallFailed(said));
        },
    };
    let failed = collect_check_failures(&results);
    assert(texts(failed@).len() == failed@.len());
    if failed.len() > 0 {
        Err(InjectError::Failed(failed))
    } else {
        Ok(())
    }
}

/// What is said where the workloads of a sandbox did not all start.
pub fn start_failure_message(sandbox_id: &str, failures: &Vec<String>) -> (r: String)
    ensures
        r@ == "sandbox "@ + sandbox_id@ + ": WarmFork inject_task failed for "@ + decimal(
            failures@.len(),
        ) + " target(s): "@ + joined(texts(failures@), "; "@),
{
    let count = u64_to_string(failures.len() as u64);
    let all = join(failures, "; ");
    let mut text = concat3("sandbox ", sandbox_id, ": WarmFork inject_task failed for ");
    text.append(count.as_str());
    text.append(" target(s): ");
    text.append(all.as_str());
    text
}

/// What is said where the workloads of a sandbox are not all ready.
pub fn check_failure_message(sandbox_id: &str, failures: &Vec<String>) -> (r: String)
    ensures
        r@ == "sandbox "@ + sandbox_id@ + ": readiness socket check failed: "@ + joined(
            texts(failures@),
            "; "@,
        ),
{
    let all = join(failures, "; ");
    let mut text = concat3("sandbox ", sandbox_id, ": readiness socket check failed: ");
    text.append(all.as_str());
    text
}

/// Nothing is said exactly where every workload started.
pub proof fn lemma_no_failure_means_all_started(results: Seq<TargetResult>)
    ensures
        start_failures(results).len() == 0 <==> forall|i: int|
            0 <= i < results.len() ==> started(#[trigger] results[i]),
    decreases results.len(),
{
    if results.len() > 0 {
        let init = results.drop_last();
        lemma_no_failure_means_all_started(init);
        assert(forall|i: int| 0 <= i < init.len() ==> init[i] == results[i]);
        assert(results[results.len() - 1] == results.last());
        if start_failures(results).len() == 0 {
            assert forall|i: int| 0 <= i < results.len() implies started(#[trigger] results[i]) by {
                if i < init.len() {
                    assert(started(init[i]));
                }
            }
        }
        if forall|i: int| 0 <= i < results.len() ==> started(#[trigger] results[i]) {
            assert forall|i: int| 0 <= i < init.len() implies started(#[trigger] init[i]) by {
                assert(started(results[i]));
            }
        }
    }
}

/// Each workload that did not start is told of with its own container, status, phase and
/// message, in its place among the others; of one that started nothing is said.
pub proof fn lemma_every_failed_start_is_told(results: Seq<TargetResult>, i: int)
    requires
        0 <= i < results.len(),
    ensures
        start_failures(results) == start_failures(results.take(i)) + (if results[i].status@
            != "INJECT_STARTED"@ {
            seq!["container '"@ + results[i].container_id@ + "': "@ + results[i].status@ + "/"@
                + results[i].phase@ + " — "@ + results[i].message@]
        } else {
            Seq::empty()
        }) + start_failures(results.skip(i + 1)),
        start_failures(Seq::empty()).len() == 0,
    decreases results.len(),
{
    let init = results.drop_last();
    let own = if results[i].status@ != "INJECT_STARTED"@ {
        seq!["container '"@ + results[i].container_id@ + "': "@ + results[i].status@ + "/"@
                + results[i].phase@ + " — "@ + results[i].message@]
    } else {
        Seq::empty()
    };
    if i == results.len() - 1 {
        assert(results.take(i) =~= init);
        assert(results.skip(i + 1) =~= Seq::<TargetResult>::empty());
    } else {
        lemma_every_failed_start_is_told(init, i);
        assert(init.take(i) =~= results.take(i));
        assert(results.skip(i + 1).drop_last() =~= init.skip(i + 1));
        assert(results.skip(i + 1).last() == results.last());
    }
    assert(start_failures(results) =~= start_failures(results.take(i)) + own + start_failures(
        results.skip(i + 1),
    ));
}

/// Each workload that is not ready is told of with its own container, status and message,
/// in its place among the others; of one that is ready nothing is said.
pub proof fn lemma_every_failed_check_is_told(results: Seq<CheckResult>, i: int)
    requires
        0 <= i < results.len(),
    ensures
        check_failures(results) == check_failures(results.take(i)) + (if results[i].status@
            != "TARGET_CHECK_OK"@ {
            seq!["container '"@ + results[i].container_id@ + "': "@ + results[i].status@ + " — "@
                + results[i].message@]
        } else {
            Seq::empty()
        }) + check_failures(results.skip(i + 1)),
        check_failures(Seq::empty()).len() == 0,
    decreases results.len(),
{
    let init = results.drop_last();
    let own = if results[i].status@ != "TARGET_CHECK_OK"@ {
        seq!["container '"@ + results[i].container_id@ + "': "@ + results[i].status@ + " — "@
                + results[i].message@]
    } else {
        Seq::empty()
    };
    if i == results.len() - 1 {
        assert(results.take(i) =~= init);
        assert(results.skip(i + 1) =~= Seq::<CheckResult>::empty());
    } else {
        lemma_every_failed_check_is_told(init, i);
        assert(init.take(i) =~= results.take(i));
        assert(results.skip(i + 1).drop_last() =~= init.skip(i + 1));
        assert(results.skip(i + 1).last() == results.last());
    }
    assert(check_failures(results) =~= check_failures(results.take(i)) + own + check_failures(
        results.skip(i + 1),
    ));
}

/// The agent has time for all it is asked: to commit, and where there is a task to prepare
/// it before; and the time that it has beyond that is the same for all.
pub proof fn lemma_agent_has_time(a: WarmForkParams, b: WarmForkParams)
    ensures
        inject_deadline(a) > a.commit_timeout_ms,
        a.task_id is Some ==> inject_deadline(a) > a.prepare_timeout_ms + a.commit_timeout_ms,
        a.task_id is Some && b.task_id is None ==> inject_deadline(a) - inject_deadline(b)
            == a.prepare_timeout_ms + a.commit_timeout_ms - b.commit_timeout_ms,
        a.task_id is None && b.task_id is None ==> inject_deadline(a) - inject_deadline(b)
            == a.commit_timeout_ms - b.commit_timeout_ms,
        a.task_id is None && a.commit_timeout_ms == 0 ==> inject_deadline(a) == 3_000,
{
}

/// Where the agent answered for the containers that were asked, each of them has an answer.
pub proof fn lemma_every_container_is_answered_for(
    tasks: Seq<ContainerTask>,
    results: Seq<TargetResult>,
    i: int,
)
    requires
        result_ids(results).to_set() == asked_ids(tasks).to_set(),
        0 <= i < tasks.len(),
    ensures
        exists|k: int|
            0 <= k < results.len() && (#[trigger] results[k]).container_id@
                == tasks[i].container_id@,
{
    let id = tasks[i].container_id@;
    assert(asked_ids(tasks)[i] == id);
    assert(asked_ids(tasks).to_set().contains(id));
    assert(result_ids(results).contains(id));
    let k = choose|k: int| 0 <= k < result_ids(results).len() && result_ids(results)[k] == id;
    assert(results[k].container_id@ == id);
}

/// Each container is told its own socket, environment and context, and the task of the
/// pod; one without a task is told to start by itself.
pub proof fn lemma_container_is_told_its_task(
    task: ContainerTask,
    t: TargetView,
    task_id: Option<Seq<char>>,
)
    requires
        tells(task, t, task_id),
    ensures
        task.container_id@ == t.container_id && task.socket_path@ == t.socket_path,
        task.env_overrides@ == t.env && task.context@ == t.context,
        task_id is Some ==> task.task_id@ == task_id->0,
        task_id is None ==> task.task_id@.len() == 0,
{
}

/// Nothing is said exactly where every workload is ready.
pub proof fn lemma_no_failure_means_all_ready(results: Seq<CheckResult>)
    ensures
        check_failures(results).len() == 0 <==> forall|i: int|
            0 <= i < results.len() ==> ready(#[trigger] results[i]),
    decreases results.len(),
{
    if results.len() > 0 {
        let init = results.drop_last();
        lemma_no_failure_means_all_ready(init);
        assert(forall|i: int| 0 <= i < init.len() ==> init[i] == results[i]);
        assert(results[results.len() - 1] == results.last());
        if check_failures(results).len() == 0 {
            assert forall|i: int| 0 <= i < results.len() implies ready(#[trigger] results[i]) by {
                if i < init.len() {
                    assert(ready(init[i]));
                }
            }
        }
        if forall|i: int| 0 <= i < results.len() ==> ready(#[trigger] results[i]) {
            assert forall|i: int| 0 <= i < init.len() implies ready(#[trigger] init[i]) by {
                assert(ready(results[i]));
            }
        }
    }
}

} // verus!
