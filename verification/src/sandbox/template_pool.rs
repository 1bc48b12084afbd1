//! Starting sandboxes from templates.

use crate::order::{comes_before, lemma_comes_before};
use crate::sandbox::config::{SnapshotConfig, TemplateLeaseMode};
use crate::sandbox::data::lookup;
use crate::string_map::{under_prefix, StringMap};
use crate::template::{PooledTemplate, ReadyTarget, SnapshotType};
use crate::text::{
    concat3, contains_text, join_path, lemma_split_at_separator, lemma_unsplit, opt_text, path_join,
    pieces, same, same_set, split_on, texts, trim, trimmed,
};
use crate::vm::{
    WarmForkParams, WarmForkTarget, ANNOTATION_WARM_FORK_CONTAINERS,
    ANNOTATION_WARM_FORK_DEFAULT_READINESS_SOCKET, ANNOTATION_WARM_FORK_ENV_PREFIX,
    ANNOTATION_WARM_FORK_READINESS_SOCKET, ANNOTATION_WARM_FORK_TASK_CONTEXT,
    ANNOTATION_WARM_FORK_TASK_ID,
};
use vstd::prelude::*;

verus! {

// ── Containers that wait for a task ─────────────────────────────────────────

/// Why a list of container names cannot be used.
pub enum NameFault {
    /// A name is empty.
    Empty,
    /// A name comes twice.
    Duplicate(String),
}

/// What a fault is.
pub enum NameFaultView {
    Empty,
    Duplicate(Seq<char>),
}

impl View for NameFault {
    type V = NameFaultView;

    open spec fn view(&self) -> NameFaultView {
        match *self {
            NameFault::Empty => NameFaultView::Empty,
            NameFault::Duplicate(name) => NameFaultView::Duplicate(name@),
        }
    }
}

/// The first name that is empty or was there before.
pub open spec fn first_fault(names: Seq<Seq<char>>) -> Option<NameFaultView>
    decreases names.len(),
{
    if names.len() == 0 {
        None
    } else if first_fault(names.drop_last()) is Some {
        first_fault(names.drop_last())
    } else if names.last().len() == 0 {
        Some(NameFaultView::Empty)
    } else if names.drop_last().contains(names.last()) {
        Some(NameFaultView::Duplicate(names.last()))
    } else {
        None
    }
}

/// The names that stand between commas, without the white space around them.
pub open spec fn listed_names(value: Seq<char>) -> Seq<Seq<char>> {
    Seq::new(pieces(value, ',').len(), |i: int| trimmed(pieces(value, ',')[i]))
}

proof fn lemma_fault_stays(names: Seq<Seq<char>>, k: int)
    requires
        0 <= k <= names.len(),
        first_fault(names.take(k)) is Some,
    ensures
        first_fault(names) == first_fault(names.take(k)),
    decreases names.len() - k,
{
    if k < names.len() {
        assert(names.take(k + 1).drop_last() =~= names.take(k));
        lemma_fault_stays(names, k + 1);
    } else {
        assert(names.take(k) =~= names);
    }
}

/// A list without a fault holds no empty name and no name twice.
pub proof fn lemma_faultless_names(names: Seq<Seq<char>>)
    requires
        first_fault(names) is None,
    ensures
        forall|i: int| 0 <= i < names.len() ==> (#[trigger] names[i]).len() > 0,
        names.no_duplicates(),
    decreases names.len(),
{
    if names.len() > 0 {
        let init = names.drop_last();
        lemma_faultless_names(init);
        assert(forall|i: int| 0 <= i < init.len() ==> init[i] == names[i]);
        assert forall|i: int| 0 <= i < names.len() implies (#[trigger] names[i]).len() > 0 by {
            if i < init.len() {
                assert(init[i].len() > 0);
            }
        }
        assert forall|i: int, j: int| 0 <= i < names.len() && 0 <= j < names.len() && i
            != j implies names[i] != names[j] by {
            if i < init.len() && j < init.len() {
                assert(init[i] != init[j]);
            } else if i < init.len() {
                assert(init.contains(init[i]));
            } else {
                assert(init.contains(init[j]));
            }
        }
    }
}

/// A list has no fault exactly where no name is empty and none comes twice; else the fault
/// is that of the first name that is empty or was there before.
pub proof fn lemma_first_fault(names: Seq<Seq<char>>)
    ensures
        match first_fault(names) {
            None => names.no_duplicates() && forall|i: int|
                0 <= i < names.len() ==> (#[trigger] names[i]).len() > 0,
            Some(fault) => exists|i: int|
                {
                    &&& 0 <= i < names.len()
                    &&& #[trigger] names.take(i).no_duplicates()
                    &&& forall|k: int| 0 <= k < i ==> (#[trigger] names[k]).len() > 0
                    &&& names[i].len() == 0 ==> fault is Empty
                    &&& names[i].len() > 0 ==> names.take(i).contains(names[i]) && fault
                        == NameFaultView::Duplicate(names[i])
                },
        },
    decreases names.len(),
{
    if first_fault(names) is None {
        lemma_faultless_names(names);
    } else {
        let init = names.drop_last();
        if first_fault(init) is Some {
            lemma_first_fault(init);
            let i = choose|i: int|
                {
                    &&& 0 <= i < init.len()
                    &&& #[trigger] init.take(i).no_duplicates()
                    &&& forall|k: int| 0 <= k < i ==> (#[trigger] init[k]).len() > 0
                    &&& init[i].len() == 0 ==> first_fault(init)->0 is Empty
                    &&& init[i].len() > 0 ==> init.take(i).contains(init[i]) && first_fault(init)->0
                        == NameFaultView::Duplicate(init[i])
                };
            assert(init.take(i) =~= names.take(i));
            assert(forall|k: int| 0 <= k < init.len() ==> #[trigger] names[k] == init[k]);
        } else {
            let i: int = names.len() - 1;
            lemma_faultless_names(init);
            assert(names.take(i) =~= init);
            assert(names[i] == names.last());
            assert forall|k: int| 0 <= k < i implies (#[trigger] names[k]).len() > 0 by {
                assert(init[k] == names[k]);
            }
        }
    }
}

/// The names of two lists with a comma between them are those of the one and behind them
/// those of the other; what holds no comma is one name, without the white space around it.
pub proof fn lemma_listed_names(a: Seq<char>, b: Seq<char>)
    ensures
        listed_names(a + seq![','] + b) == listed_names(a) + listed_names(b),
        !a.contains(',') ==> listed_names(a) == seq![trimmed(a)],
{
    lemma_split_at_separator(a, b, ',');
    assert(listed_names(a + seq![','] + b) =~= listed_names(a) + listed_names(b));
    if !a.contains(',') {
        lemma_unsplit(a, ',');
        assert(listed_names(a) =~= seq![trimmed(a)]);
    }
}

/// The containers that wait for a task, where the pod lists them. The list must
/// hold no empty name and no name twice.
pub fn parse_warm_fork_container_names(annotations: &StringMap) -> (r: Result<
    Option<Vec<String>>,
    NameFault,
>)
    ensures
        match (r, lookup(annotations@, ANNOTATION_WARM_FORK_CONTAINERS@)) {
            (Ok(None), None) => true,
            (Ok(Some(names)), Some(value)) => first_fault(listed_names(value)) is None && texts(
                names@,
            ) == listed_names(value),
            (Err(fault), Some(value)) => first_fault(listed_names(value)) == Some(fault@),
            _ => false,
        },
{
    let value = match annotations.get(ANNOTATION_WARM_FORK_CONTAINERS) {
        Some(value) => value,
        None => {
            return Ok(None);
        },
    };
    let parts = split_on(value.as_str(), ',');
    let ghost all = listed_names(value@);
    let mut names: Vec<String> = Vec::new();
    let mut i: usize = 0;
    assert(texts(names@) =~= all.take(0));
    while i < parts.len()
        invariant
            i <= parts@.len(),
            texts(parts@) == pieces(value@, ','),
            all == listed_names(value@),
            all.len() == parts@.len(),
            texts(names@) == all.take(i as int),
            first_fault(all.take(i as int)) is None,
            lookup(annotations@, ANNOTATION_WARM_FORK_CONTAINERS@) == Some(value@),
        decreases parts.len() - i,
    {
        let name = trim(parts[i].as_str());
        proof {
            assert(texts(parts@)[i as int] == parts@[i as int]@);
            assert(all[i as int] == name@);
            assert(all.take(i + 1).drop_last() =~= all.take(i as int));
            assert(all.take(i + 1).last() == name@);
        }
        if name.as_str().is_empty() {
            proof {
                lemma_fault_stays(all, i + 1);
            }
            return Err(NameFault::Empty);
        }
        if contains_text(&names, name.as_str()) {
            proof {
                lemma_fault_stays(all, i + 1);
            }
            return Err(NameFault::Duplicate(name));
        }
        let ghost before = names@;
        names.push(name);
        assert(texts(names@) =~= all.take(i + 1));
        i = i + 1;
    }
    assert(all.take(i as int) =~= all);
    Ok(Some(names))
}

// ── Tasks ───────────────────────────────────────────────────────────────────

/// What a task for a container is.
pub struct TargetView {
    pub container_name: Seq<char>,
    pub container_id: Seq<char>,
    pub socket_path: Seq<char>,
    pub env: Map<Seq<char>, Seq<char>>,
    pub context: Seq<char>,
}

/// What a task for a container is.
pub open spec fn target_view(t: WarmForkTarget) -> TargetView {
    TargetView {
        container_name: t.container_name@,
        container_id: t.container_id@,
        socket_path: t.socket_path@,
        env: t.env_overrides@,
        context: t.context@,
    }
}

/// What a list of tasks is.
pub open spec fn target_views(v: Seq<WarmForkTarget>) -> Seq<TargetView> {
    Seq::new(v.len(), |i: int| target_view(v[i]))
}

/// The value of a key, or a default.
pub open spec fn lookup_or(
    notes: Map<Seq<char>, Seq<char>>,
    key: Seq<char>,
    default: Seq<char>,
) -> Seq<char> {
    match lookup(notes, key) {
        Some(v) => v,
        None => default,
    }
}

/// The task id of a pod: an empty one counts as none, and the workload then
/// starts by itself.
pub open spec fn task_id_of(notes: Map<Seq<char>, Seq<char>>) -> Option<Seq<char>> {
    match lookup(notes, ANNOTATION_WARM_FORK_TASK_ID@) {
        Some(id) => if id.len() > 0 {
            Some(id)
        } else {
            None
        },
        None => None,
    }
}

/// The annotation of one container.
pub open spec fn container_note(name: Seq<char>, what: Seq<char>) -> Seq<char> {
    "kuasar.io/container/"@ + name + what
}

/// The task for the pod as a whole.
pub open spec fn pod_target(notes: Map<Seq<char>, Seq<char>>) -> TargetView {
    TargetView {
        container_name: Seq::empty(),
        container_id: Seq::empty(),
        socket_path: lookup_or(
            notes,
            ANNOTATION_WARM_FORK_READINESS_SOCKET@,
            ANNOTATION_WARM_FORK_DEFAULT_READINESS_SOCKET@,
        ),
        env: under_prefix(notes, ANNOTATION_WARM_FORK_ENV_PREFIX@),
        context: lookup_or(notes, ANNOTATION_WARM_FORK_TASK_CONTEXT@, Seq::empty()),
    }
}

/// The task for one container: what its own annotations say goes before what
/// those of the pod say.
pub open spec fn container_target(notes: Map<Seq<char>, Seq<char>>, name: Seq<char>) -> TargetView {
    let pod = pod_target(notes);
    TargetView {
        container_name: name,
        container_id: Seq::empty(),
        socket_path: lookup_or(
            notes,
            container_note(name, "/warm-fork-readiness-socket"@),
            pod.socket_path,
        ),
        env: pod.env.union_prefer_right(
            under_prefix(notes, container_note(name, "/task-env/"@)),
        ),
        context: lookup_or(notes, container_note(name, "/task-context"@), pod.context),
    }
}

/// The tasks that the annotations of a pod describe: one for each container that
/// it lists, or one for the pod.
pub open spec fn targets_of(notes: Map<Seq<char>, Seq<char>>) -> Seq<TargetView> {
    match lookup(notes, ANNOTATION_WARM_FORK_CONTAINERS@) {
        Some(value) => Seq::new(
            listed_names(value).len(),
            |i: int| container_target(notes, listed_names(value)[i]),
        ),
        None => seq![pod_target(notes)],
    }
}

/// The fault in the list of containers, where there is a list with one.
pub open spec fn names_fault(notes: Map<Seq<char>, Seq<char>>) -> Option<NameFaultView> {
    match lookup(notes, ANNOTATION_WARM_FORK_CONTAINERS@) {
        Some(value) => first_fault(listed_names(value)),
        None => None,
    }
}

fn get_or(annotations: &StringMap, key: &str, default: &str) -> (r: String)
    ensures
        r@ == lookup_or(annotations@, key@, default@),
{
    match annotations.get(key) {
        Some(v) => v.clone(),
        None => default.to_owned(),
    }
}

fn build_target(
    annotations: &StringMap,
    name: String,
    pod_socket: &str,
    pod_context: &str,
    pod_env: &StringMap,
) -> (r: WarmForkTarget)
    requires
        pod_socket@ == pod_target(annotations@).socket_path,
        pod_context@ == pod_target(annotations@).context,
        pod_env@ == pod_target(annotations@).env,
    ensures
        target_view(r) == container_target(annotations@, name@),
{
    let socket_key = concat3(
        "kuasar.io/container/",
        name.as_str(),
        "/warm-fork-readiness-socket",
    );
    let socket_path = get_or(annotations, socket_key.as_str(), pod_socket);
    let context_key = concat3("kuasar.io/container/", name.as_str(), "/task-context");
    let context = get_or(annotations, context_key.as_str(), pod_context);
    let env_prefix = concat3("kuasar.io/container/", name.as_str(), "/task-env/");
    let own = annotations.strip_keys(env_prefix.as_str());
    let mut env_overrides = pod_env.copy();
    env_overrides.extend(&own);
    WarmForkTarget {
        container_name: name,
        container_id: String::new(),
        socket_path,
        env_overrides,
        context,
    }
}

/// How long a workload may take to prepare its task, in milliseconds.
pub const PREPARE_TIMEOUT_MS: u32 = 10_000;

/// How long a workload may take to start its task, in milliseconds.
pub const COMMIT_TIMEOUT_MS: u32 = 5_000;

/// The tasks that the annotations of a pod describe. The ids of the containers
/// are known only from the template.
pub fn parse_warm_fork_params(annotations: &StringMap) -> (r: Result<WarmForkParams, NameFault>)
    ensures
        match r {
            Ok(params) => names_fault(annotations@) is None && opt_text(params.task_id)
                == task_id_of(annotations@) && target_views(params.targets@) == targets_of(
                annotations@,
            ) && params.prepare_timeout_ms == PREPARE_TIMEOUT_MS && params.commit_timeout_ms
                == COMMIT_TIMEOUT_MS,
            Err(fault) => names_fault(annotations@) == Some(fault@),
        },
{
    let task_id = match annotations.get(ANNOTATION_WARM_FORK_TASK_ID) {
        Some(id) => if id.as_str().is_empty() {
            None
        } else {
            Some(id.clone())
        },
        None => None,
    };
    let pod_socket = get_or(
        annotations,
        ANNOTATION_WARM_FORK_READINESS_SOCKET,
        ANNOTATION_WARM_FORK_DEFAULT_READINESS_SOCKET,
    );
    proof {
        reveal_strlit("");
        assert(""@ =~= Seq::<char>::empty());
    }
    let pod_context = get_or(annotations, ANNOTATION_WARM_FORK_TASK_CONTEXT, "");
    let pod_env = annotations.strip_keys(ANNOTATION_WARM_FORK_ENV_PREFIX);
    let ghost notes = annotations@;
    let mut targets: Vec<WarmForkTarget> = Vec::new();
    match parse_warm_fork_container_names(annotations) {
        Err(fault) => {
            return Err(fault);
        },
        Ok(Some(names)) => {
            let mut i: usize = 0;
            while i < names.len()
                invariant
                    i <= names@.len(),
                    notes == annotations@,
                    pod_socket@ == pod_target(notes).socket_path,
                    pod_context@ == pod_target(notes).context,
                    pod_env@ == pod_target(notes).env,
                    targets@.len() == i,
                    forall|k: int|
                        0 <= k < i ==> target_view(#[trigger] targets@[k]) == container_target(
                            notes,
                            names@[k]@,
                        ),
                decreases names.len() - i,
            {
                let target = build_target(
                    annotations,
                    names[i].clone(),
                    pod_socket.as_str(),
                    pod_context.as_str(),
                    &pod_env,
                );
                targets.push(target);
                i = i + 1;
            }
            proof {
                let value = lookup(notes, ANNOTATION_WARM_FORK_CONTAINERS@)->0;
                let listed = listed_names(value);
                assert(texts(names@) == listed);
                assert forall|k: int| 0 <= k < listed.len() implies target_views(targets@)[k]
                    == container_target(notes, listed[k]) by {
                    assert(texts(names@)[k] == names@[k]@);
                    assert(target_view(targets@[k]) == container_target(notes, names@[k]@));
                }
                assert(target_views(targets@) =~= targets_of(notes));
            }
        },
        Ok(None) => {
            targets.push(
                WarmForkTarget {
                    container_name: String::new(),
                    container_id: String::new(),
                    socket_path: pod_socket,
                    env_overrides: pod_env,
                    context: pod_context,
                },
            );
            assert(target_views(targets@) =~= targets_of(notes));
        },
    }
    Ok(
        WarmForkParams {
            task_id,
            targets,
            prepare_timeout_ms: PREPARE_TIMEOUT_MS,
            commit_timeout_ms: COMMIT_TIMEOUT_MS,
        },
    )
}

/// Each container that a pod lists gets a task of its own, in the order of the list, with
/// its own socket, context and environment where its annotations set them, and those of
/// the pod where they do not. A pod that lists none gets one task, which names none.
pub proof fn lemma_every_listed_container_gets_a_task(
    notes: Map<Seq<char>, Seq<char>>,
    k: int,
    var: Seq<char>,
)
    requires
        notes.contains_key(ANNOTATION_WARM_FORK_CONTAINERS@) ==> 0 <= k < listed_names(
            notes[ANNOTATION_WARM_FORK_CONTAINERS@],
        ).len(),
    ensures
        ({
            let tasks = targets_of(notes);
            let names = listed_names(notes[ANNOTATION_WARM_FORK_CONTAINERS@]);
            let pod_socket = if notes.contains_key(ANNOTATION_WARM_FORK_READINESS_SOCKET@) {
                notes[ANNOTATION_WARM_FORK_READINESS_SOCKET@]
            } else {
                ANNOTATION_WARM_FORK_DEFAULT_READINESS_SOCKET@
            };
            let pod_context = if notes.contains_key(ANNOTATION_WARM_FORK_TASK_CONTEXT@) {
                notes[ANNOTATION_WARM_FORK_TASK_CONTEXT@]
            } else {
                Seq::empty()
            };
            let pod_var = ANNOTATION_WARM_FORK_ENV_PREFIX@ + var;
            if notes.contains_key(ANNOTATION_WARM_FORK_CONTAINERS@) {
                let own = "kuasar.io/container/"@ + names[k];
                let socket = own + "/warm-fork-readiness-socket"@;
                let context = own + "/task-context"@;
                let own_var = own + "/task-env/"@ + var;
                &&& tasks.len() == names.len()
                &&& tasks[k].container_name == names[k]
                &&& tasks[k].socket_path == (if notes.contains_key(socket) {
                    notes[socket]
                } else {
                    pod_socket
                })
                &&& tasks[k].context == (if notes.contains_key(context) {
                    notes[context]
                } else {
                    pod_context
                })
                &&& tasks[k].env.contains_key(var) <==> notes.contains_key(own_var)
                    || notes.contains_key(pod_var)
                &&& notes.contains_key(own_var) ==> tasks[k].env[var] == notes[own_var]
                &&& !notes.contains_key(own_var) && notes.contains_key(pod_var)
                    ==> tasks[k].env[var] == notes[pod_var]
            } else {
                &&& tasks.len() == 1
                &&& tasks[0].container_name.len() == 0
                &&& tasks[0].socket_path == pod_socket
                &&& tasks[0].context == pod_context
                &&& tasks[0].env.contains_key(var) <==> notes.contains_key(pod_var)
                &&& notes.contains_key(pod_var) ==> tasks[0].env[var] == notes[pod_var]
            }
        }),
{
}

/// A pod has a task exactly where it gives an id that is not empty.
pub proof fn lemma_empty_task_id_is_none(notes: Map<Seq<char>, Seq<char>>)
    ensures
        task_id_of(notes) is Some <==> notes.contains_key(ANNOTATION_WARM_FORK_TASK_ID@)
            && notes[ANNOTATION_WARM_FORK_TASK_ID@].len() > 0,
        task_id_of(notes) is Some ==> task_id_of(notes)->0 == notes[ANNOTATION_WARM_FORK_TASK_ID@],
{
}

/// What a container's own annotations do not set comes from the pod, and what
/// they set goes before it.
pub proof fn lemma_container_goes_before_pod(
    notes: Map<Seq<char>, Seq<char>>,
    name: Seq<char>,
    var: Seq<char>,
)
    ensures
        ({
            let own = under_prefix(notes, container_note(name, "/task-env/"@));
            let pod = pod_target(notes).env;
            lookup(container_target(notes, name).env, var) == (if own.contains_key(var) {
                Some(own[var])
            } else {
                lookup(pod, var)
            })
        }),
{
}

// ── Templates ───────────────────────────────────────────────────────────────

/// Why a sandbox was not started from a template.
pub enum TemplateFailure {
    /// There are no templates.
    NoPool,
    /// There is no store of continuations.
    NoStore,
    /// No template has the key.
    PoolMiss,
    /// The template is not there, or not for this use.
    NotAvailable,
    /// No continuation of the workload is kept.
    StoreMiss,
    /// The template is of another type.
    WrongType,
    /// The template has another key.
    KeyMismatch,
    /// Templates of this type are not enabled.
    TypeDisabled,
    /// The template does not say how its workload waits.
    NoProtocol,
    /// The files of the template are gone.
    FilesMissing,
    /// The annotations of the pod are wrong.
    BadNames(NameFault),
    /// The pod lists other containers than the template.
    ContainerSetMismatch,
    /// Restoring failed.
    RestoreFailed,
}

/// What becomes of a lease.
#[derive(Clone, Copy, Debug, PartialEq, Eq, Structural)]
pub enum LeaseEnd {
    /// No lease was taken.
    Untaken,
    /// The template was used as the lease mode says.
    Complete,
    /// The template goes back.
    Fail,
}

/// What is counted.
#[derive(Clone, Copy, Debug, PartialEq, Eq, Structural)]
pub enum Tally {
    Nothing,
    Miss,
    /// A template was used, whatever it captures.
    Hit,
    /// A booted guest without workload was used.
    EnvironmentHit,
    /// A guest whose workload waits for a task was used.
    WarmForkHit,
}

/// How an attempt at a template is closed.
#[derive(Clone, Copy, Debug, PartialEq, Eq, Structural)]
pub struct Settlement {
    pub lease: LeaseEnd,
    pub tally: Tally,
    /// Whether the sandbox must forget the template.
    pub clear_restore_state: bool,
}

/// Which way a template was looked for.
#[derive(Clone, Copy, Debug, PartialEq, Eq, Structural)]
pub enum Lookup {
    ByKey,
    ById,
    Workload,
}

/// Whether a failure came before any template was leased.
pub open spec fn before_lease(f: TemplateFailure) -> bool {
    match f {
        TemplateFailure::NoPool
        | TemplateFailure::NoStore
        | TemplateFailure::PoolMiss
        | TemplateFailure::NotAvailable
        | TemplateFailure::StoreMiss
        | TemplateFailure::WrongType => true,
        _ => false,
    }
}

/// Whether a failure counts as a miss of the pool. A template that was asked for
/// by name and is not the one meant does not, and the store of continuations does
/// not count.
pub open spec fn counts_as_miss(way: Lookup, f: TemplateFailure) -> bool {
    !(way is Workload) && match f {
        TemplateFailure::NoPool
        | TemplateFailure::NoStore
        | TemplateFailure::NotAvailable
        | TemplateFailure::StoreMiss
        | TemplateFailure::WrongType
        | TemplateFailure::KeyMismatch => false,
        _ => true,
    }
}

/// How an attempt that failed is closed: what was leased goes back.
pub open spec fn failure_settlement(way: Lookup, f: TemplateFailure) -> Settlement {
    Settlement {
        lease: if before_lease(f) {
            LeaseEnd::Untaken
        } else {
            LeaseEnd::Fail
        },
        tally: if counts_as_miss(way, f) {
            Tally::Miss
        } else {
            Tally::Nothing
        },
        clear_restore_state: way is Workload && f is FilesMissing,
    }
}

/// Whether something is counted as a hit.
pub open spec fn is_hit(t: Tally) -> bool {
    t is Hit || t is EnvironmentHit || t is WarmForkHit
}

/// How an attempt that succeeded is closed. What was used of the pool counts by
/// what it captures.
pub open spec fn success_settlement(way: Lookup, snapshot_type: SnapshotType) -> Settlement {
    Settlement {
        lease: LeaseEnd::Complete,
        tally: match (way, snapshot_type) {
            (Lookup::Workload, _) => Tally::Nothing,
            (_, SnapshotType::Environment) => Tally::EnvironmentHit,
            (_, SnapshotType::WarmFork) => Tally::WarmForkHit,
            (_, SnapshotType::Continuation) => Tally::Nothing,
        },
        clear_restore_state: false,
    }
}

/// How an attempt that failed is closed.
pub fn settle_failure(way: Lookup, failure: &TemplateFailure) -> (r: Settlement)
    ensures
        r == failure_settlement(way, *failure),
{
    let leased: bool = !matches!(
        failure,
        TemplateFailure::NoPool
        | TemplateFailure::NoStore
        | TemplateFailure::PoolMiss
        | TemplateFailure::NotAvailable
        | TemplateFailure::StoreMiss
        | TemplateFailure::WrongType
    );
    let uncounted: bool = matches!(
        failure,
        TemplateFailure::NoPool
        | TemplateFailure::NoStore
        | TemplateFailure::NotAvailable
        | TemplateFailure::StoreMiss
        | TemplateFailure::WrongType
        | TemplateFailure::KeyMismatch
    );
    let workload: bool = matches!(way, Lookup::Workload);
    Settlement {
        lease: if leased {
            LeaseEnd::Fail
        } else {
            LeaseEnd::Untaken
        },
        tally: if !workload && !uncounted {
            Tally::Miss
        } else {
            Tally::Nothing
        },
        clear_restore_state: workload && matches!(failure, TemplateFailure::FilesMissing),
    }
}

/// How an attempt that succeeded is closed. The pool holds no continuations.
pub fn settle_success(way: Lookup, snapshot_type: SnapshotType) -> (r: Settlement)
    requires
        way is Workload || !(snapshot_type is Continuation),
    ensures
        r == success_settlement(way, snapshot_type),
{
    let tally = match way {
        Lookup::Workload => Tally::Nothing,
        Lookup::ByKey | Lookup::ById => match snapshot_type {
            SnapshotType::Environment => Tally::EnvironmentHit,
            SnapshotType::WarmFork => Tally::WarmForkHit,
            SnapshotType::Continuation => Tally::Nothing,
        },
    };
    Settlement { lease: LeaseEnd::Complete, tally, clear_restore_state: false }
}

/// Whether the totals of the pool are logged.
pub open spec fn logs_totals(hits: nat) -> bool {
    hits > 0 && hits % 10 == 0
}

/// Of any ten hits in a row exactly one is logged, and none before the first.
pub proof fn lemma_one_hit_in_ten_is_logged(hits: nat, k: nat)
    requires
        0 < k < 10,
    ensures
        logs_totals(hits) ==> !logs_totals(hits + k) && logs_totals(hits + 10),
        logs_totals(10) && !logs_totals(0),
{
}

/// Whether the totals of the pool are logged: on every tenth hit.
pub fn log_totals(hits: u64) -> (r: bool)
    ensures
        r == logs_totals(hits as nat),
{
    hits > 0 && hits % 10 == 0
}

/// How long a sandbox waits for a template that is being made, in seconds.
pub const REFILL_WAIT_SECS: u64 = 15;

/// What follows from looking for a template.
#[derive(Clone, Copy, Debug, PartialEq, Eq, Structural)]
pub enum AfterLookup {
    /// There is one.
    Use,
    /// One is being made: wait for it.
    Wait,
    /// There is none.
    Miss,
}

/// What follows from looking for a template.
pub open spec fn lookup_leads_to(found: bool, in_flight: nat) -> AfterLookup {
    if found {
        AfterLookup::Use
    } else if in_flight > 0 {
        AfterLookup::Wait
    } else {
        AfterLookup::Miss
    }
}

/// A template that is there is used at once; one is waited for exactly where none is there
/// and one is being made.
pub proof fn lemma_waiting_is_worth_it(found: bool, in_flight: nat)
    ensures
        lookup_leads_to(found, in_flight) is Use <==> found,
        lookup_leads_to(found, in_flight) is Wait <==> !found && in_flight > 0,
        lookup_leads_to(found, in_flight) is Miss <==> !found && in_flight == 0,
{
}

/// What follows from looking for a template: where none is there but one is being
/// made, it is worth waiting for.
pub fn after_lookup(found: bool, in_flight: usize) -> (r: AfterLookup)
    ensures
        r == lookup_leads_to(found, in_flight as nat),
{
    if found {
        AfterLookup::Use
    } else if in_flight > 0 {
        AfterLookup::Wait
    } else {
        AfterLookup::Miss
    }
}

/// How a template of the pool is leased, and whether it may be used. A booted
/// guest is always shared. The pool holds no continuations.
pub fn check_pooled(
    tmpl: &PooledTemplate,
    pool_lease_mode: TemplateLeaseMode,
    config: &SnapshotConfig,
) -> (r: Result<TemplateLeaseMode, TemplateFailure>)
    requires
        !(tmpl.snapshot_type is Continuation),
    ensures
        match r {
            Ok(mode) => mode == (if tmpl.snapshot_type is Environment {
                TemplateLeaseMode::Shared
            } else {
                pool_lease_mode
            }) && (tmpl.snapshot_type is WarmFork ==> config.enable_warmfork_restore),
            Err(f) => f is TypeDisabled && tmpl.snapshot_type is WarmFork
                && !config.enable_warmfork_restore,
        },
{
    match tmpl.snapshot_type {
        SnapshotType::WarmFork => {
            if config.enable_warmfork_restore {
                Ok(pool_lease_mode)
            } else {
                Err(TemplateFailure::TypeDisabled)
            }
        },
        _ => Ok(TemplateLeaseMode::Shared),
    }
}

/// Whether a template that was asked for by its id may be used: it must be a warm
/// fork with the key that was asked for, and warm forks must be enabled.
pub fn check_requested(
    tmpl: &PooledTemplate,
    key: Option<&str>,
    config: &SnapshotConfig,
) -> (r: Result<(), TemplateFailure>)
    ensures
        match r {
            Ok(()) => tmpl.snapshot_type is WarmFork && (key matches Some(k) ==> tmpl.key.key@
                == k@) && config.enable_warmfork_restore,
            Err(f) => if !(tmpl.snapshot_type is WarmFork) {
                f is WrongType
            } else if key matches Some(k) && tmpl.key.key@ != k@ {
                f is KeyMismatch
            } else {
                f is TypeDisabled && !config.enable_warmfork_restore
            },
        },
{
    if !matches!(tmpl.snapshot_type, SnapshotType::WarmFork) {
        return Err(TemplateFailure::WrongType);
    }
    if let Some(k) = key {
        if !same(tmpl.key.key.as_str(), k) {
            return Err(TemplateFailure::KeyMismatch);
        }
    }
    if !config.enable_warmfork_restore {
        return Err(TemplateFailure::TypeDisabled);
    }
    Ok(())
}

/// The names of the containers of a template.
pub open spec fn ready_names(targets: Seq<ReadyTarget>) -> Seq<Seq<char>> {
    Seq::new(targets.len(), |i: int| targets[i].container_name@)
}

/// The names of the containers that get a task.
pub open spec fn task_names(targets: Seq<TargetView>) -> Seq<Seq<char>> {
    Seq::new(targets.len(), |i: int| targets[i].container_name)
}

/// The id of the first container of a template with the given name.
pub open spec fn ready_id(targets: Seq<ReadyTarget>, name: Seq<char>) -> Option<Seq<char>>
    decreases targets.len(),
{
    if targets.len() == 0 {
        None
    } else if targets[0].container_name@ == name {
        Some(targets[0].container_id@)
    } else {
        ready_id(targets.drop_first(), name)
    }
}

/// A task for the container that the template knows under its name.
pub open spec fn resolved(targets: Seq<ReadyTarget>, t: TargetView) -> TargetView {
    TargetView {
        container_id: match ready_id(targets, t.container_name) {
            Some(id) => id,
            None => t.container_id,
        },
        ..t
    }
}

/// The tasks for the containers of a template.
pub open spec fn resolved_targets(ready: Seq<ReadyTarget>, tasks: Seq<TargetView>) -> Seq<TargetView> {
    Seq::new(tasks.len(), |i: int| resolved(ready, tasks[i]))
}

fn find_ready<'a>(targets: &'a Vec<ReadyTarget>, name: &str) -> (r: Option<&'a String>)
    ensures
        match r {
            Some(id) => ready_id(targets@, name@) == Some(id@),
            None => ready_id(targets@, name@) is None,
        },
{
    let mut i: usize = 0;
    assert(targets@.skip(0) =~= targets@);
    while i < targets.len()
        invariant
            i <= targets@.len(),
            ready_id(targets@.skip(i as int), name@) == ready_id(targets@, name@),
        decreases targets.len() - i,
    {
        if same(targets[i].container_name.as_str(), name) {
            return Some(&targets[i].container_id);
        }
        assert(targets@.skip(i as int).drop_first() =~= targets@.skip(i + 1));
        i = i + 1;
    }
    None
}

fn names_of_ready(targets: &Vec<ReadyTarget>) -> (r: Vec<String>)
    ensures
        texts(r@) == ready_names(targets@),
{
    let mut out: Vec<String> = Vec::new();
    let mut i: usize = 0;
    while i < targets.len()
        invariant
            i <= targets@.len(),
            out@.len() == i,
            forall|k: int|
                0 <= k < i ==> (#[trigger] out@[k])@ == targets@[k].container_name@,
        decreases targets.len() - i,
    {
        out.push(targets[i].container_name.clone());
        i = i + 1;
    }
    assert(texts(out@) =~= ready_names(targets@));
    out
}

fn names_of_tasks(targets: &Vec<WarmForkTarget>) -> (r: Vec<String>)
    ensures
        texts(r@) == task_names(target_views(targets@)),
{
    let mut out: Vec<String> = Vec::new();
    let mut i: usize = 0;
    while i < targets.len()
        invariant
            i <= targets@.len(),
            out@.len() == i,
            forall|k: int|
                0 <= k < i ==> (#[trigger] out@[k])@ == targets@[k].container_name@,
        decreases targets.len() - i,
    {
        out.push(targets[i].container_name.clone());
        i = i + 1;
    }
    assert(texts(out@) =~= task_names(target_views(targets@)));
    out
}

/// Gives each task the id of the container that the template knows under its name.
pub fn overlay_container_ids(ready: &Vec<ReadyTarget>, targets: Vec<WarmForkTarget>) -> (r: Vec<
    WarmForkTarget,
>)
    ensures
        target_views(r@) == resolved_targets(ready@, target_views(targets@)),
{
    let ghost all = targets@;
    let mut out: Vec<WarmForkTarget> = Vec::new();
    for t in it: targets
        invariant
            it.seq() == all,
            out@.len() == it.index(),
            forall|k: int|
                0 <= k < out@.len() ==> target_view(#[trigger] out@[k]) == resolved(
                    ready@,
                    target_view(all[k]),
                ),
    {
        let ghost k = it.index() as int;
        assert(t == all[k]);
        let container_id = match find_ready(ready, t.container_name.as_str()) {
            Some(id) => id.clone(),
            None => t.container_id,
        };
        out.push(
            WarmForkTarget {
                container_name: t.container_name,
                container_id,
                socket_path: t.socket_path,
                env_overrides: t.env_overrides,
                context: t.context,
            },
        );
    }
    assert(target_views(out@) =~= resolved_targets(ready@, target_views(all)));
    out
}

/// Whether the containers that a pod lists are those of the template. A template
/// that names none fits every pod.
pub open spec fn containers_fit(ready: Seq<ReadyTarget>, tasks: Seq<TargetView>) -> bool {
    ready.len() == 0 || ready_names(ready).to_set() == task_names(tasks).to_set()
}

/// Whether a sandbox can be restored from a warm fork: the template says how its
/// workload waits, its files are there, and the pod lists the containers of the
/// template.
pub open spec fn fork_usable(
    tmpl: PooledTemplate,
    files_present: bool,
    notes: Map<Seq<char>, Seq<char>>,
) -> bool {
    &&& tmpl.ready_protocol_version is Some
    &&& files_present
    &&& names_fault(notes) is None
    &&& containers_fit(tmpl.warm_fork_targets@, targets_of(notes))
}

/// Whether `params` are the tasks that a pod gives the containers of a template.
pub open spec fn forked(
    params: WarmForkParams,
    tmpl: PooledTemplate,
    notes: Map<Seq<char>, Seq<char>>,
) -> bool {
    &&& opt_text(params.task_id) == task_id_of(notes)
    &&& target_views(params.targets@) == resolved_targets(
        tmpl.warm_fork_targets@,
        targets_of(notes),
    )
    &&& params.prepare_timeout_ms == PREPARE_TIMEOUT_MS
    &&& params.commit_timeout_ms == COMMIT_TIMEOUT_MS
}

/// A fork gets the task of its pod, for each container the one that the pod describes, and
/// ten seconds to prepare it and five to start it.
pub proof fn lemma_fork_gets_the_tasks_of_its_pod(
    params: WarmForkParams,
    tmpl: PooledTemplate,
    notes: Map<Seq<char>, Seq<char>>,
    i: int,
)
    requires
        forked(params, tmpl, notes),
        0 <= i < params.targets@.len(),
    ensures
        ({
            let tasks = targets_of(notes);
            let target = params.targets@[i];
            &&& params.targets@.len() == tasks.len()
            &&& target.container_name@ == tasks[i].container_name
            &&& target.socket_path@ == tasks[i].socket_path
            &&& target.env_overrides@ == tasks[i].env
            &&& target.context@ == tasks[i].context
            &&& params.task_id is Some <==> task_id_of(notes) is Some
            &&& params.task_id is Some ==> params.task_id->0@ == task_id_of(notes)->0
            &&& params.prepare_timeout_ms == 10_000 && params.commit_timeout_ms == 5_000
        }),
{
    let views = target_views(params.targets@);
    assert(views.len() == params.targets@.len());
    assert(views[i] == target_view(params.targets@[i]));
}

/// Whether `f` is why a sandbox cannot be restored from a warm fork.
pub open spec fn fork_failure(
    f: TemplateFailure,
    tmpl: PooledTemplate,
    files_present: bool,
    notes: Map<Seq<char>, Seq<char>>,
) -> bool {
    if tmpl.ready_protocol_version is None {
        f is NoProtocol
    } else if !files_present {
        f is FilesMissing
    } else if names_fault(notes) is Some {
        f matches TemplateFailure::BadNames(fault) && names_fault(notes) == Some(fault@)
    } else {
        f is ContainerSetMismatch && !containers_fit(tmpl.warm_fork_targets@, targets_of(notes))
    }
}

/// The tasks with which a sandbox is restored from a warm fork.
///
/// The template must say how its workload waits, its files must be there, and the
/// pod must list the containers of the template.
pub fn prepare_warm_fork(tmpl: &PooledTemplate, files_present: bool, annotations: &StringMap) -> (r:
    Result<WarmForkParams, TemplateFailure>)
    ensures
        match r {
            Ok(params) => fork_usable(*tmpl, files_present, annotations@) && forked(
                params,
                *tmpl,
                annotations@,
            ),
            Err(f) => fork_failure(f, *tmpl, files_present, annotations@),
        },
{
    if tmpl.ready_protocol_version.is_none() {
        return Err(TemplateFailure::NoProtocol);
    }
    if !files_present {
        return Err(TemplateFailure::FilesMissing);
    }
    let params = match parse_warm_fork_params(annotations) {
        Ok(params) => params,
        Err(fault) => {
            return Err(TemplateFailure::BadNames(fault));
        },
    };
    if tmpl.warm_fork_targets.len() > 0 {
        let known = names_of_ready(&tmpl.warm_fork_targets);
        let asked = names_of_tasks(&params.targets);
        if !same_set(&known, &asked) {
            return Err(TemplateFailure::ContainerSetMismatch);
        }
    }
    let targets = overlay_container_ids(&tmpl.warm_fork_targets, params.targets);
    Ok(
        WarmForkParams {
            task_id: params.task_id,
            targets,
            prepare_timeout_ms: params.prepare_timeout_ms,
            commit_timeout_ms: params.commit_timeout_ms,
        },
    )
}

/// Every task of a restored sandbox goes to a container of the template, unless
/// the template names none.
pub proof fn lemma_tasks_reach_containers(
    ready: Seq<ReadyTarget>,
    tasks: Seq<TargetView>,
    i: int,
)
    requires
        ready.len() > 0,
        containers_fit(ready, tasks),
        0 <= i < tasks.len(),
    ensures
        exists|k: int|
            0 <= k < ready.len() && (#[trigger] ready[k]).container_name@
                == tasks[i].container_name && resolved_targets(ready, tasks)[i].container_id
                == ready[k].container_id@,
{
    let name = tasks[i].container_name;
    assert(task_names(tasks)[i] == name);
    assert(task_names(tasks).contains(name));
    assert(task_names(tasks).to_set().contains(name));
    assert(ready_names(ready).to_set().contains(name));
    assert(ready_names(ready).contains(name));
    let j = choose|j: int| 0 <= j < ready_names(ready).len() && ready_names(ready)[j] == name;
    lemma_ready_id_found(ready, name, j);
}

proof fn lemma_ready_id_found(ready: Seq<ReadyTarget>, name: Seq<char>, j: int)
    requires
        0 <= j < ready.len(),
        ready[j].container_name@ == name,
    ensures
        exists|k: int|
            0 <= k < ready.len() && (#[trigger] ready[k]).container_name@ == name && ready_id(
                ready,
                name,
            ) == Some(ready[k].container_id@),
    decreases j,
{
    if ready[0].container_name@ != name {
        let rest = ready.drop_first();
        assert(rest[j - 1] == ready[j]);
        lemma_ready_id_found(rest, name, j - 1);
        let k = choose|k: int|
            0 <= k < rest.len() && (#[trigger] rest[k]).container_name@ == name && ready_id(
                rest,
                name,
            ) == Some(rest[k].container_id@);
        assert(ready[k + 1] == rest[k]);
    } else {
        assert(ready[0].container_name@ == name);
    }
}

/// Every lease that was taken is closed: completed where the restore succeeded,
/// and failed where it did not. Only a success is a hit, and never is one attempt
/// both a hit and a miss.
pub proof fn lemma_leases_are_closed(way: Lookup, t: SnapshotType, f: TemplateFailure)
    requires
        way is Workload || !(t is Continuation),
    ensures
        success_settlement(way, t).lease is Complete,
        failure_settlement(way, f).lease is Fail <==> !before_lease(f),
        !(failure_settlement(way, f).lease is Complete),
        !is_hit(failure_settlement(way, f).tally),
        is_hit(success_settlement(way, t).tally) <==> !(way is Workload),
        !(success_settlement(way, t).tally is Miss),
        f is RestoreFailed && !(way is Workload) ==> failure_settlement(way, f).tally is Miss,
{
}

/// A template that was leased goes back whatever was wrong with it; nothing was leased
/// where none was found or the one found is of another kind. A template that was asked for
/// and is not the one meant is no miss, and a workload is never counted. The sandbox
/// forgets a template exactly where the files of its workload are gone.
pub proof fn lemma_failures_are_settled(way: Lookup, f: TemplateFailure)
    ensures
        ({
            let r = failure_settlement(way, f);
            &&& r.lease is Fail <==> f is KeyMismatch || f is TypeDisabled || f is NoProtocol || f
                is FilesMissing || f is BadNames || f is ContainerSetMismatch || f is RestoreFailed
            &&& r.lease is Fail || r.lease is Untaken
            &&& r.tally is Miss <==> !(way is Workload) && (f is PoolMiss || (r.lease is Fail && !(f
                is KeyMismatch)))
            &&& r.tally is Miss || r.tally is Nothing
            &&& r.clear_restore_state <==> way is Workload && f is FilesMissing
        }),
{
}

/// A template that was used counts as a hit of what it captured, once, and a workload that
/// was continued counts as none.
pub proof fn lemma_hits_are_counted_by_type(way: Lookup, t: SnapshotType)
    ensures
        way is Workload ==> success_settlement(way, t).tally is Nothing,
        !(way is Workload) && t is Environment ==> success_settlement(way, t).tally
            is EnvironmentHit,
        !(way is Workload) && t is WarmFork ==> success_settlement(way, t).tally is WarmForkHit,
        !success_settlement(way, t).clear_restore_state,
{
}

/// A name leads to the first container of a template that has it, and to none exactly
/// where none has it; a task keeps all but the id of its container.
pub proof fn lemma_task_goes_to_its_container(
    ready: Seq<ReadyTarget>,
    tasks: Seq<TargetView>,
    i: int,
)
    requires
        0 <= i < tasks.len(),
    ensures
        ({
            let out = resolved_targets(ready, tasks);
            let name = tasks[i].container_name;
            &&& out.len() == tasks.len()
            &&& out[i].container_name == name
            &&& out[i].socket_path == tasks[i].socket_path
            &&& out[i].env == tasks[i].env
            &&& out[i].context == tasks[i].context
            &&& forall|k: int|
                0 <= k < ready.len() && (#[trigger] ready[k]).container_name@ == name && (forall|
                    j: int,
                |
                    0 <= j < k ==> (#[trigger] ready[j]).container_name@ != name)
                    ==> out[i].container_id == ready[k].container_id@
            &&& (forall|k: int|
                0 <= k < ready.len() ==> (#[trigger] ready[k]).container_name@ != name) ==> out[i].container_id == tasks[i].container_id
        }),
{
    let name = tasks[i].container_name;
    assert forall|k: int|
        0 <= k < ready.len() && (#[trigger] ready[k]).container_name@ == name && (forall|j: int|
            0 <= j < k ==> (#[trigger] ready[j]).container_name@ != name) implies resolved_targets(
        ready,
        tasks,
    )[i].container_id == ready[k].container_id@ by {
        lemma_first_ready(ready, name, k);
    }
    if forall|k: int| 0 <= k < ready.len() ==> (#[trigger] ready[k]).container_name@ != name {
        lemma_none_ready(ready, name);
    }
}

proof fn lemma_first_ready(ready: Seq<ReadyTarget>, name: Seq<char>, k: int)
    requires
        0 <= k < ready.len(),
        ready[k].container_name@ == name,
        forall|j: int| 0 <= j < k ==> (#[trigger] ready[j]).container_name@ != name,
    ensures
        ready_id(ready, name) == Some(ready[k].container_id@),
    decreases ready.len(),
{
    if k > 0 {
        let rest = ready.drop_first();
        assert(ready[0].container_name@ != name);
        assert forall|j: int| 0 <= j < k - 1 implies (#[trigger] rest[j]).container_name@
            != name by {
            assert(rest[j] == ready[j + 1]);
        }
        lemma_first_ready(rest, name, k - 1);
    }
}

proof fn lemma_none_ready(ready: Seq<ReadyTarget>, name: Seq<char>)
    requires
        forall|j: int| 0 <= j < ready.len() ==> (#[trigger] ready[j]).container_name@ != name,
    ensures
        ready_id(ready, name) is None,
    decreases ready.len(),
{
    if ready.len() > 0 {
        let rest = ready.drop_first();
        assert(ready[0].container_name@ != name);
        assert forall|j: int| 0 <= j < rest.len() implies (#[trigger] rest[j]).container_name@
            != name by {
            assert(rest[j] == ready[j + 1]);
        }
        lemma_none_ready(rest, name);
    }
}

/// A pod fits a template that names containers exactly where each of them gets a task and
/// no other does; it fits any template that names none.
pub proof fn lemma_containers_fit(ready: Seq<ReadyTarget>, tasks: Seq<TargetView>)
    ensures
        ready.len() == 0 ==> containers_fit(ready, tasks),
        ready.len() > 0 ==> (containers_fit(ready, tasks) <==> forall|name: Seq<char>|
            (exists|k: int| 0 <= k < ready.len() && name == (#[trigger] ready[k]).container_name@)
                <==> #[trigger] task_names(tasks).contains(name)),
        task_names(tasks).len() == tasks.len(),
        forall|i: int|
            0 <= i < tasks.len() ==> #[trigger] task_names(tasks)[i] == tasks[i].container_name,
{
    let known = ready_names(ready);
    let asked = task_names(tasks);
    assert forall|name: Seq<char>| (exists|k: int|
        0 <= k < ready.len() && name == (#[trigger] ready[k]).container_name@)
        == #[trigger] known.contains(name) by {
        if known.contains(name) {
            let k = choose|k: int| 0 <= k < known.len() && known[k] == name;
            assert(name == ready[k].container_name@);
        }
        if exists|k: int| 0 <= k < ready.len() && name == (#[trigger] ready[k]).container_name@ {
            let k = choose|k: int|
                0 <= k < ready.len() && name == (#[trigger] ready[k]).container_name@;
            assert(known[k] == name);
        }
    }
    if containers_fit(ready, tasks) && ready.len() > 0 {
        assert forall|name: Seq<char>| known.contains(name) == #[trigger] asked.contains(name) by {
            assert(known.to_set().contains(name) == asked.to_set().contains(name));
        }
    }
    if forall|name: Seq<char>| known.contains(name) == #[trigger] asked.contains(name) {
        assert(known.to_set() =~= asked.to_set());
    }
}

/// A warm fork is used exactly where nothing speaks against it; and what speaks against it
/// is looked at in order: how its workload waits, its files, the list of the pod, and
/// whether the list fits.
pub proof fn lemma_fork_is_used_unless_it_fails(
    f: TemplateFailure,
    tmpl: PooledTemplate,
    files_present: bool,
    notes: Map<Seq<char>, Seq<char>>,
)
    requires
        fork_failure(f, tmpl, files_present, notes),
    ensures
        !fork_usable(tmpl, files_present, notes),
        tmpl.ready_protocol_version is None <==> f is NoProtocol,
        f is FilesMissing <==> tmpl.ready_protocol_version is Some && !files_present,
        f is BadNames ==> notes.contains_key(ANNOTATION_WARM_FORK_CONTAINERS@) && first_fault(
            listed_names(notes[ANNOTATION_WARM_FORK_CONTAINERS@]),
        ) is Some,
        f is ContainerSetMismatch ==> !containers_fit(tmpl.warm_fork_targets@, targets_of(notes)),
        f is NoProtocol || f is FilesMissing || f is BadNames || f is ContainerSetMismatch,
{
}

// ── Keeping templates at hand ───────────────────────────────────────────────

/// How many templates to make so that there are at least `wanted`, where `there`
/// are there and `in_flight` are being made.
pub open spec fn refills(wanted: nat, there: nat, in_flight: nat) -> nat {
    if there + in_flight < wanted {
        (wanted - there - in_flight) as nat
    } else {
        0
    }
}

/// How many templates to make so that there are at least `wanted`.
pub fn refills_needed(wanted: usize, there: usize, in_flight: usize) -> (r: usize)
    ensures
        r == refills(wanted as nat, there as nat, in_flight as nat),
{
    let covered: usize = there.saturating_add(in_flight);
    if covered < wanted {
        wanted - covered
    } else {
        0
    }
}

/// Once the templates that are being made are there, there are as many as wanted,
/// and no more are made than that takes.
pub proof fn lemma_refills_reach_the_mark(wanted: nat, there: nat, in_flight: nat)
    ensures
        there + in_flight + refills(wanted, there, in_flight) >= wanted,
        refills(wanted, there, in_flight) > 0 ==> there + in_flight + refills(
            wanted,
            there,
            in_flight,
        ) == wanted,
        refills(wanted, there, in_flight + refills(wanted, there, in_flight)) == 0,
{
}

/// The processors and the memory of a template: what the request sets goes before
/// the settings of the factory.
pub fn apply_resource_overrides(
    factory_vcpus: u32,
    factory_memory_mb: u32,
    vcpus: Option<u32>,
    memory_mb: Option<u32>,
) -> (r: (u32, u32))
    ensures
        r.0 == (match vcpus {
            Some(n) => n,
            None => factory_vcpus,
        }),
        r.1 == (match memory_mb {
            Some(n) => n,
            None => factory_memory_mb,
        }),
{
    (
        match vcpus {
            Some(n) => n,
            None => factory_vcpus,
        },
        match memory_mb {
            Some(n) => n,
            None => factory_memory_mb,
        },
    )
}

/// Whether files are copied by reference: only where templates are shared, and
/// where a trial showed that the file systems can do it.
pub fn use_reflink(lease_mode: TemplateLeaseMode, trial: Option<bool>) -> (r: bool)
    ensures
        r == (lease_mode is Shared && trial == Some(true)),
{
    matches!(lease_mode, TemplateLeaseMode::Shared) && matches!(trial, Some(true))
}

/// A step of making a template.
#[derive(Clone, Copy, Debug, PartialEq, Eq, Structural)]
pub enum TemplateStep {
    CreateVmDir,
    CreateVm,
    StartVm,
    WaitAgent,
    /// Run a container of the image that the template is for.
    WarmUp,
    /// Have the guest write its file systems back and drop its caches.
    Quiesce,
    CreateSnapshotDir,
    Snapshot,
    StopVm,
    RemoveVmDir,
    AddToPool,
}

/// The steps of making a template, in order. One that is for no image is not warmed
/// up.
pub open spec fn template_plan(image: Seq<char>) -> Seq<TemplateStep> {
    seq![
        TemplateStep::CreateVmDir,
        TemplateStep::CreateVm,
        TemplateStep::StartVm,
        TemplateStep::WaitAgent,
    ] + (if image.len() > 0 {
        seq![TemplateStep::WarmUp]
    } else {
        Seq::empty()
    }) + seq![
        TemplateStep::Quiesce,
        TemplateStep::CreateSnapshotDir,
        TemplateStep::Snapshot,
        TemplateStep::StopVm,
        TemplateStep::RemoveVmDir,
        TemplateStep::AddToPool,
    ]
}

/// The steps of making a template, in order.
pub fn template_steps(image: &str) -> (r: Vec<TemplateStep>)
    ensures
        r@ == template_plan(image@),
{
    let mut steps: Vec<TemplateStep> = Vec::new();
    steps.push(TemplateStep::CreateVmDir);
    steps.push(TemplateStep::CreateVm);
    steps.push(TemplateStep::StartVm);
    steps.push(TemplateStep::WaitAgent);
    if image.unicode_len() > 0 {
        steps.push(TemplateStep::WarmUp);
    }
    steps.push(TemplateStep::Quiesce);
    steps.push(TemplateStep::CreateSnapshotDir);
    steps.push(TemplateStep::Snapshot);
    steps.push(TemplateStep::StopVm);
    steps.push(TemplateStep::RemoveVmDir);
    steps.push(TemplateStep::AddToPool);
    assert(steps@ =~= template_plan(image@));
    steps
}

/// A template is made in order: a guest is started and its agent answers, it is warmed up
/// exactly where the template is for an image, it comes to rest, its snapshot is taken while
/// it runs, and only then it is stopped and cleared away. The template enters the pool last.
pub proof fn lemma_template_is_made_in_order(image: Seq<char>)
    ensures
        ({
            let plan = template_plan(image);
            &&& plan.no_duplicates()
            &&& comes_before(plan, TemplateStep::CreateVmDir, TemplateStep::CreateVm)
            &&& comes_before(plan, TemplateStep::CreateVm, TemplateStep::StartVm)
            &&& comes_before(plan, TemplateStep::StartVm, TemplateStep::WaitAgent)
            &&& comes_before(plan, TemplateStep::WaitAgent, TemplateStep::Quiesce)
            &&& comes_before(plan, TemplateStep::Quiesce, TemplateStep::CreateSnapshotDir)
            &&& comes_before(plan, TemplateStep::CreateSnapshotDir, TemplateStep::Snapshot)
            &&& comes_before(plan, TemplateStep::Snapshot, TemplateStep::StopVm)
            &&& comes_before(plan, TemplateStep::StopVm, TemplateStep::RemoveVmDir)
            &&& comes_before(plan, TemplateStep::RemoveVmDir, TemplateStep::AddToPool)
            &&& image.len() > 0 ==> comes_before(
                plan,
                TemplateStep::WaitAgent,
                TemplateStep::WarmUp,
            )
            &&& image.len() > 0 ==> comes_before(plan, TemplateStep::WarmUp, TemplateStep::Quiesce)
            &&& plan.contains(TemplateStep::WarmUp) <==> image.len() > 0
        }),
{
    let plan = template_plan(image);
    if image.len() > 0 {
        assert(plan =~= seq![
            TemplateStep::CreateVmDir,
            TemplateStep::CreateVm,
            TemplateStep::StartVm,
            TemplateStep::WaitAgent,
            TemplateStep::WarmUp,
            TemplateStep::Quiesce,
            TemplateStep::CreateSnapshotDir,
            TemplateStep::Snapshot,
            TemplateStep::StopVm,
            TemplateStep::RemoveVmDir,
            TemplateStep::AddToPool,
        ]);
        lemma_comes_before(plan, 0, 1);
        lemma_comes_before(plan, 1, 2);
        lemma_comes_before(plan, 2, 3);
        lemma_comes_before(plan, 3, 5);
        lemma_comes_before(plan, 5, 6);
        lemma_comes_before(plan, 6, 7);
        lemma_comes_before(plan, 7, 8);
        lemma_comes_before(plan, 8, 9);
        lemma_comes_before(plan, 9, 10);
        lemma_comes_before(plan, 3, 4);
        lemma_comes_before(plan, 4, 5);
        assert(plan[4] == TemplateStep::WarmUp);
    } else {
        assert(plan =~= seq![
            TemplateStep::CreateVmDir,
            TemplateStep::CreateVm,
            TemplateStep::StartVm,
            TemplateStep::WaitAgent,
            TemplateStep::Quiesce,
            TemplateStep::CreateSnapshotDir,
            TemplateStep::Snapshot,
            TemplateStep::StopVm,
            TemplateStep::RemoveVmDir,
            TemplateStep::AddToPool,
        ]);
        lemma_comes_before(plan, 0, 1);
        lemma_comes_before(plan, 1, 2);
        lemma_comes_before(plan, 2, 3);
        lemma_comes_before(plan, 3, 4);
        lemma_comes_before(plan, 4, 5);
        lemma_comes_before(plan, 5, 6);
        lemma_comes_before(plan, 6, 7);
        lemma_comes_before(plan, 7, 8);
        lemma_comes_before(plan, 8, 9);
    }
}

/// Whether the failure of a step ends the making of a template.
pub open spec fn template_ends(step: TemplateStep) -> bool {
    !(step is Quiesce || step is StopVm || step is RemoveVmDir)
}

/// No template enters the pool without its snapshot, nor one of a guest that did not come
/// up; what comes after the snapshot cannot lose it.
pub proof fn lemma_no_template_without_its_snapshot(image: Seq<char>, i: int, k: int)
    requires
        0 <= i < template_plan(image).len(),
        0 <= k < template_plan(image).len(),
        template_plan(image)[k] is Snapshot,
    ensures
        i <= k ==> (template_ends(template_plan(image)[i]) <==> !(template_plan(image)[i]
            is Quiesce)),
        i > k ==> (template_ends(template_plan(image)[i]) <==> template_plan(image)[i]
            is AddToPool),
{
    let plan = template_plan(image);
    if image.len() > 0 {
        assert(plan[7] is Snapshot);
    } else {
        assert(plan[6] is Snapshot);
    }
}

/// Whether the failure of a step ends the making of a template. The directory of
/// the template is then removed. What only tidies up may fail.
pub fn ends_template(step: TemplateStep) -> (r: bool)
    ensures
        r == template_ends(step),
{
    !matches!(step, TemplateStep::Quiesce | TemplateStep::StopVm | TemplateStep::RemoveVmDir)
}

/// How long the agent of a template may take to answer, in seconds.
pub const TEMPLATE_AGENT_TIMEOUT_SECS: u64 = 30;

/// What the guest runs before the snapshot of a template.
pub const QUIESCE_COMMAND: &'static str = "sync; echo 1 > /proc/sys/vm/drop_caches";

/// The directories of a template: its own, that of its VM, and that of its
/// snapshot.
pub fn template_dirs(store_dir: &str, id: &str) -> (r: (String, String, String))
    ensures
        r.0@ == path_join(path_join(store_dir@, "environment"@), id@),
        r.1@ == path_join(r.0@, "vm"@),
        r.2@ == path_join(r.0@, "snapshot"@),
{
    let kind_dir = join_path(store_dir, "environment");
    let base = join_path(kind_dir.as_str(), id);
    let vm = join_path(base.as_str(), "vm");
    let snapshot = join_path(base.as_str(), "snapshot");
    (base, vm, snapshot)
}

} // verus!
