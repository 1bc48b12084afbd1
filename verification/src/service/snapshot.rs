//! Taking a snapshot of a running sandbox.

use crate::order::{comes_before, lemma_comes_before};
use crate::sandbox::data::{annotations_of, lookup, SandboxData};
use crate::sandbox::state::{KuasarContainer, KuasarSandbox, SandboxStatus};
use crate::sandbox::template_pool::{
    container_note, first_fault, listed_names, lookup_or, names_fault,
    parse_warm_fork_container_names, pod_target, NameFault,
};
use crate::storage::{copy_storages, storage_views, Storage};
use crate::template::{
    BootSettings, PooledTemplate, ReadyTarget, SnapshotContainerMeta, SnapshotMeta, SnapshotType,
    TemplateKey, WorkloadIdentity,
};
use crate::text::{
    concat3, contains_text, copy_texts, join_path, lemma_path_join, lemma_path_join_apart, opt_text,
    path_join, same, texts,
};
use crate::text_map::{entry_keys, lemma_keys, TextMap};
use crate::vm::{
    ANNOTATION_WARM_FORK_CONTAINERS, ANNOTATION_WARM_FORK_DEFAULT_READINESS_SOCKET,
    ANNOTATION_WARM_FORK_READINESS_SOCKET, ANNOTATION_WARM_FORK_READY_PROTOCOL, SHAREFS_VIRTIO_BLK,
    WARM_FORK_PROTOCOL_V1,
};
use vstd::prelude::*;

verus! {

/// Why no snapshot is taken.
pub enum SnapshotRefusal {
    /// There is no place for templates.
    NoPool,
    /// There is no place for continuations.
    NoStore,
    /// There is no such sandbox.
    NotFound,
    /// The sandbox does not run.
    NotRunning,
    /// The containers of the sandbox do not live on block devices.
    WrongBackend,
    /// The workload does not say that it waits for a task.
    WrongProtocol(String),
    /// The list of containers is wrong.
    BadNames(NameFault),
    /// A container of the list does not run.
    ContainerNotFound(String),
    /// No container runs.
    NoContainer,
    /// Several containers run, and the pod does not say which are meant.
    TooManyContainers(usize),
    /// There is a snapshot already.
    Exists,
}

/// Why no snapshot of a sandbox can be taken at all, where that is so.
pub open spec fn snapshot_fault(
    snapshot_type: SnapshotType,
    has_pool: bool,
    sandbox: Option<&KuasarSandbox>,
    storage_backend: Seq<char>,
) -> Option<SnapshotRefusal> {
    if !(snapshot_type is Continuation) && !has_pool {
        Some(SnapshotRefusal::NoPool)
    } else if sandbox is None {
        Some(SnapshotRefusal::NotFound)
    } else if !(sandbox->0.status is Running) {
        Some(SnapshotRefusal::NotRunning)
    } else if storage_backend != SHAREFS_VIRTIO_BLK@ {
        Some(SnapshotRefusal::WrongBackend)
    } else {
        None
    }
}

/// A snapshot is taken only of a sandbox that is there and runs, with its containers on
/// block devices, and of a template only where there is a pool. What is refused is refused
/// for the first of these that does not hold.
pub proof fn lemma_only_a_running_sandbox_is_captured(
    snapshot_type: SnapshotType,
    has_pool: bool,
    sandbox: Option<&KuasarSandbox>,
    storage_backend: Seq<char>,
)
    ensures
        ({
            let fault = snapshot_fault(snapshot_type, has_pool, sandbox, storage_backend);
            let placed = snapshot_type is Continuation || has_pool;
            let runs = sandbox is Some && sandbox->0.status is Running;
            &&& fault is None <==> placed && runs && storage_backend == SHAREFS_VIRTIO_BLK@
            &&& fault == Some(SnapshotRefusal::NoPool) <==> !placed
            &&& fault == Some(SnapshotRefusal::NotFound) <==> placed && sandbox is None
            &&& fault == Some(SnapshotRefusal::NotRunning) <==> placed && sandbox is Some && !runs
            &&& fault == Some(SnapshotRefusal::WrongBackend) <==> placed && runs && storage_backend
                != SHAREFS_VIRTIO_BLK@
        }),
{
}

/// Whether a snapshot of a sandbox can be taken at all: there must be a place for
/// it, and the sandbox must run, with its containers on block devices. Only those
/// can be captured together with the guest.
pub fn check_snapshot_request(
    snapshot_type: SnapshotType,
    has_pool: bool,
    sandbox: Option<&KuasarSandbox>,
    storage_backend: &str,
) -> (r: Result<(), SnapshotRefusal>)
    ensures
        match r {
            Ok(()) => snapshot_fault(snapshot_type, has_pool, sandbox, storage_backend@) is None,
            Err(e) => snapshot_fault(snapshot_type, has_pool, sandbox, storage_backend@) == Some(e),
        },
{
    if !matches!(snapshot_type, SnapshotType::Continuation) && !has_pool {
        return Err(SnapshotRefusal::NoPool);
    }
    let sandbox = match sandbox {
        Some(s) => s,
        None => {
            return Err(SnapshotRefusal::NotFound);
        },
    };
    if !matches!(sandbox.status, SandboxStatus::Running(_)) {
        return Err(SnapshotRefusal::NotRunning);
    }
    if !same(storage_backend, SHAREFS_VIRTIO_BLK) {
        return Err(SnapshotRefusal::WrongBackend);
    }
    Ok(())
}

// ── Workloads that wait for a task ──────────────────────────────────────────

/// The id of the last container that the pod calls by a name.
pub open spec fn container_named(containers: Seq<(String, KuasarContainer)>, name: Seq<char>) -> Option<
    Seq<char>,
>
    decreases containers.len(),
{
    if containers.len() == 0 {
        None
    } else if containers.last().1.name matches Some(n) && n@ == name {
        Some(containers.last().0@)
    } else {
        container_named(containers.drop_last(), name)
    }
}

/// A name leads to the last container that has it, and to none exactly where none has it.
pub proof fn lemma_name_leads_to_its_container(
    containers: Seq<(String, KuasarContainer)>,
    name: Seq<char>,
)
    ensures
        match container_named(containers, name) {
            Some(id) => exists|i: int|
                {
                    &&& 0 <= i < containers.len()
                    &&& (#[trigger] containers[i]).0@ == id
                    &&& containers[i].1.name matches Some(n) && n@ == name
                    &&& forall|k: int|
                        i < k < containers.len() ==> !((
                        #[trigger] containers[k]).1.name matches Some(n) && n@ == name)
                },
            None => forall|k: int|
                0 <= k < containers.len() ==> !((#[trigger] containers[k]).1.name matches Some(n)
                    && n@ == name),
        },
    decreases containers.len(),
{
    if containers.len() > 0 {
        let init = containers.drop_last();
        let end: int = containers.len() - 1;
        assert(containers[end] == containers.last());
        lemma_name_leads_to_its_container(init, name);
        if containers.last().1.name matches Some(n) && n@ == name {
        } else {
            assert(forall|k: int| 0 <= k < end ==> #[trigger] containers[k] == init[k]);
            if container_named(init, name) is Some {
                let i = choose|i: int|
                    {
                        &&& 0 <= i < init.len()
                        &&& (#[trigger] init[i]).0@ == container_named(init, name)->0
                        &&& init[i].1.name matches Some(n) && n@ == name
                        &&& forall|k: int|
                            i < k < init.len() ==> !((#[trigger] init[k]).1.name matches Some(n)
                                && n@ == name)
                    };
                assert(containers[i] == init[i]);
                assert forall|k: int| i < k < containers.len() implies !((
                #[trigger] containers[k]).1.name matches Some(n) && n@ == name) by {
                    if k < end {
                        assert(init[k] == containers[k]);
                    }
                }
            }
        }
    }
}

fn find_container<'a>(containers: &'a Vec<(String, KuasarContainer)>, name: &str) -> (r: Option<
    &'a String,
>)
    ensures
        match r {
            Some(id) => container_named(containers@, name@) == Some(id@),
            None => container_named(containers@, name@) is None,
        },
{
    let mut i: usize = containers.len();
    assert(containers@.take(i as int) =~= containers@);
    while i > 0
        invariant
            i <= containers@.len(),
            container_named(containers@.take(i as int), name@) == container_named(
                containers@,
                name@,
            ),
        decreases i,
    {
        proof {
            assert(containers@.take(i as int).last() == containers@[i - 1]);
            assert(containers@.take(i as int).drop_last() =~= containers@.take(i - 1));
        }
        if let Some(n) = &containers[i - 1].1.name {
            if same(n.as_str(), name) {
                return Some(&containers[i - 1].0);
            }
        }
        i = i - 1;
    }
    None
}

/// What is known of a container that waits for its task.
pub open spec fn ready_view(t: ReadyTarget) -> (Seq<char>, Seq<char>, Seq<char>) {
    (t.container_name@, t.container_id@, t.socket_path@)
}

/// What is known of containers that wait for their task.
pub open spec fn ready_views(v: Seq<ReadyTarget>) -> Seq<(Seq<char>, Seq<char>, Seq<char>)> {
    Seq::new(v.len(), |i: int| ready_view(v[i]))
}

/// The socket on which a container waits for its task: its own annotation goes
/// before that of the pod.
pub open spec fn ready_socket(notes: Map<Seq<char>, Seq<char>>, name: Seq<char>) -> Seq<char> {
    lookup_or(
        notes,
        container_note(name, "/warm-fork-readiness-socket"@),
        pod_target(notes).socket_path,
    )
}

/// What is known of the containers of a list that wait for their task.
pub open spec fn listed_ready(
    notes: Map<Seq<char>, Seq<char>>,
    containers: Seq<(String, KuasarContainer)>,
    names: Seq<Seq<char>>,
) -> Seq<(Seq<char>, Seq<char>, Seq<char>)> {
    Seq::new(
        names.len(),
        |i: int|
            (names[i], container_named(containers, names[i])->0, ready_socket(notes, names[i])),
    )
}

/// Whether a name of a list is the first that no container has.
pub open spec fn first_missing(
    containers: Seq<(String, KuasarContainer)>,
    names: Seq<Seq<char>>,
    i: int,
) -> bool {
    &&& 0 <= i < names.len()
    &&& container_named(containers, names[i]) is None
    &&& forall|k: int| 0 <= k < i ==> container_named(containers, #[trigger] names[k]) is Some
}

/// Whether `r` says which workloads of a pod wait for a task, or why they do not.
pub open spec fn tells_ready(
    r: Result<(String, Vec<ReadyTarget>), SnapshotRefusal>,
    data: SandboxData,
    containers: Seq<(String, KuasarContainer)>,
) -> bool {
    let notes = annotations_of(data);
    let protocol = lookup_or(notes, ANNOTATION_WARM_FORK_READY_PROTOCOL@, Seq::empty());
    let list = lookup(notes, ANNOTATION_WARM_FORK_CONTAINERS@);
    match r {
        Ok((version, targets)) => {
            &&& protocol == WARM_FORK_PROTOCOL_V1@ && version@ == protocol
            &&& match list {
                Some(value) => first_fault(listed_names(value)) is None && ready_views(
                    targets@,
                ) == listed_ready(notes, containers, listed_names(value)) && forall|
                    k: int,
                |
                    0 <= k < listed_names(value).len() ==> container_named(
                        containers,
                        #[trigger] listed_names(value)[k],
                    ) is Some,
                None => containers.len() == 1 && ready_views(targets@) == seq![
                    (
                        Seq::<char>::empty(),
                        containers[0].0@,
                        pod_target(notes).socket_path,
                    ),
                ],
            }
        },
        Err(SnapshotRefusal::WrongProtocol(found)) => protocol != WARM_FORK_PROTOCOL_V1@
            && found@ == protocol,
        Err(SnapshotRefusal::BadNames(fault)) => protocol == WARM_FORK_PROTOCOL_V1@
            && names_fault(notes) == Some(fault@),
        Err(SnapshotRefusal::ContainerNotFound(name)) => protocol
            == WARM_FORK_PROTOCOL_V1@ && (list matches Some(value) && first_fault(
            listed_names(value),
        ) is None && exists|i: int| #[trigger]
            first_missing(containers, listed_names(value), i) && listed_names(value)[i]
                == name@),
        Err(SnapshotRefusal::NoContainer) => protocol == WARM_FORK_PROTOCOL_V1@ && list
            is None && containers.len() == 0,
        Err(SnapshotRefusal::TooManyContainers(n)) => protocol == WARM_FORK_PROTOCOL_V1@
            && list is None && containers.len() > 1 && n == containers.len(),
        Err(_) => false,
    }
}

/// Of a pod that lists containers, each of them is asked, in the order of the list: under
/// its own name, the id of a container that has this name, and the socket that its own
/// annotation gives, or else that of the pod. One that is refused for a missing container
/// is refused for the first name that none has.
pub proof fn lemma_every_listed_container_is_asked(
    r: Result<(String, Vec<ReadyTarget>), SnapshotRefusal>,
    data: SandboxData,
    containers: Seq<(String, KuasarContainer)>,
    k: int,
)
    requires
        tells_ready(r, data, containers),
        annotations_of(data).contains_key(ANNOTATION_WARM_FORK_CONTAINERS@),
        0 <= k < listed_names(annotations_of(data)[ANNOTATION_WARM_FORK_CONTAINERS@]).len(),
    ensures
        ({
            let notes = annotations_of(data);
            let names = listed_names(notes[ANNOTATION_WARM_FORK_CONTAINERS@]);
            let own = "kuasar.io/container/"@ + names[k] + "/warm-fork-readiness-socket"@;
            match r {
                Ok((_, targets)) => {
                    &&& targets@.len() == names.len()
                    &&& targets@[k].container_name@ == names[k]
                    &&& exists|i: int|
                        {
                            &&& 0 <= i < containers.len()
                            &&& (#[trigger] containers[i]).0@ == targets@[k].container_id@
                            &&& containers[i].1.name matches Some(n) && n@ == names[k]
                        }
                    &&& targets@[k].socket_path@ == (if notes.contains_key(own) {
                        notes[own]
                    } else if notes.contains_key(ANNOTATION_WARM_FORK_READINESS_SOCKET@) {
                        notes[ANNOTATION_WARM_FORK_READINESS_SOCKET@]
                    } else {
                        ANNOTATION_WARM_FORK_DEFAULT_READINESS_SOCKET@
                    })
                },
                Err(SnapshotRefusal::ContainerNotFound(name)) => exists|i: int|
                    {
                        &&& 0 <= i < names.len()
                        &&& #[trigger] names[i] == name@
                        &&& forall|j: int|
                            0 <= j < containers.len() ==> !((
                            #[trigger] containers[j]).1.name matches Some(n) && n@ == name@)
                        &&& k < i ==> container_named(containers, names[k]) is Some
                    },
                Err(_) => true,
            }
        }),
{
    let notes = annotations_of(data);
    let names = listed_names(notes[ANNOTATION_WARM_FORK_CONTAINERS@]);
    match r {
        Ok((version, targets)) => {
            assert(ready_views(targets@).len() == names.len());
            assert(ready_views(targets@)[k] == ready_view(targets@[k]));
            lemma_name_leads_to_its_container(containers, names[k]);
        },
        Err(SnapshotRefusal::ContainerNotFound(name)) => {
            let i = choose|i: int| #[trigger]
                first_missing(containers, names, i) && names[i] == name@;
            lemma_name_leads_to_its_container(containers, names[i]);
        },
        Err(_) => {},
    }
}

/// The containers whose workloads wait for a task, and the protocol that they
/// speak. The pod must name the protocol. Where it lists containers each must run;
/// where it lists none, exactly one container must.
pub fn ready_targets(data: &SandboxData, running: &TextMap<KuasarContainer>) -> (r: Result<
    (String, Vec<ReadyTarget>),
    SnapshotRefusal,
>)
    ensures
        tells_ready(r, *data, running.listed()),
{
    let containers = running.entries();
    let ghost notes = annotations_of(*data);
    proof {
        reveal_strlit("");
        assert(""@ =~= Seq::<char>::empty());
    }
    let protocol = match data.annotation(ANNOTATION_WARM_FORK_READY_PROTOCOL) {
        Some(v) => v.clone(),
        None => "".to_owned(),
    };
    if !same(protocol.as_str(), WARM_FORK_PROTOCOL_V1) {
        return Err(SnapshotRefusal::WrongProtocol(protocol));
    }
    let pod_socket = match data.annotation(ANNOTATION_WARM_FORK_READINESS_SOCKET) {
        Some(v) => v.clone(),
        None => ANNOTATION_WARM_FORK_DEFAULT_READINESS_SOCKET.to_owned(),
    };
    let names = match &data.config {
        Some(config) => match parse_warm_fork_container_names(&config.annotations) {
            Ok(names) => names,
            Err(fault) => {
                return Err(SnapshotRefusal::BadNames(fault));
            },
        },
        None => None,
    };
    let mut targets: Vec<ReadyTarget> = Vec::new();
    match names {
        Some(names) => {
            let ghost listed = texts(names@);
            let mut i: usize = 0;
            while i < names.len()
                invariant
                    i <= names@.len(),
                    notes == annotations_of(*data),
                    containers@ == running.listed(),
                    listed == texts(names@),
                    lookup(notes, ANNOTATION_WARM_FORK_CONTAINERS@) matches Some(value)
                        && first_fault(listed_names(value)) is None && listed_names(value)
                        == listed,
                    lookup_or(notes, ANNOTATION_WARM_FORK_READY_PROTOCOL@, Seq::empty())
                        == WARM_FORK_PROTOCOL_V1@,
                    pod_socket@ == pod_target(notes).socket_path,
                    targets@.len() == i,
                    forall|k: int|
                        0 <= k < i ==> container_named(containers@, #[trigger] listed[k])
                            is Some,
                    forall|k: int|
                        0 <= k < i ==> ready_view(#[trigger] targets@[k]) == (
                            listed[k],
                            container_named(containers@, listed[k])->0,
                            ready_socket(notes, listed[k]),
                        ),
                decreases names.len() - i,
            {
                let name = names[i].clone();
                assert(listed[i as int] == name@);
                let socket_key = concat3(
                    "kuasar.io/container/",
                    name.as_str(),
                    "/warm-fork-readiness-socket",
                );
                let socket_path = match data.annotation(socket_key.as_str()) {
                    Some(v) => v.clone(),
                    None => pod_socket.clone(),
                };
                let container_id = match find_container(containers, name.as_str()) {
                    Some(id) => id.clone(),
                    None => {
                        assert(first_missing(containers@, listed, i as int));
                        return Err(SnapshotRefusal::ContainerNotFound(name));
                    },
                };
                targets.push(ReadyTarget { container_name: name, container_id, socket_path });
                i = i + 1;
            }
            assert(ready_views(targets@) =~= listed_ready(notes, containers@, listed));
        },
        None => {
            if containers.len() == 0 {
                return Err(SnapshotRefusal::NoContainer);
            }
            if containers.len() > 1 {
                return Err(SnapshotRefusal::TooManyContainers(containers.len()));
            }
            targets.push(
                ReadyTarget {
                    container_name: "".to_owned(),
                    container_id: containers[0].0.clone(),
                    socket_path: pod_socket,
                },
            );
            assert(ready_views(targets@) =~= seq![
                (Seq::<char>::empty(), containers@[0].0@, pod_target(notes).socket_path),
            ]);
        },
    }
    Ok((protocol, targets))
}

// ── The order ───────────────────────────────────────────────────────────────

/// What is asked for: a snapshot of a type, under an id and a key.
pub struct SnapshotRequest {
    pub template_id: String,
    pub key: String,
    pub snapshot_type: SnapshotType,
    /// The workload that a continuation is of.
    pub identity: Option<WorkloadIdentity>,
}

/// Where snapshots are kept.
pub struct SnapshotPlaces {
    /// The directory of the pool, where there is a pool.
    pub pool_dir: Option<String>,
    /// The directory of the key in the store of continuations, where there is a store.
    pub entry_dir: Option<String>,
    /// Whether there is a snapshot for the key already.
    pub exists: bool,
}

/// Why there is no place for a snapshot, where that is so. A continuation needs a
/// store, and is never overwritten; all else needs a pool.
pub open spec fn place_fault(
    snapshot_type: SnapshotType,
    places: SnapshotPlaces,
) -> Option<SnapshotRefusal> {
    if !(snapshot_type is Continuation) {
        if places.pool_dir is None {
            Some(SnapshotRefusal::NoPool)
        } else {
            None
        }
    } else if places.entry_dir is None {
        Some(SnapshotRefusal::NoStore)
    } else if places.exists {
        Some(SnapshotRefusal::Exists)
    } else {
        None
    }
}

/// The directory of a snapshot: a continuation is kept under its key, and all else
/// under the id of the template.
pub open spec fn snapshot_dir_of(request: SnapshotRequest, places: SnapshotPlaces) -> Seq<char> {
    if request.snapshot_type is Continuation {
        path_join(places.entry_dir->0@, "snapshot"@)
    } else {
        path_join(
            path_join(path_join(places.pool_dir->0@, "warmfork"@), request.template_id@),
            "snapshot"@,
        )
    }
}

/// A snapshot has a place exactly where what keeps its type is there, and a continuation
/// only where none is kept under its key: none is ever overwritten.
pub proof fn lemma_no_continuation_is_overwritten(
    snapshot_type: SnapshotType,
    places: SnapshotPlaces,
)
    ensures
        place_fault(snapshot_type, places) is None <==> if snapshot_type is Continuation {
            places.entry_dir is Some && !places.exists
        } else {
            places.pool_dir is Some
        },
        place_fault(snapshot_type, places) == Some(SnapshotRefusal::Exists) <==> snapshot_type
            is Continuation && places.entry_dir is Some && places.exists,
        place_fault(snapshot_type, places) == Some(SnapshotRefusal::NoStore) <==> snapshot_type
            is Continuation && places.entry_dir is None,
        place_fault(snapshot_type, places) == Some(SnapshotRefusal::NoPool) <==> !(snapshot_type
            is Continuation) && places.pool_dir is None,
{
}

/// Templates with different ids have different directories below that of the pool,
/// whatever their keys are.
pub proof fn lemma_templates_do_not_share_a_directory(
    a: SnapshotRequest,
    b: SnapshotRequest,
    places: SnapshotPlaces,
)
    requires
        !(a.snapshot_type is Continuation) && !(b.snapshot_type is Continuation),
        a.template_id@.len() > 0 && a.template_id@.last() != '/' && a.template_id@[0] != '/',
        b.template_id@.len() > 0 && b.template_id@.last() != '/' && b.template_id@[0] != '/',
    ensures
        places.pool_dir->0@.is_prefix_of(snapshot_dir_of(a, places)),
        a.template_id@ == b.template_id@ <==> snapshot_dir_of(a, places) == snapshot_dir_of(
            b,
            places,
        ),
{
    reveal_strlit("snapshot");
    reveal_strlit("warmfork");
    let pool = places.pool_dir->0@;
    let kind = path_join(pool, "warmfork"@);
    let own = path_join(kind, a.template_id@);
    let other = path_join(kind, b.template_id@);
    lemma_path_join(pool, "warmfork"@, "snapshot"@);
    lemma_path_join(kind, a.template_id@, b.template_id@);
    lemma_path_join(own, "snapshot"@, "snapshot"@);
    let first = snapshot_dir_of(a, places);
    assert(kind.take(pool.len() as int) =~= pool);
    assert(own.take(kind.len() as int) =~= kind);
    assert(first.take(own.len() as int) =~= own);
    assert(first.take(pool.len() as int) =~= pool);
    if a.template_id@ != b.template_id@ {
        assert(own.last() == a.template_id@.last());
        assert(other.last() == b.template_id@.last());
        lemma_path_join_apart(own, other, "snapshot"@);
    }
}

/// A continuation is kept in the directory of its key, whatever its id is, so that those of
/// different keys have different directories.
pub proof fn lemma_continuations_do_not_share_a_directory(
    a: SnapshotRequest,
    b: SnapshotRequest,
    places: SnapshotPlaces,
    others: SnapshotPlaces,
)
    requires
        a.snapshot_type is Continuation && b.snapshot_type is Continuation,
        places.entry_dir->0@.len() > 0 && places.entry_dir->0@.last() != '/',
        others.entry_dir->0@.len() > 0 && others.entry_dir->0@.last() != '/',
    ensures
        places.entry_dir->0@.is_prefix_of(snapshot_dir_of(a, places)),
        places.entry_dir->0@ == others.entry_dir->0@ <==> snapshot_dir_of(a, places)
            == snapshot_dir_of(b, others),
{
    reveal_strlit("snapshot");
    lemma_path_join(places.entry_dir->0@, "snapshot"@, "snapshot"@);
    if places.entry_dir->0@ != others.entry_dir->0@ {
        lemma_path_join_apart(places.entry_dir->0@, others.entry_dir->0@, "snapshot"@);
    }
}

/// The directory of a snapshot, or why there is no place for it.
pub fn plan_snapshot_dir(request: &SnapshotRequest, places: &SnapshotPlaces) -> (r: Result<
    String,
    SnapshotRefusal,
>)
    ensures
        match place_fault(request.snapshot_type, *places) {
            Some(fault) => r matches Err(e) && e == fault,
            None => r matches Ok(dir) && dir@ == snapshot_dir_of(*request, *places),
        },
{
    if matches!(request.snapshot_type, SnapshotType::Continuation) {
        match &places.entry_dir {
            Some(dir) => {
                if places.exists {
                    return Err(SnapshotRefusal::Exists);
                }
                Ok(join_path(dir.as_str(), "snapshot"))
            },
            None => Err(SnapshotRefusal::NoStore),
        }
    } else {
        match &places.pool_dir {
            Some(dir) => {
                let kind = join_path(dir.as_str(), "warmfork");
                let own = join_path(kind.as_str(), request.template_id.as_str());
                Ok(join_path(own.as_str(), "snapshot"))
            },
            None => Err(SnapshotRefusal::NoPool),
        }
    }
}

/// A step of taking a snapshot of a running sandbox.
#[derive(Clone, Copy, Debug, PartialEq, Eq, Structural)]
pub enum TakeStep {
    /// Ask the agent whether every workload waits for its task.
    CheckReady,
    /// Make the directory of the snapshot.
    MakeDir,
    /// Have the hypervisor write the snapshot. The guest stands still meanwhile.
    Capture,
    /// Keep the network namespace alive.
    PreserveNetns,
    /// Enter the snapshot into the store of continuations.
    KeepInStore,
    /// Enter the snapshot into the pool.
    KeepInPool,
}

/// The steps of taking a snapshot of a running sandbox, in order. A continuation goes
/// to its store, and all else to the pool.
pub open spec fn take_plan(snapshot_type: SnapshotType, has_netns: bool) -> Seq<TakeStep> {
    (if snapshot_type is WarmFork {
        seq![TakeStep::CheckReady]
    } else {
        Seq::empty()
    }) + seq![TakeStep::MakeDir, TakeStep::Capture] + (if snapshot_type is Continuation
        && has_netns {
        seq![TakeStep::PreserveNetns]
    } else {
        Seq::empty()
    }) + seq![
        if snapshot_type is Continuation {
            TakeStep::KeepInStore
        } else {
            TakeStep::KeepInPool
        },
    ]
}

/// What it takes to snapshot a running sandbox.
pub struct TakePlan {
    /// For a warm fork, the protocol and the workloads that wait for a task.
    pub ready: Option<(String, Vec<ReadyTarget>)>,
    /// The disks that are captured.
    pub disks: Vec<DiskSnapshot>,
    /// The directory that the hypervisor writes to.
    pub dir: String,
    pub steps: Vec<TakeStep>,
}

/// Whether `plan` is what it takes to snapshot a sandbox.
pub open spec fn plans(
    plan: TakePlan,
    request: SnapshotRequest,
    places: SnapshotPlaces,
    s: KuasarSandbox,
) -> bool {
    &&& plan.steps@ == take_plan(request.snapshot_type, s.data.netns@.len() > 0)
    &&& plan.dir@ == snapshot_dir_of(request, places)
    &&& disk_views(plan.disks@) == disks_of(s.storages@)
    &&& match plan.ready {
        Some(ready) => request.snapshot_type is WarmFork && tells_ready(
            Ok(ready),
            s.data,
            s.containers.listed(),
        ),
        None => !(request.snapshot_type is WarmFork),
    }
}

/// What it takes to snapshot a running sandbox, or why that is refused. Nothing is
/// captured where there is no place for it. The sandbox stays as it is.
pub fn snapshot_from_sandbox(
    request: &SnapshotRequest,
    places: &SnapshotPlaces,
    sandbox: Option<&KuasarSandbox>,
    storage_backend: &str,
) -> (r: Result<TakePlan, SnapshotRefusal>)
    ensures
        match snapshot_fault(
            request.snapshot_type,
            places.pool_dir is Some,
            sandbox,
            storage_backend@,
        ) {
            Some(fault) => r matches Err(e) && e == fault,
            None => match r {
                Ok(plan) => place_fault(request.snapshot_type, *places) is None && plans(
                    plan,
                    *request,
                    *places,
                    *sandbox->0,
                ),
                Err(e) => if request.snapshot_type is WarmFork {
                    tells_ready(Err(e), sandbox->0.data, sandbox->0.containers.listed())
                } else {
                    place_fault(request.snapshot_type, *places) == Some(e)
                },
            },
        },
        request.snapshot_type is Continuation && places.entry_dir is None ==> r is Err,
        request.snapshot_type is Continuation && places.exists ==> r is Err,
{
    let snapshot_type = request.snapshot_type;
    match check_snapshot_request(
        snapshot_type,
        places.pool_dir.is_some(),
        sandbox,
        storage_backend,
    ) {
        Ok(()) => {},
        Err(e) => {
            return Err(e);
        },
    }
    let s = match sandbox {
        Some(s) => s,
        None => {
            return Err(SnapshotRefusal::NotFound);
        },
    };
    let mut steps: Vec<TakeStep> = Vec::new();
    let ready = if matches!(snapshot_type, SnapshotType::WarmFork) {
        match ready_targets(&s.data, &s.containers) {
            Ok(ready) => {
                steps.push(TakeStep::CheckReady);
                Some(ready)
            },
            Err(e) => {
                return Err(e);
            },
        }
    } else {
        None
    };
    let dir = match plan_snapshot_dir(request, places) {
        Ok(dir) => dir,
        Err(e) => {
            return Err(e);
        },
    };
    steps.push(TakeStep::MakeDir);
    steps.push(TakeStep::Capture);
    if matches!(snapshot_type, SnapshotType::Continuation) {
        if !s.data.netns.as_str().is_empty() {
            steps.push(TakeStep::PreserveNetns);
        }
        steps.push(TakeStep::KeepInStore);
    } else {
        steps.push(TakeStep::KeepInPool);
    }
    assert(steps@ =~= take_plan(snapshot_type, s.data.netns@.len() > 0));
    Ok(TakePlan { ready, disks: snapshot_disks(&s.storages), dir, steps })
}

/// What is done next.
#[derive(Clone, Copy, Debug, PartialEq, Eq, Structural)]
pub enum TakeMove {
    Do(TakeStep),
    /// The last step failed: no snapshot is kept.
    Fail,
    Done,
}

/// What is done next after `done` steps succeeded, where `failed` says whether the one
/// behind them failed.
pub open spec fn take_move(steps: Seq<TakeStep>, done: nat, failed: bool) -> TakeMove {
    if failed {
        TakeMove::Fail
    } else if done < steps.len() {
        TakeMove::Do(steps[done as int])
    } else {
        TakeMove::Done
    }
}

impl TakePlan {
    /// What is done next after `done` steps succeeded. The first step that fails ends
    /// it.
    pub fn next_move(&self, done: usize, failed: bool) -> (r: TakeMove)
        ensures
            r == take_move(self.steps@, done as nat, failed),
    {
        if failed {
            TakeMove::Fail
        } else if done < self.steps.len() {
            TakeMove::Do(self.steps[done])
        } else {
            TakeMove::Done
        }
    }
}

/// The pool and the store change only with the last step, once all others succeeded,
/// the capture among them; and only the place changes that the type is kept in.
pub proof fn lemma_kept_last_and_in_its_place(
    snapshot_type: SnapshotType,
    has_netns: bool,
    done: nat,
    failed: bool,
)
    ensures
        ({
            let steps = take_plan(snapshot_type, has_netns);
            let next = take_move(steps, done, failed);
            &&& next == TakeMove::Do(TakeStep::KeepInStore) ==> done == steps.len() - 1
                && snapshot_type is Continuation
            &&& next == TakeMove::Do(TakeStep::KeepInPool) ==> done == steps.len() - 1 && !(
            snapshot_type is Continuation)
            &&& next is Done ==> steps.last() == (if snapshot_type is Continuation {
                TakeStep::KeepInStore
            } else {
                TakeStep::KeepInPool
            })
            &&& exists|k: int|
                0 <= k < steps.len() - 1 && #[trigger] steps[k] == TakeStep::Capture
        }),
{
    let steps = take_plan(snapshot_type, has_netns);
    if snapshot_type is WarmFork {
        assert(steps[2] == TakeStep::Capture);
    } else {
        assert(steps[1] == TakeStep::Capture);
    }
}

/// A snapshot is taken in order: its directory is made before it is captured, and it is
/// captured before it is kept. The workloads are asked first exactly for a warm fork; the
/// network namespace is kept alive exactly for a continuation that has one; and the snapshot
/// is kept in exactly one place, which its type decides.
pub proof fn lemma_snapshot_is_taken_in_order(snapshot_type: SnapshotType, has_netns: bool)
    ensures
        ({
            let plan = take_plan(snapshot_type, has_netns);
            &&& plan.no_duplicates()
            &&& comes_before(plan, TakeStep::MakeDir, TakeStep::Capture)
            &&& snapshot_type is WarmFork ==> comes_before(
                plan,
                TakeStep::CheckReady,
                TakeStep::MakeDir,
            )
            &&& snapshot_type is Continuation ==> comes_before(
                plan,
                TakeStep::Capture,
                TakeStep::KeepInStore,
            )
            &&& !(snapshot_type is Continuation) ==> comes_before(
                plan,
                TakeStep::Capture,
                TakeStep::KeepInPool,
            )
            &&& snapshot_type is Continuation && has_netns ==> comes_before(
                plan,
                TakeStep::Capture,
                TakeStep::PreserveNetns,
            )
            &&& snapshot_type is Continuation && has_netns ==> comes_before(
                plan,
                TakeStep::PreserveNetns,
                TakeStep::KeepInStore,
            )
            &&& plan.contains(TakeStep::CheckReady) <==> snapshot_type is WarmFork
            &&& plan.contains(TakeStep::PreserveNetns) <==> snapshot_type is Continuation
                && has_netns
            &&& plan.contains(TakeStep::KeepInStore) <==> snapshot_type is Continuation
            &&& plan.contains(TakeStep::KeepInPool) <==> !(snapshot_type is Continuation)
        }),
{
    let plan = take_plan(snapshot_type, has_netns);
    if snapshot_type is WarmFork {
        assert(plan =~= seq![
            TakeStep::CheckReady,
            TakeStep::MakeDir,
            TakeStep::Capture,
            TakeStep::KeepInPool,
        ]);
        lemma_comes_before(plan, 1, 2);
        lemma_comes_before(plan, 0, 1);
        lemma_comes_before(plan, 2, 3);
        assert(plan[0] == TakeStep::CheckReady);
        assert(plan[3] == TakeStep::KeepInPool);
    } else if snapshot_type is Continuation && has_netns {
        assert(plan =~= seq![
            TakeStep::MakeDir,
            TakeStep::Capture,
            TakeStep::PreserveNetns,
            TakeStep::KeepInStore,
        ]);
        lemma_comes_before(plan, 0, 1);
        lemma_comes_before(plan, 1, 3);
        lemma_comes_before(plan, 1, 2);
        lemma_comes_before(plan, 2, 3);
        assert(plan[2] == TakeStep::PreserveNetns);
        assert(plan[3] == TakeStep::KeepInStore);
    } else if snapshot_type is Continuation {
        assert(plan =~= seq![TakeStep::MakeDir, TakeStep::Capture, TakeStep::KeepInStore]);
        lemma_comes_before(plan, 0, 1);
        lemma_comes_before(plan, 1, 2);
        assert(plan[2] == TakeStep::KeepInStore);
    } else {
        assert(plan =~= seq![TakeStep::MakeDir, TakeStep::Capture, TakeStep::KeepInPool]);
        lemma_comes_before(plan, 0, 1);
        lemma_comes_before(plan, 1, 2);
        assert(plan[2] == TakeStep::KeepInPool);
    }
}

/// A step that fails ends it, whatever has been done; else the steps are done one after
/// the other, and it ends only once all are done.
pub proof fn lemma_snapshot_ends_at_a_failure(steps: Seq<TakeStep>, done: nat)
    ensures
        take_move(steps, done, true) is Fail,
        take_move(steps, done, false) is Done <==> done >= steps.len(),
        done < steps.len() ==> take_move(steps, done, false) == TakeMove::Do(steps[done as int]),
{
}

/// A workload is captured for a warm fork only after the agent has said that it
/// waits for its task: one that does not wait would later go on from an undefined
/// state.
pub proof fn lemma_only_waiting_workloads_are_captured(has_netns: bool, i: int)
    requires
        0 <= i < take_plan(SnapshotType::WarmFork, has_netns).len(),
        take_plan(SnapshotType::WarmFork, has_netns)[i] is Capture,
    ensures
        take_plan(SnapshotType::WarmFork, has_netns)[0] is CheckReady,
        0 < i,
{
}

/// The network namespace of a continuation is kept alive before the continuation can
/// be found.
pub proof fn lemma_namespace_is_kept_first(i: int)
    requires
        0 <= i < take_plan(SnapshotType::Continuation, true).len(),
        take_plan(SnapshotType::Continuation, true)[i] is KeepInStore,
    ensures
        exists|k: int|
            0 <= k < i && (#[trigger] take_plan(SnapshotType::Continuation, true)[k])
                is PreserveNetns,
{
    assert(take_plan(SnapshotType::Continuation, true)[2] is PreserveNetns);
}

// ── What is captured ────────────────────────────────────────────────────────

/// `ids` and behind them those of `more` that are not there yet.
pub open spec fn with_new(ids: Seq<Seq<char>>, more: Seq<Seq<char>>) -> Seq<Seq<char>>
    decreases more.len(),
{
    if more.len() == 0 {
        ids
    } else {
        let before = with_new(ids, more.drop_last());
        if before.contains(more.last()) {
            before
        } else {
            before.push(more.last())
        }
    }
}

/// The texts of a list, and behind them those of another list that are not there yet.
fn extended(ids: Vec<String>, more: &Vec<String>) -> (r: Vec<String>)
    ensures
        texts(r@) == with_new(texts(ids@), texts(more@)),
{
    let ghost own = texts(ids@);
    let ghost all = texts(more@);
    let mut out = ids;
    let mut j: usize = 0;
    assert(all.take(0) =~= Seq::<Seq<char>>::empty());
    while j < more.len()
        invariant
            j <= more@.len(),
            all == texts(more@),
            texts(out@) == with_new(own, all.take(j as int)),
        decreases more.len() - j,
    {
        proof {
            assert(all.take(j + 1).drop_last() =~= all.take(j as int));
            assert(all.take(j + 1).last() == more@[j as int]@);
        }
        if !contains_text(&out, more[j].as_str()) {
            let ghost before = out@;
            out.push(more[j].clone());
            assert(texts(out@) =~= texts(before).push(more@[j as int]@));
        }
        j = j + 1;
    }
    assert(all.take(j as int) =~= all);
    out
}

/// The containers that a snapshot takes along: those that run, and those that came
/// with the snapshot that the sandbox itself was restored from. None comes twice.
pub fn orphan_ids(containers: &TextMap<KuasarContainer>, inherited: &Vec<String>) -> (r: Vec<
    String,
>)
    ensures
        texts(r@) == with_new(entry_keys(containers.listed()), texts(inherited@)),
        texts(r@).no_duplicates(),
        texts(r@).to_set() == containers@.dom().union(texts(inherited@).to_set()),
{
    let entries = containers.entries();
    let mut own: Vec<String> = Vec::new();
    let mut i: usize = 0;
    while i < entries.len()
        invariant
            i <= entries@.len(),
            own@.len() == i,
            forall|k: int| 0 <= k < i ==> (#[trigger] own@[k])@ == entries@[k].0@,
        decreases entries.len() - i,
    {
        own.push(entries[i].0.clone());
        i = i + 1;
    }
    assert(texts(own@) =~= entry_keys(entries@));
    let r = extended(own, inherited);
    proof {
        let keys = entry_keys(entries@);
        let more = texts(inherited@);
        lemma_keys(entries@);
        lemma_orphans_are_complete(keys, more, Seq::empty());
        assert forall|id: Seq<char>| texts(r@).to_set().contains(id) == containers@.dom().union(
            more.to_set(),
        ).contains(id) by {
            lemma_orphans_are_complete(keys, more, id);
            assert(keys.to_set().contains(id) == containers@.dom().contains(id));
        }
        assert(texts(r@).to_set() =~= containers@.dom().union(more.to_set()));
    }
    r
}

/// No container is lost and none comes twice.
pub proof fn lemma_orphans_are_complete(ids: Seq<Seq<char>>, more: Seq<Seq<char>>, id: Seq<char>)
    ensures
        with_new(ids, more).contains(id) <==> ids.contains(id) || more.contains(id),
        ids.no_duplicates() ==> with_new(ids, more).no_duplicates(),
    decreases more.len(),
{
    if more.len() > 0 {
        let init = more.drop_last();
        let last = more.last();
        lemma_orphans_are_complete(ids, init, id);
        lemma_orphans_are_complete(ids, init, last);
        let before = with_new(ids, init);
        let all = with_new(ids, more);
        assert(more[more.len() - 1] == last);
        if more.contains(id) {
            let k = choose|k: int| 0 <= k < more.len() && more[k] == id;
            if k < init.len() {
                assert(init[k] == id);
            }
        }
        if init.contains(id) {
            let k = choose|k: int| 0 <= k < init.len() && init[k] == id;
            assert(more[k] == id);
        }
        if !before.contains(last) {
            assert(all == before.push(last));
            if before.contains(id) {
                let k = choose|k: int| 0 <= k < before.len() && before[k] == id;
                assert(all[k] == id);
            }
            assert(all[before.len() as int] == last);
            if all.contains(id) {
                let k = choose|k: int| 0 <= k < all.len() && all[k] == id;
                if k < before.len() {
                    assert(before[k] == id);
                }
            }
            if ids.no_duplicates() {
                assert forall|a: int, b: int|
                    0 <= a < all.len() && 0 <= b < all.len() && a != b implies all[a] != all[b] by {
                    if a < before.len() && b < before.len() {
                        assert(before[a] != before[b]);
                    } else if a < before.len() {
                        assert(before.contains(before[a]));
                    } else {
                        assert(before.contains(before[b]));
                    }
                }
            }
        }
    } else {
        assert(!more.contains(id));
    }
}

/// What is there stays in front and in order; of what is added each comes behind what is
/// there by then, unless it is among that.
pub proof fn lemma_new_come_behind(
    ids: Seq<Seq<char>>,
    more: Seq<Seq<char>>,
    rest: Seq<Seq<char>>,
    id: Seq<char>,
)
    ensures
        ids.is_prefix_of(with_new(ids, more)),
        with_new(ids, more + rest) == with_new(with_new(ids, more), rest),
        with_new(ids, seq![id]) == (if ids.contains(id) {
            ids
        } else {
            ids.push(id)
        }),
        with_new(ids, Seq::empty()) == ids,
    decreases more.len() + rest.len(),
{
    assert(seq![id].drop_last() =~= Seq::<Seq<char>>::empty());
    assert(with_new(ids, Seq::empty()) == ids);
    if more.len() > 0 {
        lemma_new_come_behind(ids, more.drop_last(), Seq::empty(), id);
    }
    if rest.len() > 0 {
        lemma_new_come_behind(ids, more, rest.drop_last(), id);
        assert((more + rest).drop_last() =~= more + rest.drop_last());
        assert((more + rest).last() == rest.last());
    } else {
        assert(more + rest =~= more);
    }
}

/// A disk that is captured.
pub struct DiskSnapshot {
    pub storage_id: String,
    pub device_id: String,
    pub img_path: String,
}

/// The disk behind a storage, where an image was made for it.
pub open spec fn disk_of(s: Storage) -> Option<(Seq<char>, Seq<char>, Seq<char>)> {
    match (s.device_id, s.cleanup_path) {
        (Some(device), Some(path)) => if s.owned_by_runtime {
            Some((s.id@, device@, path@))
        } else {
            None
        },
        _ => None,
    }
}

/// The disks behind storages, in order.
pub open spec fn disks_of(storages: Seq<Storage>) -> Seq<(Seq<char>, Seq<char>, Seq<char>)>
    decreases storages.len(),
{
    if storages.len() == 0 {
        Seq::empty()
    } else {
        let before = disks_of(storages.drop_last());
        match disk_of(storages.last()) {
            Some(disk) => before.push(disk),
            None => before,
        }
    }
}

/// The disks that are captured are those of exactly the storages for which an image was
/// made and plugged in, wherever these stand: each with its own id, its own device and its
/// own image, in order, and nothing else.
pub proof fn lemma_every_owned_disk_is_captured(storages: Seq<Storage>)
    ensures
        ({
            let owned = |s: Storage|
                s.owned_by_runtime && s.device_id is Some && s.cleanup_path is Some;
            let told = |s: Storage| (s.id@, s.device_id->0@, s.cleanup_path->0@);
            let disks = disks_of(storages);
            &&& disks == storages.filter(owned).map_values(told)
            &&& disks.len() == storages.filter(owned).len()
            &&& forall|i: int|
                0 <= i < storages.len() && owned(#[trigger] storages[i]) ==> disks.contains(
                    told(storages[i]),
                )
            &&& forall|disk: (Seq<char>, Seq<char>, Seq<char>)| #[trigger]
                disks.contains(disk) ==> exists|i: int|
                    0 <= i < storages.len() && owned(#[trigger] storages[i]) && disk == told(
                        storages[i],
                    )
        }),
{
    let owned = |s: Storage| s.owned_by_runtime && s.device_id is Some && s.cleanup_path is Some;
    let told = |s: Storage| (s.id@, s.device_id->0@, s.cleanup_path->0@);
    lemma_disks_are_filtered(storages, owned, told);
}

proof fn lemma_disks_are_filtered(
    storages: Seq<Storage>,
    owned: spec_fn(Storage) -> bool,
    told: spec_fn(Storage) -> (Seq<char>, Seq<char>, Seq<char>),
)
    requires
        forall|s: Storage| #[trigger]
            owned(s) == (s.owned_by_runtime && s.device_id is Some && s.cleanup_path is Some),
        forall|s: Storage| #[trigger]
            told(s) == (s.id@, s.device_id->0@, s.cleanup_path->0@),
    ensures
        disks_of(storages) == storages.filter(owned).map_values(told),
        forall|i: int|
            0 <= i < storages.len() && owned(#[trigger] storages[i]) ==> disks_of(
                storages,
            ).contains(told(storages[i])),
        forall|disk: (Seq<char>, Seq<char>, Seq<char>)| #[trigger]
            disks_of(storages).contains(disk) ==> exists|i: int|
                0 <= i < storages.len() && owned(#[trigger] storages[i]) && disk == told(
                    storages[i],
                ),
    decreases storages.len(),
{
    let disks = disks_of(storages);
    reveal(Seq::filter);
    if storages.len() > 0 {
        let init = storages.drop_last();
        let before = disks_of(init);
        lemma_disks_are_filtered(init, owned, told);
        assert(storages.filter(owned).map_values(told) =~= disks);
        let end: int = storages.len() - 1;
        assert(storages[end] == storages.last());
        assert forall|i: int| 0 <= i < storages.len() && owned(
            #[trigger] storages[i],
        ) implies disks.contains(told(storages[i])) by {
            if i < end {
                assert(init[i] == storages[i]);
                let k = choose|k: int| 0 <= k < before.len() && before[k] == told(init[i]);
                assert(disks[k] == told(storages[i]));
            } else {
                assert(disks[before.len() as int] == told(storages[i]));
            }
        }
        assert forall|disk: (Seq<char>, Seq<char>, Seq<char>)| #[trigger]
            disks.contains(disk) implies exists|i: int|
            0 <= i < storages.len() && owned(#[trigger] storages[i]) && disk == told(
                storages[i],
            ) by {
            let k = choose|k: int| 0 <= k < disks.len() && disks[k] == disk;
            if k < before.len() {
                assert(before[k] == disk);
                assert(before.contains(disk));
                let i = choose|i: int|
                    0 <= i < init.len() && owned(#[trigger] init[i]) && disk == told(init[i]);
                assert(storages[i] == init[i]);
            } else {
                assert(owned(storages[end]) && disk == told(storages[end]));
            }
        }
    } else {
        assert(storages.filter(owned).map_values(told) =~= disks);
    }
}

/// What a list of disks says.
pub open spec fn disk_views(v: Seq<DiskSnapshot>) -> Seq<(Seq<char>, Seq<char>, Seq<char>)> {
    Seq::new(v.len(), |i: int| (v[i].storage_id@, v[i].device_id@, v[i].img_path@))
}

/// The disks that a snapshot captures: those behind storages for which an image
/// was made.
pub fn snapshot_disks(storages: &Vec<Storage>) -> (r: Vec<DiskSnapshot>)
    ensures
        disk_views(r@) == disks_of(storages@),
{
    let mut out: Vec<DiskSnapshot> = Vec::new();
    let mut i: usize = 0;
    assert(storages@.take(0) =~= Seq::<Storage>::empty());
    assert(disk_views(out@) =~= disks_of(storages@.take(0)));
    while i < storages.len()
        invariant
            i <= storages@.len(),
            disk_views(out@) == disks_of(storages@.take(i as int)),
        decreases storages.len() - i,
    {
        let s = &storages[i];
        proof {
            assert(storages@.take(i + 1).drop_last() =~= storages@.take(i as int));
            assert(storages@.take(i + 1).last() == *s);
        }
        if s.owned_by_runtime {
            if let (Some(device), Some(path)) = (&s.device_id, &s.cleanup_path) {
                let ghost before = out@;
                out.push(
                    DiskSnapshot {
                        storage_id: s.id.clone(),
                        device_id: device.clone(),
                        img_path: path.clone(),
                    },
                );
                assert(disk_views(out@) =~= disk_views(before).push((s.id@, device@, path@)));
            }
        }
        i = i + 1;
    }
    assert(storages@.take(i as int) =~= storages@);
    out
}

/// What is known of a captured container: which one, its layers, and its disk.
pub struct ContainerMetaView {
    pub id: Seq<char>,
    pub lower_dirs: Seq<Seq<char>>,
    pub disk: (Seq<char>, Seq<char>, Seq<char>),
}

/// What is known of a captured container.
pub open spec fn meta_view(m: SnapshotContainerMeta) -> ContainerMetaView {
    ContainerMetaView {
        id: m.id@,
        lower_dirs: texts(m.lower_dirs@),
        disk: (m.storage_id@, m.device_id@, m.img_path@),
    }
}

/// What is known of captured containers.
pub open spec fn meta_views(v: Seq<SnapshotContainerMeta>) -> Seq<ContainerMetaView> {
    Seq::new(v.len(), |i: int| meta_view(v[i]))
}

/// The layers of a storage.
pub open spec fn layers_of(s: Storage) -> Seq<Seq<char>> {
    match s.lower_dirs {
        Some(dirs) => texts(dirs@),
        None => Seq::empty(),
    }
}

/// What is known of the containers of a storage, one entry for each container.
pub open spec fn metas_of(s: Storage) -> Seq<ContainerMetaView> {
    match disk_of(s) {
        Some(disk) => {
            let ids = with_new(Seq::empty(), texts(s.ref_container@));
            Seq::new(
                ids.len(),
                |i: int| ContainerMetaView { id: ids[i], lower_dirs: layers_of(s), disk },
            )
        },
        None => Seq::empty(),
    }
}

/// What is known of the containers of storages.
pub open spec fn all_metas(storages: Seq<Storage>) -> Seq<ContainerMetaView>
    decreases storages.len(),
{
    if storages.len() == 0 {
        Seq::empty()
    } else {
        all_metas(storages.drop_last()) + metas_of(storages.last())
    }
}

/// Each storage for which an image was made is kept once for each container that uses it,
/// with the layers and the disk of this storage, in its place among the others; of any
/// other storage nothing is kept.
pub proof fn lemma_every_container_of_a_disk_is_kept(storages: Seq<Storage>, i: int, id: Seq<char>)
    requires
        0 <= i < storages.len(),
    ensures
        ({
            let s = storages[i];
            let own = all_metas(seq![s]);
            &&& all_metas(storages) == all_metas(storages.take(i)) + own + all_metas(
                storages.skip(i + 1),
            )
            &&& (exists|k: int| 0 <= k < own.len() && (#[trigger] own[k]).id == id)
                <==> s.owned_by_runtime && s.device_id is Some && s.cleanup_path is Some && texts(
                s.ref_container@,
            ).contains(id)
            &&& forall|k: int, j: int|
                0 <= k < own.len() && 0 <= j < own.len() && k != j ==> (#[trigger] own[k]).id != (
                #[trigger] own[j]).id
            &&& forall|k: int|
                0 <= k < own.len() ==> {
                    &&& (#[trigger] own[k]).disk == (s.id@, s.device_id->0@, s.cleanup_path->0@)
                    &&& s.lower_dirs is Some ==> own[k].lower_dirs == texts(s.lower_dirs->0@)
                    &&& s.lower_dirs is None ==> own[k].lower_dirs.len() == 0
                }
        }),
        all_metas(Seq::empty()).len() == 0,
{
    let s = storages[i];
    let own = all_metas(seq![s]);
    let ids = with_new(Seq::empty(), texts(s.ref_container@));
    assert(seq![s].drop_last() =~= Seq::<Storage>::empty());
    assert(all_metas(Seq::<Storage>::empty()) =~= Seq::<ContainerMetaView>::empty());
    assert(own =~= metas_of(s));
    lemma_metas_split(storages, i);
    lemma_orphans_are_complete(Seq::empty(), texts(s.ref_container@), id);
    assert(!Seq::<Seq<char>>::empty().contains(id));
    if disk_of(s) is Some {
        if ids.contains(id) {
            let k = choose|k: int| 0 <= k < ids.len() && ids[k] == id;
            assert(own[k].id == id);
        }
        if exists|k: int| 0 <= k < own.len() && (#[trigger] own[k]).id == id {
            let k = choose|k: int| 0 <= k < own.len() && (#[trigger] own[k]).id == id;
            assert(ids[k] == id);
        }
        assert forall|k: int, j: int| 0 <= k < own.len() && 0 <= j < own.len() && k != j implies (
        #[trigger] own[k]).id != (#[trigger] own[j]).id by {
            assert(ids[k] != ids[j]);
        }
    }
}

proof fn lemma_metas_split(storages: Seq<Storage>, i: int)
    requires
        0 <= i < storages.len(),
    ensures
        all_metas(storages) == all_metas(storages.take(i)) + metas_of(storages[i]) + all_metas(
            storages.skip(i + 1),
        ),
    decreases storages.len(),
{
    let init = storages.drop_last();
    if i == storages.len() - 1 {
        assert(storages.take(i) =~= init);
        assert(storages.skip(i + 1) =~= Seq::<Storage>::empty());
    } else {
        lemma_metas_split(init, i);
        assert(init.take(i) =~= storages.take(i));
        assert(storages.skip(i + 1).drop_last() =~= init.skip(i + 1));
        assert(storages.skip(i + 1).last() == storages.last());
    }
    assert(all_metas(storages) =~= all_metas(storages.take(i)) + metas_of(storages[i]) + all_metas(
        storages.skip(i + 1),
    ));
}

fn distinct(ids: &Vec<String>) -> (r: Vec<String>)
    ensures
        texts(r@) == with_new(Seq::empty(), texts(ids@)),
{
    let none: Vec<String> = Vec::new();
    assert(texts(none@) =~= Seq::<Seq<char>>::empty());
    extended(none, ids)
}

/// What a snapshot keeps of the containers whose layers it captures.
pub fn snapshot_containers(storages: &Vec<Storage>) -> (r: Vec<SnapshotContainerMeta>)
    ensures
        meta_views(r@) == all_metas(storages@),
{
    let mut out: Vec<SnapshotContainerMeta> = Vec::new();
    let mut i: usize = 0;
    assert(storages@.take(0) =~= Seq::<Storage>::empty());
    assert(meta_views(out@) =~= all_metas(storages@.take(0)));
    while i < storages.len()
        invariant
            i <= storages@.len(),
            meta_views(out@) == all_metas(storages@.take(i as int)),
        decreases storages.len() - i,
    {
        let s = &storages[i];
        proof {
            assert(storages@.take(i + 1).drop_last() =~= storages@.take(i as int));
            assert(storages@.take(i + 1).last() == *s);
        }
        let ghost head = meta_views(out@);
        let mut added: bool = false;
        if s.owned_by_runtime {
            if let (Some(device), Some(path)) = (&s.device_id, &s.cleanup_path) {
                added = true;
                let ghost disk = (s.id@, device@, path@);
                let ids = distinct(&s.ref_container);
                let mut k: usize = 0;
                let ghost metas = metas_of(*s);
                assert(metas.len() == ids@.len()) by {
                    assert(texts(ids@).len() == ids@.len());
                }
                assert(head + metas.take(0) =~= head);
                while k < ids.len()
                    invariant
                        k <= ids@.len(),
                        texts(ids@) == with_new(Seq::empty(), texts(s.ref_container@)),
                        metas == metas_of(*s),
                        metas.len() == ids@.len(),
                        disk == (s.id@, device@, path@),
                        disk_of(*s) == Some(disk),
                        meta_views(out@) == head + metas.take(k as int),
                    decreases ids.len() - k,
                {
                    let lower_dirs = match &s.lower_dirs {
                        Some(dirs) => copy_texts(dirs),
                        None => Vec::new(),
                    };
                    assert(texts(lower_dirs@) =~= layers_of(*s));
                    let ghost before = out@;
                    let meta = SnapshotContainerMeta {
                        id: ids[k].clone(),
                        lower_dirs,
                        storage_id: s.id.clone(),
                        device_id: device.clone(),
                        img_path: path.clone(),
                    };
                    proof {
                        assert(texts(ids@)[k as int] == ids@[k as int]@);
                        assert(meta_view(meta) == metas[k as int]);
                        assert(metas.take(k + 1) =~= metas.take(k as int).push(metas[k as int]));
                    }
                    out.push(meta);
                    assert(meta_views(out@) =~= meta_views(before).push(metas[k as int]));
                    assert(meta_views(out@) =~= head + metas.take(k + 1));
                    k = k + 1;
                }
                assert(metas.take(k as int) =~= metas);
            }
        }
        if !added {
            assert(metas_of(*s) =~= Seq::<ContainerMetaView>::empty());
            assert(head + metas_of(*s) =~= head);
        }
        i = i + 1;
    }
    assert(storages@.take(i as int) =~= storages@);
    out
}

// ── What it is kept as ──────────────────────────────────────────────────────

/// Where the network namespace of a continuation is kept alive, so that it outlives
/// the pod. One without a namespace has nothing to keep.
pub fn preserved_netns(entry_dir: &str, netns: &str) -> (r: Option<String>)
    ensures
        match r {
            Some(path) => netns@.len() > 0 && path@ == path_join(entry_dir@, "preserved_netns"@),
            None => netns@.len() == 0,
        },
{
    if netns.is_empty() {
        None
    } else {
        Some(join_path(entry_dir, "preserved_netns"))
    }
}

/// The network namespace that a snapshot is kept with.
pub open spec fn kept_netns(
    snapshot_type: SnapshotType,
    own: Seq<char>,
    preserved: Option<Seq<char>>,
) -> Seq<char> {
    if !(snapshot_type is Continuation) {
        own
    } else {
        match preserved {
            Some(path) => path,
            None => Seq::empty(),
        }
    }
}

/// A continuation is kept with the namespace that was kept alive for it, and never with
/// that of the pod, which ends with the pod; a template is kept with that of its sandbox.
pub proof fn lemma_namespace_outlives_the_pod(
    snapshot_type: SnapshotType,
    own: Seq<char>,
    other: Seq<char>,
    preserved: Option<Seq<char>>,
)
    ensures
        snapshot_type is Continuation ==> kept_netns(snapshot_type, own, preserved) == kept_netns(
            snapshot_type,
            other,
            preserved,
        ),
        snapshot_type is Continuation && preserved is Some ==> kept_netns(
            snapshot_type,
            own,
            preserved,
        ) == preserved->0,
        snapshot_type is Continuation && preserved is None ==> kept_netns(
            snapshot_type,
            own,
            preserved,
        ).len() == 0,
        !(snapshot_type is Continuation) ==> kept_netns(snapshot_type, own, preserved) == own,
{
}

/// What a snapshot of a running sandbox is kept as: under the id and the key that
/// were asked for, with the storages of the sandbox. `meta` is what the hypervisor
/// wrote, `boot` what the guest was booted with, and `preserved` is where the network
/// namespace of a continuation is kept alive.
pub fn describe_snapshot(
    sandbox: &KuasarSandbox,
    request: SnapshotRequest,
    ready: Option<(String, Vec<ReadyTarget>)>,
    meta: SnapshotMeta,
    boot: BootSettings,
    created_at_secs: u64,
    preserved: Option<String>,
) -> (r: PooledTemplate)
    ensures
        r.id@ == request.template_id@,
        r.key.key@ == request.key@,
        r.created_at_secs == created_at_secs,
        r.snapshot_dir == meta.snapshot_dir,
        r.pmem_path == boot.image_path,
        r.kernel_path == boot.kernel_path,
        r.vcpus == boot.vcpus,
        r.memory_mb == boot.memory_mb,
        r.original_task_vsock == meta.original_task_vsock,
        r.original_console_path == meta.original_console_path,
        r.snapshot_type == request.snapshot_type,
        match ready {
            Some((version, targets)) => r.ready_protocol_version == Some(version)
                && r.warm_fork_targets == targets,
            None => r.ready_protocol_version is None && r.warm_fork_targets@.len() == 0,
        },
        r.workload_identity == request.identity,
        r.id_generator == sandbox.id_generator,
        !r.ns_preinitialized,
        r.disk_images == meta.disk_images,
        storage_views(r.storages@) == storage_views(sandbox.storages@),
        texts(r.orphan_container_ids@) == with_new(
            entry_keys(sandbox.containers.listed()),
            texts(sandbox.orphan_container_ids@),
        ),
        texts(r.orphan_container_ids@).no_duplicates(),
        texts(r.orphan_container_ids@).to_set() == sandbox.containers@.dom().union(
            texts(sandbox.orphan_container_ids@).to_set(),
        ),
        meta_views(r.snapshot_containers@) == all_metas(sandbox.storages@),
        r.netns@ == kept_netns(
            request.snapshot_type,
            sandbox.data.netns@,
            opt_text(preserved),
        ),
{
    proof {
        reveal_strlit("");
        assert(""@ =~= Seq::<char>::empty());
    }
    let (version, targets) = match ready {
        Some((version, targets)) => (Some(version), targets),
        None => (None, Vec::new()),
    };
    let paths = SnapshotMeta {
        snapshot_dir: meta.snapshot_dir,
        original_task_vsock: meta.original_task_vsock,
        original_console_path: meta.original_console_path,
        disk_images: Vec::new(),
    };
    let key = TemplateKey::user(request.key.as_str());
    let mut template = PooledTemplate::new(
        request.template_id.as_str(),
        key,
        paths,
        boot,
        created_at_secs,
    );
    template.snapshot_type = request.snapshot_type;
    template.ready_protocol_version = version;
    template.warm_fork_targets = targets;
    template.workload_identity = request.identity;
    template.id_generator = sandbox.id_generator;
    template.disk_images = meta.disk_images;
    template.storages = copy_storages(&sandbox.storages);
    template.orphan_container_ids = orphan_ids(&sandbox.containers, &sandbox.orphan_container_ids);
    template.snapshot_containers = snapshot_containers(&sandbox.storages);
    template.netns = if matches!(request.snapshot_type, SnapshotType::Continuation) {
        match preserved {
            Some(path) => path,
            None => "".to_owned(),
        }
    } else {
        sandbox.data.netns.clone()
    };
    template
}

} // verus!
