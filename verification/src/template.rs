//! Templates: what a snapshot is for and how it is found.

use crate::storage::Storage;
use crate::text::{
    concat3, decimal, is_digit, lemma_decimal_injective, lemma_decimal_is_digits,
    lemma_split_at_separator, lemma_unsplit, pieces, same, u64_to_string,
};
use vstd::prelude::*;

verus! {

/// What kind of snapshot a pod wants to be started from.
pub const SNAPSHOT_TYPE_ANNOTATION: &'static str = "kuasar.io/snapshot-type";

/// The template that a pod wants to be started from.
pub const TEMPLATE_ID_ANNOTATION: &'static str = "kuasar.io/template-id";

/// The key of the templates that a pod wants to be started from.
pub const TEMPLATE_KEY_ANNOTATION: &'static str = "kuasar.io/template-key";

/// The pod whose workload is to be continued.
pub const POD_UID_ANNOTATION: &'static str = "kuasar.io/pod-uid";

/// Which life of the workload is to be continued.
pub const WORKLOAD_GENERATION_ANNOTATION: &'static str = "kuasar.io/workload-generation";

/// What a snapshot captures.
#[derive(Clone, Copy, Debug, PartialEq, Eq, Structural)]
pub enum SnapshotType {
    /// A booted guest without workload and without network.
    Environment,
    /// A guest whose workload is warmed up and waits for a task.
    WarmFork,
    /// A running workload, to be continued where it stopped.
    Continuation,
}

/// The snapshot type that an annotation names.
pub open spec fn annotated_type(value: Seq<char>) -> Option<SnapshotType> {
    if value == "environment"@ {
        Some(SnapshotType::Environment)
    } else if value == "warm-fork"@ {
        Some(SnapshotType::WarmFork)
    } else if value == "continuation"@ {
        Some(SnapshotType::Continuation)
    } else {
        None
    }
}

/// Each type has one name, and nothing else names a type.
pub proof fn lemma_types_have_one_name(value: Seq<char>)
    ensures
        annotated_type(value) == Some(SnapshotType::Environment) <==> value == "environment"@,
        annotated_type(value) == Some(SnapshotType::WarmFork) <==> value == "warm-fork"@,
        annotated_type(value) == Some(SnapshotType::Continuation) <==> value == "continuation"@,
{
    reveal_strlit("environment");
    reveal_strlit("warm-fork");
    reveal_strlit("continuation");
    assert("environment"@.len() == 11 && "warm-fork"@.len() == 9 && "continuation"@.len() == 12);
}

impl SnapshotType {
    /// Whether a restored guest gets its network devices by hot-plug.
    pub fn requires_network_hotplug(&self) -> (r: bool)
        ensures
            r == (*self is Environment),
    {
        matches!(self, SnapshotType::Environment)
    }

    /// The snapshot type that an annotation names.
    pub fn from_annotation(value: &str) -> (r: Option<SnapshotType>)
        ensures
            r == annotated_type(value@),
    {
        if same(value, "environment") {
            Some(SnapshotType::Environment)
        } else if same(value, "warm-fork") {
            Some(SnapshotType::WarmFork)
        } else if same(value, "continuation") {
            Some(SnapshotType::Continuation)
        } else {
            None
        }
    }
}

/// One life of a workload.
#[derive(Debug)]
pub struct WorkloadIdentity {
    pub pod_uid: String,
    pub generation: u64,
}

/// What a workload identity says.
pub open spec fn identity_view(i: WorkloadIdentity) -> (Seq<char>, u64) {
    (i.pod_uid@, i.generation)
}

/// What a workload identity says, where there is one.
pub open spec fn opt_identity_view(i: Option<WorkloadIdentity>) -> Option<(Seq<char>, u64)> {
    match i {
        Some(i) => Some(identity_view(i)),
        None => None,
    }
}

/// The key under which the continuation of a workload is kept.
pub open spec fn workload_key(pod_uid: Seq<char>, generation: nat) -> Seq<char> {
    pod_uid + ":"@ + decimal(generation)
}

/// The key under which templates are found.
#[derive(Debug)]
pub struct TemplateKey {
    pub key: String,
}

impl TemplateKey {
    /// A key that a user chose.
    pub fn user(key: &str) -> (r: TemplateKey)
        ensures
            r.key@ == key@,
    {
        TemplateKey { key: key.to_owned() }
    }

    /// The key under which the continuation of a workload is kept. It holds the
    /// generation, so that a later life does not take up an earlier one.
    pub fn from_workload_identity(pod_uid: &str, generation: u64) -> (r: TemplateKey)
        ensures
            r.key@ == workload_key(pod_uid@, generation as nat),
    {
        let number = u64_to_string(generation);
        TemplateKey { key: concat3(pod_uid, ":", number.as_str()) }
    }

    /// The key of guests that are booted from the same settings.
    pub fn from_vm_config(
        kernel_path: &str,
        image_path: &str,
        vcpus: u32,
        memory_mb: u32,
        kernel_params: &str,
        storage_backend: &str,
    ) -> (r: TemplateKey)
        ensures
            r.key@ == environment_key_text(
                kernel_path@,
                image_path@,
                vcpus,
                memory_mb,
                kernel_params@,
                storage_backend@,
            ),
    {
        let mut key = kernel_path.to_owned();
        key.append("|");
        key.append(image_path);
        key.append("|");
        key.append(u64_to_string(vcpus as u64).as_str());
        key.append("|");
        key.append(u64_to_string(memory_mb as u64).as_str());
        key.append("|");
        key.append(kernel_params);
        key.append("|");
        key.append(storage_backend);
        TemplateKey { key }
    }
}

proof fn lemma_split_at_last_colon(a: Seq<char>, m: Seq<char>, b: Seq<char>, n: Seq<char>)
    requires
        a.push(':') + m == b.push(':') + n,
        forall|i: int| 0 <= i < m.len() ==> is_digit(#[trigger] m[i]),
        forall|i: int| 0 <= i < n.len() ==> is_digit(#[trigger] n[i]),
    ensures
        a == b,
        m == n,
{
    let x = a.push(':') + m;
    let y = b.push(':') + n;
    assert(x.len() == a.len() + 1 + m.len());
    assert(y.len() == b.len() + 1 + n.len());
    assert(x[a.len() as int] == ':');
    assert(y[b.len() as int] == ':');
    assert(a.len() == b.len()) by {
        if a.len() < b.len() {
            assert(x[b.len() as int] == m[b.len() - a.len() - 1]);
            assert(is_digit(m[b.len() - a.len() - 1]));
        }
        if b.len() < a.len() {
            assert(y[a.len() as int] == n[a.len() - b.len() - 1]);
            assert(is_digit(n[a.len() - b.len() - 1]));
        }
    }
    assert(a =~= b) by {
        assert forall|i: int| 0 <= i < a.len() implies a[i] == b[i] by {
            assert(x[i] == a[i] && y[i] == b[i]);
        }
    }
    assert(m =~= n) by {
        assert forall|i: int| 0 <= i < m.len() implies m[i] == n[i] by {
            assert(x[a.len() + 1 + i] == m[i] && y[b.len() + 1 + i] == n[i]);
        }
    }
}

/// Two workloads, or two lives of one, never share a key.
pub proof fn lemma_workload_key_is_unique(
    pod_a: Seq<char>,
    gen_a: nat,
    pod_b: Seq<char>,
    gen_b: nat,
)
    requires
        workload_key(pod_a, gen_a) == workload_key(pod_b, gen_b),
    ensures
        pod_a == pod_b,
        gen_a == gen_b,
{
    reveal_strlit(":");
    lemma_decimal_is_digits(gen_a);
    lemma_decimal_is_digits(gen_b);
    assert(pod_a + ":"@ =~= pod_a.push(':'));
    assert(pod_b + ":"@ =~= pod_b.push(':'));
    lemma_split_at_last_colon(pod_a, decimal(gen_a), pod_b, decimal(gen_b));
    lemma_decimal_injective(gen_a, gen_b);
}

/// The settings that make two booted guests interchangeable, one after the other.
pub open spec fn environment_key_text(
    kernel_path: Seq<char>,
    image_path: Seq<char>,
    vcpus: u32,
    memory_mb: u32,
    kernel_params: Seq<char>,
    storage_backend: Seq<char>,
) -> Seq<char> {
    kernel_path + "|"@ + image_path + "|"@ + decimal(vcpus as nat) + "|"@ + decimal(
        memory_mb as nat,
    ) + "|"@ + kernel_params + "|"@ + storage_backend
}

proof fn lemma_environment_key_pieces(
    kernel_path: Seq<char>,
    image_path: Seq<char>,
    vcpus: u32,
    memory_mb: u32,
    kernel_params: Seq<char>,
    storage_backend: Seq<char>,
)
    requires
        !kernel_path.contains('|'),
        !image_path.contains('|'),
        !kernel_params.contains('|'),
        !storage_backend.contains('|'),
    ensures
        pieces(
            environment_key_text(
                kernel_path,
                image_path,
                vcpus,
                memory_mb,
                kernel_params,
                storage_backend,
            ),
            '|',
        ) == seq![
            kernel_path,
            image_path,
            decimal(vcpus as nat),
            decimal(memory_mb as nat),
            kernel_params,
            storage_backend,
        ],
{
    reveal_strlit("|");
    assert("|"@ =~= seq!['|']);
    lemma_decimal_is_digits(vcpus as nat);
    lemma_decimal_is_digits(memory_mb as nat);
    let a = kernel_path;
    let b = a + seq!['|'] + image_path;
    let c = b + seq!['|'] + decimal(vcpus as nat);
    let d = c + seq!['|'] + decimal(memory_mb as nat);
    let e = d + seq!['|'] + kernel_params;
    let f = e + seq!['|'] + storage_backend;
    lemma_unsplit(a, '|');
    lemma_unsplit(image_path, '|');
    lemma_unsplit(decimal(vcpus as nat), '|');
    lemma_unsplit(decimal(memory_mb as nat), '|');
    lemma_unsplit(kernel_params, '|');
    lemma_unsplit(storage_backend, '|');
    lemma_split_at_separator(a, image_path, '|');
    lemma_split_at_separator(b, decimal(vcpus as nat), '|');
    lemma_split_at_separator(c, decimal(memory_mb as nat), '|');
    lemma_split_at_separator(d, kernel_params, '|');
    lemma_split_at_separator(e, storage_backend, '|');
    assert(pieces(f, '|') =~= seq![
        kernel_path,
        image_path,
        decimal(vcpus as nat),
        decimal(memory_mb as nat),
        kernel_params,
        storage_backend,
    ]);
}

/// Two factories share templates exactly where they boot the same guests: with the same
/// kernel, image, processors, memory, kernel parameters and storage.
pub proof fn lemma_same_key_means_same_guest(a: FactorySettings, b: FactorySettings)
    requires
        !a.boot.kernel_path@.contains('|') && !b.boot.kernel_path@.contains('|'),
        !a.boot.image_path@.contains('|') && !b.boot.image_path@.contains('|'),
        !a.kernel_params@.contains('|') && !b.kernel_params@.contains('|'),
        !a.storage_backend@.contains('|') && !b.storage_backend@.contains('|'),
    ensures
        factory_key(a) == factory_key(b) <==> {
            &&& a.boot.kernel_path@ == b.boot.kernel_path@
            &&& a.boot.image_path@ == b.boot.image_path@
            &&& a.boot.vcpus == b.boot.vcpus
            &&& a.boot.memory_mb == b.boot.memory_mb
            &&& a.kernel_params@ == b.kernel_params@
            &&& a.storage_backend@ == b.storage_backend@
        },
{
    lemma_environment_key_pieces(
        a.boot.kernel_path@,
        a.boot.image_path@,
        a.boot.vcpus,
        a.boot.memory_mb,
        a.kernel_params@,
        a.storage_backend@,
    );
    lemma_environment_key_pieces(
        b.boot.kernel_path@,
        b.boot.image_path@,
        b.boot.vcpus,
        b.boot.memory_mb,
        b.kernel_params@,
        b.storage_backend@,
    );
    if factory_key(a) == factory_key(b) {
        let p = pieces(factory_key(a), '|');
        assert(p[0] == a.boot.kernel_path@ && p[0] == b.boot.kernel_path@);
        assert(p[1] == a.boot.image_path@ && p[1] == b.boot.image_path@);
        assert(p[2] == decimal(a.boot.vcpus as nat) && p[2] == decimal(b.boot.vcpus as nat));
        assert(p[3] == decimal(a.boot.memory_mb as nat) && p[3] == decimal(
            b.boot.memory_mb as nat,
        ));
        assert(p[4] == a.kernel_params@ && p[4] == b.kernel_params@);
        assert(p[5] == a.storage_backend@ && p[5] == b.storage_backend@);
        lemma_decimal_injective(a.boot.vcpus as nat, b.boot.vcpus as nat);
        lemma_decimal_injective(a.boot.memory_mb as nat, b.boot.memory_mb as nat);
    }
}

/// A container of a snapshot that waits for its task.
#[derive(Debug)]
pub struct ReadyTarget {
    pub container_name: String,
    pub container_id: String,
    pub socket_path: String,
}

/// A disk that was captured with a snapshot.
pub struct DiskImageEntry {
    pub storage_id: String,
    pub device_id: String,
    pub filename: String,
}

/// A container whose layers were captured with a snapshot.
pub struct SnapshotContainerMeta {
    pub id: String,
    pub lower_dirs: Vec<String>,
    pub storage_id: String,
    pub device_id: String,
    pub img_path: String,
}

/// A snapshot that sandboxes can be restored from.
pub struct PooledTemplate {
    pub id: String,
    pub key: TemplateKey,
    pub snapshot_type: SnapshotType,
    pub created_at_secs: u64,
    pub snapshot_dir: String,
    /// The image that the guest was booted from.
    pub pmem_path: String,
    pub kernel_path: String,
    pub vcpus: u32,
    pub memory_mb: u32,
    /// The number of ids that the sandbox of the snapshot had given out.
    pub id_generator: u32,
    /// Whether the namespaces of the guest are set up already.
    pub ns_preinitialized: bool,
    pub original_task_vsock: String,
    pub original_console_path: String,
    /// The protocol that the waiting workload speaks, where it waits for a task.
    pub ready_protocol_version: Option<String>,
    pub warm_fork_targets: Vec<ReadyTarget>,
    pub disk_images: Vec<DiskImageEntry>,
    pub storages: Vec<Storage>,
    pub snapshot_containers: Vec<SnapshotContainerMeta>,
    pub orphan_container_ids: Vec<String>,
    pub netns: String,
    pub workload_identity: Option<WorkloadIdentity>,
}

/// Whether a template captures no workload and has no network.
pub open spec fn bare_template(t: PooledTemplate) -> bool {
    &&& t.snapshot_type is Environment
    &&& t.id_generator == 0
    &&& !t.ns_preinitialized
    &&& t.ready_protocol_version is None
    &&& t.warm_fork_targets@.len() == 0
    &&& t.disk_images@.len() == 0
    &&& t.storages@.len() == 0
    &&& t.snapshot_containers@.len() == 0
    &&& t.orphan_container_ids@.len() == 0
    &&& t.netns@.len() == 0
    &&& t.workload_identity is None
}

/// A template of a booted guest captures no workload: nobody waits for a task in it, it
/// brings no disks, storages or containers along, has no network, and has given out no ids.
pub proof fn lemma_bare_template_captures_no_workload(t: PooledTemplate)
    requires
        bare_template(t),
    ensures
        t.snapshot_type is Environment && t.workload_identity is None,
        t.ready_protocol_version is None && t.warm_fork_targets@.len() == 0,
        t.disk_images@.len() + t.storages@.len() + t.snapshot_containers@.len()
            + t.orphan_container_ids@.len() == 0,
        t.netns@.len() == 0 && t.id_generator == 0 && !t.ns_preinitialized,
{
}

/// The settings that a guest was booted with.
pub struct BootSettings {
    pub image_path: String,
    pub kernel_path: String,
    pub vcpus: u32,
    pub memory_mb: u32,
}

/// Where a snapshot was written, and the paths that it holds.
pub struct SnapshotMeta {
    pub snapshot_dir: String,
    pub original_task_vsock: String,
    pub original_console_path: String,
    pub disk_images: Vec<DiskImageEntry>,
}

/// The settings of the factory that boots guests.
pub struct FactorySettings {
    pub boot: BootSettings,
    pub kernel_params: String,
    pub storage_backend: String,
}

/// The key of the guests that a factory boots.
pub open spec fn factory_key(factory: FactorySettings) -> Seq<char> {
    environment_key_text(
        factory.boot.kernel_path@,
        factory.boot.image_path@,
        factory.boot.vcpus,
        factory.boot.memory_mb,
        factory.kernel_params@,
        factory.storage_backend@,
    )
}

impl FactorySettings {
    /// The key of the guests that this factory boots: a sandbox that starts with it
    /// finds the templates that were made with it.
    pub fn environment_key(&self) -> (r: TemplateKey)
        ensures
            r.key@ == factory_key(*self),
    {
        TemplateKey::from_vm_config(
            self.boot.kernel_path.as_str(),
            self.boot.image_path.as_str(),
            self.boot.vcpus,
            self.boot.memory_mb,
            self.kernel_params.as_str(),
            self.storage_backend.as_str(),
        )
    }

    /// The template of a guest that this factory booted.
    pub fn environment_template(
        self,
        id: &str,
        meta: SnapshotMeta,
        created_at_secs: u64,
    ) -> (r: PooledTemplate)
        ensures
            r.id@ == id@,
            r.key.key@ == factory_key(self),
            r.created_at_secs == created_at_secs,
            r.snapshot_dir == meta.snapshot_dir,
            r.pmem_path == self.boot.image_path,
            r.kernel_path == self.boot.kernel_path,
            r.vcpus == self.boot.vcpus,
            r.memory_mb == self.boot.memory_mb,
            r.original_task_vsock == meta.original_task_vsock,
            r.original_console_path == meta.original_console_path,
            bare_template(r),
    {
        let key = self.environment_key();
        PooledTemplate::new(id, key, meta, self.boot, created_at_secs)
    }
}

impl PooledTemplate {
    /// A template of a booted guest.
    pub fn new(
        id: &str,
        key: TemplateKey,
        meta: SnapshotMeta,
        boot: BootSettings,
        created_at_secs: u64,
    ) -> (r: Self)
        ensures
            r.id@ == id@,
            r.key == key,
            r.created_at_secs == created_at_secs,
            r.snapshot_dir == meta.snapshot_dir,
            r.pmem_path == boot.image_path,
            r.kernel_path == boot.kernel_path,
            r.vcpus == boot.vcpus,
            r.memory_mb == boot.memory_mb,
            r.original_task_vsock == meta.original_task_vsock,
            r.original_console_path == meta.original_console_path,
            bare_template(r),
    {
        proof {
            reveal_strlit("");
        }
        PooledTemplate {
            id: id.to_owned(),
            key,
            snapshot_type: SnapshotType::Environment,
            created_at_secs,
            snapshot_dir: meta.snapshot_dir,
            pmem_path: boot.image_path,
            kernel_path: boot.kernel_path,
            vcpus: boot.vcpus,
            memory_mb: boot.memory_mb,
            id_generator: 0,
            ns_preinitialized: false,
            original_task_vsock: meta.original_task_vsock,
            original_console_path: meta.original_console_path,
            ready_protocol_version: None,
            warm_fork_targets: Vec::new(),
            disk_images: Vec::new(),
            storages: Vec::new(),
            snapshot_containers: Vec::new(),
            orphan_container_ids: Vec::new(),
            netns: "".to_owned(),
            workload_identity: None,
        }
    }
}

} // verus!
