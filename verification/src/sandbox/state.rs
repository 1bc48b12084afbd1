//! What is kept of a sandbox.

use crate::cloud_hypervisor::vm::SHARED_DIR_SUFFIX;
use crate::sandbox::config::{MemoryRestoreMode, TemplateLeaseMode};
use crate::sandbox::data::SandboxData;
use crate::storage::Storage;
use crate::template::SnapshotType;
use crate::text::{concat, concat3, decimal, lemma_decimal_injective, u64_to_string};
use crate::text_map::TextMap;
use vstd::prelude::*;

verus! {

/// The life of a sandbox.
#[derive(Clone, Copy, Debug, PartialEq, Eq, Structural)]
pub enum SandboxStatus {
    /// It was never started.
    Created,
    /// The hypervisor runs under the given process id.
    Running(u32),
    /// It ended with the given code at the given time.
    Stopped(u32, i128),
    /// It was put aside as a snapshot.
    Paused,
}

/// A container of a sandbox.
pub struct KuasarContainer {
    pub id: String,
    /// The name that the pod gives it, where it is known.
    pub name: Option<String>,
    pub io_devices: Vec<String>,
}

/// A sandbox.
pub struct KuasarSandbox {
    pub id: String,
    pub status: SandboxStatus,
    pub base_dir: String,
    pub data: SandboxData,
    /// The containers, by their ids.
    pub containers: TextMap<KuasarContainer>,
    pub storages: Vec<Storage>,
    /// How many ids were given out.
    pub id_generator: u32,
    /// The template that this sandbox was restored from.
    pub template_id: Option<String>,
    pub template_key: Option<String>,
    pub template_snapshot_type: Option<SnapshotType>,
    pub lease_mode: Option<TemplateLeaseMode>,
    pub reflink_supported: Option<bool>,
    pub memory_restore_mode: Option<MemoryRestoreMode>,
    /// Containers that ran when the snapshot was taken.
    pub orphan_container_ids: Vec<String>,
}

/// Whether two states of a sandbox differ at most in its storages and in the
/// number of ids that were given out.
pub open spec fn same_but_storages(a: KuasarSandbox, b: KuasarSandbox) -> bool {
    &&& a.id == b.id
    &&& a.status == b.status
    &&& a.base_dir == b.base_dir
    &&& a.data == b.data
    &&& a.containers == b.containers
    &&& a.template_id == b.template_id
    &&& a.template_key == b.template_key
    &&& a.template_snapshot_type == b.template_snapshot_type
    &&& a.lease_mode == b.lease_mode
    &&& a.reflink_supported == b.reflink_supported
    &&& a.memory_restore_mode == b.memory_restore_mode
    &&& a.orphan_container_ids == b.orphan_container_ids
}

/// Whether a sandbox knows nothing of a template.
pub open spec fn forgot_template(s: KuasarSandbox) -> bool {
    &&& s.template_id is None
    &&& s.template_snapshot_type is None
    &&& s.lease_mode is None
    &&& s.reflink_supported is None
    &&& s.memory_restore_mode is None
}

/// Whether two states of a sandbox differ at most in what they say of a template.
pub open spec fn same_but_template(a: KuasarSandbox, b: KuasarSandbox) -> bool {
    &&& a.id == b.id
    &&& a.status == b.status
    &&& a.base_dir == b.base_dir
    &&& a.data == b.data
    &&& a.containers == b.containers
    &&& a.storages == b.storages
    &&& a.id_generator == b.id_generator
    &&& a.template_key == b.template_key
    &&& a.orphan_container_ids == b.orphan_container_ids
}

/// What is done to the storages of a sandbox, or to what it knows of its template, leaves
/// everything else of it as it was.
pub proof fn lemma_all_else_is_kept(a: KuasarSandbox, b: KuasarSandbox)
    ensures
        same_but_storages(a, b) <==> a == (KuasarSandbox {
            storages: a.storages,
            id_generator: a.id_generator,
            ..b
        }),
        same_but_template(a, b) <==> a == (KuasarSandbox {
            template_id: a.template_id,
            template_snapshot_type: a.template_snapshot_type,
            lease_mode: a.lease_mode,
            reflink_supported: a.reflink_supported,
            memory_restore_mode: a.memory_restore_mode,
            ..b
        }),
        forgot_template(a) && same_but_template(a, b) ==> a == (KuasarSandbox {
            template_id: None,
            template_snapshot_type: None,
            lease_mode: None,
            reflink_supported: None,
            memory_restore_mode: None,
            ..b
        }),
{
}

impl KuasarSandbox {
    /// A sandbox that was never started.
    pub fn new(id: &str, base_dir: &str, data: SandboxData) -> (r: Self)
        ensures
            r.id@ == id@,
            r.status is Created,
            r.base_dir@ == base_dir@,
            r.data == data,
            r.containers@ == Map::<Seq<char>, KuasarContainer>::empty(),
            r.storages@.len() == 0,
            r.id_generator == 0,
            r.template_key is None,
            r.orphan_container_ids@.len() == 0,
            forgot_template(r),
    {
        KuasarSandbox {
            id: id.to_owned(),
            status: SandboxStatus::Created,
            base_dir: base_dir.to_owned(),
            data,
            containers: TextMap::new(),
            storages: Vec::new(),
            id_generator: 0,
            template_id: None,
            template_key: None,
            template_snapshot_type: None,
            lease_mode: None,
            reflink_supported: None,
            memory_restore_mode: None,
            orphan_container_ids: Vec::new(),
        }
    }

    /// Gives out the next id.
    pub fn increment_and_get_id(&mut self) -> (r: u32)
        requires
            old(self).id_generator < u32::MAX,
        ensures
            r == old(self).id_generator + 1,
            final(self).id_generator == r,
            same_but_storages(*final(self), *old(self)),
            final(self).storages == old(self).storages,
    {
        self.id_generator = self.id_generator + 1;
        self.id_generator
    }

    /// The directory that the guest sees.
    pub fn get_sandbox_shared_path(&self) -> (r: String)
        ensures
            r@ == self.base_dir@ + "/"@ + SHARED_DIR_SUFFIX@,
    {
        concat3(self.base_dir.as_str(), "/", SHARED_DIR_SUFFIX)
    }

    /// Forgets the template.
    pub fn clear_template_restore_state(&mut self)
        ensures
            forgot_template(*final(self)),
            same_but_template(*final(self), *old(self)),
    {
        self.template_id = None;
        self.template_snapshot_type = None;
        self.lease_mode = None;
        self.reflink_supported = None;
        self.memory_restore_mode = None;
    }
}

/// The name that goes with an id: what it is for, and its number.
pub open spec fn numbered(what: Seq<char>, n: nat) -> Seq<char> {
    what + decimal(n)
}

/// The name that goes with an id.
pub fn numbered_name(what: &str, n: u32) -> (r: String)
    ensures
        r@ == numbered(what@, n as nat),
{
    let number = u64_to_string(n as u64);
    concat(what, number.as_str())
}

/// Two names for one purpose are the same only where their numbers are: an id
/// that was given out does not come again as long as the number grows.
pub proof fn lemma_numbered_names_differ(what: Seq<char>, m: nat, n: nat)
    requires
        numbered(what, m) == numbered(what, n),
    ensures
        m == n,
{
    assert(numbered(what, m).skip(what.len() as int) =~= decimal(m));
    assert(numbered(what, n).skip(what.len() as int) =~= decimal(n));
    lemma_decimal_injective(m, n);
}

} // verus!
