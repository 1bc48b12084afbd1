//! Storages: what a sandbox makes of the mounts of its containers.

pub mod image;
pub mod layer;

use crate::sandbox::state::{numbered, numbered_name, same_but_storages, KuasarSandbox};
use crate::text::{
    concat, concat3, contains, contains_text, copy_texts, decimal, decimal_u64, is_digit, is_space,
    lemma_decimal_is_digits, lemma_decimal_round_trip, occurs_in, opt_text, parse_u64, same, space,
    starts_with, texts, to_chars, trimmed_start,
};
use vstd::multiset::Multiset;
use vstd::prelude::*;

verus! {

/// Where storages are mounted in the guest.
pub const KUASAR_GUEST_SHARE_DIR: &'static str = "/run/kuasar/storage/containers/";

/// Where the guest keeps the state of its containers.
pub const KUASAR_STATE_DIR: &'static str = "/run/kuasar/state";

/// The driver of a storage that is a file pushed into the guest.
pub const DRIVER_GUEST_FILE: &'static str = "guest-file";

/// The driver of a storage that lives in the guest's memory.
pub const DRIVER_EPHEMERAL: &'static str = "ephemeral";

/// A mount of a container.
pub struct Mount {
    pub mount_type: String,
    pub source: String,
    pub destination: String,
    pub options: Vec<String>,
}

/// What the host knows of a mounted file system.
pub struct MountInfo {
    pub mount_point: String,
    pub fs_type: String,
    pub options: Vec<String>,
}

/// What a sandbox made of a mount.
pub struct Storage {
    pub host_source: String,
    pub mount_type: String,
    pub id: String,
    pub device_id: Option<String>,
    /// The containers that use the storage, one entry for each use.
    pub ref_container: Vec<String>,
    pub need_guest_handle: bool,
    pub source: String,
    pub driver: String,
    pub driver_options: Vec<String>,
    pub fstype: String,
    pub options: Vec<String>,
    pub mount_point: String,
    /// Whether the image behind the storage was made for it.
    pub owned_by_runtime: bool,
    /// The image to remove with the storage.
    pub cleanup_path: Option<String>,
    pub lower_dirs: Option<Vec<String>>,
}

/// What a storage says.
pub struct StorageView {
    pub host_source: Seq<char>,
    pub mount_type: Seq<char>,
    pub id: Seq<char>,
    pub device_id: Option<Seq<char>>,
    pub ref_container: Seq<Seq<char>>,
    pub need_guest_handle: bool,
    pub source: Seq<char>,
    pub driver: Seq<char>,
    pub driver_options: Seq<Seq<char>>,
    pub fstype: Seq<char>,
    pub options: Seq<Seq<char>>,
    pub mount_point: Seq<char>,
    pub owned_by_runtime: bool,
    pub cleanup_path: Option<Seq<char>>,
    pub lower_dirs: Option<Seq<Seq<char>>>,
}

impl View for Storage {
    type V = StorageView;

    open spec fn view(&self) -> StorageView {
        StorageView {
            host_source: self.host_source@,
            mount_type: self.mount_type@,
            id: self.id@,
            device_id: opt_text(self.device_id),
            ref_container: texts(self.ref_container@),
            need_guest_handle: self.need_guest_handle,
            source: self.source@,
            driver: self.driver@,
            driver_options: texts(self.driver_options@),
            fstype: self.fstype@,
            options: texts(self.options@),
            mount_point: self.mount_point@,
            owned_by_runtime: self.owned_by_runtime,
            cleanup_path: opt_text(self.cleanup_path),
            lower_dirs: match self.lower_dirs {
                Some(dirs) => Some(texts(dirs@)),
                None => None,
            },
        }
    }
}

/// What storages say, in order.
pub open spec fn storage_views(v: Seq<Storage>) -> Seq<StorageView> {
    Seq::new(v.len(), |i: int| v[i]@)
}

impl Storage {
    /// A storage that says the same.
    pub fn copy(&self) -> (r: Storage)
        ensures
            r@ == self@,
    {
        Storage {
            host_source: self.host_source.clone(),
            mount_type: self.mount_type.clone(),
            id: self.id.clone(),
            device_id: self.device_id.clone(),
            ref_container: copy_texts(&self.ref_container),
            need_guest_handle: self.need_guest_handle,
            source: self.source.clone(),
            driver: self.driver.clone(),
            driver_options: copy_texts(&self.driver_options),
            fstype: self.fstype.clone(),
            options: copy_texts(&self.options),
            mount_point: self.mount_point.clone(),
            owned_by_runtime: self.owned_by_runtime,
            cleanup_path: self.cleanup_path.clone(),
            lower_dirs: match &self.lower_dirs {
                Some(dirs) => Some(copy_texts(dirs)),
                None => None,
            },
        }
    }
}

/// Storages that say the same.
pub fn copy_storages(storages: &Vec<Storage>) -> (r: Vec<Storage>)
    ensures
        storage_views(r@) == storage_views(storages@),
{
    let mut out: Vec<Storage> = Vec::new();
    let mut i: usize = 0;
    while i < storages.len()
        invariant
            i <= storages@.len(),
            out@.len() == i,
            forall|k: int| 0 <= k < i ==> (#[trigger] out@[k])@ == storages@[k]@,
        decreases storages.len() - i,
    {
        out.push(storages[i].copy());
        i = i + 1;
    }
    assert(storage_views(out@) =~= storage_views(storages@));
    out
}

/// The uses of a storage.
pub open spec fn uses(s: Storage) -> Multiset<Seq<char>> {
    texts(s.ref_container@).to_multiset()
}

/// Whether two states of a storage differ at most in its uses.
pub open spec fn same_but_uses(a: Storage, b: Storage) -> bool {
    &&& a.host_source == b.host_source
    &&& a.mount_type == b.mount_type
    &&& a.id == b.id
    &&& a.device_id == b.device_id
    &&& a.need_guest_handle == b.need_guest_handle
    &&& a.source == b.source
    &&& a.driver == b.driver
    &&& a.driver_options == b.driver_options
    &&& a.fstype == b.fstype
    &&& a.options == b.options
    &&& a.mount_point == b.mount_point
    &&& a.owned_by_runtime == b.owned_by_runtime
    &&& a.cleanup_path == b.cleanup_path
    &&& a.lower_dirs == b.lower_dirs
}

/// Using a storage, or no more using it, leaves everything else of it as it was.
pub proof fn lemma_only_uses_change(a: Storage, b: Storage)
    ensures
        same_but_uses(a, b) <==> a == (Storage { ref_container: a.ref_container, ..b }),
{
}

/// Whether a storage was made for a mount.
pub open spec fn for_mount(s: Storage, m: Mount) -> bool {
    s.host_source@ == m.source@ && s.mount_type@ == m.mount_type@
}

impl Storage {
    /// Whether this storage was made for a mount.
    pub fn is_for_mount(&self, m: &Mount) -> (r: bool)
        ensures
            r == for_mount(*self, *m),
    {
        same(self.host_source.as_str(), m.source.as_str()) && same(
            self.mount_type.as_str(),
            m.mount_type.as_str(),
        )
    }

    /// Whether a container uses this storage.
    pub fn is_used_by(&self, container_id: &str) -> (r: bool)
        ensures
            r == (uses(*self).count(container_id@) > 0),
    {
        proof {
            texts(self.ref_container@).to_multiset_ensures();
        }
        contains_text(&self.ref_container, container_id)
    }

    /// Whether any container uses this storage.
    pub fn is_used(&self) -> (r: bool)
        ensures
            r == (uses(*self).len() > 0),
    {
        proof {
            texts(self.ref_container@).to_multiset_ensures();
        }
        self.ref_container.len() > 0
    }

    /// Adds a use.
    pub fn refer(&mut self, container_id: &str)
        ensures
            uses(*final(self)) == uses(*old(self)).insert(container_id@),
            same_but_uses(*final(self), *old(self)),
    {
        let ghost before = texts(self.ref_container@);
        self.ref_container.push(container_id.to_owned());
        proof {
            before.to_multiset_ensures();
            assert(texts(self.ref_container@) =~= before.push(container_id@));
        }
    }

    /// Takes one use back, where there is one.
    pub fn defer(&mut self, container_id: &str)
        ensures
            uses(*final(self)) == uses(*old(self)).remove(container_id@),
            same_but_uses(*final(self), *old(self)),
    {
        let ghost before = texts(self.ref_container@);
        let mut i: usize = 0;
        while i < self.ref_container.len()
            invariant
                i <= self.ref_container@.len(),
                before == texts(self.ref_container@),
                *self == *old(self),
                forall|k: int| 0 <= k < i ==> before[k] != container_id@,
            decreases self.ref_container.len() - i,
        {
            if same(self.ref_container[i].as_str(), container_id) {
                let ghost all = self.ref_container@;
                let _ = self.ref_container.remove(i);
                proof {
                    before.to_multiset_ensures();
                    assert(texts(self.ref_container@) =~= before.remove(i as int));
                    assert(before[i as int] == container_id@);
                }
                return;
            }
            assert(before[i as int] == self.ref_container@[i as int]@);
            i = i + 1;
        }
        proof {
            before.to_multiset_ensures();
            assert(!before.contains(container_id@));
            assert(before.to_multiset().remove(container_id@) =~= before.to_multiset());
        }
    }
}

/// Taking a use back undoes adding it.
pub proof fn lemma_defer_undoes_refer(uses: Multiset<Seq<char>>, container: Seq<char>)
    ensures
        uses.insert(container).remove(container) == uses,
{
    assert(uses.insert(container).remove(container) =~= uses);
}

// ── Finding a storage again ─────────────────────────────────────────────────

/// The position of the first storage that was made for a mount. The root file
/// system of a container is never shared.
pub open spec fn is_reusable(storages: Seq<Storage>, m: Mount, is_rootfs: bool, i: int) -> bool {
    &&& !is_rootfs
    &&& 0 <= i < storages.len()
    &&& for_mount(storages[i], m)
    &&& forall|k: int| 0 <= k < i ==> !for_mount(#[trigger] storages[k], m)
}

/// Whether no storage can be used again for a mount.
pub open spec fn none_reusable(storages: Seq<Storage>, m: Mount, is_rootfs: bool) -> bool {
    is_rootfs || forall|k: int| 0 <= k < storages.len() ==> !for_mount(#[trigger] storages[k], m)
}

/// A storage is used again exactly where one was made for the same source and the same
/// type, which is then the first such; the root file system of a container never is.
pub proof fn lemma_what_is_used_again(storages: Seq<Storage>, m: Mount, is_rootfs: bool, i: int)
    requires
        0 <= i < storages.len(),
    ensures
        ({
            let fits = storages[i].host_source@ == m.source@ && storages[i].mount_type@
                == m.mount_type@;
            &&& is_reusable(storages, m, is_rootfs, i) ==> fits && !is_rootfs
            &&& fits && !is_rootfs ==> !none_reusable(storages, m, is_rootfs)
            &&& fits && !is_rootfs ==> forall|k: int| #[trigger]
                is_reusable(storages, m, is_rootfs, k) ==> k <= i
            &&& is_rootfs ==> none_reusable(storages, m, is_rootfs)
            &&& none_reusable(storages, m, is_rootfs) ==> !is_reusable(storages, m, is_rootfs, i)
        }),
{
}

impl KuasarSandbox {
    /// The storage that can be used again for a mount.
    pub fn find_reusable_storage(&self, m: &Mount, is_rootfs_mount: bool) -> (r: Option<usize>)
        ensures
            match r {
                Some(i) => is_reusable(self.storages@, *m, is_rootfs_mount, i as int),
                None => none_reusable(self.storages@, *m, is_rootfs_mount),
            },
    {
        if is_rootfs_mount {
            return None;
        }
        let mut i: usize = 0;
        while i < self.storages.len()
            invariant
                i <= self.storages@.len(),
                !is_rootfs_mount,
                forall|k: int| 0 <= k < i ==> !for_mount(#[trigger] self.storages@[k], *m),
            decreases self.storages.len() - i,
        {
            if self.storages[i].is_for_mount(m) {
                return Some(i);
            }
            i = i + 1;
        }
        None
    }

    /// Adds a use to a storage.
    pub fn refer_storage(&mut self, index: usize, container_id: &str)
        requires
            index < old(self).storages@.len(),
        ensures
            same_but_storages(*final(self), *old(self)),
            final(self).id_generator == old(self).id_generator,
            final(self).storages@.len() == old(self).storages@.len(),
            forall|k: int|
                0 <= k < old(self).storages@.len() && k != index ==> #[trigger] final(self).storages@[k]
                    == old(self).storages@[k],
            same_but_uses(final(self).storages@[index as int], old(self).storages@[index as int]),
            uses(final(self).storages@[index as int]) == uses(
                old(self).storages@[index as int],
            ).insert(container_id@),
    {
        let mut s = self.storages.remove(index);
        s.refer(container_id);
        self.storages.insert(index, s);
    }
}

// ── Which way a mount is handled ────────────────────────────────────────────

/// What the host finds out about a mount.
pub struct MountProbe {
    /// The source is a block device.
    pub is_block_device: bool,
    /// The file system that the source is the mount point of.
    pub mount_info: Option<MountInfo>,
    /// The mount binds the shared memory of the pod.
    pub is_bind_shm: bool,
    pub is_bind: bool,
    pub is_overlay: bool,
}

/// Which way a mount is handled.
#[derive(Clone, Copy, Debug, PartialEq, Eq, Structural)]
pub enum AttachWay {
    /// As a device of its own.
    BlockDevice,
    /// In the memory of the guest.
    Tmpfs,
    /// By the shared directory.
    Bind,
    /// As a file or an image that is made for it.
    BindBlk,
    /// By the shared directory.
    Overlay,
    /// As an image that is made for it.
    OverlayBlk,
    /// There is nothing to do.
    Nothing,
}

/// Whether a file system is one in memory that belongs to an empty directory of a
/// pod.
pub open spec fn is_memory_volume(info: MountInfo) -> bool {
    info.fs_type@ == "tmpfs"@ && occurs_in("kubernetes.io~empty-dir"@, info.mount_point@)
}

/// Which way a mount is handled, in a sandbox whose containers live on block
/// devices or not.
pub open spec fn attach_way(p: MountProbe, on_blocks: bool) -> AttachWay {
    if p.is_block_device {
        AttachWay::BlockDevice
    } else if p.mount_info is Some && is_memory_volume(p.mount_info->0) {
        AttachWay::Tmpfs
    } else if p.is_bind_shm {
        AttachWay::Nothing
    } else if p.is_bind {
        if on_blocks {
            AttachWay::BindBlk
        } else {
            AttachWay::Bind
        }
    } else if p.is_overlay {
        if on_blocks {
            AttachWay::OverlayBlk
        } else {
            AttachWay::Overlay
        }
    } else {
        AttachWay::Nothing
    }
}

/// A block device is handed on as what it is, and a volume in memory is put into the memory
/// of the guest, whatever else they are. What is bound or laid over is seen through the
/// shared directory, or copied into an image where there is none; but the shared memory of
/// the pod is not bound again.
pub proof fn lemma_how_a_mount_is_handled(p: MountProbe, on_blocks: bool)
    ensures
        ({
            let in_memory = p.mount_info is Some && p.mount_info->0.fs_type@ == "tmpfs"@
                && occurs_in("kubernetes.io~empty-dir"@, p.mount_info->0.mount_point@);
            let plain = !p.is_block_device && !in_memory && !p.is_bind_shm;
            let way = attach_way(p, on_blocks);
            &&& way is BlockDevice <==> p.is_block_device
            &&& way is Tmpfs <==> in_memory && !p.is_block_device
            &&& way is Bind <==> plain && p.is_bind && !on_blocks
            &&& way is BindBlk <==> plain && p.is_bind && on_blocks
            &&& way is Overlay <==> plain && !p.is_bind && p.is_overlay && !on_blocks
            &&& way is OverlayBlk <==> plain && !p.is_bind && p.is_overlay && on_blocks
        }),
{
}

/// Which way a mount is handled.
pub fn choose_attach_way(probe: &MountProbe, on_blocks: bool) -> (r: AttachWay)
    ensures
        r == attach_way(*probe, on_blocks),
{
    if probe.is_block_device {
        return AttachWay::BlockDevice;
    }
    if let Some(info) = &probe.mount_info {
        if same(info.fs_type.as_str(), "tmpfs") && contains(
            info.mount_point.as_str(),
            "kubernetes.io~empty-dir",
        ) {
            return AttachWay::Tmpfs;
        }
    }
    if probe.is_bind_shm {
        AttachWay::Nothing
    } else if probe.is_bind {
        if on_blocks {
            AttachWay::BindBlk
        } else {
            AttachWay::Bind
        }
    } else if probe.is_overlay {
        if on_blocks {
            AttachWay::OverlayBlk
        } else {
            AttachWay::Overlay
        }
    } else {
        AttachWay::Nothing
    }
}

/// What a mount of a container leads to: a storage that is there is used again,
/// else a new one is made under the next id.
pub enum AttachStart {
    Reused(usize),
    Fresh(String),
}

impl KuasarSandbox {
    /// Begins to attach a mount: uses a storage again where that is possible, and
    /// otherwise gives out the id of a new one.
    pub fn attach_storage(&mut self, container_id: &str, m: &Mount, is_rootfs_mount: bool) -> (r:
        AttachStart)
        requires
            old(self).id_generator < u32::MAX,
        ensures
            same_but_storages(*final(self), *old(self)),
            match r {
                AttachStart::Reused(i) => {
                    &&& is_reusable(old(self).storages@, *m, is_rootfs_mount, i as int)
                    &&& final(self).id_generator == old(self).id_generator
                    &&& final(self).storages@.len() == old(self).storages@.len()
                    &&& uses(final(self).storages@[i as int]) == uses(
                        old(self).storages@[i as int],
                    ).insert(container_id@)
                    &&& same_but_uses(
                        final(self).storages@[i as int],
                        old(self).storages@[i as int],
                    )
                    &&& forall|k: int|
                        0 <= k < old(self).storages@.len() && k != i ==> #[trigger] final(
                            self).storages@[k] == old(self).storages@[k]
                },
                AttachStart::Fresh(id) => {
                    &&& none_reusable(old(self).storages@, *m, is_rootfs_mount)
                    &&& final(self).id_generator == old(self).id_generator + 1
                    &&& final(self).storages == old(self).storages
                    &&& id@ == numbered("storage"@, final(self).id_generator as nat)
                },
            },
    {
        match self.find_reusable_storage(m, is_rootfs_mount) {
            Some(i) => {
                self.refer_storage(i, container_id);
                AttachStart::Reused(i)
            },
            None => {
                let n: u32 = self.increment_and_get_id();
                AttachStart::Fresh(numbered_name("storage", n))
            },
        }
    }

    /// Gives out the id of a new block device.
    pub fn next_device_id(&mut self) -> (r: String)
        requires
            old(self).id_generator < u32::MAX,
        ensures
            final(self).id_generator == old(self).id_generator + 1,
            r@ == numbered("blk"@, final(self).id_generator as nat),
            same_but_storages(*final(self), *old(self)),
            final(self).storages == old(self).storages,
    {
        let n: u32 = self.increment_and_get_id();
        numbered_name("blk", n)
    }

    /// Keeps a new storage, used once by a container.
    pub fn keep_storage(&mut self, mut storage: Storage, container_id: &str)
        ensures
            same_but_storages(*final(self), *old(self)),
            final(self).id_generator == old(self).id_generator,
            final(self).storages@.len() == old(self).storages@.len() + 1,
            final(self).storages@.drop_last() == old(self).storages@,
            same_but_uses(final(self).storages@.last(), storage),
            uses(final(self).storages@.last()) == uses(storage).insert(container_id@),
    {
        let ghost before = self.storages@;
        storage.refer(container_id);
        self.storages.push(storage);
        assert(self.storages@.drop_last() =~= before);
    }
}

// ── New storages ────────────────────────────────────────────────────────────

/// Why a mount cannot be attached.
#[derive(Clone, Copy, Debug, PartialEq, Eq, Structural)]
pub enum AttachError {
    /// The mount has no source.
    NoSource,
    /// The source is neither a directory nor a regular file.
    NotRegular,
}

/// Whether a mount is read-only.
pub open spec fn read_only_mount(m: Mount) -> bool {
    texts(m.options@).contains("ro"@)
}

/// Whether a mount is read-only.
pub fn is_read_only(m: &Mount) -> (r: bool)
    ensures
        r == read_only_mount(*m),
{
    contains_text(&m.options, "ro")
}

/// Why the source of a mount cannot be attached, where that is so.
pub open spec fn source_fault(source: Seq<char>, is_dir: bool, is_regular: bool) -> Option<
    AttachError,
> {
    if source.len() == 0 {
        Some(AttachError::NoSource)
    } else if !is_dir && !is_regular {
        Some(AttachError::NotRegular)
    } else {
        None
    }
}

/// Exactly directories and regular files are attached, and only where they are named.
pub proof fn lemma_what_can_be_attached(source: Seq<char>, is_dir: bool, is_regular: bool)
    ensures
        source_fault(source, is_dir, is_regular) is None <==> source.len() > 0 && (is_dir
            || is_regular),
        source_fault(source, is_dir, is_regular) == Some(AttachError::NoSource) <==> source.len()
            == 0,
{
}

/// Whether the source of a mount can be attached, by what it is on the host.
pub fn check_source(m: &Mount, is_dir: bool, is_regular: bool) -> (r: Result<(), AttachError>)
    ensures
        match source_fault(m.source@, is_dir, is_regular) {
            Some(e) => r == Err::<(), AttachError>(e),
            None => r == Ok::<(), AttachError>(()),
        },
{
    if m.source.as_str().is_empty() {
        Err(AttachError::NoSource)
    } else if !is_dir && !is_regular {
        Err(AttachError::NotRegular)
    } else {
        Ok(())
    }
}

/// What a storage keeps of its mount: where it comes from, and of its options
/// only that it is read-only. The other options belong to the mount on the host.
pub open spec fn keeps_mount(s: Storage, m: Mount, id: Seq<char>) -> bool {
    &&& s.host_source@ == m.source@
    &&& s.mount_type@ == m.mount_type@
    &&& s.id@ == id
    &&& texts(s.options@) == (if read_only_mount(m) {
        seq!["ro"@]
    } else {
        Seq::empty()
    })
    &&& s.driver_options@.len() == 0
    &&& s.ref_container@.len() == 0
    &&& s.lower_dirs is None
}

/// Of the options of a mount a storage keeps exactly whether it is read-only.
pub proof fn lemma_only_read_only_is_kept(s: Storage, m: Mount, id: Seq<char>)
    requires
        keeps_mount(s, m, id),
    ensures
        s.id@ == id && s.host_source@ == m.source@ && s.mount_type@ == m.mount_type@,
        texts(s.options@).contains("ro"@) <==> texts(m.options@).contains("ro"@),
        forall|o: Seq<char>| #[trigger] texts(s.options@).contains(o) ==> o == "ro"@,
        s.options@.len() <= 1 && s.ref_container@.len() == 0 && s.driver_options@.len() == 0,
{
    assert(texts(s.options@).len() == s.options@.len());
    if texts(m.options@).contains("ro"@) {
        assert(texts(s.options@)[0] == "ro"@);
    }
}

fn ro_options(read_only: bool) -> (r: Vec<String>)
    ensures
        texts(r@) == (if read_only {
            seq!["ro"@]
        } else {
            Seq::empty()
        }),
{
    let mut v: Vec<String> = Vec::new();
    if read_only {
        v.push("ro".to_owned());
    }
    assert(texts(v@) =~= (if read_only {
        seq!["ro"@]
    } else {
        Seq::empty()
    }));
    v
}

/// A block device of the host, which the guest mounts from its own address.
pub fn block_device_storage(
    id: &str,
    m: &Mount,
    device_id: &str,
    address: &str,
    driver: &str,
    fstype: &str,
) -> (r: Storage)
    ensures
        keeps_mount(r, *m, id@),
        r.device_id matches Some(d) && d@ == device_id@,
        r.need_guest_handle,
        r.source@ == address@,
        r.driver@ == driver@,
        r.fstype@ == fstype@,
        r.mount_point@ == KUASAR_GUEST_SHARE_DIR@ + id@,
        !r.owned_by_runtime,
        r.cleanup_path is None,
{
    Storage {
        host_source: m.source.clone(),
        mount_type: m.mount_type.clone(),
        id: id.to_owned(),
        device_id: Some(device_id.to_owned()),
        ref_container: Vec::new(),
        need_guest_handle: true,
        source: address.to_owned(),
        driver: driver.to_owned(),
        driver_options: Vec::new(),
        fstype: fstype.to_owned(),
        options: ro_options(is_read_only(m)),
        mount_point: concat(KUASAR_GUEST_SHARE_DIR, id),
        owned_by_runtime: false,
        cleanup_path: None,
        lower_dirs: None,
    }
}

/// A directory or file of the host that the guest sees through the shared
/// directory.
pub fn shared_storage(id: &str, m: &Mount) -> (r: Storage)
    ensures
        keeps_mount(r, *m, id@),
        r.device_id is None,
        !r.need_guest_handle,
        r.source@ == ""@,
        r.driver@ == ""@,
        r.fstype@ == "bind"@,
        r.mount_point@ == KUASAR_STATE_DIR@ + "/"@ + id@,
        !r.owned_by_runtime,
        r.cleanup_path is None,
{
    Storage {
        host_source: m.source.clone(),
        mount_type: m.mount_type.clone(),
        id: id.to_owned(),
        device_id: None,
        ref_container: Vec::new(),
        need_guest_handle: false,
        source: "".to_owned(),
        driver: "".to_owned(),
        driver_options: Vec::new(),
        fstype: "bind".to_owned(),
        options: ro_options(is_read_only(m)),
        mount_point: concat3(KUASAR_STATE_DIR, "/", id),
        owned_by_runtime: false,
        cleanup_path: None,
        lower_dirs: None,
    }
}

/// A single file that was pushed into the guest.
pub fn guest_file_storage(id: &str, m: &Mount) -> (r: Storage)
    ensures
        keeps_mount(r, *m, id@),
        r.device_id is None,
        !r.need_guest_handle,
        r.source@ == ""@,
        r.driver@ == DRIVER_GUEST_FILE@,
        r.fstype@ == "bind"@,
        r.mount_point@ == KUASAR_STATE_DIR@ + "/"@ + id@,
        !r.owned_by_runtime,
        r.cleanup_path is None,
{
    let mut s = shared_storage(id, m);
    s.driver = DRIVER_GUEST_FILE.to_owned();
    s
}

/// The image behind a storage.
pub open spec fn image_path(base_dir: Seq<char>, id: Seq<char>) -> Seq<char> {
    base_dir + "/"@ + id + ".img"@
}

/// Each storage has an image of its own, below the directory of the sandbox.
pub proof fn lemma_images_differ(base_dir: Seq<char>, a: Seq<char>, b: Seq<char>)
    ensures
        a != b ==> image_path(base_dir, a) != image_path(base_dir, b),
        (base_dir + "/"@).is_prefix_of(image_path(base_dir, a)),
        ".img"@.is_suffix_of(image_path(base_dir, a)),
{
    let head = base_dir + "/"@;
    let first = image_path(base_dir, a);
    let second = image_path(base_dir, b);
    assert(first.subrange(head.len() as int, first.len() - ".img"@.len()) =~= a);
    assert(second.subrange(head.len() as int, second.len() - ".img"@.len()) =~= b);
    assert(first.take(head.len() as int) =~= head);
    assert(first.skip(first.len() - ".img"@.len()) =~= ".img"@);
}

/// The image behind a storage.
pub fn storage_image(base_dir: &str, id: &str) -> (r: String)
    ensures
        r@ == image_path(base_dir@, id@),
{
    let mut path = concat3(base_dir, "/", id);
    path.append(".img");
    path
}

/// A directory of the host that was copied into an image, which the guest mounts
/// from its own address.
pub fn image_storage(
    id: &str,
    m: &Mount,
    device_id: &str,
    address: &str,
    driver: &str,
    base_dir: &str,
) -> (r: Storage)
    ensures
        keeps_mount(r, *m, id@),
        r.device_id matches Some(d) && d@ == device_id@,
        r.need_guest_handle,
        r.source@ == address@,
        r.driver@ == driver@,
        r.fstype@ == "ext4"@,
        r.mount_point@ == KUASAR_GUEST_SHARE_DIR@ + id@,
        r.owned_by_runtime,
        r.cleanup_path matches Some(p) && p@ == image_path(base_dir@, id@),
{
    let mut s = block_device_storage(id, m, device_id, address, driver, "ext4");
    s.owned_by_runtime = true;
    s.cleanup_path = Some(storage_image(base_dir, id));
    s
}

/// The options of a file system in memory that the guest understands: its size.
pub open spec fn size_options(options: Seq<Seq<char>>) -> Seq<Seq<char>>
    decreases options.len(),
{
    if options.len() == 0 {
        Seq::empty()
    } else {
        let before = size_options(options.drop_last());
        if "size="@.is_prefix_of(options.last()) {
            before.push(options.last())
        } else {
            before
        }
    }
}

/// Each option that gives a size is handed on as it is, in its place among the others, and
/// no other is.
pub proof fn lemma_sizes_are_handed_on(options: Seq<Seq<char>>, i: int)
    requires
        0 <= i < options.len(),
    ensures
        size_options(options) == size_options(options.take(i)) + (if "size="@.is_prefix_of(
            options[i],
        ) {
            seq![options[i]]
        } else {
            Seq::empty()
        }) + size_options(options.skip(i + 1)),
        size_options(Seq::empty()).len() == 0,
    decreases options.len(),
{
    let init = options.drop_last();
    let own = if "size="@.is_prefix_of(options[i]) {
        seq![options[i]]
    } else {
        Seq::empty()
    };
    if i == options.len() - 1 {
        assert(options.take(i) =~= init);
        assert(options.skip(i + 1) =~= Seq::<Seq<char>>::empty());
    } else {
        lemma_sizes_are_handed_on(init, i);
        assert(init.take(i) =~= options.take(i));
        assert(options.skip(i + 1).drop_last() =~= init.skip(i + 1));
        assert(options.skip(i + 1).last() == options.last());
    }
    assert(size_options(options) =~= size_options(options.take(i)) + own + size_options(
        options.skip(i + 1),
    ));
}

/// A file system in the memory of the guest, of the size that it has on the host.
pub fn tmpfs_storage(id: &str, m: &Mount, info: &MountInfo) -> (r: Storage)
    ensures
        r.host_source@ == m.source@,
        r.mount_type@ == m.mount_type@,
        r.id@ == id@,
        texts(r.options@) == (if read_only_mount(*m) {
            seq!["ro"@]
        } else {
            Seq::empty()
        }) + size_options(texts(info.options@)),
        r.device_id is None,
        r.need_guest_handle,
        r.source@ == "tmpfs"@,
        r.driver@ == DRIVER_EPHEMERAL@,
        r.fstype@ == "tmpfs"@,
        r.mount_point@ == KUASAR_GUEST_SHARE_DIR@ + id@,
        r.ref_container@.len() == 0 && r.driver_options@.len() == 0,
        !r.owned_by_runtime && r.cleanup_path is None && r.lower_dirs is None,
{
    let mut options = ro_options(is_read_only(m));
    let ghost head = texts(options@);
    let ghost all = texts(info.options@);
    let mut i: usize = 0;
    assert(all.take(0) =~= Seq::<Seq<char>>::empty());
    assert(head + size_options(all.take(0)) =~= head);
    while i < info.options.len()
        invariant
            i <= info.options@.len(),
            all == texts(info.options@),
            texts(options@) == head + size_options(all.take(i as int)),
        decreases info.options.len() - i,
    {
        proof {
            assert(all.take(i + 1).drop_last() =~= all.take(i as int));
            assert(all.take(i + 1).last() == info.options@[i as int]@);
        }
        if starts_with(info.options[i].as_str(), "size=") {
            let ghost before = options@;
            options.push(info.options[i].clone());
            assert(texts(options@) =~= texts(before).push(info.options@[i as int]@));
            assert(texts(options@) =~= head + size_options(all.take(i + 1)));
        }
        i = i + 1;
    }
    assert(all.take(i as int) =~= all);
    Storage {
        host_source: m.source.clone(),
        mount_type: m.mount_type.clone(),
        id: id.to_owned(),
        device_id: None,
        ref_container: Vec::new(),
        need_guest_handle: true,
        source: "tmpfs".to_owned(),
        driver: DRIVER_EPHEMERAL.to_owned(),
        driver_options: Vec::new(),
        fstype: "tmpfs".to_owned(),
        options,
        mount_point: concat(KUASAR_GUEST_SHARE_DIR, id),
        owned_by_runtime: false,
        cleanup_path: None,
        lower_dirs: None,
    }
}

// ── Images ──────────────────────────────────────────────────────────────────

/// The first word of a text.
pub open spec fn first_word(s: Seq<char>) -> Seq<char>
    decreases s.len(),
{
    if s.len() == 0 || is_space(s[0]) {
        Seq::empty()
    } else {
        seq![s[0]] + first_word(s.drop_first())
    }
}

/// The size that `du` reported for a directory, in megabytes: its first word, or
/// 64 where that is no number.
pub open spec fn reported_size(output: Seq<char>) -> u64 {
    match decimal_u64(first_word(trimmed_start(output))) {
        Some(n) => n,
        None => 64,
    }
}

/// The number that a report begins with is the size, whatever white space stands before it
/// and whatever follows behind white space.
pub proof fn lemma_reported_size(n: u64, c: char, rest: Seq<char>)
    requires
        is_space(c),
    ensures
        reported_size(decimal(n as nat) + seq![c] + rest) == n,
        reported_size(seq![c] + decimal(n as nat) + seq![c] + rest) == n,
        reported_size(Seq::empty()) == 64,
{
    let number = decimal(n as nat);
    let report = number + seq![c] + rest;
    lemma_decimal_round_trip(n);
    lemma_decimal_is_digits(n as nat);
    lemma_first_word(number, c, rest);
    assert(decimal_u64(number) is Some);
    assert(number.len() > 0);
    assert(report[0] == number[0]);
    assert(trimmed_start(report) == report);
    let indented = seq![c] + number + seq![c] + rest;
    assert(indented[0] == c);
    assert(indented.drop_first() =~= report);
    assert(trimmed_start(indented) == report);
    assert(decimal_u64(first_word(trimmed_start(Seq::empty()))) is None);
}

proof fn lemma_first_word(word: Seq<char>, c: char, rest: Seq<char>)
    requires
        forall|i: int| 0 <= i < word.len() ==> is_digit(#[trigger] word[i]),
        is_space(c),
    ensures
        first_word(word + seq![c] + rest) == word,
    decreases word.len(),
{
    let s = word + seq![c] + rest;
    if word.len() > 0 {
        let tail = word.drop_first();
        assert(is_digit(word[0]));
        assert forall|i: int| 0 <= i < tail.len() implies is_digit(#[trigger] tail[i]) by {
            assert(tail[i] == word[i + 1]);
        }
        lemma_first_word(tail, c, rest);
        assert(s.drop_first() =~= tail + seq![c] + rest);
        assert(s[0] == word[0]);
        assert(seq![word[0]] + tail =~= word);
    } else {
        assert(s[0] == c);
        assert(word =~= Seq::<char>::empty());
    }
}

fn first_word_of(s: &str) -> (r: String)
    ensures
        r@ == first_word(trimmed_start(s@)),
{
    let x = to_chars(s);
    let mut lo: usize = 0;
    assert(s@.skip(0) =~= s@);
    while lo < x.len() && space(x[lo])
        invariant
            lo <= x@.len(),
            x@ == s@,
            trimmed_start(s@.skip(lo as int)) == trimmed_start(s@),
        decreases x.len() - lo,
    {
        assert(s@.skip(lo as int).drop_first() =~= s@.skip(lo + 1));
        lo = lo + 1;
    }
    let ghost rest = s@.skip(lo as int);
    assert(trimmed_start(rest) == rest);
    let mut word = String::new();
    let mut i: usize = lo;
    assert(rest.skip(0) =~= rest);
    assert(word@ + first_word(rest.skip(0)) =~= first_word(rest));
    while i < x.len() && !space(x[i])
        invariant
            lo <= i <= x@.len(),
            x@ == s@,
            rest == s@.skip(lo as int),
            word@ + first_word(rest.skip(i - lo)) == first_word(rest),
        decreases x.len() - i,
    {
        let ghost tail = rest.skip(i - lo);
        assert(tail[0] == x@[i as int]);
        assert(tail.drop_first() =~= rest.skip(i - lo + 1));
        let ghost before = word@;
        word.push(x[i]);
        assert(word@ + first_word(rest.skip(i - lo + 1)) =~= before + (seq![tail[0]] + first_word(
            tail.drop_first(),
        )));
        i = i + 1;
    }
    proof {
        let tail = rest.skip(i - lo);
        if i < x@.len() {
            assert(tail[0] == x@[i as int]);
        }
        assert(first_word(tail) =~= Seq::<char>::empty());
        assert(word@ =~= word@ + first_word(tail));
    }
    word
}

/// The size that `du` reported for a directory, in megabytes.
pub fn parse_dir_size_mb(output: &str) -> (r: u64)
    ensures
        r == reported_size(output@),
{
    let word = first_word_of(output);
    match parse_u64(word.as_str()) {
        Some(n) => n,
        None => 64,
    }
}

/// Room in an image beside the files that it is made for, in megabytes.
#[derive(Clone, Copy, Debug, PartialEq, Eq, Structural)]
pub enum ImageKind {
    /// For the layers of a container.
    Overlay,
    /// For a bound directory.
    Bind,
}

/// What an image gets beside a fifth more than its files, and what counts as the
/// size of files that could not be measured.
pub open spec fn image_margin(kind: ImageKind) -> u64 {
    match kind {
        ImageKind::Overlay => 64,
        ImageKind::Bind => 8,
    }
}

/// The size of an image for files of the measured size, in megabytes.
pub open spec fn image_size(kind: ImageKind, measured: Option<u64>) -> int {
    let files = match measured {
        Some(n) => n as int,
        None => image_margin(kind) as int,
    };
    files * 12 / 10 + image_margin(kind)
}

/// The size of an image for files of the measured size, in megabytes.
pub fn image_size_mb(kind: ImageKind, measured: Option<u64>) -> (r: u64)
    requires
        measured matches Some(n) ==> n * 12 + 64 <= u64::MAX,
    ensures
        r == image_size(kind, measured),
{
    let margin: u64 = match kind {
        ImageKind::Overlay => 64,
        ImageKind::Bind => 8,
    };
    let files: u64 = match measured {
        Some(n) => n,
        None => margin,
    };
    files * 12 / 10 + margin
}

/// An image has room for the files that it is made for, a fifth more than they take beside
/// what every image of the kind has. Files that could not be measured count as much as
/// that.
pub proof fn lemma_image_has_room(kind: ImageKind, n: u64)
    ensures
        image_size(kind, Some(n)) >= n + image_margin(kind),
        12 * n - 10 < 10 * (image_size(kind, Some(n)) - image_size(kind, Some(0))) <= 12 * n,
        image_size(ImageKind::Overlay, Some(0)) == 64,
        image_size(ImageKind::Bind, Some(0)) == 8,
        image_size(kind, None) == image_size(
            kind,
            Some(image_size(kind, Some(0)) as u64),
        ),
{
}

// ── Giving storages up ──────────────────────────────────────────────────────

/// A storage that nobody uses.
pub struct Unused {
    pub device_id: Option<String>,
    pub id: String,
    pub fstype: String,
}

/// What is said of a storage that nobody uses.
pub struct UnusedView {
    pub device_id: Option<Seq<char>>,
    pub id: Seq<char>,
    pub fstype: Seq<char>,
}

impl View for Unused {
    type V = UnusedView;

    open spec fn view(&self) -> UnusedView {
        UnusedView { device_id: opt_text(self.device_id), id: self.id@, fstype: self.fstype@ }
    }
}

/// The storages that nobody uses, in order.
pub open spec fn unused(storages: Seq<Storage>) -> Seq<UnusedView>
    decreases storages.len(),
{
    if storages.len() == 0 {
        Seq::empty()
    } else {
        let before = unused(storages.drop_last());
        let s = storages.last();
        if uses(s).len() == 0 {
            before.push(
                UnusedView { device_id: opt_text(s.device_id), id: s.id@, fstype: s.fstype@ },
            )
        } else {
            before
        }
    }
}

/// Each storage that no container uses is given up, with its own device, id and file
/// system, in its place among the others; one that is used is not.
pub proof fn lemma_every_unused_storage_is_given_up(storages: Seq<Storage>, i: int)
    requires
        0 <= i < storages.len(),
    ensures
        unused(storages) == unused(storages.take(i)) + (if storages[i].ref_container@.len() == 0 {
            seq![UnusedView {
                device_id: opt_text(storages[i].device_id),
                id: storages[i].id@,
                fstype: storages[i].fstype@,
            }]
        } else {
            Seq::empty()
        }) + unused(storages.skip(i + 1)),
        unused(Seq::empty()).len() == 0,
    decreases storages.len(),
{
    let init = storages.drop_last();
    texts(storages[i].ref_container@).to_multiset_ensures();
    let own = if storages[i].ref_container@.len() == 0 {
        seq![UnusedView {
                device_id: opt_text(storages[i].device_id),
                id: storages[i].id@,
                fstype: storages[i].fstype@,
            }]
    } else {
        Seq::empty()
    };
    if i == storages.len() - 1 {
        assert(storages.take(i) =~= init);
        assert(storages.skip(i + 1) =~= Seq::<Storage>::empty());
    } else {
        lemma_every_unused_storage_is_given_up(init, i);
        assert(init.take(i) =~= storages.take(i));
        assert(storages.skip(i + 1).drop_last() =~= init.skip(i + 1));
        assert(storages.skip(i + 1).last() == storages.last());
    }
    assert(unused(storages) =~= unused(storages.take(i)) + own + unused(storages.skip(i + 1)));
}

/// The ids of the storages that nobody uses.
pub open spec fn unused_ids(storages: Seq<Storage>) -> Seq<Seq<char>> {
    Seq::new(unused(storages).len(), |i: int| unused(storages)[i].id)
}

/// What a list of unused storages says.
pub open spec fn unused_view(v: Seq<Unused>) -> Seq<UnusedView> {
    Seq::new(v.len(), |i: int| v[i]@)
}

/// `storages` without those of an id.
pub open spec fn without_id(storages: Seq<Storage>, id: Seq<char>) -> Seq<Storage>
    decreases storages.len(),
{
    if storages.len() == 0 {
        Seq::empty()
    } else {
        let before = without_id(storages.drop_last(), id);
        if storages.last().id@ == id {
            before
        } else {
            before.push(storages.last())
        }
    }
}

/// A storage is forgotten exactly where it has the id; all others stay, in order.
pub proof fn lemma_only_the_id_is_forgotten(storages: Seq<Storage>, id: Seq<char>, i: int)
    requires
        0 <= i < storages.len(),
    ensures
        without_id(storages, id) == without_id(storages.take(i), id) + (if storages[i].id@ != id {
            seq![storages[i]]
        } else {
            Seq::empty()
        }) + without_id(storages.skip(i + 1), id),
        without_id(Seq::empty(), id).len() == 0,
    decreases storages.len(),
{
    let init = storages.drop_last();
    let own = if storages[i].id@ != id {
        seq![storages[i]]
    } else {
        Seq::empty()
    };
    if i == storages.len() - 1 {
        assert(storages.take(i) =~= init);
        assert(storages.skip(i + 1) =~= Seq::<Storage>::empty());
    } else {
        lemma_only_the_id_is_forgotten(init, id, i);
        assert(init.take(i) =~= storages.take(i));
        assert(storages.skip(i + 1).drop_last() =~= init.skip(i + 1));
        assert(storages.skip(i + 1).last() == storages.last());
    }
    assert(without_id(storages, id) =~= without_id(storages.take(i), id) + own + without_id(
        storages.skip(i + 1),
        id,
    ));
}

impl KuasarSandbox {
    /// The storages that nobody uses, in order. Each is detached, and then
    /// forgotten.
    pub fn gc_storages(&self) -> (r: Vec<Unused>)
        ensures
            unused_view(r@) == unused(self.storages@),
    {
        let mut out: Vec<Unused> = Vec::new();
        let mut i: usize = 0;
        assert(self.storages@.take(0) =~= Seq::<Storage>::empty());
        assert(unused_view(out@) =~= unused(self.storages@.take(0)));
        while i < self.storages.len()
            invariant
                i <= self.storages@.len(),
                unused_view(out@) == unused(self.storages@.take(i as int)),
            decreases self.storages.len() - i,
        {
            proof {
                assert(self.storages@.take(i + 1).drop_last() =~= self.storages@.take(i as int));
                assert(self.storages@.take(i + 1).last() == self.storages@[i as int]);
            }
            let s = &self.storages[i];
            if !s.is_used() {
                let ghost before = out@;
                let item = Unused {
                    device_id: s.device_id.clone(),
                    id: s.id.clone(),
                    fstype: s.fstype.clone(),
                };
                let ghost added = item@;
                out.push(item);
                assert(unused_view(out@) =~= unused_view(before).push(added));
            }
            i = i + 1;
        }
        assert(self.storages@.take(i as int) =~= self.storages@);
        out
    }

    /// Forgets the storages of an id.
    pub fn forget_storage(&mut self, id: &str)
        ensures
            same_but_storages(*final(self), *old(self)),
            final(self).id_generator == old(self).id_generator,
            final(self).storages@ == without_id(old(self).storages@, id@),
    {
        let mut all: Vec<Storage> = Vec::new();
        core::mem::swap(&mut self.storages, &mut all);
        let ghost before = all@;
        let mut kept: Vec<Storage> = Vec::new();
        assert(before.take(0) =~= Seq::<Storage>::empty());
        for s in it: all
            invariant
                it.seq() == before,
                kept@ == without_id(before.take(it.index() as int), id@),
        {
            let ghost k = it.index() as int;
            proof {
                assert(s == before[k]);
                assert(before.take(k + 1).drop_last() =~= before.take(k));
                assert(before.take(k + 1).last() == before[k]);
            }
            if !same(s.id.as_str(), id) {
                kept.push(s);
            }
        }
        assert(before.take(before.len() as int) =~= before);
        self.storages = kept;
    }

    /// Takes back the use that a container makes of a mount.
    pub fn deference_storage(&mut self, container_id: &str, m: &Mount) -> (r: Vec<Unused>)
        ensures
            same_but_storages(*final(self), *old(self)),
            final(self).id_generator == old(self).id_generator,
            final(self).storages@.len() == old(self).storages@.len(),
            unused_view(r@) == unused(final(self).storages@),
            forall|k: int|
                0 <= k < old(self).storages@.len() ==> {
                    let before = old(self).storages@[k];
                    let after = #[trigger] final(self).storages@[k];
                    if is_use_at(old(self).storages@, container_id@, *m, k) {
                        same_but_uses(after, before) && uses(after) == uses(before).remove(
                            container_id@,
                        )
                    } else {
                        after == before
                    }
                },
    {
        let ghost start = self.storages@;
        let mut i: usize = 0;
        let mut found: bool = false;
        while i < self.storages.len() && !found
            invariant
                i <= self.storages@.len(),
                self.storages@ == start,
                *self == *old(self),
                start == old(self).storages@,
                forall|k: int|
                    0 <= k < i ==> !(for_mount(#[trigger] start[k], *m) && uses(start[k]).count(
                        container_id@,
                    ) > 0),
                found ==> i < start.len() && for_mount(start[i as int], *m) && uses(
                    start[i as int],
                ).count(container_id@) > 0,
            decreases self.storages.len() - i + if found {
                0int
            } else {
                1int
            },
        {
            if self.storages[i].is_for_mount(m) && self.storages[i].is_used_by(container_id) {
                found = true;
            } else {
                i = i + 1;
            }
        }
        if found {
            let mut s = self.storages.remove(i);
            s.defer(container_id);
            self.storages.insert(i, s);
            assert(forall|k: int| 0 <= k < start.len() && k != i ==> self.storages@[k] == start[k]);
        }
        self.gc_storages()
    }

    /// Takes back one use of every storage that a container uses.
    pub fn deference_container_storages(&mut self, container_id: &str) -> (r: Vec<Unused>)
        ensures
            same_but_storages(*final(self), *old(self)),
            final(self).id_generator == old(self).id_generator,
            final(self).storages@.len() == old(self).storages@.len(),
            unused_view(r@) == unused(final(self).storages@),
            forall|k: int|
                0 <= k < old(self).storages@.len() ==> same_but_uses(
                    #[trigger] final(self).storages@[k],
                    old(self).storages@[k],
                ) && uses(final(self).storages@[k]) == uses(old(self).storages@[k]).remove(
                    container_id@,
                ),
    {
        let ghost start = self.storages@;
        let mut i: usize = 0;
        while i < self.storages.len()
            invariant
                i <= self.storages@.len(),
                self.storages@.len() == start.len(),
                start == old(self).storages@,
                same_but_storages(*self, *old(self)),
                self.id_generator == old(self).id_generator,
                forall|k: int|
                    0 <= k < i ==> same_but_uses(#[trigger] self.storages@[k], start[k]) && uses(
                        self.storages@[k],
                    ) == uses(start[k]).remove(container_id@),
                forall|k: int| i <= k < start.len() ==> #[trigger] self.storages@[k] == start[k],
            decreases self.storages.len() - i,
        {
            let ghost now = self.storages@;
            let mut s = self.storages.remove(i);
            s.defer(container_id);
            self.storages.insert(i, s);
            assert(forall|k: int| 0 <= k < now.len() && k != i ==> self.storages@[k] == now[k]);
            i = i + 1;
        }
        self.gc_storages()
    }
}

/// Whether `i` is the position of the first storage for a mount that a container
/// uses.
pub open spec fn is_use_at(storages: Seq<Storage>, container: Seq<char>, m: Mount, i: int) -> bool {
    &&& 0 <= i < storages.len()
    &&& for_mount(storages[i], m) && uses(storages[i]).count(container) > 0
    &&& forall|k: int|
        0 <= k < i ==> !(for_mount(#[trigger] storages[k], m) && uses(storages[k]).count(container)
            > 0)
}

/// At most one storage loses a use: the first for the mount that the container uses.
pub proof fn lemma_one_use_is_taken_back(
    storages: Seq<Storage>,
    container: Seq<char>,
    m: Mount,
    i: int,
    k: int,
)
    requires
        is_use_at(storages, container, m, i),
        0 <= k < storages.len(),
    ensures
        storages[i].host_source@ == m.source@ && storages[i].mount_type@ == m.mount_type@,
        uses(storages[i]).count(container) > 0,
        is_use_at(storages, container, m, k) ==> k == i,
        k < i && storages[k].host_source@ == m.source@ && storages[k].mount_type@ == m.mount_type@
            ==> uses(storages[k]).count(container) == 0,
{
}

/// `storages` without those of any of the ids, one id after the other.
pub open spec fn without_ids(storages: Seq<Storage>, ids: Seq<Seq<char>>) -> Seq<Storage>
    decreases ids.len(),
{
    if ids.len() == 0 {
        storages
    } else {
        without_id(without_ids(storages, ids.drop_last()), ids.last())
    }
}

proof fn lemma_without_id(storages: Seq<Storage>, id: Seq<char>, s: Storage)
    ensures
        without_id(storages, id).contains(s) <==> storages.contains(s) && s.id@ != id,
    decreases storages.len(),
{
    if storages.len() > 0 {
        let init = storages.drop_last();
        lemma_without_id(init, id, s);
        let before = without_id(init, id);
        let all = without_id(storages, id);
        if storages.contains(s) {
            let k = choose|k: int| 0 <= k < storages.len() && storages[k] == s;
            if k < init.len() {
                assert(init[k] == s);
                assert(init.contains(s));
            }
        }
        if init.contains(s) {
            let k = choose|k: int| 0 <= k < init.len() && init[k] == s;
            assert(storages[k] == s);
        }
        assert(storages[storages.len() - 1] == storages.last());
        if storages.last().id@ != id {
            if before.contains(s) {
                let k = choose|k: int| 0 <= k < before.len() && before[k] == s;
                assert(all[k] == s);
            }
            assert(all[before.len() as int] == storages.last());
            if all.contains(s) {
                let k = choose|k: int| 0 <= k < all.len() && all[k] == s;
                if k < before.len() {
                    assert(before[k] == s);
                }
            }
        }
    }
}

proof fn lemma_without_ids(storages: Seq<Storage>, ids: Seq<Seq<char>>, s: Storage)
    ensures
        without_ids(storages, ids).contains(s) <==> storages.contains(s) && !ids.contains(s.id@),
    decreases ids.len(),
{
    if ids.len() > 0 {
        let init = ids.drop_last();
        lemma_without_ids(storages, init, s);
        lemma_without_id(without_ids(storages, init), ids.last(), s);
        assert(ids[ids.len() - 1] == ids.last());
        if ids.contains(s.id@) {
            let k = choose|k: int| 0 <= k < ids.len() && ids[k] == s.id@;
            if k < init.len() {
                assert(init[k] == s.id@);
                assert(init.contains(s.id@));
            }
        }
        if init.contains(s.id@) {
            let k = choose|k: int| 0 <= k < init.len() && init[k] == s.id@;
            assert(ids[k] == s.id@);
        }
    }
}

proof fn lemma_unused_ids(storages: Seq<Storage>, k: int)
    requires
        0 <= k < storages.len(),
        uses(storages[k]).len() == 0,
    ensures
        unused_ids(storages).contains(storages[k].id@),
    decreases storages.len(),
{
    let init = storages.drop_last();
    let before = unused_ids(init);
    let all = unused_ids(storages);
    if k < init.len() {
        assert(init[k] == storages[k]);
        lemma_unused_ids(init, k);
        let j = choose|j: int| 0 <= j < before.len() && before[j] == storages[k].id@;
        assert(all[j] == storages[k].id@);
    } else {
        assert(all[before.len() as int] == storages[k].id@);
    }
}

proof fn lemma_unused_id_comes_from(storages: Seq<Storage>, j: int)
    requires
        0 <= j < unused_ids(storages).len(),
    ensures
        exists|k: int|
            0 <= k < storages.len() && (#[trigger] storages[k]).id@ == unused_ids(storages)[j]
                && uses(storages[k]).len() == 0,
    decreases storages.len(),
{
    if storages.len() > 0 {
        let init = storages.drop_last();
        let before = unused_ids(init);
        if j < before.len() {
            lemma_unused_id_comes_from(init, j);
            let k = choose|k: int|
                0 <= k < init.len() && (#[trigger] init[k]).id@ == before[j] && uses(
                    init[k],
                ).len() == 0;
            assert(storages[k] == init[k]);
        } else {
            assert(storages[storages.len() - 1] == storages.last());
        }
    }
}

/// Once every unused storage is forgotten, each storage that is left is used, and
/// no storage that is used was lost, as long as no two have one id.
pub proof fn lemma_collection_is_exact(storages: Seq<Storage>, s: Storage)
    requires
        forall|i: int, k: int|
            0 <= i < storages.len() && 0 <= k < storages.len() && i != k ==> (
            #[trigger] storages[i]).id@ != (#[trigger] storages[k]).id@,
    ensures
        without_ids(storages, unused_ids(storages)).contains(s) <==> storages.contains(s) && uses(
            s,
        ).len() > 0,
{
    let ids = unused_ids(storages);
    lemma_without_ids(storages, ids, s);
    if storages.contains(s) {
        let k = choose|k: int| 0 <= k < storages.len() && storages[k] == s;
        if uses(s).len() == 0 {
            lemma_unused_ids(storages, k);
        } else if ids.contains(s.id@) {
            let j = choose|j: int| 0 <= j < ids.len() && ids[j] == s.id@;
            lemma_unused_id_comes_from(storages, j);
            let m = choose|m: int|
                0 <= m < storages.len() && (#[trigger] storages[m]).id@ == ids[j] && uses(
                    storages[m],
                ).len() == 0;
            assert(storages[m].id@ == storages[k].id@);
            assert(m == k);
        }
    }
}

/// What detaching a storage takes.
pub enum DetachStep {
    /// Unplug the device, and remove the image behind it, where one is named.
    /// That the image is gone already is no failure.
    Unplug { device_id: String, image: Option<String> },
    /// Unmount the path below the shared directory, and remove it.
    Unmount(String),
    /// Nothing on the host.
    Nothing,
}

/// What detaching a storage takes: a device is unplugged, and the image of a
/// container layer removed; what is bound is unmounted.
pub fn detach_step(unused: &Unused, base_dir: &str, shared_path: &str) -> (r: DetachStep)
    ensures
        match r {
            DetachStep::Unplug { device_id, image } => {
                &&& unused.device_id matches Some(d) && d@ == device_id@
                &&& match image {
                    Some(path) => unused.fstype@ == "ext4"@ && path@ == image_path(
                        base_dir@,
                        unused.id@,
                    ),
                    None => unused.fstype@ != "ext4"@,
                }
            },
            DetachStep::Unmount(path) => unused.device_id is None && unused.fstype@ == "bind"@
                && path@ == shared_path@ + "/"@ + unused.id@,
            DetachStep::Nothing => unused.device_id is None && unused.fstype@ != "bind"@,
        },
{
    match &unused.device_id {
        Some(device_id) => {
            let image = if same(unused.fstype.as_str(), "ext4") {
                Some(storage_image(base_dir, unused.id.as_str()))
            } else {
                None
            };
            DetachStep::Unplug { device_id: device_id.clone(), image }
        },
        None => {
            if same(unused.fstype.as_str(), "bind") {
                DetachStep::Unmount(concat3(shared_path, "/", unused.id.as_str()))
            } else {
                DetachStep::Nothing
            }
        },
    }
}

} // verus!
