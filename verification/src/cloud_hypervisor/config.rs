//! Settings of Cloud Hypervisor and the command lines made from them.

use crate::order::{has_option, lacks_option, lemma_has_option};
use crate::profile::SandboxProfile;
use crate::text::{concat, concat3, decimal, join, joined, same, texts, u64_to_string};
use crate::vm::HypervisorCommonConfig;
use vstd::prelude::*;

verus! {

/// The kernel command line of a standard guest.
pub const DEFAULT_KERNEL_PARAMS: &'static str =
    "console=hvc0 root=/dev/pmem0p1 rootflags=data=ordered,errors=remount-ro ro rootfstype=ext4 task.sharefs_type=virtiofs";

/// The kernel command line of an appliance guest with an ext4 image. The image
/// takes the whole device, without a partition table.
pub const DEFAULT_KERNEL_PARAMS_APPLIANCE_EXT4: &'static str =
    "console=hvc0 root=/dev/pmem0 ro rootfstype=ext4";

/// The kernel command line of an appliance guest with an erofs image.
pub const DEFAULT_KERNEL_PARAMS_APPLIANCE_EROFS: &'static str =
    "console=hvc0 root=/dev/pmem0 ro rootfstype=erofs";

/// The filesystem of an appliance image.
#[derive(Clone, Copy, Debug, PartialEq, Eq, Structural)]
pub enum ApplianceFsType {
    Ext4,
    Erofs,
}

impl Default for ApplianceFsType {
    fn default() -> (r: Self)
        ensures
            r is Ext4,
    {
        ApplianceFsType::Ext4
    }
}

impl ApplianceFsType {
    /// The filesystem with a name, as configurations write it.
    pub fn from_name(name: &str) -> (r: Option<ApplianceFsType>)
        ensures
            match r {
                Some(ApplianceFsType::Ext4) => name@ == "ext4"@,
                Some(ApplianceFsType::Erofs) => name@ == "erofs"@,
                None => name@ != "ext4"@ && name@ != "erofs"@,
            },
    {
        if same(name, "ext4") {
            Some(ApplianceFsType::Ext4)
        } else if same(name, "erofs") {
            Some(ApplianceFsType::Erofs)
        } else {
            None
        }
    }

    /// The filesystem that a configuration asks for: the usual one where it names
    /// none, and nothing where it names one that there is not.
    pub fn from_setting(name: Option<&str>) -> (r: Option<ApplianceFsType>)
        ensures
            match name {
                None => r == Some(ApplianceFsType::Ext4),
                Some(n) => match r {
                    Some(ApplianceFsType::Ext4) => n@ == "ext4"@,
                    Some(ApplianceFsType::Erofs) => n@ == "erofs"@,
                    None => n@ != "ext4"@ && n@ != "erofs"@,
                },
            },
    {
        match name {
            Some(n) => ApplianceFsType::from_name(n),
            None => Some(ApplianceFsType::default()),
        }
    }
}

/// The settings of a Cloud Hypervisor guest.
pub struct CloudHypervisorVMConfig {
    pub path: String,
    pub common: HypervisorCommonConfig,
    pub hugepages: bool,
    pub entropy_source: String,
    pub task: TaskConfig,
    pub virtiofsd: VirtiofsdConfig,
    /// The filesystem of an appliance image; a standard guest does not read it.
    pub appliance_fs_type: ApplianceFsType,
    /// The executable of an appliance whose pod names none.
    pub appliance_app: String,
}

impl Default for CloudHypervisorVMConfig {
    fn default() -> (r: Self)
        ensures
            r.path@ == "/usr/local/bin/cloud-hypervisor"@,
            !r.common.debug,
            r.common.vcpus == 1,
            r.common.memory_in_mb == 1024,
            r.common.kernel_path@ == "/var/lib/kuasar/vmlinux.bin"@,
            r.common.image_path@ == ""@,
            r.common.initrd_path@ == "/var/lib/kuasar/kuasar.initrd"@,
            r.common.kernel_params@ == ""@,
            r.common.sharefs_type@ == "virtiofs"@,
            !r.hugepages,
            r.entropy_source@ == "/dev/urandom"@,
            !r.task.debug,
            !r.task.enable_tracing,
            r.virtiofsd.path@ == "/usr/local/bin/virtiofsd"@,
            r.virtiofsd.log_level@ == "info"@,
            r.virtiofsd.cache@ == "never"@,
            r.virtiofsd.thread_pool_size == 4,
            r.virtiofsd.socket_path@ == ""@,
            r.virtiofsd.shared_dir@ == ""@,
            r.virtiofsd.syslog,
            r.appliance_fs_type is Ext4,
            r.appliance_app@ == Seq::<char>::empty(),
    {
        CloudHypervisorVMConfig {
            path: "/usr/local/bin/cloud-hypervisor".to_owned(),
            common: HypervisorCommonConfig::default(),
            hugepages: false,
            entropy_source: "/dev/urandom".to_owned(),
            task: TaskConfig::default(),
            virtiofsd: VirtiofsdConfig::default(),
            appliance_fs_type: ApplianceFsType::default(),
            appliance_app: String::new(),
        }
    }
}

/// The settings of `vmm-task`.
#[derive(Clone, Copy, Debug, PartialEq, Eq, Structural)]
pub struct TaskConfig {
    pub debug: bool,
    pub enable_tracing: bool,
}

impl Default for TaskConfig {
    fn default() -> (r: Self)
        ensures
            !r.debug,
            !r.enable_tracing,
    {
        TaskConfig { debug: false, enable_tracing: false }
    }
}

/// The settings of the process that shares a host directory with the guest.
pub struct VirtiofsdConfig {
    pub path: String,
    pub log_level: String,
    pub cache: String,
    pub thread_pool_size: u32,
    pub socket_path: String,
    pub shared_dir: String,
    pub syslog: bool,
}

impl Default for VirtiofsdConfig {
    fn default() -> (r: Self)
        ensures
            r.path@ == "/usr/local/bin/virtiofsd"@,
            r.log_level@ == "info"@,
            r.cache@ == "never"@,
            r.thread_pool_size == 4,
            r.socket_path@ == ""@,
            r.shared_dir@ == ""@,
            r.syslog,
    {
        VirtiofsdConfig {
            path: "/usr/local/bin/virtiofsd".to_owned(),
            log_level: "info".to_owned(),
            cache: "never".to_owned(),
            thread_pool_size: 4,
            socket_path: "".to_owned(),
            shared_dir: "".to_owned(),
            syslog: true,
        }
    }
}

/// The settings with which the Cloud Hypervisor process is started.
pub struct CloudHypervisorConfig {
    pub path: String,
    pub api_socket: String,
    pub cpus: Cpus,
    pub memory: Memory,
    pub kernel: String,
    pub cmdline: String,
    pub initramfs: Option<String>,
    pub log_file: Option<String>,
    pub debug: bool,
}

/// The processors of a guest.
pub struct Cpus {
    pub boot: u32,
    pub max: Option<u32>,
    pub topology: Option<String>,
    pub affinity: Vec<String>,
    pub features: Vec<String>,
}

impl Cpus {
    /// `boot` processors without further settings.
    pub fn new(boot: u32) -> (r: Self)
        ensures
            r.boot == boot,
            r.max is None,
            r.topology is None,
            r.affinity@.len() == 0,
            r.features@.len() == 0,
    {
        Cpus { boot, max: None, topology: None, affinity: Vec::new(), features: Vec::new() }
    }
}

/// The memory of a guest.
pub struct Memory {
    pub size: u64,
    pub shared: bool,
    pub hugepages: bool,
    pub hugepage_size: Option<String>,
    pub prefault: Option<bool>,
    pub thp: Option<bool>,
}

impl Memory {
    /// `size` bytes without further settings.
    pub fn new(size: u64, shared: bool, hugepages: bool) -> (r: Self)
        ensures
            r.size == size,
            r.shared == shared,
            r.hugepages == hugepages,
            r.hugepage_size is None,
            r.prefault is None,
            r.thp is None,
    {
        Memory { size, shared, hugepages, hugepage_size: None, prefault: None, thp: None }
    }
}

// ── Kernel command line ─────────────────────────────────────────────────────

/// The first part of the kernel command line.
pub open spec fn base_params(profile: SandboxProfile, fs_type: ApplianceFsType) -> Seq<char> {
    match profile {
        SandboxProfile::Standard => DEFAULT_KERNEL_PARAMS@,
        SandboxProfile::Appliance => match fs_type {
            ApplianceFsType::Ext4 => DEFAULT_KERNEL_PARAMS_APPLIANCE_EXT4@,
            ApplianceFsType::Erofs => DEFAULT_KERNEL_PARAMS_APPLIANCE_EROFS@,
        },
    }
}

/// What the kernel command line tells `vmm-task`; an appliance has none.
pub open spec fn task_params(profile: SandboxProfile, task: TaskConfig) -> Seq<char> {
    match profile {
        SandboxProfile::Standard => (if task.debug {
            " task.log_level=debug"@
        } else {
            Seq::empty()
        }) + " task.enable_tracing="@ + (if task.enable_tracing {
            "true"@
        } else {
            "false"@
        }),
        SandboxProfile::Appliance => Seq::empty(),
    }
}

impl CloudHypervisorConfig {
    /// The settings of a guest of the given profile.
    pub fn from(vm_config: &CloudHypervisorVMConfig, profile: &SandboxProfile) -> (r: Self)
        ensures
            r.path@ == vm_config.path@,
            r.api_socket@ == ""@,
            r.cpus.boot == vm_config.common.vcpus,
            r.cpus.max is None && r.cpus.topology is None,
            r.cpus.affinity@.len() == 0 && r.cpus.features@.len() == 0,
            r.memory.size == vm_config.common.memory_in_mb * 1024 * 1024,
            r.memory.shared && r.memory.hugepages == vm_config.hugepages,
            r.memory.hugepage_size is None && r.memory.prefault is None && r.memory.thp is None,
            r.kernel@ == vm_config.common.kernel_path@,
            r.cmdline@ == base_params(*profile, vm_config.appliance_fs_type) + " "@
                + vm_config.common.kernel_params@ + task_params(*profile, vm_config.task),
            r.initramfs is None && r.log_file is None,
            r.debug == vm_config.common.debug,
    {
        let cpus = Cpus::new(vm_config.common.vcpus);
        let memory = Memory::new(
            (vm_config.common.memory_in_mb as u64) * 1024 * 1024,
            true,
            vm_config.hugepages,
        );
        let base: &str = match profile {
            SandboxProfile::Standard => DEFAULT_KERNEL_PARAMS,
            SandboxProfile::Appliance => match vm_config.appliance_fs_type {
                ApplianceFsType::Ext4 => DEFAULT_KERNEL_PARAMS_APPLIANCE_EXT4,
                ApplianceFsType::Erofs => DEFAULT_KERNEL_PARAMS_APPLIANCE_EROFS,
            },
        };
        let mut cmdline = concat3(base, " ", vm_config.common.kernel_params.as_str());
        let ghost head = cmdline@;
        match profile {
            SandboxProfile::Standard => {
                if vm_config.task.debug {
                    cmdline.append(" task.log_level=debug");
                }
                cmdline.append(" task.enable_tracing=");
                cmdline.append(
                    if vm_config.task.enable_tracing {
                        "true"
                    } else {
                        "false"
                    },
                );
            },
            SandboxProfile::Appliance => {},
        }
        assert(cmdline@ =~= head + task_params(*profile, vm_config.task));
        CloudHypervisorConfig {
            path: vm_config.path.clone(),
            api_socket: "".to_owned(),
            cpus,
            memory,
            kernel: vm_config.common.kernel_path.clone(),
            cmdline,
            initramfs: None,
            log_file: None,
            debug: vm_config.common.debug,
        }
    }
}

/// The kernel command line of an appliance does not depend on the settings of
/// `vmm-task`, and that of a standard guest not on the filesystem of an appliance
/// image.
pub proof fn lemma_cmdline_depends_on_profile_only_where_due(
    a: TaskConfig,
    b: TaskConfig,
    f: ApplianceFsType,
    g: ApplianceFsType,
)
    ensures
        task_params(SandboxProfile::Appliance, a) == task_params(SandboxProfile::Appliance, b),
        base_params(SandboxProfile::Standard, f) == base_params(SandboxProfile::Standard, g),
{
}

// ── Process command line ────────────────────────────────────────────────────

/// `key=value`.
pub open spec fn setting(key: Seq<char>, value: Seq<char>) -> Seq<char> {
    key + "="@ + value
}

/// `on` or `off`.
pub open spec fn on_off(b: bool) -> Seq<char> {
    if b {
        "on"@
    } else {
        "off"@
    }
}

/// `list` with `key=value` behind it, where there is a value.
pub open spec fn add_setting(
    list: Seq<Seq<char>>,
    key: Seq<char>,
    value: Option<Seq<char>>,
) -> Seq<Seq<char>> {
    match value {
        Some(v) => list.push(setting(key, v)),
        None => list,
    }
}

/// A list of strings as the value of a setting, where it is not empty.
pub open spec fn list_value(v: Seq<String>) -> Option<Seq<char>> {
    if v.len() == 0 {
        None
    } else {
        Some(joined(texts(v), ","@))
    }
}

/// The settings of the processors, in order.
pub open spec fn cpu_settings(c: Cpus) -> Seq<Seq<char>> {
    let a = seq![setting("boot"@, decimal(c.boot as nat))];
    let b = add_setting(
        a,
        "max"@,
        match c.max {
            Some(max) => Some(decimal(max as nat)),
            None => None,
        },
    );
    let d = add_setting(
        b,
        "topology"@,
        match c.topology {
            Some(t) => Some(t@),
            None => None,
        },
    );
    let e = add_setting(d, "affinity"@, list_value(c.affinity@));
    add_setting(e, "features"@, list_value(c.features@))
}

/// The settings of the memory, in order.
pub open spec fn memory_settings(m: Memory) -> Seq<Seq<char>> {
    let a = seq![
        setting("size"@, decimal(m.size as nat)),
        setting("shared"@, on_off(m.shared)),
        setting("hugepages"@, on_off(m.hugepages)),
    ];
    let b = add_setting(
        a,
        "hugepage_size"@,
        match m.hugepage_size {
            Some(s) => Some(s@),
            None => None,
        },
    );
    let c = add_setting(
        b,
        "prefault"@,
        match m.prefault {
            Some(x) => Some(on_off(x)),
            None => None,
        },
    );
    add_setting(
        c,
        "thp"@,
        match m.thp {
            Some(x) => Some(on_off(x)),
            None => None,
        },
    )
}

/// `list` with an option and its value behind it.
pub open spec fn add_option(
    list: Seq<Seq<char>>,
    hyphen: Seq<char>,
    name: Seq<char>,
    value: Seq<char>,
) -> Seq<Seq<char>> {
    list.push(hyphen + name).push(value)
}

/// The command line of the Cloud Hypervisor process.
pub open spec fn hypervisor_options(c: CloudHypervisorConfig, hyphen: Seq<char>) -> Seq<Seq<char>> {
    let a = add_option(Seq::empty(), hyphen, "api-socket"@, c.api_socket@);
    let b = add_option(a, hyphen, "cpus"@, joined(cpu_settings(c.cpus), ","@));
    let d = add_option(b, hyphen, "memory"@, joined(memory_settings(c.memory), ","@));
    let e = add_option(d, hyphen, "kernel"@, c.kernel@);
    let f = add_option(e, hyphen, "cmdline"@, c.cmdline@);
    let g = match c.initramfs {
        Some(path) => add_option(f, hyphen, "initramfs"@, path@),
        None => f,
    };
    match c.log_file {
        Some(path) => add_option(g, hyphen, "log-file"@, path@),
        None => g,
    }
}

/// The command line of the process that shares a directory.
pub open spec fn virtiofsd_options(c: VirtiofsdConfig, hyphen: Seq<char>) -> Seq<Seq<char>> {
    let a = add_option(Seq::empty(), hyphen, "log-level"@, c.log_level@);
    let b = add_option(a, hyphen, "cache"@, c.cache@);
    let d = add_option(b, hyphen, "thread-pool-size"@, decimal(c.thread_pool_size as nat));
    let e = add_option(d, hyphen, "socket-path"@, c.socket_path@);
    let f = add_option(e, hyphen, "shared-dir"@, c.shared_dir@);
    if c.syslog {
        f.push(hyphen + "syslog"@)
    } else {
        f
    }
}

fn push_setting(list: &mut Vec<String>, key: &str, value: &str)
    ensures
        texts(final(list)@) == texts(old(list)@).push(setting(key@, value@)),
{
    let ghost before = list@;
    list.push(concat3(key, "=", value));
    assert(texts(list@) =~= texts(before).push(setting(key@, value@)));
}

fn push_option(list: &mut Vec<String>, hyphen: &str, name: &str, value: &str)
    ensures
        texts(final(list)@) == add_option(texts(old(list)@), hyphen@, name@, value@),
{
    let ghost before = list@;
    list.push(concat(hyphen, name));
    list.push(value.to_owned());
    assert(texts(list@) =~= add_option(texts(before), hyphen@, name@, value@));
}

fn switch(b: bool) -> (r: &'static str)
    ensures
        r@ == on_off(b),
{
    if b {
        "on"
    } else {
        "off"
    }
}

impl Cpus {
    /// The settings of the processors as one parameter.
    pub fn to_param(&self) -> (r: String)
        ensures
            r@ == joined(cpu_settings(*self), ","@),
    {
        let mut list: Vec<String> = Vec::new();
        assert(texts(list@) =~= Seq::<Seq<char>>::empty());
        let boot = u64_to_string(self.boot as u64);
        push_setting(&mut list, "boot", boot.as_str());
        assert(texts(list@) =~= seq![setting("boot"@, decimal(self.boot as nat))]);
        if let Some(max) = self.max {
            let max = u64_to_string(max as u64);
            push_setting(&mut list, "max", max.as_str());
        }
        if let Some(topology) = &self.topology {
            push_setting(&mut list, "topology", topology.as_str());
        }
        if self.affinity.len() > 0 {
            let affinity = join(&self.affinity, ",");
            push_setting(&mut list, "affinity", affinity.as_str());
        }
        if self.features.len() > 0 {
            let features = join(&self.features, ",");
            push_setting(&mut list, "features", features.as_str());
        }
        join(&list, ",")
    }
}

impl Memory {
    /// The settings of the memory as one parameter.
    pub fn to_param(&self) -> (r: String)
        ensures
            r@ == joined(memory_settings(*self), ","@),
    {
        let mut list: Vec<String> = Vec::new();
        assert(texts(list@) =~= Seq::<Seq<char>>::empty());
        let size = u64_to_string(self.size);
        push_setting(&mut list, "size", size.as_str());
        push_setting(&mut list, "shared", switch(self.shared));
        push_setting(&mut list, "hugepages", switch(self.hugepages));
        assert(texts(list@) =~= seq![
            setting("size"@, decimal(self.size as nat)),
            setting("shared"@, on_off(self.shared)),
            setting("hugepages"@, on_off(self.hugepages)),
        ]);
        if let Some(size) = &self.hugepage_size {
            push_setting(&mut list, "hugepage_size", size.as_str());
        }
        if let Some(prefault) = self.prefault {
            push_setting(&mut list, "prefault", switch(prefault));
        }
        if let Some(thp) = self.thp {
            push_setting(&mut list, "thp", switch(thp));
        }
        join(&list, ",")
    }
}

impl CloudHypervisorConfig {
    /// The command line of the Cloud Hypervisor process; each option begins with
    /// `hyphen`.
    pub fn to_cmdline_params(&self, hyphen: &str) -> (r: Vec<String>)
        ensures
            texts(r@) == hypervisor_options(*self, hyphen@),
    {
        let mut list: Vec<String> = Vec::new();
        assert(texts(list@) =~= Seq::<Seq<char>>::empty());
        push_option(&mut list, hyphen, "api-socket", self.api_socket.as_str());
        let cpus = self.cpus.to_param();
        push_option(&mut list, hyphen, "cpus", cpus.as_str());
        let memory = self.memory.to_param();
        push_option(&mut list, hyphen, "memory", memory.as_str());
        push_option(&mut list, hyphen, "kernel", self.kernel.as_str());
        push_option(&mut list, hyphen, "cmdline", self.cmdline.as_str());
        if let Some(path) = &self.initramfs {
            push_option(&mut list, hyphen, "initramfs", path.as_str());
        }
        if let Some(path) = &self.log_file {
            push_option(&mut list, hyphen, "log-file", path.as_str());
        }
        list
    }
}

impl VirtiofsdConfig {
    /// The command line of the process that shares a directory.
    pub fn to_cmdline_params(&self, hyphen: &str) -> (r: Vec<String>)
        ensures
            texts(r@) == virtiofsd_options(*self, hyphen@),
    {
        let mut list: Vec<String> = Vec::new();
        assert(texts(list@) =~= Seq::<Seq<char>>::empty());
        push_option(&mut list, hyphen, "log-level", self.log_level.as_str());
        push_option(&mut list, hyphen, "cache", self.cache.as_str());
        let size = u64_to_string(self.thread_pool_size as u64);
        push_option(&mut list, hyphen, "thread-pool-size", size.as_str());
        push_option(&mut list, hyphen, "socket-path", self.socket_path.as_str());
        push_option(&mut list, hyphen, "shared-dir", self.shared_dir.as_str());
        if self.syslog {
            let ghost before = list@;
            list.push(concat(hyphen, "syslog"));
            assert(texts(list@) =~= texts(before).push(hyphen@ + "syslog"@));
        }
        list
    }
}

// ── What the command lines say ──────────────────────────────────────────────

proof fn lemma_prefix_apart(hyphen: Seq<char>, a: Seq<char>, b: Seq<char>)
    requires
        a != b,
    ensures
        hyphen + a != hyphen + b,
{
    if hyphen + a == hyphen + b {
        assert((hyphen + a).skip(hyphen.len() as int) =~= a);
        assert((hyphen + b).skip(hyphen.len() as int) =~= b);
    }
}

proof fn lemma_option_names()
    ensures
        "initramfs"@ != "api-socket"@ && "initramfs"@ != "cpus"@ && "initramfs"@ != "memory"@,
        "initramfs"@ != "kernel"@ && "initramfs"@ != "cmdline"@ && "initramfs"@ != "log-file"@,
        "log-file"@ != "api-socket"@ && "log-file"@ != "cpus"@ && "log-file"@ != "memory"@,
        "log-file"@ != "kernel"@ && "log-file"@ != "cmdline"@,
{
    reveal_strlit("initramfs");
    reveal_strlit("api-socket");
    reveal_strlit("cpus");
    reveal_strlit("memory");
    reveal_strlit("kernel");
    reveal_strlit("cmdline");
    reveal_strlit("log-file");
    assert("initramfs"@[0] == 'i' && "log-file"@[0] == 'l');
    assert("api-socket"@[0] == 'a' && "cpus"@[0] == 'c' && "memory"@[0] == 'm');
    assert("kernel"@[0] == 'k' && "cmdline"@[0] == 'c');
}

/// Every setting of the hypervisor stands in its command line, directly behind its own
/// name: the socket of its API, the processors, the memory, the kernel and what the
/// kernel is told, and the initial file system and the log file where there is one. An
/// option that is not set does not occur, and there are no others.
pub proof fn lemma_hypervisor_is_told_all(c: CloudHypervisorConfig, hyphen: Seq<char>)
    ensures
        ({
            let line = hypervisor_options(c, hyphen);
            &&& has_option(line, hyphen + "api-socket"@, c.api_socket@)
            &&& has_option(line, hyphen + "cpus"@, joined(cpu_settings(c.cpus), ","@))
            &&& has_option(line, hyphen + "memory"@, joined(memory_settings(c.memory), ","@))
            &&& has_option(line, hyphen + "kernel"@, c.kernel@)
            &&& has_option(line, hyphen + "cmdline"@, c.cmdline@)
            &&& match c.initramfs {
                Some(path) => has_option(line, hyphen + "initramfs"@, path@),
                None => lacks_option(line, hyphen + "initramfs"@),
            }
            &&& match c.log_file {
                Some(path) => has_option(line, hyphen + "log-file"@, path@),
                None => lacks_option(line, hyphen + "log-file"@),
            }
            &&& line.len() == 10 + (if c.initramfs is Some {
                2int
            } else {
                0
            }) + (if c.log_file is Some {
                2int
            } else {
                0
            })
        }),
{
    let line = hypervisor_options(c, hyphen);
    lemma_option_names();
    lemma_prefix_apart(hyphen, "initramfs"@, "api-socket"@);
    lemma_prefix_apart(hyphen, "initramfs"@, "cpus"@);
    lemma_prefix_apart(hyphen, "initramfs"@, "memory"@);
    lemma_prefix_apart(hyphen, "initramfs"@, "kernel"@);
    lemma_prefix_apart(hyphen, "initramfs"@, "cmdline"@);
    lemma_prefix_apart(hyphen, "initramfs"@, "log-file"@);
    lemma_prefix_apart(hyphen, "log-file"@, "api-socket"@);
    lemma_prefix_apart(hyphen, "log-file"@, "cpus"@);
    lemma_prefix_apart(hyphen, "log-file"@, "memory"@);
    lemma_prefix_apart(hyphen, "log-file"@, "kernel"@);
    lemma_prefix_apart(hyphen, "log-file"@, "cmdline"@);
    assert(line[0] == hyphen + "api-socket"@ && line[1] == c.api_socket@);
    assert(line[2] == hyphen + "cpus"@ && line[3] == joined(cpu_settings(c.cpus), ","@));
    assert(line[4] == hyphen + "memory"@ && line[5] == joined(memory_settings(c.memory), ","@));
    assert(line[6] == hyphen + "kernel"@ && line[7] == c.kernel@);
    assert(line[8] == hyphen + "cmdline"@ && line[9] == c.cmdline@);
    lemma_has_option(line, 0);
    lemma_has_option(line, 2);
    lemma_has_option(line, 4);
    lemma_has_option(line, 6);
    lemma_has_option(line, 8);
    if line.len() >= 12 {
        lemma_has_option(line, 10);
    }
    if line.len() >= 14 {
        lemma_has_option(line, 12);
    }
    if let Some(path) = c.initramfs {
        assert(line[10] == hyphen + "initramfs"@ && line[11] == path@);
        if let Some(log) = c.log_file {
            assert(line[12] == hyphen + "log-file"@ && line[13] == log@);
        }
    } else if let Some(log) = c.log_file {
        assert(line[10] == hyphen + "log-file"@ && line[11] == log@);
    }
}

/// Every setting of the process that shares a directory stands in its command line,
/// directly behind its own name, and it logs to the system exactly where it is asked to.
pub proof fn lemma_virtiofsd_is_told_all(c: VirtiofsdConfig, hyphen: Seq<char>)
    ensures
        ({
            let line = virtiofsd_options(c, hyphen);
            &&& has_option(line, hyphen + "log-level"@, c.log_level@)
            &&& has_option(line, hyphen + "cache"@, c.cache@)
            &&& has_option(line, hyphen + "thread-pool-size"@, decimal(c.thread_pool_size as nat))
            &&& has_option(line, hyphen + "socket-path"@, c.socket_path@)
            &&& has_option(line, hyphen + "shared-dir"@, c.shared_dir@)
            &&& c.syslog ==> line.len() == 11 && line.last() == hyphen + "syslog"@
            &&& !c.syslog ==> line.len() == 10
        }),
{
    let line = virtiofsd_options(c, hyphen);
    assert(line[0] == hyphen + "log-level"@ && line[1] == c.log_level@);
    assert(line[2] == hyphen + "cache"@ && line[3] == c.cache@);
    assert(line[4] == hyphen + "thread-pool-size"@ && line[5] == decimal(
        c.thread_pool_size as nat,
    ));
    assert(line[6] == hyphen + "socket-path"@ && line[7] == c.socket_path@);
    assert(line[8] == hyphen + "shared-dir"@ && line[9] == c.shared_dir@);
    lemma_has_option(line, 0);
    lemma_has_option(line, 2);
    lemma_has_option(line, 4);
    lemma_has_option(line, 6);
    lemma_has_option(line, 8);
}

/// What the hypervisor is told of the processors: how many it boots, and each further
/// setting that there is, with its value; nothing else.
pub proof fn lemma_cpu_settings_are_complete(c: Cpus)
    ensures
        ({
            let v = cpu_settings(c);
            let max = c.max is Some;
            let topology = c.topology is Some;
            let affinity = c.affinity@.len() > 0;
            let features = c.features@.len() > 0;
            &&& v[0] == "boot="@ + decimal(c.boot as nat)
            &&& max ==> v.contains("max="@ + decimal(c.max->0 as nat))
            &&& topology ==> v.contains("topology="@ + c.topology->0@)
            &&& affinity ==> v.contains("affinity="@ + joined(texts(c.affinity@), ","@))
            &&& features ==> v.contains("features="@ + joined(texts(c.features@), ","@))
            &&& v.len() == 1 + (if max {
                1int
            } else {
                0
            }) + (if topology {
                1int
            } else {
                0
            }) + (if affinity {
                1int
            } else {
                0
            }) + (if features {
                1int
            } else {
                0
            })
        }),
{
    reveal_strlit("boot");
    reveal_strlit("max");
    reveal_strlit("topology");
    reveal_strlit("affinity");
    reveal_strlit("features");
    reveal_strlit("=");
    reveal_strlit("boot=");
    reveal_strlit("max=");
    reveal_strlit("topology=");
    reveal_strlit("affinity=");
    reveal_strlit("features=");
    assert("boot"@ + "="@ =~= "boot="@);
    assert("max"@ + "="@ =~= "max="@);
    assert("topology"@ + "="@ =~= "topology="@);
    assert("affinity"@ + "="@ =~= "affinity="@);
    assert("features"@ + "="@ =~= "features="@);
    let v = cpu_settings(c);
    let b: int = if c.max is Some {
        1
    } else {
        0
    };
    let d: int = b + if c.topology is Some {
        1int
    } else {
        0
    };
    let e: int = d + if c.affinity@.len() > 0 {
        1int
    } else {
        0
    };
    if c.max is Some {
        assert(v[1] == "max="@ + decimal(c.max->0 as nat));
    }
    if c.topology is Some {
        assert(v[b + 1] == "topology="@ + c.topology->0@);
    }
    if c.affinity@.len() > 0 {
        assert(v[d + 1] == "affinity="@ + joined(texts(c.affinity@), ","@));
    }
    if c.features@.len() > 0 {
        assert(v[e + 1] == "features="@ + joined(texts(c.features@), ","@));
    }
}

/// What the hypervisor is told of the memory: its size, whether it is shared and on huge
/// pages, and each further setting that there is, with its value; nothing else.
pub proof fn lemma_memory_settings_are_complete(m: Memory)
    ensures
        ({
            let v = memory_settings(m);
            &&& v[0] == "size="@ + decimal(m.size as nat)
            &&& v[1] == (if m.shared {
                "shared=on"@
            } else {
                "shared=off"@
            })
            &&& v[2] == (if m.hugepages {
                "hugepages=on"@
            } else {
                "hugepages=off"@
            })
            &&& m.hugepage_size is Some ==> v.contains("hugepage_size="@ + m.hugepage_size->0@)
            &&& m.prefault == Some(true) ==> v.contains("prefault=on"@)
            &&& m.prefault == Some(false) ==> v.contains("prefault=off"@)
            &&& m.thp == Some(true) ==> v.contains("thp=on"@)
            &&& m.thp == Some(false) ==> v.contains("thp=off"@)
            &&& v.len() == 3 + (if m.hugepage_size is Some {
                1int
            } else {
                0
            }) + (if m.prefault is Some {
                1int
            } else {
                0
            }) + (if m.thp is Some {
                1int
            } else {
                0
            })
        }),
{
    reveal_strlit("size");
    reveal_strlit("shared");
    reveal_strlit("hugepages");
    reveal_strlit("hugepage_size");
    reveal_strlit("prefault");
    reveal_strlit("thp");
    reveal_strlit("=");
    reveal_strlit("on");
    reveal_strlit("off");
    reveal_strlit("size=");
    reveal_strlit("shared=on");
    reveal_strlit("shared=off");
    reveal_strlit("hugepages=on");
    reveal_strlit("hugepages=off");
    reveal_strlit("hugepage_size=");
    reveal_strlit("prefault=on");
    reveal_strlit("prefault=off");
    reveal_strlit("thp=on");
    reveal_strlit("thp=off");
    assert("size"@ + "="@ =~= "size="@);
    assert("hugepage_size"@ + "="@ =~= "hugepage_size="@);
    assert("shared"@ + "="@ + "on"@ =~= "shared=on"@);
    assert("shared"@ + "="@ + "off"@ =~= "shared=off"@);
    assert("hugepages"@ + "="@ + "on"@ =~= "hugepages=on"@);
    assert("hugepages"@ + "="@ + "off"@ =~= "hugepages=off"@);
    assert("prefault"@ + "="@ + "on"@ =~= "prefault=on"@);
    assert("prefault"@ + "="@ + "off"@ =~= "prefault=off"@);
    assert("thp"@ + "="@ + "on"@ =~= "thp=on"@);
    assert("thp"@ + "="@ + "off"@ =~= "thp=off"@);
    let v = memory_settings(m);
    let b: int = if m.hugepage_size is Some {
        1
    } else {
        0
    };
    let d: int = b + if m.prefault is Some {
        1int
    } else {
        0
    };
    if m.hugepage_size is Some {
        assert(v[3] == "hugepage_size="@ + m.hugepage_size->0@);
    }
    if m.prefault is Some {
        assert(v[b + 3] == "prefault"@ + "="@ + on_off(m.prefault->0));
    }
    if m.thp is Some {
        assert(v[d + 3] == "thp"@ + "="@ + on_off(m.thp->0));
    }
}

} // verus!
