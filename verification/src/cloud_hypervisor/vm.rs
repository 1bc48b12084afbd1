//! A Cloud Hypervisor guest as the host sees it.

use crate::cloud_hypervisor::config::{
    base_params, cpu_settings, hypervisor_options, lemma_cpu_settings_are_complete,
    lemma_hypervisor_is_told_all, lemma_memory_settings_are_complete, memory_settings, task_params,
    CloudHypervisorConfig, CloudHypervisorVMConfig, VirtiofsdConfig,
};
use crate::order::{comes_before, has_option, lacks_option, lemma_comes_before, lemma_has_option};
use crate::profile::SandboxProfile;
use crate::text::{
    concat, concat3, decimal, decimal_u64, joined, lemma_decimal_round_trip, parse_u64, same,
    strip_prefix, texts, u64_to_string, without_prefix,
};
use crate::vm::{Pids, SHAREFS_VIRTIOFS, SHAREFS_VIRTIO_BLK};
use std::collections::HashMap;
use vstd::prelude::*;

verus! {

/// The directory below that of a sandbox that the guest sees.
pub const SHARED_DIR_SUFFIX: &'static str = "shared";

/// The first descriptor behind the standard streams.
pub const FIRST_PASSED_FD: usize = 3;

/// A device of a guest.
pub enum Device {
    /// A read-only image.
    Pmem { id: String, path: String, discard_writes: bool },
    Rng { id: String, source: String },
    Vsock { cid: u64, socket: String, id: String },
    Console { path: String, id: String },
    Fs { id: String, socket: String, tag: String },
    Disk { id: String, path: String, read_only: bool, direct: bool },
    Net { id: String, name: String, mac: String, fds: Vec<i32> },
    Vfio { id: String, bdf: String },
}

/// What a device is.
pub enum DeviceView {
    Pmem { id: Seq<char>, path: Seq<char>, discard_writes: bool },
    Rng { id: Seq<char>, source: Seq<char> },
    Vsock { cid: u64, socket: Seq<char>, id: Seq<char> },
    Console { path: Seq<char>, id: Seq<char> },
    Fs { id: Seq<char>, socket: Seq<char>, tag: Seq<char> },
    Disk { id: Seq<char>, path: Seq<char>, read_only: bool, direct: bool },
    Net { id: Seq<char>, name: Seq<char>, mac: Seq<char>, fds: Seq<i32> },
    Vfio { id: Seq<char>, bdf: Seq<char> },
}

impl View for Device {
    type V = DeviceView;

    open spec fn view(&self) -> DeviceView {
        match *self {
            Device::Pmem { id, path, discard_writes } => DeviceView::Pmem {
                id: id@,
                path: path@,
                discard_writes,
            },
            Device::Rng { id, source } => DeviceView::Rng { id: id@, source: source@ },
            Device::Vsock { cid, socket, id } => DeviceView::Vsock {
                cid,
                socket: socket@,
                id: id@,
            },
            Device::Console { path, id } => DeviceView::Console { path: path@, id: id@ },
            Device::Fs { id, socket, tag } => DeviceView::Fs {
                id: id@,
                socket: socket@,
                tag: tag@,
            },
            Device::Disk { id, path, read_only, direct } => DeviceView::Disk {
                id: id@,
                path: path@,
                read_only,
                direct,
            },
            Device::Net { id, name, mac, fds } => DeviceView::Net {
                id: id@,
                name: name@,
                mac: mac@,
                fds: fds@,
            },
            Device::Vfio { id, bdf } => DeviceView::Vfio { id: id@, bdf: bdf@ },
        }
    }
}

/// What a list of devices is.
pub open spec fn device_views(v: Seq<Device>) -> Seq<DeviceView> {
    Seq::new(v.len(), |i: int| v[i]@)
}

/// A device that is to be attached.
pub enum DeviceInfo {
    Block { id: String, path: String, read_only: bool },
    Tap { id: String, name: String, mac_address: String, fds: Vec<i32> },
    Physical { id: String, bdf: String },
    VhostUser { id: String },
    Char { id: String },
}

/// A guest as the host sees it.
pub struct CloudHypervisorVM {
    pub id: String,
    pub config: CloudHypervisorConfig,
    pub devices: Vec<Device>,
    pub netns: String,
    pub base_dir: String,
    pub agent_socket: String,
    pub virtiofsd_config: VirtiofsdConfig,
    pub sharefs_type: String,
    /// The descriptors that are passed to the hypervisor process, in order.
    pub fds: Vec<i32>,
    pub pids: Pids,
    /// Whether the host is connected to the hypervisor's API.
    pub client: bool,
}

/// Why something cannot be done with a guest.
#[derive(Clone, Copy, Debug, PartialEq, Eq, Structural)]
pub enum VmError {
    /// There is no hypervisor process.
    NoPid,
    /// The host is not connected to the hypervisor's API.
    NoClient,
    /// The agent in the guest cannot be connected to.
    NoAgent,
    /// The agent in the guest does not answer.
    NoAnswer,
}

/// The kernel command line that the settings give a guest.
pub open spec fn boot_cmdline(c: CloudHypervisorVMConfig, profile: SandboxProfile) -> Seq<char> {
    base_params(profile, c.appliance_fs_type) + " "@ + c.common.kernel_params@ + task_params(
        profile,
        c.task,
    )
}

/// Whether a guest that was not started yet is what the settings say, apart from its
/// devices, its kernel command line and the address of its agent.
pub open spec fn built_from(
    vm: CloudHypervisorVM,
    id: Seq<char>,
    netns: Seq<char>,
    base_dir: Seq<char>,
    c: CloudHypervisorVMConfig,
) -> bool {
    &&& vm.id@ == id
    &&& vm.netns@ == netns
    &&& vm.base_dir@ == base_dir
    &&& vm.fds@.len() == 0 && !vm.client
    &&& vm.pids.vmm_pid is None && vm.pids.affiliated_pids@.len() == 0
    &&& vm.sharefs_type@ == c.common.sharefs_type@
    &&& vm.config.path@ == c.path@
    &&& vm.config.api_socket@ == base_dir + "/api.sock"@
    &&& vm.config.cpus.boot == c.common.vcpus && vm.config.cpus.max is None
    &&& vm.config.cpus.topology is None
    &&& vm.config.cpus.affinity@.len() == 0 && vm.config.cpus.features@.len() == 0
    &&& vm.config.memory.size == c.common.memory_in_mb * 1024 * 1024
    &&& vm.config.memory.shared && vm.config.memory.hugepages == c.hugepages
    &&& vm.config.memory.hugepage_size is None
    &&& vm.config.memory.prefault is None && vm.config.memory.thp is None
    &&& vm.config.log_file is None
    &&& vm.config.kernel@ == c.common.kernel_path@
    &&& vm.config.debug == c.common.debug
    &&& match vm.config.initramfs {
        Some(path) => path@ == c.common.initrd_path@ && path@.len() > 0,
        None => c.common.initrd_path@.len() == 0,
    }
    &&& vm.virtiofsd_config.path@ == c.virtiofsd.path@
    &&& vm.virtiofsd_config.log_level@ == c.virtiofsd.log_level@
    &&& vm.virtiofsd_config.cache@ == c.virtiofsd.cache@
    &&& vm.virtiofsd_config.thread_pool_size == c.virtiofsd.thread_pool_size
    &&& vm.virtiofsd_config.syslog == c.virtiofsd.syslog
    &&& vm.virtiofsd_config.socket_path@ == (if c.common.sharefs_type@ == SHAREFS_VIRTIOFS@ {
        base_dir + "/virtiofs.sock"@
    } else {
        c.virtiofsd.socket_path@
    })
    &&& vm.virtiofsd_config.shared_dir@ == (if c.common.sharefs_type@ == SHAREFS_VIRTIOFS@ {
        base_dir + "/"@ + SHARED_DIR_SUFFIX@
    } else {
        c.virtiofsd.shared_dir@
    })
}

impl CloudHypervisorVM {
    /// A guest of the given profile, not started and without devices.
    pub fn new(
        id: &str,
        netns: &str,
        base_dir: &str,
        vm_config: &CloudHypervisorVMConfig,
        profile: &SandboxProfile,
    ) -> (r: Self)
        ensures
            built_from(r, id@, netns@, base_dir@, *vm_config),
            r.agent_socket@ == ""@,
            r.devices@.len() == 0,
            r.config.cmdline@ == boot_cmdline(*vm_config, *profile),
    {
        let mut config = CloudHypervisorConfig::from(vm_config, profile);
        config.api_socket = concat(base_dir, "/api.sock");
        if !vm_config.common.initrd_path.as_str().is_empty() {
            config.initramfs = Some(vm_config.common.initrd_path.clone());
        }
        let shared: bool = same(vm_config.common.sharefs_type.as_str(), SHAREFS_VIRTIOFS);
        let virtiofsd_config = VirtiofsdConfig {
            path: vm_config.virtiofsd.path.clone(),
            log_level: vm_config.virtiofsd.log_level.clone(),
            cache: vm_config.virtiofsd.cache.clone(),
            thread_pool_size: vm_config.virtiofsd.thread_pool_size,
            socket_path: if shared {
                concat(base_dir, "/virtiofs.sock")
            } else {
                vm_config.virtiofsd.socket_path.clone()
            },
            shared_dir: if shared {
                concat3(base_dir, "/", SHARED_DIR_SUFFIX)
            } else {
                vm_config.virtiofsd.shared_dir.clone()
            },
            syslog: vm_config.virtiofsd.syslog,
        };
        CloudHypervisorVM {
            id: id.to_owned(),
            config,
            devices: Vec::new(),
            netns: netns.to_owned(),
            base_dir: base_dir.to_owned(),
            agent_socket: "".to_owned(),
            virtiofsd_config,
            sharefs_type: vm_config.common.sharefs_type.clone(),
            fds: Vec::new(),
            pids: Pids { vmm_pid: None, affiliated_pids: Vec::new() },
            client: false,
        }
    }

    /// Adds a device behind those that are there.
    pub fn add_device(&mut self, device: Device)
        ensures
            final(self).devices@ == old(self).devices@.push(device),
            same_but_devices(*final(self), *old(self)),
            final(self).fds == old(self).fds,
    {
        self.devices.push(device);
    }

    /// The hypervisor process.
    pub fn pid(&self) -> (r: Result<u32, VmError>)
        ensures
            match r {
                Ok(pid) => self.pids.vmm_pid == Some(pid),
                Err(e) => self.pids.vmm_pid is None && e is NoPid,
            },
    {
        match self.pids.vmm_pid {
            Some(pid) => Ok(pid),
            None => Err(VmError::NoPid),
        }
    }

    /// Whether the agent is asked at all to learn whether the guest is alive: only
    /// where it is known where the agent is.
    pub fn asks_agent(&self) -> (r: bool)
        ensures
            r == (self.agent_socket@.len() > 0),
    {
        !self.agent_socket.as_str().is_empty()
    }

    /// Whether the guest is alive, where asking the agent went as said. One whose
    /// agent is not known of counts as alive.
    pub fn ping(&self, connected: bool, answered: bool) -> (r: Result<(), VmError>)
        ensures
            r == (if self.agent_socket@.len() == 0 || (connected && answered) {
                Ok::<(), VmError>(())
            } else if !connected {
                Err(VmError::NoAgent)
            } else {
                Err(VmError::NoAnswer)
            }),
    {
        if !self.asks_agent() || (connected && answered) {
            Ok(())
        } else if !connected {
            Err(VmError::NoAgent)
        } else {
            Err(VmError::NoAnswer)
        }
    }

    /// Whether requests can be made to the hypervisor.
    pub fn check_client(&self) -> (r: Result<(), VmError>)
        ensures
            r == (if self.client {
                Ok::<(), VmError>(())
            } else {
                Err(VmError::NoClient)
            }),
    {
        if self.client {
            Ok(())
        } else {
            Err(VmError::NoClient)
        }
    }

    /// Passes a descriptor to the hypervisor process, and says under which number
    /// the process finds it: those passed stand behind the standard streams, in
    /// order.
    pub fn append_fd(&mut self, fd: i32) -> (r: usize)
        requires
            old(self).fds@.len() + FIRST_PASSED_FD <= usize::MAX,
        ensures
            final(self).fds@ == old(self).fds@.push(fd),
            r == old(self).fds@.len() + FIRST_PASSED_FD,
            same_but_devices(*final(self), *old(self)),
            final(self).devices == old(self).devices,
    {
        let n: usize = self.fds.len();
        self.fds.push(fd);
        n + FIRST_PASSED_FD
    }

    /// Attaches a device before the guest starts. Only block devices, taps and
    /// physical devices can be attached.
    pub fn attach(&mut self, device_info: DeviceInfo)
        requires
            !(device_info is VhostUser) && !(device_info is Char),
            match device_info {
                DeviceInfo::Tap { fds, .. } => old(self).fds@.len() + fds@.len() + FIRST_PASSED_FD
                    <= i32::MAX,
                _ => true,
            },
        ensures
            same_but_devices(*final(self), *old(self)),
            device_views(final(self).devices@) == device_views(old(self).devices@).push(
                attached_view(device_info, old(self).fds@.len()),
            ),
            final(self).fds@ == old(self).fds@ + (match device_info {
                DeviceInfo::Tap { fds, .. } => fds@,
                _ => Seq::empty(),
            }),
    {
        let ghost before = *self;
        match device_info {
            DeviceInfo::Block { id, path, read_only } => {
                self.add_device(Device::Disk { id, path, read_only, direct: true });
                assert(self.fds@ =~= before.fds@ + Seq::<i32>::empty());
            },
            DeviceInfo::Tap { id, name, mac_address, fds } => {
                let mut fd_ints: Vec<i32> = Vec::new();
                let mut i: usize = 0;
                assert(self.fds@ =~= before.fds@ + fds@.take(0));
                while i < fds.len()
                    invariant
                        i <= fds@.len(),
                        before.fds@.len() + fds@.len() + FIRST_PASSED_FD <= i32::MAX,
                        self.fds@ == before.fds@ + fds@.take(i as int),
                        self.devices == before.devices,
                        same_but_devices(*self, before),
                        fd_ints@ == passed_fds(before.fds@.len(), i as nat),
                    decreases fds.len() - i,
                {
                    let index: usize = self.append_fd(fds[i]);
                    fd_ints.push(index as i32);
                    assert(fds@.take(i + 1) =~= fds@.take(i as int).push(fds@[i as int]));
                    assert(self.fds@ =~= before.fds@ + fds@.take(i + 1));
                    assert(fd_ints@ =~= passed_fds(before.fds@.len(), (i + 1) as nat));
                    i = i + 1;
                }
                assert(fds@.take(i as int) =~= fds@);
                self.add_device(Device::Net { id, name, mac: mac_address, fds: fd_ints });
            },
            DeviceInfo::Physical { id, bdf } => {
                self.add_device(Device::Vfio { id, bdf });
                assert(self.fds@ =~= before.fds@ + Seq::<i32>::empty());
            },
            _ => {},
        }
        assert(device_views(self.devices@) =~= device_views(before.devices@).push(
            attached_view(device_info, before.fds@.len()),
        ));
    }

    /// Where the vsock device of this guest listens.
    pub fn vsock_path(&self) -> (r: String)
        ensures
            r@ == self.base_dir@ + "/task.vsock"@,
    {
        concat(self.base_dir.as_str(), "/task.vsock")
    }

    /// Where the console of this guest is written.
    pub fn console_log_path(&self) -> (r: String)
        ensures
            r@ == "/tmp/"@ + self.id@ + "-task.log"@,
    {
        concat3("/tmp/", self.id.as_str(), "-task.log")
    }

    /// Whether the process that shares a directory has to run beside this guest.
    pub fn needs_virtiofsd(&self) -> (r: bool)
        ensures
            r == (self.sharefs_type@ == SHAREFS_VIRTIOFS@),
    {
        same(self.sharefs_type.as_str(), SHAREFS_VIRTIOFS)
    }

    /// Whether the host has to have the tools with which container layers become
    /// block devices.
    pub fn needs_block_tools(&self) -> (r: bool)
        ensures
            r == (self.sharefs_type@ == SHAREFS_VIRTIO_BLK@),
    {
        same(self.sharefs_type.as_str(), SHAREFS_VIRTIO_BLK)
    }

    /// The command line of the hypervisor process: its own options and then those of
    /// its devices. The log level is a parameter with a single hyphen and comes last.
    pub fn start_params(&self, device_params: Vec<String>) -> (r: Vec<String>)
        ensures
            texts(r@) == start_line(self.config, texts(device_params@)),
    {
        let mut params = self.config.to_cmdline_params("--");
        let mut more = device_params;
        let ghost a = params@;
        let ghost b = more@;
        params.append(&mut more);
        assert(texts(params@) =~= texts(a) + texts(b));
        if self.config.debug {
            let ghost c = params@;
            params.push("-vv".to_owned());
            assert(texts(params@) =~= texts(c) + seq!["-vv"@]);
        } else {
            assert(texts(params@) =~= texts(a) + texts(b) + Seq::<Seq<char>>::empty());
        }
        params
    }

    /// The command line of a hypervisor process that is to restore a snapshot:
    /// everything else comes from the snapshot.
    pub fn restore_params(&self) -> (r: Vec<String>)
        ensures
            texts(r@) == restore_line(self.config),
    {
        let mut params: Vec<String> = Vec::new();
        params.push("--api-socket".to_owned());
        params.push(self.config.api_socket.clone());
        if self.config.debug {
            params.push("-vv".to_owned());
        }
        assert(texts(params@) =~= seq!["--api-socket"@, self.config.api_socket@] + (
        if self.config.debug {
            seq!["-vv"@]
        } else {
            Seq::empty()
        }));
        params
    }
}

/// The command line of a hypervisor process that boots a guest.
pub open spec fn start_line(
    config: CloudHypervisorConfig,
    device_params: Seq<Seq<char>>,
) -> Seq<Seq<char>> {
    hypervisor_options(config, "--"@) + device_params + (if config.debug {
        seq!["-vv"@]
    } else {
        Seq::empty()
    })
}

/// The command line of a hypervisor process that restores a guest.
pub open spec fn restore_line(config: CloudHypervisorConfig) -> Seq<Seq<char>> {
    seq!["--api-socket"@, config.api_socket@] + (if config.debug {
        seq!["-vv"@]
    } else {
        Seq::empty()
    })
}

/// A guest that was built from settings and not changed since is booted as they say: with
/// the kernel, the processors and the memory that they give, on its own API socket, with
/// the initial file system where they name one and without one where they do not, and
/// with every parameter of its devices, in order. It is told to log more exactly where it
/// is to be debugged.
pub proof fn lemma_guest_is_booted_as_asked(
    vm: CloudHypervisorVM,
    id: Seq<char>,
    netns: Seq<char>,
    base_dir: Seq<char>,
    c: CloudHypervisorVMConfig,
    device_params: Seq<Seq<char>>,
    k: int,
)
    requires
        built_from(vm, id, netns, base_dir, c),
    ensures
        ({
            let line = start_line(vm.config, device_params);
            let own = hypervisor_options(vm.config, "--"@).len() as int;
            let cpus = cpu_settings(vm.config.cpus);
            let memory = memory_settings(vm.config.memory);
            &&& has_option(line, "--api-socket"@, base_dir + "/api.sock"@)
            &&& has_option(line, "--kernel"@, c.common.kernel_path@)
            &&& has_option(line, "--cmdline"@, vm.config.cmdline@)
            &&& has_option(line, "--cpus"@, joined(cpus, ","@))
            &&& has_option(line, "--memory"@, joined(memory, ","@))
            &&& cpus == seq!["boot="@ + decimal(c.common.vcpus as nat)]
            &&& memory.len() == 3
            &&& memory[0] == "size="@ + decimal((c.common.memory_in_mb * 1024 * 1024) as nat)
            &&& memory[1] == "shared=on"@
            &&& memory[2] == (if c.hugepages {
                "hugepages=on"@
            } else {
                "hugepages=off"@
            })
            &&& c.common.initrd_path@.len() > 0 ==> has_option(
                line,
                "--initramfs"@,
                c.common.initrd_path@,
            )
            &&& c.common.initrd_path@.len() == 0 ==> lacks_option(line.take(own), "--initramfs"@)
            &&& 0 <= k < device_params.len() ==> line[own + k] == device_params[k]
            &&& line.len() == own + device_params.len() + (if c.common.debug {
                1int
            } else {
                0
            })
            &&& c.common.debug ==> line.last() == "-vv"@
        }),
{
    lemma_hypervisor_is_told_all(vm.config, "--"@);
    lemma_cpu_settings_are_complete(vm.config.cpus);
    lemma_memory_settings_are_complete(vm.config.memory);
    let own = hypervisor_options(vm.config, "--"@);
    let line = start_line(vm.config, device_params);
    lemma_long_names();
    assert(line.take(own.len() as int) =~= own);
    lemma_option_stays(own, line, "--api-socket"@, vm.config.api_socket@);
    lemma_option_stays(own, line, "--kernel"@, vm.config.kernel@);
    lemma_option_stays(own, line, "--cmdline"@, vm.config.cmdline@);
    lemma_option_stays(own, line, "--cpus"@, joined(cpu_settings(vm.config.cpus), ","@));
    lemma_option_stays(own, line, "--memory"@, joined(memory_settings(vm.config.memory), ","@));
    assert(cpu_settings(vm.config.cpus) =~= seq!["boot="@ + decimal(c.common.vcpus as nat)]);
    if let Some(path) = vm.config.initramfs {
        lemma_option_stays(own, line, "--initramfs"@, path@);
    }
}

proof fn lemma_option_stays(
    own: Seq<Seq<char>>,
    line: Seq<Seq<char>>,
    name: Seq<char>,
    value: Seq<char>,
)
    requires
        own.len() <= line.len(),
        line.take(own.len() as int) == own,
        has_option(own, name, value),
    ensures
        has_option(line, name, value),
{
    let i = choose|i: int|
        0 <= i && i + 1 < own.len() && i % 2 == 0 && #[trigger] own[i] == name && own[i + 1]
            == value;
    assert(line.take(own.len() as int)[i] == line[i]);
    assert(line.take(own.len() as int)[i + 1] == line[i + 1]);
    lemma_has_option(line, i);
}

proof fn lemma_long_names()
    ensures
        "--"@ + "api-socket"@ == "--api-socket"@,
        "--"@ + "kernel"@ == "--kernel"@,
        "--"@ + "cmdline"@ == "--cmdline"@,
        "--"@ + "cpus"@ == "--cpus"@,
        "--"@ + "memory"@ == "--memory"@,
        "--"@ + "initramfs"@ == "--initramfs"@,
{
    reveal_strlit("--");
    reveal_strlit("api-socket");
    reveal_strlit("kernel");
    reveal_strlit("cmdline");
    reveal_strlit("cpus");
    reveal_strlit("memory");
    reveal_strlit("initramfs");
    reveal_strlit("--api-socket");
    reveal_strlit("--kernel");
    reveal_strlit("--cmdline");
    reveal_strlit("--cpus");
    reveal_strlit("--memory");
    reveal_strlit("--initramfs");
    assert("--"@ + "api-socket"@ =~= "--api-socket"@);
    assert("--"@ + "kernel"@ =~= "--kernel"@);
    assert("--"@ + "cmdline"@ =~= "--cmdline"@);
    assert("--"@ + "cpus"@ =~= "--cpus"@);
    assert("--"@ + "memory"@ =~= "--memory"@);
    assert("--"@ + "initramfs"@ =~= "--initramfs"@);
}

/// A hypervisor that restores a guest is told where its API is and nothing of the guest:
/// all of that comes from the snapshot.
pub proof fn lemma_restored_guest_comes_from_its_snapshot(config: CloudHypervisorConfig)
    ensures
        ({
            let line = restore_line(config);
            &&& has_option(line, "--api-socket"@, config.api_socket@)
            &&& config.debug ==> line.len() == 3 && line[2] == "-vv"@
            &&& !config.debug ==> line.len() == 2
        }),
{
    lemma_has_option(restore_line(config), 0);
}

/// What the kernel is told: the settings of the profile first, then what the
/// configuration adds. A standard guest is also told whether its agent logs more and
/// records traces, and nothing else changes with that; an appliance is not.
pub proof fn lemma_kernel_is_told(c: CloudHypervisorVMConfig, profile: SandboxProfile)
    ensures
        ({
            let line = boot_cmdline(c, profile);
            let head = base_params(profile, c.appliance_fs_type) + " "@ + c.common.kernel_params@;
            let rest = line.skip(head.len() as int);
            &&& line.len() >= head.len() && line.take(head.len() as int) == head
            &&& profile is Appliance ==> rest.len() == 0
            &&& profile is Standard && c.task.debug && c.task.enable_tracing ==> rest
                == " task.log_level=debug task.enable_tracing=true"@
            &&& profile is Standard && c.task.debug && !c.task.enable_tracing ==> rest
                == " task.log_level=debug task.enable_tracing=false"@
            &&& profile is Standard && !c.task.debug && c.task.enable_tracing ==> rest
                == " task.enable_tracing=true"@
            &&& profile is Standard && !c.task.debug && !c.task.enable_tracing ==> rest
                == " task.enable_tracing=false"@
        }),
{
    reveal_strlit(" task.log_level=debug");
    reveal_strlit(" task.enable_tracing=");
    reveal_strlit("true");
    reveal_strlit("false");
    reveal_strlit(" task.log_level=debug task.enable_tracing=true");
    reveal_strlit(" task.log_level=debug task.enable_tracing=false");
    reveal_strlit(" task.enable_tracing=true");
    reveal_strlit(" task.enable_tracing=false");
    assert(" task.log_level=debug"@ + " task.enable_tracing="@ + "true"@
        =~= " task.log_level=debug task.enable_tracing=true"@);
    assert(" task.log_level=debug"@ + " task.enable_tracing="@ + "false"@
        =~= " task.log_level=debug task.enable_tracing=false"@);
    assert(Seq::<char>::empty() + " task.enable_tracing="@ + "true"@
        =~= " task.enable_tracing=true"@);
    assert(Seq::<char>::empty() + " task.enable_tracing="@ + "false"@
        =~= " task.enable_tracing=false"@);
    let line = boot_cmdline(c, profile);
    let head = base_params(profile, c.appliance_fs_type) + " "@ + c.common.kernel_params@;
    assert(line.take(head.len() as int) =~= head);
    assert(line.skip(head.len() as int) =~= task_params(profile, c.task));
}

/// Whether two states of a guest differ at most in its devices and descriptors.
pub open spec fn same_but_devices(a: CloudHypervisorVM, b: CloudHypervisorVM) -> bool {
    &&& a.id == b.id
    &&& a.config == b.config
    &&& a.netns == b.netns
    &&& a.base_dir == b.base_dir
    &&& a.agent_socket == b.agent_socket
    &&& a.virtiofsd_config == b.virtiofsd_config
    &&& a.sharefs_type == b.sharefs_type
    &&& a.pids == b.pids
    &&& a.client == b.client
}

/// A guest that gets a device is otherwise as it was.
pub proof fn lemma_only_devices_change(a: CloudHypervisorVM, b: CloudHypervisorVM)
    ensures
        same_but_devices(a, b) <==> a == (CloudHypervisorVM {
            devices: a.devices,
            fds: a.fds,
            ..b
        }),
{
}

/// The numbers under which the hypervisor process finds `n` descriptors that are
/// passed behind `before` others.
pub open spec fn passed_fds(before: nat, n: nat) -> Seq<i32> {
    Seq::new(n, |i: int| (before + FIRST_PASSED_FD + i) as i32)
}

/// The descriptors of a device get numbers of their own, one behind the other, from
/// the first that is free: behind the standard streams and those passed before.
pub proof fn lemma_descriptors_are_passed_in_order(before: nat, n: nat, a: int, b: int)
    requires
        before + n + 3 <= i32::MAX,
        0 <= a < n,
        0 <= b < n,
    ensures
        passed_fds(before, n).len() == n,
        passed_fds(before, n)[0] == before + 3,
        a + 1 == b ==> passed_fds(before, n)[b] == passed_fds(before, n)[a] + 1,
        a != b ==> passed_fds(before, n)[a] != passed_fds(before, n)[b],
{
}

/// The device that attaching makes, where `passed` descriptors were passed before.
pub open spec fn attached_view(info: DeviceInfo, passed: nat) -> DeviceView {
    match info {
        DeviceInfo::Block { id, path, read_only } => DeviceView::Disk {
            id: id@,
            path: path@,
            read_only,
            direct: true,
        },
        DeviceInfo::Tap { id, name, mac_address, fds } => DeviceView::Net {
            id: id@,
            name: name@,
            mac: mac_address@,
            fds: passed_fds(passed, fds@.len()),
        },
        DeviceInfo::Physical { id, bdf } => DeviceView::Vfio { id: id@, bdf: bdf@ },
        _ => arbitrary(),
    }
}

/// A device is attached as what it is and under its own id: a block device with its path
/// and without the cache of the host, read-only exactly where that is asked; a tap with its
/// name and address and as many descriptors as it has; a physical device by its address.
pub proof fn lemma_device_is_attached_as_it_is(info: DeviceInfo, passed: nat)
    ensures
        match info {
            DeviceInfo::Block { id, path, read_only } => attached_view(
                info,
                passed,
            ) matches DeviceView::Disk { id: i, path: p, read_only: ro, direct: d } && i == id@ && p
                == path@ && ro == read_only && d,
            DeviceInfo::Tap { id, name, mac_address, fds } => attached_view(
                info,
                passed,
            ) matches DeviceView::Net { id: i, name: n, mac: m, fds: f } && i == id@ && n == name@
                && m == mac_address@ && f.len() == fds@.len() && (forall|k: int|
                0 <= k < f.len() ==> #[trigger] f[k] == (passed + 3 + k) as i32),
            DeviceInfo::Physical { id, bdf } => attached_view(
                info,
                passed,
            ) matches DeviceView::Vfio { id: i, bdf: b } && i == id@ && b == bdf@,
            _ => true,
        },
{
}

// ── Processes ───────────────────────────────────────────────────────────────

/// A signal that ends a process.
#[derive(Clone, Copy, Debug, PartialEq, Eq, Structural)]
pub enum StopSignal {
    Term,
    Kill,
}

/// The signal with which a guest is stopped.
pub fn stop_signal(force: bool) -> (r: StopSignal)
    ensures
        r == (if force {
            StopSignal::Kill
        } else {
            StopSignal::Term
        }),
{
    if force {
        StopSignal::Kill
    } else {
        StopSignal::Term
    }
}

/// What came of signalling the hypervisor process.
#[derive(Clone, Copy, Debug, PartialEq, Eq, Structural)]
pub enum KillOutcome {
    Delivered,
    NoSuchProcess,
    Failed,
}

/// What follows from it.
#[derive(Clone, Copy, Debug, PartialEq, Eq, Structural)]
pub enum AfterKill {
    /// Wait until the process has gone, then stop the processes beside it.
    WaitThenStopOthers,
    /// Stop the processes beside it.
    StopOthers,
    /// Give up.
    Fail,
}

/// What follows from signalling the hypervisor process.
pub open spec fn follows_kill(outcome: KillOutcome) -> AfterKill {
    match outcome {
        KillOutcome::Delivered => AfterKill::WaitThenStopOthers,
        KillOutcome::NoSuchProcess => AfterKill::StopOthers,
        KillOutcome::Failed => AfterKill::Fail,
    }
}

/// The processes beside the hypervisor are stopped unless it could not be signalled, and
/// its end is waited for exactly where it got the signal.
pub proof fn lemma_others_are_stopped_with_it(outcome: KillOutcome)
    ensures
        follows_kill(outcome) is Fail <==> outcome is Failed,
        follows_kill(outcome) is WaitThenStopOthers <==> outcome is Delivered,
        follows_kill(outcome) is StopOthers <==> outcome is NoSuchProcess,
{
}

/// What follows from signalling the hypervisor process: one that is gone already
/// is as good as stopped.
pub fn after_kill(outcome: KillOutcome) -> (r: AfterKill)
    ensures
        r == follows_kill(outcome),
{
    match outcome {
        KillOutcome::Delivered => AfterKill::WaitThenStopOthers,
        KillOutcome::NoSuchProcess => AfterKill::StopOthers,
        KillOutcome::Failed => AfterKill::Fail,
    }
}

/// The processes that can be signalled: a number of 0 stands for none.
pub open spec fn live_pids(pids: Seq<u32>) -> Seq<u32> {
    pids.filter(|p: u32| p > 0)
}

/// Exactly the processes that there are are signalled, as often as they are named.
pub proof fn lemma_every_process_is_signalled(pids: Seq<u32>, p: u32)
    ensures
        live_pids(pids).contains(p) <==> p > 0 && pids.contains(p),
        live_pids(pids).len() <= pids.len(),
        (forall|i: int| 0 <= i < pids.len() ==> #[trigger] pids[i] > 0) ==> live_pids(pids) == pids,
    decreases pids.len(),
{
    reveal(Seq::filter);
    let keep = |p: u32| p > 0;
    if pids.len() > 0 {
        let init = pids.drop_last();
        lemma_every_process_is_signalled(init, p);
        assert(pids =~= init.push(pids.last()));
        assert(live_pids(init) == init.filter(keep));
        if pids.contains(p) {
            let i = choose|i: int| 0 <= i < pids.len() && pids[i] == p;
            if i < init.len() {
                assert(init[i] == p);
            }
        }
        if init.contains(p) {
            let i = choose|i: int| 0 <= i < init.len() && init[i] == p;
            assert(pids[i] == p);
        }
        let now = live_pids(pids);
        if pids.last() > 0 {
            assert(now == live_pids(init).push(pids.last()));
            assert(now[now.len() - 1] == pids.last());
            assert(pids[pids.len() - 1] == pids.last());
            if live_pids(init).contains(p) {
                let i = choose|i: int| 0 <= i < live_pids(init).len() && live_pids(init)[i] == p;
                assert(now[i] == p);
            }
            if now.contains(p) {
                let i = choose|i: int| 0 <= i < now.len() && now[i] == p;
                if i < live_pids(init).len() {
                    assert(live_pids(init)[i] == p);
                }
            }
        } else {
            assert(now == live_pids(init));
            assert(pids[pids.len() - 1] == 0);
        }
    } else {
        assert(live_pids(pids) =~= pids);
    }
}

/// The hypervisor process to signal, where there is one.
pub fn vmm_target(pids: &Pids) -> (r: Option<u32>)
    ensures
        match r {
            Some(pid) => pids.vmm_pid == Some(pid) && pid > 0,
            None => pids.vmm_pid is None || pids.vmm_pid == Some(0u32),
        },
{
    match pids.vmm_pid {
        Some(pid) => if pid > 0 {
            Some(pid)
        } else {
            None
        },
        None => None,
    }
}

/// The processes beside the hypervisor to signal.
pub fn affiliated_targets(pids: &Pids) -> (r: Vec<u32>)
    ensures
        r@ == live_pids(pids.affiliated_pids@),
{
    let mut out: Vec<u32> = Vec::new();
    let mut i: usize = 0;
    let ghost keep = |p: u32| p > 0;
    assert(pids.affiliated_pids@.take(0).filter(keep) =~= Seq::<u32>::empty()) by {
        reveal(Seq::filter);
    }
    while i < pids.affiliated_pids.len()
        invariant
            i <= pids.affiliated_pids@.len(),
            keep == (|p: u32| p > 0),
            out@ == pids.affiliated_pids@.take(i as int).filter(keep),
        decreases pids.affiliated_pids.len() - i,
    {
        let pid: u32 = pids.affiliated_pids[i];
        proof {
            reveal(Seq::filter);
            assert(pids.affiliated_pids@.take(i + 1).drop_last()
                =~= pids.affiliated_pids@.take(i as int));
            assert(pids.affiliated_pids@.take(i + 1).last() == pid);
        }
        if pid > 0 {
            out.push(pid);
        }
        i = i + 1;
    }
    assert(pids.affiliated_pids@.take(i as int) =~= pids.affiliated_pids@);
    out
}

/// The number of the virtual processor that a thread of the hypervisor runs, by
/// the name of the thread.
pub open spec fn vcpu_of_thread(comm: Seq<char>) -> Option<u64> {
    match without_prefix(comm, "vcpu"@) {
        Some(rest) => decimal_u64(rest),
        None => None,
    }
}

/// The number of the virtual processor that a thread of the hypervisor runs, by
/// the name of the thread.
pub fn vcpu_index(comm: &str) -> (r: Option<u64>)
    ensures
        r == vcpu_of_thread(comm@),
{
    match strip_prefix(comm, "vcpu") {
        Some(rest) => parse_u64(rest.as_str()),
        None => None,
    }
}

/// A thread of the hypervisor.
pub struct Task {
    /// The name of the thread.
    pub comm: String,
    pub tid: i64,
}

/// The threads that run virtual processors, by the number of the processor. Of two
/// threads for one processor the later counts.
pub open spec fn vcpu_map(tasks: Seq<Task>) -> Map<u64, i64>
    decreases tasks.len(),
{
    if tasks.len() == 0 {
        Map::empty()
    } else {
        match vcpu_of_thread(tasks.last().comm@) {
            Some(index) => vcpu_map(tasks.drop_last()).insert(index, tasks.last().tid),
            None => vcpu_map(tasks.drop_last()),
        }
    }
}

/// A thread that is named for a processor runs it, and a thread with another name none.
/// Of the threads of one processor the last counts.
pub proof fn lemma_threads_of_processors(tasks: Seq<Task>, n: u64, i: int)
    ensures
        vcpu_of_thread("vcpu"@ + decimal(n as nat)) == Some(n),
        !"vcpu"@.is_prefix_of(tasks[i].comm@) ==> vcpu_of_thread(tasks[i].comm@) is None,
        0 <= i < tasks.len() && tasks[i].comm@ == "vcpu"@ + decimal(n as nat) && (forall|k: int|
            i < k < tasks.len() ==> vcpu_of_thread((#[trigger] tasks[k]).comm@) != Some(n))
            ==> vcpu_map(tasks).contains_key(n) && vcpu_map(tasks)[n] == tasks[i].tid,
        (forall|k: int|
            0 <= k < tasks.len() ==> vcpu_of_thread((#[trigger] tasks[k]).comm@) != Some(n))
            ==> !vcpu_map(tasks).contains_key(n),
    decreases tasks.len(),
{
    lemma_decimal_round_trip(n);
    let name = "vcpu"@ + decimal(n as nat);
    assert("vcpu"@.is_prefix_of(name));
    assert(name.skip("vcpu"@.len() as int) =~= decimal(n as nat));
    assert(without_prefix(name, "vcpu"@) == Some(decimal(n as nat)));
    if tasks.len() > 0 {
        let init = tasks.drop_last();
        assert(forall|k: int| 0 <= k < init.len() ==> #[trigger] init[k] == tasks[k]);
        lemma_threads_of_processors(init, n, i);
        assert(tasks[tasks.len() - 1] == tasks.last());
    }
}

/// The threads that run virtual processors, among all threads of the hypervisor.
pub fn vcpu_threads(tasks: &Vec<Task>) -> (r: HashMap<u64, i64>)
    ensures
        r@ == vcpu_map(tasks@),
{
    broadcast use vstd::std_specs::hash::group_hash_axioms;

    let mut out: HashMap<u64, i64> = HashMap::new();
    let mut i: usize = 0;
    while i < tasks.len()
        invariant
            i <= tasks@.len(),
            out@ == vcpu_map(tasks@.take(i as int)),
        decreases tasks.len() - i,
    {
        broadcast use vstd::std_specs::hash::group_hash_axioms;

        assert(tasks@.take(i + 1).drop_last() =~= tasks@.take(i as int));
        if let Some(index) = vcpu_index(tasks[i].comm.as_str()) {
            out.insert(index, tasks[i].tid);
        }
        i = i + 1;
    }
    assert(tasks@.take(i as int) =~= tasks@);
    out
}

// ── Taking up a running guest ───────────────────────────────────────────────

/// What the host finds of a guest after a restart of its own process.
#[derive(Clone, Copy, Debug, PartialEq, Eq, Structural)]
pub struct Liveness {
    /// The hypervisor process exists.
    pub process: bool,
    /// The socket of the hypervisor's API exists.
    pub api_socket: bool,
}

/// Why a guest cannot be taken up.
#[derive(Clone, Copy, Debug, PartialEq, Eq, Structural)]
pub enum RecoverError {
    NoPid,
    ProcessGone,
    SocketGone,
}

/// The process of a guest that can be taken up, or why it cannot be.
pub open spec fn recoverable(vmm_pid: Option<u32>, alive: Liveness) -> Result<u32, RecoverError> {
    match vmm_pid {
        None => Err(RecoverError::NoPid),
        Some(pid) => if !alive.process {
            Err(RecoverError::ProcessGone)
        } else if !alive.api_socket {
            Err(RecoverError::SocketGone)
        } else {
            Ok(pid)
        },
    }
}

/// A guest is taken up exactly where its process is known and there, and so is its socket;
/// it is taken up as the process that it was.
pub proof fn lemma_only_a_living_guest_is_taken_up(vmm_pid: Option<u32>, alive: Liveness)
    ensures
        recoverable(vmm_pid, alive) is Ok <==> vmm_pid is Some && alive.process && alive.api_socket,
        recoverable(vmm_pid, alive) is Ok ==> Some(recoverable(vmm_pid, alive)->Ok_0) == vmm_pid,
        recoverable(vmm_pid, alive) == Err::<u32, RecoverError>(RecoverError::NoPid) <==> vmm_pid
            is None,
        recoverable(vmm_pid, alive) == Err::<u32, RecoverError>(RecoverError::ProcessGone)
            <==> vmm_pid is Some && !alive.process,
{
}

/// Whether a guest can be taken up: without a process or a socket it is not even
/// tried, and does not have to time out.
pub fn check_recoverable(pids: &Pids, alive: Liveness) -> (r: Result<u32, RecoverError>)
    ensures
        r == recoverable(pids.vmm_pid, alive),
{
    match pids.vmm_pid {
        None => Err(RecoverError::NoPid),
        Some(pid) => {
            if !alive.process {
                Err(RecoverError::ProcessGone)
            } else if !alive.api_socket {
                Err(RecoverError::SocketGone)
            } else {
                Ok(pid)
            }
        },
    }
}

// ── Snapshots ───────────────────────────────────────────────────────────────

/// A request to the hypervisor while a snapshot is taken.
#[derive(Clone, Copy, Debug, PartialEq, Eq, Structural)]
pub enum SnapshotStep {
    /// Have the guest write its file systems back. The snapshot is taken even
    /// where this fails.
    SyncGuest,
    Pause,
    Snapshot,
    Resume,
    /// All requests were made.
    Finish,
}

/// What comes of a snapshot.
#[derive(Clone, Copy, Debug, PartialEq, Eq, Structural)]
pub enum SnapshotOutcome {
    Running(SnapshotStep),
    Done,
    PauseFailed,
    SnapshotFailed,
}

/// A snapshot that is being taken.
#[derive(Clone, Copy, Debug, PartialEq, Eq, Structural)]
pub struct SnapshotFlow {
    pub step: SnapshotStep,
    /// Whether the guest stands still.
    pub paused: bool,
    /// Whether the snapshot was written.
    pub written: bool,
}

impl SnapshotFlow {
    /// At the beginning.
    pub fn new() -> (r: Self)
        ensures
            r.step is SyncGuest && !r.paused && !r.written,
    {
        SnapshotFlow { step: SnapshotStep::SyncGuest, paused: false, written: false }
    }

    /// Whether the guest stands still exactly between pause and resume.
    pub open spec fn wf(self) -> bool {
        match self.step {
            SnapshotStep::SyncGuest | SnapshotStep::Pause => !self.paused && !self.written,
            SnapshotStep::Snapshot => self.paused && !self.written,
            SnapshotStep::Resume => self.paused,
            SnapshotStep::Finish => true,
        }
    }

    /// Takes the answer to the last request. A guest that was paused is always
    /// asked to go on, also where the snapshot failed.
    pub fn advance(&mut self, ok: bool) -> (r: SnapshotOutcome)
        requires
            old(self).wf(),
        ensures
            final(self).wf(),
            (*final(self), r) == advanced(*old(self), ok),
    {
        match self.step {
            SnapshotStep::SyncGuest => {
                self.step = SnapshotStep::Pause;
                SnapshotOutcome::Running(SnapshotStep::Pause)
            },
            SnapshotStep::Pause => {
                if ok {
                    self.paused = true;
                    self.step = SnapshotStep::Snapshot;
                    SnapshotOutcome::Running(SnapshotStep::Snapshot)
                } else {
                    self.step = SnapshotStep::Finish;
                    SnapshotOutcome::PauseFailed
                }
            },
            SnapshotStep::Snapshot => {
                self.written = ok;
                self.step = SnapshotStep::Resume;
                SnapshotOutcome::Running(SnapshotStep::Resume)
            },
            SnapshotStep::Resume => {
                self.paused = !ok;
                self.step = SnapshotStep::Finish;
                if self.written {
                    SnapshotOutcome::Done
                } else {
                    SnapshotOutcome::SnapshotFailed
                }
            },
            SnapshotStep::Finish => {
                if self.written {
                    SnapshotOutcome::Done
                } else {
                    SnapshotOutcome::SnapshotFailed
                }
            },
        }
    }
}

/// What a snapshot becomes with the answer to the last request, and what follows.
pub open spec fn advanced(f: SnapshotFlow, ok: bool) -> (SnapshotFlow, SnapshotOutcome) {
    let outcome = match f.step {
        SnapshotStep::SyncGuest => SnapshotOutcome::Running(SnapshotStep::Pause),
        SnapshotStep::Pause => if ok {
            SnapshotOutcome::Running(SnapshotStep::Snapshot)
        } else {
            SnapshotOutcome::PauseFailed
        },
        SnapshotStep::Snapshot => SnapshotOutcome::Running(SnapshotStep::Resume),
        SnapshotStep::Resume | SnapshotStep::Finish => if f.written {
            SnapshotOutcome::Done
        } else {
            SnapshotOutcome::SnapshotFailed
        },
    };
    let now = SnapshotFlow {
        step: match outcome {
            SnapshotOutcome::Running(step) => step,
            _ => SnapshotStep::Finish,
        },
        written: f.written || (f.step is Snapshot && ok),
        paused: match f.step {
            SnapshotStep::Pause => ok,
            SnapshotStep::Resume => f.paused && !ok,
            _ => f.paused,
        },
    };
    (now, outcome)
}

/// A snapshot from beginning to end, whatever is answered: the guest is paused even where
/// its file systems could not be written back; where it cannot be paused nothing more is
/// asked of it; and once it is paused a snapshot is asked for and then, whether or not
/// that was written, that the guest go on. It is done exactly where the snapshot was
/// written, and the guest stands still afterwards only where it could not be resumed.
pub proof fn lemma_paused_guest_always_goes_on(
    f: SnapshotFlow,
    synced: bool,
    paused: bool,
    written: bool,
    resumed: bool,
)
    requires
        f.step is SyncGuest && !f.paused && !f.written,
    ensures
        ({
            let (a, asks_pause) = advanced(f, synced);
            let (b, asks_snapshot) = advanced(a, paused);
            let (c, asks_resume) = advanced(b, written);
            let (d, end) = advanced(c, resumed);
            &&& asks_pause == SnapshotOutcome::Running(SnapshotStep::Pause)
            &&& !paused ==> asks_snapshot is PauseFailed && !b.paused
            &&& paused ==> {
                &&& asks_snapshot == SnapshotOutcome::Running(SnapshotStep::Snapshot)
                &&& b.paused && c.paused
                &&& asks_resume == SnapshotOutcome::Running(SnapshotStep::Resume)
                &&& end == (if written {
                    SnapshotOutcome::Done
                } else {
                    SnapshotOutcome::SnapshotFailed
                })
                &&& d.paused <==> !resumed
            }
        }),
{
}

/// A step of starting a guest.
#[derive(Clone, Copy, Debug, PartialEq, Eq, Structural)]
pub enum StartStep {
    /// Make the directory of the sandbox.
    CreateDir,
    /// Look for the tools with which container layers become block devices.
    CheckBlockTools,
    /// Start the process that shares a directory.
    StartVirtiofsd,
    /// Start the hypervisor process.
    Spawn,
    /// Connect to the hypervisor's API.
    Connect,
}

/// The steps of starting a guest that shares files in the given way.
pub open spec fn start_plan(sharefs_type: Seq<char>) -> Seq<StartStep> {
    seq![StartStep::CreateDir] + (if sharefs_type == SHAREFS_VIRTIO_BLK@ {
        seq![StartStep::CheckBlockTools]
    } else {
        Seq::empty()
    }) + (if sharefs_type == SHAREFS_VIRTIOFS@ {
        seq![StartStep::StartVirtiofsd]
    } else {
        Seq::empty()
    }) + seq![StartStep::Spawn, StartStep::Connect]
}

impl CloudHypervisorVM {
    /// The steps of starting this guest. The first that fails ends it.
    pub fn start_steps(&self) -> (r: Vec<StartStep>)
        ensures
            r@ == start_plan(self.sharefs_type@),
    {
        let mut steps: Vec<StartStep> = Vec::new();
        steps.push(StartStep::CreateDir);
        if self.needs_block_tools() {
            steps.push(StartStep::CheckBlockTools);
        }
        if self.needs_virtiofsd() {
            steps.push(StartStep::StartVirtiofsd);
        }
        steps.push(StartStep::Spawn);
        steps.push(StartStep::Connect);
        assert(steps@ =~= start_plan(self.sharefs_type@));
        steps
    }
}

/// Whether the processes that were started must be killed where a step fails.
pub open spec fn start_kills(step: StartStep) -> bool {
    step is Connect
}

/// A guest is started in order: its directory is there first, then the hypervisor is
/// started, and then connected to. Before the hypervisor is started the tools for block
/// devices are looked for, exactly where containers live on block devices, and the process
/// that shares a directory is started, exactly where one is shared.
pub proof fn lemma_guest_is_started_in_order(sharefs_type: Seq<char>)
    ensures
        ({
            let plan = start_plan(sharefs_type);
            &&& plan.no_duplicates()
            &&& comes_before(plan, StartStep::CreateDir, StartStep::Spawn)
            &&& comes_before(plan, StartStep::Spawn, StartStep::Connect)
            &&& sharefs_type == "virtio-blk"@ ==> comes_before(
                plan,
                StartStep::CheckBlockTools,
                StartStep::Spawn,
            )
            &&& sharefs_type != "virtio-blk"@ ==> !plan.contains(StartStep::CheckBlockTools)
            &&& sharefs_type == "virtiofs"@ ==> comes_before(
                plan,
                StartStep::StartVirtiofsd,
                StartStep::Spawn,
            ) && comes_before(plan, StartStep::CreateDir, StartStep::StartVirtiofsd)
            &&& sharefs_type != "virtiofs"@ ==> !plan.contains(StartStep::StartVirtiofsd)
        }),
{
    reveal_strlit("virtio-blk");
    reveal_strlit("virtiofs");
    assert(SHAREFS_VIRTIO_BLK@.len() == 10);
    assert(SHAREFS_VIRTIOFS@.len() == 8);
    let plan = start_plan(sharefs_type);
    let n = plan.len() as int;
    if sharefs_type == SHAREFS_VIRTIO_BLK@ {
        assert(plan =~= seq![
            StartStep::CreateDir,
            StartStep::CheckBlockTools,
            StartStep::Spawn,
            StartStep::Connect,
        ]);
        lemma_comes_before(plan, 1, 2);
    } else if sharefs_type == SHAREFS_VIRTIOFS@ {
        assert(plan =~= seq![
            StartStep::CreateDir,
            StartStep::StartVirtiofsd,
            StartStep::Spawn,
            StartStep::Connect,
        ]);
        lemma_comes_before(plan, 0, 1);
        lemma_comes_before(plan, 1, 2);
    } else {
        assert(plan =~= seq![StartStep::CreateDir, StartStep::Spawn, StartStep::Connect]);
    }
    lemma_comes_before(plan, 0, n - 2);
    lemma_comes_before(plan, n - 2, n - 1);
}

/// Whether the processes that were started must be killed where a step fails:
/// only the connection comes after them.
pub fn kill_after_failed_start(step: StartStep) -> (r: bool)
    ensures
        r == start_kills(step),
{
    matches!(step, StartStep::Connect)
}

/// Where a step fails once the hypervisor runs, the hypervisor is killed; and it
/// is not where it does not run yet.
pub proof fn lemma_failed_start_leaves_no_hypervisor(sharefs_type: Seq<char>, i: int)
    requires
        0 <= i < start_plan(sharefs_type).len(),
    ensures
        start_kills(start_plan(sharefs_type)[i]) <==> exists|k: int|
            0 <= k < i && (#[trigger] start_plan(sharefs_type)[k]) is Spawn,
{
    let plan = start_plan(sharefs_type);
    if sharefs_type == SHAREFS_VIRTIO_BLK@ {
        reveal_strlit("virtio-blk");
        reveal_strlit("virtiofs");
        assert(sharefs_type != SHAREFS_VIRTIOFS@) by {
            assert(SHAREFS_VIRTIO_BLK@.len() == 10);
            assert(SHAREFS_VIRTIOFS@.len() == 8);
        }
    }
    let n = plan.len() as int;
    assert(plan[n - 2] is Spawn && plan[n - 1] is Connect);
    assert(forall|k: int| 0 <= k < n - 2 ==> !((#[trigger] plan[k]) is Spawn));
}

/// A step of restoring a guest from a snapshot.
#[derive(Clone, Copy, Debug, PartialEq, Eq, Structural)]
pub enum RestoreStep {
    /// Make the working directory.
    CreateWorkDir,
    /// Write the patched configuration into the working directory.
    PatchConfig,
    /// Link the memory of the snapshot into the working directory.
    LinkMemory,
    /// Link the device state of the snapshot into the working directory.
    LinkState,
    /// Start a hypervisor process that knows only where its API is.
    Spawn,
    /// Connect to its API.
    Connect,
    /// Have it load the snapshot.
    Restore,
    /// The snapshot was taken of a guest that stood still: let it go on.
    Resume,
    /// Wait until the agent in the guest answers.
    WaitAgent,
}

/// The steps of restoring a guest. What is linked already is not linked again.
pub open spec fn restore_plan(memory_linked: bool, state_linked: bool) -> Seq<RestoreStep> {
    seq![RestoreStep::CreateWorkDir, RestoreStep::PatchConfig] + (if memory_linked {
        Seq::empty()
    } else {
        seq![RestoreStep::LinkMemory]
    }) + (if state_linked {
        Seq::empty()
    } else {
        seq![RestoreStep::LinkState]
    }) + seq![
        RestoreStep::Spawn,
        RestoreStep::Connect,
        RestoreStep::Restore,
        RestoreStep::Resume,
        RestoreStep::WaitAgent,
    ]
}

/// The steps of restoring a guest. The first that fails ends it.
pub fn restore_steps(memory_linked: bool, state_linked: bool) -> (r: Vec<RestoreStep>)
    ensures
        r@ == restore_plan(memory_linked, state_linked),
{
    let mut steps: Vec<RestoreStep> = Vec::new();
    steps.push(RestoreStep::CreateWorkDir);
    steps.push(RestoreStep::PatchConfig);
    if !memory_linked {
        steps.push(RestoreStep::LinkMemory);
    }
    if !state_linked {
        steps.push(RestoreStep::LinkState);
    }
    steps.push(RestoreStep::Spawn);
    steps.push(RestoreStep::Connect);
    steps.push(RestoreStep::Restore);
    steps.push(RestoreStep::Resume);
    steps.push(RestoreStep::WaitAgent);
    assert(steps@ =~= restore_plan(memory_linked, state_linked));
    steps
}

/// Whether the hypervisor must be killed where a step of a restore fails.
pub open spec fn restore_kills(step: RestoreStep) -> bool {
    step is Connect || step is WaitAgent
}

/// A guest is restored in order: the patched configuration is written into the working
/// directory, the memory and the device state are linked there unless they are already,
/// and only then a hypervisor is started, connected to, has it load the snapshot, lets the
/// guest go on and waits for its agent.
pub proof fn lemma_guest_is_restored_in_order(memory_linked: bool, state_linked: bool)
    ensures
        ({
            let plan = restore_plan(memory_linked, state_linked);
            &&& plan.no_duplicates()
            &&& comes_before(plan, RestoreStep::CreateWorkDir, RestoreStep::PatchConfig)
            &&& comes_before(plan, RestoreStep::PatchConfig, RestoreStep::Spawn)
            &&& comes_before(plan, RestoreStep::Spawn, RestoreStep::Connect)
            &&& comes_before(plan, RestoreStep::Connect, RestoreStep::Restore)
            &&& comes_before(plan, RestoreStep::Restore, RestoreStep::Resume)
            &&& comes_before(plan, RestoreStep::Resume, RestoreStep::WaitAgent)
            &&& memory_linked ==> !plan.contains(RestoreStep::LinkMemory)
            &&& !memory_linked ==> comes_before(
                plan,
                RestoreStep::CreateWorkDir,
                RestoreStep::LinkMemory,
            ) && comes_before(plan, RestoreStep::LinkMemory, RestoreStep::Spawn)
            &&& state_linked ==> !plan.contains(RestoreStep::LinkState)
            &&& !state_linked ==> comes_before(
                plan,
                RestoreStep::CreateWorkDir,
                RestoreStep::LinkState,
            ) && comes_before(plan, RestoreStep::LinkState, RestoreStep::Spawn)
        }),
{
    let plan = restore_plan(memory_linked, state_linked);
    let n = plan.len() as int;
    assert(plan[0] == RestoreStep::CreateWorkDir && plan[1] == RestoreStep::PatchConfig);
    assert(plan[n - 5] == RestoreStep::Spawn && plan[n - 4] == RestoreStep::Connect);
    assert(plan[n - 3] == RestoreStep::Restore && plan[n - 2] == RestoreStep::Resume);
    assert(plan[n - 1] == RestoreStep::WaitAgent);
    if !memory_linked {
        assert(plan[2] == RestoreStep::LinkMemory);
    }
    if !state_linked {
        assert(plan[n - 6] == RestoreStep::LinkState);
    }
    assert(plan.no_duplicates());
    lemma_comes_before(plan, 0, 1);
    lemma_comes_before(plan, 1, n - 5);
    lemma_comes_before(plan, n - 5, n - 4);
    lemma_comes_before(plan, n - 4, n - 3);
    lemma_comes_before(plan, n - 3, n - 2);
    lemma_comes_before(plan, n - 2, n - 1);
    if !memory_linked {
        lemma_comes_before(plan, 0, 2);
        lemma_comes_before(plan, 2, n - 5);
    }
    if !state_linked {
        lemma_comes_before(plan, 0, n - 6);
        lemma_comes_before(plan, n - 6, n - 5);
    }
}

/// Whether the hypervisor must be killed where a step of a restore fails: where
/// the connection to its API or the agent's answer fails. What comes between is
/// left to the caller.
pub fn kill_after_failed_restore(step: RestoreStep) -> (r: bool)
    ensures
        r == restore_kills(step),
{
    matches!(step, RestoreStep::Connect | RestoreStep::WaitAgent)
}

/// The hypervisor is killed after a failed step of a restore only where it was
/// started before, and the snapshot is loaded only once all of it is in place.
pub proof fn lemma_failed_restore_kills_what_runs(
    memory_linked: bool,
    state_linked: bool,
    i: int,
)
    requires
        0 <= i < restore_plan(memory_linked, state_linked).len(),
    ensures
        ({
            let plan = restore_plan(memory_linked, state_linked);
            &&& restore_kills(plan[i]) ==> exists|k: int|
                0 <= k < i && (#[trigger] plan[k]) is Spawn
            &&& plan[i] is Connect || plan[i] is WaitAgent ==> restore_kills(plan[i])
            &&& plan[i] is Restore || plan[i] is Resume ==> !restore_kills(plan[i])
            &&& plan[i] is Restore ==> (exists|k: int|
                0 <= k < i && (#[trigger] plan[k]) is PatchConfig) && (memory_linked || exists|
                k: int,
            | 0 <= k < i && (#[trigger] plan[k]) is LinkMemory) && (state_linked || exists|k: int|
                0 <= k < i && (#[trigger] plan[k]) is LinkState)
        }),
{
    let plan = restore_plan(memory_linked, state_linked);
    let n = plan.len() as int;
    assert(plan[n - 5] is Spawn && plan[n - 4] is Connect && plan[n - 3] is Restore);
    assert(plan[n - 2] is Resume && plan[n - 1] is WaitAgent);
    assert(plan[1] is PatchConfig);
    assert(!memory_linked ==> plan[2] is LinkMemory);
    assert(!state_linked ==> plan[n - 6] is LinkState);
}

/// How long a restored guest may take until its agent answers, in seconds.
pub const AGENT_READY_TIMEOUT_SECS: u64 = 15;

/// How long is waited before the agent is asked again, in milliseconds.
pub const AGENT_POLL_MS: u64 = 100;

/// How long the agent may take to answer, in seconds.
pub const AGENT_CHECK_TIMEOUT_SECS: u64 = 3;

/// What follows an attempt to reach the agent.
#[derive(Clone, Copy, Debug, PartialEq, Eq, Structural)]
pub enum AgentPoll {
    Ready,
    Again,
    TimedOut,
}

/// What follows an attempt to reach the agent.
pub open spec fn polled(
    connected: bool,
    answered: bool,
    elapsed_ms: nat,
    timeout_secs: nat,
) -> AgentPoll {
    if connected && answered {
        AgentPoll::Ready
    } else if elapsed_ms < timeout_secs * 1000 {
        AgentPoll::Again
    } else {
        AgentPoll::TimedOut
    }
}

/// An agent that answers is ready, however late; one that does not is asked again until the
/// time is up, and from then on no more.
pub proof fn lemma_agent_is_asked_until_the_time_is_up(
    connected: bool,
    answered: bool,
    elapsed_ms: nat,
    later_ms: nat,
    timeout_secs: nat,
)
    requires
        elapsed_ms <= later_ms,
    ensures
        polled(connected, answered, elapsed_ms, timeout_secs) is Ready <==> connected && answered,
        polled(false, answered, elapsed_ms, timeout_secs) is TimedOut ==> polled(
            connected,
            false,
            later_ms,
            timeout_secs,
        ) is TimedOut,
        polled(false, answered, timeout_secs * 1000, timeout_secs) is TimedOut,
        timeout_secs > 0 ==> polled(
            connected,
            false,
            (timeout_secs * 1000 - 1) as nat,
            timeout_secs,
        ) is Again,
{
}

/// What follows an attempt to reach the agent: it is ready once it can be connected
/// to and answers. Until the time is up it is asked again.
pub fn agent_poll(connected: bool, answered: bool, elapsed_ms: u64, timeout_secs: u64) -> (r: AgentPoll)
    ensures
        r == polled(connected, answered, elapsed_ms as nat, timeout_secs as nat),
{
    if connected && answered {
        AgentPoll::Ready
    } else if elapsed_ms / 1000 < timeout_secs {
        AgentPoll::Again
    } else {
        AgentPoll::TimedOut
    }
}

/// What is said of an agent that did not get ready in time.
pub fn agent_timeout_message(timeout_secs: u64) -> (r: String)
    ensures
        r@ == decimal(timeout_secs as nat) + "s timeout waiting for agent ready after restore"@,
{
    let number = u64_to_string(timeout_secs);
    concat(number.as_str(), "s timeout waiting for agent ready after restore")
}

/// How the end of the hypervisor is told: with its exit code, or 0 where it has
/// none, and the time.
pub fn exit_report(code: Option<i32>, now: i128) -> (r: (u32, i128))
    ensures
        r.0 == (match code {
            Some(c) => c as u32,
            None => 0,
        }),
        r.1 == now,
{
    match code {
        Some(c) => (c as u32, now),
        None => (0, now),
    }
}

/// Whether the end of the hypervisor is still to be waited for: where it was started
/// and no end was told.
pub fn awaits_end(told_at: Option<i128>) -> (r: bool)
    ensures
        r == (told_at == Some(0i128)),
{
    match told_at {
        Some(at) => at == 0,
        None => false,
    }
}

/// The address under which the hypervisor writes or finds a snapshot.
pub fn snapshot_url(dir: &str) -> (r: String)
    ensures
        r@ == "file://"@ + dir@,
{
    concat("file://", dir)
}

} // verus!
