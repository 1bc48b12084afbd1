//! Building guests.

use crate::cloud_hypervisor::config::CloudHypervisorVMConfig;
use crate::cloud_hypervisor::vm::{
    boot_cmdline, built_from, device_views, same_but_devices, CloudHypervisorVM, Device, DeviceView,
};
use crate::guest_runtime::appliance::{keep_nonempty, nonempty_or};
use crate::profile::{SandboxProfile, ANNOTATION_APPLIANCE_APP, ANNOTATION_APPLIANCE_IMAGE};
use crate::sandbox::data::{annotations_of, lookup, SandboxData};
use crate::text::{concat, concat3};
use vstd::prelude::*;

verus! {

/// Why a guest cannot be built.
#[derive(Clone, Copy, Debug, PartialEq, Eq, Structural)]
pub enum CreateVmError {
    /// An appliance without an image.
    MissingImage,
    /// An appliance without an executable.
    MissingApp,
}

/// What a sandbox is made from.
pub struct SandboxOption {
    pub base_dir: String,
    pub sandbox: SandboxData,
}

/// Builds Cloud Hypervisor guests.
pub struct CloudHypervisorVMFactory {
    pub vm_config: CloudHypervisorVMConfig,
    pub profile: SandboxProfile,
}

/// The image that a guest boots from: an appliance's annotation goes before the
/// settings.
pub open spec fn image_of(f: CloudHypervisorVMFactory, data: SandboxData) -> Seq<char> {
    match f.profile {
        SandboxProfile::Appliance => nonempty_or(
            lookup(annotations_of(data), ANNOTATION_APPLIANCE_IMAGE@),
            f.vm_config.common.image_path@,
        ),
        SandboxProfile::Standard => f.vm_config.common.image_path@,
    }
}

/// The executable of an appliance.
pub open spec fn app_of(f: CloudHypervisorVMFactory, data: SandboxData) -> Seq<char> {
    nonempty_or(
        lookup(annotations_of(data), ANNOTATION_APPLIANCE_APP@),
        f.vm_config.appliance_app@,
    )
}

/// The devices of a new guest, in order.
pub open spec fn new_devices(
    f: CloudHypervisorVMFactory,
    id: Seq<char>,
    s: SandboxOption,
    fs_socket: Seq<char>,
) -> Seq<DeviceView> {
    let image = image_of(f, s.sandbox);
    let a = if image.len() > 0 {
        seq![DeviceView::Pmem { id: "rootfs"@, path: image, discard_writes: true }]
    } else {
        Seq::empty()
    };
    let b = if f.vm_config.entropy_source@.len() > 0 {
        a.push(DeviceView::Rng { id: "rng"@, source: f.vm_config.entropy_source@ })
    } else {
        a
    };
    let c = b.push(
        DeviceView::Vsock { cid: 3, socket: s.base_dir@ + "/task.vsock"@, id: "vsock"@ },
    );
    let d = c.push(DeviceView::Console { path: "/tmp/"@ + id + "-task.log"@, id: "console"@ });
    if f.profile is Standard && fs_socket.len() > 0 {
        d.push(DeviceView::Fs { id: "fs"@, socket: fs_socket, tag: "kuasar"@ })
    } else {
        d
    }
}

/// Where the agent of a guest is found: a standard guest is connected to, an
/// appliance connects by itself.
pub open spec fn agent_address(profile: SandboxProfile, base_dir: Seq<char>) -> Seq<char> {
    match profile {
        SandboxProfile::Standard => "hvsock://"@ + (base_dir + "/task.vsock"@) + ":1024"@,
        SandboxProfile::Appliance => "unix://"@ + (base_dir + "/task.vsock"@) + "_1024"@,
    }
}

/// What a new guest has: its image, where there is one, with changes thrown away; the
/// source of its randomness, where there is one; its vsock device and its console; a
/// shared directory exactly where a standard guest shares one; and no other device. Its
/// agent is found on the socket of its vsock device.
pub proof fn lemma_new_guest_has_its_devices(
    f: CloudHypervisorVMFactory,
    id: Seq<char>,
    s: SandboxOption,
    fs_socket: Seq<char>,
)
    ensures
        ({
            let v = new_devices(f, id, s, fs_socket);
            let image = image_of(f, s.sandbox);
            let source = f.vm_config.entropy_source@;
            let socket = s.base_dir@ + "/task.vsock"@;
            let shares = f.profile is Standard && fs_socket.len() > 0;
            &&& v.contains(DeviceView::Vsock { cid: 3, socket, id: "vsock"@ })
            &&& v.contains(
                DeviceView::Console { path: "/tmp/"@ + id + "-task.log"@, id: "console"@ },
            )
            &&& image.len() > 0 ==> v.contains(
                DeviceView::Pmem { id: "rootfs"@, path: image, discard_writes: true },
            )
            &&& source.len() > 0 ==> v.contains(DeviceView::Rng { id: "rng"@, source })
            &&& shares ==> v.contains(
                DeviceView::Fs { id: "fs"@, socket: fs_socket, tag: "kuasar"@ },
            )
            &&& v.len() == 2 + (if image.len() > 0 {
                1int
            } else {
                0
            }) + (if source.len() > 0 {
                1int
            } else {
                0
            }) + (if shares {
                1int
            } else {
                0
            })
            &&& agent_address(f.profile, s.base_dir@) == (if f.profile is Standard {
                "hvsock://"@ + socket + ":1024"@
            } else {
                "unix://"@ + socket + "_1024"@
            })
        }),
{
    let v = new_devices(f, id, s, fs_socket);
    let image = image_of(f, s.sandbox);
    let source = f.vm_config.entropy_source@;
    let a: int = if image.len() > 0 {
        1
    } else {
        0
    };
    let b: int = a + if source.len() > 0 {
        1int
    } else {
        0
    };
    let socket = s.base_dir@ + "/task.vsock"@;
    if image.len() > 0 {
        assert(v[0] == DeviceView::Pmem { id: "rootfs"@, path: image, discard_writes: true });
    }
    if source.len() > 0 {
        assert(v[a] == DeviceView::Rng { id: "rng"@, source });
    }
    assert(v[b] == DeviceView::Vsock { cid: 3, socket, id: "vsock"@ });
    assert(v[b + 1] == DeviceView::Console { path: "/tmp/"@ + id + "-task.log"@, id: "console"@ });
    if f.profile is Standard && fs_socket.len() > 0 {
        assert(v[b + 2] == DeviceView::Fs { id: "fs"@, socket: fs_socket, tag: "kuasar"@ });
    }
}

/// A pod chooses the image and the executable of an appliance by its annotations, where
/// they are not empty; a standard guest boots the image of the settings whatever they say.
pub proof fn lemma_annotations_choose_for_appliances_only(
    f: CloudHypervisorVMFactory,
    data: SandboxData,
)
    ensures
        ({
            let notes = annotations_of(data);
            let image = "io.kuasar.appliance.image"@;
            let app = "io.kuasar.appliance.app"@;
            &&& f.profile is Standard ==> image_of(f, data) == f.vm_config.common.image_path@
            &&& f.profile is Appliance && notes.contains_key(image) && notes[image].len() > 0
                ==> image_of(f, data) == notes[image]
            &&& f.profile is Appliance && (!notes.contains_key(image) || notes[image].len() == 0)
                ==> image_of(f, data) == f.vm_config.common.image_path@
            &&& notes.contains_key(app) && notes[app].len() > 0 ==> app_of(f, data) == notes[app]
            &&& !notes.contains_key(app) || notes[app].len() == 0 ==> app_of(f, data)
                == f.vm_config.appliance_app@
        }),
{
}

pub(crate) fn push_device(vm: &mut CloudHypervisorVM, device: Device)
    ensures
        device_views(final(vm).devices@) == device_views(old(vm).devices@).push(device@),
        same_but_devices(*final(vm), *old(vm)),
        final(vm).fds == old(vm).fds,
{
    let ghost before = vm.devices@;
    vm.add_device(device);
    assert(device_views(vm.devices@) =~= device_views(before).push(device@));
}

impl CloudHypervisorVMFactory {
    /// A factory for guests of one profile.
    pub fn new(vm_config: CloudHypervisorVMConfig, profile: SandboxProfile) -> (r: Self)
        ensures
            r.vm_config == vm_config,
            r.profile == profile,
    {
        CloudHypervisorVMFactory { vm_config, profile }
    }

    /// Appliance guests can be built.
    pub fn supports_appliance_mode(&self) -> (r: bool)
        ensures
            r,
    {
        true
    }

    /// The executable of an appliance whose pod names none.
    pub fn appliance_default_app(&self) -> (r: &str)
        ensures
            r@ == self.vm_config.appliance_app@,
    {
        self.vm_config.appliance_app.as_str()
    }

    /// Builds a guest. An appliance needs an image and an executable.
    pub fn create_vm(&self, id: &str, s: &SandboxOption) -> (r: Result<
        CloudHypervisorVM,
        CreateVmError,
    >)
        ensures
            match r {
                Err(e) => self.profile is Appliance && e == (if image_of(*self, s.sandbox).len()
                    == 0 {
                    CreateVmError::MissingImage
                } else {
                    CreateVmError::MissingApp
                }) && (image_of(*self, s.sandbox).len() == 0 || app_of(*self, s.sandbox).len()
                    == 0),
                Ok(vm) => {
                    &&& self.profile is Appliance ==> image_of(*self, s.sandbox).len() > 0
                        && app_of(*self, s.sandbox).len() > 0
                    &&& built_from(
                        vm,
                        id@,
                        s.sandbox.netns@,
                        s.base_dir@,
                        self.vm_config,
                    )
                    &&& vm.agent_socket@ == agent_address(self.profile, s.base_dir@)
                    &&& vm.config.cmdline@ == boot_cmdline(self.vm_config, self.profile) + (if self.profile is Appliance {
                        " KUASAR_SANDBOX_ID="@ + id@
                    } else {
                        Seq::empty()
                    })
                    &&& device_views(vm.devices@) == new_devices(
                        *self,
                        id@,
                        *s,
                        vm.virtiofsd_config.socket_path@,
                    )
                },
            },
    {
        let appliance: bool = matches!(self.profile, SandboxProfile::Appliance);
        let base_dir = s.base_dir.as_str();
        let mut vm = CloudHypervisorVM::new(
            id,
            s.sandbox.netns.as_str(),
            base_dir,
            &self.vm_config,
            &self.profile,
        );
        let ghost fresh = vm;
        assert(device_views(vm.devices@) =~= Seq::<DeviceView>::empty());
        let image = if appliance {
            match keep_nonempty(s.sandbox.annotation(ANNOTATION_APPLIANCE_IMAGE)) {
                Some(path) => path,
                None => self.vm_config.common.image_path.clone(),
            }
        } else {
            self.vm_config.common.image_path.clone()
        };
        assert(image@ == image_of(*self, s.sandbox));
        if image.as_str().is_empty() {
            if appliance {
                return Err(CreateVmError::MissingImage);
            }
        } else {
            let ghost path = image@;
            push_device(
                &mut vm,
                Device::Pmem { id: "rootfs".to_owned(), path: image, discard_writes: true },
            );
            assert(device_views(vm.devices@) =~= seq![
                DeviceView::Pmem { id: "rootfs"@, path, discard_writes: true },
            ]);
        }
        if !self.vm_config.entropy_source.as_str().is_empty() {
            push_device(
                &mut vm,
                Device::Rng {
                    id: "rng".to_owned(),
                    source: self.vm_config.entropy_source.clone(),
                },
            );
        }
        let vsock_socket_path = concat(base_dir, "/task.vsock");
        push_device(
            &mut vm,
            Device::Vsock { cid: 3, socket: vsock_socket_path.clone(), id: "vsock".to_owned() },
        );
        let agent_socket = match self.profile {
            SandboxProfile::Standard => concat3("hvsock://", vsock_socket_path.as_str(), ":1024"),
            SandboxProfile::Appliance => concat3("unix://", vsock_socket_path.as_str(), "_1024"),
        };
        let ghost devices = vm.devices@;
        vm.agent_socket = agent_socket;
        if appliance {
            let ghost head = vm.config.cmdline@;
            let mut cmdline = vm.config.cmdline.clone();
            cmdline.append(" KUASAR_SANDBOX_ID=");
            cmdline.append(id);
            assert(cmdline@ =~= head + (" KUASAR_SANDBOX_ID="@ + id@));
            vm.config.cmdline = cmdline;
            let app = match keep_nonempty(s.sandbox.annotation(ANNOTATION_APPLIANCE_APP)) {
                Some(app) => app,
                None => self.vm_config.appliance_app.clone(),
            };
            if app.as_str().is_empty() {
                return Err(CreateVmError::MissingApp);
            }
        } else {
            assert(vm.config.cmdline@ =~= fresh.config.cmdline@ + Seq::<char>::empty());
        }
        assert(vm.devices@ == devices);
        push_device(
            &mut vm,
            Device::Console { path: concat3("/tmp/", id, "-task.log"), id: "console".to_owned() },
        );
        if self.profile.needs_virtiofsd() && !vm.virtiofsd_config.socket_path.as_str().is_empty() {
            let socket = vm.virtiofsd_config.socket_path.clone();
            push_device(
                &mut vm,
                Device::Fs { id: "fs".to_owned(), socket, tag: "kuasar".to_owned() },
            );
        }
        Ok(vm)
    }
}

} // verus!
