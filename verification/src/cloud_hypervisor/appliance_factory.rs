//! Building appliance guests from settings alone.
//!
//! An appliance has no directory in common with the host, and connects to the
//! host by itself: the hypervisor hands its connection on to the Unix socket
//! `<vsock socket>_<port>`.

use crate::cloud_hypervisor::config::CloudHypervisorVMConfig;
use crate::cloud_hypervisor::factory::{agent_address, push_device, SandboxOption};
use crate::cloud_hypervisor::vm::{
    boot_cmdline, built_from, device_views, CloudHypervisorVM, Device, DeviceView,
};
use crate::profile::SandboxProfile;
use crate::text::{concat, concat3};
use vstd::prelude::*;

verus! {

/// Builds appliance guests that all boot the image of the settings.
pub struct CloudHypervisorApplianceVMFactory {
    pub vm_config: CloudHypervisorVMConfig,
}

/// The devices of a new appliance, in order. None of them shares a directory.
pub open spec fn appliance_devices(
    c: CloudHypervisorVMConfig,
    id: Seq<char>,
    base_dir: Seq<char>,
) -> Seq<DeviceView> {
    let a = if c.common.image_path@.len() > 0 {
        seq![DeviceView::Pmem { id: "rootfs"@, path: c.common.image_path@, discard_writes: true }]
    } else {
        Seq::empty()
    };
    let b = if c.entropy_source@.len() > 0 {
        a.push(DeviceView::Rng { id: "rng"@, source: c.entropy_source@ })
    } else {
        a
    };
    b.push(
        DeviceView::Vsock { cid: 3, socket: base_dir + "/task.vsock"@, id: "vsock"@ },
    ).push(DeviceView::Console { path: "/tmp/"@ + id + "-task.log"@, id: "console"@ })
}

impl CloudHypervisorApplianceVMFactory {
    /// A factory for the given settings.
    pub fn new(config: CloudHypervisorVMConfig) -> (r: Self)
        ensures
            r.vm_config == config,
    {
        CloudHypervisorApplianceVMFactory { vm_config: config }
    }

    /// Builds an appliance.
    pub fn create_vm(&self, id: &str, s: &SandboxOption) -> (r: CloudHypervisorVM)
        ensures
            built_from(r, id@, s.sandbox.netns@, s.base_dir@, self.vm_config),
            r.config.cmdline@ == boot_cmdline(self.vm_config, SandboxProfile::Appliance),
            r.agent_socket@ == agent_address(SandboxProfile::Appliance, s.base_dir@),
            device_views(r.devices@) == appliance_devices(self.vm_config, id@, s.base_dir@),
    {
        let base_dir = s.base_dir.as_str();
        let mut vm = CloudHypervisorVM::new(
            id,
            s.sandbox.netns.as_str(),
            base_dir,
            &self.vm_config,
            &SandboxProfile::Appliance,
        );
        assert(device_views(vm.devices@) =~= Seq::<DeviceView>::empty());
        if !self.vm_config.common.image_path.as_str().is_empty() {
            let path = self.vm_config.common.image_path.clone();
            push_device(
                &mut vm,
                Device::Pmem { id: "rootfs".to_owned(), path, discard_writes: true },
            );
            assert(device_views(vm.devices@) =~= seq![
                DeviceView::Pmem {
                    id: "rootfs"@,
                    path: self.vm_config.common.image_path@,
                    discard_writes: true,
                },
            ]);
        }
        if !self.vm_config.entropy_source.as_str().is_empty() {
            let source = self.vm_config.entropy_source.clone();
            push_device(&mut vm, Device::Rng { id: "rng".to_owned(), source });
        }
        let vsock_socket_path = concat(base_dir, "/task.vsock");
        let agent_socket = concat3("unix://", vsock_socket_path.as_str(), "_1024");
        push_device(
            &mut vm,
            Device::Vsock { cid: 3, socket: vsock_socket_path, id: "vsock".to_owned() },
        );
        vm.agent_socket = agent_socket;
        push_device(
            &mut vm,
            Device::Console { path: concat3("/tmp/", id, "-task.log"), id: "console".to_owned() },
        );
        vm
    }
}

/// An appliance has its image, with changes thrown away, and a source of randomness, where
/// there are such; its vsock device and its console; and no other device.
pub proof fn lemma_appliance_has_its_devices(
    c: CloudHypervisorVMConfig,
    id: Seq<char>,
    base_dir: Seq<char>,
)
    ensures
        ({
            let v = appliance_devices(c, id, base_dir);
            let image = c.common.image_path@;
            let source = c.entropy_source@;
            &&& v.contains(
                DeviceView::Vsock { cid: 3, socket: base_dir + "/task.vsock"@, id: "vsock"@ },
            )
            &&& v.contains(
                DeviceView::Console { path: "/tmp/"@ + id + "-task.log"@, id: "console"@ },
            )
            &&& image.len() > 0 ==> v.contains(
                DeviceView::Pmem { id: "rootfs"@, path: image, discard_writes: true },
            )
            &&& source.len() > 0 ==> v.contains(DeviceView::Rng { id: "rng"@, source })
            &&& v.len() == 2 + (if image.len() > 0 {
                1int
            } else {
                0
            }) + (if source.len() > 0 {
                1int
            } else {
                0
            })
        }),
{
    let v = appliance_devices(c, id, base_dir);
    let n = v.len() as int;
    assert(v[n - 2] == DeviceView::Vsock {
        cid: 3,
        socket: base_dir + "/task.vsock"@,
        id: "vsock"@,
    });
    assert(v[n - 1] == DeviceView::Console { path: "/tmp/"@ + id + "-task.log"@, id: "console"@ });
    if c.common.image_path@.len() > 0 {
        assert(v[0] == DeviceView::Pmem {
            id: "rootfs"@,
            path: c.common.image_path@,
            discard_writes: true,
        });
    }
    if c.entropy_source@.len() > 0 {
        assert(v[n - 3] == DeviceView::Rng { id: "rng"@, source: c.entropy_source@ });
    }
}

/// No device of an appliance shares a directory.
pub proof fn lemma_appliance_shares_nothing(
    c: CloudHypervisorVMConfig,
    id: Seq<char>,
    base_dir: Seq<char>,
    i: int,
)
    requires
        0 <= i < appliance_devices(c, id, base_dir).len(),
    ensures
        !(appliance_devices(c, id, base_dir)[i] is Fs),
{
}

} // verus!
