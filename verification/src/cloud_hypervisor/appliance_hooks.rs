//! What happens around the start of an appliance.

use crate::cloud_hypervisor::hooks::{limited_by, process_config};
use crate::cloud_hypervisor::vm::CloudHypervisorVM;
use crate::guest_runtime::RuntimeKind;
use crate::guest_runtime::appliance::ApplianceRuntime;
use crate::sandbox::data::SandboxData;
use vstd::prelude::*;

verus! {

/// What happens around the start of an appliance. It has no directory in common
/// with the host and no task service.
pub struct CloudHypervisorApplianceHooks {}

impl CloudHypervisorApplianceHooks {
    /// The protocol that a new sandbox speaks with its guest.
    pub fn post_create(&self, sandbox_id: &str) -> (r: (RuntimeKind, ApplianceRuntime))
        ensures
            r.0 is Appliance,
            r.1.sandbox_id@ == sandbox_id@,
            r.1.default_app@ == ""@,
            !r.1.connection.reader && !r.1.connection.writer,
    {
        (RuntimeKind::Appliance, ApplianceRuntime::new(sandbox_id, ""))
    }

    /// Gives a guest the processors and the memory that its pod may use.
    pub fn pre_start(&self, vm: &mut CloudHypervisorVM, data: &SandboxData)
        ensures
            limited_by(*old(vm), *final(vm), *data),
    {
        process_config(vm, data);
    }
}

} // verus!
