//! What happens around the start of a guest.

use crate::cloud_hypervisor::vm::CloudHypervisorVM;
use crate::guest_runtime::RuntimeKind;
use crate::profile::SandboxProfile;
use crate::sandbox::data::{LinuxResources, SandboxData};
use vstd::arithmetic::power2::{lemma2_to64, lemma_pow2_unfold, pow2};
use vstd::prelude::*;

verus! {

// ── Processors ──────────────────────────────────────────────────────────────

/// How many numbers have no more than 53 binary digits: those are told apart exactly
/// in a division of double precision.
pub const EXACT: u64 = 0x20_0000_0000_0000;

/// How far the numbers of 53 binary digits stand apart around `x`.
pub open spec fn spacing(x: nat) -> nat
    decreases x,
{
    if x < EXACT {
        1
    } else {
        2 * spacing(x / 2)
    }
}

/// The number of 53 binary digits that is next to `x`, and of two that are equally
/// near the one whose last digit is 0.
pub open spec fn nearest(x: nat) -> nat {
    let unit = spacing(x);
    let below = x / unit;
    let rest = x % unit;
    if 2 * rest > unit || (2 * rest == unit && below % 2 == 1) {
        (below + 1) * unit
    } else {
        below * unit
    }
}

/// The value of the first binary digit of `n`.
pub open spec fn leading(n: nat) -> nat
    decreases n,
{
    if n <= 1 {
        1
    } else {
        2 * leading(n / 2)
    }
}

/// Whether a quotient of `n` and a rest is `n` in 53 binary digits: the rest is at most
/// half of what the last digit is worth.
pub open spec fn rest_vanishes(n: nat, rest: nat, divisor: nat) -> bool {
    rest == 0 || (n > 0 && rest * EXACT <= divisor * leading(n))
}

/// The number of processors that a quota within a period comes to, rounded up, as far
/// as a `u32` can count. Quota, period and quotient are taken in double precision.
pub open spec fn vcpus_for(quota: nat, period: nat) -> u32
    recommends
        quota > 0,
        period > 0,
{
    let q = nearest(quota);
    let p = nearest(period);
    let n = q / p;
    if n >= u32::MAX {
        u32::MAX
    } else if rest_vanishes(n, q % p, p) {
        n as u32
    } else {
        (n + 1) as u32
    }
}

proof fn lemma_spacing(x: nat)
    requires
        x > 0,
    ensures
        1 <= spacing(x) <= x,
    decreases x,
{
    if x >= EXACT {
        lemma_spacing(x / 2);
    }
}

proof fn lemma_nearest(x: nat)
    requires
        x > 0,
    ensures
        0 < nearest(x) <= 2 * x,
        x < EXACT ==> nearest(x) == x,
{
    lemma_spacing(x);
    let unit = spacing(x) as int;
    let below = x as int / unit;
    vstd::arithmetic::div_mod::lemma_fundamental_div_mod(x as int, unit);
    vstd::arithmetic::mul::lemma_mul_is_commutative(unit, below);
    vstd::arithmetic::div_mod::lemma_mod_bound(x as int, unit);
    assert((below + 1) * unit == below * unit + unit) by (nonlinear_arith);
    assert(below >= 1) by (nonlinear_arith)
        requires
            below * unit + x as int % unit == x,
            x as int % unit < unit,
            1 <= unit <= x,
    ;
    assert(below * unit >= unit) by (nonlinear_arith)
        requires
            below >= 1,
            unit >= 1,
    ;
    if x < EXACT {
        assert(unit == 1);
        assert(below * 1 == below);
    }
}

proof fn lemma_leading(n: nat)
    ensures
        1 <= leading(n),
        n > 0 ==> leading(n) <= n,
    decreases n,
{
    if n > 1 {
        lemma_leading(n / 2);
    }
}

/// The numbers of 53 binary digits stand as far apart as a power of two, so that `x` has 53
/// digits in front of it; below, they are all there.
pub proof fn lemma_digits_that_count(x: nat)
    ensures
        x < spacing(x) * EXACT,
        2 * x >= EXACT ==> spacing(x) * EXACT <= 2 * x,
        exists|k: nat| spacing(x) == #[trigger] pow2(k),
    decreases x,
{
    if x >= EXACT {
        let half = x / 2;
        lemma_digits_that_count(half);
        assert(2 * half >= EXACT);
        let k = choose|k: nat| spacing(half) == #[trigger] pow2(k);
        lemma_pow2_unfold(k + 1);
        assert(spacing(x) == pow2(k + 1));
    } else {
        lemma2_to64();
        assert(spacing(x) == pow2(0));
    }
}

/// The number that `x` is taken for is one of those of 53 binary digits, and no other is
/// nearer.
pub proof fn lemma_taken_for_the_nearest(x: nat)
    requires
        x > 0,
    ensures
        nearest(x) % spacing(x) == 0,
        2 * nearest(x) <= 2 * x + spacing(x),
        2 * x <= 2 * nearest(x) + spacing(x),
        x < EXACT ==> nearest(x) == x,
{
    lemma_spacing(x);
    lemma_nearest(x);
    let unit = spacing(x) as int;
    let below = x as int / unit;
    vstd::arithmetic::div_mod::lemma_fundamental_div_mod(x as int, unit);
    vstd::arithmetic::mul::lemma_mul_is_commutative(unit, below);
    vstd::arithmetic::div_mod::lemma_mod_bound(x as int, unit);
    assert((below + 1) * unit == below * unit + unit) by (nonlinear_arith);
    vstd::arithmetic::div_mod::lemma_mod_multiples_basic(below, unit);
    vstd::arithmetic::div_mod::lemma_mod_multiples_basic(below + 1, unit);
}

/// The first binary digit of `n` is worth the power of two that `n` lies between and twice
/// which.
pub proof fn lemma_first_digit(n: nat)
    requires
        n > 0,
    ensures
        leading(n) <= n < 2 * leading(n),
        exists|k: nat| leading(n) == #[trigger] pow2(k),
    decreases n,
{
    if n > 1 {
        lemma_first_digit(n / 2);
        let k = choose|k: nat| leading(n / 2) == #[trigger] pow2(k);
        lemma_pow2_unfold(k + 1);
        assert(leading(n) == pow2(k + 1));
    } else {
        lemma2_to64();
        assert(leading(n) == pow2(0));
    }
}

fn spacing_of(x: u64) -> (r: u64)
    requires
        x > 0,
    ensures
        r == spacing(x as nat),
{
    let mut y: u64 = x;
    let mut unit: u64 = 1;
    assert(1 * y == y) by (nonlinear_arith);
    assert(1 * spacing(y as nat) == spacing(y as nat)) by (nonlinear_arith);
    while y >= EXACT
        invariant
            y > 0,
            unit >= 1,
            unit * y <= x,
            unit * spacing(y as nat) == spacing(x as nat),
        decreases y,
    {
        let half: u64 = y / 2;
        proof {
            assert(2 * unit * half <= x && 2 * unit <= x) by (nonlinear_arith)
                requires
                    unit * y <= x,
                    2 * half <= y,
                    half >= 1,
                    unit >= 1,
            ;
            assert((2 * unit) * spacing(half as nat) == unit * (2 * spacing(half as nat)))
                by (nonlinear_arith);
        }
        unit = unit * 2;
        y = half;
    }
    assert(unit * 1 == unit) by (nonlinear_arith);
    unit
}

fn nearest_of(x: u64) -> (r: u64)
    requires
        0 < x <= i64::MAX,
    ensures
        r == nearest(x as nat),
{
    let unit: u64 = spacing_of(x);
    proof {
        lemma_spacing(x as nat);
        lemma_nearest(x as nat);
    }
    let below: u64 = x / unit;
    let rest: u64 = x % unit;
    assert(rest < unit);
    proof {
        let u = unit as int;
        let m = below as int;
        vstd::arithmetic::div_mod::lemma_fundamental_div_mod(x as int, u);
        vstd::arithmetic::mul::lemma_mul_is_commutative(u, m);
        assert((m + 1) * u == m * u + u) by (nonlinear_arith);
        assert(m <= m * u) by (nonlinear_arith)
            requires
                m >= 0,
                u >= 1,
        ;
    }
    if rest > unit - rest || (rest == unit - rest && below % 2 == 1) {
        (below + 1) * unit
    } else {
        below * unit
    }
}

fn leading_of(n: u64) -> (r: u64)
    requires
        n > 0,
    ensures
        r == leading(n as nat),
        1 <= r <= n,
{
    let mut y: u64 = n;
    let mut w: u64 = 1;
    assert(1 * y == y) by (nonlinear_arith);
    assert(1 * leading(y as nat) == leading(y as nat)) by (nonlinear_arith);
    while y > 1
        invariant
            y > 0,
            w >= 1,
            w * y <= n,
            w * leading(y as nat) == leading(n as nat),
        decreases y,
    {
        let half: u64 = y / 2;
        proof {
            assert(2 * w * half <= n && 2 * w <= n) by (nonlinear_arith)
                requires
                    w * y <= n,
                    2 * half <= y,
                    half >= 1,
                    w >= 1,
            ;
            assert((2 * w) * leading(half as nat) == w * (2 * leading(half as nat)))
                by (nonlinear_arith);
        }
        w = w * 2;
        y = half;
    }
    assert(w * 1 == w) by (nonlinear_arith);
    w
}

/// The number of processors that a pod may use, where it says so.
pub open spec fn vcpu_limit(r: LinuxResources) -> Option<u32> {
    if r.cpu_period > 0 && r.cpu_quota > 0 {
        Some(vcpus_for(r.cpu_quota as nat, r.cpu_period as nat))
    } else {
        None
    }
}

/// The number of processors that a pod may use, where it says so.
pub fn vcpus_of(resources: &LinuxResources) -> (r: Option<u32>)
    ensures
        r == vcpu_limit(*resources),
{
    if resources.cpu_period <= 0 || resources.cpu_quota <= 0 {
        return None;
    }
    let q: u64 = nearest_of(resources.cpu_quota as u64);
    let p: u64 = nearest_of(resources.cpu_period as u64);
    proof {
        lemma_nearest(resources.cpu_quota as nat);
        lemma_nearest(resources.cpu_period as nat);
    }
    let n: u64 = q / p;
    let rest: u64 = q % p;
    if n >= u32::MAX as u64 {
        return Some(u32::MAX);
    }
    if rest == 0 {
        return Some(n as u32);
    }
    if n == 0 {
        return Some(1);
    }
    let w: u64 = leading_of(n);
    proof {
        assert(rest as int * EXACT as int <= u64::MAX * EXACT) by (nonlinear_arith)
            requires
                0 <= rest <= u64::MAX,
        ;
        assert(p as int * w as int <= u64::MAX * u64::MAX) by (nonlinear_arith)
            requires
                0 <= p <= u64::MAX,
                0 <= w <= u64::MAX,
        ;
    }
    if rest as u128 * EXACT as u128 <= p as u128 * w as u128 {
        Some(n as u32)
    } else {
        Some((n + 1) as u32)
    }
}

/// One processor more is granted exactly where the quota is no multiple of the
/// period: the processors granted are enough for the quota, and one less is not. This
/// holds as long as quota and period have no more than 53 binary digits.
pub proof fn lemma_vcpus_cover_quota(quota: nat, period: nat)
    requires
        0 < quota < EXACT,
        0 < period < EXACT,
        quota <= u32::MAX * period,
    ensures
        vcpus_for(quota, period) >= 1,
        vcpus_for(quota, period) * period >= quota,
        (vcpus_for(quota, period) - 1) * period < quota,
{
    lemma_nearest(quota);
    lemma_nearest(period);
    let n = quota as int / period as int;
    let rest = quota as int % period as int;
    vstd::arithmetic::div_mod::lemma_fundamental_div_mod(quota as int, period as int);
    vstd::arithmetic::mul::lemma_mul_is_commutative(period as int, n);
    vstd::arithmetic::div_mod::lemma_mod_bound(quota as int, period as int);
    assert((n + 1) * period == n * period + period) by (nonlinear_arith);
    assert((n - 1) * period == n * period - period) by (nonlinear_arith);
    assert(n <= u32::MAX && (n == u32::MAX ==> rest == 0)) by (nonlinear_arith)
        requires
            n * period + rest == quota,
            quota <= u32::MAX * period,
            period > 0,
            rest >= 0,
    ;
    if n > 0 && rest > 0 {
        lemma_leading(n as nat);
        let w = leading(n as nat) as int;
        assert(rest * EXACT > period * w) by (nonlinear_arith)
            requires
                rest >= 1,
                w <= n,
                n * period + rest == quota,
                quota < EXACT,
                period > 0,
        ;
    }
    assert(n >= 0) by (nonlinear_arith)
        requires
            n * period + rest == quota,
            0 <= rest < period,
            quota > 0,
    ;
    if n == 0 {
        assert(n * period == 0) by (nonlinear_arith)
            requires
                n == 0,
        ;
    }
}

/// A pod is limited in its processors exactly where it has both a period and a quota; what
/// is a whole number of periods comes to as many processors.
pub proof fn lemma_limit_of_processors(r: LinuxResources, n: nat)
    ensures
        vcpu_limit(r) is Some <==> r.cpu_period > 0 && r.cpu_quota > 0,
        r.cpu_period > 0 && 0 < n <= u32::MAX && r.cpu_quota == n * r.cpu_period && n * r.cpu_period
            < EXACT ==> vcpu_limit(r) == Some(n as u32),
{
    if r.cpu_period > 0 && 0 < n <= u32::MAX && r.cpu_quota == n * r.cpu_period && n * r.cpu_period
        < EXACT {
        let period = r.cpu_period as nat;
        let quota = r.cpu_quota as nat;
        assert(quota == n * period);
        assert(0 < period <= quota) by (nonlinear_arith)
            requires
                n >= 1,
                period > 0,
                quota == n * period,
        ;
        lemma_nearest(quota);
        lemma_nearest(period);
        vstd::arithmetic::div_mod::lemma_div_multiples_vanish(n as int, period as int);
        vstd::arithmetic::div_mod::lemma_mod_multiples_basic(n as int, period as int);
        vstd::arithmetic::mul::lemma_mul_is_commutative(n as int, period as int);
    }
}

/// What the limits of a pod make of a guest: its processors and its memory, and
/// nothing else.
pub open spec fn limited(old_vm: CloudHypervisorVM, new_vm: CloudHypervisorVM, r: LinuxResources) -> bool {
    &&& new_vm.config.cpus.boot == (match vcpu_limit(r) {
        Some(n) => n,
        None => old_vm.config.cpus.boot,
    })
    &&& new_vm.config.cpus.max == (match vcpu_limit(r) {
        Some(n) => Some(n),
        None => old_vm.config.cpus.max,
    })
    &&& new_vm.config.cpus.topology == old_vm.config.cpus.topology
    &&& new_vm.config.cpus.affinity == old_vm.config.cpus.affinity
    &&& new_vm.config.cpus.features == old_vm.config.cpus.features
    &&& new_vm.config.memory.size == (if r.memory_limit_in_bytes > 0 {
        r.memory_limit_in_bytes as u64
    } else {
        old_vm.config.memory.size
    })
    &&& new_vm.config.memory.shared == old_vm.config.memory.shared
    &&& new_vm.config.memory.hugepages == old_vm.config.memory.hugepages
    &&& new_vm.config.memory.hugepage_size == old_vm.config.memory.hugepage_size
    &&& new_vm.config.memory.prefault == old_vm.config.memory.prefault
    &&& new_vm.config.memory.thp == old_vm.config.memory.thp
    &&& new_vm.config.path == old_vm.config.path
    &&& new_vm.config.api_socket == old_vm.config.api_socket
    &&& new_vm.config.kernel == old_vm.config.kernel
    &&& new_vm.config.cmdline == old_vm.config.cmdline
    &&& new_vm.config.initramfs == old_vm.config.initramfs
    &&& new_vm.config.log_file == old_vm.config.log_file
    &&& new_vm.config.debug == old_vm.config.debug
    &&& same_but_config(new_vm, old_vm)
}

/// What the limits of a pod, where it has any, make of a guest.
pub open spec fn limited_by(
    old_vm: CloudHypervisorVM,
    new_vm: CloudHypervisorVM,
    data: SandboxData,
) -> bool {
    match data.config {
        Some(c) => match c.resources {
            Some(r) => limited(old_vm, new_vm, r),
            None => new_vm == old_vm,
        },
        None => new_vm == old_vm,
    }
}

/// A guest has as many processors from the start as it ever can, where its pod says how
/// many, and as much memory as its pod may use; without limits nothing of it changes, and
/// with them nothing else does.
pub proof fn lemma_guest_is_as_large_as_its_pod(
    before: CloudHypervisorVM,
    after: CloudHypervisorVM,
    data: SandboxData,
)
    requires
        limited_by(before, after, data),
    ensures
        data.config is None || data.config->0.resources is None ==> after == before,
        data.config is Some && data.config->0.resources is Some ==> {
            let r = data.config->0.resources->0;
            &&& r.cpu_period > 0 && r.cpu_quota > 0 ==> after.config.cpus.boot == vcpus_for(
                r.cpu_quota as nat,
                r.cpu_period as nat,
            ) && after.config.cpus.max == Some(after.config.cpus.boot)
            &&& r.cpu_period <= 0 || r.cpu_quota <= 0 ==> after.config.cpus.boot
                == before.config.cpus.boot && after.config.cpus.max == before.config.cpus.max
            &&& r.memory_limit_in_bytes > 0 ==> after.config.memory.size == r.memory_limit_in_bytes
            &&& r.memory_limit_in_bytes <= 0 ==> after.config.memory.size
                == before.config.memory.size
            &&& after.config.kernel == before.config.kernel && after.config.cmdline
                == before.config.cmdline
            &&& after.devices == before.devices && after.netns == before.netns && after.fds
                == before.fds
        },
{
}

/// Gives a guest the processors and the memory that its pod may use.
pub fn process_config(vm: &mut CloudHypervisorVM, data: &SandboxData)
    ensures
        limited_by(*old(vm), *final(vm), *data),
{
    if let Some(r) = resources_of(data) {
        if let Some(n) = vcpus_of(r) {
            vm.config.cpus.boot = n;
            vm.config.cpus.max = Some(n);
        }
        if r.memory_limit_in_bytes > 0 {
            vm.config.memory.size = r.memory_limit_in_bytes as u64;
        }
    }
}

/// Whether two states of a guest differ at most in the hypervisor's settings.
pub open spec fn same_but_config(a: CloudHypervisorVM, b: CloudHypervisorVM) -> bool {
    &&& a.id == b.id
    &&& a.devices == b.devices
    &&& a.fds == b.fds
    &&& a.netns == b.netns
    &&& a.base_dir == b.base_dir
    &&& a.agent_socket == b.agent_socket
    &&& a.virtiofsd_config == b.virtiofsd_config
    &&& a.sharefs_type == b.sharefs_type
    &&& a.pids == b.pids
    &&& a.client == b.client
}

/// A guest that gets other settings is otherwise as it was.
pub proof fn lemma_only_settings_change(a: CloudHypervisorVM, b: CloudHypervisorVM)
    ensures
        same_but_config(a, b) <==> a == (CloudHypervisorVM { config: a.config, ..b }),
{
}

/// The resource limits of a pod.
pub fn resources_of(data: &SandboxData) -> (r: Option<&LinuxResources>)
    ensures
        match (r, data.config) {
            (Some(l), Some(c)) => c.resources == Some(*l),
            (None, Some(c)) => c.resources is None,
            (None, None) => true,
            (Some(_), None) => false,
        },
{
    match &data.config {
        Some(config) => config.resources.as_ref(),
        None => None,
    }
}

/// What happens around the start of a Cloud Hypervisor guest.
pub struct CloudHypervisorHooks {
    pub profile: SandboxProfile,
}

impl CloudHypervisorHooks {
    /// The hooks of one profile.
    pub fn new(profile: SandboxProfile) -> (r: Self)
        ensures
            r.profile == profile,
    {
        CloudHypervisorHooks { profile }
    }

    /// The protocol that a new sandbox speaks with its guest.
    pub fn post_create(&self) -> (r: RuntimeKind)
        ensures
            r is VmmTask <==> self.profile is Standard,
    {
        self.profile.runtime_kind()
    }

    /// Adapts a guest to its pod before it starts, and says whether the process
    /// that shares a directory must be started first.
    pub fn pre_start(&self, vm: &mut CloudHypervisorVM, data: &SandboxData) -> (r: bool)
        ensures
            r == (self.profile is Standard && old(vm).virtiofsd_config.socket_path@.len() > 0),
            limited_by(*old(vm), *final(vm), *data),
    {
        process_config(vm, data);
        self.profile.needs_virtiofsd() && !vm.virtiofsd_config.socket_path.as_str().is_empty()
    }

    /// Sets the task address of a started sandbox, and says whether its clock is
    /// to be kept in step with the host's. An appliance has neither.
    pub fn post_start(&self, data: &mut SandboxData, agent_socket: &str) -> (r: bool)
        ensures
            r == (self.profile is Standard),
            final(data).task_address@ == (if self.profile is Standard {
                "ttrpc+"@ + agent_socket@
            } else {
                old(data).task_address@
            }),
            final(data).id == old(data).id,
            final(data).netns == old(data).netns,
            final(data).labels == old(data).labels,
            final(data).config == old(data).config,
    {
        match self.profile.task_address(agent_socket) {
            Some(address) => {
                data.task_address = address;
                true
            },
            None => false,
        }
    }
}

} // verus!
