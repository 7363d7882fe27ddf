//! The kernel's boot sequence, after the architecture hands over control.

use vstd::prelude::*;
use crate::auralattice::{PlixAuralattice, PlixPulse, PlixRealm, PLIX_AURALATTICE_MAGIC,
    PLIX_MAX_REALMS, plix_auralattice_emit, plix_auralattice_init};
use crate::driver::{arch_drivers, PlixDriverRegistry, plix_driver_init_arch};
use crate::cli::{appended, boot_text, PlixCli, plix_cli_boot};
use crate::everyfile::{is_initial_tree_at, GUEST_HOME_NODE};
use crate::auth::{PlixSession, GUEST_USER};

verus! {

/// What the boot code of an architecture hands to the kernel.
pub struct PlixBootInfo {
    pub arch: u32,
    pub hart_or_cpu: u64,
    pub firmware_pointer: usize,
}

/// The kernel after boot: the fabric, the driver registry, the boot command
/// line, the architecture it booted on and the pulses realm 0 has received.
pub struct PlixKernel {
    pub fabric: PlixAuralattice,
    pub registry: PlixDriverRegistry,
    pub cli: PlixCli,
    pub last_boot_arch: u64,
    pub boot_pulses: u64,
}

/// Boots the kernel: initializes the fabric and sends it the boot pulse,
/// records the architecture, registers its console driver and runs the boot
/// command line.
pub fn plix_kernel_main(boot_info: &PlixBootInfo) -> (kernel: PlixKernel)
    ensures
        kernel.fabric.consistent(),
        kernel.fabric.magic == PLIX_AURALATTICE_MAGIC,
        kernel.fabric.realm_count == 1,
        forall|i: int|
            0 <= i < PLIX_MAX_REALMS ==> #[trigger] kernel.fabric.realms[i] == if i == 0 {
                PlixRealm { root: 1, epoch: 1, pulse_count: 1 }
            } else {
                PlixRealm { root: 0, epoch: 0, pulse_count: 0 }
            },
        kernel.last_boot_arch == boot_info.arch as u64,
        kernel.boot_pulses == 1,
        kernel.registry.wf(),
        kernel.registry@ == arch_drivers(boot_info.arch as u64),
        kernel.cli.wf(),
        is_initial_tree_at(kernel.cli.fs, GUEST_HOME_NODE),
        kernel.cli.session == (PlixSession { user: Some(GUEST_USER), authenticated: 1 }),
        kernel.cli.output@ == appended(seq![], boot_text(kernel.cli.fs, kernel.cli.session, kernel.registry@)),
{
    let mut fabric = PlixAuralattice::new();
    plix_auralattice_init(&mut fabric);
    let ghost initialized = fabric;
    let first_pulse = PlixPulse {
        source: 0,
        target: 0,
        verb: boot_info.arch as u64,
        payload: [boot_info.hart_or_cpu, boot_info.firmware_pointer as u64, 0, 0],
    };
    assert(fabric.realms[0] == PlixRealm { root: 1, epoch: 0, pulse_count: 0 });
    let _ = plix_auralattice_emit(&mut fabric, &first_pulse);
    proof {
        crate::auralattice::law_init_consistent(initialized);
        crate::auralattice::law_emit_keeps_consistency(initialized, fabric, first_pulse);
        assert forall|i: int| 0 <= i < PLIX_MAX_REALMS implies #[trigger] fabric.realms[i] == if i == 0 {
            PlixRealm { root: 1, epoch: 1, pulse_count: 1 }
        } else {
            PlixRealm { root: 0, epoch: 0, pulse_count: 0 }
        } by {
            assert(initialized.realms[i] == PlixRealm { root: if i == 0 { 1 } else { 0 }, epoch: 0, pulse_count: 0 });
        }
    }
    let last_boot_arch = boot_info.arch as u64;
    let boot_pulses = fabric.realms[0].pulse_count;
    let mut registry = PlixDriverRegistry::new();
    plix_driver_init_arch(&mut registry, boot_info.arch as u64);
    let mut cli = PlixCli::new();
    plix_cli_boot(&mut cli, &registry);
    PlixKernel { fabric, registry, cli, last_boot_arch, boot_pulses }
}

} // verus!
