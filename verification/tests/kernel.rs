use plix::cli::plix_cli_output;
use plix::driver::{plix_driver_count, PLIX_ARCH_AARCH64, PLIX_ARCH_X86_64};
use plix::kernel::{plix_kernel_main, PlixBootInfo};

#[test]
fn kernel_boots_on_x86() {
    let info = PlixBootInfo { arch: PLIX_ARCH_X86_64 as u32, hart_or_cpu: 0, firmware_pointer: 0x9000 };
    let k = plix_kernel_main(&info);
    assert_eq!(k.last_boot_arch, PLIX_ARCH_X86_64);
    assert_eq!(k.boot_pulses, 1);
    assert_eq!(k.fabric.realm_count, 1);
    assert_eq!(k.fabric.realms[0].epoch, 1);
    assert_eq!(plix_driver_count(&k.registry), 1);
    let expected = "plix cli ready at /users/guest\nuse help for commands\n".to_string()
        + "user=guest path=/users/guest drivers=+\n"
        + "linux-8250-serial pio console\n"
        + "main\nhouse\n";
    assert_eq!(plix_cli_output(&k.cli), expected.as_bytes());
}

#[test]
fn kernel_boots_on_aarch64() {
    let info = PlixBootInfo { arch: PLIX_ARCH_AARCH64 as u32, hart_or_cpu: 3, firmware_pointer: 0 };
    let k = plix_kernel_main(&info);
    assert_eq!(k.last_boot_arch, PLIX_ARCH_AARCH64);
    let out = String::from_utf8(plix_cli_output(&k.cli).to_vec()).unwrap();
    assert!(out.contains("linux-amba-pl011 mmio console\n"));
}

#[test]
fn kernel_on_unknown_arch_has_no_drivers() {
    let info = PlixBootInfo { arch: 7, hart_or_cpu: 0, firmware_pointer: 0 };
    let k = plix_kernel_main(&info);
    assert_eq!(plix_driver_count(&k.registry), 0);
    let out = String::from_utf8(plix_cli_output(&k.cli).to_vec()).unwrap();
    assert!(out.contains("drivers=0\n"));
    assert!(out.contains("keine linux treiber geladen\n"));
}
