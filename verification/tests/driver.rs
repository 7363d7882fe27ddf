use plix::driver::{
    no_input, plix_driver_bus_name, plix_driver_class_name, plix_driver_count,
    plix_driver_find_console, plix_driver_get, plix_driver_init_arch, plix_driver_register,
    plix_driver_registry_init, PlixDriver, PlixDriverOps, PlixDriverRegistry, PlixReadOp,
    PlixWriteOp, PLIX_ARCH_AARCH64, PLIX_ARCH_RISCV64, PLIX_ARCH_X86_64, PLIX_COMPAT_X86_16550,
    PLIX_DRIVER_BUS_MMIO, PLIX_DRIVER_BUS_PIO, PLIX_DRIVER_CLASS_BLOCK,
    PLIX_DRIVER_CLASS_CONSOLE, PLIX_DRIVER_MAX_DEVICES,
};

fn block_driver(name: &[u8]) -> PlixDriver {
    PlixDriver {
        name: Some(name.to_vec()),
        bus: PLIX_DRIVER_BUS_MMIO,
        device_class: PLIX_DRIVER_CLASS_BLOCK,
        compatible: 1,
        base: 0x1000,
        size: 0x100,
        ops: Some(PlixDriverOps { write: None, read: Some(PlixReadOp::NoInput) }),
        initialized: 0,
    }
}

#[test]
fn x86_registers_the_8250_console() {
    let mut r = PlixDriverRegistry::new();
    plix_driver_init_arch(&mut r, PLIX_ARCH_X86_64);
    assert_eq!(plix_driver_count(&r), 1);
    let d = plix_driver_get(&r, 0).unwrap();
    assert_eq!(d.name, Some(b"linux-8250-serial".to_vec()));
    assert_eq!(d.bus, PLIX_DRIVER_BUS_PIO);
    assert_eq!(d.device_class, PLIX_DRIVER_CLASS_CONSOLE);
    assert_eq!(d.compatible, PLIX_COMPAT_X86_16550);
    assert_eq!(d.base, 0x3f8);
    assert_eq!(d.size, 8);
    assert_eq!(d.initialized, 1);
    assert!(plix_driver_get(&r, 1).is_none());
    let c = plix_driver_find_console(&r).unwrap();
    assert_eq!(c.name, Some(b"linux-8250-serial".to_vec()));
}

#[test]
fn aarch64_and_riscv_register_their_uarts() {
    let mut r = PlixDriverRegistry::new();
    plix_driver_init_arch(&mut r, PLIX_ARCH_AARCH64);
    assert_eq!(plix_driver_count(&r), 1);
    let d = plix_driver_get(&r, 0).unwrap();
    assert_eq!(d.name, Some(b"linux-amba-pl011".to_vec()));
    assert_eq!(d.base, 0x0900_0000);
    assert_eq!(d.size, 0x1000);
    plix_driver_init_arch(&mut r, PLIX_ARCH_RISCV64);
    assert_eq!(plix_driver_count(&r), 1);
    let d = plix_driver_get(&r, 0).unwrap();
    assert_eq!(d.name, Some(b"linux-8250-mmio".to_vec()));
    assert_eq!(d.bus, PLIX_DRIVER_BUS_MMIO);
    assert_eq!(d.base, 0x1000_0000);
}

#[test]
fn unknown_arch_registers_nothing() {
    let mut r = PlixDriverRegistry::new();
    plix_driver_init_arch(&mut r, 0x1234);
    assert_eq!(plix_driver_count(&r), 0);
    assert!(plix_driver_find_console(&r).is_none());
}

#[test]
fn register_refuses_unnamed_or_opless_drivers() {
    let mut r = PlixDriverRegistry::new();
    let mut d = block_driver(b"disk");
    d.name = None;
    assert_eq!(plix_driver_register(&mut r, &d), -1);
    let mut d = block_driver(b"disk");
    d.ops = None;
    assert_eq!(plix_driver_register(&mut r, &d), -1);
    assert_eq!(plix_driver_count(&r), 0);
}

#[test]
fn register_marks_initialized_and_stops_when_full() {
    let mut r = PlixDriverRegistry::new();
    for i in 0..PLIX_DRIVER_MAX_DEVICES {
        assert_eq!(plix_driver_register(&mut r, &block_driver(&[b'd', b'0' + i as u8])), 0);
    }
    assert_eq!(plix_driver_register(&mut r, &block_driver(b"extra")), -1);
    assert_eq!(plix_driver_count(&r), PLIX_DRIVER_MAX_DEVICES);
    let last = plix_driver_get(&r, PLIX_DRIVER_MAX_DEVICES - 1).unwrap();
    assert_eq!(last.name, Some(b"d7".to_vec()));
    assert_eq!(last.initialized, 1);
    assert!(plix_driver_find_console(&r).is_none());
    plix_driver_registry_init(&mut r);
    assert_eq!(plix_driver_count(&r), 0);
}

#[test]
fn find_console_skips_other_classes() {
    let mut r = PlixDriverRegistry::new();
    assert_eq!(plix_driver_register(&mut r, &block_driver(b"disk")), 0);
    let console = PlixDriver {
        name: Some(b"uart".to_vec()),
        bus: PLIX_DRIVER_BUS_MMIO,
        device_class: PLIX_DRIVER_CLASS_CONSOLE,
        compatible: 2,
        base: 0,
        size: 0,
        ops: Some(PlixDriverOps { write: Some(PlixWriteOp::Console), read: None }),
        initialized: 0,
    };
    assert_eq!(plix_driver_register(&mut r, &console), 0);
    let c = plix_driver_find_console(&r).unwrap();
    assert_eq!(c.name, Some(b"uart".to_vec()));
}

#[test]
fn bus_and_class_names() {
    assert_eq!(plix_driver_bus_name(0), b"platform");
    assert_eq!(plix_driver_bus_name(1), b"mmio");
    assert_eq!(plix_driver_bus_name(2), b"pio");
    assert_eq!(plix_driver_bus_name(3), b"unknown");
    assert_eq!(plix_driver_class_name(0), b"console");
    assert_eq!(plix_driver_class_name(1), b"block");
    assert_eq!(plix_driver_class_name(2), b"net");
    assert_eq!(plix_driver_class_name(3), b"input");
    assert_eq!(plix_driver_class_name(4), b"unknown");
}

#[test]
fn console_has_no_input() {
    let mut buf = [1u8, 2];
    assert_eq!(no_input(&mut buf, 2), 0);
    assert_eq!(buf, [1, 2]);
}
