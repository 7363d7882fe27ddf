//! Linux-style driver registry: platform, MMIO and port-I/O devices with
//! compatible identifiers, and the console driver of each architecture.

use vstd::prelude::*;
use vstd::string::StringSliceAdditionalSpecFns;

verus! {

pub const PLIX_ARCH_X86_64: u64 = 0x8664;
pub const PLIX_ARCH_AARCH64: u64 = 0xaa64;
pub const PLIX_ARCH_RISCV64: u64 = 0x5064;
/// Most drivers the registry holds.
pub const PLIX_DRIVER_MAX_DEVICES: usize = 8;
pub const PLIX_DRIVER_BUS_PLATFORM: u32 = 0;
pub const PLIX_DRIVER_BUS_MMIO: u32 = 1;
pub const PLIX_DRIVER_BUS_PIO: u32 = 2;
pub const PLIX_DRIVER_CLASS_CONSOLE: u32 = 0;
pub const PLIX_DRIVER_CLASS_BLOCK: u32 = 1;
pub const PLIX_DRIVER_CLASS_NET: u32 = 2;
pub const PLIX_DRIVER_CLASS_INPUT: u32 = 3;
pub const PLIX_COMPAT_X86_16550: u64 = 0x7838_3631_3635_3530;
pub const PLIX_COMPAT_ARM_PL011: u64 = 0x6172_6d70_6c30_3131;
pub const PLIX_COMPAT_RV_16550: u64 = 0x7276_3136_3535_3000;

/// Output routines a driver can offer.
#[derive(Clone, Copy)]
pub enum PlixWriteOp {
    /// Writes a string to the architecture console.
    Console,
}

/// Input routines a driver can offer.
#[derive(Clone, Copy)]
pub enum PlixReadOp {
    /// Reports that no input is available.
    NoInput,
}

/// A driver's operations.
#[derive(Clone, Copy)]
pub struct PlixDriverOps {
    pub write: Option<PlixWriteOp>,
    pub read: Option<PlixReadOp>,
}

/// A device driver.
pub struct PlixDriver {
    pub name: Option<Vec<u8>>,
    pub bus: u32,
    pub device_class: u32,
    pub compatible: u64,
    pub base: u64,
    pub size: u64,
    pub ops: Option<PlixDriverOps>,
    pub initialized: i32,
}

/// A driver as a value: its name as bytes, the rest as stored.
pub struct PlixDriverView {
    pub name: Option<Seq<u8>>,
    pub bus: u32,
    pub device_class: u32,
    pub compatible: u64,
    pub base: u64,
    pub size: u64,
    pub ops: Option<PlixDriverOps>,
    pub initialized: i32,
}

impl View for PlixDriver {
    type V = PlixDriverView;

    open spec fn view(&self) -> PlixDriverView {
        PlixDriverView {
            name: match self.name {
                Some(n) => Some(n@),
                None => None,
            },
            bus: self.bus,
            device_class: self.device_class,
            compatible: self.compatible,
            base: self.base,
            size: self.size,
            ops: self.ops,
            initialized: self.initialized,
        }
    }
}

/// The registered drivers, in registration order.
pub struct PlixDriverRegistry {
    pub drivers: Vec<PlixDriver>,
}

impl View for PlixDriverRegistry {
    type V = Seq<PlixDriverView>;

    open spec fn view(&self) -> Seq<PlixDriverView> {
        self.drivers@.map_values(|d: PlixDriver| d@)
    }
}

impl PlixDriverRegistry {
    /// The registry holds at most `PLIX_DRIVER_MAX_DEVICES` drivers, each named,
    /// with operations.
    pub open spec fn wf(&self) -> bool {
        &&& self.drivers.len() <= PLIX_DRIVER_MAX_DEVICES
        &&& forall|i: int|
            0 <= i < self.drivers.len() ==> (#[trigger] self.drivers[i]).name is Some && self.drivers[i].ops is Some
    }

    /// An empty registry.
    pub fn new() -> (registry: PlixDriverRegistry)
        ensures
            registry.wf(),
            registry@.len() == 0,
    {
        PlixDriverRegistry { drivers: Vec::new() }
    }
}

/// The operations of the console drivers.
pub open spec fn console_ops() -> PlixDriverOps {
    PlixDriverOps { write: Some(PlixWriteOp::Console), read: Some(PlixReadOp::NoInput) }
}

/// The registry entry of an architecture console driver.
pub open spec fn console_driver(name: Seq<u8>, bus: u32, compatible: u64, base: u64, size: u64) -> PlixDriverView {
    PlixDriverView {
        name: Some(name),
        bus,
        device_class: PLIX_DRIVER_CLASS_CONSOLE,
        compatible,
        base,
        size,
        ops: Some(console_ops()),
        initialized: 1,
    }
}

/// The drivers that an architecture registers at boot.
pub open spec fn arch_drivers(arch: u64) -> Seq<PlixDriverView> {
    if arch == PLIX_ARCH_X86_64 {
        seq![console_driver("linux-8250-serial".spec_bytes(), PLIX_DRIVER_BUS_PIO, PLIX_COMPAT_X86_16550, 0x3f8, 8)]
    } else if arch == PLIX_ARCH_AARCH64 {
        seq![console_driver("linux-amba-pl011".spec_bytes(), PLIX_DRIVER_BUS_MMIO, PLIX_COMPAT_ARM_PL011, 0x0900_0000, 0x1000)]
    } else if arch == PLIX_ARCH_RISCV64 {
        seq![console_driver("linux-8250-mmio".spec_bytes(), PLIX_DRIVER_BUS_MMIO, PLIX_COMPAT_RV_16550, 0x1000_0000, 0x100)]
    } else {
        seq![]
    }
}

/// A registered driver that is a console and initialized.
pub open spec fn is_live_console(d: PlixDriverView) -> bool {
    d.device_class == PLIX_DRIVER_CLASS_CONSOLE && d.initialized != 0
}

/// Index of the first live console driver from `from` on.
pub open spec fn first_console(drivers: Seq<PlixDriverView>, from: int) -> Option<int>
    decreases drivers.len() - from,
{
    if from < 0 || from >= drivers.len() {
        None
    } else if is_live_console(drivers[from]) {
        Some(from)
    } else {
        first_console(drivers, from + 1)
    }
}

/// Name of a bus.
pub open spec fn bus_name(bus: u32) -> Seq<u8> {
    if bus == 0 {
        "platform".spec_bytes()
    } else if bus == 1 {
        "mmio".spec_bytes()
    } else if bus == 2 {
        "pio".spec_bytes()
    } else {
        "unknown".spec_bytes()
    }
}

/// Name of a device class.
pub open spec fn class_name(device_class: u32) -> Seq<u8> {
    if device_class == 0 {
        "console".spec_bytes()
    } else if device_class == 1 {
        "block".spec_bytes()
    } else if device_class == 2 {
        "net".spec_bytes()
    } else if device_class == 3 {
        "input".spec_bytes()
    } else {
        "unknown".spec_bytes()
    }
}

/// The read operation of the console drivers: there is never input.
pub fn no_input(buffer: &mut [u8], capacity: usize) -> (read: i32)
    ensures
        read == 0,
        final(buffer)@ == old(buffer)@,
{
    0
}

/// Empties the registry.
pub fn plix_driver_registry_init(registry: &mut PlixDriverRegistry)
    ensures
        final(registry).wf(),
        final(registry)@.len() == 0,
{
    registry.drivers = Vec::new();
}

fn copy_driver(driver: &PlixDriver) -> (copy: PlixDriver)
    ensures
        copy@ == driver@,
{
    let name = match &driver.name {
        Some(n) => Some(vstd::slice::slice_to_vec(n.as_slice())),
        None => None,
    };
    PlixDriver {
        name,
        bus: driver.bus,
        device_class: driver.device_class,
        compatible: driver.compatible,
        base: driver.base,
        size: driver.size,
        ops: driver.ops,
        initialized: driver.initialized,
    }
}

/// Registers a copy of `driver`, marked initialized. Returns 0, or -1 with the
/// registry unchanged when the driver has no name or no operations, or the
/// registry is full.
pub fn plix_driver_register(registry: &mut PlixDriverRegistry, driver: &PlixDriver) -> (rc: i32)
    requires
        old(registry).wf(),
    ensures
        final(registry).wf(),
        if driver.name is None || driver.ops is None || old(registry)@.len() >= PLIX_DRIVER_MAX_DEVICES {
            rc == -1 && final(registry)@ == old(registry)@
        } else {
            rc == 0 && final(registry)@ == old(registry)@.push(PlixDriverView { initialized: 1, ..driver@ })
        },
{
    if driver.name.is_none() || driver.ops.is_none() || registry.drivers.len() >= PLIX_DRIVER_MAX_DEVICES {
        return -1;
    }
    let mut copy = copy_driver(driver);
    copy.initialized = 1;
    registry.drivers.push(copy);
    assert(registry@ =~= old(registry)@.push(PlixDriverView { initialized: 1, ..driver@ }));
    0
}

/// Number of registered drivers.
pub fn plix_driver_count(registry: &PlixDriverRegistry) -> (count: usize)
    ensures
        count == registry@.len(),
{
    registry.drivers.len()
}

/// The driver registered at `index`, if any.
pub fn plix_driver_get(registry: &PlixDriverRegistry, index: usize) -> (driver: Option<&PlixDriver>)
    ensures
        match driver {
            Some(d) => index < registry@.len() && d@ == registry@[index as int],
            None => index >= registry@.len(),
        },
{
    if index < registry.drivers.len() {
        Some(&registry.drivers[index])
    } else {
        None
    }
}

/// The first registered console driver that is initialized.
pub fn plix_driver_find_console(registry: &PlixDriverRegistry) -> (driver: Option<&PlixDriver>)
    ensures
        match first_console(registry@, 0) {
            Some(i) => driver matches Some(d) && d@ == registry@[i],
            None => driver is None,
        },
{
    let count = registry.drivers.len();
    let mut i: usize = 0;
    while i < count
        invariant
            count == registry@.len(),
            i <= count,
            first_console(registry@, 0) == first_console(registry@, i as int),
        decreases count - i,
    {
        let d = &registry.drivers[i];
        assert(d@ == registry@[i as int]);
        if d.device_class == PLIX_DRIVER_CLASS_CONSOLE && d.initialized != 0 {
            return Some(d);
        }
        i = i + 1;
    }
    None
}

/// Registers the console driver `name` of an architecture.
fn register_arch_driver(registry: &mut PlixDriverRegistry, name: &[u8], bus: u32, compatible: u64, base: u64, size: u64)
    requires
        old(registry).wf(),
        old(registry)@.len() < PLIX_DRIVER_MAX_DEVICES,
    ensures
        final(registry).wf(),
        final(registry)@ == old(registry)@.push(console_driver(name@, bus, compatible, base, size)),
{
    let driver = PlixDriver {
        name: Some(vstd::slice::slice_to_vec(name)),
        bus,
        device_class: PLIX_DRIVER_CLASS_CONSOLE,
        compatible,
        base,
        size,
        ops: Some(PlixDriverOps { write: Some(PlixWriteOp::Console), read: Some(PlixReadOp::NoInput) }),
        initialized: 0,
    };
    let _ = plix_driver_register(registry, &driver);
}

/// Empties the registry and registers the console driver of `arch`.
pub fn plix_driver_init_arch(registry: &mut PlixDriverRegistry, arch: u64)
    ensures
        final(registry).wf(),
        final(registry)@ == arch_drivers(arch),
{
    plix_driver_registry_init(registry);
    if arch == PLIX_ARCH_X86_64 {
        register_arch_driver(registry, "linux-8250-serial".as_bytes(), PLIX_DRIVER_BUS_PIO, PLIX_COMPAT_X86_16550, 0x3f8, 8);
    } else if arch == PLIX_ARCH_AARCH64 {
        register_arch_driver(registry, "linux-amba-pl011".as_bytes(), PLIX_DRIVER_BUS_MMIO, PLIX_COMPAT_ARM_PL011, 0x0900_0000, 0x1000);
    } else if arch == PLIX_ARCH_RISCV64 {
        register_arch_driver(registry, "linux-8250-mmio".as_bytes(), PLIX_DRIVER_BUS_MMIO, PLIX_COMPAT_RV_16550, 0x1000_0000, 0x100);
    }
    assert(registry@ =~= arch_drivers(arch));
}

/// Name of a bus: `platform`, `mmio`, `pio` or `unknown`.
pub fn plix_driver_bus_name(bus: u32) -> (name: &'static [u8])
    ensures
        name@ == bus_name(bus),
{
    match bus {
        0 => "platform".as_bytes(),
        1 => "mmio".as_bytes(),
        2 => "pio".as_bytes(),
        _ => "unknown".as_bytes(),
    }
}

/// Name of a device class: `console`, `block`, `net`, `input` or `unknown`.
pub fn plix_driver_class_name(device_class: u32) -> (name: &'static [u8])
    ensures
        name@ == class_name(device_class),
{
    match device_class {
        0 => "console".as_bytes(),
        1 => "block".as_bytes(),
        2 => "net".as_bytes(),
        3 => "input".as_bytes(),
        _ => "unknown".as_bytes(),
    }
}

/// A driver that registration accepted is the one `get` returns at the last
/// index, marked initialized, and the drivers before it are untouched.
pub proof fn law_register_then_get(before: Seq<PlixDriverView>, after: Seq<PlixDriverView>, driver: PlixDriverView)
    requires
        after == before.push(PlixDriverView { initialized: 1, ..driver }),
    ensures
        after.len() == before.len() + 1,
        after[before.len() as int] == (PlixDriverView { initialized: 1, ..driver }),
        forall|i: int| 0 <= i < before.len() ==> after[i] == before[i],
{
}

/// After boot-time registration on a known architecture, the registry holds
/// one driver and it is the console that `find_console` returns.
pub proof fn law_arch_console(arch: u64)
    requires
        arch == PLIX_ARCH_X86_64 || arch == PLIX_ARCH_AARCH64 || arch == PLIX_ARCH_RISCV64,
    ensures
        arch_drivers(arch).len() == 1,
        first_console(arch_drivers(arch), 0) == Some(0int),
{
}

/// An unknown architecture registers no driver, so there is no console.
pub proof fn law_unknown_arch_no_console(arch: u64)
    requires
        arch != PLIX_ARCH_X86_64 && arch != PLIX_ARCH_AARCH64 && arch != PLIX_ARCH_RISCV64,
    ensures
        arch_drivers(arch).len() == 0,
        first_console(arch_drivers(arch), 0) is None,
{
}

/// Each architecture's boot console carries that architecture's own name,
/// bus, compatible identifier and register window.
pub proof fn law_arch_console_identity()
    ensures
        arch_drivers(PLIX_ARCH_X86_64)[0].name == Some("linux-8250-serial".spec_bytes()),
        arch_drivers(PLIX_ARCH_X86_64)[0].bus == PLIX_DRIVER_BUS_PIO,
        arch_drivers(PLIX_ARCH_X86_64)[0].compatible == PLIX_COMPAT_X86_16550,
        arch_drivers(PLIX_ARCH_X86_64)[0].base == 0x3f8,
        arch_drivers(PLIX_ARCH_X86_64)[0].size == 8,
        arch_drivers(PLIX_ARCH_AARCH64)[0].name == Some("linux-amba-pl011".spec_bytes()),
        arch_drivers(PLIX_ARCH_AARCH64)[0].bus == PLIX_DRIVER_BUS_MMIO,
        arch_drivers(PLIX_ARCH_AARCH64)[0].compatible == PLIX_COMPAT_ARM_PL011,
        arch_drivers(PLIX_ARCH_AARCH64)[0].base == 0x0900_0000,
        arch_drivers(PLIX_ARCH_AARCH64)[0].size == 0x1000,
        arch_drivers(PLIX_ARCH_RISCV64)[0].name == Some("linux-8250-mmio".spec_bytes()),
        arch_drivers(PLIX_ARCH_RISCV64)[0].bus == PLIX_DRIVER_BUS_MMIO,
        arch_drivers(PLIX_ARCH_RISCV64)[0].compatible == PLIX_COMPAT_RV_16550,
        arch_drivers(PLIX_ARCH_RISCV64)[0].base == 0x1000_0000,
        arch_drivers(PLIX_ARCH_RISCV64)[0].size == 0x100,
{
}

/// Consoles of different architectures carry different compatible
/// identifiers and register windows.
pub proof fn law_arch_consoles_differ(a: u64, b: u64)
    requires
        a == PLIX_ARCH_X86_64 || a == PLIX_ARCH_AARCH64 || a == PLIX_ARCH_RISCV64,
        b == PLIX_ARCH_X86_64 || b == PLIX_ARCH_AARCH64 || b == PLIX_ARCH_RISCV64,
        a != b,
    ensures
        arch_drivers(a)[0].compatible != arch_drivers(b)[0].compatible,
        arch_drivers(a)[0].base != arch_drivers(b)[0].base,
{
}

proof fn lemma_first_console_from(d: Seq<PlixDriverView>, from: int)
    requires
        0 <= from,
    ensures
        match first_console(d, from) {
            Some(i) => from <= i < d.len() && is_live_console(d[i])
                && forall|j: int| from <= j < i ==> !is_live_console(#[trigger] d[j]),
            None => forall|j: int| from <= j < d.len() ==> !is_live_console(#[trigger] d[j]),
        },
    decreases d.len() - from,
{
    if from < d.len() {
        lemma_first_console_from(d, from + 1);
    }
}

proof fn lemma_first_console_push(d: Seq<PlixDriverView>, x: PlixDriverView, from: int)
    requires
        0 <= from <= d.len(),
    ensures
        first_console(d.push(x), from) == match first_console(d, from) {
            Some(i) => Some(i),
            None => if is_live_console(x) { Some(d.len() as int) } else { None },
        },
    decreases d.len() - from,
{
    if from < d.len() {
        assert(d.push(x)[from] == d[from]);
        lemma_first_console_push(d, x, from + 1);
    } else {
        assert(d.push(x)[from] == x);
        assert(first_console(d.push(x), from + 1) is None);
    }
}

/// The console that `find_console` picks is a live console and no driver
/// registered before it is one; there is none exactly when no registered driver
/// is a live console. Registering another driver keeps that console, and where
/// there was none, a live console just registered becomes it.
pub proof fn law_find_console_takes_the_first(d: Seq<PlixDriverView>, x: PlixDriverView)
    ensures
        match first_console(d, 0) {
            Some(i) => 0 <= i < d.len() && is_live_console(d[i])
                && forall|j: int| 0 <= j < i ==> !is_live_console(#[trigger] d[j]),
            None => forall|j: int| 0 <= j < d.len() ==> !is_live_console(#[trigger] d[j]),
        },
        first_console(d.push(x), 0) == match first_console(d, 0) {
            Some(i) => Some(i),
            None => if is_live_console(x) { Some(d.len() as int) } else { None },
        },
{
    lemma_first_console_from(d, 0);
    lemma_first_console_push(d, x, 0);
}

} // verus!
