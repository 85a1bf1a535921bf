//! Device-dependent physical memory layout.
//!
//! RL78 flash / RAM windows differ by core / part number. Callers pick an
//! [`Rl78Device`] (or supply a custom [`MemoryLayout`]).

use vstd::prelude::*;

use crate::kernel::Addr;

verus! {

/// Code / data windows for one RL78 core configuration.
#[derive(Clone, Copy, Debug, PartialEq, Eq, Structural)]
pub struct MemoryLayout {
    pub rom_base: Addr,
    pub rom_size: usize,
    pub ram_base: Addr,
    pub ram_size: usize,
}

/// Known RL78 devices.
#[derive(Clone, Copy, Debug, PartialEq, Eq, Structural)]
pub enum Rl78Device {
    /// Stand-in with 64 KiB flash and 32 KiB RAM until a real part is chosen.
    Generic64k,
}

impl Rl78Device {
    /// ROM and RAM windows of a device.
    pub open spec fn layout(self) -> MemoryLayout {
        match self {
            Rl78Device::Generic64k => MemoryLayout {
                rom_base: 0x00000,
                rom_size: 0x10000,
                ram_base: 0xF0100,
                ram_size: 0x8000,
            },
        }
    }

    /// ROM and RAM windows of the device.
    pub fn memory_layout(self) -> (r: MemoryLayout)
        ensures
            r == self.layout(),
    {
        match self {
            Rl78Device::Generic64k => MemoryLayout {
                rom_base: 0x00000,
                rom_size: 64 * 1024,
                // Leave 0xF0000 to 0xF00FF for [`MAGIC_PROBE_BASE`] (ABS16 mirror).
                ram_base: 0xF0100,
                ram_size: 32 * 1024,
            },
        }
    }
}

impl Default for Rl78Device {
    fn default() -> (r: Rl78Device)
        ensures
            r == Rl78Device::Generic64k,
    {
        Rl78Device::Generic64k
    }
}

/// Dummy logger peripheral. Guest stores here become host output.
///
/// Placed at `0xF0000` so RL78 `MOV !addr16, #imm` (phys = `addr16 | 0xF0000`)
/// can reach it without an ES prefix.
pub const MAGIC_PROBE_BASE: Addr = 0xF0000;

pub const MAGIC_PROBE_SIZE: usize = 256;

/// A window on the bus.
#[derive(Clone, Copy, Debug, PartialEq, Eq, Structural)]
pub struct Window {
    pub base: Addr,
    pub size: u64,
}

impl Window {
    /// Whether an address lies in the window.
    pub open spec fn covers(self, addr: Addr) -> bool {
        self.base <= addr < self.base + self.size
    }

    /// Whether an address lies in the window.
    pub fn contains(&self, addr: Addr) -> (r: bool)
        ensures
            r == self.covers(addr),
    {
        self.base <= addr && addr - self.base < self.size
    }
}

/// No address lies in both windows.
pub open spec fn disjoint(a: Window, b: Window) -> bool {
    a.base + a.size <= b.base || b.base + b.size <= a.base
}

/// Windows of a layout with the magic probe: ROM, RAM, probe.
pub open spec fn windows_of(layout: MemoryLayout) -> Seq<Window> {
    seq![
        Window { base: layout.rom_base, size: layout.rom_size as u64 },
        Window { base: layout.ram_base, size: layout.ram_size as u64 },
        Window { base: MAGIC_PROBE_BASE, size: MAGIC_PROBE_SIZE as u64 },
    ]
}

/// Selects the memory map of a minimal machine.
#[derive(Clone, Copy, Debug, PartialEq, Eq, Structural)]
pub struct MinimalMachineConfig {
    /// Selects ROM/RAM windows for the target core / part.
    pub device: Rl78Device,
    /// Optional override; when `None`, [`Rl78Device::memory_layout`] is used.
    pub layout: Option<MemoryLayout>,
}

impl MinimalMachineConfig {
    /// The layout that a configuration selects.
    pub open spec fn selected(self) -> MemoryLayout {
        match self.layout {
            Some(layout) => layout,
            None => self.device.layout(),
        }
    }

    /// The layout that this configuration selects.
    pub fn layout(&self) -> (r: MemoryLayout)
        ensures
            r == self.selected(),
    {
        match self.layout {
            Some(layout) => layout,
            None => self.device.memory_layout(),
        }
    }

    /// Windows of the minimal machine, in the order in which they are mapped:
    /// ROM, RAM, magic probe.
    pub fn windows(&self) -> (r: [Window; 3])
        ensures
            r@ == windows_of(self.selected()),
    {
        let layout = self.layout();
        let r = [
            Window { base: layout.rom_base, size: layout.rom_size as u64 },
            Window { base: layout.ram_base, size: layout.ram_size as u64 },
            Window { base: MAGIC_PROBE_BASE, size: MAGIC_PROBE_SIZE as u64 },
        ];
        assert(r@ == windows_of(self.selected()));
        r
    }
}

impl Default for MinimalMachineConfig {
    fn default() -> (r: MinimalMachineConfig)
        ensures
            r.device == Rl78Device::Generic64k,
            r.layout is None,
    {
        MinimalMachineConfig { device: Rl78Device::Generic64k, layout: None }
    }
}

/// The windows of a known device and the magic probe do not overlap.
pub proof fn device_windows_are_disjoint(device: Rl78Device, i: int, j: int)
    requires
        0 <= i < j < 3,
    ensures
        disjoint(windows_of(device.layout())[i], windows_of(device.layout())[j]),
{
}

/// A device has 64 KiB of ROM from address 0 on and 32 KiB of RAM, which begins
/// right after the 256 bytes of the probe at the start of the mirror area.
pub proof fn device_memory_is_sized(device: Rl78Device)
    ensures
        ({
            let layout = device.layout();
            &&& layout.rom_base == 0
            &&& layout.rom_size == 64 * 1024
            &&& layout.ram_size == 32 * 1024
            &&& layout.ram_base == 0xF0000 + 256
        }),
{
}

/// The windows of a machine are its ROM, its RAM and the probe, in this order,
/// each covering as many addresses from its base on as it is large.
pub proof fn machine_windows_cover_memory(config: MinimalMachineConfig, addr: Addr)
    ensures
        ({
            let layout = match config.layout {
                Some(layout) => layout,
                None => config.device.layout(),
            };
            let windows = windows_of(config.selected());
            &&& windows.len() == 3
            &&& windows[0].covers(addr) <==> layout.rom_base <= addr && addr - layout.rom_base
                < layout.rom_size
            &&& windows[1].covers(addr) <==> layout.ram_base <= addr && addr - layout.ram_base
                < layout.ram_size
            &&& windows[2].covers(addr) <==> 0xF0000 <= addr <= 0xF00FF
        }),
{
}

/// Two windows lie apart exactly when no address lies in both, unless one of
/// them is empty.
pub proof fn apart_windows_share_no_address(a: Window, b: Window)
    requires
        a.size > 0,
        b.size > 0,
        a.base + a.size <= u64::MAX,
        b.base + b.size <= u64::MAX,
    ensures
        disjoint(a, b) <==> forall|addr: Addr| !(#[trigger] a.covers(addr) && b.covers(addr)),
{
    if !disjoint(a, b) {
        let addr = if a.base > b.base {
            a.base
        } else {
            b.base
        };
        assert(a.covers(addr) && b.covers(addr));
    }
}

} // verus!
