//! Guest memory, CPU bookkeeping, magic probe and ELF images.

use rl78_sim::callbacks::{
    clear_host_regions, clear_io_bus, io_read, io_read_done, io_write, io_write_done,
    map_host_region, remove_host_region, request_callback_stop, set_io_bus, take_callback_stop,
    width_len, CallbackState, HostRegion, IoRequest,
};
use rl78_sim::cpu::{io_page_list, BusRegion, Rl78Cpu};
use rl78_sim::elf::{load_elf, plan_load, ElfLoad, Load, LoadError, ObjectView, SegmentView, EM_RL78};
use rl78_sim::kernel::{Breakpoint, BreakpointId, BusError, RegId, StopReason};
use rl78_sim::magic::MagicProbe;
use rl78_sim::map::{MinimalMachineConfig, MAGIC_PROBE_BASE};
use rl78_sim::regs::{Rl78Reg, EXCP_DEBUG, EXCP_RETURN_REQUEST, EXCP_WFI};

#[test]
fn host_region_lookup_offsets() {
    let mut state = CallbackState::new();
    let buf = [0u8; 16];
    let at = buf.as_ptr() as usize;
    map_host_region(&mut state, 0x1000, 16, at);
    assert_eq!(state.find_host(0x1004), Some(at + 4));
    assert!(state.find_host(0x2000).is_none());
    remove_host_region(&mut state, 0x1000, 16);
    assert!(state.find_host(0x1004).is_none());
}

#[test]
fn overlapping_windows_give_way() {
    let mut state = CallbackState::new();
    map_host_region(&mut state, 0, 16, 1000);
    map_host_region(&mut state, 16, 16, 2000);
    map_host_region(&mut state, 8, 8, 3000);
    assert_eq!(
        state.regions,
        vec![
            HostRegion { guest_base: 16, size: 16, host: 2000 },
            HostRegion { guest_base: 8, size: 8, host: 3000 },
        ]
    );
    assert_eq!(state.find_host(0), None);
    assert_eq!(state.find_host(15), Some(3007));
    assert_eq!(state.find_host(31), Some(2015));
    remove_host_region(&mut state, 16, 8);
    assert_eq!(state.regions.len(), 2);
    clear_host_regions(&mut state);
    assert!(state.regions.is_empty());
}

#[test]
fn first_stop_is_kept() {
    let mut state = CallbackState::new();
    request_callback_stop(&mut state, StopReason::Step);
    request_callback_stop(&mut state, StopReason::Halt);
    assert_eq!(take_callback_stop(&mut state), Some(StopReason::Step));
    assert_eq!(take_callback_stop(&mut state), None);
}

#[test]
fn unmapped_io_latches_stop() {
    let mut state = CallbackState::new();
    set_io_bus(&mut state);
    match io_write(&state, 0x80000, 0xAA, 1) {
        IoRequest::Store { addr, bytes } => assert_eq!((addr, bytes), (0x80000, vec![0xAA])),
        other => panic!("{other:?}"),
    }
    let refused = Err(BusError::Unmapped { addr: 0x80000 });
    assert!(io_write_done(&mut state, refused).is_err());
    let reason = take_callback_stop(&mut state);
    assert_eq!(reason, Some(StopReason::Unmapped { addr: 0x80000, write: true }));
}

#[test]
fn io_values_are_little_endian() {
    let mut state = CallbackState::new();
    assert_eq!(io_read(&state, 4, 3), IoRequest::Value(0));
    assert_eq!(io_write(&state, 4, 1, 1), IoRequest::Refused);
    set_io_bus(&mut state);
    assert_eq!(io_read(&state, 4, 3), IoRequest::Refused);
    assert_eq!(io_read(&state, 4, 4), IoRequest::Load { addr: 4, len: 4 });
    assert_eq!(
        io_write(&state, 4, 0x1122_3344_5566_7788, 2),
        IoRequest::Store { addr: 4, bytes: vec![0x88, 0x77] }
    );
    assert_eq!(io_read_done(&mut state, Ok(&[0x78, 0x56, 0x34, 0x12])), Ok(0x1234_5678));
    assert_eq!(io_read_done(&mut state, Ok(&[0xFF; 8])), Ok(u64::MAX));
    assert!(io_read_done(&mut state, Err(BusError::ReadOnly { addr: 9 })).is_err());
    assert_eq!(
        take_callback_stop(&mut state),
        Some(StopReason::Unmapped { addr: 9, write: true })
    );
    assert!(
        io_read_done(&mut state, Err(BusError::OutOfRange { addr: 3, offset: 3, len: 1 })).is_err()
    );
    assert_eq!(
        take_callback_stop(&mut state),
        Some(StopReason::Unmapped { addr: 3, write: false })
    );
    assert!(io_read_done(&mut state, Err(BusError::NotLoadable { addr: 2 })).is_err());
    assert_eq!(
        take_callback_stop(&mut state),
        Some(StopReason::Unmapped { addr: 2, write: true })
    );
    assert_eq!(width_len(8), Ok(8));
    assert_eq!(width_len(0), Err(()));
    clear_io_bus(&mut state);
    assert!(!state.io_bound);
}

#[test]
fn finish_tlib_quantum_maps_excp_debug() {
    let mut cpu = Rl78Cpu::new();
    let q = cpu.finish_tlib_quantum(4, EXCP_DEBUG, Some(BreakpointId(9)), None);
    assert_eq!(q.instructions, 4);
    assert_eq!(q.stop, Some(StopReason::Breakpoint { id: BreakpointId(9) }));
}

#[test]
fn finish_tlib_quantum_prefers_pending_stop() {
    let mut cpu = Rl78Cpu::new();
    cpu.pending.request(StopReason::Unmapped { addr: 0x20, write: false });
    let q = cpu.finish_tlib_quantum(1, EXCP_RETURN_REQUEST, None, None);
    assert_eq!(q.stop, Some(StopReason::Unmapped { addr: 0x20, write: false }));
    let q = cpu.finish_tlib_quantum(1, EXCP_WFI, Some(BreakpointId(1)), Some(StopReason::Halt));
    assert_eq!(q.stop, Some(StopReason::Halt));
}

#[test]
fn latched_stop_ends_the_quantum() {
    let mut cpu = Rl78Cpu::new();
    let mut state = CallbackState::new();
    cpu.sync_breakpoints(&vec![bp(3, 0x40, true)], &vec![]);
    request_callback_stop(&mut state, StopReason::Unmapped { addr: 1, write: true });
    let q = cpu.end_quantum(&mut state, 2, EXCP_DEBUG, 0x40, None);
    assert_eq!(q.stop, Some(StopReason::Unmapped { addr: 1, write: true }));
    let q = cpu.end_quantum(&mut state, 2, EXCP_DEBUG, 0x40, None);
    assert_eq!(q.stop, Some(StopReason::Breakpoint { id: BreakpointId(3) }));
    let q = cpu.end_quantum(&mut state, 2, EXCP_DEBUG, 0x41, None);
    assert_eq!(q.stop, None);
}

fn bp(id: u32, addr: u64, enabled: bool) -> Breakpoint {
    Breakpoint { id: BreakpointId(id), addr, enabled }
}

#[test]
fn sync_breakpoints_removes_stale_tlib_entries() {
    let mut cpu = Rl78Cpu::new();
    let mut registered: Vec<u64> = vec![];
    let plan = cpu.sync_breakpoints(&vec![bp(1, 0x100, true), bp(2, 0x200, true)], &registered);
    registered.retain(|a| !plan.remove.contains(a));
    registered.extend(plan.insert);
    registered.sort_unstable();
    assert_eq!(registered, vec![0x100, 0x200]);

    let plan = cpu.sync_breakpoints(&vec![bp(2, 0x200, true)], &registered);
    registered.retain(|a| !plan.remove.contains(a));
    registered.extend(plan.insert);
    assert_eq!(registered, vec![0x200]);
}

#[test]
fn disabled_breakpoints_are_not_inserted() {
    let mut cpu = Rl78Cpu::new();
    let plan = cpu.sync_breakpoints(&vec![bp(1, 1, false), bp(2, 2, true)], &vec![1, 2, 3]);
    assert_eq!(plan.remove, vec![1, 3]);
    assert!(plan.insert.is_empty());
}

#[test]
fn breakpoint_id_at_pc_matches_kernel_table() {
    let mut cpu = Rl78Cpu::new();
    cpu.sync_breakpoints(&vec![bp(7, 0x42, true)], &vec![]);
    assert_eq!(cpu.breakpoint_id_at_pc(0x42), Some(BreakpointId(7)));
    assert_eq!(cpu.breakpoint_id_at_pc(0x43), None);
}

#[test]
fn bind_memory_maps_rom_host_region() {
    let rom = vec![0u8; 4096];
    let ram = vec![0u8; 1024];
    let regions = vec![
        BusRegion { base: 0, size: 4096, host: Some(rom.as_ptr() as usize) },
        BusRegion { base: 0xF0100, size: 1024, host: Some(ram.as_ptr() as usize) },
    ];
    let mut state = CallbackState::new();
    let mut cpu = Rl78Cpu::new();
    let plan = cpu.bind_memory(&mut state, &regions);
    assert!(cpu.memory_bound);
    assert_eq!(plan.ranges, vec![(0, 4096), (0xF0100, 1024)]);
    assert_eq!(state.find_host(0), Some(rom.as_ptr() as usize));
}

#[test]
fn drop_clears_bound_host_mappings() {
    let rom = vec![0u8; 4096];
    let regions = vec![
        BusRegion { base: 0, size: 4096, host: Some(rom.as_ptr() as usize) },
        BusRegion { base: 0xF0000, size: 257, host: None },
        BusRegion { base: 0x5000, size: 0, host: Some(1) },
    ];
    let mut state = CallbackState::new();
    let mut cpu = Rl78Cpu::new();
    let plan = cpu.bind_memory(&mut state, &regions);
    assert_eq!(plan.io_pages, vec![0xF0000, 0xF0100]);
    assert!(state.find_host(0).is_some());
    assert!(state.io_bound);
    request_callback_stop(&mut state, StopReason::Halt);
    let undo = cpu.unbind_memory(&mut state);
    assert_eq!(undo.io_pages, vec![0xF0000, 0xF0100]);
    assert_eq!(undo.ranges, vec![(0, 4095)]);
    assert!(state.find_host(0).is_none());
    assert!(!state.io_bound);
    assert_eq!(take_callback_stop(&mut state), None);
    assert!(!cpu.memory_bound);
}

#[test]
fn io_pages_cover_a_range() {
    assert!(io_page_list(0x123, 0).is_empty());
    assert_eq!(io_page_list(0x1FF, 2), vec![0x100, 0x200]);
    assert_eq!(io_page_list(0x200, 256), vec![0x200]);
    assert_eq!(io_page_list(u64::MAX - 1, 100), vec![u64::MAX - 255]);
}

#[test]
fn register_numbers() {
    assert_eq!(Rl78Cpu::map_reg_id(RegId(8)), Some(Rl78Reg::Pc));
    assert_eq!(Rl78Cpu::map_reg_id(RegId(17)), Some(Rl78Reg::PswIe));
    assert_eq!(Rl78Cpu::map_reg_id(RegId(18)), None);
    assert_eq!(Rl78Reg::Sp.number(), 9);
}

#[test]
fn magic_probe_is_a_normal_mapped_device() {
    let mut probe = MagicProbe::new(Vec::<Vec<u8>>::new());
    let window = MinimalMachineConfig::default().windows()[2];
    assert_eq!((window.base, window.size), (MAGIC_PROBE_BASE, probe.len()));
    probe.write(MAGIC_PROBE_BASE - window.base, b"hello").unwrap();
    // One store is one call of the sink.
    assert_eq!(probe.sink, vec![b"hello".to_vec()]);
    let mut byte = [0xFFu8; 1];
    probe.read(0, &mut byte).unwrap();
    assert_eq!(byte, [0]);
}

#[test]
fn bind_memory_routes_magic_probe_via_io() {
    let mut probe = MagicProbe::new(Vec::<Vec<u8>>::new());
    probe.write(0, b"via-bus").unwrap();
    assert_eq!(probe.sink.concat(), b"via-bus");
    probe.sink.clear();

    let mut state = CallbackState::new();
    let mut cpu = Rl78Cpu::new();
    let plan = cpu.bind_memory(
        &mut state,
        &vec![BusRegion { base: MAGIC_PROBE_BASE, size: 256, host: None }],
    );
    assert_eq!(plan.io_pages, vec![MAGIC_PROBE_BASE]);
    for (at, value) in [(MAGIC_PROBE_BASE, b'h'), (MAGIC_PROBE_BASE + 1, b'i')] {
        match io_write(&state, at, u64::from(value), 1) {
            IoRequest::Store { addr, bytes } => {
                let stored = probe.write(addr - MAGIC_PROBE_BASE, &bytes);
                assert!(io_write_done(&mut state, stored).is_ok());
            }
            other => panic!("{other:?}"),
        }
    }
    assert_eq!(probe.sink.concat(), b"hi");
    assert_eq!(probe.sink.len(), 2);
}

#[test]
fn probe_bounds() {
    let mut probe = MagicProbe::new(Vec::<Vec<u8>>::new());
    let mut buf = [7u8; 2];
    probe.read(254, &mut buf).unwrap();
    assert_eq!(buf, [0, 0]);
    assert_eq!(
        probe.read(255, &mut buf),
        Err(BusError::OutOfRange { addr: 255, offset: 255, len: 2 })
    );
    assert!(probe.write(256, b"x").is_err());
    probe.write(255, b"x").unwrap();
    assert_eq!(probe.sink, vec![b"x".to_vec()]);
}

/// Build a minimal little-endian ELF32 (ET_EXEC) with one PT_LOAD segment.
fn write_minimal_elf32(load_addr: u32, entry: u32, payload: &[u8]) -> Vec<u8> {
    const EH_SIZE: usize = 52;
    const PH_SIZE: usize = 32;
    let mut out = vec![0u8; EH_SIZE + PH_SIZE + payload.len()];

    out[0..4].copy_from_slice(b"\x7fELF");
    out[4] = 1; // ELFCLASS32
    out[5] = 1; // ELFDATA2LSB
    out[6] = 1; // EV_CURRENT

    out[16..18].copy_from_slice(&1u16.to_le_bytes()); // ET_EXEC
    out[18..20].copy_from_slice(&EM_RL78.to_le_bytes());
    out[20..24].copy_from_slice(&1u32.to_le_bytes());
    out[24..28].copy_from_slice(&entry.to_le_bytes());
    out[28..32].copy_from_slice(&(EH_SIZE as u32).to_le_bytes());
    out[40..42].copy_from_slice(&(EH_SIZE as u16).to_le_bytes());
    out[42..44].copy_from_slice(&(PH_SIZE as u16).to_le_bytes());
    out[44..46].copy_from_slice(&1u16.to_le_bytes());

    let ph = &mut out[EH_SIZE..EH_SIZE + PH_SIZE];
    ph[0..4].copy_from_slice(&1u32.to_le_bytes()); // PT_LOAD
    ph[4..8].copy_from_slice(&((EH_SIZE + PH_SIZE) as u32).to_le_bytes());
    ph[8..12].copy_from_slice(&load_addr.to_le_bytes());
    ph[12..16].copy_from_slice(&load_addr.to_le_bytes());
    let sz = payload.len() as u32;
    ph[16..20].copy_from_slice(&sz.to_le_bytes());
    ph[20..24].copy_from_slice(&sz.to_le_bytes());
    ph[24..28].copy_from_slice(&7u32.to_le_bytes()); // RWX
    ph[28..32].copy_from_slice(&1u32.to_le_bytes());

    out[EH_SIZE + PH_SIZE..].copy_from_slice(payload);
    out
}

#[test]
fn load_elf_writes_payload_and_sets_entry() {
    let payload = [0x00u8, 0x00, 0x11, 0x22];
    let image = write_minimal_elf32(0x200, 0x200, &payload);
    let plan = load_elf(&image);
    let loaded = plan.outcome.unwrap();
    assert_eq!(loaded.entry, 0x200);
    let mut memory = vec![0xEEu8; 0x300];
    for load in &plan.loads {
        match load {
            Load::Data { addr, bytes } => {
                memory[*addr as usize..*addr as usize + bytes.len()].copy_from_slice(bytes)
            }
            Load::Zero { addr, len } => {
                memory[*addr as usize..*addr as usize + len].fill(0)
            }
        }
    }
    assert_eq!(memory[0x200..0x204], payload);
    assert_eq!(memory[0x204], 0xEE);
}

#[test]
fn rejects_non_elf() {
    assert!(matches!(load_elf(b"not elf").outcome, Err(LoadError::NotElf)));
}

#[test]
fn elf_faults() {
    let mut image = write_minimal_elf32(0x200, 0x200, &[1, 2]);
    // The segment reaches past the image.
    image[52 + 16] = 200;
    let plan = load_elf(&image);
    assert_eq!(plan.outcome, Err(LoadError::Truncated));
    assert!(plan.loads.is_empty());
    // A header that is cut off.
    assert_eq!(load_elf(&image[..20]).outcome, Err(LoadError::Truncated));
    // No loadable segment.
    let mut image = write_minimal_elf32(0x200, 0x200, &[1, 2]);
    image[52] = 0;
    assert_eq!(
        load_elf(&image).outcome,
        Err(LoadError::Unsupported("ELF has no PT_LOAD segments"))
    );
    // Big-endian.
    let mut big = vec![0u8; 52];
    big[0..7].copy_from_slice(b"\x7fELF\x01\x02\x01");
    big[17] = 2;
    big[23] = 1;
    big[41] = 52;
    assert_eq!(
        load_elf(&big).outcome,
        Err(LoadError::Unsupported("ELF must be little-endian"))
    );
    assert_eq!(LoadError::NotElf.shown_text(""), "image is not an ELF file");
    assert_eq!(LoadError::Truncated.shown_text(""), "ELF image truncated");
    assert_eq!(
        LoadError::Bus(BusError::ReadOnly { addr: 0 }).shown_text("read-only"),
        "bus error while loading ELF: read-only"
    );
}

#[test]
fn elf64_is_refused() {
    let mut image = vec![0u8; 64];
    image[0..7].copy_from_slice(b"\x7fELF\x02\x01\x01");
    image[16] = 2;
    image[20] = 1;
    image[52] = 64;
    assert_eq!(
        load_elf(&image).outcome,
        Err(LoadError::Unsupported("only ELF32 is supported"))
    );
}

#[test]
fn zero_fill_follows_the_bytes() {
    let view = ObjectView {
        elf32: true,
        little_endian: true,
        entry: 9,
        segments: vec![
            SegmentView { address: 16, size: 0, data: Some(vec![]) },
            SegmentView { address: 32, size: 6, data: Some(vec![1, 2]) },
            SegmentView { address: 64, size: 3, data: Some(vec![]) },
        ],
    };
    let plan = plan_load(b"", &Some(view.clone()));
    assert_eq!(plan.outcome, Ok(ElfLoad { entry: 9 }));
    assert_eq!(plan.finish(None), Ok(ElfLoad { entry: 9 }));
    let fault = BusError::Unmapped { addr: 64 };
    assert_eq!(plan.finish(Some(fault)), Err(LoadError::Bus(fault)));
    assert_eq!(
        plan.loads,
        vec![
            Load::Data { addr: 32, bytes: vec![1, 2] },
            Load::Zero { addr: 34, len: 4 },
            Load::Zero { addr: 64, len: 3 },
        ]
    );
    let mut cut = view;
    cut.segments[2].data = None;
    let plan = plan_load(b"", &Some(cut));
    assert_eq!(plan.outcome, Err(LoadError::Truncated));
    assert_eq!(plan.loads.len(), 2);
}
