//! On-chip peripherals: clock, interrupts, timers, serial unit and the G23 core.

use rl78_sim::cluster::ipc::wire::UartFrame;
use rl78_sim::kernel::BusError;
use rl78_sim::map::{MemoryLayout, MinimalMachineConfig, Rl78Device};
use rl78_sim::peripherals::byte_capture::ByteCapture;
use rl78_sim::peripherals::clock::{
    cycles_to_tick, ClockBank, ClockGenerator, ClockMmio, CKC_CLS, CKC_CSS, CKSEL_SELLOSC,
    CSC_HIOSTOP, CSC_MSTOP, CSC_XTSTOP, LOW_OSC, MHZ,
};
use rl78_sim::peripherals::g23::{
    sau_irq, tau_irq, G23Event, G23Machine, G23Window, R7F100Gxl,
};
use rl78_sim::peripherals::irq::{
    CpuLine, EdgeReg, IfMkReg, IrqBankMmio, IrqController, IrqEdgeMmio, IrqGroup, IrqId, LineLevel,
};
use rl78_sim::peripherals::sau::{SauCtrlMmio, SauSdrMmio, SauUnit};
use rl78_sim::peripherals::tau::TauUnit;

#[test]
fn reset_fclk_is_hoco_32mhz() {
    let c = ClockGenerator::default();
    assert_eq!(c.f_clk_hz(), 32 * MHZ);
    assert_eq!(c.read_offset(ClockBank::Sfr, 1), 0xC0);
    assert_eq!(c.read_offset(ClockBank::Sfr, 4), 0x00);
}

#[test]
fn hocodiv_halves_hoco() {
    let mut c = ClockGenerator::default();
    c.write_offset(ClockBank::Hoco, 8, 1);
    assert_eq!(c.f_clk_hz(), 16 * MHZ);
}

#[test]
fn hiostop_kills_fclk() {
    let mut c = ClockGenerator::default();
    c.write_offset(ClockBank::Sfr, 1, CSC_HIOSTOP | CSC_XTSTOP | CSC_MSTOP);
    assert_eq!(c.f_clk_hz(), 0);
}

#[test]
fn ckc_css_mirrors_to_cls() {
    let mut c = ClockGenerator::default();
    c.write_offset(ClockBank::Sfr, 7, CKSEL_SELLOSC);
    c.write_offset(ClockBank::Sfr, 4, CKC_CSS);
    let v = c.read_offset(ClockBank::Sfr, 4);
    assert_ne!(v & CKC_CLS, 0);
    assert_ne!(v & CKC_CSS, 0);
    assert_eq!(c.f_clk_hz(), LOW_OSC);
}

#[test]
fn css_without_xt1_or_sellosc_stops_fclk() {
    let mut c = ClockGenerator::default();
    c.write_offset(ClockBank::Sfr, 4, CKC_CSS);
    assert_eq!(c.f_clk_hz(), 0);
}

#[test]
fn new_does_not_apply_option_byte() {
    let c = ClockGenerator::new();
    assert_eq!(c.f_clk_hz(), 0);
    let mut c = ClockGenerator::new();
    c.reset(None);
    assert_eq!(c.f_clk_hz(), 32 * MHZ);
}

#[test]
fn option_byte_selects_the_oscillator() {
    let mut c = ClockGenerator::new();
    c.reset(Some(0x02));
    assert_eq!(c.f_clk_hz(), 6 * MHZ);
    c.reset(Some(0x0C));
    assert_eq!(c.f_clk_hz(), 2 * MHZ);
    assert_eq!(c.tree().f_il, LOW_OSC);
}

#[test]
fn cmc_takes_one_value() {
    let mut c = ClockGenerator::default();
    c.write_offset(ClockBank::Sfr, 0, 0x10);
    c.write_offset(ClockBank::Sfr, 0, 0x20);
    assert_eq!(c.read_offset(ClockBank::Sfr, 0), 0x10);
    c.reset(None);
    c.write_offset(ClockBank::Sfr, 0, 0x20);
    assert_eq!(c.read_offset(ClockBank::Sfr, 0), 0x20);
}

#[test]
fn middle_oscillator_is_selected_by_mcm1() {
    let mut c = ClockGenerator::default();
    c.write_offset(ClockBank::Sfr, 1, 0x02);
    c.write_offset(ClockBank::OscDiv, 0, 1);
    c.write_offset(ClockBank::Sfr, 4, 0x01);
    assert_eq!(c.f_clk_hz(), 2 * MHZ);
    assert_eq!(c.read_offset(ClockBank::Sfr, 4), 0x03);
    c.write_offset(ClockBank::Sfr, 4, 0x10);
    assert_eq!(c.f_clk_hz(), 0);
    c.write_offset(ClockBank::OscDiv, 1, 0xFF);
    assert_eq!(c.read_offset(ClockBank::OscDiv, 1), 0x91);
    assert_eq!(c.tree().f_rtcck, LOW_OSC);
}

#[test]
fn clock_window_bounds() {
    let mut c = ClockGenerator::default();
    let sfr = ClockMmio::new(ClockBank::Sfr);
    let mut buf = [9u8; 3];
    assert_eq!(
        sfr.read(&c, 6, &mut buf),
        Err(BusError::OutOfRange { addr: 6, offset: 6, len: 3 })
    );
    assert_eq!(buf, [9, 9, 9]);
    sfr.write(&mut c, 5, &[1, 2]).unwrap();
    sfr.read(&c, 5, &mut buf).unwrap();
    assert_eq!(buf, [1, 2, 0]);
    assert!(sfr.write(&mut c, u64::MAX, &[1]).is_err());
    assert_eq!(sfr.load(3), Err(BusError::NotLoadable { addr: 3 }));
    assert_eq!(sfr.len(), 8);
    assert_eq!(ClockBank::all().map(|b| b.base()), [0xFFFA0, 0xF00F2, 0xF00A0, 0xF0212]);
}

#[test]
fn cycle_times() {
    assert_eq!(cycles_to_tick(20, 32 * MHZ), Some(625));
    assert_eq!(cycles_to_tick(1, 32 * MHZ), Some(31));
    assert_eq!(cycles_to_tick(0, 32 * MHZ), None);
    assert_eq!(cycles_to_tick(1, 0), None);
    assert_eq!(cycles_to_tick(u64::MAX, 1), Some(u64::MAX));
}

#[test]
fn reset_masks_all_and_clears_if() {
    let irq = IrqController::default();
    assert!(!irq.is_flag_set(IrqId::INTTM00));
    assert!(irq.pending().is_none());
}

#[test]
fn raise_stays_pending_only_when_unmasked() {
    let mut irq = IrqController::default();
    irq.raise(IrqId::INTTM00);
    assert!(irq.is_flag_set(IrqId::INTTM00));
    assert!(irq.pending().is_none());
    irq.write_if_mk_word(IfMkReg::Mk(IrqGroup(0)), 0);
    let pending = irq.pending().unwrap();
    assert_eq!(pending.index, IrqId::INTTM00);
    assert_eq!(pending.priority, 3);
}

#[test]
fn lower_priority_number_wins() {
    let mut irq = IrqController::default();
    irq.unmask_all();
    irq.raise(IrqId::INTTM00);
    irq.raise(IrqId::INTST0);
    irq.set_priority(IrqId::INTTM00, 0);
    let pending = irq.pending().unwrap();
    assert_eq!(pending.index, IrqId::INTTM00);
    assert_eq!(pending.priority, 0);
}

#[test]
fn ack_clears_flag() {
    let mut irq = IrqController::default();
    irq.unmask_all();
    irq.raise(IrqId::INTST0);
    irq.ack(IrqId::INTST0);
    assert!(!irq.is_flag_set(IrqId::INTST0));
    assert!(irq.pending().is_none());
}

#[test]
fn word_write_updates_if0_in_one_deposit() {
    let mut irq = IrqController::default();
    let mmio = IrqBankMmio::new(0);
    mmio.write(&mut irq, 0, &[0x34, 0x12]).unwrap();
    let mut buf = [0u8; 2];
    mmio.read(&irq, 0, &mut buf).unwrap();
    assert_eq!(buf, [0x34, 0x12]);
    assert!(irq.is_flag_set(IrqId::from_index(2).unwrap()));
    assert!(irq.is_flag_set(IrqId::from_index(4).unwrap()));
    assert!(irq.is_flag_set(IrqId::from_index(12).unwrap()));
    assert!(!irq.is_flag_set(IrqId::INTTM00));
}

#[test]
fn byte_write_touches_only_if0h() {
    let mut irq = IrqController::default();
    let mmio = IrqBankMmio::new(0);
    mmio.write(&mut irq, 0, &[0xFF, 0x00]).unwrap();
    mmio.write(&mut irq, 1, &[0x40]).unwrap();
    let mut buf = [0u8; 2];
    mmio.read(&irq, 0, &mut buf).unwrap();
    assert_eq!(buf, [0xFF, 0x40]);
    assert!(irq.is_flag_set(IrqId::INTTM00));
}

#[test]
fn vector_indices_round_trip() {
    for i in 0..59u8 {
        assert_eq!(IrqId::from_index(i).unwrap().index(), i);
    }
    assert_eq!(IrqId::from_index(59), None);
    assert_eq!(IrqId::INTTM17.index(), 58);
    assert_eq!(IrqId::INTST0.index(), 13);
}

#[test]
fn ties_go_to_the_lower_line() {
    let mut irq = IrqController::default();
    irq.unmask_all();
    irq.raise(IrqId::INTTM00);
    irq.raise(IrqId::INTST0);
    assert_eq!(irq.pending().unwrap().index, IrqId::INTST0);
}

#[test]
fn priority_words_read_back() {
    let mut irq = IrqController::default();
    let low = IrqBankMmio::new(0);
    let high = IrqBankMmio::new(1);
    low.write(&mut irq, 8, &[0x00, 0xA5]).unwrap();
    let mut buf = [0u8; 2];
    low.read(&irq, 8, &mut buf).unwrap();
    assert_eq!(buf, [0x00, 0xA5]);
    low.read(&irq, 12, &mut buf).unwrap();
    assert_eq!(buf, [0xFF, 0xFF]);
    // Lines 59 and above do not exist.
    high.write(&mut irq, 14, &[0xFF, 0xFF]).unwrap();
    high.read(&irq, 14, &mut buf).unwrap();
    assert_eq!(buf, [0xFF, 0x07]);
    let mut byte = [0u8; 1];
    low.read(&irq, 9, &mut byte).unwrap();
    assert_eq!(byte, [0xA5]);
}

#[test]
fn irq_windows_refuse_other_accesses() {
    let mut irq = IrqController::default();
    let mmio = IrqBankMmio::new(0);
    let mut word = [0u8; 2];
    let mut four = [0u8; 4];
    assert_eq!(
        mmio.read(&irq, 1, &mut word),
        Err(BusError::OutOfRange { addr: 1, offset: 1, len: 2 })
    );
    assert!(mmio.read(&irq, 0, &mut four).is_err());
    assert!(mmio.write(&mut irq, 0x10, &[0]).is_err());
    assert!(IrqBankMmio::new(2).write(&mut irq, 0, &[0, 0]).is_err());
    assert_eq!(mmio.load(4), Err(BusError::NotLoadable { addr: 4 }));
}

#[test]
fn edge_registers() {
    let mut irq = IrqController::default();
    let edge = IrqEdgeMmio::new();
    edge.write(&mut irq, 0, &[0x81]).unwrap();
    edge.write(&mut irq, 3, &[0xFF]).unwrap();
    let mut buf = [0u8; 1];
    edge.read(&irq, 0, &mut buf).unwrap();
    assert_eq!(buf, [0x81]);
    edge.read(&irq, 1, &mut buf).unwrap();
    assert_eq!(buf, [0x00]);
    // Pins 8 to 11 only.
    edge.read(&irq, 3, &mut buf).unwrap();
    assert_eq!(buf, [0x0F]);
    assert_eq!(irq.read_edge(EdgeReg::Egp1), 0);
    assert!(edge.write(&mut irq, 4, &[0]).is_err());
    assert!(edge.write(&mut irq, 0, &[0, 0]).is_err());
}

#[test]
fn cpu_line_follows_the_pending_request() {
    let low = LineLevel { index: 0, priority: 0, level: 0 };
    let mut line = CpuLine::new();
    let mut irq = IrqController::default();
    irq.unmask_all();
    irq.raise(IrqId::INTTM00);
    assert_eq!(line.drive(&irq), None);
    assert_eq!(line.on_ack(&mut irq, 14), None);
    assert_eq!(line.bind(&irq), LineLevel { index: 14, priority: 3, level: 1 });
    irq.raise(IrqId::INTST0);
    assert_eq!(line.drive(&irq), Some(LineLevel { index: 13, priority: 3, level: 1 }));
    assert_eq!(line.on_ack(&mut irq, 13), Some(LineLevel { index: 14, priority: 3, level: 1 }));
    assert_eq!(line.on_ack(&mut irq, 59), None);
    assert_eq!(line.on_ack(&mut irq, 256 + 14), Some(low));
    assert_eq!(line.unbind(), Some(low));
    assert_eq!(line.unbind(), None);
}

#[test]
fn every_change_of_the_latches_drives_the_line() {
    let low = LineLevel { index: 0, priority: 0, level: 0 };
    let mut line = CpuLine::new();
    let mut irq = IrqController::default();
    let bank = IrqBankMmio::new(0);
    assert_eq!(line.raise(&mut irq, IrqId::INTST0), None);
    assert_eq!(line.level, low);
    assert_eq!(line.bind(&irq), low);
    // Unmasking the line lets its request through.
    let st0 = LineLevel { index: 13, priority: 3, level: 1 };
    assert_eq!(line.write(&bank, &mut irq, 4, &[0xFF, 0x9F]), (Ok(()), Some(st0)));
    assert_eq!(line.level, st0);
    let (refused, level) = line.write(&bank, &mut irq, 5, &[0, 0]);
    assert!(refused.is_err());
    assert_eq!(level, None);
    // INTTM00 gets the highest priority.
    line.write(&bank, &mut irq, 9, &[0xBF]).0.unwrap();
    line.write(&bank, &mut irq, 13, &[0xBF]).0.unwrap();
    let tm00 = LineLevel { index: 14, priority: 0, level: 1 };
    assert_eq!(line.raise(&mut irq, IrqId::INTTM00), Some(tm00));
    assert_eq!(line.reset(&mut irq), Some(low));
    assert_eq!(line.level, low);
}

#[test]
fn connected_part_injects_and_reinjects() {
    let (mut g23, level) = G23Machine::new(&[0xFF; 0x100]);
    assert_eq!(level.level, 0);
    let tm00 = LineLevel { index: 14, priority: 3, level: 1 };
    let st0 = LineLevel { index: 13, priority: 3, level: 1 };
    let low = LineLevel { index: 0, priority: 0, level: 0 };
    assert_eq!(g23.write(0xFFFE4, &[0xFF, 0x9F], 0), (Ok(()), Some(low)));
    assert_eq!(g23.write(0xFFFE0, &[0x00, 0x60], 0), (Ok(()), Some(st0)));
    assert_eq!(g23.on_ack(13), Some(tm00));
    assert_eq!(read2(&g23.part, 0xFFFE0), [0x00, 0x40]);
    assert_eq!(g23.on_ack(14), Some(low));
    assert_eq!(g23.on_ack(59), None);
    // Other registers do not touch the line; their events do.
    assert_eq!(g23.write(0xFFF18, &[31, 0], 0), (Ok(()), None));
    assert_eq!(g23.write(0xF01B2, &[0x01, 0x00], 0), (Ok(()), None));
    let (at, event) = g23.part.core.next_event().unwrap();
    assert_eq!(at, 1000);
    assert_eq!(g23.fire(event), Some(tm00));
    assert_eq!(g23.line.level, tm00);
    assert_eq!(g23.write(0x80000, &[0], 0).1, None);
    assert_eq!(g23.reset(&[0xFF; 0x100]), Some(low));
}

fn g23_part() -> R7F100Gxl {
    let mut part = R7F100Gxl::new();
    part.reset(&[0xFF; 0x100]);
    part
}

fn pump(part: &mut R7F100Gxl, now: u64) {
    while let Some((at, event)) = part.core.next_event() {
        if at > now {
            break;
        }
        part.core.fire(event);
    }
}

fn read2(part: &R7F100Gxl, addr: u64) -> [u8; 2] {
    let mut buf = [0u8; 2];
    part.core.read(addr, &mut buf).unwrap();
    buf
}

#[test]
fn g23_clock_and_timer_sfr_are_mapped() {
    let mut part = g23_part();
    let mut ckc = [0u8; 1];
    part.core.read(0xFFFA4, &mut ckc).unwrap();
    assert_eq!(ckc[0], 0);

    part.core.write(0xF00A8, &[1], 0).unwrap();
    let mut hocodiv = [0u8; 1];
    part.core.read(0xF00A8, &mut hocodiv).unwrap();
    assert_eq!(hocodiv[0], 1);

    part.core.write(0xF01B2, &[0x01, 0x00], 0).unwrap();
    assert_eq!(read2(&part, 0xF01B0), [1, 0]);

    part.core.write(0xFFF10, &[0x5A, 0x00], 0).unwrap();
    assert_eq!(read2(&part, 0xFFF10)[0], 0x5A);
}

#[test]
fn core_reset_concerns_the_clock_alone() {
    let mut part = g23_part();
    part.core.write(0xF00A8, &[1], 0).unwrap();
    part.core.write(0xFFFE4, &[0xFF, 0xBF], 0).unwrap();
    part.core.irq.raise(IrqId::INTTM00);
    part.core.write(0xFFF18, &[31, 0], 0).unwrap();
    part.core.reset(None);
    assert_eq!(part.core.clock.f_clk_hz(), 32 * MHZ);
    assert_eq!(part.core.irq.pending().unwrap().index, IrqId::INTTM00);
    assert_eq!(read2(&part, 0xFFF18), [31, 0]);
    // A reset of the part takes every unit with it.
    part.reset(&[0xFF; 0x100]);
    assert!(!part.core.irq.is_flag_set(IrqId::INTTM00));
    assert_eq!(read2(&part, 0xFFFE4), [0xFF, 0xFF]);
    assert_eq!(read2(&part, 0xFFF18), [0xFF, 0xFF]);
}

#[test]
fn r7f100gxl_ram_does_not_cover_sau() {
    let layout = R7F100Gxl::memory_layout();
    assert_eq!(layout.ram_base, 0xF3F00);
    assert!(layout.ram_base > 0xF0100);
}

#[test]
fn tau_interval_sets_overflow_after_tdr_counts() {
    let mut part = g23_part();
    part.core.write(0xFFF18, &[31, 0], 0).unwrap();
    part.core.write(0xF01B2, &[0x01, 0x00], 0).unwrap();
    pump(&mut part, 0);
    pump(&mut part, 999);
    assert_eq!(read2(&part, 0xF01A0)[0] & 1, 0);
    pump(&mut part, 1000);
    assert_eq!(read2(&part, 0xF01A0)[0] & 1, 1);
    assert!(part.core.tau.channel_enabled(0));
}

#[test]
fn tau_restart_after_tt_ignores_stale_deadline() {
    let mut part = g23_part();
    part.core.write(0xFFF18, &[31, 0], 0).unwrap();
    part.core.write(0xF01B2, &[0x01, 0x00], 0).unwrap();
    pump(&mut part, 0);
    part.core.write(0xF01B4, &[0x01, 0x00], 0).unwrap();
    pump(&mut part, 0);
    pump(&mut part, 1000);
    assert_eq!(read2(&part, 0xF01A0)[0] & 1, 0);
    part.core.write(0xF01B2, &[0x01, 0x00], 1000).unwrap();
    pump(&mut part, 1000);
    pump(&mut part, 1999);
    assert_eq!(read2(&part, 0xF01A0)[0] & 1, 0);
    pump(&mut part, 2000);
    assert_eq!(read2(&part, 0xF01A0)[0] & 1, 1);
}

#[test]
fn tau_arms_when_fclk_returns() {
    let mut part = g23_part();
    part.core.write(0xFFFA1, &[0xC1], 0).unwrap();
    part.core.write(0xFFF18, &[31, 0], 0).unwrap();
    part.core.write(0xF01B2, &[0x01, 0x00], 0).unwrap();
    pump(&mut part, 0);
    part.core.write(0xFFFA1, &[0xC0], 0).unwrap();
    part.core.write(0xF01B2, &[0x01, 0x00], 0).unwrap();
    pump(&mut part, 0);
    pump(&mut part, 1000);
    assert_eq!(read2(&part, 0xF01A0)[0] & 1, 1);
}

#[test]
fn sau_uart_tx_emits_byte_after_frame_time() {
    let mut part = g23_part();
    part.core.write(0xF0118, &[0x04, 0x80], 0).unwrap();
    part.core.write(0xF012A, &[0x01, 0x00], 0).unwrap();
    part.core.write(0xF0122, &[0x01, 0x00], 0).unwrap();
    part.core.write(0xFFF10, &[b'A', 0x00], 0).unwrap();
    pump(&mut part, 0);
    assert!(part.core.uart_tx.bytes().is_empty());
    pump(&mut part, 624);
    assert!(part.core.uart_tx.bytes().is_empty());
    pump(&mut part, 625);
    assert_eq!(part.core.uart_tx.bytes(), b"A");
}

#[test]
fn irq_reset_masks_if_until_mk_cleared() {
    let mut part = g23_part();
    assert_eq!(read2(&part, 0xFFFE4), [0xFF, 0xFF]);
    part.core.write(0xFFFE0, &[0x00, 0x40], 0).unwrap();
    assert!(part.core.irq.is_flag_set(IrqId::INTTM00));
    assert!(part.core.irq.pending().is_none());
    part.core.write(0xFFFE4, &[0xFF, 0xBF], 0).unwrap();
    let pending = part.core.irq.pending().unwrap();
    assert_eq!(pending.index, IrqId::INTTM00);
}

#[test]
fn tau_interval_latches_inttm00() {
    let mut part = g23_part();
    part.core.write(0xFFF18, &[31, 0], 0).unwrap();
    part.core.write(0xF01B2, &[0x01, 0x00], 0).unwrap();
    pump(&mut part, 0);
    pump(&mut part, 1000);
    assert_eq!(read2(&part, 0xFFFE0)[1] & 0x40, 0x40);
    assert!(part.core.irq.is_flag_set(IrqId::INTTM00));
}

#[test]
fn sau_uart_tx_latches_intst0() {
    let mut part = g23_part();
    part.core.write(0xF0118, &[0x04, 0x80], 0).unwrap();
    part.core.write(0xF012A, &[0x01, 0x00], 0).unwrap();
    part.core.write(0xF0122, &[0x01, 0x00], 0).unwrap();
    part.core.write(0xFFF10, &[b'A', 0x00], 0).unwrap();
    pump(&mut part, 0);
    pump(&mut part, 625);
    assert!(part.core.irq.is_flag_set(IrqId::INTST0));
    assert_eq!(read2(&part, 0xFFFE0)[1] & 0x20, 0x20);
}

#[test]
fn interval_timer_repeats() {
    let mut part = g23_part();
    part.core.write(0xFFF18, &[31, 0], 5).unwrap();
    part.core.write(0xF01B2, &[0x01, 0x00], 5).unwrap();
    assert_eq!(
        part.core.next_event(),
        Some((1005, G23Event::TauOverflow { channel: 0 }))
    );
    pump(&mut part, 1005);
    assert_eq!(
        part.core.next_event(),
        Some((2005, G23Event::TauOverflow { channel: 0 }))
    );
}

#[test]
fn events_come_in_time_order() {
    let mut part = g23_part();
    part.core.write(0xF0118, &[0x04, 0x80], 0).unwrap();
    part.core.write(0xF012A, &[0x01, 0x00], 0).unwrap();
    part.core.write(0xF0122, &[0x01, 0x00], 0).unwrap();
    part.core.write(0xFFF18, &[31, 0], 0).unwrap();
    part.core.write(0xF01B2, &[0x01, 0x00], 0).unwrap();
    part.core.write(0xFFF10, &[b'B', 0x00], 0).unwrap();
    assert_eq!(part.core.next_event(), Some((625, G23Event::SauSent { channel: 0 })));
    // The channel is busy until the frame has gone out.
    assert_eq!(read2(&part, 0xF0100), [0x40, 0x00]);
    pump(&mut part, 700);
    assert_eq!(read2(&part, 0xF0100), [0x00, 0x00]);
    assert_eq!(part.core.uart_tx.bytes(), b"B");
    // ST drops a frame on its way.
    part.core.write(0xFFF10, &[b'C', 0x00], 700).unwrap();
    part.core.write(0xF0124, &[0x01, 0x00], 700).unwrap();
    pump(&mut part, 900);
    assert_eq!(part.core.uart_tx.bytes(), b"B");
}

#[test]
fn unmapped_addresses_are_refused() {
    let mut part = g23_part();
    let mut buf = [0u8; 1];
    assert_eq!(
        part.core.read(0x80000, &mut buf),
        Err(BusError::Unmapped { addr: 0x80000 })
    );
    assert_eq!(
        part.core.write(0xF0140, &[0, 0], 0),
        Err(BusError::Unmapped { addr: 0xF0140 })
    );
    // SAU registers take whole words.
    assert!(part.core.write(0xF0122, &[1], 0).is_err());
    assert_eq!(G23Window::all().len(), 12);
    assert_eq!(tau_irq(7), IrqId::INTTM07);
    assert_eq!(sau_irq(2), IrqId::INTST1);
}

#[test]
fn tau_registers() {
    let mut tau = TauUnit::default();
    assert!(TauUnit::owns(0xFFF18) && TauUnit::owns(0xFFF6F) && TauUnit::owns(0xF0075));
    assert!(!TauUnit::owns(0xFFF1C) && !TauUnit::owns(0xF01C0));
    assert_eq!(tau.read_u8(0xFFF64), 0xFF);
    tau.write_u8(0xFFF65, 0x12);
    assert_eq!(tau.read_u8(0xFFF65), 0x12);
    assert_eq!(tau.read_u8(0xFFF64), 0xFF);
    tau.write_u8(0xF01B2, 0x05);
    tau.write_u8(0xF01B4, 0x04);
    assert_eq!(tau.te(), 0x01);
    tau.write_u8(0xF01B0, 0xFF);
    assert_eq!(tau.te(), 0x01);
    tau.write_u8(0xF0191, 0x80);
    assert_eq!(tau.read_u8(0xF0191), 0x80);
    tau.write_u8(0xF0180, 0);
    assert_eq!(tau.read_u8(0xF0180), 0xFF);
    tau.write_u8(0xF0075, 3);
    assert_eq!((tau.read_u8(0xF0074), tau.read_u8(0xF0075)), (0, 3));
    tau.write_u8(0, 1);
    assert_eq!(tau.read_u8(0), 0);
}

#[test]
fn sau_registers() {
    let mut sau = SauUnit::new();
    sau.reset();
    let ctrl = SauCtrlMmio::new();
    let sdr = SauSdrMmio::new(0);
    let mut buf = [0u8; 2];
    ctrl.read(&sau, 0x10, &mut buf).unwrap();
    assert_eq!(buf, [0x20, 0x00]);
    ctrl.write(&mut sau, 0x26, &[0x52, 0xFF]).unwrap();
    ctrl.read(&sau, 0x26, &mut buf).unwrap();
    assert_eq!(buf, [0x52, 0x00]);
    // A stopped channel takes the baud divider with the data.
    sdr.write(&mut sau, 2, &[0x41, 0x06], 0, 32 * MHZ).unwrap();
    sdr.read(&sau, 2, &mut buf).unwrap();
    assert_eq!(buf, [0x41, 0x06]);
    assert_eq!(sau.baud_div[1], 3);
    // 2^2 prescaled clocks, divider 3: 4 * 4 * 2 * 10 cycles.
    assert_eq!(sau.frame_time(1, 32 * MHZ), Some(10_000));
    ctrl.write(&mut sau, 0x22, &[0x02, 0x00]).unwrap();
    sdr.read(&sau, 2, &mut buf).unwrap();
    assert_eq!(buf, [0x41, 0x00]);
    let mut byte = [0u8; 1];
    sdr.read(&sau, 3, &mut byte).unwrap();
    assert_eq!(byte, [0x00]);
    assert_eq!(
        sdr.write(&mut sau, 1, &[0, 0], 0, 0),
        Err(BusError::OutOfRange { addr: 1, offset: 1, len: 2 })
    );
    assert!(sdr.write(&mut sau, 0, &[0], 0, 0).is_err());
    // The last channel has a register in this window, and there is none behind it.
    let last = SauSdrMmio::new(3);
    last.write(&mut sau, 0, &[0x5A, 0x00], 0, 32 * MHZ).unwrap();
    last.read(&sau, 0, &mut buf).unwrap();
    assert_eq!(buf, [0x5A, 0x00]);
    assert!(last.write(&mut sau, 4, &[0, 0], 0, 0).is_err());
    assert!(SauSdrMmio::new(usize::MAX).read(&sau, 9, &mut buf).is_err());
    assert!(ctrl.read(&sau, 0x3F, &mut buf).is_err());
    assert_eq!(ctrl.load(0), Err(BusError::NotLoadable { addr: 0 }));
}

#[test]
fn capture_keeps_frames() {
    let mut capture = ByteCapture::new();
    let frame = |data| UartFrame { data, ..UartFrame::default() };
    capture.on_input(&[frame(1), frame(0x142)], 1);
    capture.on_input(&[frame(1)], 1);
    assert_eq!(capture.frames().len(), 1);
    assert_eq!(capture.bytes(), vec![0x42]);
    capture.clear();
    assert!(capture.frames().is_empty());
}

#[test]
fn device_layout_is_selectable() {
    let layout = Rl78Device::Generic64k.memory_layout();
    assert_eq!(layout.rom_size, 64 * 1024);
    assert_eq!(layout.ram_size, 32 * 1024);
    assert_eq!(layout.ram_base, 0xF0100);
    let custom = MemoryLayout {
        rom_base: 0,
        rom_size: 8 * 1024,
        ram_base: 0xF8000,
        ram_size: 4 * 1024,
    };
    let cfg = MinimalMachineConfig { layout: Some(custom), ..MinimalMachineConfig::default() };
    assert_eq!(cfg.layout().ram_size, 4 * 1024);
    assert_eq!(cfg.windows()[1].size, 4 * 1024);
}
