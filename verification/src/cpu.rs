//! CPU bookkeeping around the core: bound memory, IO pages, breakpoints and
//! the inspection interface.

use vstd::prelude::*;

use crate::callbacks::{
    clear_host_regions, clear_io_bus, kept_apart, map_host_region, set_io_bus,
    take_callback_stop, CallbackState, HostRegion, TLIB_PAGE_SIZE,
};
use crate::kernel::{Addr, Breakpoint, BreakpointId, PendingStop, Quantum, RegId, StopReason};
use crate::regs::{Rl78Reg, EXCP_DEBUG};
use crate::text::{
    count_below, first_some, lemma_count_below, lemma_first_some, lemma_first_some_stays,
};

verus! {

/// One region of the bus. `host` is the address of its buffer, where the
/// region can be accessed directly.
#[derive(Clone, Copy, Debug, PartialEq, Eq, Structural)]
pub struct BusRegion {
    pub base: u64,
    pub size: u64,
    pub host: Option<usize>,
}

/// Ranges that the core is told to map, and pages that it is told to treat as IO.
#[derive(Debug)]
pub struct BindPlan {
    pub ranges: Vec<(u64, u64)>,
    pub io_pages: Vec<u64>,
}

/// Pages whose IO mark the core is told to clear, and address ranges (first
/// and last address) that it is told to unmap.
#[derive(Debug)]
pub struct UnbindPlan {
    pub io_pages: Vec<u64>,
    pub ranges: Vec<(u64, u64)>,
}

/// Breakpoint addresses that the core is told to remove and to add.
#[derive(Debug)]
pub struct BreakpointPlan {
    pub remove: Vec<Addr>,
    pub insert: Vec<Addr>,
}

/// CPU state beside the core's own.
#[derive(Debug)]
pub struct Rl78Cpu {
    /// Stop that was asked for while the core ran.
    pub pending: PendingStop,
    /// Kernel breakpoint table. The core knows addresses only, so a debug exit
    /// is mapped back to an id through the program counter.
    pub breakpoints: Vec<Breakpoint>,
    /// Whether a bus is bound.
    pub memory_bound: bool,
    /// Guest ranges (base, length) that were mapped into the core.
    pub mapped_ranges: Vec<(u64, u64)>,
    /// Pages that were marked as IO.
    pub io_pages: Vec<u64>,
}

/// `a + b`, or the last address where that does not fit.
pub open spec fn end_addr(base: u64, length: u64) -> u64 {
    if base + length > u64::MAX {
        u64::MAX
    } else {
        (base + length) as u64
    }
}

/// First page of a range.
pub open spec fn first_page(base: u64) -> u64 {
    (base - base % 256) as u64
}

/// Number of pages that a range touches.
pub open spec fn page_count(base: u64, length: u64) -> nat {
    if length == 0 || end_addr(base, length) <= first_page(base) {
        0
    } else {
        ((end_addr(base, length) - first_page(base) + 255) / 256) as nat
    }
}

/// The pages that a range touches, in order.
pub open spec fn pages_of(base: u64, length: u64) -> Seq<u64> {
    Seq::new(page_count(base, length), |i: int| (first_page(base) + 256 * i) as u64)
}

/// The pages that a range touches, in order.
pub fn io_page_list(guest_base: u64, length: u64) -> (r: Vec<u64>)
    ensures
        r@ == pages_of(guest_base, length),
{
    let mut pages: Vec<u64> = Vec::new();
    if length == 0 {
        assert(pages@ == pages_of(guest_base, length));
        return pages;
    }
    let end = guest_base.saturating_add(length);
    let mut page: u64 = guest_base - guest_base % TLIB_PAGE_SIZE;
    let ghost first = page;
    let ghost n = page_count(guest_base, length);
    while page < end
        invariant
            end == end_addr(guest_base, length),
            first == first_page(guest_base),
            first % 256 == 0,
            length > 0,
            n == page_count(guest_base, length),
            pages@.len() <= n,
            pages@ == pages_of(guest_base, length).take(pages@.len() as int),
            page < end ==> page == first + 256 * pages@.len(),
            page >= end ==> pages@.len() == n,
        decreases
                if page < end {
                    end - page
                } else {
                    0
                },
    {
        proof {
            assert(pages@.len() < n) by {
                assert(page == first + 256 * pages@.len());
            }
        }
        let ghost before = pages@;
        pages.push(page);
        page = page.saturating_add(TLIB_PAGE_SIZE);
        proof {
            assert(pages@ =~= pages_of(guest_base, length).take(pages@.len() as int));
        }
    }
    assert(pages@ == pages_of(guest_base, length)) by {
        if pages@.len() == n {
            assert(pages_of(guest_base, length).take(n as int) == pages_of(guest_base, length));
        }
    }
    pages
}

/// Addresses of the enabled breakpoints among the first `n`, in order.
pub open spec fn enabled_addrs(table: Seq<Breakpoint>, n: nat) -> Seq<Addr>
    decreases n,
{
    if n == 0 {
        seq![]
    } else {
        let before = enabled_addrs(table, (n - 1) as nat);
        if table[n - 1].enabled {
            before.push(table[n - 1].addr)
        } else {
            before
        }
    }
}

/// The addresses of `from` that `other` does not hold, in order.
pub open spec fn not_in(from: Seq<Addr>, other: Seq<Addr>, n: nat) -> Seq<Addr>
    decreases n,
{
    if n == 0 {
        seq![]
    } else {
        let before = not_in(from, other, (n - 1) as nat);
        if other.contains(from[n - 1]) {
            before
        } else {
            before.push(from[n - 1])
        }
    }
}

fn holds(addrs: &Vec<Addr>, addr: Addr) -> (r: bool)
    ensures
        r == addrs@.contains(addr),
{
    let mut i: usize = 0;
    while i < addrs.len()
        invariant
            i <= addrs@.len(),
            forall|k: int| 0 <= k < i ==> addrs@[k] != addr,
        decreases addrs@.len() - i,
    {
        if addrs[i] == addr {
            return true;
        }
        i += 1;
    }
    false
}

fn difference(from: &Vec<Addr>, other: &Vec<Addr>) -> (r: Vec<Addr>)
    ensures
        r@ == not_in(from@, other@, from@.len()),
{
    let mut out: Vec<Addr> = Vec::new();
    let mut i: usize = 0;
    while i < from.len()
        invariant
            i <= from@.len(),
            out@ == not_in(from@, other@, i as nat),
        decreases from@.len() - i,
    {
        if !holds(other, from[i]) {
            out.push(from[i]);
        }
        i += 1;
    }
    out
}

/// The id of the `i`-th breakpoint, where it is enabled at this address.
pub open spec fn breakpoint_match(table: Seq<Breakpoint>, pc: Addr) -> spec_fn(int) -> Option<
    BreakpointId,
> {
    |i: int|
        if table[i].enabled && table[i].addr == pc {
            Some(table[i].id)
        } else {
            None
        }
}

/// Regions with a buffer among the first `n`, in order.
pub open spec fn host_regions(regions: Seq<BusRegion>, n: nat) -> Seq<HostRegion>
    decreases n,
{
    if n == 0 {
        seq![]
    } else {
        let before = host_regions(regions, (n - 1) as nat);
        let r = regions[n - 1];
        match r.host {
            Some(host) => before.push(HostRegion { guest_base: r.base, size: r.size, host }),
            None => before,
        }
    }
}

/// Ranges (base, length) of the regions with a buffer among the first `n`.
pub open spec fn host_ranges(regions: Seq<BusRegion>, n: nat) -> Seq<(u64, u64)>
    decreases n,
{
    if n == 0 {
        seq![]
    } else {
        let before = host_ranges(regions, (n - 1) as nat);
        let r = regions[n - 1];
        if r.host is Some {
            before.push((r.base, r.size))
        } else {
            before
        }
    }
}

/// Pages of the regions without a buffer among the first `n`, in order.
pub open spec fn io_pages_of(regions: Seq<BusRegion>, n: nat) -> Seq<u64>
    decreases n,
{
    if n == 0 {
        seq![]
    } else {
        let before = io_pages_of(regions, (n - 1) as nat);
        let r = regions[n - 1];
        if r.host is None {
            before + pages_of(r.base, r.size)
        } else {
            before
        }
    }
}

/// Windows after these were mapped one after the other.
pub open spec fn after_maps(start: Seq<HostRegion>, mapped: Seq<HostRegion>) -> Seq<HostRegion>
    decreases mapped.len(),
{
    if mapped.len() == 0 {
        start
    } else {
        kept_apart(after_maps(start, mapped.drop_last()), mapped.last()).push(mapped.last())
    }
}

/// Address ranges (first and last address) of the mapped ranges that are not
/// empty, among the first `n`.
pub open spec fn unmap_ranges(ranges: Seq<(u64, u64)>, n: nat) -> Seq<(u64, u64)>
    decreases n,
{
    if n == 0 {
        seq![]
    } else {
        let before = unmap_ranges(ranges, (n - 1) as nat);
        let (base, size) = ranges[n - 1];
        if size == 0 {
            before
        } else {
            before.push((base, last_addr(base, size)))
        }
    }
}

/// Last address of a range.
pub open spec fn last_addr(base: u64, size: u64) -> u64 {
    if end_addr(base, size) == 0 {
        0
    } else {
        (end_addr(base, size) - 1) as u64
    }
}

/// The stop that a run of the core ends with: one that was asked for goes
/// first, then the breakpoint of a debug exit, then what any other exit means.
pub open spec fn stop_after(
    pending: Option<StopReason>,
    exit: i32,
    breakpoint: Option<BreakpointId>,
    exit_stop: Option<StopReason>,
) -> Option<StopReason> {
    if pending is Some {
        pending
    } else if exit == EXCP_DEBUG && breakpoint is Some {
        Some(StopReason::Breakpoint { id: breakpoint->0 })
    } else {
        exit_stop
    }
}

impl Rl78Cpu {
    /// A CPU without memory and breakpoints.
    pub fn new() -> (r: Rl78Cpu)
        ensures
            r.pending.reason is None,
            r.breakpoints@ == Seq::<Breakpoint>::empty(),
            !r.memory_bound,
            r.mapped_ranges@ == Seq::<(u64, u64)>::empty(),
            r.io_pages@ == Seq::<u64>::empty(),
    {
        Rl78Cpu {
            pending: PendingStop::new(),
            breakpoints: Vec::new(),
            memory_bound: false,
            mapped_ranges: Vec::new(),
            io_pages: Vec::new(),
        }
    }

    /// Register a window for direct access and note its range.
    pub fn map_memory(
        &mut self,
        state: &mut CallbackState,
        guest_base: u64,
        length: u64,
        host: usize,
    )
        requires
            old(state).wf(),
            host + length <= usize::MAX,
        ensures
            final(state).wf(),
            final(state).regions@ == kept_apart(
                old(state).regions@,
                HostRegion { guest_base, size: length, host },
            ).push(HostRegion { guest_base, size: length, host }),
            final(state).io_bound == old(state).io_bound,
            final(state).stop == old(state).stop,
            final(self).mapped_ranges@ == old(self).mapped_ranges@.push((guest_base, length)),
            final(self).breakpoints == old(self).breakpoints,
            final(self).pending == old(self).pending,
            final(self).memory_bound == old(self).memory_bound,
            final(self).io_pages == old(self).io_pages,
    {
        map_host_region(state, guest_base, length, host);
        self.mapped_ranges.push((guest_base, length));
    }

    /// Note every page that covers the range as IO, and hand them over to be marked.
    pub fn set_io_pages(&mut self, guest_base: u64, length: u64) -> (r: Vec<u64>)
        ensures
            r@ == pages_of(guest_base, length),
            final(self).io_pages@ == old(self).io_pages@ + r@,
            final(self).breakpoints == old(self).breakpoints,
            final(self).pending == old(self).pending,
            final(self).memory_bound == old(self).memory_bound,
            final(self).mapped_ranges == old(self).mapped_ranges,
    {
        let pages = io_page_list(guest_base, length);
        let mut i: usize = 0;
        while i < pages.len()
            invariant
                i <= pages@.len(),
                self.io_pages@ == old(self).io_pages@ + pages@.take(i as int),
                self.breakpoints == old(self).breakpoints,
                self.pending == old(self).pending,
                self.memory_bound == old(self).memory_bound,
                self.mapped_ranges == old(self).mapped_ranges,
            decreases pages@.len() - i,
        {
            self.io_pages.push(pages[i]);
            i += 1;
            assert(self.io_pages@ == old(self).io_pages@ + pages@.take(i as int));
        }
        assert(pages@.take(pages@.len() as int) == pages@);
        pages
    }

    fn map_host_regions(&mut self, state: &mut CallbackState, regions: &Vec<BusRegion>)
        requires
            old(state).wf(),
            forall|i: int|
                0 <= i < regions@.len() ==> ((#[trigger] regions@[i]).host matches Some(host)
                    ==> host + regions@[i].size <= usize::MAX),
        ensures
            final(state).wf(),
            final(state).regions@ == after_maps(
                old(state).regions@,
                host_regions(regions@, regions@.len()),
            ),
            final(state).io_bound == old(state).io_bound,
            final(state).stop == old(state).stop,
            final(self).mapped_ranges@ == old(self).mapped_ranges@ + host_ranges(
                regions@,
                regions@.len(),
            ),
            final(self).breakpoints == old(self).breakpoints,
            final(self).pending == old(self).pending,
            final(self).memory_bound == old(self).memory_bound,
            final(self).io_pages == old(self).io_pages,
    {
        let mut i: usize = 0;
        assert(self.mapped_ranges@ == old(self).mapped_ranges@ + host_ranges(regions@, 0));
        while i < regions.len()
            invariant
                i <= regions@.len(),
                state.wf(),
                forall|k: int|
                    0 <= k < regions@.len() ==> ((#[trigger] regions@[k]).host matches Some(host)
                        ==> host + regions@[k].size <= usize::MAX),
                state.regions@ == after_maps(
                    old(state).regions@,
                    host_regions(regions@, i as nat),
                ),
                state.io_bound == old(state).io_bound,
                state.stop == old(state).stop,
                self.mapped_ranges@ == old(self).mapped_ranges@ + host_ranges(regions@, i as nat),
                self.breakpoints == old(self).breakpoints,
                self.pending == old(self).pending,
                self.memory_bound == old(self).memory_bound,
                self.io_pages == old(self).io_pages,
            decreases regions@.len() - i,
        {
            let r = regions[i];
            assert(regions@[i as int].host matches Some(host) ==> host + regions@[i as int].size
                <= usize::MAX);
            if let Some(host) = r.host {
                let ghost mapped = host_regions(regions@, i as nat);
                self.map_memory(state, r.base, r.size, host);
                proof {
                    let new = HostRegion { guest_base: r.base, size: r.size, host };
                    assert(mapped.push(new).drop_last() == mapped);
                    assert(host_regions(regions@, (i + 1) as nat) == mapped.push(new));
                    assert(self.mapped_ranges@ == old(self).mapped_ranges@ + host_ranges(
                        regions@,
                        (i + 1) as nat,
                    ));
                }
            }
            i += 1;
        }
    }

    fn mark_io_regions(&mut self, regions: &Vec<BusRegion>) -> (r: Vec<u64>)
        ensures
            r@ == io_pages_of(regions@, regions@.len()),
            final(self).io_pages@ == old(self).io_pages@ + r@,
            final(self).breakpoints == old(self).breakpoints,
            final(self).pending == old(self).pending,
            final(self).memory_bound == old(self).memory_bound,
            final(self).mapped_ranges == old(self).mapped_ranges,
    {
        let mut out: Vec<u64> = Vec::new();
        let mut i: usize = 0;
        assert(self.io_pages@ == old(self).io_pages@ + out@);
        while i < regions.len()
            invariant
                i <= regions@.len(),
                out@ == io_pages_of(regions@, i as nat),
                self.io_pages@ == old(self).io_pages@ + out@,
                self.breakpoints == old(self).breakpoints,
                self.pending == old(self).pending,
                self.memory_bound == old(self).memory_bound,
                self.mapped_ranges == old(self).mapped_ranges,
            decreases regions@.len() - i,
        {
            let r = regions[i];
            if r.host.is_none() {
                let ghost before = out@;
                let mut pages = self.set_io_pages(r.base, r.size);
                let ghost added = pages@;
                out.append(&mut pages);
                proof {
                    assert(out@ == before + added);
                    assert(self.io_pages@ == old(self).io_pages@ + out@);
                }
            }
            i += 1;
        }
        out
    }

    /// Bind a bus: regions with a buffer become windows for direct access,
    /// the pages of the others go to the bus. Stops from before are dropped.
    pub fn bind_memory(&mut self, state: &mut CallbackState, regions: &Vec<BusRegion>) -> (r:
        BindPlan)
        requires
            !old(self).memory_bound,
            forall|i: int|
                0 <= i < regions@.len() ==> ((#[trigger] regions@[i]).host matches Some(host)
                    ==> host + regions@[i].size <= usize::MAX),
        ensures
            final(state).wf(),
            final(state).regions@ == after_maps(
                seq![],
                host_regions(regions@, regions@.len()),
            ),
            final(state).io_bound,
            final(state).stop is None,
            r.ranges@ == host_ranges(regions@, regions@.len()),
            r.io_pages@ == io_pages_of(regions@, regions@.len()),
            final(self).memory_bound,
            final(self).mapped_ranges@ == old(self).mapped_ranges@ + r.ranges@,
            final(self).io_pages@ == old(self).io_pages@ + r.io_pages@,
            final(self).breakpoints == old(self).breakpoints,
            final(self).pending == old(self).pending,
    {
        clear_host_regions(state);
        let _ = take_callback_stop(state);
        self.map_host_regions(state, regions);
        let mut ranges: Vec<(u64, u64)> = Vec::new();
        let mut i: usize = 0;
        while i < regions.len()
            invariant
                i <= regions@.len(),
                ranges@ == host_ranges(regions@, i as nat),
            decreases regions@.len() - i,
        {
            if regions[i].host.is_some() {
                ranges.push((regions[i].base, regions[i].size));
            }
            i += 1;
        }
        let io_pages = self.mark_io_regions(regions);
        set_io_bus(state);
        self.memory_bound = true;
        BindPlan { ranges, io_pages }
    }

    /// Tear down what [`Self::bind_memory`] has installed.
    pub fn unbind_memory(&mut self, state: &mut CallbackState) -> (r: UnbindPlan)
        ensures
            final(state).wf(),
            final(state).regions@ == Seq::<HostRegion>::empty(),
            !final(state).io_bound,
            final(state).stop is None,
            r.io_pages == old(self).io_pages,
            r.ranges@ == unmap_ranges(old(self).mapped_ranges@, old(self).mapped_ranges@.len()),
            !final(self).memory_bound,
            final(self).mapped_ranges@ == Seq::<(u64, u64)>::empty(),
            final(self).io_pages@ == Seq::<u64>::empty(),
            final(self).breakpoints == old(self).breakpoints,
            final(self).pending == old(self).pending,
    {
        clear_io_bus(state);
        let _ = take_callback_stop(state);
        let mut io_pages: Vec<u64> = Vec::new();
        std::mem::swap(&mut io_pages, &mut self.io_pages);
        let mut mapped: Vec<(u64, u64)> = Vec::new();
        std::mem::swap(&mut mapped, &mut self.mapped_ranges);
        let mut ranges: Vec<(u64, u64)> = Vec::new();
        let mut i: usize = 0;
        while i < mapped.len()
            invariant
                i <= mapped@.len(),
                ranges@ == unmap_ranges(mapped@, i as nat),
            decreases mapped@.len() - i,
        {
            let (base, size) = mapped[i];
            if size != 0 {
                ranges.push((base, base.saturating_add(size).saturating_sub(1)));
            }
            i += 1;
        }
        clear_host_regions(state);
        self.memory_bound = false;
        UnbindPlan { io_pages, ranges }
    }

    /// End a run of the core. `exit_stop` is what its exit means where neither
    /// a stop was asked for nor a breakpoint was hit.
    pub fn finish_tlib_quantum(
        &mut self,
        instructions: u64,
        tlib_exit: i32,
        breakpoint_at_pc: Option<BreakpointId>,
        exit_stop: Option<StopReason>,
    ) -> (r: Quantum)
        ensures
            r == (Quantum {
                instructions,
                stop: stop_after(old(self).pending.reason, tlib_exit, breakpoint_at_pc, exit_stop),
            }),
            final(self).pending.reason is None,
            final(self).breakpoints == old(self).breakpoints,
            final(self).memory_bound == old(self).memory_bound,
            final(self).mapped_ranges == old(self).mapped_ranges,
            final(self).io_pages == old(self).io_pages,
    {
        if let Some(reason) = self.pending.take() {
            return Quantum { instructions, stop: Some(reason) };
        }
        if tlib_exit == EXCP_DEBUG {
            if let Some(id) = breakpoint_at_pc {
                return Quantum { instructions, stop: Some(StopReason::Breakpoint { id }) };
            }
        }
        Quantum { instructions, stop: exit_stop }
    }

    /// End a run of the core that left it at `pc`: a stop that an access has
    /// latched is asked for, unless another is pending.
    pub fn end_quantum(
        &mut self,
        state: &mut CallbackState,
        instructions: u64,
        tlib_exit: i32,
        pc: Addr,
        exit_stop: Option<StopReason>,
    ) -> (r: Quantum)
        ensures
            r == (Quantum {
                instructions,
                stop: stop_after(
                    match old(self).pending.reason {
                        Some(reason) => Some(reason),
                        None => old(state).stop,
                    },
                    tlib_exit,
                    first_some(
                        breakpoint_match(old(self).breakpoints@, pc),
                        old(self).breakpoints@.len(),
                    ),
                    exit_stop,
                ),
            }),
            final(self).pending.reason is None,
            final(self).breakpoints == old(self).breakpoints,
            final(self).memory_bound == old(self).memory_bound,
            final(self).mapped_ranges == old(self).mapped_ranges,
            final(self).io_pages == old(self).io_pages,
            final(state).stop is None,
            final(state).regions == old(state).regions,
            final(state).io_bound == old(state).io_bound,
    {
        if let Some(reason) = take_callback_stop(state) {
            self.pending.request(reason);
        }
        let breakpoint = self.breakpoint_id_at_pc(pc);
        self.finish_tlib_quantum(instructions, tlib_exit, breakpoint, exit_stop)
    }

    /// The register that an inspection number stands for.
    pub fn map_reg_id(id: RegId) -> (r: Option<Rl78Reg>)
        ensures
            r is Some <==> id.0 < 18,
            r matches Some(reg) ==> reg.index() == id.0,
    {
        match id.0 {
            0 => Some(Rl78Reg::X),
            1 => Some(Rl78Reg::A),
            2 => Some(Rl78Reg::C),
            3 => Some(Rl78Reg::B),
            4 => Some(Rl78Reg::E),
            5 => Some(Rl78Reg::D),
            6 => Some(Rl78Reg::L),
            7 => Some(Rl78Reg::H),
            8 => Some(Rl78Reg::Pc),
            9 => Some(Rl78Reg::Sp),
            10 => Some(Rl78Reg::Es),
            11 => Some(Rl78Reg::Cs),
            12 => Some(Rl78Reg::PswCy),
            13 => Some(Rl78Reg::PswIsp),
            14 => Some(Rl78Reg::PswRbs),
            15 => Some(Rl78Reg::PswAc),
            16 => Some(Rl78Reg::PswZ),
            17 => Some(Rl78Reg::PswIe),
            _ => None,
        }
    }

    /// The first enabled breakpoint at this address.
    pub fn breakpoint_id_at_pc(&self, pc: Addr) -> (r: Option<BreakpointId>)
        ensures
            r == first_some(breakpoint_match(self.breakpoints@, pc), self.breakpoints@.len()),
    {
        let ghost f = breakpoint_match(self.breakpoints@, pc);
        let mut i: usize = 0;
        while i < self.breakpoints.len()
            invariant
                i <= self.breakpoints@.len(),
                f == breakpoint_match(self.breakpoints@, pc),
                first_some(f, i as nat) is None,
            decreases self.breakpoints@.len() - i,
        {
            let bp = self.breakpoints[i];
            if bp.enabled && bp.addr == pc {
                proof {
                    assert(first_some(f, (i + 1) as nat) == Some(bp.id));
                    lemma_first_some_stays(f, (i + 1) as nat, self.breakpoints@.len());
                }
                return Some(bp.id);
            }
            assert(f(i as int) is None);
            i += 1;
        }
        None
    }

    /// Take over the kernel breakpoint table. `current` are the addresses that
    /// the core has; the plan brings it to the enabled ones.
    pub fn sync_breakpoints(&mut self, breakpoints: &Vec<Breakpoint>, current: &Vec<Addr>) -> (r:
        BreakpointPlan)
        ensures
            final(self).breakpoints@ == breakpoints@,
            final(self).pending == old(self).pending,
            final(self).memory_bound == old(self).memory_bound,
            final(self).mapped_ranges == old(self).mapped_ranges,
            final(self).io_pages == old(self).io_pages,
            r.remove@ == not_in(
                current@,
                enabled_addrs(breakpoints@, breakpoints@.len()),
                current@.len(),
            ),
            r.insert@ == not_in(
                enabled_addrs(breakpoints@, breakpoints@.len()),
                current@,
                enabled_addrs(breakpoints@, breakpoints@.len()).len(),
            ),
    {
        let mut table: Vec<Breakpoint> = Vec::new();
        let mut desired: Vec<Addr> = Vec::new();
        let mut i: usize = 0;
        while i < breakpoints.len()
            invariant
                i <= breakpoints@.len(),
                table@ == breakpoints@.take(i as int),
                desired@ == enabled_addrs(breakpoints@, i as nat),
            decreases breakpoints@.len() - i,
        {
            let bp = breakpoints[i];
            table.push(bp);
            if bp.enabled {
                desired.push(bp.addr);
            }
            i += 1;
            assert(table@ == breakpoints@.take(i as int));
        }
        assert(table@ == breakpoints@);
        self.breakpoints = table;
        BreakpointPlan { remove: difference(current, &desired), insert: difference(&desired, current) }
    }
}

/// An address is in a difference exactly when it is in the one list and not in
/// the other.
pub proof fn difference_is_exact(from: Seq<Addr>, other: Seq<Addr>, n: nat, addr: Addr)
    requires
        n <= from.len(),
    ensures
        not_in(from, other, n).contains(addr) <==> from.take(n as int).contains(addr)
            && !other.contains(addr),
    decreases n,
{
    if n == 0 {
        assert(from.take(0) == Seq::<Addr>::empty());
    } else {
        let m = (n - 1) as nat;
        difference_is_exact(from, other, m, addr);
        let before = from.take(m as int);
        let after = from.take(n as int);
        assert(after == before.push(from[n - 1]));
        assert(after.contains(addr) <==> before.contains(addr) || from[n - 1] == addr) by {
            if before.contains(addr) {
                let k = choose|k: int| 0 <= k < before.len() && before[k] == addr;
                assert(after[k] == addr);
            }
            assert(after[m as int] == from[n - 1]);
        }
        let old_diff = not_in(from, other, m);
        let new_diff = not_in(from, other, n);
        if !other.contains(from[n - 1]) {
            assert(new_diff.contains(addr) <==> old_diff.contains(addr) || from[n - 1] == addr) by {
                if old_diff.contains(addr) {
                    let k = choose|k: int| 0 <= k < old_diff.len() && old_diff[k] == addr;
                    assert(new_diff[k] == addr);
                }
                assert(new_diff[old_diff.len() as int] == from[n - 1]);
            }
        }
    }
}

/// After the plan was carried out, the core has exactly the enabled addresses:
/// what it had and kept, and what was added.
pub proof fn plan_reaches_enabled_breakpoints(desired: Seq<Addr>, current: Seq<Addr>, addr: Addr)
    ensures
        desired.contains(addr) <==> (current.contains(addr) && !not_in(
            current,
            desired,
            current.len(),
        ).contains(addr)) || not_in(desired, current, desired.len()).contains(addr),
{
    difference_is_exact(current, desired, current.len(), addr);
    difference_is_exact(desired, current, desired.len(), addr);
    assert(current.take(current.len() as int) == current);
    assert(desired.take(desired.len() as int) == desired);
}

/// Every address of a range lies in one of its pages, but for the last
/// address of the address space.
pub proof fn pages_cover_range(base: u64, length: u64, addr: u64)
    requires
        base <= addr < end_addr(base, length),
    ensures
        exists|i: int|
            0 <= i < pages_of(base, length).len() && (#[trigger] pages_of(base, length)[i]) <= addr
                && addr < pages_of(base, length)[i] + 256,
{
    let i = (addr - first_page(base)) / 256;
    assert(0 <= i < pages_of(base, length).len());
    assert(pages_of(base, length)[i] == first_page(base) + 256 * i);
}

/// Every page of a range begins at a multiple of 256 and touches the range, and
/// the pages follow each other without a gap.
pub proof fn pages_touch_range(base: u64, length: u64, i: int)
    requires
        0 <= i < pages_of(base, length).len(),
    ensures
        ({
            let pages = pages_of(base, length);
            &&& length > 0
            &&& pages[i] % 256 == 0
            &&& pages[i] < base + length
            &&& base < pages[i] + 256
            &&& i == 0 ==> pages[i] <= base
            &&& i > 0 ==> pages[i] == pages[i - 1] + 256
        }),
{
}

/// An empty range touches no page.
pub proof fn empty_range_has_no_pages(base: u64)
    ensures
        pages_of(base, 0).len() == 0,
{
}

/// Enabled breakpoints by position.
pub open spec fn enabled_at(table: Seq<Breakpoint>) -> spec_fn(int) -> bool {
    |i: int| table[i].enabled
}

/// The core is to have the addresses of the enabled breakpoints, in order, and
/// no others.
pub proof fn enabled_breakpoints_are_wanted(table: Seq<Breakpoint>, n: nat, i: nat)
    ensures
        ({
            let addrs = enabled_addrs(table, n);
            let p = enabled_at(table);
            &&& addrs.len() == count_below(p, n)
            &&& i < n && table[i as int].enabled ==> addrs[count_below(p, i) as int]
                == table[i as int].addr
        }),
    decreases n,
{
    if n > 0 {
        let m = (n - 1) as nat;
        let p = enabled_at(table);
        enabled_breakpoints_are_wanted(table, m, i);
        assert(p(m as int) == table[m as int].enabled);
        if i < m {
            assert(p(i as int) == table[i as int].enabled);
            lemma_count_below(p, i, m);
        }
    }
}

/// Regions with a buffer, by position.
pub open spec fn direct(regions: Seq<BusRegion>) -> spec_fn(int) -> bool {
    |i: int| regions[i].host is Some
}

/// The windows for direct access are the regions with a buffer, each at its
/// own base, with its own size and at its own buffer, in order, and the ranges
/// that the core maps are theirs.
pub proof fn buffers_become_windows(regions: Seq<BusRegion>, n: nat, i: nat)
    ensures
        ({
            let windows = host_regions(regions, n);
            let ranges = host_ranges(regions, n);
            let p = direct(regions);
            let k = count_below(p, i) as int;
            &&& windows.len() == count_below(p, n)
            &&& ranges.len() == count_below(p, n)
            &&& i < n ==> (regions[i as int].host matches Some(host) ==> {
                &&& windows[k].guest_base == regions[i as int].base
                &&& windows[k].size == regions[i as int].size
                &&& windows[k].host == host
                &&& ranges[k] == (regions[i as int].base, regions[i as int].size)
            })
        }),
    decreases n,
{
    if n > 0 {
        let m = (n - 1) as nat;
        let p = direct(regions);
        buffers_become_windows(regions, m, i);
        assert(p(m as int) == (regions[m as int].host is Some));
        if i < m {
            assert(p(i as int) == (regions[i as int].host is Some));
            lemma_count_below(p, i, m);
        }
    }
}

/// The pages that go to the bus are those of the regions without a buffer: each
/// of theirs, and no others.
pub proof fn io_pages_are_those_without_buffer(regions: Seq<BusRegion>, n: nat, page: u64)
    ensures
        io_pages_of(regions, n).contains(page) <==> exists|i: int|
            0 <= i < n && (#[trigger] regions[i]).host is None && pages_of(
                regions[i].base,
                regions[i].size,
            ).contains(page),
    decreases n,
{
    if n > 0 {
        let m = (n - 1) as nat;
        io_pages_are_those_without_buffer(regions, m, page);
        let before = io_pages_of(regions, m);
        let after = io_pages_of(regions, n);
        let own = pages_of(regions[m as int].base, regions[m as int].size);
        let found = exists|i: int|
            0 <= i < n && (#[trigger] regions[i]).host is None && pages_of(
                regions[i].base,
                regions[i].size,
            ).contains(page);
        if after.contains(page) {
            let k = choose|k: int| 0 <= k < after.len() && after[k] == page;
            if k < before.len() {
                assert(before[k] == page);
                let i = choose|i: int|
                    0 <= i < m && (#[trigger] regions[i]).host is None && pages_of(
                        regions[i].base,
                        regions[i].size,
                    ).contains(page);
                assert(regions[i].host is None);
            } else {
                assert(own[k - before.len()] == page);
                assert(regions[m as int].host is None);
            }
        }
        if found {
            let i = choose|i: int|
                0 <= i < n && (#[trigger] regions[i]).host is None && pages_of(
                    regions[i].base,
                    regions[i].size,
                ).contains(page);
            if i < m {
                let k = choose|k: int| 0 <= k < before.len() && before[k] == page;
                assert(after[k] == page);
            } else {
                let k = choose|k: int| 0 <= k < own.len() && own[k] == page;
                assert(after[before.len() + k] == page);
            }
        }
    }
}

/// Mapped ranges that are not empty, by position.
pub open spec fn not_empty(ranges: Seq<(u64, u64)>) -> spec_fn(int) -> bool {
    |i: int| ranges[i].1 != 0
}

/// The core unmaps each mapped range that is not empty from its first to its
/// last address, in order.
pub proof fn mapped_ranges_are_unmapped(ranges: Seq<(u64, u64)>, n: nat, i: nat)
    ensures
        ({
            let unmapped = unmap_ranges(ranges, n);
            let p = not_empty(ranges);
            let (base, size) = ranges[i as int];
            &&& unmapped.len() == count_below(p, n)
            &&& i < n && size != 0 ==> {
                &&& unmapped[count_below(p, i) as int].0 == base
                &&& base + size <= u64::MAX ==> unmapped[count_below(p, i) as int].1 == base + size
                    - 1
                &&& base + size > u64::MAX ==> unmapped[count_below(p, i) as int].1 == u64::MAX - 1
            }
        }),
    decreases n,
{
    if n > 0 {
        let m = (n - 1) as nat;
        let p = not_empty(ranges);
        mapped_ranges_are_unmapped(ranges, m, i);
        assert(p(m as int) == (ranges[m as int].1 != 0));
        if i < m {
            assert(p(i as int) == (ranges[i as int].1 != 0));
            lemma_count_below(p, i, m);
        }
    }
}

/// A debug exit is told by the first enabled breakpoint at its address; without
/// one there it is told by none.
pub proof fn breakpoint_is_found_at_its_address(table: Seq<Breakpoint>, pc: Addr)
    ensures
        match first_some(breakpoint_match(table, pc), table.len()) {
            Some(id) => exists|i: int|
                0 <= i < table.len() && (#[trigger] table[i]).enabled && table[i].addr == pc
                    && table[i].id == id && (forall|j: int|
                    0 <= j < i ==> !((#[trigger] table[j]).enabled && table[j].addr == pc)),
            None => forall|i: int|
                0 <= i < table.len() ==> !((#[trigger] table[i]).enabled && table[i].addr == pc),
        },
{
    let f = breakpoint_match(table, pc);
    lemma_first_some(f, table.len());
    match first_some(f, table.len()) {
        Some(id) => {
            let i = choose|i: int|
                0 <= i < table.len() && #[trigger] f(i) == Some(id) && (forall|j: int|
                    0 <= j < i ==> (#[trigger] f(j)) is None);
            assert forall|j: int| 0 <= j < i implies !((#[trigger] table[j]).enabled
                && table[j].addr == pc) by {
                assert(f(j) is None);
            }
            assert(table[i].enabled);
        },
        None => {
            assert forall|i: int| 0 <= i < table.len() implies !((#[trigger] table[i]).enabled
                && table[i].addr == pc) by {
                assert(f(i) is None);
            }
        },
    }
}

/// Which stop a run ends with: one that was asked for comes before a
/// breakpoint, a breakpoint is told at a debug exit alone, and otherwise the
/// exit decides.
pub proof fn asked_stop_comes_first(
    pending: Option<StopReason>,
    exit: i32,
    breakpoint: Option<BreakpointId>,
    exit_stop: Option<StopReason>,
)
    ensures
        ({
            let stop = stop_after(pending, exit, breakpoint, exit_stop);
            &&& pending is Some ==> stop == pending
            &&& pending is None && exit == 0x10002 ==> (breakpoint matches Some(id) ==> stop
                == Some(StopReason::Breakpoint { id }))
            &&& pending is None && (exit != 0x10002 || breakpoint is None) ==> stop == exit_stop
        }),
{
}

/// The windows after a sequence of mappings end with the one that was mapped
/// last, and hold every earlier one that it leaves alone.
pub proof fn last_mapping_stays(start: Seq<HostRegion>, mapped: Seq<HostRegion>, new: HostRegion)
    ensures
        after_maps(start, mapped.push(new)).last() == new,
        after_maps(start, mapped.push(new)).drop_last() == kept_apart(
            after_maps(start, mapped),
            new,
        ),
        after_maps(start, seq![]) == start,
{
    assert(mapped.push(new).drop_last() =~= mapped);
    let kept = kept_apart(after_maps(start, mapped), new);
    assert(kept.push(new).drop_last() =~= kept);
}

/// Addresses of one list that another does not hold, by position.
pub open spec fn absent_from(from: Seq<Addr>, other: Seq<Addr>) -> spec_fn(int) -> bool {
    |i: int| !other.contains(from[i])
}

/// A difference keeps the order of its list and every repetition in it.
pub proof fn difference_keeps_order(from: Seq<Addr>, other: Seq<Addr>, n: nat, i: nat)
    ensures
        ({
            let kept = not_in(from, other, n);
            let p = absent_from(from, other);
            &&& kept.len() == count_below(p, n)
            &&& i < n && !other.contains(from[i as int]) ==> kept[count_below(p, i) as int]
                == from[i as int]
        }),
    decreases n,
{
    if n > 0 {
        let m = (n - 1) as nat;
        let p = absent_from(from, other);
        difference_keeps_order(from, other, m, i);
        assert(p(m as int) == !other.contains(from[m as int]));
        if i < m {
            assert(p(i as int) == !other.contains(from[i as int]));
            lemma_count_below(p, i, m);
        }
    }
}

/// The pages of each region without a buffer stand together and in order,
/// after those of the regions before it; a region with a buffer adds none.
pub proof fn io_pages_stand_by_region(regions: Seq<BusRegion>, i: nat, n: nat)
    requires
        i < n,
    ensures
        ({
            let start = io_pages_of(regions, i).len() as int;
            let own = pages_of(regions[i as int].base, regions[i as int].size);
            let pages = io_pages_of(regions, n);
            if regions[i as int].host is None {
                &&& start + own.len() <= pages.len()
                &&& pages.subrange(start, start + own.len()) == own
                &&& io_pages_of(regions, i + 1).len() == start + own.len()
            } else {
                io_pages_of(regions, i + 1).len() == start
            }
        }),
        io_pages_of(regions, 0).len() == 0,
    decreases n,
{
    let start = io_pages_of(regions, i).len() as int;
    let own = pages_of(regions[i as int].base, regions[i as int].size);
    if i + 1 < n {
        let before = io_pages_of(regions, (n - 1) as nat);
        io_pages_stand_by_region(regions, i, (n - 1) as nat);
        if regions[i as int].host is None {
            assert(io_pages_of(regions, n).subrange(start, start + own.len()) =~= before.subrange(
                start,
                start + own.len(),
            ));
        }
    } else if regions[i as int].host is None {
        assert(io_pages_of(regions, n).subrange(start, start + own.len()) =~= own);
    }
}

} // verus!
