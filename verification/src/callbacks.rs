//! Guest memory as the core sees it: host-backed windows, and accesses to
//! other pages that go to the bus.

use vstd::prelude::*;

use crate::kernel::{Addr, BusError, StopReason};
use crate::text::{count_below, lemma_count_below};

verus! {

/// Page size of the core.
pub const TLIB_PAGE_SIZE: u64 = 256;

/// One contiguous guest physical window backed by a host buffer. `host` is the
/// address of the buffer.
#[derive(Clone, Copy, Debug, PartialEq, Eq, Structural)]
pub struct HostRegion {
    pub guest_base: u64,
    pub size: u64,
    pub host: usize,
}

impl HostRegion {
    /// End of the window, or the last address where it does not fit.
    pub open spec fn end(self) -> u64 {
        if self.guest_base + self.size > u64::MAX {
            u64::MAX
        } else {
            (self.guest_base + self.size) as u64
        }
    }

    /// Whether an address lies in the window.
    pub open spec fn covers(self, addr: u64) -> bool {
        self.guest_base <= addr < self.end()
    }

    /// The buffer lies within the host's address space.
    pub open spec fn wf(self) -> bool {
        self.host + self.size <= usize::MAX
    }
}

/// The windows lie apart: one ends before the other begins.
pub open spec fn apart(a: HostRegion, b: HostRegion) -> bool {
    a.end() <= b.guest_base || b.end() <= a.guest_base
}

/// What the memory callbacks of the core share.
#[derive(Debug)]
pub struct CallbackState {
    pub regions: Vec<HostRegion>,
    /// Whether a bus is bound for other accesses.
    pub io_bound: bool,
    /// A stop that an access has asked for.
    pub stop: Option<StopReason>,
}

/// The windows that are kept when a new one is mapped: those apart from it.
pub open spec fn kept_apart(regions: Seq<HostRegion>, new: HostRegion) -> Seq<HostRegion>
    decreases regions.len(),
{
    if regions.len() == 0 {
        seq![]
    } else {
        let before = kept_apart(regions.drop_last(), new);
        if apart(regions.last(), new) {
            before.push(regions.last())
        } else {
            before
        }
    }
}

/// The windows other than that with this base and size.
pub open spec fn without(regions: Seq<HostRegion>, guest_base: u64, size: u64) -> Seq<HostRegion>
    decreases regions.len(),
{
    if regions.len() == 0 {
        seq![]
    } else {
        let before = without(regions.drop_last(), guest_base, size);
        if regions.last().guest_base != guest_base || regions.last().size != size {
            before.push(regions.last())
        } else {
            before
        }
    }
}

impl CallbackState {
    /// Every buffer is addressable and the windows lie apart.
    pub open spec fn wf(self) -> bool {
        &&& forall|i: int| 0 <= i < self.regions@.len() ==> (#[trigger] self.regions@[i]).wf()
        &&& forall|i: int, j: int|
            0 <= i < j < self.regions@.len() ==> apart(
                #[trigger] self.regions@[i],
                #[trigger] self.regions@[j],
            )
    }

    /// Nothing mapped, no bus, no stop.
    pub fn new() -> (r: CallbackState)
        ensures
            r.wf(),
            r.regions@ == Seq::<HostRegion>::empty(),
            !r.io_bound,
            r.stop is None,
    {
        CallbackState { regions: Vec::new(), io_bound: false, stop: None }
    }

    /// Host address of a guest address, where a window covers it.
    pub fn find_host(&self, addr: u64) -> (r: Option<usize>)
        requires
            self.wf(),
        ensures
            match r {
                Some(host) => exists|i: int|
                    0 <= i < self.regions@.len() && (#[trigger] self.regions@[i]).covers(addr)
                        && host == self.regions@[i].host + (addr - self.regions@[i].guest_base),
                None => forall|i: int|
                    0 <= i < self.regions@.len() ==> !(#[trigger] self.regions@[i]).covers(addr),
            },
    {
        let mut i: usize = 0;
        while i < self.regions.len()
            invariant
                self.wf(),
                i <= self.regions@.len(),
                forall|k: int| 0 <= k < i ==> !(#[trigger] self.regions@[k]).covers(addr),
            decreases self.regions@.len() - i,
        {
            let r = self.regions[i];
            if addr >= r.guest_base && addr < r.guest_base.saturating_add(r.size) {
                assert(self.regions@[i as int].covers(addr));
                assert(self.regions@[i as int].wf());
                let off: u64 = addr - r.guest_base;
                return Some(r.host + off as usize);
            }
            assert(!self.regions@[i as int].covers(addr));
            i += 1;
        }
        None
    }
}

/// Register a host-backed guest window. Windows that it would overlap give way.
pub fn map_host_region(state: &mut CallbackState, guest_base: u64, size: u64, host: usize)
    requires
        old(state).wf(),
        host + size <= usize::MAX,
    ensures
        final(state).wf(),
        final(state).regions@ == kept_apart(
            old(state).regions@,
            HostRegion { guest_base, size, host },
        ).push(HostRegion { guest_base, size, host }),
        final(state).io_bound == old(state).io_bound,
        final(state).stop == old(state).stop,
{
    let new = HostRegion { guest_base, size, host };
    let new_end = guest_base.saturating_add(size);
    let mut kept: Vec<HostRegion> = Vec::new();
    let ghost before = state.regions@;
    let mut i: usize = 0;
    while i < state.regions.len()
        invariant
            *state == *old(state),
            state.wf(),
            before == state.regions@,
            i <= before.len(),
            new == (HostRegion { guest_base, size, host }),
            new_end == new.end(),
            kept@ == kept_apart(before.take(i as int), new),
            forall|k: int|
                0 <= k < kept@.len() ==> (#[trigger] kept@[k]).wf() && apart(kept@[k], new)
                    && exists|m: int| 0 <= m < i && #[trigger] before[m] == kept@[k],
            forall|k: int, l: int|
                0 <= k < l < kept@.len() ==> apart(#[trigger] kept@[k], #[trigger] kept@[l]),
        decreases before.len() - i,
    {
        let r = state.regions[i];
        let end = r.guest_base.saturating_add(r.size);
        let ghost old_kept = kept@;
        assert(before.take(i + 1).drop_last() == before.take(i as int));
        assert(before[i as int].wf());
        if end <= guest_base || new_end <= r.guest_base {
            kept.push(r);
            proof {
                assert forall|k: int| 0 <= k < old_kept.len() implies apart(
                    #[trigger] kept@[k],
                    r,
                ) by {
                    assert(old_kept[k] == kept@[k]);
                    let m = choose|m: int| 0 <= m < i && #[trigger] before[m] == old_kept[k];
                    assert(apart(before[m], before[i as int]));
                }
                assert forall|k: int| 0 <= k < kept@.len() implies exists|m: int|
                    0 <= m < i + 1 && #[trigger] before[m] == (#[trigger] kept@[k]) by {
                    if k < old_kept.len() {
                        assert(old_kept[k] == kept@[k]);
                        let m = choose|m: int| 0 <= m < i && #[trigger] before[m] == old_kept[k];
                        assert(before[m] == kept@[k]);
                    } else {
                        assert(before[i as int] == kept@[k]);
                    }
                }
            }
        } else {
            proof {
                assert forall|k: int| 0 <= k < kept@.len() implies exists|m: int|
                    0 <= m < i + 1 && #[trigger] before[m] == (#[trigger] kept@[k]) by {
                    let m = choose|m: int| 0 <= m < i && #[trigger] before[m] == kept@[k];
                    assert(before[m] == kept@[k]);
                }
            }
        }
        i += 1;
    }
    assert(before.take(before.len() as int) == before);
    kept.push(new);
    state.regions = kept;
}

/// Remove a previously registered window.
pub fn remove_host_region(state: &mut CallbackState, guest_base: u64, size: u64)
    requires
        old(state).wf(),
    ensures
        final(state).wf(),
        final(state).regions@ == without(old(state).regions@, guest_base, size),
        final(state).io_bound == old(state).io_bound,
        final(state).stop == old(state).stop,
{
    let mut kept: Vec<HostRegion> = Vec::new();
    let ghost before = state.regions@;
    let mut i: usize = 0;
    while i < state.regions.len()
        invariant
            *state == *old(state),
            state.wf(),
            before == state.regions@,
            i <= before.len(),
            kept@ == without(before.take(i as int), guest_base, size),
            forall|k: int|
                0 <= k < kept@.len() ==> (#[trigger] kept@[k]).wf() && exists|m: int|
                    0 <= m < i && #[trigger] before[m] == kept@[k],
            forall|k: int, l: int|
                0 <= k < l < kept@.len() ==> apart(#[trigger] kept@[k], #[trigger] kept@[l]),
        decreases before.len() - i,
    {
        let r = state.regions[i];
        let ghost old_kept = kept@;
        assert(before.take(i + 1).drop_last() == before.take(i as int));
        assert(before[i as int].wf());
        if r.guest_base != guest_base || r.size != size {
            kept.push(r);
            proof {
                assert forall|k: int| 0 <= k < old_kept.len() implies apart(
                    #[trigger] kept@[k],
                    r,
                ) by {
                    assert(old_kept[k] == kept@[k]);
                    let m = choose|m: int| 0 <= m < i && #[trigger] before[m] == old_kept[k];
                    assert(apart(before[m], before[i as int]));
                }
                assert forall|k: int| 0 <= k < kept@.len() implies exists|m: int|
                    0 <= m < i + 1 && #[trigger] before[m] == (#[trigger] kept@[k]) by {
                    if k < old_kept.len() {
                        assert(old_kept[k] == kept@[k]);
                        let m = choose|m: int| 0 <= m < i && #[trigger] before[m] == old_kept[k];
                        assert(before[m] == kept@[k]);
                    } else {
                        assert(before[i as int] == kept@[k]);
                    }
                }
            }
        } else {
            proof {
                assert forall|k: int| 0 <= k < kept@.len() implies exists|m: int|
                    0 <= m < i + 1 && #[trigger] before[m] == (#[trigger] kept@[k]) by {
                    let m = choose|m: int| 0 <= m < i && #[trigger] before[m] == kept@[k];
                    assert(before[m] == kept@[k]);
                }
            }
        }
        i += 1;
    }
    assert(before.take(before.len() as int) == before);
    state.regions = kept;
}

/// Drop all window registrations.
pub fn clear_host_regions(state: &mut CallbackState)
    ensures
        final(state).wf(),
        final(state).regions@ == Seq::<HostRegion>::empty(),
        final(state).io_bound == old(state).io_bound,
        final(state).stop == old(state).stop,
{
    state.regions = Vec::new();
}

/// Bind the bus for accesses that no window serves.
pub fn set_io_bus(state: &mut CallbackState)
    ensures
        final(state).io_bound,
        final(state).regions == old(state).regions,
        final(state).stop == old(state).stop,
{
    state.io_bound = true;
}

/// Unbind the bus.
pub fn clear_io_bus(state: &mut CallbackState)
    ensures
        !final(state).io_bound,
        final(state).regions == old(state).regions,
        final(state).stop == old(state).stop,
{
    state.io_bound = false;
}

/// Record a stop from an access. The first one stays until it is taken.
pub fn request_callback_stop(state: &mut CallbackState, reason: StopReason)
    ensures
        final(state).stop == match old(state).stop {
            Some(first) => Some(first),
            None => Some(reason),
        },
        final(state).regions == old(state).regions,
        final(state).io_bound == old(state).io_bound,
{
    if state.stop.is_none() {
        state.stop = Some(reason);
    }
}

/// Take a stop that an access has asked for, if any.
pub fn take_callback_stop(state: &mut CallbackState) -> (r: Option<StopReason>)
    ensures
        r == old(state).stop,
        final(state).stop is None,
        final(state).regions == old(state).regions,
        final(state).io_bound == old(state).io_bound,
{
    let reason = state.stop;
    state.stop = None;
    reason
}

/// The stop that a failed access amounts to. A refused store counts as a write
/// even where it was found by a load.
pub open spec fn fault_stop(write: bool, err: BusError) -> StopReason {
    match err {
        BusError::Unmapped { addr } => StopReason::Unmapped { addr, write },
        BusError::ReadOnly { addr } => StopReason::Unmapped { addr, write: true },
        BusError::OutOfRange { addr, .. } => StopReason::Unmapped { addr, write },
        BusError::NotLoadable { addr } => StopReason::Unmapped { addr, write: true },
    }
}

fn latch_bus_error(state: &mut CallbackState, write: bool, err: BusError)
    ensures
        final(state).stop == match old(state).stop {
            Some(first) => Some(first),
            None => Some(fault_stop(write, err)),
        },
        final(state).regions == old(state).regions,
        final(state).io_bound == old(state).io_bound,
{
    let reason = match err {
        BusError::Unmapped { addr } => StopReason::Unmapped { addr, write },
        BusError::ReadOnly { addr } => StopReason::Unmapped { addr, write: true },
        BusError::OutOfRange { addr, .. } => StopReason::Unmapped { addr, write },
        BusError::NotLoadable { addr } => StopReason::Unmapped { addr, write: true },
    };
    request_callback_stop(state, reason);
}

/// Widths of an access in bytes.
pub open spec fn is_width(width: u8) -> bool {
    width == 1 || width == 2 || width == 4 || width == 8
}

/// Bytes of an access of this width.
pub fn width_len(width: u8) -> (r: Result<usize, ()>)
    ensures
        match r {
            Ok(len) => is_width(width) && len == width,
            Err(_) => !is_width(width),
        },
{
    match width {
        1 => Ok(1),
        2 => Ok(2),
        4 => Ok(4),
        8 => Ok(8),
        _ => Err(()),
    }
}

/// `256` to the power of `n`.
pub open spec fn pow256(n: nat) -> nat
    decreases n,
{
    if n == 0 {
        1
    } else {
        256 * pow256((n - 1) as nat)
    }
}

/// Value of little-endian bytes.
pub open spec fn le_value(bytes: Seq<u8>) -> nat
    decreases bytes.len(),
{
    if bytes.len() == 0 {
        0
    } else {
        bytes[0] as nat + 256 * le_value(bytes.drop_first())
    }
}

/// The low `n` bytes of a value, little-endian.
pub open spec fn le_bytes(value: nat, n: nat) -> Seq<u8>
    decreases n,
{
    if n == 0 {
        seq![]
    } else {
        seq![(value % 256) as u8] + le_bytes(value / 256, (n - 1) as nat)
    }
}

/// Little-endian bytes are below the power that they span.
pub proof fn le_value_is_bounded(bytes: Seq<u8>)
    ensures
        le_value(bytes) < pow256(bytes.len()),
    decreases bytes.len(),
{
    if bytes.len() > 0 {
        le_value_is_bounded(bytes.drop_first());
    }
}

/// The bytes of a value give it back, as far as they reach.
pub proof fn le_bytes_round_trip(value: nat, n: nat)
    ensures
        le_bytes(value, n).len() == n,
        le_value(le_bytes(value, n)) == value % pow256(n),
    decreases n,
{
    if n == 0 {
    } else {
        let rest = (n - 1) as nat;
        le_bytes_round_trip(value / 256, rest);
        let bytes = le_bytes(value, n);
        assert(bytes.drop_first() == le_bytes(value / 256, rest));
        lemma_pow256_positive(rest);
        let p = pow256(rest);
        assert(value % (256 * p) == value % 256 + 256 * ((value / 256) % p)) by {
            vstd::arithmetic::div_mod::lemma_mod_breakdown(value as int, 256, p as int);
        }
    }
}

proof fn lemma_pow256_positive(n: nat)
    ensures
        pow256(n) > 0,
    decreases n,
{
    if n > 0 {
        lemma_pow256_positive((n - 1) as nat);
    }
}

proof fn lemma_pow256_fits(n: nat)
    requires
        n <= 8,
    ensures
        pow256(n) <= 0x1_0000_0000_0000_0000,
{
    reveal_with_fuel(pow256, 9);
}

fn value_of(bytes: &[u8]) -> (r: u64)
    requires
        bytes@.len() <= 8,
    ensures
        r == le_value(bytes@),
{
    let mut v: u64 = 0;
    let mut i: usize = bytes.len();
    assert(bytes@.skip(i as int) == Seq::<u8>::empty());
    while i > 0
        invariant
            i <= bytes@.len() <= 8,
            v == le_value(bytes@.skip(i as int)),
        decreases i,
    {
        i -= 1;
        proof {
            let rest = bytes@.skip(i + 1);
            let all = bytes@.skip(i as int);
            assert(all.drop_first() == rest);
            assert(all[0] == bytes@[i as int]);
            le_value_is_bounded(all);
            lemma_pow256_fits(all.len());
        }
        v = bytes[i] as u64 + 256 * v;
    }
    assert(bytes@.skip(0) == bytes@);
    v
}

fn bytes_of(value: u64, len: usize) -> (r: Vec<u8>)
    ensures
        r@ == le_bytes(value as nat, len as nat),
{
    let mut out: Vec<u8> = Vec::new();
    let mut v: u64 = value;
    let mut i: usize = 0;
    while i < len
        invariant
            i <= len,
            out@ + le_bytes(v as nat, (len - i) as nat) == le_bytes(value as nat, len as nat),
        decreases len - i,
    {
        let ghost before = out@;
        out.push((v % 256) as u8);
        proof {
            assert(out@ + le_bytes((v / 256) as nat, (len - i - 1) as nat) == before + le_bytes(
                v as nat,
                (len - i) as nat,
            ));
        }
        v = v / 256;
        i += 1;
    }
    assert(out@ == out@ + le_bytes(v as nat, 0));
    out
}

/// What an access to a page without a window asks for.
#[derive(Debug, PartialEq, Eq)]
pub enum IoRequest {
    /// Nothing to do: a load gives this value.
    Value(u64),
    /// The access fails.
    Refused,
    /// Load this many bytes from the bus.
    Load { addr: Addr, len: usize },
    /// Store these bytes to the bus.
    Store { addr: Addr, bytes: Vec<u8> },
}

/// Begin a load. Without a bus it gives zero.
pub fn io_read(state: &CallbackState, addr: u64, width: u8) -> (r: IoRequest)
    ensures
        r == if !state.io_bound {
            IoRequest::Value(0)
        } else if !is_width(width) {
            IoRequest::Refused
        } else {
            IoRequest::Load { addr, len: width as usize }
        },
{
    if !state.io_bound {
        return IoRequest::Value(0);
    }
    match width_len(width) {
        Ok(len) => IoRequest::Load { addr, len },
        Err(_) => IoRequest::Refused,
    }
}

/// Finish a load with what the bus gave: the value of the bytes, or a stop.
pub fn io_read_done(state: &mut CallbackState, loaded: Result<&[u8], BusError>) -> (r: Result<
    u64,
    (),
>)
    requires
        loaded matches Ok(bytes) ==> bytes@.len() <= 8,
    ensures
        final(state).regions == old(state).regions,
        final(state).io_bound == old(state).io_bound,
        match loaded {
            Ok(bytes) => (r matches Ok(v) && v == le_value(bytes@)) && final(state).stop
                == old(state).stop,
            Err(e) => r is Err && final(state).stop == match old(state).stop {
                Some(first) => Some(first),
                None => Some(fault_stop(false, e)),
            },
        },
{
    match loaded {
        Ok(bytes) => Ok(value_of(bytes)),
        Err(e) => {
            latch_bus_error(state, false, e);
            Err(())
        },
    }
}

/// Begin a store. Without a bus it fails.
pub fn io_write(state: &CallbackState, addr: u64, value: u64, width: u8) -> (r: IoRequest)
    ensures
        if !state.io_bound || !is_width(width) {
            r == IoRequest::Refused
        } else {
            r matches IoRequest::Store { addr: a, bytes } && a == addr && bytes@ == le_bytes(
                value as nat,
                width as nat,
            )
        },
{
    if !state.io_bound {
        return IoRequest::Refused;
    }
    match width_len(width) {
        Ok(len) => IoRequest::Store { addr, bytes: bytes_of(value, len) },
        Err(_) => IoRequest::Refused,
    }
}

/// Finish a store with what the bus said.
pub fn io_write_done(state: &mut CallbackState, stored: Result<(), BusError>) -> (r: Result<(), ()>)
    ensures
        final(state).regions == old(state).regions,
        final(state).io_bound == old(state).io_bound,
        match stored {
            Ok(_) => r is Ok && final(state).stop == old(state).stop,
            Err(e) => r is Err && final(state).stop == match old(state).stop {
                Some(first) => Some(first),
                None => Some(fault_stop(true, e)),
            },
        },
{
    match stored {
        Ok(_) => Ok(()),
        Err(e) => {
            latch_bus_error(state, true, e);
            Err(())
        },
    }
}

/// At most one window covers an address, so a host address is unambiguous.
pub proof fn host_address_is_unique(state: CallbackState, addr: u64, i: int, j: int)
    requires
        state.wf(),
        0 <= i < state.regions@.len(),
        0 <= j < state.regions@.len(),
        state.regions@[i].covers(addr),
        state.regions@[j].covers(addr),
    ensures
        i == j,
{
    if i < j {
        assert(apart(state.regions@[i], state.regions@[j]));
    } else if j < i {
        assert(apart(state.regions@[j], state.regions@[i]));
    }
}

/// A window that was mapped last serves every address in it, and the windows
/// apart from it serve theirs as before.
pub proof fn new_window_is_found(regions: Seq<HostRegion>, new: HostRegion, i: int)
    requires
        0 <= i < regions.len(),
        apart(regions[i], new),
    ensures
        kept_apart(regions, new).contains(regions[i]),
        kept_apart(regions, new).push(new).last() == new,
    decreases regions.len(),
{
    let before = kept_apart(regions.drop_last(), new);
    if i < regions.len() - 1 {
        assert(regions.drop_last()[i] == regions[i]);
        new_window_is_found(regions.drop_last(), new, i);
        let k = choose|k: int| 0 <= k < before.len() && before[k] == regions[i];
        assert(kept_apart(regions, new)[k] == regions[i]);
    } else {
        assert(kept_apart(regions, new)[before.len() as int] == regions[i]);
    }
}

/// A window covers the addresses from its base on, as many as its size, but
/// for the last address of the address space.
pub proof fn window_covers_its_size(region: HostRegion, addr: u64)
    ensures
        region.covers(addr) <==> region.guest_base <= addr && addr - region.guest_base < region.size
            && addr < u64::MAX,
{
}

/// Windows by position that lie apart from one range of addresses.
pub open spec fn clear_of(regions: Seq<HostRegion>, new: HostRegion) -> spec_fn(int) -> bool {
    |i: int|
        {
            let r = regions[i];
            let end = if r.guest_base + r.size > u64::MAX {
                u64::MAX as int
            } else {
                r.guest_base + r.size
            };
            let new_end = if new.guest_base + new.size > u64::MAX {
                u64::MAX as int
            } else {
                new.guest_base + new.size
            };
            end <= new.guest_base || new_end <= r.guest_base
        }
}

/// Mapping a window keeps every window that ends before it or begins after it,
/// in order, and no others.
pub proof fn mapping_keeps_windows_apart(regions: Seq<HostRegion>, new: HostRegion, i: nat)
    ensures
        ({
            let kept = kept_apart(regions, new);
            let p = clear_of(regions, new);
            &&& kept.len() == count_below(p, regions.len())
            &&& i < regions.len() && p(i as int) ==> kept[count_below(p, i) as int]
                == regions[i as int]
        }),
    decreases regions.len(),
{
    if regions.len() > 0 {
        let n = (regions.len() - 1) as nat;
        let front = regions.drop_last();
        let p = clear_of(regions, new);
        let q = clear_of(front, new);
        mapping_keeps_windows_apart(front, new, i);
        lemma_count_agrees(p, q, n);
        assert(p(n as int) == apart(regions.last(), new));
        if i < n {
            lemma_count_agrees(p, q, i);
            lemma_count_below(q, i, n);
            assert(p(i as int) == q(i as int));
        }
    }
}

/// Windows by position other than that with this base and size.
pub open spec fn other_than(
    regions: Seq<HostRegion>,
    guest_base: u64,
    size: u64,
) -> spec_fn(int) -> bool {
    |i: int| !(regions[i].guest_base == guest_base && regions[i].size == size)
}

/// Removing a window keeps every window with another base or another size, in
/// order, and no others.
pub proof fn removal_keeps_other_windows(
    regions: Seq<HostRegion>,
    guest_base: u64,
    size: u64,
    i: nat,
)
    ensures
        ({
            let kept = without(regions, guest_base, size);
            let p = other_than(regions, guest_base, size);
            &&& kept.len() == count_below(p, regions.len())
            &&& i < regions.len() && p(i as int) ==> kept[count_below(p, i) as int]
                == regions[i as int]
        }),
    decreases regions.len(),
{
    if regions.len() > 0 {
        let n = (regions.len() - 1) as nat;
        let front = regions.drop_last();
        let p = other_than(regions, guest_base, size);
        let q = other_than(front, guest_base, size);
        removal_keeps_other_windows(front, guest_base, size, i);
        lemma_count_agrees(p, q, n);
        assert(p(n as int) == (regions.last().guest_base != guest_base || regions.last().size
            != size));
        if i < n {
            lemma_count_agrees(p, q, i);
            lemma_count_below(q, i, n);
            assert(p(i as int) == q(i as int));
        }
    }
}

/// Properties of the windows of a list do not change with the windows after it.
proof fn lemma_count_agrees(p: spec_fn(int) -> bool, q: spec_fn(int) -> bool, n: nat)
    requires
        forall|i: int| 0 <= i < n ==> #[trigger] p(i) == q(i),
    ensures
        count_below(p, n) == count_below(q, n),
    decreases n,
{
    if n > 0 {
        lemma_count_agrees(p, q, (n - 1) as nat);
        assert(p(n - 1) == q(n - 1));
    }
}

/// A failed access stops the simulation at the address of the fault. It counts
/// as a write if it was one, or if what failed was a store that is not allowed.
pub proof fn fault_keeps_its_address(write: bool, err: BusError)
    ensures
        fault_stop(write, err) == (StopReason::Unmapped {
            addr: match err {
                BusError::Unmapped { addr } => addr,
                BusError::ReadOnly { addr } => addr,
                BusError::OutOfRange { addr, .. } => addr,
                BusError::NotLoadable { addr } => addr,
            },
            write: write || err is ReadOnly || err is NotLoadable,
        }),
{
}

/// The widths of an access are the powers of two up to eight bytes.
pub proof fn widths_are_powers_of_two(width: u8)
    ensures
        is_width(width) <==> exists|k: nat|
            k < 4 && width == #[trigger] vstd::arithmetic::power2::pow2(k),
{
    vstd::arithmetic::power2::lemma2_to64();
    if is_width(width) {
        let k: nat = if width == 1 {
            0
        } else if width == 2 {
            1
        } else if width == 4 {
            2
        } else {
            3
        };
        assert(width == vstd::arithmetic::power2::pow2(k));
    }
    if exists|k: nat| k < 4 && width == #[trigger] vstd::arithmetic::power2::pow2(k) {
        let k = choose|k: nat| k < 4 && width == #[trigger] vstd::arithmetic::power2::pow2(k);
        assert(k == 0 || k == 1 || k == 2 || k == 3);
    }
}

/// The lowest byte of a value comes first: the `i`-th byte is its `i`-th digit
/// to the base 256.
pub proof fn low_byte_comes_first(value: nat, n: nat, i: nat)
    requires
        i < n,
    ensures
        le_bytes(value, n).len() == n,
        le_bytes(value, n)[i as int] == (value / pow256(i)) % 256,
    decreases n,
{
    le_bytes_round_trip(value, n);
    if i > 0 {
        let rest = (i - 1) as nat;
        low_byte_comes_first(value / 256, (n - 1) as nat, rest);
        lemma_pow256_positive(rest);
        vstd::arithmetic::div_mod::lemma_div_denominator(value as int, 256, pow256(rest) as int);
        assert(le_bytes(value, n)[i as int] == le_bytes(value / 256, (n - 1) as nat)[rest as int]);
    } else {
        assert(value / 1 == value);
        assert(pow256(0) == 1);
    }
}

/// The first byte of what was loaded is the lowest of its value, and each
/// further byte counts 256 times as much.
pub proof fn first_byte_is_lowest(bytes: Seq<u8>, i: nat)
    requires
        i < bytes.len(),
    ensures
        (le_value(bytes) / pow256(i)) % 256 == bytes[i as int],
    decreases bytes.len(),
{
    let rest = bytes.drop_first();
    if i > 0 {
        let j = (i - 1) as nat;
        first_byte_is_lowest(rest, j);
        lemma_pow256_positive(j);
        assert(le_value(bytes) / 256 == le_value(rest));
        vstd::arithmetic::div_mod::lemma_div_denominator(
            le_value(bytes) as int,
            256,
            pow256(j) as int,
        );
    } else {
        assert(le_value(bytes) / 1 == le_value(bytes));
        assert(pow256(0) == 1);
    }
}

} // verus!
