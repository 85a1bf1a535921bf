//! ELF loader for guest images (ELF only; no bin/mot).
//!
//! Parsing uses the `object` crate (`PT_LOAD` segments). The loads that an
//! image asks for are worked out here and carried out on the bus by the caller.

use object::{Object, ObjectSegment};
use vstd::prelude::*;

use crate::kernel::{Addr, BusError};
use crate::text::join2;

verus! {

/// ELF `e_machine` value for Renesas RL78 (`EM_RL78`).
pub const EM_RL78: u16 = 197;

/// Result of a successful load.
#[derive(Clone, Copy, Debug, PartialEq, Eq, Structural)]
pub struct ElfLoad {
    pub entry: u64,
}

/// ELF load failure.
#[derive(Clone, Copy, Debug, PartialEq, Eq)]
pub enum LoadError {
    NotElf,
    Unsupported(&'static str),
    Truncated,
    Bus(BusError),
}

/// A load failure with its text as characters.
pub enum LoadErrorModel {
    NotElf,
    Unsupported(Seq<char>),
    Truncated,
    Bus(BusError),
}

impl LoadError {
    /// The failure with its text as characters.
    pub open spec fn model(self) -> LoadErrorModel {
        match self {
            LoadError::NotElf => LoadErrorModel::NotElf,
            LoadError::Unsupported(what) => LoadErrorModel::Unsupported(what@),
            LoadError::Truncated => LoadErrorModel::Truncated,
            LoadError::Bus(e) => LoadErrorModel::Bus(e),
        }
    }

    /// Text of the failure for people; `bus` tells of the bus error.
    pub fn shown_text(&self, bus: &str) -> (r: String)
        ensures
            r@ == match *self {
                LoadError::NotElf => "image is not an ELF file"@,
                LoadError::Unsupported(what) => "unsupported ELF: "@ + what@,
                LoadError::Truncated => "ELF image truncated"@,
                LoadError::Bus(_) => "bus error while loading ELF: "@ + bus@,
            },
    {
        match self {
            LoadError::NotElf => "image is not an ELF file".to_owned(),
            LoadError::Unsupported(what) => join2("unsupported ELF: ", what),
            LoadError::Truncated => "ELF image truncated".to_owned(),
            LoadError::Bus(_) => join2("bus error while loading ELF: ", bus),
        }
    }
}

/// One loadable segment of an image: where it goes, its size in memory, and
/// its bytes in the image, where the image holds all of them.
#[derive(Clone, Debug)]
pub struct SegmentView {
    pub address: u64,
    pub size: u64,
    pub data: Option<Vec<u8>>,
}

/// What a parsed image holds.
#[derive(Clone, Debug)]
pub struct ObjectView {
    pub elf32: bool,
    pub little_endian: bool,
    pub entry: u64,
    pub segments: Vec<SegmentView>,
}

/// A segment with its bytes as a sequence.
pub struct SegmentModel {
    pub address: u64,
    pub size: u64,
    pub data: Option<Seq<u8>>,
}

/// A parsed image with its segments as a sequence.
pub struct ObjectModel {
    pub elf32: bool,
    pub little_endian: bool,
    pub entry: u64,
    pub segments: Seq<SegmentModel>,
}

impl SegmentView {
    /// The segment with its bytes as a sequence.
    pub open spec fn model(self) -> SegmentModel {
        SegmentModel {
            address: self.address,
            size: self.size,
            data: match self.data {
                Some(data) => Some(data@),
                None => None,
            },
        }
    }

    /// Address, memory size and file size are 32-bit values.
    pub open spec fn fits_u32(self) -> bool {
        &&& self.address <= u32::MAX
        &&& self.size <= u32::MAX
        &&& self.data matches Some(data) ==> data@.len() <= u32::MAX
    }
}

impl ObjectView {
    /// The image with its segments as a sequence.
    pub open spec fn model(self) -> ObjectModel {
        ObjectModel {
            elf32: self.elf32,
            little_endian: self.little_endian,
            entry: self.entry,
            segments: segment_models(self.segments@),
        }
    }

    /// A 32-bit image has 32-bit segments.
    pub open spec fn wf(self) -> bool {
        self.elf32 ==> forall|i: int|
            0 <= i < self.segments@.len() ==> (#[trigger] self.segments@[i]).fits_u32()
    }
}

/// The segments with their bytes as sequences.
pub open spec fn segment_models(segments: Seq<SegmentView>) -> Seq<SegmentModel> {
    segments.map_values(|s: SegmentView| s.model())
}

/// The model of an optional image.
pub open spec fn object_model(view: Option<ObjectView>) -> Option<ObjectModel> {
    match view {
        Some(view) => Some(view.model()),
        None => None,
    }
}

/// What `object::File::parse` makes of these bytes.
pub uninterp spec fn parsed_object(image: Seq<u8>) -> Option<ObjectModel>;

/// `object::File::parse`, with what the parsed file says of itself: whether it
/// is the 32-bit ELF variant, its byte order, its entry point, and for each
/// loadable segment its address, its size in memory and its bytes, which are
/// missing where they do not lie in the image. All of it is a function of the
/// bytes alone. In a 32-bit ELF file the addresses and sizes are 32-bit fields.
#[verifier::external_body]
fn parse_object(image: &[u8]) -> (r: Option<ObjectView>)
    ensures
        object_model(r) == parsed_object(image@),
        r matches Some(view) ==> view.wf(),
{
    let file = object::File::parse(image).ok()?;
    let segments = file.segments().map(|s| SegmentView {
        address: s.address(),
        size: s.size(),
        data: s.data().ok().map(|d| d.to_vec()),
    }).collect();
    Some(ObjectView {
        elf32: matches!(file, object::File::Elf32(_)),
        little_endian: file.endianness() == object::Endianness::Little,
        entry: file.entry(),
        segments,
    })
}

/// One load onto the bus.
#[derive(Clone, Debug, PartialEq, Eq)]
pub enum Load {
    /// These bytes at this address.
    Data { addr: Addr, bytes: Vec<u8> },
    /// This many zeros at this address.
    Zero { addr: Addr, len: usize },
}

/// A load with its bytes as a sequence.
pub enum LoadModel {
    Data { addr: Addr, bytes: Seq<u8> },
    Zero { addr: Addr, len: nat },
}

impl Load {
    /// The load with its bytes as a sequence.
    pub open spec fn model(self) -> LoadModel {
        match self {
            Load::Data { addr, bytes } => LoadModel::Data { addr, bytes: bytes@ },
            Load::Zero { addr, len } => LoadModel::Zero { addr, len: len as nat },
        }
    }
}

/// The loads with their bytes as sequences.
pub open spec fn load_models(loads: Seq<Load>) -> Seq<LoadModel> {
    loads.map_values(|l: Load| l.model())
}

/// Loads to carry out in order, and what comes of it if the bus takes them all.
#[derive(Debug)]
pub struct ElfPlan {
    pub loads: Vec<Load>,
    pub outcome: Result<ElfLoad, LoadError>,
}

impl ElfPlan {
    /// What comes of the load. `fault` is the bus error at the first load that
    /// the bus refused, after which none was carried out.
    pub fn finish(&self, fault: Option<BusError>) -> (r: Result<ElfLoad, LoadError>)
        ensures
            r == match fault {
                Some(e) => Err(LoadError::Bus(e)),
                None => self.outcome,
            },
    {
        match fault {
            Some(e) => Err(LoadError::Bus(e)),
            None => match &self.outcome {
                Ok(load) => Ok(*load),
                Err(e) => Err(*e),
            },
        }
    }
}

/// Loads of a segment: its bytes, then zeros up to its size in memory.
pub open spec fn segment_loads(address: u64, size: u64, data: Seq<u8>) -> Seq<LoadModel> {
    let bytes = if data.len() > 0 {
        seq![LoadModel::Data { addr: address, bytes: data }]
    } else {
        seq![]
    };
    let zeros = if size > data.len() {
        seq![
            LoadModel::Zero {
                addr: (address + data.len()) as u64,
                len: (size - data.len()) as nat,
            },
        ]
    } else {
        seq![]
    };
    bytes + zeros
}

/// Whether one of the first `n` segments has bytes that are missing.
pub open spec fn truncated(segments: Seq<SegmentModel>, n: nat) -> bool {
    exists|i: int| 0 <= i < n && (#[trigger] segments[i]).data is None
}

/// Loads of the first `n` segments, up to the first whose bytes are missing.
pub open spec fn loads_of(segments: Seq<SegmentModel>, n: nat) -> Seq<LoadModel>
    decreases n,
{
    if n == 0 {
        seq![]
    } else {
        let before = loads_of(segments, (n - 1) as nat);
        let s = segments[n - 1];
        if truncated(segments, n) {
            before
        } else {
            before + segment_loads(s.address, s.size, s.data->0)
        }
    }
}

/// Whether an image begins with the ELF magic.
pub open spec fn has_magic(image: Seq<u8>) -> bool {
    image.len() >= 4 && image[0] == 0x7f && image[1] == 0x45 && image[2] == 0x4c && image[3] == 0x46
}

/// What loading a parsed image comes to.
pub open spec fn outcome_of(image: Seq<u8>, parsed: Option<ObjectModel>) -> Result<
    ElfLoad,
    LoadErrorModel,
> {
    match parsed {
        None => if has_magic(image) {
            Err(LoadErrorModel::Truncated)
        } else {
            Err(LoadErrorModel::NotElf)
        },
        Some(file) => if !file.elf32 {
            Err(LoadErrorModel::Unsupported("only ELF32 is supported"@))
        } else if !file.little_endian {
            Err(LoadErrorModel::Unsupported("ELF must be little-endian"@))
        } else if truncated(file.segments, file.segments.len()) {
            Err(LoadErrorModel::Truncated)
        } else if loads_of(file.segments, file.segments.len()).len() == 0 {
            Err(LoadErrorModel::Unsupported("ELF has no PT_LOAD segments"@))
        } else {
            Ok(ElfLoad { entry: file.entry })
        },
    }
}

/// Loads that a parsed image asks for.
pub open spec fn planned_loads(parsed: Option<ObjectModel>) -> Seq<LoadModel> {
    match parsed {
        Some(file) => if file.elf32 && file.little_endian {
            loads_of(file.segments, file.segments.len())
        } else {
            seq![]
        },
        None => seq![],
    }
}

/// A plan that says exactly this.
pub open spec fn plans(
    plan: ElfPlan,
    loads: Seq<LoadModel>,
    outcome: Result<ElfLoad, LoadErrorModel>,
) -> bool {
    &&& load_models(plan.loads@) == loads
    &&& match plan.outcome {
        Ok(load) => outcome matches Ok(l) && l == load,
        Err(e) => outcome matches Err(f) && f == e.model(),
    }
}

fn refuse(error: LoadError) -> (r: ElfPlan)
    ensures
        plans(r, seq![], Err(error.model())),
{
    let r = ElfPlan { loads: Vec::new(), outcome: Err(error) };
    assert(load_models(r.loads@) == Seq::<LoadModel>::empty());
    r
}

fn push_loads(loads: &mut Vec<Load>, address: u64, size: u64, data: &Vec<u8>)
    requires
        address <= u32::MAX,
        size <= u32::MAX,
        data@.len() <= u32::MAX,
    ensures
        load_models(final(loads)@) == load_models(old(loads)@) + segment_loads(
            address,
            size,
            data@,
        ),
{
    let ghost before = load_models(loads@);
    if !data.is_empty() {
        let mut bytes: Vec<u8> = Vec::new();
        let mut i: usize = 0;
        while i < data.len()
            invariant
                i <= data@.len(),
                bytes@ == data@.take(i as int),
            decreases data@.len() - i,
        {
            bytes.push(data[i]);
            i += 1;
            assert(bytes@ == data@.take(i as int));
        }
        assert(bytes@ == data@);
        loads.push(Load::Data { addr: address, bytes });
        assert(load_models(loads@) == before.push(
            LoadModel::Data { addr: address, bytes: data@ },
        ));
    }
    let ghost middle = load_models(loads@);
    if size as usize > data.len() {
        let addr: u64 = address + data.len() as u64;
        let len: usize = size as usize - data.len();
        loads.push(Load::Zero { addr, len });
        assert(load_models(loads@) == middle.push(LoadModel::Zero { addr, len: len as nat }));
    }
    assert(load_models(loads@) == before + segment_loads(address, size, data@));
}

/// Work out the loads that a parsed image asks for.
pub fn plan_load(image: &[u8], parsed: &Option<ObjectView>) -> (r: ElfPlan)
    requires
        parsed matches Some(view) ==> view.wf(),
    ensures
        plans(
            r,
            planned_loads(object_model(*parsed)),
            outcome_of(image@, object_model(*parsed)),
        ),
{
    let file = match parsed {
        Some(file) => file,
        None => {
            if image.len() < 4 || image[0] != 0x7f || image[1] != 0x45 || image[2] != 0x4c
                || image[3] != 0x46 {
                return refuse(LoadError::NotElf);
            }
            return refuse(LoadError::Truncated);
        },
    };
    if !file.elf32 {
        return refuse(LoadError::Unsupported("only ELF32 is supported"));
    }
    if !file.little_endian {
        return refuse(LoadError::Unsupported("ELF must be little-endian"));
    }
    let ghost segments = segment_models(file.segments@);
    let mut loads: Vec<Load> = Vec::new();
    let mut i: usize = 0;
    assert(load_models(loads@) == loads_of(segments, 0));
    while i < file.segments.len()
        invariant
            i <= file.segments@.len(),
            *parsed == Some(*file),
            file.elf32,
            file.little_endian,
            file.wf(),
            segments == segment_models(file.segments@),
            !truncated(segments, i as nat),
            load_models(loads@) == loads_of(segments, i as nat),
        decreases file.segments@.len() - i,
    {
        let s = &file.segments[i];
        assert(segments[i as int] == file.segments@[i as int].model());
        assert(file.segments@[i as int].fits_u32());
        match &s.data {
            None => {
                proof {
                    assert(segments[i as int].data is None);
                    assert(truncated(segments, segments.len()));
                    lemma_loads_stop(segments, i as nat, segments.len());
                }
                return ElfPlan { loads, outcome: Err(LoadError::Truncated) };
            },
            Some(data) => {
                push_loads(&mut loads, s.address, s.size, data);
            },
        }
        assert(!truncated(segments, (i + 1) as nat)) by {
            if truncated(segments, (i + 1) as nat) {
                let k = choose|k: int| 0 <= k < i + 1 && (#[trigger] segments[k]).data is None;
                assert(k < i);
            }
        }
        i += 1;
    }
    if loads.is_empty() {
        assert(load_models(loads@).len() == 0);
        return ElfPlan {
            loads,
            outcome: Err(LoadError::Unsupported("ELF has no PT_LOAD segments")),
        };
    }
    assert(load_models(loads@).len() > 0);
    ElfPlan { loads, outcome: Ok(ElfLoad { entry: file.entry }) }
}

/// Past a segment whose bytes are missing nothing is loaded.
proof fn lemma_loads_stop(segments: Seq<SegmentModel>, i: nat, n: nat)
    requires
        i < n <= segments.len(),
        segments[i as int].data is None,
    ensures
        loads_of(segments, n) == loads_of(segments, i),
    decreases n,
{
    assert(truncated(segments, n));
    if n > i + 1 {
        lemma_loads_stop(segments, i, (n - 1) as nat);
    }
}

/// Work out the loads that a guest ELF asks for (PT_LOAD segments only).
pub fn load_elf(image: &[u8]) -> (r: ElfPlan)
    ensures
        plans(r, planned_loads(parsed_object(image@)), outcome_of(image@, parsed_object(image@))),
{
    let parsed = parse_object(image);
    plan_load(image, &parsed)
}

/// Bytes that a segment puts into memory.
pub open spec fn memory_of(loads: Seq<LoadModel>, addr: int) -> Option<u8>
    decreases loads.len(),
{
    if loads.len() == 0 {
        None
    } else {
        match loads.last() {
            LoadModel::Data { addr: at, bytes } => if at <= addr < at + bytes.len() {
                Some(bytes[addr - at])
            } else {
                memory_of(loads.drop_last(), addr)
            },
            LoadModel::Zero { addr: at, len } => if at <= addr < at + len {
                Some(0)
            } else {
                memory_of(loads.drop_last(), addr)
            },
        }
    }
}

/// The loads of a segment put its bytes at its address, zeros after them up to
/// its size, and nothing elsewhere.
pub proof fn segment_fills_memory(address: u64, size: u64, data: Seq<u8>, addr: int)
    requires
        address <= u32::MAX,
        data.len() <= u32::MAX,
    ensures
        memory_of(segment_loads(address, size, data), addr) == if address <= addr < address
            + data.len() {
            Some(data[addr - address])
        } else if address + data.len() <= addr < address + size {
            Some(0)
        } else {
            None
        },
{
    let loads = segment_loads(address, size, data);
    reveal_with_fuel(memory_of, 3);
    if loads.len() == 2 {
        assert(loads.drop_last() == seq![LoadModel::Data { addr: address, bytes: data }]);
        assert(loads.drop_last().drop_last() == Seq::<LoadModel>::empty());
    } else if loads.len() == 1 {
        assert(loads.drop_last() == Seq::<LoadModel>::empty());
    }
}

/// Later loads go over earlier ones.
proof fn lemma_memory_appends(first: Seq<LoadModel>, then_loaded: Seq<LoadModel>, addr: int)
    ensures
        memory_of(first + then_loaded, addr) == if memory_of(then_loaded, addr) is Some {
            memory_of(then_loaded, addr)
        } else {
            memory_of(first, addr)
        },
    decreases then_loaded.len(),
{
    let all = first + then_loaded;
    if then_loaded.len() == 0 {
        assert(all =~= first);
    } else {
        lemma_memory_appends(first, then_loaded.drop_last(), addr);
        assert(all.drop_last() =~= first + then_loaded.drop_last());
        assert(all.last() == then_loaded.last());
    }
}

/// A segment reaches an address in memory.
pub open spec fn reaches(segment: SegmentModel, addr: int) -> bool {
    &&& segment.address <= addr
    &&& addr < segment.address + segment.size || (segment.data matches Some(data) && addr
        < segment.address + data.len())
}

/// Where every segment has its bytes, memory holds at each address what the
/// last segment that reaches it puts there: its bytes first, and zeros after
/// them up to its size. Addresses that no segment reaches are left alone.
pub proof fn image_fills_memory(segments: Seq<SegmentModel>, n: nat, i: int, addr: int)
    requires
        n <= segments.len(),
        forall|k: int|
            0 <= k < n ==> (#[trigger] segments[k]).data is Some && segments[k].address <= u32::MAX
                && segments[k].data->0.len() <= u32::MAX,
        forall|k: int| i < k < n && 0 <= k ==> !reaches(#[trigger] segments[k], addr),
        i == -1 || 0 <= i < n && reaches(segments[i], addr),
    ensures
        memory_of(loads_of(segments, n), addr) == if i == -1 {
            None
        } else if addr < segments[i].address + segments[i].data->0.len() {
            Some(segments[i].data->0[addr - segments[i].address])
        } else {
            Some(0)
        },
    decreases n,
{
    if n > 0 {
        let m = (n - 1) as nat;
        let s = segments[m as int];
        let before = loads_of(segments, m);
        let own = segment_loads(s.address, s.size, s.data->0);
        assert(!truncated(segments, n));
        lemma_memory_appends(before, own, addr);
        segment_fills_memory(s.address, s.size, s.data->0, addr);
        if i < m {
            assert(!reaches(s, addr));
            image_fills_memory(segments, m, i, addr);
        }
    }
}

/// Segments without bytes and without size ask for no loads.
proof fn lemma_loads_present(segments: Seq<SegmentModel>, n: nat)
    requires
        n <= segments.len(),
        !truncated(segments, n),
    ensures
        loads_of(segments, n).len() > 0 <==> exists|i: int|
            0 <= i < n && ((#[trigger] segments[i]).size > 0 || segments[i].data->0.len() > 0),
    decreases n,
{
    if n > 0 {
        let m = (n - 1) as nat;
        assert(!truncated(segments, m)) by {
            if truncated(segments, m) {
                let k = choose|k: int| 0 <= k < m && (#[trigger] segments[k]).data is None;
                assert(segments[k].data is None);
            }
        }
        lemma_loads_present(segments, m);
        let s = segments[m as int];
        assert(s.data is Some);
        if exists|i: int|
            0 <= i < n && ((#[trigger] segments[i]).size > 0 || segments[i].data->0.len() > 0) {
            let i = choose|i: int|
                0 <= i < n && ((#[trigger] segments[i]).size > 0 || segments[i].data->0.len() > 0);
            if i < m {
                assert(segments[i].size > 0 || segments[i].data->0.len() > 0);
            }
        }
        if s.size > 0 || s.data->0.len() > 0 {
            assert(segment_loads(s.address, s.size, s.data->0).len() > 0);
        }
    }
}

/// An image is loaded exactly when it is a 32-bit little-endian ELF file that
/// holds the bytes of all its segments, one of which is not empty; its entry
/// point is handed on. What could not be parsed is truncated where it begins
/// with the ELF magic, and no ELF file otherwise.
pub proof fn complete_image_is_loaded(image: Seq<u8>, parsed: Option<ObjectModel>)
    ensures
        match outcome_of(image, parsed) {
            Ok(load) => parsed matches Some(file) && load.entry == file.entry,
            Err(LoadErrorModel::NotElf) => parsed is None && !(image.len() >= 4 && image.take(4)
                == seq![0x7fu8, 0x45, 0x4c, 0x46]),
            Err(LoadErrorModel::Truncated) => match parsed {
                None => image.len() >= 4 && image.take(4) == seq![0x7fu8, 0x45, 0x4c, 0x46],
                Some(file) => file.elf32 && file.little_endian && exists|i: int|
                    0 <= i < file.segments.len() && (#[trigger] file.segments[i]).data is None,
            },
            Err(LoadErrorModel::Unsupported(_)) => parsed is Some,
            Err(LoadErrorModel::Bus(_)) => false,
        },
        outcome_of(image, parsed) is Ok <==> (parsed matches Some(file) && {
            &&& file.elf32
            &&& file.little_endian
            &&& forall|i: int|
                0 <= i < file.segments.len() ==> (#[trigger] file.segments[i]).data is Some
            &&& exists|i: int|
                0 <= i < file.segments.len() && ((#[trigger] file.segments[i]).size > 0
                    || file.segments[i].data->0.len() > 0)
        }),
        parsed matches Some(file) ==> !file.elf32 || !file.little_endian ==> planned_loads(
            parsed,
        ).len() == 0,
        parsed is None ==> planned_loads(parsed).len() == 0,
{
    if image.len() >= 4 {
        let magic = seq![0x7fu8, 0x45, 0x4c, 0x46];
        if has_magic(image) {
            assert(image.take(4) =~= magic);
        }
        if image.take(4) == magic {
            assert(image.take(4)[0] == image[0] && image.take(4)[1] == image[1] && image.take(4)[2]
                == image[2] && image.take(4)[3] == image[3]);
        }
    }
    if let Some(file) = parsed {
        let n = file.segments.len();
        if !truncated(file.segments, n) {
            lemma_loads_present(file.segments, n);
            assert forall|i: int| 0 <= i < n implies (#[trigger] file.segments[i]).data is Some by {
                if file.segments[i].data is None {
                    assert(truncated(file.segments, n));
                }
            }
        }
    }
}

/// Of an image with a segment whose bytes are missing, the segments before the
/// first such one are loaded and nothing else.
pub proof fn nothing_loads_past_missing_bytes(segments: Seq<SegmentModel>, i: nat)
    requires
        i < segments.len(),
        segments[i as int].data is None,
    ensures
        loads_of(segments, segments.len()) == loads_of(segments, i),
{
    lemma_loads_stop(segments, i, segments.len());
}

/// A plan holds the loads that were worked out, in order, and their outcome.
pub proof fn plan_holds_its_loads(
    plan: ElfPlan,
    loads: Seq<LoadModel>,
    outcome: Result<ElfLoad, LoadErrorModel>,
    i: int,
)
    requires
        plans(plan, loads, outcome),
    ensures
        plan.loads@.len() == loads.len(),
        0 <= i < loads.len() ==> match plan.loads@[i] {
            Load::Data { addr, bytes } => loads[i] == (LoadModel::Data { addr, bytes: bytes@ }),
            Load::Zero { addr, len } => loads[i] == (LoadModel::Zero { addr, len: len as nat }),
        },
        plan.outcome is Ok <==> outcome is Ok,
        plan.outcome matches Ok(load) ==> outcome matches Ok(l) && l.entry == load.entry,
        plan.outcome matches Err(LoadError::Truncated) ==> outcome matches Err(
            LoadErrorModel::Truncated,
        ),
        plan.outcome matches Err(LoadError::NotElf) ==> outcome matches Err(LoadErrorModel::NotElf),
{
    if 0 <= i < loads.len() {
        assert(load_models(plan.loads@)[i] == plan.loads@[i].model());
    }
}

/// Segments of a parsed image are taken over as they are.
pub proof fn segments_keep_their_bytes(segments: Seq<SegmentView>, i: int)
    requires
        0 <= i < segments.len(),
    ensures
        segment_models(segments).len() == segments.len(),
        segment_models(segments)[i].address == segments[i].address,
        segment_models(segments)[i].size == segments[i].size,
        segments[i].data matches Some(data) ==> segment_models(segments)[i].data == Some(data@),
        segments[i].data is None ==> segment_models(segments)[i].data is None,
{
}

/// A segment asks for one load of its bytes, where it has any, and for one of
/// zeros, where its size goes beyond them.
pub proof fn segment_asks_for_few_loads(address: u64, size: u64, data: Seq<u8>)
    ensures
        ({
            let loads = segment_loads(address, size, data);
            let bytes: nat = if data.len() > 0 {
                1
            } else {
                0
            };
            let zeros: nat = if size > data.len() {
                1
            } else {
                0
            };
            &&& loads.len() == bytes + zeros
            &&& data.len() > 0 ==> loads[0] is Data
            &&& size > data.len() ==> loads.last() is Zero
        }),
{
}

} // verus!
