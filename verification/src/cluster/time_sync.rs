//! Arbiter-side virtual-time ceiling: `allowed = min(reports) + margin`.

use vstd::prelude::*;

use crate::text::{among, same_text};

verus! {

/// Last virtual time that one board reported.
#[derive(Clone, Debug)]
pub struct BoardReport {
    pub board_id: String,
    pub virtual_time_ns: u64,
}

/// Tracks last reported virtual times and computes the shared ceiling.
#[derive(Clone, Debug)]
pub struct TimeCeiling {
    pub margin_ns: u64,
    /// One entry per board, in the order in which the boards were named.
    pub reports: Vec<BoardReport>,
}

/// `v` is the least of the reported times, or zero where there is no report.
pub open spec fn is_least_report(reports: Seq<BoardReport>, v: u64) -> bool {
    if reports.len() == 0 {
        v == 0
    } else {
        &&& exists|i: int| 0 <= i < reports.len() && (#[trigger] reports[i]).virtual_time_ns == v
        &&& forall|i: int| 0 <= i < reports.len() ==> v <= (#[trigger] reports[i]).virtual_time_ns
    }
}

/// `a + b`, or the largest value where that does not fit.
pub open spec fn saturating_sum(a: u64, b: u64) -> u64 {
    if a + b > u64::MAX {
        u64::MAX
    } else {
        (a + b) as u64
    }
}

/// Whether some entry is for this board.
pub open spec fn has_report(reports: Seq<BoardReport>, board_id: Seq<char>) -> bool {
    exists|i: int| 0 <= i < reports.len() && (#[trigger] reports[i]).board_id@ == board_id
}

/// The reports after this board has reported this time; those of other boards stay.
pub open spec fn after_report(
    reports: Seq<BoardReport>,
    board_id: Seq<char>,
    virtual_time_ns: u64,
) -> Seq<BoardReport> {
    Seq::new(
        reports.len(),
        |i: int|
            if reports[i].board_id@ == board_id {
                BoardReport { board_id: reports[i].board_id, virtual_time_ns }
            } else {
                reports[i]
            },
    )
}

/// `allowed` is the least report plus the margin.
pub open spec fn is_ceiling(reports: Seq<BoardReport>, margin_ns: u64, allowed: u64) -> bool {
    exists|v: u64| #[trigger]
        is_least_report(reports, v) && allowed == saturating_sum(v, margin_ns)
}

impl TimeCeiling {
    /// No board has two entries.
    pub open spec fn wf(self) -> bool {
        forall|i: int, j: int|
            0 <= i < j < self.reports@.len() ==> (#[trigger] self.reports@[i]).board_id@ != (
            #[trigger] self.reports@[j]).board_id@
    }

    /// A ceiling over these boards, none of which has advanced yet. A board
    /// that is named twice counts once.
    pub fn new(board_ids: Vec<String>, margin_ns: u64) -> (r: TimeCeiling)
        ensures
            r.wf(),
            r.margin_ns == margin_ns,
            forall|i: int|
                0 <= i < r.reports@.len() ==> (#[trigger] r.reports@[i]).virtual_time_ns == 0,
            forall|i: int|
                0 <= i < r.reports@.len() ==> among(
                    board_ids@,
                    (#[trigger] r.reports@[i]).board_id@,
                ),
            forall|k: int|
                0 <= k < board_ids@.len() ==> has_report(r.reports@, (#[trigger] board_ids@[k])@),
    {
        let mut ceiling = TimeCeiling { margin_ns, reports: Vec::new() };
        let mut k: usize = 0;
        while k < board_ids.len()
            invariant
                k <= board_ids@.len(),
                ceiling.wf(),
                ceiling.margin_ns == margin_ns,
                forall|i: int|
                    0 <= i < ceiling.reports@.len() ==> (
                    #[trigger] ceiling.reports@[i]).virtual_time_ns == 0,
                forall|i: int|
                    0 <= i < ceiling.reports@.len() ==> among(
                        board_ids@,
                        (#[trigger] ceiling.reports@[i]).board_id@,
                    ),
                forall|l: int|
                    0 <= l < k ==> has_report(ceiling.reports@, (#[trigger] board_ids@[l])@),
            decreases board_ids@.len() - k,
        {
            let found = ceiling.find(board_ids[k].as_str());
            let ghost before = ceiling.reports@;
            if found.is_none() {
                ceiling.reports.push(
                    BoardReport { board_id: board_ids[k].clone(), virtual_time_ns: 0 },
                );
                proof {
                    assert(ceiling.reports@[before.len() as int].board_id@ == board_ids@[k as int]@);
                    assert forall|l: int| 0 <= l < k implies has_report(
                        ceiling.reports@,
                        (#[trigger] board_ids@[l])@,
                    ) by {
                        let i = choose|i: int|
                            0 <= i < before.len() && (#[trigger] before[i]).board_id@
                                == board_ids@[l]@;
                        assert(ceiling.reports@[i].board_id@ == board_ids@[l]@);
                    }
                }
            }
            k += 1;
        }
        ceiling
    }

    fn find(&self, board_id: &str) -> (r: Option<usize>)
        ensures
            match r {
                Some(i) => i < self.reports@.len() && self.reports@[i as int].board_id@ == board_id@,
                None => !has_report(self.reports@, board_id@),
            },
    {
        let mut i: usize = 0;
        while i < self.reports.len()
            invariant
                i <= self.reports@.len(),
                forall|j: int|
                    0 <= j < i ==> (#[trigger] self.reports@[j]).board_id@ != board_id@,
            decreases self.reports@.len() - i,
        {
            if same_text(self.reports[i].board_id.as_str(), board_id) {
                return Some(i);
            }
            i += 1;
        }
        None
    }

    /// Update one board's last reported virtual time (kept even while
    /// stopped). A board without an entry is ignored.
    pub fn report(&mut self, board_id: &str, virtual_time_ns: u64)
        requires
            old(self).wf(),
        ensures
            final(self).wf(),
            final(self).margin_ns == old(self).margin_ns,
            final(self).reports@ == after_report(old(self).reports@, board_id@, virtual_time_ns),
    {
        if let Some(i) = self.find(board_id) {
            let id = self.reports[i].board_id.clone();
            self.reports[i] = BoardReport { board_id: id, virtual_time_ns };
        }
        assert(self.reports@ == after_report(old(self).reports@, board_id@, virtual_time_ns));
    }

    /// `allowed = min(reports) + margin`.
    pub fn allowed_ns(&self) -> (r: u64)
        ensures
            is_ceiling(self.reports@, self.margin_ns, r),
    {
        if self.reports.is_empty() {
            assert(is_least_report(self.reports@, 0));
            return self.margin_ns;
        }
        let mut least = self.reports[0].virtual_time_ns;
        let mut i: usize = 1;
        assert(self.reports@[0].virtual_time_ns == least);
        while i < self.reports.len()
            invariant
                1 <= i <= self.reports@.len(),
                exists|j: int|
                    0 <= j < i && (#[trigger] self.reports@[j]).virtual_time_ns == least,
                forall|j: int|
                    0 <= j < i ==> least <= (#[trigger] self.reports@[j]).virtual_time_ns,
            decreases self.reports@.len() - i,
        {
            if self.reports[i].virtual_time_ns < least {
                least = self.reports[i].virtual_time_ns;
                assert(self.reports@[i as int].virtual_time_ns == least);
            }
            i += 1;
        }
        assert(is_least_report(self.reports@, least));
        least.saturating_add(self.margin_ns)
    }

    /// The skew margin.
    pub fn margin_ns(&self) -> (r: u64)
        ensures
            r == self.margin_ns,
    {
        self.margin_ns
    }
}

/// There is exactly one least report, so the ceiling is a function of the reports.
pub proof fn least_report_is_unique(reports: Seq<BoardReport>, v: u64, w: u64)
    requires
        is_least_report(reports, v),
        is_least_report(reports, w),
    ensures
        v == w,
{
}

/// No board may get further ahead of any other than the margin: the ceiling
/// is at most the margin above each report.
pub proof fn ceiling_bounds_skew(reports: Seq<BoardReport>, v: u64, margin_ns: u64, i: int)
    requires
        is_least_report(reports, v),
        0 <= i < reports.len(),
    ensures
        saturating_sum(v, margin_ns) <= reports[i].virtual_time_ns + margin_ns,
{
}

/// Virtual times that move forward never lower the ceiling.
pub proof fn ceiling_is_monotonic(
    before: Seq<BoardReport>,
    after: Seq<BoardReport>,
    v: u64,
    w: u64,
    margin_ns: u64,
)
    requires
        before.len() == after.len(),
        forall|i: int|
            0 <= i < before.len() ==> (#[trigger] before[i]).virtual_time_ns <= (
            #[trigger] after[i]).virtual_time_ns,
        is_least_report(before, v),
        is_least_report(after, w),
    ensures
        saturating_sum(v, margin_ns) <= saturating_sum(w, margin_ns),
{
    if before.len() > 0 {
        let j = choose|j: int| 0 <= j < after.len() && (#[trigger] after[j]).virtual_time_ns == w;
        assert(before[j].virtual_time_ns <= after[j].virtual_time_ns);
    }
}

/// A board whose report is the least pins the ceiling: later reports of other
/// boards above it change nothing.
pub proof fn slowest_board_pins_ceiling(
    before: Seq<BoardReport>,
    after: Seq<BoardReport>,
    v: u64,
    slow: int,
)
    requires
        before.len() == after.len(),
        is_least_report(before, v),
        0 <= slow < before.len(),
        before[slow].virtual_time_ns == v,
        after[slow].virtual_time_ns == v,
        forall|i: int|
            0 <= i < after.len() ==> v <= (#[trigger] after[i]).virtual_time_ns,
    ensures
        is_least_report(after, v),
{
}

/// The ceiling is no further above any report than the margin, and exactly the
/// margin above one of them, unless the largest time is reached first. Without
/// reports it is the margin.
pub proof fn ceiling_is_margin_above_slowest(
    reports: Seq<BoardReport>,
    margin_ns: u64,
    allowed: u64,
)
    requires
        is_ceiling(reports, margin_ns, allowed),
    ensures
        reports.len() == 0 ==> allowed == margin_ns,
        forall|i: int|
            0 <= i < reports.len() ==> allowed <= (#[trigger] reports[i]).virtual_time_ns
                + margin_ns,
        reports.len() > 0 && allowed < u64::MAX ==> exists|i: int|
            0 <= i < reports.len() && allowed == (#[trigger] reports[i]).virtual_time_ns
                + margin_ns,
        allowed == u64::MAX ==> forall|i: int|
            0 <= i < reports.len() ==> (#[trigger] reports[i]).virtual_time_ns + margin_ns
                >= u64::MAX,
{
    let v = choose|v: u64| #[trigger]
        is_least_report(reports, v) && allowed == saturating_sum(v, margin_ns);
    if reports.len() > 0 {
        let i = choose|i: int| 0 <= i < reports.len() && (#[trigger] reports[i]).virtual_time_ns
            == v;
        assert(reports[i].virtual_time_ns == v);
    }
}

/// A report replaces the time of the board that it names and of no other.
pub proof fn report_reaches_its_board(
    reports: Seq<BoardReport>,
    board_id: Seq<char>,
    virtual_time_ns: u64,
    i: int,
)
    requires
        0 <= i < reports.len(),
    ensures
        ({
            let after = after_report(reports, board_id, virtual_time_ns);
            &&& after.len() == reports.len()
            &&& after[i].board_id@ == reports[i].board_id@
            &&& reports[i].board_id@ == board_id ==> after[i].virtual_time_ns == virtual_time_ns
            &&& reports[i].board_id@ != board_id ==> after[i].virtual_time_ns
                == reports[i].virtual_time_ns
        }),
{
}

/// A board that reports a later time lifts the ceiling no further than its
/// slowest board does, and one that was the slowest lifts it.
pub proof fn slowest_board_lifts_ceiling(
    reports: Seq<BoardReport>,
    slow: int,
    virtual_time_ns: u64,
    margin_ns: u64,
    before: u64,
    after: u64,
)
    requires
        0 <= slow < reports.len(),
        forall|i: int|
            0 <= i < reports.len() && i != slow ==> reports[slow].virtual_time_ns < (
            #[trigger] reports[i]).virtual_time_ns && reports[i].board_id@
                != reports[slow].board_id@,
        virtual_time_ns > reports[slow].virtual_time_ns,
        reports[slow].virtual_time_ns + margin_ns < u64::MAX,
        is_ceiling(reports, margin_ns, before),
        is_ceiling(
            after_report(reports, reports[slow].board_id@, virtual_time_ns),
            margin_ns,
            after,
        ),
    ensures
        before == reports[slow].virtual_time_ns + margin_ns,
        before < after,
        after <= virtual_time_ns + margin_ns,
{
    let reported = after_report(reports, reports[slow].board_id@, virtual_time_ns);
    ceiling_is_margin_above_slowest(reports, margin_ns, before);
    ceiling_is_margin_above_slowest(reported, margin_ns, after);
    assert(reported[slow].virtual_time_ns == virtual_time_ns);
    let i = choose|i: int|
        0 <= i < reports.len() && before == (#[trigger] reports[i]).virtual_time_ns + margin_ns;
    assert(before <= reports[slow].virtual_time_ns + margin_ns);
    if after < u64::MAX {
        let j = choose|j: int|
            0 <= j < reported.len() && after == (#[trigger] reported[j]).virtual_time_ns
                + margin_ns;
        if j != slow {
            assert(reports[slow].virtual_time_ns < reports[j].virtual_time_ns);
        }
    }
}

/// A board has a report exactly when an entry bears its id.
pub proof fn reported_board_has_an_entry(reports: Seq<BoardReport>, board_id: Seq<char>)
    ensures
        has_report(reports, board_id) <==> !(forall|i: int|
            0 <= i < reports.len() ==> (#[trigger] reports[i]).board_id@ != board_id),
{
}

} // verus!
