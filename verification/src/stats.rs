//! Per-cell running totals of measurements, their averages, and the
//! pressure drop between lying and standing.

use crate::category::{Phase, Position};
use crate::records::{
    bp_records, bp_row, data_lines, lemma_kept_none, parse_bp_data, BpRecord,
};
use crate::text::lines_of;
use vstd::prelude::*;

verus! {

/// The totals of one cell as mathematical integers.
pub struct Totals {
    pub sys_sum: int,
    pub sys_count: nat,
    pub hr_sum: int,
    pub hr_count: nat,
}

/// Running totals of one cell: the sum and the number of the systolic
/// readings, and the sum and the number of the heart-rate readings.
#[derive(Clone, Copy, Debug, PartialEq, Eq)]
pub struct BpStats {
    pub sys_sum: i128,
    pub sys_count: u64,
    pub hr_sum: i128,
    pub hr_count: u64,
}

/// The six cells of a summary, by phase and position: index 0 is lying,
/// 1 sitting, 2 standing.
#[derive(Clone, Copy, Debug, PartialEq, Eq)]
pub struct AggregateResult {
    pub pre: [BpStats; 3],
    pub post: [BpStats; 3],
}

impl View for BpStats {
    type V = Totals;

    open spec fn view(&self) -> Totals {
        Totals {
            sys_sum: self.sys_sum as int,
            sys_count: self.sys_count as nat,
            hr_sum: self.hr_sum as int,
            hr_count: self.hr_count as nat,
        }
    }
}

/// The totals of a cell without readings.
pub open spec fn no_totals() -> Totals {
    Totals { sys_sum: 0, sys_count: 0, hr_sum: 0, hr_count: 0 }
}

/// The truncating mean of `count` readings that add up to `sum`; `0` where
/// there is no reading.
pub open spec fn mean_of(sum: int, count: int) -> int {
    if count <= 0 {
        0
    } else if sum >= 0 {
        sum / count
    } else {
        -((-sum) / count)
    }
}

/// Whether `sum` can be the sum of `count` 32-bit readings.
pub open spec fn sum_in_range(sum: int, count: int) -> bool {
    -2147483648 * count <= sum <= 2147483647 * count
}

/// The totals `t` with the readings of one more record added: each of the
/// two readings counts where it is present, independently of the other.
pub open spec fn tally(t: Totals, sys: Option<i32>, hr: Option<i32>) -> Totals {
    Totals {
        sys_sum: match sys {
            Some(v) => t.sys_sum + v,
            None => t.sys_sum,
        },
        sys_count: match sys {
            Some(_) => t.sys_count + 1,
            None => t.sys_count,
        },
        hr_sum: match hr {
            Some(v) => t.hr_sum + v,
            None => t.hr_sum,
        },
        hr_count: match hr {
            Some(_) => t.hr_count + 1,
            None => t.hr_count,
        },
    }
}

/// The totals of the records that fall into the cell of `pos` and `phase`.
pub open spec fn cell_totals(records: Seq<BpRecord>, pos: Position, phase: Phase) -> Totals
    decreases records.len(),
{
    if records.len() == 0 {
        no_totals()
    } else {
        let head = cell_totals(records.drop_last(), pos, phase);
        let r = records.last();
        if r.pos == pos && r.phase == phase {
            tally(head, r.sys, r.hr)
        } else {
            head
        }
    }
}

/// Whether totals count no more than `n` readings of either kind, with sums
/// that so many 32-bit readings can have.
pub open spec fn totals_within(t: Totals, n: int) -> bool {
    &&& t.sys_count <= n
    &&& t.hr_count <= n
    &&& sum_in_range(t.sys_sum, t.sys_count as int)
    &&& sum_in_range(t.hr_sum, t.hr_count as int)
}

/// The totals of a cell count no more readings than there are records, and
/// their sums are sums of that many 32-bit readings.
pub proof fn lemma_cell_totals_within(records: Seq<BpRecord>, pos: Position, phase: Phase)
    ensures
        totals_within(cell_totals(records, pos, phase), records.len() as int),
    decreases records.len(),
{
    if records.len() > 0 {
        lemma_cell_totals_within(records.drop_last(), pos, phase);
    }
}

/// The mean of 32-bit readings is a 32-bit number.
pub proof fn lemma_mean_in_range(sum: int, count: int)
    requires
        sum_in_range(sum, count),
    ensures
        -2147483648 <= mean_of(sum, count) <= 2147483647,
{
    if count > 0 {
        if sum >= 0 {
            assert(sum / count <= 2147483647) by (nonlinear_arith)
                requires
                    count > 0,
                    0 <= sum <= 2147483647 * count,
            ;
            assert(sum / count >= 0) by (nonlinear_arith)
                requires
                    count > 0,
                    0 <= sum,
            ;
        } else {
            assert((-sum) / count <= 2147483648) by (nonlinear_arith)
                requires
                    count > 0,
                    0 <= -sum <= 2147483648 * count,
            ;
            assert((-sum) / count >= 0) by (nonlinear_arith)
                requires
                    count > 0,
                    0 <= -sum,
            ;
        }
    }
}

/// A cell without readings has mean zero. A cell with readings has mean zero
/// exactly where their sum is smaller in magnitude than their number, so
/// that the truncating division leaves nothing.
pub proof fn lemma_mean_zero(sum: int, count: int)
    requires
        0 <= count,
    ensures
        count == 0 ==> mean_of(sum, count) == 0,
        count > 0 ==> (mean_of(sum, count) == 0 <==> -count < sum < count),
{
    if count > 0 {
        if sum >= 0 {
            assert((sum / count == 0) <==> sum < count) by (nonlinear_arith)
                requires
                    count > 0,
                    sum >= 0,
            ;
        } else {
            assert(((-sum) / count == 0) <==> -sum < count) by (nonlinear_arith)
                requires
                    count > 0,
                    -sum >= 0,
            ;
        }
    }
}

/// The truncating mean of `count` 32-bit readings that add up to `sum`.
pub fn mean(sum: i128, count: u64) -> (r: i32)
    requires
        sum_in_range(sum as int, count as int),
    ensures
        r == mean_of(sum as int, count as int),
{
    proof {
        lemma_mean_in_range(sum as int, count as int);
    }
    if count == 0 {
        0
    } else if sum >= 0 {
        (sum / (count as i128)) as i32
    } else {
        (-((-sum) / (count as i128))) as i32
    }
}

impl BpStats {
    /// Whether the sums are sums of as many 32-bit readings as counted.
    pub open spec fn wf(&self) -> bool {
        &&& sum_in_range(self.sys_sum as int, self.sys_count as int)
        &&& sum_in_range(self.hr_sum as int, self.hr_count as int)
    }

    /// The truncating mean of the systolic readings; `0` where there is none.
    pub open spec fn spec_avg_sys(&self) -> int {
        mean_of(self.sys_sum as int, self.sys_count as int)
    }

    /// The truncating mean of the heart-rate readings; `0` where there is none.
    pub open spec fn spec_avg_hr(&self) -> int {
        mean_of(self.hr_sum as int, self.hr_count as int)
    }

    /// Whether the sums are sums of as many 32-bit readings as counted.
    pub fn is_wf(&self) -> (r: bool)
        ensures
            r == self.wf(),
    {
        let sys: i128 = self.sys_count as i128;
        let hr: i128 = self.hr_count as i128;
        -2147483648 * sys <= self.sys_sum && self.sys_sum <= 2147483647 * sys && -2147483648 * hr
            <= self.hr_sum && self.hr_sum <= 2147483647 * hr
    }

    /// The totals of a cell without readings.
    pub fn new() -> (r: BpStats)
        ensures
            r@ == no_totals(),
            r.wf(),
    {
        BpStats { sys_sum: 0, sys_count: 0, hr_sum: 0, hr_count: 0 }
    }

    /// The totals with the readings of one more record added.
    pub fn record(self, sys: Option<i32>, hr: Option<i32>) -> (r: BpStats)
        requires
            self.wf(),
            self.sys_count < u64::MAX,
            self.hr_count < u64::MAX,
        ensures
            r@ == tally(self@, sys, hr),
            r.wf(),
    {
        let mut r = self;
        if let Some(v) = sys {
            r.sys_sum = r.sys_sum + (v as i128);
            r.sys_count = r.sys_count + 1;
        }
        if let Some(v) = hr {
            r.hr_sum = r.hr_sum + (v as i128);
            r.hr_count = r.hr_count + 1;
        }
        r
    }

    /// The truncating mean of the systolic readings; `0` where there is none.
    pub fn avg_sys(&self) -> (r: i32)
        requires
            self.wf(),
        ensures
            r == self.spec_avg_sys(),
            self.sys_count == 0 ==> r == 0,
    {
        mean(self.sys_sum, self.sys_count)
    }

    /// The truncating mean of the heart-rate readings; `0` where there is none.
    pub fn avg_hr(&self) -> (r: i32)
        requires
            self.wf(),
        ensures
            r == self.spec_avg_hr(),
            self.hr_count == 0 ==> r == 0,
    {
        mean(self.hr_sum, self.hr_count)
    }
}

impl Default for BpStats {
    fn default() -> (r: BpStats)
        ensures
            r@ == no_totals(),
            r.wf(),
    {
        BpStats::new()
    }
}

/// The index of a position's cell within a phase; `None` for `Unknown`.
pub open spec fn position_index(pos: Position) -> Option<int> {
    match pos {
        Position::Lying => Some(0),
        Position::Sitting => Some(1),
        Position::Standing => Some(2),
        Position::Unknown => None,
    }
}

/// In the totals of any records, a cell's systolic mean is zero exactly where
/// the cell has no systolic reading. Left out are the cells whose readings
/// add up to less, in magnitude, than their number: their truncated mean is
/// zero although they are not empty.
pub proof fn law_sys_mean_zero_iff_empty(records: Seq<BpRecord>, pos: Position, phase: Phase)
    requires
        ({
            let t = cell_totals(records, pos, phase);
            !(t.sys_count > 0 && -t.sys_count < t.sys_sum < t.sys_count)
        }),
    ensures
        ({
            let t = cell_totals(records, pos, phase);
            &&& t.sys_count >= 0
            &&& (mean_of(t.sys_sum, t.sys_count as int) == 0 <==> t.sys_count == 0)
        }),
{
    let t = cell_totals(records, pos, phase);
    lemma_mean_zero(t.sys_sum, t.sys_count as int);
}

/// In the totals of any records, a cell's mean heart rate is zero exactly
/// where the cell has no heart-rate reading. Left out are the cells whose
/// readings add up to less, in magnitude, than their number: their truncated
/// mean is zero although they are not empty.
pub proof fn law_hr_mean_zero_iff_empty(records: Seq<BpRecord>, pos: Position, phase: Phase)
    requires
        ({
            let t = cell_totals(records, pos, phase);
            !(t.hr_count > 0 && -t.hr_count < t.hr_sum < t.hr_count)
        }),
    ensures
        ({
            let t = cell_totals(records, pos, phase);
            &&& t.hr_count >= 0
            &&& (mean_of(t.hr_sum, t.hr_count as int) == 0 <==> t.hr_count == 0)
        }),
{
    let t = cell_totals(records, pos, phase);
    lemma_mean_zero(t.hr_sum, t.hr_count as int);
}

impl AggregateResult {
    /// The totals of the cell of `pos` and `phase`; those of an empty cell
    /// where either is `Unknown`.
    pub open spec fn spec_cell(&self, pos: Position, phase: Phase) -> BpStats {
        match (phase, position_index(pos)) {
            (Phase::Pre, Some(i)) => self.pre[i],
            (Phase::Post, Some(i)) => self.post[i],
            _ => BpStats { sys_sum: 0, sys_count: 0, hr_sum: 0, hr_count: 0 },
        }
    }

    /// Whether every cell holds sums of as many 32-bit readings as it counts.
    pub open spec fn wf(&self) -> bool {
        &&& forall|i: int| 0 <= i < 3 ==> (#[trigger] self.pre[i]).wf()
        &&& forall|i: int| 0 <= i < 3 ==> (#[trigger] self.post[i]).wf()
    }

    /// Whether each of the six cells holds the totals of the records that
    /// fall into it.
    pub open spec fn summarizes(&self, records: Seq<BpRecord>) -> bool {
        &&& self.pre[0]@ == cell_totals(records, Position::Lying, Phase::Pre)
        &&& self.pre[1]@ == cell_totals(records, Position::Sitting, Phase::Pre)
        &&& self.pre[2]@ == cell_totals(records, Position::Standing, Phase::Pre)
        &&& self.post[0]@ == cell_totals(records, Position::Lying, Phase::Post)
        &&& self.post[1]@ == cell_totals(records, Position::Sitting, Phase::Post)
        &&& self.post[2]@ == cell_totals(records, Position::Standing, Phase::Post)
    }

    /// The lying-to-standing drop of the mean systolic pressure in `phase`.
    pub open spec fn spec_drop(&self, phase: Phase) -> int {
        self.spec_cell(Position::Lying, phase).spec_avg_sys() - self.spec_cell(
            Position::Standing,
            phase,
        ).spec_avg_sys()
    }

    /// Whether every cell holds sums of as many 32-bit readings as it counts.
    pub fn is_wf(&self) -> (r: bool)
        ensures
            r == self.wf(),
    {
        self.pre[0].is_wf() && self.pre[1].is_wf() && self.pre[2].is_wf() && self.post[0].is_wf()
            && self.post[1].is_wf() && self.post[2].is_wf()
    }

    /// The summary of no records: six empty cells.
    pub fn new() -> (r: AggregateResult)
        ensures
            r.summarizes(Seq::empty()),
            r.wf(),
            forall|i: int| 0 <= i < 3 ==> r.pre[i]@ == no_totals() && r.post[i]@ == no_totals(),
    {
        let zero = BpStats::new();
        AggregateResult { pre: [zero, zero, zero], post: [zero, zero, zero] }
    }

    /// The totals of the cell of `pos` and `phase`.
    pub fn cell(&self, pos: Position, phase: Phase) -> (r: BpStats)
        ensures
            r == self.spec_cell(pos, phase),
            self.wf() ==> r.wf(),
    {
        let i: usize = match pos {
            Position::Lying => 0,
            Position::Sitting => 1,
            Position::Standing => 2,
            Position::Unknown => {
                return BpStats::new();
            },
        };
        match phase {
            Phase::Pre => self.pre[i],
            Phase::Post => self.post[i],
            Phase::Unknown => BpStats::new(),
        }
    }

    /// The mean systolic pressure in `phase` while lying, sitting and
    /// standing, in that order.
    pub fn sys_averages(&self, phase: Phase) -> (r: [i32; 3])
        requires
            self.wf(),
        ensures
            r[0] == self.spec_cell(Position::Lying, phase).spec_avg_sys(),
            r[1] == self.spec_cell(Position::Sitting, phase).spec_avg_sys(),
            r[2] == self.spec_cell(Position::Standing, phase).spec_avg_sys(),
    {
        [
            self.cell(Position::Lying, phase).avg_sys(),
            self.cell(Position::Sitting, phase).avg_sys(),
            self.cell(Position::Standing, phase).avg_sys(),
        ]
    }

    /// The mean heart rate in `phase` while lying, sitting and standing, in
    /// that order.
    pub fn hr_averages(&self, phase: Phase) -> (r: [i32; 3])
        requires
            self.wf(),
        ensures
            r[0] == self.spec_cell(Position::Lying, phase).spec_avg_hr(),
            r[1] == self.spec_cell(Position::Sitting, phase).spec_avg_hr(),
            r[2] == self.spec_cell(Position::Standing, phase).spec_avg_hr(),
    {
        [
            self.cell(Position::Lying, phase).avg_hr(),
            self.cell(Position::Sitting, phase).avg_hr(),
            self.cell(Position::Standing, phase).avg_hr(),
        ]
    }

    /// The lying-to-standing drop of the mean systolic pressure in `phase`:
    /// the mean while lying less the mean while standing, negative where the
    /// standing mean is the higher one.
    pub fn systolic_drop(&self, phase: Phase) -> (r: i64)
        requires
            self.wf(),
        ensures
            r == self.spec_drop(phase),
    {
        let lying = self.cell(Position::Lying, phase);
        let standing = self.cell(Position::Standing, phase);
        (lying.avg_sys() as i64) - (standing.avg_sys() as i64)
    }
}

/// Folds measurements into the six cells. A record whose position or phase
/// is `Unknown` falls into no cell.
pub fn aggregate(records: &Vec<BpRecord>) -> (res: AggregateResult)
    ensures
        res.summarizes(records@),
        res.wf(),
{
    let mut res = AggregateResult::new();
    let mut i: usize = 0;
    while i < records.len()
        invariant
            i <= records.len(),
            res.summarizes(records@.take(i as int)),
        decreases records.len() - i,
    {
        let r = records[i];
        proof {
            let upto = records@.take(i as int);
            assert(records@.take(i + 1).drop_last() =~= upto);
            lemma_cell_totals_within(upto, Position::Lying, Phase::Pre);
            lemma_cell_totals_within(upto, Position::Sitting, Phase::Pre);
            lemma_cell_totals_within(upto, Position::Standing, Phase::Pre);
            lemma_cell_totals_within(upto, Position::Lying, Phase::Post);
            lemma_cell_totals_within(upto, Position::Sitting, Phase::Post);
            lemma_cell_totals_within(upto, Position::Standing, Phase::Post);
        }
        match r.phase {
            Phase::Pre => match r.pos {
                Position::Lying => {
                    res.pre[0] = res.pre[0].record(r.sys, r.hr);
                },
                Position::Sitting => {
                    res.pre[1] = res.pre[1].record(r.sys, r.hr);
                },
                Position::Standing => {
                    res.pre[2] = res.pre[2].record(r.sys, r.hr);
                },
                Position::Unknown => {},
            },
            Phase::Post => match r.pos {
                Position::Lying => {
                    res.post[0] = res.post[0].record(r.sys, r.hr);
                },
                Position::Sitting => {
                    res.post[1] = res.post[1].record(r.sys, r.hr);
                },
                Position::Standing => {
                    res.post[2] = res.post[2].record(r.sys, r.hr);
                },
                Position::Unknown => {},
            },
            Phase::Unknown => {},
        }
        i += 1;
    }
    proof {
        assert(records@.take(records.len() as int) =~= records@);
        lemma_summary_wf(res, records@);
    }
    res
}

/// A summary of records holds, in every cell, sums of as many 32-bit
/// readings as the cell counts.
pub proof fn lemma_summary_wf(res: AggregateResult, records: Seq<BpRecord>)
    requires
        res.summarizes(records),
    ensures
        res.wf(),
{
    lemma_cell_totals_within(records, Position::Lying, Phase::Pre);
    lemma_cell_totals_within(records, Position::Sitting, Phase::Pre);
    lemma_cell_totals_within(records, Position::Standing, Phase::Pre);
    lemma_cell_totals_within(records, Position::Lying, Phase::Post);
    lemma_cell_totals_within(records, Position::Sitting, Phase::Post);
    lemma_cell_totals_within(records, Position::Standing, Phase::Post);
    assert forall|i: int| 0 <= i < 3 implies (#[trigger] res.pre[i]).wf() by {
        if i == 0 {
        } else if i == 1 {
        } else {
        }
    }
    assert forall|i: int| 0 <= i < 3 implies (#[trigger] res.post[i]).wf() by {
        if i == 0 {
        } else if i == 1 {
        } else {
        }
    }
}

/// Reads a measurement table and folds its records into the six cells.
pub fn summarize_measurements(content: &str) -> (res: AggregateResult)
    ensures
        res.summarizes(bp_records(content@)),
        res.wf(),
{
    let records = parse_bp_data(content);
    aggregate(&records)
}

/// Reading the same table twice gives summaries that are equal in every
/// field: the summary is a function of the text.
pub proof fn law_summary_deterministic(text: Seq<char>, a: AggregateResult, b: AggregateResult)
    requires
        a.summarizes(bp_records(text)),
        b.summarizes(bp_records(text)),
    ensures
        a == b,
{
    lemma_summary_unique(a, b, bp_records(text));
}

/// Two summaries of the same records are equal in every field.
pub proof fn lemma_summary_unique(a: AggregateResult, b: AggregateResult, records: Seq<BpRecord>)
    requires
        a.summarizes(records),
        b.summarizes(records),
    ensures
        a == b,
{
    assert forall|i: int| 0 <= i < 3 implies a.pre[i] == b.pre[i] && a.post[i] == b.post[i] by {
        if i == 0 {
        } else if i == 1 {
        } else {
        }
    }
    assert(a.pre =~= b.pre);
    assert(a.post =~= b.post);
}

/// A table of whose data lines none holds a measurement has the summary of
/// a table without data lines: that of no records, six empty cells.
pub proof fn law_no_rows_zero_summary(text: Seq<char>, res: AggregateResult, empty: AggregateResult)
    requires
        res.summarizes(bp_records(text)),
        empty.summarizes(Seq::empty()),
        forall|i: int|
            0 <= i < data_lines(text).len() ==> bp_row(#[trigger] data_lines(text)[i]) is None,
    ensures
        bp_records(text) == Seq::<BpRecord>::empty(),
        res == empty,
        forall|i: int| 0 <= i < 3 ==> res.pre[i]@ == no_totals() && res.post[i]@ == no_totals(),
{
    lemma_kept_none(data_lines(text), |line: Seq<char>| bp_row(line));
    lemma_summary_unique(res, empty, Seq::empty());
    assert forall|i: int| 0 <= i < 3 implies res.pre[i]@ == no_totals() && res.post[i]@
        == no_totals() by {
        if i == 0 {
        } else if i == 1 {
        } else {
        }
    }
}

/// A table that is a header line and nothing more has the summary of no
/// records: six empty cells.
pub proof fn law_header_only_zero_summary(text: Seq<char>, res: AggregateResult)
    requires
        res.summarizes(bp_records(text)),
        lines_of(text).len() <= 1,
    ensures
        bp_records(text) == Seq::<BpRecord>::empty(),
        forall|i: int| 0 <= i < 3 ==> res.pre[i]@ == no_totals() && res.post[i]@ == no_totals(),
{
    assert(bp_records(text) == Seq::<BpRecord>::empty());
    assert forall|i: int| 0 <= i < 3 implies res.pre[i]@ == no_totals() && res.post[i]@
        == no_totals() by {
        if i == 0 {
        } else if i == 1 {
        } else {
        }
    }
}

} // verus!
