//! Typed records and the row parsers that build them from delimited text.
//!
//! Every table starts with a header line, which is skipped without being
//! looked at. Each further line is split on commas; a line that does not
//! yield a record is left out, and the lines after it are still read.

use crate::category::{
    classify_phase_chars, classify_position_chars, phase_of, position_of, Phase, Position,
};
use crate::number::{int_field, is_float_chars, is_float_text, parse_int_chars};
use crate::text::{chars_of, lines_of, rows, split_chars, split_lines, split_on, trim, trim_chars};
use vstd::prelude::*;

verus! {

/// One blood-pressure and heart-rate observation.
#[derive(Clone, Copy, Debug, PartialEq, Eq)]
pub struct BpRecord {
    /// Systolic pressure, where the row gave one.
    pub sys: Option<i32>,
    /// Heart rate, where the row gave one.
    pub hr: Option<i32>,
    pub pos: Position,
    pub phase: Phase,
}

/// One clinical-impression score.
#[derive(Clone, Copy, Debug, PartialEq, Eq)]
pub struct CgiRecord {
    pub score: i32,
}

/// One patient's pair of doses, each as the decimal text that spells it,
/// without white space around it.
#[derive(Debug, PartialEq, Eq)]
pub struct MeqRecord {
    /// The dose before the intervention.
    pub pre: Vec<char>,
    /// The dose after the intervention.
    pub post: Vec<char>,
}

impl MeqRecord {
    /// Whether both doses spell a floating-point number.
    pub open spec fn wf(&self) -> bool {
        is_float_text(self.pre@) && is_float_text(self.post@)
    }
}

impl View for MeqRecord {
    type V = (Seq<char>, Seq<char>);

    open spec fn view(&self) -> (Seq<char>, Seq<char>) {
        (self.pre@, self.post@)
    }
}

/// The lines of a table after its header line.
pub open spec fn data_lines(text: Seq<char>) -> Seq<Seq<char>> {
    let lines = lines_of(text);
    if lines.len() == 0 {
        lines
    } else {
        lines.drop_first()
    }
}

/// The records that `row` yields for the given lines, in the order of the
/// lines; a line for which `row` gives `None` yields nothing.
pub open spec fn kept<T>(lines: Seq<Seq<char>>, row: spec_fn(Seq<char>) -> Option<T>) -> Seq<T>
    decreases lines.len(),
{
    if lines.len() == 0 {
        Seq::empty()
    } else {
        let head = kept(lines.drop_last(), row);
        match row(lines.last()) {
            Some(r) => head.push(r),
            None => head,
        }
    }
}

/// The measurement that one line holds.
///
/// The line needs seven columns or more. The third and the fifth column are
/// the systolic pressure and the heart rate, each absent where the column
/// spells no integer; the sixth and the seventh are position and phase, and
/// the line yields nothing where either is not recognised.
pub open spec fn bp_row(line: Seq<char>) -> Option<BpRecord> {
    let cols = split_on(line, ',');
    if cols.len() < 7 {
        None
    } else {
        let pos = position_of(cols[5]);
        let phase = phase_of(cols[6]);
        if pos == Position::Unknown || phase == Phase::Unknown {
            None
        } else {
            Some(BpRecord { sys: int_field(cols[2]), hr: int_field(cols[4]), pos, phase })
        }
    }
}

/// The impression score that one line holds: the third column of a line with
/// three columns or more, where it spells an integer.
pub open spec fn cgi_row(line: Seq<char>) -> Option<CgiRecord> {
    let cols = split_on(line, ',');
    if cols.len() < 3 {
        None
    } else {
        match int_field(cols[2]) {
            Some(score) => Some(CgiRecord { score }),
            None => None,
        }
    }
}

/// The pair of doses that one line holds: the third and the fourth column of
/// a line with four columns or more, each without the white space around it,
/// where both spell a floating-point number.
pub open spec fn meq_row(line: Seq<char>) -> Option<(Seq<char>, Seq<char>)> {
    let cols = split_on(line, ',');
    if cols.len() < 4 {
        None
    } else {
        let pre = trim(cols[2]);
        let post = trim(cols[3]);
        if is_float_text(pre) && is_float_text(post) {
            Some((pre, post))
        } else {
            None
        }
    }
}

/// The measurements of the given lines.
pub open spec fn bp_rows(lines: Seq<Seq<char>>) -> Seq<BpRecord> {
    kept(lines, |line: Seq<char>| bp_row(line))
}

/// The impression scores of the given lines.
pub open spec fn cgi_rows(lines: Seq<Seq<char>>) -> Seq<CgiRecord> {
    kept(lines, |line: Seq<char>| cgi_row(line))
}

/// The pairs of doses of the given lines.
pub open spec fn meq_rows(lines: Seq<Seq<char>>) -> Seq<(Seq<char>, Seq<char>)> {
    kept(lines, |line: Seq<char>| meq_row(line))
}

/// The measurements that a table holds.
pub open spec fn bp_records(text: Seq<char>) -> Seq<BpRecord> {
    bp_rows(data_lines(text))
}

/// The impression scores that a table holds.
pub open spec fn cgi_records(text: Seq<char>) -> Seq<CgiRecord> {
    cgi_rows(data_lines(text))
}

/// The pairs of doses that a table holds.
pub open spec fn meq_records(text: Seq<char>) -> Seq<(Seq<char>, Seq<char>)> {
    meq_rows(data_lines(text))
}

/// The model of a vector of dose pairs.
pub open spec fn doses_view(v: Seq<MeqRecord>) -> Seq<(Seq<char>, Seq<char>)> {
    Seq::new(v.len(), |i: int| v[i]@)
}

/// Lines of which none yields a record yield no records.
pub proof fn lemma_kept_none<T>(lines: Seq<Seq<char>>, row: spec_fn(Seq<char>) -> Option<T>)
    requires
        forall|i: int| 0 <= i < lines.len() ==> row(#[trigger] lines[i]) is None,
    ensures
        kept(lines, row) == Seq::<T>::empty(),
    decreases lines.len(),
{
    if lines.len() > 0 {
        let front = lines.drop_last();
        assert forall|i: int| 0 <= i < front.len() implies row(#[trigger] front[i]) is None by {
            assert(front[i] == lines[i]);
        }
        lemma_kept_none(front, row);
        assert(row(lines[lines.len() - 1]) is None);
    }
}

/// Every record that is kept is the record of one of the lines.
pub proof fn lemma_kept_from_line<T>(
    lines: Seq<Seq<char>>,
    row: spec_fn(Seq<char>) -> Option<T>,
    k: int,
) -> (i: int)
    requires
        0 <= k < kept(lines, row).len(),
    ensures
        0 <= i < lines.len(),
        row(lines[i]) == Some(kept(lines, row)[k]),
    decreases lines.len(),
{
    let front = lines.drop_last();
    let head = kept(front, row);
    if k < head.len() {
        lemma_kept_from_line(front, row, k)
    } else {
        lines.len() - 1
    }
}

/// No measurement read from a table has an unknown position or phase: a row
/// whose position or phase is not recognised is left out.
pub proof fn law_records_are_classified(text: Seq<char>, k: int)
    requires
        0 <= k < bp_records(text).len(),
    ensures
        bp_records(text)[k].pos != Position::Unknown,
        bp_records(text)[k].phase != Phase::Unknown,
{
    let i = lemma_kept_from_line(data_lines(text), |line: Seq<char>| bp_row(line), k);
}

/// Reads one line of a measurement table.
pub fn parse_bp_row(line: &Vec<char>) -> (r: Option<BpRecord>)
    ensures
        r == bp_row(line@),
{
    let cols = split_chars(line, ',');
    if cols.len() < 7 {
        return None;
    }
    proof {
        assert(forall|k: int| 0 <= k < cols.len() ==> cols@[k]@ == rows(cols@)[k]);
    }
    let sys = parse_int_chars(&cols[2]);
    let hr = parse_int_chars(&cols[4]);
    let pos = classify_position_chars(&cols[5]);
    let phase = classify_phase_chars(&cols[6]);
    match pos {
        Position::Unknown => None,
        _ => match phase {
            Phase::Unknown => None,
            _ => Some(BpRecord { sys, hr, pos, phase }),
        },
    }
}

/// Reads one line of an impression table.
pub fn parse_cgi_row(line: &Vec<char>) -> (r: Option<CgiRecord>)
    ensures
        r == cgi_row(line@),
{
    let cols = split_chars(line, ',');
    if cols.len() < 3 {
        return None;
    }
    proof {
        assert(forall|k: int| 0 <= k < cols.len() ==> cols@[k]@ == rows(cols@)[k]);
    }
    match parse_int_chars(&cols[2]) {
        Some(score) => Some(CgiRecord { score }),
        None => None,
    }
}

/// Reads the pair of doses of one line of a medication table.
pub fn parse_meq_row(line: &Vec<char>) -> (r: Option<MeqRecord>)
    ensures
        match r {
            Some(f) => meq_row(line@) == Some(f@) && f.wf(),
            None => meq_row(line@) is None,
        },
{
    let cols = split_chars(line, ',');
    if cols.len() < 4 {
        return None;
    }
    proof {
        assert(forall|k: int| 0 <= k < cols.len() ==> cols@[k]@ == rows(cols@)[k]);
    }
    let pre = trim_chars(&cols[2]);
    let post = trim_chars(&cols[3]);
    if is_float_chars(&pre) && is_float_chars(&post) {
        Some(MeqRecord { pre, post })
    } else {
        None
    }
}

/// Reads a measurement table: every line after the header that holds a
/// measurement, in the order of the lines.
pub fn parse_bp_data(content: &str) -> (records: Vec<BpRecord>)
    ensures
        records@ == bp_records(content@),
{
    let text = chars_of(content);
    let lines = split_lines(&text);
    let mut records: Vec<BpRecord> = Vec::new();
    if lines.len() == 0 {
        return records;
    }
    let ghost data = data_lines(content@);
    let mut i: usize = 1;
    while i < lines.len()
        invariant
            1 <= i <= lines.len(),
            rows(lines@) == lines_of(content@),
            data == lines_of(content@).drop_first(),
            records@ == bp_rows(data.take(i - 1)),
        decreases lines.len() - i,
    {
        proof {
            assert(data.take(i as int).drop_last() =~= data.take(i - 1));
            assert(data.take(i as int).last() == rows(lines@)[i as int]);
        }
        match parse_bp_row(&lines[i]) {
            Some(r) => {
                records.push(r);
            },
            None => {},
        }
        i += 1;
    }
    proof {
        assert(data.take(lines.len() - 1) =~= data);
    }
    records
}

/// Reads an impression table: every line after the header that holds a
/// score, in the order of the lines.
pub fn parse_cgi_data(content: &str) -> (records: Vec<CgiRecord>)
    ensures
        records@ == cgi_records(content@),
{
    let text = chars_of(content);
    let lines = split_lines(&text);
    let mut records: Vec<CgiRecord> = Vec::new();
    if lines.len() == 0 {
        return records;
    }
    let ghost data = data_lines(content@);
    let mut i: usize = 1;
    while i < lines.len()
        invariant
            1 <= i <= lines.len(),
            rows(lines@) == lines_of(content@),
            data == lines_of(content@).drop_first(),
            records@ == cgi_rows(data.take(i - 1)),
        decreases lines.len() - i,
    {
        proof {
            assert(data.take(i as int).drop_last() =~= data.take(i - 1));
            assert(data.take(i as int).last() == rows(lines@)[i as int]);
        }
        match parse_cgi_row(&lines[i]) {
            Some(r) => {
                records.push(r);
            },
            None => {},
        }
        i += 1;
    }
    proof {
        assert(data.take(lines.len() - 1) =~= data);
    }
    records
}

/// Reads a medication table: the pair of doses of every line after the
/// header that holds one, in the order of the lines.
pub fn parse_meq_data(content: &str) -> (records: Vec<MeqRecord>)
    ensures
        doses_view(records@) == meq_records(content@),
        forall|k: int| 0 <= k < records.len() ==> (#[trigger] records[k]).wf(),
{
    let text = chars_of(content);
    let lines = split_lines(&text);
    let mut records: Vec<MeqRecord> = Vec::new();
    if lines.len() == 0 {
        proof {
            assert(doses_view(records@) =~= meq_records(content@));
        }
        return records;
    }
    let ghost data = data_lines(content@);
    let mut i: usize = 1;
    proof {
        assert(doses_view(records@) =~= meq_rows(data.take(0)));
    }
    while i < lines.len()
        invariant
            1 <= i <= lines.len(),
            rows(lines@) == lines_of(content@),
            data == lines_of(content@).drop_first(),
            doses_view(records@) == meq_rows(data.take(i - 1)),
            forall|k: int| 0 <= k < records.len() ==> (#[trigger] records[k]).wf(),
        decreases lines.len() - i,
    {
        proof {
            assert(data.take(i as int).drop_last() =~= data.take(i - 1));
            assert(data.take(i as int).last() == rows(lines@)[i as int]);
        }
        let ghost before = doses_view(records@);
        match parse_meq_row(&lines[i]) {
            Some(f) => {
                let ghost doses = f@;
                records.push(f);
                proof {
                    assert(doses_view(records@) =~= before.push(doses));
                }
            },
            None => {},
        }
        i += 1;
    }
    proof {
        assert(data.take(lines.len() - 1) =~= data);
    }
    records
}

} // verus!
