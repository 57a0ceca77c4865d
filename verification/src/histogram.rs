//! The distribution of clinical-impression scores over the buckets 1 to 7.

use crate::records::{cgi_records, parse_cgi_data, CgiRecord};
use vstd::prelude::*;

verus! {

/// How many of the records have the score `score`.
pub open spec fn score_count(records: Seq<CgiRecord>, score: int) -> nat
    decreases records.len(),
{
    if records.len() == 0 {
        0
    } else {
        let head = score_count(records.drop_last(), score);
        if records.last().score == score {
            head + 1
        } else {
            head
        }
    }
}

/// What bucket `index` of the histogram holds: the number of records with
/// that score for the buckets 1 to 7, and nothing for any other index.
pub open spec fn bucket(records: Seq<CgiRecord>, index: int) -> nat {
    if 1 <= index <= 7 {
        score_count(records, index)
    } else {
        0
    }
}

/// Whether `h` is the histogram of the records.
pub open spec fn is_histogram_of(h: [usize; 8], records: Seq<CgiRecord>) -> bool {
    forall|s: int| 0 <= s < 8 ==> #[trigger] h[s] == bucket(records, s)
}

/// The largest of the counts, and at least one.
pub open spec fn peak_of(counts: Seq<usize>) -> int
    decreases counts.len(),
{
    if counts.len() == 0 {
        1
    } else {
        let head = peak_of(counts.drop_last());
        if counts.last() > head {
            counts.last() as int
        } else {
            head
        }
    }
}

/// No score is counted more often than there are records.
pub proof fn lemma_score_count_le(records: Seq<CgiRecord>, score: int)
    ensures
        score_count(records, score) <= records.len(),
    decreases records.len(),
{
    if records.len() > 0 {
        lemma_score_count_le(records.drop_last(), score);
    }
}

/// The peak is at least one and at least every count, and it is one of the
/// counts unless it is one.
pub proof fn lemma_peak_is_max(counts: Seq<usize>)
    ensures
        peak_of(counts) >= 1,
        forall|i: int| 0 <= i < counts.len() ==> counts[i] <= peak_of(counts),
        peak_of(counts) == 1 || exists|i: int| 0 <= i < counts.len() && counts[i] == peak_of(counts),
    decreases counts.len(),
{
    if counts.len() > 0 {
        let front = counts.drop_last();
        lemma_peak_is_max(front);
        assert forall|i: int| 0 <= i < counts.len() implies counts[i] <= peak_of(counts) by {
            if i < front.len() {
                assert(front[i] == counts[i]);
            }
        }
        if counts.last() > peak_of(front) {
            assert(counts[counts.len() - 1] == peak_of(counts));
        } else if peak_of(front) != 1 {
            let i = choose|i: int| 0 <= i < front.len() && front[i] == peak_of(front);
            assert(counts[i] == peak_of(counts));
        }
    }
}

/// Counts the scores 1 to 7 into the buckets of the same index. A score
/// outside that range is counted nowhere, and bucket 0 stays empty.
pub fn cgi_histogram(records: &Vec<CgiRecord>) -> (h: [usize; 8])
    ensures
        is_histogram_of(h, records@),
{
    let mut h: [usize; 8] = [0; 8];
    let mut i: usize = 0;
    while i < records.len()
        invariant
            i <= records.len(),
            is_histogram_of(h, records@.take(i as int)),
        decreases records.len() - i,
    {
        let score: i32 = records[i].score;
        let ghost before = h;
        proof {
            assert(records@.take(i + 1).drop_last() =~= records@.take(i as int));
            assert forall|s: int| 0 <= s < 8 implies #[trigger] before[s] <= i by {
                lemma_score_count_le(records@.take(i as int), s);
            }
        }
        if score >= 1 && score <= 7 {
            let k: usize = score as usize;
            h[k] = h[k] + 1;
        }
        proof {
            assert forall|s: int| 0 <= s < 8 implies #[trigger] h[s] == bucket(
                records@.take(i + 1),
                s,
            ) by {
                assert(before[s] == bucket(records@.take(i as int), s));
            }
        }
        i += 1;
    }
    proof {
        assert(records@.take(records.len() as int) =~= records@);
    }
    h
}

/// The count of the fullest bucket, and one where every bucket is empty, so
/// that bar heights can be divided by it.
pub fn histogram_peak(h: &[usize; 8]) -> (peak: usize)
    ensures
        peak == peak_of(h@),
        peak >= 1,
        forall|s: int| 0 <= s < 8 ==> h[s] <= peak,
{
    let mut peak: usize = 1;
    let mut i: usize = 0;
    while i < 8
        invariant
            i <= 8,
            peak == peak_of(h@.take(i as int)),
        decreases 8 - i,
    {
        proof {
            assert(h@.take(i + 1).drop_last() =~= h@.take(i as int));
        }
        if h[i] > peak {
            peak = h[i];
        }
        i += 1;
    }
    proof {
        assert(h@.take(8) =~= h@);
        lemma_peak_is_max(h@);
    }
    peak
}

/// Reads an impression table and counts its scores into the histogram.
pub fn impression_histogram(content: &str) -> (h: [usize; 8])
    ensures
        is_histogram_of(h, cgi_records(content@)),
{
    let records = parse_cgi_data(content);
    cgi_histogram(&records)
}

} // verus!
