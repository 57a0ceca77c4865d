//! The closed sets of labels that free-text position and phase columns are
//! mapped onto.

use crate::text::{
    chars_of, contains_chars, contains_seq, is_space, lower, lower_chars, lowered, same_chars, trim,
    trim_chars, trim_end, trim_start,
};
use vstd::prelude::*;

verus! {

/// Body position during a measurement.
#[derive(Clone, Copy, Debug, PartialEq, Eq, Structural)]
pub enum Position {
    Lying,
    Sitting,
    Standing,
    /// A label that names none of the three positions.
    Unknown,
}

/// Timing of a measurement relative to the intervention.
#[derive(Clone, Copy, Debug, PartialEq, Eq, Structural)]
pub enum Phase {
    Pre,
    Post,
    /// A label that names neither phase.
    Unknown,
}

/// The word for the lying position.
pub open spec fn word_lying() -> Seq<char> {
    seq!['l', 'y', 'i', 'n', 'g']
}

/// The word for the sitting position.
pub open spec fn word_sitting() -> Seq<char> {
    seq!['s', 'i', 't', 't', 'i', 'n', 'g']
}

/// The word for the standing position.
pub open spec fn word_standing() -> Seq<char> {
    seq!['s', 't', 'a', 'n', 'd', 'i', 'n', 'g']
}

/// The word that marks a label of the phase before the intervention.
pub open spec fn word_pre() -> Seq<char> {
    seq!['p', 'r', 'e']
}

/// The word that marks a label of the phase after the intervention.
pub open spec fn word_post() -> Seq<char> {
    seq!['p', 'o', 's', 't']
}

/// The position that a label names: the label without the white space around
/// it is, the case of ASCII letters aside, exactly one of the three position
/// words.
pub open spec fn position_of(label: Seq<char>) -> Position {
    let t = lowered(trim(label));
    if t == word_lying() {
        Position::Lying
    } else if t == word_sitting() {
        Position::Sitting
    } else if t == word_standing() {
        Position::Standing
    } else {
        Position::Unknown
    }
}

/// The phase that a label names: `Pre` where the label holds "pre" anywhere,
/// the case of ASCII letters aside; else `Post` where it holds "post"; else
/// `Unknown`. A label such as "Postprandial" therefore names `Post`.
pub open spec fn phase_of(label: Seq<char>) -> Phase {
    let t = lowered(label);
    if contains_seq(t, word_pre()) {
        Phase::Pre
    } else if contains_seq(t, word_post()) {
        Phase::Post
    } else {
        Phase::Unknown
    }
}

/// Case folding never turns white space into a letter or a letter into white
/// space, so it does not matter whether a text is trimmed before or after.
pub proof fn lemma_trim_lowered(s: Seq<char>)
    ensures
        lowered(trim(s)) == trim(lowered(s)),
{
    lemma_trim_start_lowered(s);
    lemma_trim_end_lowered(trim_start(s));
}

proof fn lemma_trim_start_lowered(s: Seq<char>)
    ensures
        lowered(trim_start(s)) == trim_start(lowered(s)),
    decreases s.len(),
{
    if s.len() > 0 {
        assert(is_space(lower(s[0])) == is_space(s[0]));
        if is_space(s[0]) {
            lemma_trim_start_lowered(s.drop_first());
            assert(lowered(s).drop_first() =~= lowered(s.drop_first()));
        }
    }
}

proof fn lemma_trim_end_lowered(s: Seq<char>)
    ensures
        lowered(trim_end(s)) == trim_end(lowered(s)),
    decreases s.len(),
{
    if s.len() > 0 {
        assert(is_space(lower(s.last())) == is_space(s.last()));
        if is_space(s.last()) {
            lemma_trim_end_lowered(s.drop_last());
            assert(lowered(s).drop_last() =~= lowered(s.drop_last()));
        }
    }
}

/// Two labels that differ only in the case of ASCII letters name the same
/// position.
pub proof fn law_position_ignores_case(a: Seq<char>, b: Seq<char>)
    requires
        lowered(a) == lowered(b),
    ensures
        position_of(a) == position_of(b),
{
    lemma_trim_lowered(a);
    lemma_trim_lowered(b);
}

/// Two labels that differ only in the case of ASCII letters name the same
/// phase.
pub proof fn law_phase_ignores_case(a: Seq<char>, b: Seq<char>)
    requires
        lowered(a) == lowered(b),
    ensures
        phase_of(a) == phase_of(b),
{
}

/// The position that a label names.
pub fn classify_position_chars(label: &Vec<char>) -> (r: Position)
    ensures
        r == position_of(label@),
{
    let trimmed = trim_chars(label);
    let t = lower_chars(&trimmed);
    let lying: Vec<char> = vec!['l', 'y', 'i', 'n', 'g'];
    let sitting: Vec<char> = vec!['s', 'i', 't', 't', 'i', 'n', 'g'];
    let standing: Vec<char> = vec!['s', 't', 'a', 'n', 'd', 'i', 'n', 'g'];
    proof {
        assert(lying@ =~= word_lying());
        assert(sitting@ =~= word_sitting());
        assert(standing@ =~= word_standing());
    }
    if same_chars(&t, &lying) {
        Position::Lying
    } else if same_chars(&t, &sitting) {
        Position::Sitting
    } else if same_chars(&t, &standing) {
        Position::Standing
    } else {
        Position::Unknown
    }
}

/// The phase that a label names.
pub fn classify_phase_chars(label: &Vec<char>) -> (r: Phase)
    ensures
        r == phase_of(label@),
{
    let t = lower_chars(label);
    let pre: Vec<char> = vec!['p', 'r', 'e'];
    let post: Vec<char> = vec!['p', 'o', 's', 't'];
    proof {
        assert(pre@ =~= word_pre());
        assert(post@ =~= word_post());
    }
    if contains_chars(&t, &pre) {
        Phase::Pre
    } else if contains_chars(&t, &post) {
        Phase::Post
    } else {
        Phase::Unknown
    }
}

/// The position that a label names.
pub fn classify_position(label: &str) -> (r: Position)
    ensures
        r == position_of(label@),
{
    let chars = chars_of(label);
    classify_position_chars(&chars)
}

/// The phase that a label names.
pub fn classify_phase(label: &str) -> (r: Phase)
    ensures
        r == phase_of(label@),
{
    let chars = chars_of(label);
    classify_phase_chars(&chars)
}

} // verus!
