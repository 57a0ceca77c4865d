//! Measurements held per patient, and their summary.

use crate::category::{Phase, Position};
use crate::records::BpRecord;
use crate::stats::{aggregate, AggregateResult};
use vstd::prelude::*;

verus! {

/// One reading of blood pressure and heart rate.
#[derive(Clone, Copy, Debug, PartialEq, Eq)]
pub struct Vitals {
    pub sys: i32,
    pub dia: i32,
    pub hr: Option<i32>,
}

/// The readings of one phase, by position.
#[derive(Clone, Copy, Debug, PartialEq, Eq)]
pub struct PhaseData {
    pub lying: Option<Vitals>,
    pub sitting: Option<Vitals>,
    pub standing: Option<Vitals>,
}

/// The readings of one patient before and after the intervention.
#[derive(Debug, PartialEq, Eq)]
pub struct PatientData {
    pub mrn: String,
    pub pre: PhaseData,
    pub post: PhaseData,
}

/// The record that a reading stands for in the cell of `pos` and `phase`, if
/// the reading was taken. Its systolic pressure is always present.
pub open spec fn reading(vitals: Option<Vitals>, pos: Position, phase: Phase) -> Seq<BpRecord> {
    match vitals {
        Some(v) => seq![BpRecord { sys: Some(v.sys), hr: v.hr, pos, phase }],
        None => Seq::empty(),
    }
}

/// The records of the three positions of one phase.
pub open spec fn phase_readings(data: PhaseData, phase: Phase) -> Seq<BpRecord> {
    reading(data.lying, Position::Lying, phase) + reading(data.sitting, Position::Sitting, phase)
        + reading(data.standing, Position::Standing, phase)
}

/// The records of one patient.
pub open spec fn patient_readings(patient: PatientData) -> Seq<BpRecord> {
    phase_readings(patient.pre, Phase::Pre) + phase_readings(patient.post, Phase::Post)
}

/// The records of all patients, patient by patient.
pub open spec fn all_readings(patients: Seq<PatientData>) -> Seq<BpRecord>
    decreases patients.len(),
{
    if patients.len() == 0 {
        Seq::empty()
    } else {
        all_readings(patients.drop_last()) + patient_readings(patients.last())
    }
}

/// Appends the record of a reading, if it was taken.
fn push_reading(out: &mut Vec<BpRecord>, vitals: Option<Vitals>, pos: Position, phase: Phase)
    ensures
        final(out)@ == old(out)@ + reading(vitals, pos, phase),
{
    match vitals {
        Some(v) => {
            out.push(BpRecord { sys: Some(v.sys), hr: v.hr, pos, phase });
            proof {
                assert(out@ =~= old(out)@ + reading(vitals, pos, phase));
            }
        },
        None => {
            proof {
                assert(out@ =~= old(out)@ + reading(vitals, pos, phase));
            }
        },
    }
}

/// Appends the records of the three positions of one phase.
fn push_phase(out: &mut Vec<BpRecord>, data: PhaseData, phase: Phase)
    ensures
        final(out)@ == old(out)@ + phase_readings(data, phase),
{
    push_reading(out, data.lying, Position::Lying, phase);
    push_reading(out, data.sitting, Position::Sitting, phase);
    push_reading(out, data.standing, Position::Standing, phase);
    proof {
        assert(out@ =~= old(out)@ + phase_readings(data, phase));
    }
}

/// The records of all patients, patient by patient.
pub fn patient_records(patients: &Vec<PatientData>) -> (records: Vec<BpRecord>)
    ensures
        records@ == all_readings(patients@),
{
    let mut records: Vec<BpRecord> = Vec::new();
    let mut i: usize = 0;
    while i < patients.len()
        invariant
            i <= patients.len(),
            records@ == all_readings(patients@.take(i as int)),
        decreases patients.len() - i,
    {
        let ghost before = records@;
        push_phase(&mut records, patients[i].pre, Phase::Pre);
        push_phase(&mut records, patients[i].post, Phase::Post);
        proof {
            assert(patients@.take(i + 1).drop_last() =~= patients@.take(i as int));
            assert(records@ =~= before + patient_readings(patients@[i as int]));
        }
        i += 1;
    }
    proof {
        assert(patients@.take(patients.len() as int) =~= patients@);
    }
    records
}

/// Folds the readings of all patients into the six cells.
pub fn summarize_patients(patients: &Vec<PatientData>) -> (res: AggregateResult)
    ensures
        res.summarizes(all_readings(patients@)),
        res.wf(),
{
    let records = patient_records(patients);
    aggregate(&records)
}

} // verus!
