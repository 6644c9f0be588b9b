use crate::random::draw_inclusive;
use rand::rngs::StdRng;
use vstd::prelude::*;

verus! {

/// Number of medication kinds; each facility holds one valuation per kind.
pub const MEDICATION_TYPES: usize = 3;

/// The medication kinds, in the order that breaks ties between equal valuations.
#[derive(Clone, Copy, Debug, PartialEq, Eq, Structural)]
pub enum MedicationType {
    A,
    B,
    C,
}

/// The kind whose valuation is smallest; on equal valuations the earlier kind wins.
pub open spec fn cheapest_kind(valuations: [u64; 3]) -> MedicationType {
    let (a, b, c) = (valuations[0], valuations[1], valuations[2]);
    if a <= b && a <= c {
        MedicationType::A
    } else if b <= c {
        MedicationType::B
    } else {
        MedicationType::C
    }
}

/// The smallest of the three valuations.
pub open spec fn cheapest_price(valuations: [u64; 3]) -> u64 {
    let (a, b, c) = (valuations[0], valuations[1], valuations[2]);
    if a <= b && a <= c {
        a
    } else if b <= c {
        b
    } else {
        c
    }
}

/// Picks the medication kind of a facility from its three valuations: the
/// kind with the smallest valuation, which is also the facility's price.
pub fn sample_medication(valuations: [u64; 3]) -> (r: (MedicationType, u64))
    ensures
        r.0 == cheapest_kind(valuations),
        r.1 == cheapest_price(valuations),
        r.1 <= valuations[0] && r.1 <= valuations[1] && r.1 <= valuations[2],
        r.1 == valuations[0] || r.1 == valuations[1] || r.1 == valuations[2],
        r.0 == MedicationType::A ==> r.1 == valuations[0],
        r.0 == MedicationType::B ==> r.1 == valuations[1] && valuations[0] > r.1,
        r.0 == MedicationType::C ==> r.1 == valuations[2] && valuations[0] > r.1
            && valuations[1] > r.1,
{
    let a = valuations[0];
    let b = valuations[1];
    let c = valuations[2];
    if a <= b && a <= c {
        (MedicationType::A, a)
    } else if b <= c {
        (MedicationType::B, b)
    } else {
        (MedicationType::C, c)
    }
}

/// The kind at position `i` of the order A, B, C; positions past the end
/// give C.
pub fn medication_from_index(i: u64) -> (r: MedicationType)
    ensures
        i == 0 ==> r == MedicationType::A,
        i == 1 ==> r == MedicationType::B,
        i >= 2 ==> r == MedicationType::C,
{
    match i {
        0 => MedicationType::A,
        1 => MedicationType::B,
        _ => MedicationType::C,
    }
}

/// A medication kind drawn uniformly.
pub fn random_medication(rng: &mut StdRng) -> MedicationType {
    medication_from_index(draw_inclusive(rng, 0, 2))
}

} // verus!
