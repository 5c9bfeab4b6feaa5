//! The order of controller epochs and of grill question numbers: each is
//! ordered by its number.
use std::cmp::Ordering;
use vstd::prelude::*;
use vstd::std_specs::cmp::{PartialOrdSpec, PartialOrdSpecImpl};

use crate::dreamer::GrillQuestionId;
use crate::trust::ControllerEpoch;

verus! {

/// The order of two epoch numbers.
pub open spec fn order_of_epochs(a: u64, b: u64) -> Option<Ordering> {
    if a < b {
        Some(Ordering::Less)
    } else if a == b {
        Some(Ordering::Equal)
    } else {
        Some(Ordering::Greater)
    }
}

/// The order of two question numbers.
pub open spec fn order_of_questions(a: u32, b: u32) -> Option<Ordering> {
    if a < b {
        Some(Ordering::Less)
    } else if a == b {
        Some(Ordering::Equal)
    } else {
        Some(Ordering::Greater)
    }
}

impl PartialOrd for ControllerEpoch {
    fn partial_cmp(&self, other: &ControllerEpoch) -> (r: Option<Ordering>) {
        let a = self.get();
        let b = other.get();
        if a < b {
            Some(Ordering::Less)
        } else if a == b {
            Some(Ordering::Equal)
        } else {
            Some(Ordering::Greater)
        }
    }
}

impl PartialOrdSpecImpl for ControllerEpoch {
    open spec fn obeys_partial_cmp_spec() -> bool {
        true
    }

    open spec fn partial_cmp_spec(&self, other: &ControllerEpoch) -> Option<Ordering> {
        order_of_epochs(self.number(), other.number())
    }
}

impl PartialOrd for GrillQuestionId {
    fn partial_cmp(&self, other: &GrillQuestionId) -> (r: Option<Ordering>) {
        let a = self.get();
        let b = other.get();
        if a < b {
            Some(Ordering::Less)
        } else if a == b {
            Some(Ordering::Equal)
        } else {
            Some(Ordering::Greater)
        }
    }
}

impl PartialOrdSpecImpl for GrillQuestionId {
    open spec fn obeys_partial_cmp_spec() -> bool {
        true
    }

    open spec fn partial_cmp_spec(&self, other: &GrillQuestionId) -> Option<Ordering> {
        order_of_questions(self.number(), other.number())
    }
}

/// Controller epochs are ordered by their numbers: one is less than, equal
/// to or greater than another exactly when its number is.
pub proof fn law_epochs_ordered_by_number(a: ControllerEpoch, b: ControllerEpoch)
    ensures
        PartialOrdSpec::partial_cmp_spec(&a, &b) == Some(Ordering::Less) <==> a.number() < b.number(),
        PartialOrdSpec::partial_cmp_spec(&a, &b) == Some(Ordering::Equal) <==> a.number() == b.number(),
        PartialOrdSpec::partial_cmp_spec(&a, &b) == Some(Ordering::Greater) <==> a.number() > b.number(),
{
}

/// Grill questions are ordered by their numbers: one is less than, equal
/// to or greater than another exactly when its number is.
pub proof fn law_grill_questions_ordered_by_number(a: GrillQuestionId, b: GrillQuestionId)
    ensures
        PartialOrdSpec::partial_cmp_spec(&a, &b) == Some(Ordering::Less) <==> a.number() < b.number(),
        PartialOrdSpec::partial_cmp_spec(&a, &b) == Some(Ordering::Equal) <==> a.number() == b.number(),
        PartialOrdSpec::partial_cmp_spec(&a, &b) == Some(Ordering::Greater) <==> a.number() > b.number(),
{
}

} // verus!
