//! The rules by which a beam descriptor is built from optional parameters.
//!
//! The axes and angles themselves are floating-point quantities; what is
//! decided here is which parameters may be combined and what stands in for
//! those left out.
use vstd::prelude::*;

use crate::errors::BeamError;

verus! {

/// How a beam is built once its parameters are accepted.
#[derive(PartialEq, Eq, Structural, Clone, Copy, Debug)]
pub enum BeamPlan {
    /// A circular beam whose axes follow from the area; the position angle is 0.
    FromArea,
    /// A beam from its major axis; `minor_from_major` says that the minor
    /// axis takes the major axis's value, `default_pa` that the position
    /// angle is 0.
    FromAxes { minor_from_major: bool, default_pa: bool },
}

/// What building a beam from the given parameters yields: `major`, `minor`,
/// `pa` and `area` say which were given, `minor_exceeds_major` whether a
/// given minor axis is larger than the given major axis.
pub open spec fn beam_plan_spec(
    major: bool,
    minor: bool,
    pa: bool,
    area: bool,
    minor_exceeds_major: bool,
) -> Result<BeamPlan, BeamError> {
    if area {
        if major || minor || pa {
            Err(BeamError::ExclusiveParameterConflict)
        } else {
            Ok(BeamPlan::FromArea)
        }
    } else if !major {
        Err(BeamError::MissingParameter)
    } else if minor && minor_exceeds_major {
        Err(BeamError::MinorGreaterThanMajor)
    } else {
        Ok(BeamPlan::FromAxes { minor_from_major: !minor, default_pa: !pa })
    }
}

/// Decides how a beam is built from the parameters given, or why it cannot be.
pub fn beam_plan(
    major: bool,
    minor: bool,
    pa: bool,
    area: bool,
    minor_exceeds_major: bool,
) -> (r: Result<BeamPlan, BeamError>)
    ensures
        r == beam_plan_spec(major, minor, pa, area, minor_exceeds_major),
        area && (major || minor || pa) <==> r == Err::<BeamPlan, BeamError>(
            BeamError::ExclusiveParameterConflict,
        ),
        !area && !major <==> r == Err::<BeamPlan, BeamError>(BeamError::MissingParameter),
        !area && major && minor && minor_exceeds_major <==> r == Err::<BeamPlan, BeamError>(
            BeamError::MinorGreaterThanMajor,
        ),
        r == Ok::<BeamPlan, BeamError>(BeamPlan::FromArea) ==> !major && !minor && !pa,
{
    if area {
        if major || minor || pa {
            Err(BeamError::ExclusiveParameterConflict)
        } else {
            Ok(BeamPlan::FromArea)
        }
    } else if !major {
        Err(BeamError::MissingParameter)
    } else if minor && minor_exceeds_major {
        Err(BeamError::MinorGreaterThanMajor)
    } else {
        Ok(BeamPlan::FromAxes { minor_from_major: !minor, default_pa: !pa })
    }
}

/// The rules of beam construction: an area given alone yields a circular
/// beam from the area; an area with any axis or angle is a conflict; with
/// neither an area nor a major axis a parameter is missing; a given minor
/// axis larger than the given major axis is refused.
pub proof fn lemma_beam_rules(major: bool, minor: bool, pa: bool, area: bool, minor_exceeds_major: bool)
    ensures
        area && !major && !minor && !pa ==> beam_plan_spec(major, minor, pa, area, minor_exceeds_major)
            == Ok::<BeamPlan, BeamError>(BeamPlan::FromArea),
        area && (major || minor || pa) ==> beam_plan_spec(major, minor, pa, area, minor_exceeds_major)
            == Err::<BeamPlan, BeamError>(BeamError::ExclusiveParameterConflict),
        !area && !major ==> beam_plan_spec(major, minor, pa, area, minor_exceeds_major) == Err::<
            BeamPlan,
            BeamError,
        >(BeamError::MissingParameter),
        !area && major && minor && minor_exceeds_major ==> beam_plan_spec(
            major,
            minor,
            pa,
            area,
            minor_exceeds_major,
        ) == Err::<BeamPlan, BeamError>(BeamError::MinorGreaterThanMajor),
{
}

} // verus!
