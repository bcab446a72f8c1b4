//! Errors of the catalogue reader and of beam construction.
use vstd::prelude::*;

use crate::text::{FloatErrorKind, IntErrorKind};

verus! {

/// The datum a parse step was reading when it failed.
#[derive(PartialEq, Eq, Structural, Clone, Copy, Debug)]
pub enum Field {
    MoleculeName,
    MoleculeWeight,
    LevelCount,
    LevelId,
    LevelEnergy,
    LevelWeight,
    LevelJ,
    RadCount,
    RadId,
    RadUp,
    RadLow,
    EinsteinA,
    Frequency,
    RadEnergy,
    PartnerCount,
    PartnerId,
    CollCount,
    TempCount,
    Temperature,
    CollId,
    CollUp,
    CollLow,
    Rate,
}

/// A violation of the layout of a catalogue file.
#[derive(PartialEq, Eq, Structural, Clone, Copy, Debug)]
pub enum ParseFault {
    /// The input ended where the line holding this datum was due.
    UnexpectedEof(Field),
    /// A record line ended before this datum.
    MissingField(Field),
    /// The collision partner's code is not in the table of partners.
    InvalidPartnerId,
}

/// Why a catalogue could not be read.
#[derive(Clone, Debug)]
pub enum LAMDAError {
    /// Reading the input failed; the message of the underlying failure.
    Io(String),
    /// The input does not follow the layout of the format.
    ParseError(ParseFault),
    /// A datum that should be an unsigned integer is not one.
    ParseInt(Field, IntErrorKind),
    /// A datum that should be a floating-point number is not one.
    ParseFloat(Field, FloatErrorKind),
}

/// Why a beam could not be built from the parameters given.
#[derive(PartialEq, Eq, Structural, Clone, Copy, Debug)]
pub enum BeamError {
    /// An area was given together with an axis or a position angle.
    ExclusiveParameterConflict,
    /// The area is not a solid angle.
    InvalidAreaUnit,
    /// Neither a major axis nor an area was given.
    MissingParameter,
    /// The minor axis exceeds the major axis.
    MinorGreaterThanMajor,
}

} // verus!
