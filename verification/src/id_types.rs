//! Distinct identifier types, one per entity kind.
//!
//! Each wraps the same 64-bit representation, but the wrappers are never
//! interchangeable: conversion to and from the raw value goes explicitly
//! through the public field. Ordering is numeric ordering of the raw
//! value.

use vstd::prelude::*;

verus! {

/// Identifier of a train.
#[derive(Clone, Copy, Debug, PartialEq, Eq, Structural, PartialOrd, Ord, Hash)]
pub struct TrainId(pub u64);

/// Identifier of a seat.
#[derive(Clone, Copy, Debug, PartialEq, Eq, Structural, PartialOrd, Ord, Hash)]
pub struct SeatId(pub u64);

/// Identifier of a ticket.
#[derive(Clone, Copy, Debug, PartialEq, Eq, Structural, PartialOrd, Ord, Hash)]
pub struct TicketId(pub u64);

/// Identifier of a scheduled departure.
#[derive(Clone, Copy, Debug, PartialEq, Eq, Structural, PartialOrd, Ord, Hash)]
pub struct ScheduledDepartureId(pub u64);

} // verus!
