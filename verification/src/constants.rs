//! The names of the logical tables in the store.

use vstd::prelude::*;

verus! {

/// Train records by train identifier.
pub fn table_trains() -> &'static str {
    "trains"
}

/// Ticket records by ticket identifier.
pub fn table_tickets() -> &'static str {
    "tickets"
}

/// Schedule records by schedule identifier.
pub fn table_schedules() -> &'static str {
    "schedules"
}

/// Schedule records partitioned by train identifier.
pub fn table_departures_by_train() -> &'static str {
    "departures_by_train"
}

/// Schedule records partitioned by departure time.
pub fn table_departures_by_time() -> &'static str {
    "departures_by_time"
}

/// Seat records partitioned by train identifier.
pub fn table_seats() -> &'static str {
    "seats"
}

/// Ticket records partitioned by schedule identifier.
pub fn table_tickets_by_departure() -> &'static str {
    "tickets_by_departure"
}

} // verus!
