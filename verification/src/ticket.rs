//! Tickets: the record, and the index-maintaining operations.
//!
//! A ticket lives in its primary table under its own identifier and is
//! mirrored into a composite-key index table under (departure, ticket).
//! The record's own identifier is always the trailing key component, so
//! a delete by primary key can cascade into the index using only the
//! just-deleted value, with no reverse lookup.

use vstd::prelude::*;
use crate::codec::{spec_record_bytes, spec_record_of_bytes, Record};
use crate::database::{Database, Table};
use crate::errors::StorageError;
use crate::id_types::{ScheduledDepartureId, SeatId, TicketId, TrainId};
use crate::keys::{spec_encode_pair, spec_encode_single};

verus! {

/// A booked ticket.
#[derive(Debug)]
pub struct Ticket {
    /// An auto-incremented identifier for this ticket.
    pub id: TicketId,
    /// The seat this ticket is booking.
    pub seat: SeatId,
    /// The train this ticket is associated with.
    pub train: TrainId,
    /// The timeslot that this ticket is for.
    pub departure: ScheduledDepartureId,
    /// The name of the customer associated with this ticket.
    pub customer_name: String,
    /// The price the customer paid, fees included, in minor units.
    pub price_paid: u64,
}

/// The abstract value of a [`Ticket`].
pub struct TicketView {
    pub id: u64,
    pub seat: u64,
    pub train: u64,
    pub departure: u64,
    pub customer_name: Seq<char>,
    pub price_paid: u64,
}

impl View for Ticket {
    type V = TicketView;

    open spec fn view(&self) -> TicketView {
        TicketView {
            id: self.id.0,
            seat: self.seat.0,
            train: self.train.0,
            departure: self.departure.0,
            customer_name: self.customer_name@,
            price_paid: self.price_paid,
        }
    }
}

impl Record for Ticket {
    open spec fn model_flat(m: TicketView) -> (Seq<u64>, Seq<char>) {
        (seq![m.id, m.seat, m.train, m.departure, m.price_paid], m.customer_name)
    }

    open spec fn model_unflat(nums: Seq<u64>, text: Seq<char>) -> Option<TicketView> {
        if nums.len() == 5 {
            Some(
                TicketView {
                    id: nums[0],
                    seat: nums[1],
                    train: nums[2],
                    departure: nums[3],
                    customer_name: text,
                    price_paid: nums[4],
                },
            )
        } else {
            None
        }
    }

    proof fn lemma_flat_round_trip(m: TicketView) {
    }

    fn flat_nums(&self) -> (r: Vec<u64>) {
        let mut v: Vec<u64> = Vec::new();
        v.push(self.id.0);
        v.push(self.seat.0);
        v.push(self.train.0);
        v.push(self.departure.0);
        v.push(self.price_paid);
        proof {
            assert(v@ =~= seq![
                self.id.0,
                self.seat.0,
                self.train.0,
                self.departure.0,
                self.price_paid,
            ]);
        }
        v
    }

    fn flat_text(&self) -> (r: &str) {
        self.customer_name.as_str()
    }

    fn of_flat(nums: Vec<u64>, text: String) -> (r: Option<Ticket>) {
        if nums.len() == 5 {
            Some(
                Ticket {
                    id: TicketId(nums[0]),
                    seat: SeatId(nums[1]),
                    train: TrainId(nums[2]),
                    departure: ScheduledDepartureId(nums[3]),
                    customer_name: text,
                    price_paid: nums[4],
                },
            )
        } else {
            None
        }
    }
}

/// Create a ticket under a freshly allocated identifier: the primary
/// table is written first, then the departure index entry keyed by
/// (departure, ticket identifier). Returns the new identifier.
pub fn create_ticket(
    db: &mut Database,
    tickets: &mut Table,
    by_departure: &mut Table,
    ticket: Ticket,
) -> (r: Result<u64, StorageError>)
    ensures
        final(db).is_init() == old(db).is_init(),
        r matches Ok(id) ==> ({
            let m = TicketView { id: id, ..ticket@ };
            &&& old(db).allocator_floor() <= id < final(db).allocator_floor()
            &&& final(tickets)@ == old(tickets)@.insert(
                spec_encode_single(id),
                spec_record_bytes::<Ticket>(m),
            )
            &&& final(by_departure)@ == old(by_departure)@.insert(
                spec_encode_pair(ticket@.departure, id),
                spec_record_bytes::<Ticket>(m),
            )
            &&& spec_record_of_bytes::<Ticket>(spec_record_bytes::<Ticket>(m)) == Some(m)
        }),
        r matches Err(e) ==> e == StorageError::StorageUnavailable
            || e == StorageError::AllocatorExhausted,
{
    let id = match db.get_monotonic_id() {
        Ok(i) => i,
        Err(e) => {
            return Err(e);
        },
    };
    let mut t = ticket;
    t.id = TicketId(id);
    match db.write_item::<Ticket>(tickets, id, &t) {
        Ok(()) => {},
        Err(e) => {
            return Err(e);
        },
    }
    match db.write_paired_item::<Ticket>(by_departure, t.departure.0, id, &t) {
        Ok(()) => Ok(id),
        Err(e) => Err(e),
    }
}

/// Rewrite an existing ticket under a caller-supplied identifier,
/// keeping the departure index exact: the stored record names the old
/// departure, so when the departure changed the stale index entry is
/// deleted before the fresh one is written. Returns whether the ticket
/// existed; nothing is written when it did not.
pub fn edit_ticket(
    db: &Database,
    tickets: &mut Table,
    by_departure: &mut Table,
    id: u64,
    ticket: Ticket,
) -> (r: Result<bool, StorageError>)
    ensures
        r matches Ok(found) ==> ({
            let m = TicketView { id: id, ..ticket@ };
            if found {
                &&& old(tickets)@.contains_key(spec_encode_single(id))
                &&& final(tickets)@ == old(tickets)@.insert(
                    spec_encode_single(id),
                    spec_record_bytes::<Ticket>(m),
                )
                &&& match spec_record_of_bytes::<Ticket>(old(tickets)@[spec_encode_single(id)]) {
                    Some(om) => final(by_departure)@ == old(by_departure)@.remove(
                        spec_encode_pair(om.departure, id),
                    ).insert(spec_encode_pair(ticket@.departure, id), spec_record_bytes::<Ticket>(m)),
                    None => false,
                }
                &&& spec_record_of_bytes::<Ticket>(spec_record_bytes::<Ticket>(m)) == Some(m)
            } else {
                &&& !old(tickets)@.contains_key(spec_encode_single(id))
                &&& *final(tickets) == *old(tickets)
                &&& *final(by_departure) == *old(by_departure)
            }
        }),
        r matches Err(e) ==> e == StorageError::StorageUnavailable
            || e == StorageError::DecodeError,
{
    let prev = match db.read_item::<Ticket>(tickets, id) {
        Ok(p) => p,
        Err(e) => {
            return Err(e);
        },
    };
    let old_t = match prev {
        Some(t) => t,
        None => {
            return Ok(false);
        },
    };
    if old_t.departure.0 != ticket.departure.0 {
        match db.delete_paired_item::<Ticket>(by_departure, old_t.departure.0, id) {
            Ok(_) => {},
            Err(e) => {
                return Err(e);
            },
        }
    }
    let mut t = ticket;
    t.id = TicketId(id);
    match db.write_item::<Ticket>(tickets, id, &t) {
        Ok(()) => {},
        Err(e) => {
            return Err(e);
        },
    }
    match db.write_paired_item::<Ticket>(by_departure, t.departure.0, id, &t) {
        Ok(()) => {
            proof {
                if old_t@.departure == t@.departure {
                    assert(old(by_departure)@.remove(
                        spec_encode_pair(old_t@.departure, id),
                    ).insert(
                        spec_encode_pair(t@.departure, id),
                        spec_record_bytes::<Ticket>(t@),
                    ) =~= old(by_departure)@.insert(
                        spec_encode_pair(t@.departure, id),
                        spec_record_bytes::<Ticket>(t@),
                    ));
                }
            }
            Ok(true)
        },
        Err(e) => Err(e),
    }
}

/// Delete a ticket by identifier. The primary entry is removed first;
/// the departure stored in the just-deleted value then locates the index
/// entry to remove. Where no primary entry existed, no index cleanup is
/// attempted.
pub fn delete_ticket(db: &Database, tickets: &mut Table, by_departure: &mut Table, id: u64) -> (r:
    Result<(), StorageError>)
    ensures
        r is Ok ==> ({
            &&& final(tickets)@ == old(tickets)@.remove(spec_encode_single(id))
            &&& !old(tickets)@.contains_key(spec_encode_single(id)) ==> *final(by_departure)
                == *old(by_departure)
            &&& old(tickets)@.contains_key(spec_encode_single(id))
                ==> match spec_record_of_bytes::<Ticket>(old(tickets)@[spec_encode_single(id)]) {
                Some(m) => final(by_departure)@ == old(by_departure)@.remove(
                    spec_encode_pair(m.departure, id),
                ),
                None => true,
            }
        }),
        r matches Err(e) ==> ({
            &&& e == StorageError::StorageUnavailable || e == StorageError::DecodeError
            &&& e == StorageError::DecodeError ==> final(tickets)@ == old(tickets)@.remove(
                spec_encode_single(id),
            ) && (*final(by_departure) == *old(by_departure) || (
            match spec_record_of_bytes::<Ticket>(old(tickets)@[spec_encode_single(id)]) {
                Some(m) => final(by_departure)@ == old(by_departure)@.remove(
                    spec_encode_pair(m.departure, id),
                ),
                None => false,
            }))
        }),
{
    let prev = match db.delete_item::<Ticket>(tickets, id) {
        Ok(p) => p,
        Err(e) => {
            return Err(e);
        },
    };
    match prev {
        Some(t) => match db.delete_paired_item::<Ticket>(by_departure, t.departure.0, id) {
            Ok(_) => Ok(()),
            Err(e) => Err(e),
        },
        None => Ok(()),
    }
}

} // verus!
