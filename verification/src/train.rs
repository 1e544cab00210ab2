//! Trains and seats: records, and the operations entity callers use.

use vstd::prelude::*;
use crate::codec::{spec_record_bytes, spec_record_of_bytes, Record};
use crate::database::{pair_values, read_all_error, read_all_post, read_error, scan_error, scan_post, Database, Table};
use crate::errors::StorageError;
use crate::id_types::{SeatId, TrainId};
use crate::keys::{spec_encode_pair, spec_encode_single};
use crate::ticket::Ticket;

verus! {

/// A train: nothing but an auto-assigned identifier.
#[derive(Debug)]
pub struct Train {
    /// An auto-incremented identifier with no inherent meaning.
    pub id: TrainId,
}

/// The abstract value of a [`Train`].
pub struct TrainView {
    pub id: u64,
}

impl View for Train {
    type V = TrainView;

    open spec fn view(&self) -> TrainView {
        TrainView { id: self.id.0 }
    }
}

impl Record for Train {
    open spec fn model_flat(m: TrainView) -> (Seq<u64>, Seq<char>) {
        (seq![m.id], Seq::empty())
    }

    open spec fn model_unflat(nums: Seq<u64>, text: Seq<char>) -> Option<TrainView> {
        if nums.len() == 1 {
            Some(TrainView { id: nums[0] })
        } else {
            None
        }
    }

    proof fn lemma_flat_round_trip(m: TrainView) {
    }

    fn flat_nums(&self) -> (r: Vec<u64>) {
        let mut v: Vec<u64> = Vec::new();
        v.push(self.id.0);
        proof {
            assert(v@ =~= seq![self.id.0]);
        }
        v
    }

    fn flat_text(&self) -> (r: &str) {
        let s: &str = "";
        proof {
            reveal_strlit("");
            assert(s@ =~= Seq::<char>::empty());
        }
        s
    }

    fn of_flat(nums: Vec<u64>, _text: String) -> (r: Option<Train>) {
        if nums.len() == 1 {
            Some(Train { id: TrainId(nums[0]) })
        } else {
            None
        }
    }
}

/// A seat on a train, priced in minor currency units.
#[derive(Debug)]
pub struct Seat {
    /// An auto-incremented identifier with no inherent meaning.
    pub id: SeatId,
    /// The train this seat is located on.
    pub train_id: TrainId,
    /// The display name of the seat or seating class.
    pub name: String,
    /// The price to book this seat, excluding fees, in minor units.
    pub price: u64,
}

/// The abstract value of a [`Seat`].
pub struct SeatView {
    pub id: u64,
    pub train_id: u64,
    pub name: Seq<char>,
    pub price: u64,
}

impl View for Seat {
    type V = SeatView;

    open spec fn view(&self) -> SeatView {
        SeatView { id: self.id.0, train_id: self.train_id.0, name: self.name@, price: self.price }
    }
}

impl Record for Seat {
    open spec fn model_flat(m: SeatView) -> (Seq<u64>, Seq<char>) {
        (seq![m.id, m.train_id, m.price], m.name)
    }

    open spec fn model_unflat(nums: Seq<u64>, text: Seq<char>) -> Option<SeatView> {
        if nums.len() == 3 {
            Some(SeatView { id: nums[0], train_id: nums[1], name: text, price: nums[2] })
        } else {
            None
        }
    }

    proof fn lemma_flat_round_trip(m: SeatView) {
    }

    fn flat_nums(&self) -> (r: Vec<u64>) {
        let mut v: Vec<u64> = Vec::new();
        v.push(self.id.0);
        v.push(self.train_id.0);
        v.push(self.price);
        proof {
            assert(v@ =~= seq![self.id.0, self.train_id.0, self.price]);
        }
        v
    }

    fn flat_text(&self) -> (r: &str) {
        self.name.as_str()
    }

    fn of_flat(nums: Vec<u64>, text: String) -> (r: Option<Seat>) {
        if nums.len() == 3 {
            Some(
                Seat {
                    id: SeatId(nums[0]),
                    train_id: TrainId(nums[1]),
                    name: text,
                    price: nums[2],
                },
            )
        } else {
            None
        }
    }
}

/// Whether some ticket among the scanned pairs books this seat on this
/// train.
pub open spec fn seat_taken(titems: Seq<(u64, Ticket)>, train_id: u64, seat: u64) -> bool {
    exists|j: int|
        0 <= j < titems.len() && (#[trigger] titems[j]).1@.train == train_id
            && titems[j].1@.seat == seat
}

/// Create a train under a freshly allocated identifier; the stored
/// record carries that identifier. Returns the identifier.
pub fn create_train(db: &mut Database, trains: &mut Table, train: Train) -> (r: Result<
    u64,
    StorageError,
>)
    ensures
        final(db).is_init() == old(db).is_init(),
        r matches Ok(id) ==> ({
            &&& old(db).allocator_floor() <= id < final(db).allocator_floor()
            &&& final(trains)@ == old(trains)@.insert(
                spec_encode_single(id),
                spec_record_bytes::<Train>(TrainView { id: id }),
            )
            &&& spec_record_of_bytes::<Train>(spec_record_bytes::<Train>(TrainView { id: id }))
                == Some(TrainView { id: id })
        }),
        r matches Err(e) ==> e == StorageError::StorageUnavailable
            || e == StorageError::AllocatorExhausted,
{
    let id = match db.get_monotonic_id() {
        Ok(i) => i,
        Err(e) => {
            return Err(e);
        },
    };
    let mut t = train;
    t.id = TrainId(id);
    match db.write_item::<Train>(trains, id, &t) {
        Ok(()) => Ok(id),
        Err(e) => Err(e),
    }
}

/// Fetch one train by identifier; absence is not an error.
pub fn get_train(db: &Database, trains: &Table, id: u64) -> (r: Result<
    Option<Train>,
    StorageError,
>)
    ensures
        r matches Ok(Some(v)) ==> trains@.contains_key(spec_encode_single(id))
            && spec_record_of_bytes::<Train>(trains@[spec_encode_single(id)]) == Some(v@),
        (r matches Ok(o) && o is None) ==> !trains@.contains_key(spec_encode_single(id)),
        r matches Err(e) ==> read_error::<Train>(trains@, spec_encode_single(id), e),
{
    db.read_item::<Train>(trains, id)
}

/// List every train in the primary table.
pub fn list_trains(db: &Database, trains: &Table) -> (r: Result<Vec<Train>, StorageError>)
    ensures
        r matches Ok(vs) ==> read_all_post::<Train>(trains@, vs@),
        r matches Err(e) ==> read_all_error::<Train>(trains@, e),
{
    db.read_all::<Train>(trains)
}

/// Create a seat under a freshly allocated identifier, stored in the
/// seat index keyed by (train, seat identifier). Returns the new seat
/// identifier.
pub fn create_seat(db: &mut Database, seats: &mut Table, seat: Seat) -> (r: Result<
    SeatId,
    StorageError,
>)
    ensures
        final(db).is_init() == old(db).is_init(),
        r matches Ok(sid) ==> ({
            let m = SeatView { id: sid.0, ..seat@ };
            &&& old(db).allocator_floor() <= sid.0 < final(db).allocator_floor()
            &&& final(seats)@ == old(seats)@.insert(
                spec_encode_pair(seat@.train_id, sid.0),
                spec_record_bytes::<Seat>(m),
            )
            &&& spec_record_of_bytes::<Seat>(spec_record_bytes::<Seat>(m)) == Some(m)
        }),
        r matches Err(e) ==> e == StorageError::StorageUnavailable
            || e == StorageError::AllocatorExhausted,
{
    let id = match db.get_monotonic_id() {
        Ok(i) => i,
        Err(e) => {
            return Err(e);
        },
    };
    let mut st = seat;
    st.id = SeatId(id);
    match db.write_paired_item::<Seat>(seats, st.train_id.0, id, &st) {
        Ok(()) => Ok(SeatId(id)),
        Err(e) => Err(e),
    }
}

/// List the seats of one train, in ascending seat-identifier order: the
/// seat index bucket for that train.
pub fn list_seats(db: &Database, seats: &Table, train_id: u64) -> (r: Result<
    Vec<Seat>,
    StorageError,
>)
    ensures
        r matches Ok(vs) ==> exists|items: Seq<(u64, Seat)>|
            #[trigger] scan_post::<Seat>(seats@, train_id, items) && vs@.map_values(
                |s: Seat| s@,
            ) == items.map_values(|p: (u64, Seat)| p.1@),
        r matches Err(e) ==> scan_error::<Seat>(seats@, train_id, e),
{
    let items = match db.scan_items_by_prefix::<Seat>(seats, train_id) {
        Ok(v) => v,
        Err(e) => {
            return Err(e);
        },
    };
    let ghost gitems = items@;
    let vs = pair_values::<Seat>(items);
    proof {
        assert(scan_post::<Seat>(seats@, train_id, gitems) && vs@.map_values(|s: Seat| s@)
            == gitems.map_values(|p: (u64, Seat)| p.1@));
    }
    Ok(vs)
}

/// List the tickets booked for one timeslot on one train: the departure
/// index bucket for the timeslot, narrowed to this train's tickets,
/// ordered by ticket identifier.
pub fn list_tickets(
    db: &Database,
    tickets_by_departure: &Table,
    train_id: u64,
    schedule_id: u64,
) -> (r: Result<Vec<Ticket>, StorageError>)
    ensures
        r matches Ok(vs) ==> exists|items: Seq<(u64, Ticket)>|
            #[trigger] scan_post::<Ticket>(tickets_by_departure@, schedule_id, items)
                && vs@.map_values(|t: Ticket| t@) == items.map_values(
                |p: (u64, Ticket)| p.1@,
            ).filter(|m: crate::ticket::TicketView| m.train == train_id),
        r matches Err(e) ==> scan_error::<Ticket>(tickets_by_departure@, schedule_id, e),
{
    let items = match db.scan_items_by_prefix::<Ticket>(tickets_by_departure, schedule_id) {
        Ok(v) => v,
        Err(e) => {
            return Err(e);
        },
    };
    let ghost items0 = items@;
    let mut rest = items;
    let _n: usize = rest.len();
    let mut out: Vec<Ticket> = Vec::new();
    let mut idx: usize = 0;
    while rest.len() > 0
        invariant
            idx + rest@.len() == items0.len(),
            items0.len() <= usize::MAX,
            rest@ =~= items0.subrange(idx as int, items0.len() as int),
            out@.map_values(|t: Ticket| t@) == items0.subrange(0, idx as int).map_values(
                |p: (u64, Ticket)| p.1@,
            ).filter(|m: crate::ticket::TicketView| m.train == train_id),
        decreases rest@.len(),
    {
        let ghost prev = items0.subrange(0, idx as int).map_values(|p: (u64, Ticket)| p.1@);
        let ghost cur = items0.subrange(0, idx + 1 as int).map_values(|p: (u64, Ticket)| p.1@);
        let ghost out_prev = out@;
        let p = rest.remove(0);
        proof {
            assert(p == items0[idx as int]);
            assert(cur =~= prev.push(items0[idx as int].1@));
            assert(cur.drop_last() =~= prev);
            assert(cur.last() == items0[idx as int].1@);
            reveal(Seq::filter);
            assert(cur.filter(|m: crate::ticket::TicketView| m.train == train_id) == (if (items0[
                idx as int
            ].1@).train == train_id {
                prev.filter(|m: crate::ticket::TicketView| m.train == train_id).push(
                    items0[idx as int].1@,
                )
            } else {
                prev.filter(|m: crate::ticket::TicketView| m.train == train_id)
            }));
        }
        if p.1.train.0 == train_id {
            out.push(p.1);
            proof {
                assert(out@ =~= out_prev.push(items0[idx as int].1));
                assert(out@.map_values(|t: Ticket| t@) =~= out_prev.map_values(
                    |t: Ticket| t@,
                ).push(items0[idx as int].1@));
            }
        }
        proof {
            assert(rest@ =~= items0.subrange(idx + 1 as int, items0.len() as int));
            assert(out@.map_values(|t: Ticket| t@) == cur.filter(
                |m: crate::ticket::TicketView| m.train == train_id,
            ));
        }
        idx += 1;
    }
    proof {
        reveal(Seq::filter);
        assert(items0.subrange(0, idx as int) =~= items0);
        assert(scan_post::<Ticket>(tickets_by_departure@, schedule_id, items0)
            && out@.map_values(|t: Ticket| t@) == items0.map_values(
            |p: (u64, Ticket)| p.1@,
        ).filter(|m: crate::ticket::TicketView| m.train == train_id));
    }
    Ok(out)
}

/// List the seats of one train that no ticket books for one timeslot:
/// the seat index bucket for the train, minus every seat that a ticket
/// of this train in the timeslot's departure index bucket books.
pub fn available_seats(
    db: &Database,
    seats: &Table,
    tickets_by_departure: &Table,
    train_id: u64,
    schedule_id: u64,
) -> (r: Result<Vec<Seat>, StorageError>)
    ensures
        r matches Ok(vs) ==> exists|sitems: Seq<(u64, Seat)>, titems: Seq<(u64, Ticket)>|
            scan_post::<Seat>(seats@, train_id, sitems) && scan_post::<Ticket>(
                tickets_by_departure@,
                schedule_id,
                titems,
            ) && vs@.map_values(|s: Seat| s@) == sitems.filter(
                |q: (u64, Seat)| !seat_taken(titems, train_id, q.0),
            ).map_values(|q: (u64, Seat)| q.1@),
        r matches Err(e) ==> scan_error::<Seat>(seats@, train_id, e) || scan_error::<Ticket>(
            tickets_by_departure@,
            schedule_id,
            e,
        ),
{
    let sitems = match db.scan_items_by_prefix::<Seat>(seats, train_id) {
        Ok(v) => v,
        Err(e) => {
            return Err(e);
        },
    };
    let titems = match db.scan_items_by_prefix::<Ticket>(tickets_by_departure, schedule_id) {
        Ok(v) => v,
        Err(e) => {
            return Err(e);
        },
    };
    let ghost s0 = sitems@;
    let ghost t0 = titems@;
    let mut rest = sitems;
    let _n: usize = rest.len();
    let mut out: Vec<Seat> = Vec::new();
    let mut idx: usize = 0;
    while rest.len() > 0
        invariant
            idx + rest@.len() == s0.len(),
            s0.len() <= usize::MAX,
            rest@ =~= s0.subrange(idx as int, s0.len() as int),
            t0 == titems@,
            out@.map_values(|s: Seat| s@) == s0.subrange(0, idx as int).filter(
                |q: (u64, Seat)| !seat_taken(t0, train_id, q.0),
            ).map_values(|q: (u64, Seat)| q.1@),
        decreases rest@.len(),
    {
        let ghost prev = s0.subrange(0, idx as int);
        let ghost cur = s0.subrange(0, idx + 1 as int);
        let ghost out_prev = out@;
        let p = rest.remove(0);
        proof {
            assert(p == s0[idx as int]);
            assert(cur =~= prev.push(s0[idx as int]));
            assert(cur.drop_last() =~= prev);
            assert(cur.last() == s0[idx as int]);
        }
        let sid = p.0;
        let mut taken = false;
        let mut j: usize = 0;
        while j < titems.len()
            invariant
                j <= titems@.len(),
                t0 == titems@,
                sid == s0[idx as int].0,
                idx < s0.len(),
                taken == exists|x: int|
                    0 <= x < j && (#[trigger] t0[x]).1@.train == train_id && t0[x].1@.seat == sid,
            decreases titems@.len() - j,
        {
            if titems[j].1.train.0 == train_id && titems[j].1.seat.0 == sid {
                taken = true;
            }
            j += 1;
        }
        proof {
            assert(taken == seat_taken(t0, train_id, sid));
            reveal(Seq::filter);
            assert(cur.filter(|q: (u64, Seat)| !seat_taken(t0, train_id, q.0)) == (if !seat_taken(
                t0,
                train_id,
                s0[idx as int].0,
            ) {
                prev.filter(|q: (u64, Seat)| !seat_taken(t0, train_id, q.0)).push(s0[idx as int])
            } else {
                prev.filter(|q: (u64, Seat)| !seat_taken(t0, train_id, q.0))
            }));
        }
        if !taken {
            out.push(p.1);
            proof {
                assert(out@ =~= out_prev.push(s0[idx as int].1));
                assert(out@.map_values(|s: Seat| s@) =~= out_prev.map_values(|s: Seat| s@).push(
                    s0[idx as int].1@,
                ));
                assert(prev.filter(|q: (u64, Seat)| !seat_taken(t0, train_id, q.0)).push(
                    s0[idx as int],
                ).map_values(|q: (u64, Seat)| q.1@) =~= prev.filter(
                    |q: (u64, Seat)| !seat_taken(t0, train_id, q.0),
                ).map_values(|q: (u64, Seat)| q.1@).push(s0[idx as int].1@));
            }
        }
        proof {
            assert(rest@ =~= s0.subrange(idx + 1 as int, s0.len() as int));
            assert(out@.map_values(|s: Seat| s@) == cur.filter(
                |q: (u64, Seat)| !seat_taken(t0, train_id, q.0),
            ).map_values(|q: (u64, Seat)| q.1@));
        }
        idx += 1;
    }
    proof {
        reveal(Seq::filter);
        assert(s0.subrange(0, idx as int) =~= s0);
        assert(scan_post::<Seat>(seats@, train_id, s0) && scan_post::<Ticket>(
            tickets_by_departure@,
            schedule_id,
            t0,
        ) && out@.map_values(|s: Seat| s@) == s0.filter(
            |q: (u64, Seat)| !seat_taken(t0, train_id, q.0),
        ).map_values(|q: (u64, Seat)| q.1@));
    }
    Ok(out)
}

} // verus!
