//! Scheduled departures: the record, and the index-maintaining
//! operations.
//!
//! A departure lives in its primary table and is mirrored into two
//! composite-key index tables: one keyed by (train, departure
//! identifier) and one keyed by (time, departure identifier), so that
//! departures can be scanned by train and by timestamp.

use vstd::prelude::*;
use crate::codec::{spec_record_bytes, spec_record_of_bytes, Record};
use crate::database::{pair_values, read_all_error, read_all_post, scan_error, scan_post, Database, Table};
use crate::errors::StorageError;
use crate::id_types::{ScheduledDepartureId, TrainId};
use crate::keys::{spec_encode_pair, spec_encode_single};

verus! {

/// A scheduled departure of a train at a point in time.
#[derive(Debug)]
pub struct ScheduledDeparture {
    /// An auto-incremented identifier with no inherent meaning.
    pub id: ScheduledDepartureId,
    /// The train that departs.
    pub train: TrainId,
    /// Departure time, in seconds since the UNIX epoch.
    pub time: u64,
}

/// The abstract value of a [`ScheduledDeparture`].
pub struct ScheduledDepartureView {
    pub id: u64,
    pub train: u64,
    pub time: u64,
}

impl View for ScheduledDeparture {
    type V = ScheduledDepartureView;

    open spec fn view(&self) -> ScheduledDepartureView {
        ScheduledDepartureView { id: self.id.0, train: self.train.0, time: self.time }
    }
}

impl Record for ScheduledDeparture {
    open spec fn model_flat(m: ScheduledDepartureView) -> (Seq<u64>, Seq<char>) {
        (seq![m.id, m.train, m.time], Seq::empty())
    }

    open spec fn model_unflat(nums: Seq<u64>, text: Seq<char>) -> Option<ScheduledDepartureView> {
        if nums.len() == 3 {
            Some(ScheduledDepartureView { id: nums[0], train: nums[1], time: nums[2] })
        } else {
            None
        }
    }

    proof fn lemma_flat_round_trip(m: ScheduledDepartureView) {
    }

    fn flat_nums(&self) -> (r: Vec<u64>) {
        let mut v: Vec<u64> = Vec::new();
        v.push(self.id.0);
        v.push(self.train.0);
        v.push(self.time);
        proof {
            assert(v@ =~= seq![self.id.0, self.train.0, self.time]);
        }
        v
    }

    fn flat_text(&self) -> (r: &str) {
        let s: &str = "";
        proof {
            reveal_strlit("");
            assert(s@ =~= Seq::<char>::empty());
        }
        s
    }

    fn of_flat(nums: Vec<u64>, _text: String) -> (r: Option<ScheduledDeparture>) {
        if nums.len() == 3 {
            Some(
                ScheduledDeparture {
                    id: ScheduledDepartureId(nums[0]),
                    train: TrainId(nums[1]),
                    time: nums[2],
                },
            )
        } else {
            None
        }
    }
}

/// Create a schedule entry under a freshly allocated identifier and
/// register it with both index tables: by train, then by time, each
/// keyed with the departure's own identifier as the trailing component.
/// Returns the new identifier.
pub fn create_schedule(
    db: &mut Database,
    schedules: &mut Table,
    by_train: &mut Table,
    by_time: &mut Table,
    schedule: ScheduledDeparture,
) -> (r: Result<u64, StorageError>)
    ensures
        final(db).is_init() == old(db).is_init(),
        r matches Ok(id) ==> ({
            let m = ScheduledDepartureView { id: id, ..schedule@ };
            &&& old(db).allocator_floor() <= id < final(db).allocator_floor()
            &&& final(schedules)@ == old(schedules)@.insert(
                spec_encode_single(id),
                spec_record_bytes::<ScheduledDeparture>(m),
            )
            &&& final(by_train)@ == old(by_train)@.insert(
                spec_encode_pair(schedule@.train, id),
                spec_record_bytes::<ScheduledDeparture>(m),
            )
            &&& final(by_time)@ == old(by_time)@.insert(
                spec_encode_pair(schedule@.time, id),
                spec_record_bytes::<ScheduledDeparture>(m),
            )
            &&& spec_record_of_bytes::<ScheduledDeparture>(
                spec_record_bytes::<ScheduledDeparture>(m),
            ) == Some(m)
        }),
        r matches Err(e) ==> e == StorageError::StorageUnavailable
            || e == StorageError::AllocatorExhausted,
{
    let id = match db.get_monotonic_id() {
        Ok(i) => i,
        Err(e) => {
            return Err(e);
        },
    };
    let mut s = schedule;
    s.id = ScheduledDepartureId(id);
    match db.write_item::<ScheduledDeparture>(schedules, id, &s) {
        Ok(()) => {},
        Err(e) => {
            return Err(e);
        },
    }
    match db.write_paired_item::<ScheduledDeparture>(by_train, s.train.0, id, &s) {
        Ok(()) => {},
        Err(e) => {
            return Err(e);
        },
    }
    match db.write_paired_item::<ScheduledDeparture>(by_time, s.time, id, &s) {
        Ok(()) => Ok(id),
        Err(e) => Err(e),
    }
}

/// List every schedule entry of the primary table.
pub fn list_schedules(db: &Database, schedules: &Table) -> (r: Result<
    Vec<ScheduledDeparture>,
    StorageError,
>)
    ensures
        r matches Ok(vs) ==> read_all_post::<ScheduledDeparture>(schedules@, vs@),
        r matches Err(e) ==> read_all_error::<ScheduledDeparture>(schedules@, e),
{
    db.read_all::<ScheduledDeparture>(schedules)
}

/// List the departures registered in the time index under the given
/// timestamp: a prefix scan of the time index by its leading component,
/// ordered by departure identifier. The range primitive this layer
/// offers is the prefix scan, so this selects the bucket at `start`.
pub fn list_after_time(db: &Database, by_time: &Table, start: u64) -> (r: Result<
    Vec<ScheduledDeparture>,
    StorageError,
>)
    ensures
        r matches Ok(vs) ==> exists|items: Seq<(u64, ScheduledDeparture)>|
            #[trigger] scan_post::<ScheduledDeparture>(by_time@, start, items)
                && vs@.map_values(|s: ScheduledDeparture| s@) == items.map_values(
                |p: (u64, ScheduledDeparture)| p.1@,
            ),
        r matches Err(e) ==> scan_error::<ScheduledDeparture>(by_time@, start, e),
{
    let items = match db.scan_items_by_prefix::<ScheduledDeparture>(by_time, start) {
        Ok(v) => v,
        Err(e) => {
            return Err(e);
        },
    };
    let ghost gitems = items@;
    let vs = pair_values::<ScheduledDeparture>(items);
    proof {
        assert(scan_post::<ScheduledDeparture>(by_time@, start, gitems) && vs@.map_values(
            |s: ScheduledDeparture| s@,
        ) == gitems.map_values(|p: (u64, ScheduledDeparture)| p.1@));
    }
    Ok(vs)
}

} // verus!
