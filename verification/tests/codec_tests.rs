use railstore::codec::{decode_record, encode_record};
use railstore::errors::StorageError;
use railstore::id_types::{ScheduledDepartureId, SeatId, TicketId, TrainId};
use railstore::schedule::ScheduledDeparture;
use railstore::ticket::Ticket;
use railstore::train::{Seat, Train};

#[test]
fn train_round_trip() {
    let t = Train { id: TrainId(77) };
    let bytes = encode_record(&t).unwrap();
    let back: Train = decode_record(&bytes).unwrap();
    assert_eq!(back.id, TrainId(77));
}

#[test]
fn seat_round_trip() {
    let s = Seat {
        id: SeatId(3),
        train_id: TrainId(9),
        name: String::from("window 12A"),
        price: 4250,
    };
    let bytes = encode_record(&s).unwrap();
    let back: Seat = decode_record(&bytes).unwrap();
    assert_eq!(back.id, SeatId(3));
    assert_eq!(back.train_id, TrainId(9));
    assert_eq!(back.name, "window 12A");
    assert_eq!(back.price, 4250);
}

#[test]
fn ticket_round_trip() {
    let t = Ticket {
        id: TicketId(11),
        seat: SeatId(4),
        train: TrainId(2),
        departure: ScheduledDepartureId(8),
        customer_name: String::from("Ada Lovelace"),
        price_paid: 9999,
    };
    let bytes = encode_record(&t).unwrap();
    let back: Ticket = decode_record(&bytes).unwrap();
    assert_eq!(back.id, TicketId(11));
    assert_eq!(back.seat, SeatId(4));
    assert_eq!(back.train, TrainId(2));
    assert_eq!(back.departure, ScheduledDepartureId(8));
    assert_eq!(back.customer_name, "Ada Lovelace");
    assert_eq!(back.price_paid, 9999);
}

#[test]
fn schedule_round_trip() {
    let s = ScheduledDeparture {
        id: ScheduledDepartureId(6),
        train: TrainId(2),
        time: 1_700_000_000,
    };
    let bytes = encode_record(&s).unwrap();
    let back: ScheduledDeparture = decode_record(&bytes).unwrap();
    assert_eq!(back.id, ScheduledDepartureId(6));
    assert_eq!(back.train, TrainId(2));
    assert_eq!(back.time, 1_700_000_000);
}

#[test]
fn decode_rejects_foreign_bytes() {
    let garbage: Vec<u8> = vec![0xde, 0xad, 0xbe, 0xef];
    let r: Result<Train, StorageError> = decode_record(&garbage);
    assert_eq!(r.unwrap_err(), StorageError::DecodeError);
}

#[test]
fn decode_rejects_wrong_arity() {
    // A train flattens to one number; a ticket needs five.
    let t = Train { id: TrainId(1) };
    let bytes = encode_record(&t).unwrap();
    let r: Result<Ticket, StorageError> = decode_record(&bytes);
    assert_eq!(r.unwrap_err(), StorageError::DecodeError);
}

#[test]
fn extreme_values_round_trip() {
    let t = Train { id: TrainId(u64::MAX) };
    let bytes = encode_record(&t).unwrap();
    let back: Train = decode_record(&bytes).unwrap();
    assert_eq!(back.id, TrainId(u64::MAX));

    let s = Seat {
        id: SeatId(0),
        train_id: TrainId(u64::MAX),
        name: String::new(),
        price: u64::MAX,
    };
    let bytes = encode_record(&s).unwrap();
    let back: Seat = decode_record(&bytes).unwrap();
    assert_eq!(back.name, "");
    assert_eq!(back.price, u64::MAX);
}
