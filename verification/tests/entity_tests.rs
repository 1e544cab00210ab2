use railstore::constants::{
    table_departures_by_time, table_departures_by_train, table_schedules, table_seats,
    table_tickets, table_tickets_by_departure, table_trains,
};
use railstore::database::{Database, Table};
use railstore::id_types::{ScheduledDepartureId, SeatId, TicketId, TrainId};
use railstore::schedule::{create_schedule, list_after_time, list_schedules, ScheduledDeparture};
use railstore::ticket::{create_ticket, delete_ticket, edit_ticket, Ticket};
use railstore::train::{
    available_seats, create_seat, create_train, get_train, list_seats, list_tickets, list_trains,
    Seat, Train,
};

fn fresh_table(db: &Database, name: &str) -> Table {
    let mut t = db.open_table(name).unwrap();
    db.clear_table(&mut t).unwrap();
    t
}

fn ticket(id: u64, seat: u64, train: u64, departure: u64, name: &str) -> Ticket {
    Ticket {
        id: TicketId(id),
        seat: SeatId(seat),
        train: TrainId(train),
        departure: ScheduledDepartureId(departure),
        customer_name: String::from(name),
        price_paid: 1500,
    }
}

#[test]
fn train_create_get_list() {
    let mut db = Database::new();
    db.init("/tmp/railstore_test_train_db").unwrap();
    let mut trains = fresh_table(&db, table_trains());
    let id1 = create_train(&mut db, &mut trains, Train { id: TrainId(0) }).unwrap();
    let id2 = create_train(&mut db, &mut trains, Train { id: TrainId(0) }).unwrap();
    assert_ne!(id1, id2);
    let got = get_train(&db, &trains, id1).unwrap().unwrap();
    assert_eq!(got.id, TrainId(id1));
    assert!(get_train(&db, &trains, id1 + id2 + 1).unwrap().is_none());
    let all = list_trains(&db, &trains).unwrap();
    assert_eq!(all.len(), 2);
}

#[test]
fn seats_scan_by_train() {
    let mut db = Database::new();
    db.init("/tmp/railstore_test_seats_db").unwrap();
    let mut seats = fresh_table(&db, table_seats());
    let s1 = create_seat(
        &mut db,
        &mut seats,
        Seat { id: SeatId(0), train_id: TrainId(1), name: String::from("A1"), price: 100 },
    )
    .unwrap();
    let s2 = create_seat(
        &mut db,
        &mut seats,
        Seat { id: SeatId(0), train_id: TrainId(1), name: String::from("A2"), price: 100 },
    )
    .unwrap();
    create_seat(
        &mut db,
        &mut seats,
        Seat { id: SeatId(0), train_id: TrainId(2), name: String::from("B1"), price: 100 },
    )
    .unwrap();
    let listed = list_seats(&db, &seats, 1).unwrap();
    let ids: Vec<u64> = listed.iter().map(|s| s.id.0).collect();
    assert_eq!(ids, vec![s1.0, s2.0]);
    assert!(s1.0 < s2.0);
}

#[test]
fn ticket_index_follows_primary() {
    let mut db = Database::new();
    db.init("/tmp/railstore_test_ticket_db").unwrap();
    let mut tickets = fresh_table(&db, table_tickets());
    let mut by_departure = fresh_table(&db, table_tickets_by_departure());

    let id = create_ticket(&mut db, &mut tickets, &mut by_departure, ticket(0, 2, 1, 10, "Bob"))
        .unwrap();

    // The ticket appears in the departure index bucket for time slot 10.
    let indexed: Vec<(u64, Ticket)> = db.scan_items_by_prefix(&by_departure, 10).unwrap();
    assert_eq!(indexed.len(), 1);
    assert_eq!(indexed[0].0, id);
    assert_eq!(indexed[0].1.customer_name, "Bob");
    let empty: Vec<(u64, Ticket)> = db.scan_items_by_prefix(&by_departure, 11).unwrap();
    assert!(empty.is_empty());

    // Deleting by primary key cascades into the index.
    delete_ticket(&db, &mut tickets, &mut by_departure, id).unwrap();
    let after: Vec<(u64, Ticket)> = db.scan_items_by_prefix(&by_departure, 10).unwrap();
    assert!(after.is_empty());
    let gone: Option<Ticket> = db.read_item(&tickets, id).unwrap();
    assert!(gone.is_none());
}

#[test]
fn edit_ticket_requires_existence() {
    let mut db = Database::new();
    db.init("/tmp/railstore_test_edit_db").unwrap();
    let mut tickets = fresh_table(&db, table_tickets());
    let mut by_departure = fresh_table(&db, table_tickets_by_departure());

    let missing = edit_ticket(&db, &mut tickets, &mut by_departure, 42, ticket(0, 2, 1, 10, "Eve"))
        .unwrap();
    assert!(!missing);

    let id = create_ticket(&mut db, &mut tickets, &mut by_departure, ticket(0, 2, 1, 10, "Eve"))
        .unwrap();
    let found = edit_ticket(&db, &mut tickets, &mut by_departure, id, ticket(0, 3, 1, 10, "Eve"))
        .unwrap();
    assert!(found);
    let got: Ticket = db.read_item(&tickets, id).unwrap().unwrap();
    assert_eq!(got.seat, SeatId(3));
}

#[test]
fn schedules_and_time_index() {
    let mut db = Database::new();
    db.init("/tmp/railstore_test_sched_db").unwrap();
    let mut schedules = fresh_table(&db, table_schedules());
    let mut by_train = fresh_table(&db, table_departures_by_train());
    let mut by_time = fresh_table(&db, table_departures_by_time());

    let s = ScheduledDeparture { id: ScheduledDepartureId(0), train: TrainId(1), time: 3600 };
    let id = create_schedule(&mut db, &mut schedules, &mut by_train, &mut by_time, s).unwrap();

    let all = list_schedules(&db, &schedules).unwrap();
    assert_eq!(all.len(), 1);
    assert_eq!(all[0].id, ScheduledDepartureId(id));

    let at = list_after_time(&db, &by_time, 3600).unwrap();
    assert_eq!(at.len(), 1);
    assert_eq!(at[0].train, TrainId(1));
    let none = list_after_time(&db, &by_time, 3601).unwrap();
    assert!(none.is_empty());

    let by_tr: Vec<(u64, ScheduledDeparture)> = db.scan_items_by_prefix(&by_train, 1).unwrap();
    assert_eq!(by_tr.len(), 1);
    assert_eq!(by_tr[0].0, id);
}

#[test]
fn available_seats_scenario() {
    let mut db = Database::new();
    db.init("/tmp/railstore_test_avail_db").unwrap();
    let mut trains = fresh_table(&db, table_trains());
    let mut seats = fresh_table(&db, table_seats());
    let mut tickets = fresh_table(&db, table_tickets());
    let mut by_departure = fresh_table(&db, table_tickets_by_departure());

    // Build the exact layout: train 1; seats 2 and 3 under train 1; a
    // ticket for seat 2 at departure 10.
    db.write_item(&mut trains, 1, &Train { id: TrainId(1) }).unwrap();
    let seat2 = Seat { id: SeatId(2), train_id: TrainId(1), name: String::from("S2"), price: 50 };
    let seat3 = Seat { id: SeatId(3), train_id: TrainId(1), name: String::from("S3"), price: 60 };
    db.write_paired_item(&mut seats, 1, 2, &seat2).unwrap();
    db.write_paired_item(&mut seats, 1, 3, &seat3).unwrap();

    let listed = list_seats(&db, &seats, 1).unwrap();
    let ids: Vec<u64> = listed.iter().map(|s| s.id.0).collect();
    assert_eq!(ids, vec![2, 3]);

    let t = ticket(4, 2, 1, 10, "Cara");
    db.write_item(&mut tickets, 4, &t).unwrap();
    db.write_paired_item(&mut by_departure, 10, 4, &t).unwrap();

    let booked = list_tickets(&db, &by_departure, 1, 10).unwrap();
    assert_eq!(booked.len(), 1);
    assert_eq!(booked[0].seat, SeatId(2));

    let free = available_seats(&db, &seats, &by_departure, 1, 10).unwrap();
    let free_ids: Vec<u64> = free.iter().map(|s| s.id.0).collect();
    assert_eq!(free_ids, vec![3]);

    // A ticket for the same departure on another train blocks nothing.
    let other = ticket(5, 3, 9, 10, "Dan");
    db.write_item(&mut tickets, 5, &other).unwrap();
    db.write_paired_item(&mut by_departure, 10, 5, &other).unwrap();
    let still_free = available_seats(&db, &seats, &by_departure, 1, 10).unwrap();
    let still_ids: Vec<u64> = still_free.iter().map(|s| s.id.0).collect();
    assert_eq!(still_ids, vec![3]);
}

#[test]
fn edit_ticket_moves_the_index_entry() {
    let mut db = Database::new();
    db.init("/tmp/railstore_test_editmove_db").unwrap();
    let mut tickets = fresh_table(&db, table_tickets());
    let mut by_departure = fresh_table(&db, table_tickets_by_departure());

    let id = create_ticket(&mut db, &mut tickets, &mut by_departure, ticket(0, 2, 1, 10, "Eve"))
        .unwrap();

    // Move the ticket to departure 11: the stale entry under 10 must go.
    let found = edit_ticket(&db, &mut tickets, &mut by_departure, id, ticket(0, 2, 1, 11, "Eve"))
        .unwrap();
    assert!(found);
    let old_bucket: Vec<(u64, Ticket)> = db.scan_items_by_prefix(&by_departure, 10).unwrap();
    assert!(old_bucket.is_empty());
    let new_bucket: Vec<(u64, Ticket)> = db.scan_items_by_prefix(&by_departure, 11).unwrap();
    assert_eq!(new_bucket.len(), 1);
    assert_eq!(new_bucket[0].0, id);
    assert_eq!(new_bucket[0].1.departure, ScheduledDepartureId(11));

    // Editing without a departure change keeps exactly one entry.
    let found2 = edit_ticket(&db, &mut tickets, &mut by_departure, id, ticket(0, 3, 1, 11, "Eve"))
        .unwrap();
    assert!(found2);
    let bucket: Vec<(u64, Ticket)> = db.scan_items_by_prefix(&by_departure, 11).unwrap();
    assert_eq!(bucket.len(), 1);
    assert_eq!(bucket[0].1.seat, SeatId(3));
}
