use fldemos::dates::{book_message, cell_day, check_booking, max_days, picked_date, BookingForm};

#[test]
fn one_way_needs_a_valid_start() {
    let f = check_booking(false, "2024-03-01", "garbage");
    assert_eq!(f, BookingForm { start_ok: Some(true), back_ok: None, back_enabled: false, book_enabled: true });
    let g = check_booking(false, "2024-02-30", "2024-03-01");
    assert_eq!(g, BookingForm { start_ok: Some(false), back_ok: None, back_enabled: false, book_enabled: false });
}

#[test]
fn return_flight_needs_ordered_dates() {
    assert!(check_booking(true, "2024-03-01", "2024-03-01").book_enabled);
    assert!(check_booking(true, "2024-03-01", "2024-03-02").book_enabled);
    let f = check_booking(true, "2024-03-02", "2024-03-01");
    assert_eq!(f, BookingForm { start_ok: Some(true), back_ok: Some(true), back_enabled: true, book_enabled: false });
    let g = check_booking(true, "2024-03-02", "soon");
    assert_eq!(g, BookingForm { start_ok: Some(true), back_ok: Some(false), back_enabled: true, book_enabled: false });
}

#[test]
fn booking_messages() {
    assert_eq!(book_message(false, "2024-03-01", "x"), "You have booked a one-way flight for 2024-03-01.");
    assert_eq!(
        book_message(true, "2024-03-01", "2024-03-09"),
        "You have booked a return flight from 2024-03-01 to 2024-03-09"
    );
}

#[test]
fn month_lengths() {
    assert_eq!(max_days(1, 2023), 31);
    assert_eq!(max_days(2, 2023), 28);
    assert_eq!(max_days(2, 2024), 29);
    assert_eq!(max_days(2, 1900), 29);
    assert_eq!(max_days(4, 2024), 30);
    assert_eq!(max_days(12, 2024), 31);
}

#[test]
fn table_cells_show_the_days_of_the_month() {
    assert_eq!(cell_day(0, 0, 2, 2023), Some(1));
    assert_eq!(cell_day(3, 6, 2, 2023), Some(28));
    assert_eq!(cell_day(4, 0, 2, 2023), None);
    assert_eq!(cell_day(4, 2, 1, 2023), Some(31));
    assert_eq!(cell_day(4, 3, 1, 2023), None);
}

#[test]
fn picked_dates() {
    assert_eq!(picked_date(-1, 3, 124, 0), None);
    assert_eq!(picked_date(0, 0, 124, 0), Some((2024, 1, 1)));
    assert_eq!(picked_date(4, 0, 124, 1), Some((2024, 2, 29)));
    assert_eq!(picked_date(4, 0, 0, 1), None);
    assert_eq!(picked_date(4, 2, 123, 3), None);
}

#[test]
fn day_numbers_past_the_month_are_not_dates() {
    assert_eq!(picked_date(0, 6, 124, 0), Some((2024, 1, 7)));
    assert_eq!(picked_date(-1, -1, 124, 0), None);
    assert_eq!(cell_day(-1, 0, 1, 2024), Some(-6));
}
