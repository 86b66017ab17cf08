use frame::storage::card::ReadStep;
use frame::storage::{FixedTimeSource, SpiFullDuplex, Timestamp};

#[test]
fn read_without_send_clocks_ff() {
    let mut a = SpiFullDuplex::new(7u8);
    assert_eq!(a.begin_read(), ReadStep::Transfer(0xFF));
    assert_eq!(*a.bus_mut(), 7);
}

#[test]
fn read_after_send_returns_the_byte_clocked_in() {
    let mut a = SpiFullDuplex::new(());
    a.finish_send(0x42);
    assert_eq!(a.begin_read(), ReadStep::Ready(0x42));
    assert_eq!(a.begin_read(), ReadStep::Transfer(0xFF));
}

#[test]
fn only_the_last_send_is_kept() {
    let mut a = SpiFullDuplex::new(());
    a.finish_send(1);
    a.finish_send(2);
    assert_eq!(a.begin_read(), ReadStep::Ready(2));
}

#[test]
fn fixed_time_is_start_of_2026() {
    let t = FixedTimeSource.get_timestamp();
    assert_eq!(
        t,
        Timestamp {
            year_since_1970: 56,
            zero_indexed_month: 0,
            zero_indexed_day: 0,
            hours: 0,
            minutes: 0,
            seconds: 0,
        }
    );
}
