use scrcpy_gui::serial::Serial;

#[test]
fn serial_numbers_count_up() {
    let mut serial = Serial::zero();
    for n in 0..100u64 {
        assert!(serial.same(&Serial::nth(n)));
        assert_eq!(serial, Serial::nth(n));
        serial = serial.next();
    }
    assert!(!serial.same(&Serial::nth(99)));
}

#[test]
fn serial_numbers_go_on_past_a_full_word() {
    let full = Serial::nth(u64::MAX);
    let over = full.next();
    let more = over.next();
    assert!(!over.same(&full));
    assert!(!more.same(&over));
    assert!(!more.same(&full));
    for n in [0, 1, u64::MAX - 1, u64::MAX] {
        assert!(!over.same(&Serial::nth(n)));
        assert!(!more.same(&Serial::nth(n)));
    }
    assert!(Serial::nth(u64::MAX - 1).next().same(&full));
}

#[test]
fn copies_are_the_same_serial_number() {
    let over = Serial::nth(u64::MAX).next().next();
    assert!(over.copy().same(&over));
    assert_eq!(over.clone(), over);
    assert!(over.copy().next().same(&over.next()));
    assert!(Serial::zero().copy().same(&Serial::nth(0)));
}
