use wazir_drop::clock::{Stopwatch, Timer};

#[test]
fn stopwatch_adds_elapsed_time() {
    let mut s = Stopwatch::new();
    assert_eq!(s.get(), 0);
    s.start();
    s.add_elapsed(5);
    assert_eq!(s.get(), 5);
    s.start();
    assert_eq!(s.reading(7), 12);
    assert_eq!(s.reading(u64::MAX), u64::MAX);
    assert_eq!(s.offset_at(20), 15);
    assert_eq!(s.offset_at(3), 0);
    s.add_elapsed(1);
    assert_eq!(s.get(), 6);
    assert_eq!(s.reading(100), 6);
}

#[test]
fn timer_time_left() {
    let t = Timer::new(100);
    assert_eq!(t.get(), 100);
    assert_eq!(t.left_after(30), 70);
    assert_eq!(t.left_after(200), 0);
    assert_eq!(t.get_used(), 0);
}
