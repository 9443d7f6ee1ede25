use vela::watermark::WatermarkState;

#[test]
fn watermark_advances_when_begun_indices_are_done() {
    let mut w = WatermarkState::new();
    assert_eq!(w.process_one(1, false), (0, 0));
    assert_eq!(w.process_one(2, false), (0, 0));
    assert_eq!(w.process_one(3, false), (0, 0));
    // 2 is done but 1 is not: the watermark stays
    assert_eq!(w.process_one(2, true), (0, 0));
    assert!(w.should_wait(2));
    // 1 done: the watermark moves past 1 and 2, and stops at 3
    assert_eq!(w.process_one(1, true), (0, 2));
    assert_eq!(w.done_until(), 2);
    assert!(!w.should_wait(2));
    assert!(w.should_wait(3));
    assert_eq!(w.process_one(3, true), (2, 3));
}

#[test]
fn watermark_waits_for_every_begin() {
    let mut w = WatermarkState::new();
    w.process_one(5, false);
    w.process_one(5, false);
    w.process_one(5, true);
    assert_eq!(w.done_until(), 0);
    w.process_one(5, true);
    assert_eq!(w.done_until(), 5);
}

#[test]
fn watermark_set_done_until() {
    let mut w = WatermarkState::new();
    w.set_done_until(10);
    assert_eq!(w.done_until(), 10);
    assert_eq!(w.process_one(12, true), (10, 12));
}
