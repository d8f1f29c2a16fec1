use attractors::progress::Progress;

#[test]
fn progress_new_disabled_is_none() {
    assert!(Progress::new("iterate", 10, false, 0).is_none());
    let p = Progress::new("iterate", 10, true, 123).unwrap();
    assert_eq!(p.label(), "iterate");
    assert_eq!(p.total(), 10);
    assert_eq!(p.current(), 0);
    assert_eq!(p.started_ms(), 123);
}

#[test]
fn progress_set_prints_first_then_waits_the_interval() {
    let mut p = Progress::new("write", 100, true, 1_000).unwrap();
    assert!(p.set(10, 1_000));
    assert!(!p.set(20, 1_100));
    assert!(!p.set(30, 1_249));
    assert!(p.set(40, 1_250));
    assert_eq!(p.current(), 40);
    assert!(!p.set(50, 1_300));
}

#[test]
fn progress_set_clamps_and_prints_when_complete() {
    let mut p = Progress::new("write", 100, true, 0).unwrap();
    assert!(p.set(1, 0));
    assert!(p.set(500, 10));
    assert_eq!(p.current(), 100);
    assert!(p.set(100, 20));
}

#[test]
fn progress_set_with_a_clock_going_back_waits() {
    let mut p = Progress::new("write", 100, true, 5_000).unwrap();
    assert!(p.set(1, 5_000));
    assert!(!p.set(2, 4_000));
}

#[test]
fn progress_finish_completes_once() {
    let mut p = Progress::new("iterate", 10, true, 0).unwrap();
    p.set(3, 0);
    assert!(p.finish());
    assert_eq!(p.current(), 10);
    assert!(!p.finish());
    let mut empty = Progress::new("iterate", 0, true, 0).unwrap();
    assert!(!empty.finish());
}
