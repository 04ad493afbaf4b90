use ctaphid::timer::Timer;

#[test]
fn a_new_timer_stands_at_zero() {
    let timer = Timer::new();
    assert_eq!(timer.now(), 0);
}

#[test]
fn the_timer_follows_the_reported_instants() {
    let mut timer = Timer::new();
    timer.advance(10);
    assert_eq!(timer.now(), 10);
    timer.advance(250);
    assert_eq!(timer.now(), 250);
}

#[test]
fn the_timer_never_runs_backwards() {
    let mut timer = Timer::new();
    timer.advance(100);
    timer.advance(40);
    assert_eq!(timer.now(), 100);
    timer.advance(100);
    assert_eq!(timer.now(), 100);
}

#[test]
fn elapsed_time_is_the_difference() {
    let mut timer = Timer::new();
    timer.advance(700);
    assert_eq!(timer.elapsed_since(200), 500);
    assert_eq!(timer.elapsed_since(700), 0);
    assert_eq!(timer.elapsed_since(0), 700);
}

#[test]
fn a_start_that_lies_ahead_has_no_elapsed_time() {
    let mut timer = Timer::new();
    timer.advance(5);
    assert_eq!(timer.elapsed_since(9), 0);
    assert!(!timer.expired(9, 1));
    assert!(timer.expired(9, 0));
}

#[test]
fn a_window_closes_when_its_length_has_passed() {
    let mut timer = Timer::new();
    timer.advance(499);
    assert!(!timer.expired(0, 500));
    timer.advance(500);
    assert!(timer.expired(0, 500));
    timer.advance(u64::MAX);
    assert!(timer.expired(0, 500));
    assert_eq!(timer.elapsed_since(1), u64::MAX - 1);
}

#[test]
fn reset_puts_the_timer_back_to_zero() {
    let mut timer = Timer::new();
    timer.advance(77);
    timer.reset();
    assert_eq!(timer.now(), 0);
    assert_eq!(timer, Timer::new());
}
