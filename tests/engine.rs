use gtdtxt::engine::{prep_pretty, Counter, Engine};
use gtdtxt::ticks::ElapsedCounter;

#[test]
fn suffix_by_mode() {
    assert_eq!(prep_pretty(String::from("1 minute"), &Counter::CountUp), "1 minute passed");
    assert_eq!(prep_pretty(String::from("1 minute"), &Counter::CountDown(60)), "1 minute left");
}

#[test]
fn countdown_runs_to_zero() {
    let (mut e, first) = Engine::start(Counter::CountDown(3));
    assert_eq!(first, "3 seconds left");
    assert!(!e.is_finished());
    assert_eq!(e.observe(0), None);
    assert_eq!(e.observe(1), Some(String::from("2 seconds left")));
    assert_eq!(e.observe(1), None);
    assert!(!e.is_finished());
    assert_eq!(e.observe(3), Some(String::from("0 second left ")));
    assert!(e.is_finished());
    assert_eq!(e.shown(), 0);
    assert_eq!(e.observe(4), None);
    assert_eq!(e.shown(), 0);
}

#[test]
fn countdown_past_target_shows_zero() {
    let (mut e, _) = Engine::start(Counter::CountDown(2));
    assert_eq!(e.observe(10), Some(String::from("0 second left ")));
    assert!(e.is_finished());
}

#[test]
fn zero_countdown_is_over_at_once() {
    let (e, first) = Engine::start(Counter::CountDown(0));
    assert_eq!(first, "0 second left");
    assert!(e.is_finished());
}

#[test]
fn shorter_line_is_padded() {
    let (mut e, first) = Engine::start(Counter::CountDown(61));
    assert_eq!(first, "1 minute and 1 second left");
    let line = e.observe(1).unwrap();
    assert_eq!(line, format!("1 minute left{}", " ".repeat(13)));
}

#[test]
fn count_up_never_finishes() {
    let (mut e, first) = Engine::start(Counter::CountUp);
    assert_eq!(first, "0 second passed");
    assert_eq!(e.observe(5), Some(String::from("5 seconds passed")));
    assert_eq!(e.observe(3600), Some(String::from("1 hour passed   ")));
    assert!(!e.is_finished());
    assert_eq!(e.shown(), 3600);
    assert_eq!(e.mode(), Counter::CountUp);
}

#[test]
fn shown_value_is_monotone() {
    let (mut down, _) = Engine::start(Counter::CountDown(10));
    let (mut up, _) = Engine::start(Counter::CountUp);
    let mut last_down = down.shown();
    let mut last_up = up.shown();
    for c in [3u64, 1, 2, 5, 4, 9, 7, 12] {
        down.observe(c);
        up.observe(c);
        assert!(down.shown() <= last_down);
        assert!(up.shown() >= last_up);
        last_down = down.shown();
        last_up = up.shown();
    }
    assert_eq!(down.shown(), 0);
    assert_eq!(up.shown(), 12);
}

#[test]
fn elapsed_counter_ticks_by_one() {
    let mut c = ElapsedCounter::new();
    assert_eq!(c.get(), 0);
    c.tick();
    c.tick();
    assert_eq!(c.get(), 2);
}
