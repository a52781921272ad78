use complexcity::timer::{Cooldown, RepeatTimer};

#[test]
fn repeat_timer_fires_when_its_period_is_reached() {
    let mut timer = RepeatTimer::from_micros(1_000_000);
    assert!(!timer.tick(400_000));
    assert!(!timer.tick(599_999));
    assert!(timer.tick(1));
    assert_eq!(timer.elapsed, 0);
}

#[test]
fn repeat_timer_keeps_what_is_left_over() {
    let mut timer = RepeatTimer::from_micros(2_900_000);
    assert!(timer.tick(3_000_000));
    assert_eq!(timer.elapsed, 100_000);
    assert!(!timer.tick(2_799_999));
    assert!(timer.tick(1));
    assert_eq!(timer.elapsed, 0);
}

#[test]
fn repeat_timer_fires_once_for_a_tick_that_spans_several_periods() {
    let mut timer = RepeatTimer::from_micros(1_000_000);
    assert!(timer.tick(3_500_000));
    assert_eq!(timer.elapsed, 500_000);
}

#[test]
fn repeat_timer_survives_the_longest_tick() {
    let mut timer = RepeatTimer { duration: 7, elapsed: 6 };
    assert!(timer.tick(u64::MAX));
    assert_eq!(timer.elapsed, ((6u128 + u64::MAX as u128) % 7) as u64);
}

#[test]
fn repeat_timer_of_no_period_always_fires() {
    let mut timer = RepeatTimer::from_micros(0);
    assert!(timer.tick(0));
    assert!(timer.tick(5));
    assert_eq!(timer.elapsed, 0);
}

#[test]
fn cooldown_reports_its_end_exactly_once() {
    let steps: [u64; 9] =
        [1_000_000, 1_000_000, 1_000_000, 1_000_000, 1_000_000, 2_500_000, 2_500_000, 999_999, 1];
    assert_eq!(steps.iter().sum::<u64>(), 11_000_000);
    let mut cooldown = Cooldown::from_micros(11_000_000);
    let mut signals = Vec::new();
    for dt in steps {
        signals.push(cooldown.tick(dt));
    }
    for dt in [0, 1, 11_000_000, 11_000_000] {
        signals.push(cooldown.tick(dt));
    }
    let expected = [
        false, false, false, false, false, false, false, false, true, false, false, false, false,
    ];
    assert_eq!(signals, expected);
    assert!(cooldown.available);
}

#[test]
fn cooldown_reports_its_end_whatever_the_granularity() {
    for parts in [1u64, 2, 3, 7, 11, 1000] {
        let mut cooldown = Cooldown::from_micros(27_000_000);
        let step = 27_000_000 / parts;
        let mut fired = 0;
        let mut handed_in = 0;
        while handed_in < 27_000_000 {
            let dt = step.min(27_000_000 - handed_in);
            let signal = cooldown.tick(dt);
            handed_in += dt;
            assert_eq!(signal, handed_in == 27_000_000);
            if signal {
                fired += 1;
            }
        }
        assert!(!cooldown.tick(step));
        assert_eq!(fired, 1);
    }
}

#[test]
fn cooldown_stands_still_while_available() {
    let mut cooldown = Cooldown::from_micros(10);
    assert!(cooldown.tick(25));
    assert!(cooldown.available);
    assert_eq!(cooldown.elapsed, 0);
    assert!(!cooldown.tick(1_000));
    assert_eq!(cooldown.elapsed, 0);
    assert!(cooldown.available);
}

#[test]
fn placing_uses_the_availability_up_and_restarts_the_wait_in_full() {
    let mut cooldown = Cooldown::from_micros(10);
    assert!(!cooldown.place());
    assert!(cooldown.tick(10));
    assert!(cooldown.place());
    assert!(!cooldown.available);
    assert!(!cooldown.place());
    assert!(!cooldown.tick(9));
    assert!(cooldown.tick(1));
}

#[test]
fn placing_before_the_end_changes_nothing() {
    let mut cooldown = Cooldown::from_micros(10);
    assert!(!cooldown.tick(4));
    assert!(!cooldown.place());
    assert_eq!(cooldown.elapsed, 4);
    assert!(!cooldown.available);
}
