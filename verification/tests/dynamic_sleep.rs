use serial_support::dynamic_sleep::{hz_to_nanos, DynamicSleep, Pause};

#[test]
fn period_is_a_second_divided_by_the_frequency() {
    assert_eq!(hz_to_nanos(30), 33_333_333);
    assert_eq!(hz_to_nanos(1), 1_000_000_000);
    assert_eq!(hz_to_nanos(3), 333_333_333);
    assert_eq!(hz_to_nanos(u32::MAX), 0);
}

#[test]
fn new_timer_runs_at_thirty_hertz() {
    let timer = DynamicSleep::new("manager");
    assert_eq!(timer.freq_hz(), 30);
    assert_eq!(timer.period_nanos(), 33_333_333);
    assert_eq!(timer.tag(), "manager");
    assert_eq!(timer.cycles(), 0);
    assert_eq!(timer.slips(), 0);
}

#[test]
fn with_freq_sets_the_period() {
    let timer = DynamicSleep::with_freq(String::from("main"), 100);
    assert_eq!(timer.freq_hz(), 100);
    assert_eq!(timer.period_nanos(), 10_000_000);
    assert_eq!(timer.tag(), "main");
}

#[test]
fn first_call_only_starts_the_measuring() {
    let mut timer = DynamicSleep::with_freq("t", 10);
    assert_eq!(timer.sleep(5, 999), Pause::First);
    assert_eq!(timer.cycles(), 0);
    assert_eq!(timer.slips(), 0);
}

#[test]
fn sleeps_for_the_rest_of_the_period() {
    let mut timer = DynamicSleep::with_freq("t", 10);
    timer.sleep(0, 0);
    assert_eq!(timer.sleep(0, 40_000_000), Pause::Wait { nanos: 60_000_000, report: None });
    // exactly one period: no slip, nothing to sleep
    assert_eq!(timer.sleep(0, 100_000_000), Pause::Wait { nanos: 0, report: None });
    assert_eq!(timer.cycles(), 2);
    assert_eq!(timer.slips(), 0);
}

#[test]
fn overrun_counts_as_a_slip() {
    let mut timer = DynamicSleep::with_freq("t", 10);
    timer.sleep(0, 0);
    assert_eq!(timer.sleep(0, 100_000_001), Pause::Slipped);
    assert_eq!(timer.sleep(1, 0), Pause::Slipped);
    assert_eq!(timer.cycles(), 2);
    assert_eq!(timer.slips(), 2);
}

#[test]
fn slips_are_reported_after_a_second_of_cycles() {
    let mut timer = DynamicSleep::with_freq("t", 3);
    timer.sleep(0, 0);
    assert_eq!(timer.sleep(2, 0), Pause::Slipped);
    assert_eq!(timer.sleep(0, 1), Pause::Wait { nanos: 333_333_332, report: None });
    assert_eq!(timer.sleep(0, 1), Pause::Wait { nanos: 333_333_332, report: Some(1) });
    assert_eq!(timer.cycles(), 0);
    assert_eq!(timer.slips(), 0);
}

#[test]
fn without_slips_nothing_is_reported() {
    let mut timer = DynamicSleep::with_freq("t", 2);
    timer.sleep(0, 0);
    assert_eq!(timer.sleep(0, 0), Pause::Wait { nanos: 500_000_000, report: None });
    assert_eq!(timer.sleep(0, 0), Pause::Wait { nanos: 500_000_000, report: None });
    assert_eq!(timer.sleep(0, 0), Pause::Wait { nanos: 500_000_000, report: None });
    assert_eq!(timer.cycles(), 3);
}
