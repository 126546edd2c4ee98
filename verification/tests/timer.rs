//! The cycle counter stopwatch, fed with readings.

use opti_set_int::timer::CpuTimer;

#[test]
fn elapsed_counts_from_the_start() {
    let timer = CpuTimer::new(1000);
    assert_eq!(timer.elapsed_cycles(1000), 0);
    assert_eq!(timer.elapsed_cycles(1500), 500);
}

#[test]
fn elapsed_wraps_around() {
    let timer = CpuTimer::new(u64::MAX - 9);
    assert_eq!(timer.elapsed_cycles(5), 15);
}

#[test]
fn reset_starts_again() {
    let mut timer = CpuTimer::new(10);
    let t = timer.elapsed_cycles(110);
    timer.reset(110);
    assert_eq!(timer.elapsed_cycles(110), 0);
    assert!(t < timer.elapsed_cycles(1000));
}
