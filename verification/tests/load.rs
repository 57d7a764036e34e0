use heavy::breaker::{
    Answer, Backoff, CircuitBreaker, CircuitBreakerConfig, Question,
};
use heavy::float_bits::is_greater;
use heavy::latency::LatencyMonitor;

#[test]
fn tracks_load_transitions() {
    const HIGH_MS: f64 = 100.0;
    const LOW_MS: f64 = 50.0;
    const WEIGHT: f64 = 0.1;

    let mut monitor = LatencyMonitor::new(HIGH_MS.to_bits(), LOW_MS.to_bits());
    fn update(monitor: &mut LatencyMonitor, sample_ms: f64) -> bool {
        let current = f64::from_bits(monitor.average());
        monitor.update(((1.0 - WEIGHT) * current + WEIGHT * sample_ms).to_bits())
    }
    fn update_until_flip(monitor: &mut LatencyMonitor, sample_ms: f64) {
        let mut flag = false;
        for _ in 0..1000 {
            if update(monitor, sample_ms) {
                flag = true;
            }
        }
        assert!(flag, "monitor.update() never returned true");
    }

    // Initialize with low latency (10 ms), low load
    for _ in 0..100 {
        update(&mut monitor, 10.0);
    }
    assert!(!monitor.is_high_load());
    assert!((f64::from_bits(monitor.average()) - 10.0).abs() < 0.1);

    // Feed high-latency samples (500 ms) until we enter high load
    update_until_flip(&mut monitor, 500.0);
    assert!(monitor.is_high_load());
    assert!(f64::from_bits(monitor.average()) > HIGH_MS);

    // Feed low-latency samples (5 ms) until we leave high load
    update_until_flip(&mut monitor, 5.0);
    assert!(!monitor.is_high_load());
    assert!(f64::from_bits(monitor.average()) < LOW_MS);
}

#[test]
fn load_keeps_between_thresholds() {
    let mut monitor = LatencyMonitor::new(100.0_f64.to_bits(), 50.0_f64.to_bits());
    assert_eq!(f64::from_bits(monitor.average()), 0.0);
    assert!(!monitor.update(75.0_f64.to_bits()));
    assert!(!monitor.update(100.0_f64.to_bits()));
    assert!(!monitor.is_high_load());
    assert!(monitor.update(100.1_f64.to_bits()));
    assert!(monitor.is_high_load());
    assert!(!monitor.update(75.0_f64.to_bits()));
    assert!(!monitor.update(50.1_f64.to_bits()));
    assert!(monitor.is_high_load());
    assert!(monitor.update(50.0_f64.to_bits()));
    assert!(!monitor.is_high_load());

    // An average that is no number is above no threshold
    assert!(monitor.update(200.0_f64.to_bits()));
    assert!(monitor.update(f64::NAN.to_bits()));
    assert!(!monitor.is_high_load());
}

#[test]
fn order_of_bits_is_that_of_numbers() {
    let numbers = [
        f64::NEG_INFINITY,
        f64::MIN,
        -1.5,
        -1.0,
        -f64::MIN_POSITIVE,
        -5e-324,
        -0.0,
        0.0,
        5e-324,
        f64::MIN_POSITIVE,
        0.25,
        0.5,
        1.0,
        1.0 + f64::EPSILON,
        50.0,
        f64::MAX,
        f64::INFINITY,
        f64::NAN,
        -f64::NAN,
    ];
    for a in numbers {
        for b in numbers {
            assert_eq!(is_greater(a.to_bits(), b.to_bits()), a > b, "{a} > {b}");
        }
    }
}

fn config(trip_above: f64, reset_below: f64) -> CircuitBreakerConfig {
    CircuitBreakerConfig::new(
        trip_above.to_bits(),
        reset_below.to_bits(),
        50.0_f64.to_bits(),
        60.0_f64.to_bits(),
        1.0_f64.to_bits(),
    )
}

#[test]
fn test_stays_closed() {
    let config = config(1.000, 0.500);
    let decay = 0.01;
    let mut breaker = CircuitBreaker::new();
    let mut latency = 0.0;
    let mut now = 0;

    for _ in 0..500 {
        now += 1_000_000;

        // Individual latencies go above both thresholds, but the moving average should stay
        // close to 2.7s/3 ~ 0.9s. This sits between the two thresholds and is just shy of the
        // upper one, so it shouldn't trip the breaker.
        for sample in [0.001, 0.7, 2.0] {
            latency += decay * (sample - latency);
            let bits = f64::to_bits(latency);
            assert_eq!(breaker.question(bits, &config, now), Question::Nothing);
            breaker.update(bits, &config, now, Answer::Nothing);
        }
        assert!(!breaker.is_tripped());
    }
    assert!(0.5 < latency && latency < 1.0);
}

#[test]
fn breaker_trips_cools_down_and_resets() {
    let config = config(1.0, 0.5);
    let high = 1.1_f64.to_bits();
    let middle = 0.7_f64.to_bits();
    let low = 0.4_f64.to_bits();
    let factor = 1.25_f64.to_bits();
    let mut breaker = CircuitBreaker::new();
    assert!(!breaker.is_tripped());

    // At the threshold it does not trip yet
    assert_eq!(breaker.question(1.0_f64.to_bits(), &config, 5), Question::Nothing);
    breaker.update(1.0_f64.to_bits(), &config, 5, Answer::Nothing);
    assert!(!breaker.is_tripped());

    // The first time there is nothing to back off from
    assert_eq!(
        breaker.question(high, &config, 10),
        Question::CooldownFactor { previous: None }
    );
    breaker.update(high, &config, 10, Answer::CooldownFactor(factor));
    assert!(breaker.is_tripped());

    // During the cooldown a low latency changes nothing
    let cooling = Question::CooldownEnd { tripped_at: 10, cooldown_factor: factor };
    assert_eq!(breaker.question(low, &config, 99), cooling);
    breaker.update(low, &config, 99, Answer::CooldownEnd(100));
    assert!(breaker.is_tripped());
    assert_eq!(breaker.question(low, &config, 99), cooling);

    // After the cooldown it stays open while the latency is not low
    breaker.update(middle, &config, 100, Answer::CooldownEnd(100));
    assert!(breaker.is_tripped());
    assert_eq!(breaker.question(middle, &config, 110), Question::Nothing);
    breaker.update(middle, &config, 110, Answer::Nothing);
    assert!(breaker.is_tripped());
    breaker.update(low, &config, 120, Answer::Nothing);
    assert!(!breaker.is_tripped());

    // The next time it knows how long it was open, and for how long it has been closed
    assert_eq!(
        breaker.question(high, &config, 150),
        Question::CooldownFactor { previous: Some(Backoff { open_for: 110, closed_for: 30 }) }
    );
    breaker.update(high, &config, 150, Answer::CooldownFactor(factor));

    // With a low latency at the end of the cooldown it closes at once
    breaker.update(low, &config, 200, Answer::CooldownEnd(200));
    assert!(!breaker.is_tripped());
    assert_eq!(
        breaker.question(high, &config, 200),
        Question::CooldownFactor { previous: Some(Backoff { open_for: 50, closed_for: 0 }) }
    );
}
