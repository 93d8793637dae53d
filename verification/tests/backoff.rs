//! Backoff schedules.

use std::time::Duration;

use frequenz_microgrid::backoff::{Backoff, BackoffConfig, BackoffConfigError};
use frequenz_microgrid::single::Single;

fn single(value: f32) -> Single {
    Single::from_bits(value.to_bits())
}

fn float(value: Single) -> f32 {
    f32::from_bits(value.to_bits())
}

fn config(initial: Duration, max: Duration, multiplier: f32, jitter: f32) -> BackoffConfig {
    BackoffConfig::try_new(initial, max, single(multiplier), single(jitter)).unwrap()
}

fn no_jitter_config() -> BackoffConfig {
    config(Duration::from_secs(1), Duration::from_secs(30), 2.0, 0.0)
}

fn try_new(
    initial: Duration,
    max: Duration,
    multiplier: f32,
    jitter: f32,
) -> Result<BackoffConfig, BackoffConfigError> {
    BackoffConfig::try_new(initial, max, single(multiplier), single(jitter))
}

fn next(backoff: &mut Backoff, config: BackoffConfig, now: u128) -> u128 {
    backoff.next_retry_time(
        now,
        |delay: Duration| delay.mul_f32(float(config.multiplier())),
        |delay: Duration| delay,
    )
}

fn secs(n: u64) -> u128 {
    Duration::from_secs(n).as_nanos()
}

const START: u128 = 5_000_000_000;

#[test]
fn config_rejects_invalid_values() {
    let one = Duration::from_secs(1);
    let two = Duration::from_secs(2);
    assert!(matches!(
        try_new(Duration::ZERO, one, 2.0, 0.0),
        Err(BackoffConfigError::ZeroDelay),
    ));
    assert!(matches!(
        try_new(two, one, 2.0, 0.0),
        Err(BackoffConfigError::InitialExceedsMax { .. }),
    ));
    assert!(matches!(
        try_new(one, two, 0.5, 0.0),
        Err(BackoffConfigError::InvalidMultiplier(_)),
    ));
    assert!(matches!(
        try_new(one, two, f32::NAN, 0.0),
        Err(BackoffConfigError::InvalidMultiplier(_)),
    ));
    assert!(matches!(
        try_new(one, two, 2.0, 1.5),
        Err(BackoffConfigError::InvalidJitter(_)),
    ));
    assert!(matches!(
        try_new(one, two, 2.0, f32::NAN),
        Err(BackoffConfigError::InvalidJitter(_)),
    ));
}

#[test]
fn config_edges() {
    let one = Duration::from_secs(1);
    assert!(matches!(
        try_new(one, Duration::ZERO, 2.0, 0.0),
        Err(BackoffConfigError::ZeroDelay),
    ));
    assert!(matches!(
        try_new(one, one, f32::INFINITY, 0.0),
        Err(BackoffConfigError::InvalidMultiplier(_)),
    ));
    assert!(matches!(
        try_new(one, one, -2.0, 0.0),
        Err(BackoffConfigError::InvalidMultiplier(_)),
    ));
    assert!(matches!(
        try_new(one, one, 1.0, -0.25),
        Err(BackoffConfigError::InvalidJitter(_)),
    ));
    // Minus zero is zero.
    assert!(try_new(one, one, 1.0, -0.0).is_ok());
    assert!(try_new(one, one, 1.0, 1.0).is_ok());
    let c = try_new(one, Duration::from_secs(9), 1.5, 0.5).unwrap();
    assert_eq!(c.initial(), one);
    assert_eq!(c.max(), Duration::from_secs(9));
    assert_eq!(c.multiplier(), single(1.5));
    assert_eq!(c.jitter(), single(0.5));
}

#[test]
fn config_default_validates() {
    let c = BackoffConfig::default();
    BackoffConfig::try_new(c.initial(), c.max(), c.multiplier(), c.jitter())
        .expect("default config must validate");
    assert_eq!(c.initial(), Duration::from_secs(1));
    assert_eq!(c.max(), Duration::from_secs(30));
    assert_eq!(float(c.multiplier()), 2.0);
    assert_eq!(float(c.jitter()), 0.25);
}

#[test]
fn backoff_is_bounded_exponential() {
    let config = no_jitter_config();
    let mut backoff = Backoff::new(config);
    for n in [1u64, 2, 4, 8, 16, 30, 30, 30] {
        assert_eq!(next(&mut backoff, config, START), START + secs(n));
    }
}

#[test]
fn backoff_reset_restarts_at_initial() {
    let config = no_jitter_config();
    let mut backoff = Backoff::new(config);
    assert_eq!(next(&mut backoff, config, START), START + secs(1));
    assert_eq!(next(&mut backoff, config, START), START + secs(2));
    backoff.reset();
    assert_eq!(backoff.deadline(), None);
    assert_eq!(next(&mut backoff, config, START), START + secs(1));
}

#[test]
fn take_due_consumes_pending_retry() {
    let config = config(Duration::from_secs(3), Duration::from_secs(3), 1.0, 0.0);
    let mut backoff = Backoff::new(config);

    assert_eq!(backoff.deadline(), None);
    assert!(!backoff.take_due(START));

    let when = next(&mut backoff, config, START);
    assert_eq!(when, START + secs(3));
    assert_eq!(backoff.deadline(), Some(when));

    assert!(!backoff.take_due(START + secs(2)));
    assert!(backoff.deadline().is_some());

    assert!(backoff.take_due(START + secs(3)));
    assert_eq!(backoff.deadline(), None);
}

fn jittered(backoff: &mut Backoff, config: BackoffConfig, rng: &std::cell::RefCell<fastrand::Rng>) -> u128 {
    let jitter = float(config.jitter());
    backoff.next_retry_time(
        START,
        |delay: Duration| delay.mul_f32(float(config.multiplier())),
        |delay: Duration| {
            delay.mul_f32(1.0 + jitter * (rng.borrow_mut().f32() * 2.0 - 1.0))
        },
    )
}

#[test]
fn jitter_stays_within_configured_band() {
    let config = config(Duration::from_secs(1), Duration::from_secs(30), 2.0, 0.25);
    for seed in 0..32u64 {
        let rng = std::cell::RefCell::new(fastrand::Rng::with_seed(seed));
        let mut backoff = Backoff::new(config);
        for nominal in [1, 2, 4, 8, 16, 30].map(Duration::from_secs) {
            let actual = jittered(&mut backoff, config, &rng) - START;
            assert!(
                actual >= nominal.mul_f32(0.75).as_nanos()
                    && actual <= nominal.mul_f32(1.25).as_nanos(),
                "seed {seed}: jittered delay {actual:?} outside ±25% of {nominal:?}"
            );
        }
    }
}

#[test]
fn jitter_decorrelates_distinct_seeds() {
    let config = config(Duration::from_secs(1), Duration::from_secs(30), 2.0, 0.25);
    let rng_a = std::cell::RefCell::new(fastrand::Rng::with_seed(1));
    let rng_b = std::cell::RefCell::new(fastrand::Rng::with_seed(2));
    let mut a = Backoff::new(config);
    let mut b = Backoff::new(config);
    assert_ne!(
        jittered(&mut a, config, &rng_a),
        jittered(&mut b, config, &rng_b)
    );
}

#[test]
fn faults_are_told() {
    let one = Duration::from_secs(1);
    let two = Duration::from_millis(2500);
    let told = |r: Result<BackoffConfig, BackoffConfigError>| {
        r.err()
            .unwrap()
            .to_text(&|number: Single| format!("{}", float(number)))
    };
    assert_eq!(
        told(try_new(Duration::ZERO, one, 2.0, 0.0)),
        "initial and max must be > 0"
    );
    assert_eq!(
        told(try_new(two, one, 2.0, 0.0)),
        "initial (2.5s) exceeds max (1s)"
    );
    assert_eq!(
        told(try_new(one, two, 0.5, 0.0)),
        "multiplier must be >= 1.0 and finite, got 0.5"
    );
    assert_eq!(
        told(try_new(one, two, 2.0, 1.5)),
        "jitter must be in [0.0, 1.0] and finite, got 1.5"
    );
}

#[test]
fn delays_go_by_the_number_of_failures() {
    let config = config(Duration::from_secs(1), Duration::from_secs(10), 2.0, 0.0);
    let mut backoff = Backoff::new(config);
    // The attempt comes up to a tenth of the delay early or late.
    let mut fail = |backoff: &mut Backoff, now: u128, early: bool| {
        backoff.next_retry_time(
            now,
            |delay: Duration| delay * 2,
            |delay: Duration| if early { delay - delay / 10 } else { delay + delay / 10 },
        )
    };
    for round in 0..2u128 {
        let start = secs(100) * round;
        for (n, nominal) in [1, 2, 4, 8, 10, 10].into_iter().enumerate() {
            let now = start + n as u128;
            let when = fail(&mut backoff, now, n % 2 == 0);
            let band = secs(nominal) / 10;
            assert!(now + secs(nominal) - band <= when && when <= now + secs(nominal) + band);
            assert_eq!(backoff.deadline(), Some(when));
            // Asking does not count as a failure.
            assert!(!backoff.take_due(when - 1));
            if n % 2 == 1 {
                assert!(backoff.take_due(when));
                assert!(!backoff.take_due(when));
            }
        }
        backoff.reset();
    }
}
