use shorten_url::id_generator::{IdError, IdGenerator, CLOCK_TOLERANCE, MAX_SEQUENCE, MAX_TICK};

#[test]
fn new_tick_resets_sequence() {
    let mut g = IdGenerator::new(3);
    assert_eq!(g.machine_id(), 3);
    assert_eq!(g.next_id(5), Ok((5u64 << 24) | (3 << 8)));
}

#[test]
fn same_tick_increments_sequence() {
    let mut g = IdGenerator::new(7);
    assert_eq!(g.next_id(100), Ok((100u64 << 24) | (7 << 8)));
    assert_eq!(g.next_id(100), Ok((100u64 << 24) | (7 << 8) | 1));
    assert_eq!(g.next_id(100), Ok((100u64 << 24) | (7 << 8) | 2));
}

#[test]
fn first_id_at_tick_zero_is_one() {
    let mut g = IdGenerator::new(0);
    assert_eq!(g.next_id(0), Ok(1));
}

#[test]
fn sequence_exhaustion_is_reported() {
    let mut g = IdGenerator::new(1);
    assert!(g.next_id(9).is_ok());
    for _ in 0..MAX_SEQUENCE {
        assert!(g.next_id(9).is_ok());
    }
    assert_eq!(g.next_id(9), Err(IdError::SequenceExhausted));
    assert_eq!(g.next_id(10), Ok((10u64 << 24) | (1 << 8)));
}

#[test]
fn small_clock_step_back_is_tolerated() {
    let mut g = IdGenerator::new(2);
    let a = g.next_id(50).unwrap();
    let b = g.next_id(50 - CLOCK_TOLERANCE).unwrap();
    assert_eq!(b, a + 1);
}

#[test]
fn clock_regression_is_reported() {
    let mut g = IdGenerator::new(2);
    let a = g.next_id(50).unwrap();
    assert_eq!(g.next_id(50 - CLOCK_TOLERANCE - 1), Err(IdError::ClockRegression));
    assert_eq!(g.next_id(51), Ok(a + (1 << 24)));
}

#[test]
fn largest_tick_fits() {
    let mut g = IdGenerator::new(u16::MAX);
    assert_eq!(g.next_id(MAX_TICK), Ok((MAX_TICK << 24) | (0xFFFF << 8)));
}

#[test]
fn sequential_ids_are_distinct_and_increasing() {
    let mut g = IdGenerator::new(42);
    let mut ids = Vec::new();
    let mut now = 1000u64;
    while ids.len() < 2000 {
        match g.next_id(now) {
            Ok(id) => ids.push(id),
            Err(IdError::SequenceExhausted) => now += 1,
            Err(e) => panic!("unexpected {:?}", e),
        }
    }
    for w in ids.windows(2) {
        assert!(w[0] < w[1]);
    }
}

#[test]
fn machines_never_collide() {
    let mut a = IdGenerator::new(1);
    let mut b = IdGenerator::new(2);
    for t in 0..20u64 {
        assert_ne!(a.next_id(t), b.next_id(t));
    }
}
