use sid::MonotonicGenerator;

#[test]
fn monotonic_within_one_tick() {
    // A clock that never advances: every output must still be strictly
    // greater than the one before it.
    let mut generator = MonotonicGenerator::new();
    let ts: u64 = 1_700_000_000_000;
    let mut previous = generator.generate_at(ts, rand::random(), rand::random());
    for _ in 0..1000 {
        let next = generator.generate_at(ts, rand::random(), rand::random());
        assert!(previous < next);
        previous = next;
    }
}

#[test]
fn monotonic_with_advancing_clock() {
    let mut generator = MonotonicGenerator::new();
    let mut ts: u64 = 1_700_000_000_000;
    let mut previous = generator.generate_at(ts, rand::random(), rand::random());
    for _ in 0..1000 {
        ts += 1;
        let next = generator.generate_at(ts, rand::random(), rand::random());
        assert!(previous < next);
        previous = next;
    }
}

#[test]
fn monotonic_with_backward_clock() {
    let mut generator = MonotonicGenerator::new();
    let first = generator.generate_at(1_700_000_000_000, rand::random(), rand::random());
    // The clock jumps backward; the next output must still be greater.
    let second = generator.generate_at(1_600_000_000_000, rand::random(), rand::random());
    assert!(first < second);
    assert_eq!(generator.previous(), second);
}

#[test]
fn sorting_recovers_generation_order() {
    let mut generator = MonotonicGenerator::new();
    let ts: u64 = 1_700_000_000_000;
    let mut generated = Vec::new();
    for i in 0..200u64 {
        // Mix same-tick and advancing-tick generation.
        generated.push(generator.generate_at(ts + i / 3, rand::random(), rand::random()));
    }
    let mut shuffled = Vec::new();
    // A deterministic shuffle: every seventh element, round after round.
    for start in 0..7 {
        let mut k = start;
        while k < generated.len() {
            shuffled.push(generated[k].clone());
            k += 7;
        }
    }
    assert_ne!(shuffled, generated);
    shuffled.sort();
    assert_eq!(shuffled, generated);
}

#[test]
fn generator_from_the_clock() {
    let mut generator = MonotonicGenerator::new();
    assert!(!generator.exhausted());
    let first = generator.generate().unwrap();
    let second = generator.generate().unwrap();
    assert!(first < second);
    assert!(!first.is_null());
}
