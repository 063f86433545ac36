use platformer_agent::fnv_hash::FnvHasher;
use platformer_agent::rand::Random;

#[test]
fn first_draws_match_java_random() {
    // java.util.Random(42).nextInt() gives -1170105035, then 234785527
    let mut r = Random::new(42);
    assert_eq!(r.next_u32() as i32, -1170105035);
    assert_eq!(r.next_u32() as i32, 234785527);
}

#[test]
fn next_takes_high_bits() {
    let mut a = Random::new(42);
    let mut b = Random::new(42);
    let full = a.next(32);
    let high = b.next(8);
    assert_eq!(high, full >> 24);
}

#[test]
fn next_u64_joins_two_draws() {
    let mut a = Random::new(7);
    let mut b = Random::new(7);
    let hi = a.next_u32() as u64;
    let lo = a.next_u32() as u64;
    assert_eq!(b.next_u64(), (hi << 32) | lo);
}

#[test]
fn bounded_draws_stay_below_bound() {
    let mut r = Random::new(98754);
    for bound in 1..50u32 {
        for _ in 0..20 {
            assert!(r.next_u32_bounded(bound) < bound);
        }
    }
}

#[test]
fn bound_one_always_gives_zero() {
    let mut r = Random::new(1);
    for _ in 0..10 {
        assert_eq!(r.next_u32_bounded(1), 0);
    }
}

#[test]
fn same_seed_same_sequence() {
    let mut a = Random::new(98754);
    let mut b = Random::new(98754);
    for _ in 0..100 {
        assert_eq!(a.next_u32_bounded(17), b.next_u32_bounded(17));
    }
}

#[test]
fn fnv_of_nothing_is_offset_basis() {
    let h = FnvHasher::default();
    assert_eq!(h.finish(), 0xcbf29ce484222325);
}

#[test]
fn fnv_known_values() {
    let mut h = FnvHasher::default();
    h.write(b"a");
    assert_eq!(h.finish(), 0xaf63dc4c8601ec8c);
    let mut h = FnvHasher::default();
    h.write(b"foobar");
    assert_eq!(h.finish(), 0x85944171f73967e8);
}

#[test]
fn fnv_writes_concatenate() {
    let mut a = FnvHasher::default();
    a.write(b"foo");
    a.write(b"bar");
    let mut b = FnvHasher::default();
    b.write(b"foobar");
    assert_eq!(a.finish(), b.finish());
}
