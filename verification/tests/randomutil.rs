use raytracer::randomutil::{thread_seedable_reseed, thread_seedable_rng};

#[test]
fn generator_remembers_its_seed() {
    let mut rng = thread_seedable_rng(42);
    assert_eq!(rng.seed(), 42);
    let _ = rng.gen_range(0, 3);
    assert_eq!(rng.seed(), 42);
    thread_seedable_reseed(&mut rng, 7);
    assert_eq!(rng.seed(), 7);
}

#[test]
fn draws_stay_inside_the_range() {
    let mut rng = thread_seedable_rng(1);
    for _ in 0..1000 {
        let axis = rng.gen_range(0, 3);
        assert!(axis < 3);
        let v = rng.gen_range(10, 12);
        assert!(v == 10 || v == 11);
    }
    assert_eq!(rng.gen_range(5, 6), 5);
}

#[test]
fn draws_are_not_all_the_lower_bound() {
    let mut rng = thread_seedable_rng(1);
    let draws: Vec<usize> = (0..200).map(|_| rng.gen_range(0, 3)).collect();
    assert!(draws.contains(&0));
    assert!(draws.contains(&1));
    assert!(draws.contains(&2));
}

#[test]
fn same_seed_gives_the_same_draws() {
    let mut a = thread_seedable_rng(2024);
    let mut b = thread_seedable_rng(2024);
    let first: Vec<usize> = (0..64).map(|_| a.gen_range(0, 1000)).collect();
    let second: Vec<usize> = (0..64).map(|_| b.gen_range(0, 1000)).collect();
    assert_eq!(first, second);
}

#[test]
fn reseeding_starts_the_draws_afresh() {
    let mut a = thread_seedable_rng(5);
    let first: Vec<usize> = (0..64).map(|_| a.gen_range(0, 1000)).collect();
    let mut b = thread_seedable_rng(99);
    let _ = b.gen_range(0, 1000);
    thread_seedable_reseed(&mut b, 5);
    let second: Vec<usize> = (0..64).map(|_| b.gen_range(0, 1000)).collect();
    assert_eq!(first, second);
    let mut c = thread_seedable_rng(6);
    let third: Vec<usize> = (0..64).map(|_| c.gen_range(0, 1000)).collect();
    assert_ne!(first, third);
}

#[test]
fn bits_follow_the_seed() {
    let mut a = thread_seedable_rng(31);
    let mut b = thread_seedable_rng(31);
    let first: Vec<u32> = (0..32).map(|_| a.next_u32()).collect();
    let second: Vec<u32> = (0..32).map(|_| b.next_u32()).collect();
    assert_eq!(first, second);
    assert_eq!(a.seed(), 31);
    // Thirty-two draws of 32 bits are not all alike.
    assert!(first.iter().any(|bits| *bits != first[0]));
}
