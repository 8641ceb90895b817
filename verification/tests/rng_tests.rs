use rayforge::Rng;

#[test]
fn seed_zero_gives_reference_splitmix64_stream() {
    let mut rng = Rng::seed_from_u64(0);
    assert_eq!(rng.next_u64(), 0xe220_a839_7b1d_cdaf);
    assert_eq!(rng.next_u64(), 0x6e78_9e6a_a1b9_65f4);
    assert_eq!(rng.next_u64(), 0x06c4_5d18_8009_454f);
}

#[test]
fn same_seed_reproduces_the_same_stream() {
    let mut a = Rng::seed_from_u64(42);
    let mut b = Rng::seed_from_u64(42);
    for _ in 0..100 {
        assert_eq!(a.next_u64(), b.next_u64());
    }
    let mut c = Rng::seed_from_u64(42);
    assert_eq!(c.next_u64(), 13679457532755275413);
    assert_eq!(c.next_u64(), 2949826092126892291);
}

#[test]
fn next_u32_is_the_upper_half_of_next_u64() {
    let mut a = Rng::seed_from_u64(42);
    assert_eq!(a.next_u32(), 3184996902);
    let mut b = Rng::seed_from_u64(42);
    let mut c = Rng::seed_from_u64(42);
    for _ in 0..50 {
        assert_eq!(b.next_u32() as u64, c.next_u64() >> 32);
    }
}

#[test]
fn range_u64_reference_values() {
    let mut rng = Rng::seed_from_u64(7);
    let drawn: Vec<u64> = (0..5).map(|_| rng.range_u64(10, 20)).collect();
    assert_eq!(drawn, vec![17, 14, 16, 13, 14]);
}

#[test]
fn range_u64_stays_in_bounds() {
    let mut rng = Rng::seed_from_u64(99);
    for high in 1..200u64 {
        for low in 0..high {
            let v = rng.range_u64(low, high);
            assert!(low <= v && v < high);
        }
    }
}

#[test]
fn range_u64_edge_spans() {
    let mut rng = Rng::seed_from_u64(5);
    assert_eq!(rng.range_u64(0, 1), 0);
    assert_eq!(rng.range_u64(0, u64::MAX), 13877614986023876344);
    assert_eq!(rng.range_u64(u64::MAX - 1, u64::MAX), u64::MAX - 1);
}

#[test]
fn shuffle_reference_permutation() {
    let mut rng = Rng::seed_from_u64(123);
    let mut xs: Vec<u32> = (0..10).collect();
    rng.shuffle(&mut xs);
    assert_eq!(xs, vec![7, 3, 4, 9, 8, 2, 1, 0, 6, 5]);
    let mut next = Rng::seed_from_u64(10372713005361028408);
    assert_eq!(rng.next_u64(), next.next_u64());
}

#[test]
fn shuffle_keeps_every_element() {
    let mut rng = Rng::seed_from_u64(2024);
    for n in 0..40u32 {
        let mut xs: Vec<u32> = (0..n).map(|i| i % 7).collect();
        let mut before = xs.clone();
        rng.shuffle(&mut xs);
        let mut after = xs.clone();
        before.sort();
        after.sort();
        assert_eq!(before, after);
    }
}

#[test]
fn shuffle_of_short_slices_draws_nothing() {
    let mut rng = Rng::seed_from_u64(8);
    let mut empty: Vec<u8> = vec![];
    rng.shuffle(&mut empty);
    let mut one = vec![5u8];
    rng.shuffle(&mut one);
    assert_eq!(one, vec![5]);
    let mut fresh = Rng::seed_from_u64(8);
    assert_eq!(rng.next_u64(), fresh.next_u64());
}

#[test]
fn split_seeds_child_with_parent_draw() {
    let mut parent = Rng::seed_from_u64(1);
    let mut child = parent.split();
    assert_eq!(child.next_u64(), 6791897765849424158);
    let mut expected_child = Rng::seed_from_u64(10451216379200822465);
    let mut child2 = Rng::seed_from_u64(1).split();
    assert_eq!(child2.next_u64(), expected_child.next_u64());
    let mut expected_parent = Rng::seed_from_u64(11400714819323198486);
    assert_eq!(parent.next_u64(), expected_parent.next_u64());
}

#[test]
fn outputs_do_not_repeat_in_a_long_run() {
    let mut rng = Rng::seed_from_u64(31337);
    let mut seen: Vec<u64> = (0..2000).map(|_| rng.next_u64()).collect();
    seen.sort();
    seen.dedup();
    assert_eq!(seen.len(), 2000);
}

#[test]
fn default_generators_differ() {
    let mut a = Rng::default();
    let mut b = Rng::default();
    let xs: Vec<u64> = (0..4).map(|_| a.next_u64()).collect();
    let ys: Vec<u64> = (0..4).map(|_| b.next_u64()).collect();
    assert_ne!(xs, ys);
}

#[test]
fn split_streams_do_not_overlap_in_a_short_run() {
    let mut parent = Rng::seed_from_u64(77);
    let mut child = parent.split();
    let mut seen: Vec<u64> = (0..1000).map(|_| parent.next_u64()).collect();
    seen.extend((0..1000).map(|_| child.next_u64()));
    seen.sort();
    seen.dedup();
    assert_eq!(seen.len(), 2000);
}
