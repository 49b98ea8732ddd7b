use tetris::rng::{prng, shuffle, PreviewGenerator, SevenBagGenerator};

#[test]
fn prng_follows_the_linear_congruence() {
    let mut s: u32 = 0;
    assert_eq!(prng(&mut s), 12345);
    assert_eq!(s, 12345);
    let mut s: u32 = 1;
    assert_eq!(prng(&mut s), 1103527590);
    let mut s: u32 = 0xffff_ffff;
    let expected = 0xffff_ffffu32.wrapping_mul(1103515245).wrapping_add(12345);
    assert_eq!(prng(&mut s), expected & 0x7fff_ffff);
    assert_eq!(s, expected);
}

#[test]
fn shuffle_is_a_seeded_permutation() {
    let mut a = [0usize, 1, 2, 3, 4, 5, 6];
    let mut s: u32 = 42;
    shuffle(&mut a, &mut s);
    let mut sorted = a;
    sorted.sort();
    assert_eq!(sorted, [0, 1, 2, 3, 4, 5, 6]);
    let mut b = [0usize, 1, 2, 3, 4, 5, 6];
    let mut t: u32 = 42;
    shuffle(&mut b, &mut t);
    assert_eq!(a, b);
    assert_eq!(s, t);
    // two elements: the first draw decides whether they swap
    let mut u: u32 = 42;
    let r = prng(&mut u) as usize % 2;
    let mut c = [10usize, 20];
    let mut v: u32 = 42;
    shuffle(&mut c, &mut v);
    assert_eq!(c, if r == 1 { [20, 10] } else { [10, 20] });
}

#[test]
fn every_aligned_block_of_seven_is_a_permutation() {
    let mut g = SevenBagGenerator::new(12345, 7);
    for _ in 0..10 {
        let mut block: Vec<usize> = (0..7).map(|_| g.next().unwrap()).collect();
        block.sort();
        assert_eq!(block, vec![0, 1, 2, 3, 4, 5, 6]);
    }
}

#[test]
fn empty_bag_yields_nothing() {
    let mut g = SevenBagGenerator::new(1, 0);
    assert_eq!(g.next(), None);
    assert_eq!(g.next(), None);
}

#[test]
fn preview_shows_the_next_values_in_order() {
    let mut p = PreviewGenerator::new(SevenBagGenerator::new(99, 7), 5);
    let mut q = SevenBagGenerator::new(99, 7);
    let shown: Vec<usize> = p.preview().iter().copied().collect();
    assert_eq!(shown.len(), 5);
    let again: Vec<usize> = p.preview().iter().copied().collect();
    assert_eq!(shown, again);
    for v in shown {
        assert_eq!(p.next(), Some(v));
    }
    for _ in 0..5 {
        q.next();
    }
    for _ in 0..20 {
        let front = *p.preview().front().unwrap();
        assert_eq!(p.next(), Some(front));
        assert_eq!(Some(front), q.next());
    }
}

#[test]
fn preview_of_an_exhausted_sequence_is_empty() {
    let mut p = PreviewGenerator::new(SevenBagGenerator::new(5, 0), 3);
    assert_eq!(p.preview().len(), 0);
    assert_eq!(p.next(), None);
}
