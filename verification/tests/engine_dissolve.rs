use wilson::engine::dissolve::{lfsr_order, Dissolve};
use wilson::engine::surface::Surface;

#[test]
fn lfsr_order_is_a_full_permutation() {
    for n in [2usize, 3, 7, 8, 16, 17, 100, 255, 256, 1200, 2047] {
        let order = lfsr_order(n);
        assert_eq!(order.len(), n, "n={n}: wrong length");
        let mut seen = vec![false; n];
        for &c in &order {
            assert!(c < n, "n={n}: index {c} out of range");
            assert!(!seen[c], "n={n}: index {c} repeated (not a permutation)");
            seen[c] = true;
        }
        assert!(seen.iter().all(|&s| s), "n={n}: not all cells visited");
    }
}

#[test]
fn lfsr_order_is_not_trivially_sequential() {
    let order = lfsr_order(1200);
    assert_ne!(order, (0..1200).collect::<Vec<_>>());
}

#[test]
fn lfsr_order_falls_back_to_sequential_outside_the_table() {
    assert_eq!(lfsr_order(0), Vec::<usize>::new());
    assert_eq!(lfsr_order(1), vec![0]);
    assert_eq!(lfsr_order(3000), (0..3000).collect::<Vec<_>>());
}

#[test]
fn dissolve_reaches_the_destination_exactly() {
    let from = Surface::new(64, 48, 1);
    let to = Surface::new(64, 48, 9);
    let mut d = Dissolve::new(from, to.clone());
    let mut guard = 0;
    while !d.done() {
        d.step();
        guard += 1;
        assert!(guard < 10_000, "dissolve never completed");
    }
    assert_eq!(d.step(), &to);
    assert_eq!(d.into_destination().pixels, to.pixels);
}

#[test]
fn dissolve_is_partial_midway() {
    let from = Surface::new(64, 48, 1);
    let to = Surface::new(64, 48, 9);
    let mut d = Dissolve::new(from, to);
    d.step();
    let mid = d.step().clone();
    assert!(mid.pixels.contains(&1), "expected some original still showing");
    assert!(mid.pixels.contains(&9), "expected some destination revealed");
}

#[test]
fn dissolve_takes_at_most_twenty_steps_on_a_full_screen() {
    let from = Surface::new(640, 480, 1);
    let to = Surface::new(640, 480, 2);
    let mut d = Dissolve::new(from, to);
    let mut steps = 0;
    while !d.done() {
        d.step();
        steps += 1;
    }
    assert_eq!(steps, 20);
    assert!(d.image().pixels.iter().all(|&p| p == 2));
}
