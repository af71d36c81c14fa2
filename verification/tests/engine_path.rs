use wilson::engine::path::{calc_path, calc_paths, Section};
use wilson::engine::rng::Rng;

/// A small route stream from spot 0 to spot 3: from 0 either to 1 or 2, from 1 to 3 or
/// back to 0, from 2 only to 3.
fn stream() -> Vec<Section> {
    vec![
        Section {
            cursor: 0,
            moves: vec![(1, 60), (2, 40)],
        },
        Section {
            cursor: 1,
            moves: vec![(3, 70), (0, 30)],
        },
        Section {
            cursor: 2,
            moves: vec![(3, 100)],
        },
    ]
}

fn is_valid(s: &[Section], p: &[u8], from: u8, to: u8) -> bool {
    if p.first() != Some(&from) || p.last() != Some(&to) {
        return false;
    }
    for (i, a) in p.iter().enumerate() {
        if p[i + 1..].contains(a) {
            return false;
        }
    }
    p.windows(2).all(|w| {
        s.iter()
            .find(|sec| sec.cursor == w[0])
            .is_some_and(|sec| sec.moves.iter().any(|&(n, _)| n == w[1]))
    })
}

#[test]
fn same_spot_is_trivial() {
    assert_eq!(calc_paths(&[], 3, 3), vec![vec![3]]);
    let mut rng = Rng::new(1);
    assert_eq!(calc_path(&[], 3, 3, &mut rng), vec![3]);
}

#[test]
fn calc_paths_lists_every_simple_route() {
    let s = stream();
    let mut paths = calc_paths(&s, 0, 3);
    paths.sort();
    assert_eq!(paths, vec![vec![0, 1, 3], vec![0, 2, 3]]);
    assert!(calc_paths(&s, 3, 0).is_empty());
    assert!(calc_paths(&s, 0, 6).is_empty());
}

#[test]
fn calc_path_walks_a_valid_route() {
    let s = stream();
    let mut rng = Rng::new(20_260_618);
    let mut seen = std::collections::HashSet::new();
    for _ in 0..300 {
        let p = calc_path(&s, 0, 3, &mut rng);
        assert!(is_valid(&s, &p, 0, 3), "invalid route {p:?}");
        seen.insert(p);
    }
    assert_eq!(seen.len(), 2);
    let mut a = Rng::new(7);
    let mut b = Rng::new(7);
    assert_eq!(calc_path(&s, 0, 3, &mut a), calc_path(&s, 0, 3, &mut b));
}

#[test]
fn calc_path_without_a_route_stays_put() {
    let s = stream();
    let mut rng = Rng::new(3);
    assert_eq!(calc_path(&s, 3, 0, &mut rng), vec![3]);
}
