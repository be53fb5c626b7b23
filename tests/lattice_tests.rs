use bone_lattice::lattice::{Lattice, LatticeIdx};

#[test]
fn cube_iter_covers_cube_in_order() {
    let pts = LatticeIdx::cube_iter(2);
    assert_eq!(
        pts,
        vec![
            LatticeIdx(0, 0, 0),
            LatticeIdx(0, 0, 1),
            LatticeIdx(0, 1, 0),
            LatticeIdx(0, 1, 1),
            LatticeIdx(1, 0, 0),
            LatticeIdx(1, 0, 1),
            LatticeIdx(1, 1, 0),
            LatticeIdx(1, 1, 1),
        ]
    );
    let big = LatticeIdx::cube_iter(5);
    assert_eq!(big.len(), 125);
    for i in 0..big.len() {
        for j in (i + 1)..big.len() {
            assert_ne!(big[i], big[j]);
        }
    }
}

#[test]
fn cube_iter_of_nonpositive_size_is_empty() {
    assert!(LatticeIdx::cube_iter(0).is_empty());
    assert!(LatticeIdx::cube_iter(-3).is_empty());
}

#[test]
fn neighbor_iter_gives_six_distinct_unit_neighbors() {
    let c = LatticeIdx(4, -2, 7);
    let nb = LatticeIdx::neighbor_iter(c);
    assert_eq!(
        nb,
        vec![
            LatticeIdx(3, -2, 7),
            LatticeIdx(5, -2, 7),
            LatticeIdx(4, -3, 7),
            LatticeIdx(4, -1, 7),
            LatticeIdx(4, -2, 6),
            LatticeIdx(4, -2, 8),
        ]
    );
    for i in 0..6 {
        let d = (nb[i].0 - c.0).abs() + (nb[i].1 - c.1).abs() + (nb[i].2 - c.2).abs();
        assert_eq!(d, 1);
        for j in (i + 1)..6 {
            assert_ne!(nb[i], nb[j]);
        }
    }
}

#[test]
fn index_arithmetic() {
    assert_eq!(LatticeIdx::cubed(3), LatticeIdx(3, 3, 3));
    assert_eq!(LatticeIdx(1, 2, 3).add(LatticeIdx(-1, 5, 0)), LatticeIdx(0, 7, 3));
    let mut a = LatticeIdx(1, 1, 1);
    a.add_assign(LatticeIdx(2, -3, 0));
    assert_eq!(a, LatticeIdx(3, -2, 1));
    assert_eq!(LatticeIdx(-1, 7, 3).wrapped(3), LatticeIdx(2, 1, 0));
}

#[test]
fn filled_calls_filler_at_each_point() {
    let l = Lattice::filled(3, |idx: LatticeIdx| (idx.0 * 100 + idx.1 * 10 + idx.2) as i32).unwrap();
    assert_eq!(l.size(), 3);
    assert_eq!(l.len(), 27);
    assert_eq!(*l.get(LatticeIdx(1, 2, 0)), 120);
    assert_eq!(*l.cell_at(5), 12);
    assert_eq!(*l.cell_at(26), 222);
}

#[test]
fn filled_rejects_nonpositive_size() {
    assert!(Lattice::filled(0, |_idx: LatticeIdx| 0u8).is_none());
    assert!(Lattice::filled(-1, |_idx: LatticeIdx| 0u8).is_none());
}

#[test]
fn indexing_wraps_around_every_axis() {
    for n in 1..5i16 {
        let l = Lattice::filled(n, |idx: LatticeIdx| (idx.0, idx.1, idx.2)).unwrap();
        for p in LatticeIdx::cube_iter(n) {
            let here = *l.get(p);
            assert_eq!(here, (p.0, p.1, p.2));
            assert_eq!(*l.get(LatticeIdx(p.0 + n, p.1, p.2)), here);
            assert_eq!(*l.get(LatticeIdx(p.0 - n, p.1, p.2)), here);
            assert_eq!(*l.get(LatticeIdx(p.0, p.1 + n, p.2)), here);
            assert_eq!(*l.get(LatticeIdx(p.0, p.1 - n, p.2)), here);
            assert_eq!(*l.get(LatticeIdx(p.0, p.1, p.2 + n)), here);
            assert_eq!(*l.get(LatticeIdx(p.0, p.1, p.2 - n)), here);
        }
    }
}

#[test]
fn set_and_get_mut_write_the_wrapped_cell() {
    let mut l = Lattice::filled(2, |_idx: LatticeIdx| 0i32).unwrap();
    l.set(LatticeIdx(3, -1, 2), 7);
    assert_eq!(*l.get(LatticeIdx(1, 1, 0)), 7);
    *l.get_mut(LatticeIdx(0, 0, -1)) = 9;
    assert_eq!(*l.get(LatticeIdx(0, 0, 1)), 9);
    assert_eq!(*l.cell_at(1), 9);
    assert_eq!(*l.cell_at(6), 7);
}
