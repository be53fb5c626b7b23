use bone_lattice::bone_lattice::{BoneLattice, Direction, State, StepError};
use bone_lattice::lattice::LatticeIdx;
use bone_lattice::payoff_matrix::{PayoffMatrix, PAYOFF_SCALE};
use rand::rngs::StdRng;
use rand::SeedableRng;

fn lone_resorption(idx: LatticeIdx) -> State {
    if idx == LatticeIdx(1, 1, 1) {
        State::Resorption
    } else {
        State::Quiescence
    }
}

fn true_fitness(b: &BoneLattice, m: &PayoffMatrix, idx: LatticeIdx) -> i64 {
    let own = *b.state(idx);
    LatticeIdx::neighbor_iter(idx)
        .into_iter()
        .map(|nb| m.get(own, *b.state(nb)) as i64)
        .sum()
}

fn waits_with_min_at(len: usize, at: usize, low: u64, high: u64) -> Vec<u64> {
    let mut w = vec![high; len];
    w[at] = low;
    w
}

#[test]
fn construction_rejects_nonpositive_size() {
    let m = PayoffMatrix::by_params([0, 0, 0], [0, 0, 0]);
    assert!(BoneLattice::new(0, m, |_idx: LatticeIdx| State::Formation).is_none());
    assert!(BoneLattice::new(-2, m, |_idx: LatticeIdx| State::Formation).is_none());
}

#[test]
fn zero_parameters_give_fitness_six_everywhere() {
    let m = PayoffMatrix::by_params([0, 0, 0], [0, 0, 0]);
    let b = BoneLattice::new(3, m, |idx: LatticeIdx| State::from_draw(((idx.0 + 2 * idx.1 + 5 * idx.2) % 10) as u8))
        .unwrap();
    assert_eq!(b.size(), 3);
    assert_eq!(b.time(), 0);
    for p in LatticeIdx::cube_iter(3) {
        assert_eq!(*b.stored_fitness(p), 6 * PAYOFF_SCALE as i64);
    }
}

#[test]
fn construction_caches_true_fitness_everywhere() {
    let m = PayoffMatrix::by_params([150, -320, 75], [900, -40, 12]);
    let b = BoneLattice::new(4, m, |idx: LatticeIdx| State::from_draw(((3 * idx.0 + idx.1 * idx.1 + 7 * idx.2) % 10) as u8))
        .unwrap();
    for p in LatticeIdx::cube_iter(4) {
        assert_eq!(*b.stored_fitness(p), true_fitness(&b, &m, p));
        assert_eq!(*b.stored_fitness(LatticeIdx(p.0 - 4, p.1 + 4, p.2 - 8)), *b.stored_fitness(p));
    }
}

#[test]
fn fitness_of_a_lone_site_and_its_neighbours() {
    let m = PayoffMatrix::new([10, 20, 30], [40, 50, 60], [70, 80, 90]);
    let b = BoneLattice::new(3, m, lone_resorption).unwrap();
    assert_eq!(*b.stored_fitness(LatticeIdx(1, 1, 1)), 180);
    assert_eq!(*b.stored_fitness(LatticeIdx(0, 1, 1)), 520);
    assert_eq!(*b.stored_fitness(LatticeIdx(0, 0, 0)), 540);
}

#[test]
fn step_invades_chosen_neighbour_and_refreshes_invader_ring() {
    let m = PayoffMatrix::new([10, 20, 30], [40, 50, 60], [70, 80, 90]);
    let mut b = BoneLattice::new(3, m, lone_resorption).unwrap();
    let waits = waits_with_min_at(27, 13, 1, 1000);
    let r = b.step_with(&waits, Direction::PosX);
    assert_eq!(r, Ok((LatticeIdx(2, 1, 1), State::Resorption)));
    assert_eq!(*b.state(LatticeIdx(2, 1, 1)), State::Resorption);
    assert_eq!(b.count(), (2, 0, 25));
    // ceil(1 * 10000 / 180)
    assert_eq!(b.time(), 56);
    // the invader's ring is recomputed
    assert_eq!(*b.stored_fitness(LatticeIdx(2, 1, 1)), 160);
    assert_eq!(*b.stored_fitness(LatticeIdx(0, 1, 1)), 500);
    assert_eq!(*b.stored_fitness(LatticeIdx(1, 0, 1)), 520);
    // the invader itself and the target's other neighbours keep their cache
    assert_eq!(*b.stored_fitness(LatticeIdx(1, 1, 1)), 180);
    assert_eq!(*b.stored_fitness(LatticeIdx(2, 0, 1)), 540);
}

#[test]
fn first_shortest_wait_wins_ties() {
    let m = PayoffMatrix::by_params([0, 0, 0], [0, 0, 0]);
    let mut b = BoneLattice::new(2, m, |idx: LatticeIdx| if idx.2 == 0 { State::Formation } else { State::Resorption })
        .unwrap();
    let mut waits = vec![50u64; 8];
    waits[3] = 7;
    waits[6] = 7;
    let r = b.step_with(&waits, Direction::NegZ);
    // site 3 is (0, 1, 1), a resorption site; -z wraps to (0, 1, 0)
    assert_eq!(r, Ok((LatticeIdx(0, 1, 0), State::Resorption)));
    assert_eq!(b.count(), (5, 3, 0));
}

#[test]
fn step_rejects_wrong_sample_count() {
    let m = PayoffMatrix::by_params([0, 0, 0], [0, 0, 0]);
    let mut b = BoneLattice::new(3, m, lone_resorption).unwrap();
    let r = b.step_with(&vec![1u64; 26], Direction::PosY);
    assert_eq!(r, Err(StepError::WrongSampleCount));
    assert_eq!(b.time(), 0);
    assert_eq!(b.count(), (1, 0, 26));
}

#[test]
fn step_rejects_degenerate_fitness() {
    let m = PayoffMatrix::new([0, 0, 0], [0, 0, 0], [0, 0, 0]);
    let mut b = BoneLattice::new(2, m, |_idx: LatticeIdx| State::Formation).unwrap();
    let r = b.step_with(&vec![3u64; 8], Direction::PosY);
    assert_eq!(r, Err(StepError::DegenerateFitness));
    assert_eq!(b.time(), 0);
    let neg = PayoffMatrix::by_params([-30000, 0, 0], [0, 0, 0]);
    let mut c = BoneLattice::new(2, neg, |idx: LatticeIdx| if idx.0 == 0 { State::Formation } else { State::Quiescence })
        .unwrap();
    assert_eq!(c.step_with(&vec![3u64; 8], Direction::PosY), Err(StepError::DegenerateFitness));
}

#[test]
fn size_one_lattice_invades_itself() {
    let m = PayoffMatrix::by_params([310, -25, 4], [0, 77, -900]);
    let mut b = BoneLattice::new(1, m, |_idx: LatticeIdx| State::Formation).unwrap();
    assert_eq!(*b.stored_fitness(LatticeIdx(0, 0, 0)), 6 * PAYOFF_SCALE as i64);
    assert_eq!(*b.state(LatticeIdx(5, -3, 12)), State::Formation);
    for i in 0..6u8 {
        let d = Direction::from_index(i).unwrap();
        let r = b.step_with(&vec![5u64], d);
        assert_eq!(r, Ok((LatticeIdx(0, 0, 0), State::Formation)));
        assert_eq!(*b.stored_fitness(LatticeIdx(0, 0, 0)), 6 * PAYOFF_SCALE as i64);
    }
    // each step waits ceil(5 * 10000 / 60000) = 1 tick
    assert_eq!(b.time(), 6);
    assert_eq!(b.count(), (0, 1, 0));
}

#[test]
fn uniform_lattice_stays_uniform() {
    let m = PayoffMatrix::by_params([500, -300, 250], [-120, 40, 900]);
    let mut b = BoneLattice::new(4, m, |_idx: LatticeIdx| State::Quiescence).unwrap();
    let mut rng = StdRng::seed_from_u64(11);
    let mut last = b.time();
    for s in 0..40u64 {
        let waits: Vec<u64> = (0..64u64).map(|i| (i * 7919 + s * 104729) % 100000 + 1).collect();
        let r = b.step(&mut rng, &waits);
        assert!(r.is_ok());
        assert!(b.time() > last);
        last = b.time();
        assert_eq!(b.count(), (0, 0, 64));
    }
    for p in LatticeIdx::cube_iter(4) {
        assert_eq!(*b.state(p), State::Quiescence);
        assert_eq!(*b.stored_fitness(p), 6 * PAYOFF_SCALE as i64);
    }
}

#[test]
fn random_step_invades_a_neighbour_of_the_first_site_to_fire() {
    let m = PayoffMatrix::new([10, 20, 30], [40, 50, 60], [70, 80, 90]);
    let mut b = BoneLattice::new(3, m, lone_resorption).unwrap();
    let mut rng = StdRng::seed_from_u64(3);
    let waits = waits_with_min_at(27, 13, 1, 1000);
    let (target, kind) = b.step(&mut rng, &waits).unwrap();
    assert_eq!(kind, State::Resorption);
    let ring = LatticeIdx::neighbor_iter(LatticeIdx(1, 1, 1));
    assert!(ring.contains(&target));
    assert_eq!(*b.state(target), State::Resorption);
    assert_eq!(b.count(), (2, 0, 25));
}

#[test]
fn count_is_stable_and_sums_to_volume() {
    let m = PayoffMatrix::by_params([0, 0, 0], [0, 0, 0]);
    let b = BoneLattice::new(5, m, |idx: LatticeIdx| State::from_draw(((idx.0 * 3 + idx.1 * 5 + idx.2) % 10) as u8))
        .unwrap();
    let first = b.count();
    let second = b.count();
    assert_eq!(first, second);
    assert_eq!(first.0 + first.1 + first.2, 125);
}

#[test]
fn direct_writes_and_recompute() {
    let m = PayoffMatrix::new([10, 20, 30], [40, 50, 60], [70, 80, 90]);
    let mut b = BoneLattice::new(3, m, lone_resorption).unwrap();
    *b.state_mut(LatticeIdx(4, 1, 1)) = State::Formation;
    assert_eq!(*b.state(LatticeIdx(1, 1, 1)), State::Formation);
    assert_eq!(*b.stored_fitness(LatticeIdx(1, 1, 1)), 180);
    b.gen_fitness(LatticeIdx(1, 1, 1));
    assert_eq!(*b.stored_fitness(LatticeIdx(1, 1, 1)), 6 * 60);
    *b.fitness_mut(LatticeIdx(0, 0, 0)) = 12;
    assert_eq!(*b.stored_fitness(LatticeIdx(3, 3, -3)), 12);
}
