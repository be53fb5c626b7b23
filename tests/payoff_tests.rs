use bone_lattice::bone_lattice::{Direction, State};
use bone_lattice::payoff_matrix::{PayoffMatrix, PAYOFF_SCALE};

const KINDS: [State; 3] = [State::Resorption, State::Formation, State::Quiescence];

#[test]
fn zero_parameters_give_unit_payoffs() {
    let m = PayoffMatrix::by_params([0, 0, 0], [0, 0, 0]);
    for a in KINDS {
        for b in KINDS {
            assert_eq!(m.get(a, b), PAYOFF_SCALE);
        }
    }
}

#[test]
fn by_params_places_each_parameter() {
    // alpha = (0.1, 0.2, 0.3), beta = (-0.4, -0.5, -0.6), in thousandths
    let m = PayoffMatrix::by_params([100, 200, 300], [-400, -500, -600]);
    assert_eq!(m.get(State::Resorption, State::Resorption), 10000);
    assert_eq!(m.get(State::Resorption, State::Formation), 10300);
    assert_eq!(m.get(State::Resorption, State::Quiescence), 9500);
    assert_eq!(m.get(State::Formation, State::Resorption), 9400);
    assert_eq!(m.get(State::Formation, State::Formation), 10000);
    assert_eq!(m.get(State::Formation, State::Quiescence), 10100);
    assert_eq!(m.get(State::Quiescence, State::Resorption), 10200);
    assert_eq!(m.get(State::Quiescence, State::Formation), 9600);
    assert_eq!(m.get(State::Quiescence, State::Quiescence), 10000);
}

#[test]
fn new_reads_rows_by_kind() {
    let m = PayoffMatrix::new([1, 2, 3], [4, 5, 6], [7, 8, 9]);
    assert_eq!(m.get(State::Resorption, State::Quiescence), 3);
    assert_eq!(m.get(State::Formation, State::Resorption), 4);
    assert_eq!(m.get(State::Quiescence, State::Formation), 8);
}

#[test]
fn kind_from_draw_thresholds() {
    assert_eq!(State::from_draw(0), State::Resorption);
    assert_eq!(State::from_draw(1), State::Resorption);
    assert_eq!(State::from_draw(2), State::Formation);
    assert_eq!(State::from_draw(4), State::Formation);
    assert_eq!(State::from_draw(5), State::Quiescence);
    assert_eq!(State::from_draw(9), State::Quiescence);
}

#[test]
fn direction_from_index() {
    assert_eq!(Direction::from_index(0), Some(Direction::NegX));
    assert_eq!(Direction::from_index(3), Some(Direction::PosY));
    assert_eq!(Direction::from_index(5), Some(Direction::PosZ));
    assert_eq!(Direction::from_index(6), None);
    assert_eq!(Direction::PosX.offset(), bone_lattice::lattice::LatticeIdx(1, 0, 0));
    assert_eq!(Direction::NegZ.offset(), bone_lattice::lattice::LatticeIdx(0, 0, -1));
}
