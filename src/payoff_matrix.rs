use vstd::prelude::*;
use crate::bone_lattice::State;

verus! {

/// Payoff units per unit of payoff: payoffs and fitness are fixed-point
/// integers, `PAYOFF_SCALE` standing for a payoff of exactly 1.
pub const PAYOFF_SCALE: i32 = 10000;

/// Parameter units per unit of parameter: `by_params` takes its parameters in
/// thousandths.
pub const PARAM_SCALE: i32 = 1000;

/// Row or column of a population kind in the payoff table.
pub open spec fn kind_index(s: State) -> int {
    match s {
        State::Resorption => 0,
        State::Formation => 1,
        State::Quiescence => 2,
    }
}

/// The payoff `1 + ω·p` with `ω = 0.1`, for a parameter `p` given in
/// thousandths, in units of `1 / PAYOFF_SCALE`: `ω · PAYOFF_SCALE / PARAM_SCALE`
/// is exactly one payoff unit per parameter unit.
pub open spec fn perturbed(p: int) -> int {
    PAYOFF_SCALE + p
}

/// 3x3 table of the payoff that a cell of one population earns from a
/// neighbour of another, in units of `1 / PAYOFF_SCALE`.
#[derive(Debug, Clone, Copy)]
pub struct PayoffMatrix {
    resorption: [i32; 3],
    formation: [i32; 3],
    quiescence: [i32; 3],
}

impl PayoffMatrix {
    /// The payoff that a `cell` earns from one neighbour `against`.
    pub closed spec fn payoff(&self, cell: State, against: State) -> int {
        let row = match cell {
            State::Resorption => self.resorption@,
            State::Formation => self.formation@,
            State::Quiescence => self.quiescence@,
        };
        row[kind_index(against)] as int
    }

    /// Every payoff is an `i32`.
    pub proof fn lemma_payoff_range(&self, cell: State, against: State)
        ensures
            i32::MIN <= self.payoff(cell, against) <= i32::MAX,
    {
    }

    /// A table from its three rows; entry `j` of a row is the payoff against
    /// the kind of index `j` (resorption, formation, quiescence).
    pub fn new(resorption: [i32; 3], formation: [i32; 3], quiescence: [i32; 3]) -> (r: PayoffMatrix)
        ensures
            forall|a: State| #[trigger] r.payoff(State::Resorption, a) == resorption@[kind_index(a)],
            forall|a: State| #[trigger] r.payoff(State::Formation, a) == formation@[kind_index(a)],
            forall|a: State| #[trigger] r.payoff(State::Quiescence, a) == quiescence@[kind_index(a)],
    {
        PayoffMatrix { resorption, formation, quiescence }
    }

    /// The table of the model: every self-interaction pays exactly 1, and each
    /// cross-interaction pays `1 + ω·p` for one of the six parameters `p`
    /// (in thousandths).
    pub fn by_params(alpha: [i16; 3], beta: [i16; 3]) -> (r: PayoffMatrix)
        ensures
            r.payoff(State::Resorption, State::Resorption) == PAYOFF_SCALE,
            r.payoff(State::Resorption, State::Formation) == perturbed(alpha@[2] as int),
            r.payoff(State::Resorption, State::Quiescence) == perturbed(beta@[1] as int),
            r.payoff(State::Formation, State::Resorption) == perturbed(beta@[2] as int),
            r.payoff(State::Formation, State::Formation) == PAYOFF_SCALE,
            r.payoff(State::Formation, State::Quiescence) == perturbed(alpha@[0] as int),
            r.payoff(State::Quiescence, State::Resorption) == perturbed(alpha@[1] as int),
            r.payoff(State::Quiescence, State::Formation) == perturbed(beta@[0] as int),
            r.payoff(State::Quiescence, State::Quiescence) == PAYOFF_SCALE,
    {
        let one = PAYOFF_SCALE;
        Self::new(
            [one, alpha[2] as i32 + one, beta[1] as i32 + one],
            [beta[2] as i32 + one, one, alpha[0] as i32 + one],
            [alpha[1] as i32 + one, beta[0] as i32 + one, one],
        )
    }

    /// The payoff that a `cell` earns from one neighbour `against`.
    pub fn get(&self, cell: State, against: State) -> (r: i32)
        ensures
            r as int == self.payoff(cell, against),
    {
        let idx: usize = match against {
            State::Resorption => 0,
            State::Formation => 1,
            State::Quiescence => 2,
        };
        match cell {
            State::Resorption => self.resorption[idx],
            State::Formation => self.formation[idx],
            State::Quiescence => self.quiescence[idx],
        }
    }
}

} // verus!
