use vstd::prelude::*;
use crate::lattice::{
    cell, flat, flat_index, idx_in_cube, in_cube, lemma_flat_bounds, lemma_flat_in_cube,
    lemma_flat_shift, lemma_point_of, lemma_point_of_cell, lemma_point_of_flat, point_of, volume,
    wrap, Lattice, LatticeIdx,
};
use crate::payoff_matrix::{PayoffMatrix, PAYOFF_SCALE};
use crate::random::draw_direction;

verus! {

/// The three competing populations.
#[derive(Debug, Clone, Copy, PartialEq, Eq, Structural)]
pub enum State {
    Resorption,
    Formation,
    Quiescence,
}

impl State {
    /// The kind that a uniform draw `d` in `0..10` stands for: resorption with
    /// probability 0.2, formation with 0.3, quiescence with 0.5.
    pub fn from_draw(d: u8) -> (r: State)
        ensures
            d < 2 ==> r == State::Resorption,
            2 <= d < 5 ==> r == State::Formation,
            5 <= d ==> r == State::Quiescence,
    {
        if d < 2 {
            State::Resorption
        } else if d < 5 {
            State::Formation
        } else {
            State::Quiescence
        }
    }
}

/// One site of the lattice: the population that holds it and its cached
/// fitness, in payoff units.
pub type Site = (State, i64);

/// The population kinds of a sequence of sites.
pub open spec fn kinds(sites: Seq<Site>) -> Seq<State> {
    sites.map_values(|s: Site| s.0)
}

/// Fitness of the point `(x, y, z)` of a lattice of side `n` holding `k`: the
/// sum of the payoffs that its kind earns from each of its six neighbours.
pub open spec fn local_fitness(m: PayoffMatrix, k: Seq<State>, n: int, x: int, y: int, z: int) -> int {
    let own = k[flat(n, x, y, z)];
    m.payoff(own, k[flat(n, x - 1, y, z)]) + m.payoff(own, k[flat(n, x + 1, y, z)]) + m.payoff(
        own,
        k[flat(n, x, y - 1, z)],
    ) + m.payoff(own, k[flat(n, x, y + 1, z)]) + m.payoff(own, k[flat(n, x, y, z - 1)])
        + m.payoff(own, k[flat(n, x, y, z + 1)])
}

/// Fitness of the site at position `p`.
pub open spec fn fitness_at(m: PayoffMatrix, k: Seq<State>, n: int, p: int) -> int {
    local_fitness(m, k, n, point_of(n, p).0, point_of(n, p).1, point_of(n, p).2)
}

/// The fitness of a point only depends on the cell it addresses.
pub proof fn lemma_fitness_at_flat(m: PayoffMatrix, k: Seq<State>, n: int, x: int, y: int, z: int)
    requires
        n >= 1,
    ensures
        fitness_at(m, k, n, flat(n, x, y, z)) == local_fitness(m, k, n, x, y, z),
{
    lemma_point_of_flat(n, x, y, z);
    lemma_flat_shift(n, x, y, z, 0, 0, 0);
    lemma_flat_shift(n, x, y, z, -1, 0, 0);
    lemma_flat_shift(n, x, y, z, 1, 0, 0);
    lemma_flat_shift(n, x, y, z, 0, -1, 0);
    lemma_flat_shift(n, x, y, z, 0, 1, 0);
    lemma_flat_shift(n, x, y, z, 0, 0, -1);
    lemma_flat_shift(n, x, y, z, 0, 0, 1);
}

/// A fitness is a sum of six `i32` payoffs, so it fits in an `i64`.
pub proof fn lemma_fitness_range(m: PayoffMatrix, k: Seq<State>, n: int, p: int)
    ensures
        6 * (i32::MIN as int) <= fitness_at(m, k, n, p) <= 6 * (i32::MAX as int),
{
    let (x, y, z) = point_of(n, p);
    let own = k[flat(n, x, y, z)];
    m.lemma_payoff_range(own, k[flat(n, x - 1, y, z)]);
    m.lemma_payoff_range(own, k[flat(n, x + 1, y, z)]);
    m.lemma_payoff_range(own, k[flat(n, x, y - 1, z)]);
    m.lemma_payoff_range(own, k[flat(n, x, y + 1, z)]);
    m.lemma_payoff_range(own, k[flat(n, x, y, z - 1)]);
    m.lemma_payoff_range(own, k[flat(n, x, y, z + 1)]);
}

/// A waiting-time sample times a fitness fits in a `u128`.
proof fn lemma_product_fits(w: u64, f: i64)
    requires
        f > 0,
    ensures
        (w as int) * (f as int) < u128::MAX,
{
    assert((w as int) * (f as int) <= 0xffff_ffff_ffff_ffff * 0x7fff_ffff_ffff_ffff) by (nonlinear_arith)
        requires
            0 <= w <= 0xffff_ffff_ffff_ffff,
            0 < f <= 0x7fff_ffff_ffff_ffff,
    ;
}

/// Where the six neighbours of a point of the cube lie.
proof fn lemma_neighbor_cells(n: int, c: LatticeIdx)
    requires
        n >= 1,
        n <= i16::MAX,
        idx_in_cube(c, n),
    ensures
        crate::lattice::interior(c),
        ({
            let nb = crate::lattice::neighbors(c);
            let (cx, cy, cz) = (c.0 as int, c.1 as int, c.2 as int);
            &&& flat_index(nb[0], n) == flat(n, cx - 1, cy, cz)
            &&& flat_index(nb[1], n) == flat(n, cx + 1, cy, cz)
            &&& flat_index(nb[2], n) == flat(n, cx, cy - 1, cz)
            &&& flat_index(nb[3], n) == flat(n, cx, cy + 1, cz)
            &&& flat_index(nb[4], n) == flat(n, cx, cy, cz - 1)
            &&& flat_index(nb[5], n) == flat(n, cx, cy, cz + 1)
            &&& 0 <= flat(n, cx, cy, cz) < volume(n)
            &&& 0 <= flat(n, cx - 1, cy, cz) < volume(n)
            &&& 0 <= flat(n, cx + 1, cy, cz) < volume(n)
            &&& 0 <= flat(n, cx, cy - 1, cz) < volume(n)
            &&& 0 <= flat(n, cx, cy + 1, cz) < volume(n)
            &&& 0 <= flat(n, cx, cy, cz - 1) < volume(n)
            &&& 0 <= flat(n, cx, cy, cz + 1) < volume(n)
        }),
{
    let (cx, cy, cz) = (c.0 as int, c.1 as int, c.2 as int);
    lemma_flat_bounds(n, cx, cy, cz);
    lemma_flat_bounds(n, cx - 1, cy, cz);
    lemma_flat_bounds(n, cx + 1, cy, cz);
    lemma_flat_bounds(n, cx, cy - 1, cz);
    lemma_flat_bounds(n, cx, cy + 1, cz);
    lemma_flat_bounds(n, cx, cy, cz - 1);
    lemma_flat_bounds(n, cx, cy, cz + 1);
}

/// The fitness of a point is that of its reduction.
proof fn lemma_wrapped_fitness(m: PayoffMatrix, k: Seq<State>, n: int, idx: LatticeIdx, c: LatticeIdx)
    requires
        n >= 1,
        c.0 as int == wrap(idx.0 as int, n),
        c.1 as int == wrap(idx.1 as int, n),
        c.2 as int == wrap(idx.2 as int, n),
    ensures
        flat_index(c, n) == flat_index(idx, n),
        fitness_at(m, k, n, flat_index(idx, n)) == local_fitness(m, k, n, c.0 as int, c.1 as int, c.2 as int),
{
    let (x, y, z) = (idx.0 as int, idx.1 as int, idx.2 as int);
    lemma_flat_shift(n, x, y, z, 0, 0, 0);
    lemma_fitness_at_flat(m, k, n, x, y, z);
    lemma_fitness_at_flat(m, k, n, c.0 as int, c.1 as int, c.2 as int);
    lemma_flat_shift(n, c.0 as int, c.1 as int, c.2 as int, 0, 0, 0);
    crate::lattice::lemma_flat_bounds(n, x, y, z);
    vstd::arithmetic::div_mod::lemma_mod_twice(x, n);
    vstd::arithmetic::div_mod::lemma_mod_twice(y, n);
    vstd::arithmetic::div_mod::lemma_mod_twice(z, n);
}

/// Ticks of simulated time per unit: waiting-time samples and the clock are
/// fixed-point integers in units of `1 / TICKS_PER_UNIT`.
pub const TICKS_PER_UNIT: u64 = 4294967296;

/// The six axis directions in which a site can invade a neighbour.
#[derive(Debug, Clone, Copy, PartialEq, Eq, Structural)]
pub enum Direction {
    NegX,
    PosX,
    NegY,
    PosY,
    NegZ,
    PosZ,
}

impl Direction {
    pub open spec fn delta(self) -> (int, int, int) {
        match self {
            Direction::NegX => (-1, 0, 0),
            Direction::PosX => (1, 0, 0),
            Direction::NegY => (0, -1, 0),
            Direction::PosY => (0, 1, 0),
            Direction::NegZ => (0, 0, -1),
            Direction::PosZ => (0, 0, 1),
        }
    }

    /// Position of the direction in the order -x, +x, -y, +y, -z, +z.
    pub open spec fn index(self) -> int {
        match self {
            Direction::NegX => 0,
            Direction::PosX => 1,
            Direction::NegY => 2,
            Direction::PosY => 3,
            Direction::NegZ => 4,
            Direction::PosZ => 5,
        }
    }

    /// The direction at position `i` of the order -x, +x, -y, +y, -z, +z.
    pub fn from_index(i: u8) -> (r: Option<Direction>)
        ensures
            r is Some <==> i < 6,
            r matches Some(d) ==> d.index() == i as int,
    {
        match i {
            0 => Some(Direction::NegX),
            1 => Some(Direction::PosX),
            2 => Some(Direction::NegY),
            3 => Some(Direction::PosY),
            4 => Some(Direction::NegZ),
            5 => Some(Direction::PosZ),
            _ => None,
        }
    }

    /// The unit step of the direction.
    pub fn offset(self) -> (r: LatticeIdx)
        ensures
            (r.0 as int, r.1 as int, r.2 as int) == self.delta(),
    {
        match self {
            Direction::NegX => LatticeIdx(-1, 0, 0),
            Direction::PosX => LatticeIdx(1, 0, 0),
            Direction::NegY => LatticeIdx(0, -1, 0),
            Direction::PosY => LatticeIdx(0, 1, 0),
            Direction::NegZ => LatticeIdx(0, 0, -1),
            Direction::PosZ => LatticeIdx(0, 0, 1),
        }
    }
}

/// Why a step was refused; the lattice is left as it was.
#[derive(Debug, Clone, Copy, PartialEq, Eq, Structural)]
pub enum StepError {
    /// The waiting-time samples are not one per site.
    WrongSampleCount,
    /// Some site has a fitness of zero or less, so its waiting time is undefined.
    DegenerateFitness,
    /// The clock would pass the largest time it can hold.
    TimeOverflow,
}

/// Positions of the six neighbours of the site at position `src`.
pub open spec fn ring(n: int, src: int) -> Seq<int> {
    let (x, y, z) = point_of(n, src);
    seq![
        flat(n, x - 1, y, z),
        flat(n, x + 1, y, z),
        flat(n, x, y - 1, z),
        flat(n, x, y + 1, z),
        flat(n, x, y, z - 1),
        flat(n, x, y, z + 1),
    ]
}

/// Whether `p` is among the first `k` entries of the six-entry sequence `r`.
pub open spec fn among(r: Seq<int>, k: int, p: int) -> bool {
    ||| (0 < k && r[0] == p)
    ||| (1 < k && r[1] == p)
    ||| (2 < k && r[2] == p)
    ||| (3 < k && r[3] == p)
    ||| (4 < k && r[4] == p)
    ||| (5 < k && r[5] == p)
}

/// Whether the waiting time `w[a] / fitness(a)` of site `a` is shorter than
/// that of site `b` (fitnesses positive).
pub open spec fn earlier(w: Seq<u64>, s: Seq<Site>, a: int, b: int) -> bool {
    (w[a] as int) * (s[b].1 as int) < (w[b] as int) * (s[a].1 as int)
}

/// Among the first `i` sites, the first one with the shortest waiting time.
pub open spec fn first_min(w: Seq<u64>, s: Seq<Site>, i: int) -> int
    decreases i,
{
    if i <= 1 {
        0
    } else {
        let b = first_min(w, s, i - 1);
        if earlier(w, s, i - 1, b) {
            i - 1
        } else {
            b
        }
    }
}

/// Time in ticks for a standard exponential sample `e` (in ticks) at rate
/// `l` (in payoff units): `e / l` in real units, rounded up to a whole tick.
pub open spec fn increment(e: int, l: int) -> int {
    (e * PAYOFF_SCALE + l - 1) / l
}

/// Position of the site that the site at `src` invades in direction `d`.
pub open spec fn target(n: int, src: int, d: Direction) -> int {
    let (x, y, z) = point_of(n, src);
    flat(n, x + d.delta().0, y + d.delta().1, z + d.delta().2)
}

/// The sites after the site at `src` invades in direction `d`: the target
/// takes the invader's kind and keeps its cached fitness, then the six
/// neighbours of the invader have their fitness recomputed. Neighbours of the
/// target outside that ring keep their cached fitness as it was.
pub open spec fn invaded(m: PayoffMatrix, s: Seq<Site>, n: int, src: int, d: Direction) -> Seq<Site> {
    let t = target(n, src, d);
    let s1 = s.update(t, (s[src].0, s[t].1));
    Seq::new(
        s.len(),
        |p: int|
            if among(ring(n, src), 6, p) {
                (s1[p].0, fitness_at(m, kinds(s1), n, p) as i64)
            } else {
                s1[p]
            },
    )
}

/// What a step from `old` with waiting-time samples `w` (one per site, in
/// row-major order) and invasion direction `d` results in.
pub open spec fn step_outcome(
    old: BoneLattice,
    new: BoneLattice,
    w: Seq<u64>,
    d: Direction,
    r: Result<(LatticeIdx, State), StepError>,
) -> bool {
    let n = old.side();
    let s = old.sites();
    if w.len() != s.len() {
        r == Err::<(LatticeIdx, State), StepError>(StepError::WrongSampleCount) && new == old
    } else if exists|p: int| 0 <= p < s.len() && #[trigger] s[p].1 <= 0 {
        r == Err::<(LatticeIdx, State), StepError>(StepError::DegenerateFitness) && new == old
    } else {
        let m = first_min(w, s, s.len() as int);
        let clock = old.clock() + increment(w[m] as int, s[m].1 as int);
        if clock > u128::MAX {
            r == Err::<(LatticeIdx, State), StepError>(StepError::TimeOverflow) && new == old
        } else {
            let q = point_of(n, target(n, m, d));
            &&& r == Ok::<(LatticeIdx, State), StepError>(
                (LatticeIdx(q.0 as i16, q.1 as i16, q.2 as i16), s[m].0),
            )
            &&& new.side() == n
            &&& new.payoffs() == old.payoffs()
            &&& new.sites() == invaded(old.payoffs(), s, n, m, d)
            &&& new.clock() == clock
        }
    }
}

/// Whether every site holds the kind `k`.
pub open spec fn uniform(s: Seq<Site>, k: State) -> bool {
    forall|p: int| 0 <= p < s.len() ==> #[trigger] s[p].0 == k
}

/// Number of sites of kind `k`.
pub open spec fn tally(s: Seq<Site>, k: State) -> nat
    decreases s.len(),
{
    if s.len() == 0 {
        0
    } else {
        tally(s.drop_last(), k) + if s.last().0 == k {
            1nat
        } else {
            0nat
        }
    }
}

/// On a lattice whose cached fitness is consistent, every coordinate, in or out
/// of the cube, reads a stored fitness equal to the sum of the payoffs that
/// its kind earns from its six neighbours.
pub proof fn lemma_consistent_at(b: BoneLattice, x: int, y: int, z: int)
    requires
        b.wf(),
        b.consistent(),
    ensures
        b.sites()[flat(b.side(), x, y, z)].1 == local_fitness(
            b.payoffs(),
            kinds(b.sites()),
            b.side(),
            x,
            y,
            z,
        ),
{
    lemma_flat_bounds(b.side(), x, y, z);
    lemma_fitness_at_flat(b.payoffs(), kinds(b.sites()), b.side(), x, y, z);
}

/// The invader and its target are sites of the lattice.
proof fn lemma_step_positions(old: BoneLattice, w: Seq<u64>, d: Direction)
    requires
        old.wf(),
    ensures
        0 <= first_min(w, old.sites(), old.sites().len() as int) < old.sites().len(),
        0 <= target(old.side(), first_min(w, old.sites(), old.sites().len() as int), d) < old.sites().len(),
{
    let s = old.sites();
    let n = old.side();
    assert(s.len() >= 1) by (nonlinear_arith)
        requires
            s.len() == n * n * n,
            n >= 1,
    ;
    lemma_first_min_range(w, s, s.len() as int);
    let m = first_min(w, s, s.len() as int);
    let (x, y, z) = point_of(n, m);
    lemma_flat_bounds(n, x + d.delta().0, y + d.delta().1, z + d.delta().2);
}

/// A step keeps every cached fitness consistent, provided that no site outside
/// the invader's ring of neighbours has its fitness changed by the invasion.
/// A step that fails leaves the lattice as it was.
pub proof fn lemma_step_keeps_consistency(
    old: BoneLattice,
    new: BoneLattice,
    w: Seq<u64>,
    d: Direction,
    r: Result<(LatticeIdx, State), StepError>,
)
    requires
        old.wf(),
        old.consistent(),
        step_outcome(old, new, w, d, r),
        r is Ok ==> forall|p: int|
            0 <= p < old.sites().len() && !among(
                ring(old.side(), first_min(w, old.sites(), old.sites().len() as int)),
                6,
                p,
            ) ==> #[trigger] fitness_at(old.payoffs(), kinds(new.sites()), old.side(), p)
                == fitness_at(old.payoffs(), kinds(old.sites()), old.side(), p),
    ensures
        new.consistent(),
{
    if r is Ok {
        let s = old.sites();
        let n = old.side();
        let mm = old.payoffs();
        let m = first_min(w, s, s.len() as int);
        let t = target(n, m, d);
        let s1 = s.update(t, (s[m].0, s[t].1));
        lemma_step_positions(old, w, d);
        assert(kinds(new.sites()) =~= kinds(s1));
        assert forall|p: int| 0 <= p < new.sites().len() implies #[trigger] new.sites()[p].1 as int
            == fitness_at(new.payoffs(), kinds(new.sites()), new.side(), p) by {
            lemma_fitness_range(mm, kinds(s1), n, p);
            if !among(ring(n, m), 6, p) {
                assert(fitness_at(mm, kinds(new.sites()), n, p) == fitness_at(mm, kinds(s), n, p));
                assert(s[p].1 as int == fitness_at(mm, kinds(s), n, p));
            }
        }
    }
}

/// A step whose target already holds the invader's kind keeps every cached
/// fitness consistent.
pub proof fn lemma_same_kind_step_keeps_consistency(
    old: BoneLattice,
    new: BoneLattice,
    w: Seq<u64>,
    d: Direction,
    r: Result<(LatticeIdx, State), StepError>,
)
    requires
        old.wf(),
        old.consistent(),
        step_outcome(old, new, w, d, r),
        r is Ok ==> ({
            let s = old.sites();
            let m = first_min(w, s, s.len() as int);
            s[target(old.side(), m, d)].0 == s[m].0
        }),
    ensures
        new.consistent(),
{
    if r is Ok {
        lemma_step_positions(old, w, d);
        assert(kinds(new.sites()) =~= kinds(old.sites()));
    }
    lemma_step_keeps_consistency(old, new, w, d, r);
}

/// Time never goes back, and a step that succeeds on positive samples moves
/// it strictly forward.
pub proof fn lemma_time_increases(
    old: BoneLattice,
    new: BoneLattice,
    w: Seq<u64>,
    d: Direction,
    r: Result<(LatticeIdx, State), StepError>,
)
    requires
        old.wf(),
        step_outcome(old, new, w, d, r),
    ensures
        new.clock() >= old.clock(),
        r is Ok && (forall|p: int| 0 <= p < w.len() ==> #[trigger] w[p] > 0) ==> new.clock()
            > old.clock(),
{
    let s = old.sites();
    if r is Ok {
        let m = first_min(w, s, s.len() as int);
        lemma_step_positions(old, w, d);
        let e = w[m] as int;
        let l = s[m].1 as int;
        assert(l > 0);
        vstd::arithmetic::div_mod::lemma_div_pos_is_pos(e * PAYOFF_SCALE + l - 1, l);
        assert(e * PAYOFF_SCALE >= 0) by (nonlinear_arith)
            requires
                e >= 0,
        ;
        if forall|p: int| 0 <= p < w.len() ==> #[trigger] w[p] > 0 {
            assert(w[m] > 0);
            assert(e * PAYOFF_SCALE + l - 1 >= l) by (nonlinear_arith)
                requires
                    e >= 1,
            ;
            vstd::arithmetic::div_mod::lemma_div_is_ordered(l, e * PAYOFF_SCALE + l - 1, l);
            vstd::arithmetic::div_mod::lemma_div_by_self(l);
        }
    }
}

/// The first shortest wait is at one of the first `i` sites.
pub proof fn lemma_first_min_range(w: Seq<u64>, s: Seq<Site>, i: int)
    requires
        i >= 1,
    ensures
        0 <= first_min(w, s, i) < i,
    decreases i,
{
    if i > 1 {
        lemma_first_min_range(w, s, i - 1);
    }
}

/// Ratios with positive denominators compare transitively:
/// `a/la < b/lb <= c/lc` gives `a/la < c/lc`.
proof fn lemma_earlier_trans(a: int, la: int, b: int, lb: int, c: int, lc: int)
    requires
        la > 0,
        lb > 0,
        lc > 0,
        a * lb < b * la,
        b * lc <= c * lb,
    ensures
        a * lc < c * la,
{
    assert(a * lb * lc < b * la * lc) by (nonlinear_arith)
        requires
            a * lb < b * la,
            lc > 0,
    ;
    assert(b * lc * la <= c * lb * la) by (nonlinear_arith)
        requires
            b * lc <= c * lb,
            la > 0,
    ;
    assert(a * lc * lb < c * la * lb) by (nonlinear_arith)
        requires
            a * lb * lc < b * la * lc,
            b * lc * la <= c * lb * la,
    ;
    assert(a * lc < c * la) by (nonlinear_arith)
        requires
            a * lc * lb < c * la * lb,
            lb > 0,
    ;
}

/// The site that `first_min` picks among the first `i` waits strictly sooner
/// than every site before it, and no site after it waits less: it is the
/// first site with the shortest waiting time.
pub proof fn lemma_first_min_is_earliest(w: Seq<u64>, s: Seq<Site>, i: int)
    requires
        1 <= i <= s.len(),
        i <= w.len(),
        forall|p: int| 0 <= p < i ==> #[trigger] s[p].1 > 0,
    ensures
        forall|j: int| 0 <= j < first_min(w, s, i) ==> earlier(w, s, first_min(w, s, i), j),
        forall|j: int| first_min(w, s, i) < j < i ==> !earlier(w, s, j, first_min(w, s, i)),
    decreases i,
{
    lemma_first_min_range(w, s, i);
    if i > 1 {
        lemma_first_min_is_earliest(w, s, i - 1);
        let b = first_min(w, s, i - 1);
        lemma_first_min_range(w, s, i - 1);
        let k = i - 1;
        if earlier(w, s, k, b) {
            assert forall|j: int| 0 <= j < k implies earlier(w, s, k, j) by {
                assert(s[k].1 > 0 && s[b].1 > 0 && s[j].1 > 0);
                if j < b {
                    assert(earlier(w, s, b, j));
                    lemma_earlier_trans(
                        w[k] as int, s[k].1 as int, w[b] as int, s[b].1 as int, w[j] as int, s[j].1 as int,
                    );
                } else if j > b {
                    assert(!earlier(w, s, j, b));
                    lemma_earlier_trans(
                        w[k] as int, s[k].1 as int, w[b] as int, s[b].1 as int, w[j] as int, s[j].1 as int,
                    );
                }
            }
        }
    }
}

/// A lattice holding one kind only counts all its sites in that kind.
pub proof fn lemma_uniform_tally(s: Seq<Site>, k: State)
    requires
        uniform(s, k),
    ensures
        tally(s, k) == s.len(),
    decreases s.len(),
{
    if s.len() > 0 {
        assert(uniform(s.drop_last(), k));
        lemma_uniform_tally(s.drop_last(), k);
    }
}

/// A lattice that holds one kind only, with consistent fitness, stays so
/// through every step, and counts all its sites in that kind.
pub proof fn lemma_uniform_step(
    old: BoneLattice,
    new: BoneLattice,
    w: Seq<u64>,
    d: Direction,
    r: Result<(LatticeIdx, State), StepError>,
    k: State,
)
    requires
        old.wf(),
        old.consistent(),
        uniform(old.sites(), k),
        step_outcome(old, new, w, d, r),
    ensures
        new.consistent(),
        uniform(new.sites(), k),
        tally(new.sites(), k) == volume(new.side()),
{
    let s = old.sites();
    let n = old.side();
    if r is Ok {
        lemma_step_positions(old, w, d);
        assert(kinds(new.sites()) =~= kinds(s));
    }
    lemma_same_kind_step_keeps_consistency(old, new, w, d, r);
    lemma_uniform_tally(new.sites(), k);
}

/// The simulation: a cube of sites, the payoff table that drives it, and the
/// simulated time, in units of `1 / TICKS_PER_UNIT`.
#[derive(Debug)]
pub struct BoneLattice {
    data: Lattice<Site>,
    time: u128,
    payoff_matrix: PayoffMatrix,
}

impl BoneLattice {
    /// Side of the cube.
    pub closed spec fn side(&self) -> int {
        self.data.side()
    }

    /// The sites in row-major order.
    pub closed spec fn sites(&self) -> Seq<Site> {
        self.data@
    }

    /// Simulated time, in ticks.
    pub closed spec fn clock(&self) -> int {
        self.time as int
    }

    pub closed spec fn payoffs(&self) -> PayoffMatrix {
        self.payoff_matrix
    }

    pub open spec fn wf(&self) -> bool {
        &&& self.side() >= 1
        &&& volume(self.side()) <= usize::MAX
        &&& self.sites().len() == volume(self.side())
    }

    /// Every cached fitness equals the fitness that the neighbourhood gives.
    pub open spec fn consistent(&self) -> bool {
        forall|p: int|
            0 <= p < self.sites().len() ==> #[trigger] self.sites()[p].1 as int == fitness_at(
                self.payoffs(),
                kinds(self.sites()),
                self.side(),
                p,
            )
    }

    proof fn lemma_wf(&self)
        requires
            self.wf(),
        ensures
            self.data.wf(),
    {
    }

    /// A lattice of side `size` whose point `p` holds `filler(p)`, with every
    /// fitness computed and the time at 0. Refused (`None`) for a side below
    /// 1 or a cube too large to address.
    pub fn new<F: Fn(LatticeIdx) -> State>(size: i16, matrix: PayoffMatrix, filler: F) -> (r: Option<Self>)
        requires
            forall|c: LatticeIdx| idx_in_cube(c, size as int) ==> #[trigger] filler.requires((c,)),
        ensures
            r is None <==> (size < 1 || volume(size as int) > usize::MAX),
            r matches Some(b) ==> {
                &&& b.wf()
                &&& b.side() == size as int
                &&& b.payoffs() == matrix
                &&& b.clock() == 0
                &&& b.consistent()
                &&& forall|x: int, y: int, z: int|
                    in_cube(size as int, x, y, z) ==> filler.ensures(
                        (LatticeIdx(x as i16, y as i16, z as i16),),
                        #[trigger] b.sites()[cell(size as int, x, y, z)].0,
                    )
            },
    {
        let fill = &filler;
        let make_site = (|idx: LatticeIdx| -> (s: Site)
            requires
                fill.requires((idx,)),
            ensures
                s.1 == 0,
                fill.ensures((idx,), s.0),
            {
                let kind = fill(idx);
                let fresh: i64 = 0;
                (kind, fresh)
            });
        let data = match Lattice::filled(
            size,
            make_site,
        ) {
            Some(d) => d,
            None => {
                return None;
            },
        };
        let mut this = BoneLattice { data, time: 0, payoff_matrix: matrix };
        let ghost n = size as int;
        let ghost k0 = kinds(this.sites());
        let ghost s0 = this.sites();
        let points = LatticeIdx::cube_iter(size);
        let mut i: usize = 0;
        while i < points.len()
            invariant
                this.wf(),
                this.side() == n,
                n == size as int,
                this.payoffs() == matrix,
                this.clock() == 0,
                points@.len() == volume(n),
                i <= points@.len(),
                kinds(this.sites()) == k0,
                forall|j: int|
                    0 <= j < points@.len() ==> idx_in_cube(#[trigger] points@[j], n) && cell(
                        n,
                        points@[j].0 as int,
                        points@[j].1 as int,
                        points@[j].2 as int,
                    ) == j,
                forall|p: int|
                    0 <= p < i ==> #[trigger] this.sites()[p].1 as int == fitness_at(matrix, k0, n, p),
            decreases points@.len() - i,
        {
            let c = points[i];
            proof {
                lemma_flat_in_cube(n, c.0 as int, c.1 as int, c.2 as int);
                lemma_point_of_cell(n, c.0 as int, c.1 as int, c.2 as int);
            }
            let ghost before = this.sites();
            this.gen_fitness(c);
            proof {
                lemma_fitness_range(matrix, k0, n, i as int);
                assert(kinds(this.sites()) =~= kinds(before));
            }
            i = i + 1;
        }
        assert forall|x: int, y: int, z: int| in_cube(n, x, y, z) implies filler.ensures(
            (LatticeIdx(x as i16, y as i16, z as i16),),
            #[trigger] this.sites()[cell(n, x, y, z)].0,
        ) by {
            crate::lattice::lemma_cell_bounds(n, x, y, z);
            assert(kinds(this.sites())[cell(n, x, y, z)] == k0[cell(n, x, y, z)]);
            assert(k0[cell(n, x, y, z)] == s0[cell(n, x, y, z)].0);
        }
        Some(this)
    }

    /// Side of the cube.
    pub fn size(&self) -> (r: i16)
        requires
            self.wf(),
        ensures
            r as int == self.side(),
    {
        self.data.size()
    }

    /// Simulated time, in ticks of `1 / TICKS_PER_UNIT`.
    pub fn time(&self) -> (r: u128)
        ensures
            r as int == self.clock(),
    {
        self.time
    }

    /// The population at `idx`, after periodic reduction.
    pub fn state(&self, idx: LatticeIdx) -> (r: &State)
        requires
            self.wf(),
        ensures
            *r == self.sites()[flat_index(idx, self.side())].0,
    {
        proof {
            self.lemma_wf();
        }
        &self.data.get(idx).0
    }

    /// The population at `idx`, after periodic reduction, for writing. The
    /// cached fitness of the site and of its neighbours is left as it was.
    pub fn state_mut(&mut self, idx: LatticeIdx) -> (r: &mut State)
        requires
            old(self).wf(),
        ensures
            *r == old(self).sites()[flat_index(idx, old(self).side())].0,
            final(self).side() == old(self).side(),
            final(self).payoffs() == old(self).payoffs(),
            final(self).clock() == old(self).clock(),
            final(self).sites() == old(self).sites().update(
                flat_index(idx, old(self).side()),
                (*final(r), old(self).sites()[flat_index(idx, old(self).side())].1),
            ),
    {
        proof {
            self.lemma_wf();
        }
        &mut self.data.get_mut(idx).0
    }

    /// The cached fitness at `idx`, after periodic reduction.
    pub fn stored_fitness(&self, idx: LatticeIdx) -> (r: &i64)
        requires
            self.wf(),
        ensures
            *r == self.sites()[flat_index(idx, self.side())].1,
    {
        proof {
            self.lemma_wf();
        }
        &self.data.get(idx).1
    }

    /// The cached fitness at `idx`, after periodic reduction, for writing.
    pub fn fitness_mut(&mut self, idx: LatticeIdx) -> (r: &mut i64)
        requires
            old(self).wf(),
        ensures
            *r == old(self).sites()[flat_index(idx, old(self).side())].1,
            final(self).side() == old(self).side(),
            final(self).payoffs() == old(self).payoffs(),
            final(self).clock() == old(self).clock(),
            final(self).sites() == old(self).sites().update(
                flat_index(idx, old(self).side()),
                (old(self).sites()[flat_index(idx, old(self).side())].0, *final(r)),
            ),
    {
        proof {
            self.lemma_wf();
        }
        &mut self.data.get_mut(idx).1
    }

    /// Recomputes the cached fitness of the site at `idx` from its current
    /// neighbourhood.
    #[verifier::rlimit(40)]
    pub fn gen_fitness(&mut self, idx: LatticeIdx)
        requires
            old(self).wf(),
        ensures
            final(self).wf(),
            final(self).side() == old(self).side(),
            final(self).payoffs() == old(self).payoffs(),
            final(self).clock() == old(self).clock(),
            final(self).sites() == old(self).sites().update(
                flat_index(idx, old(self).side()),
                (
                    old(self).sites()[flat_index(idx, old(self).side())].0,
                    fitness_at(
                        old(self).payoffs(),
                        kinds(old(self).sites()),
                        old(self).side(),
                        flat_index(idx, old(self).side()),
                    ) as i64,
                ),
            ),
    {
        proof {
            self.lemma_wf();
        }
        let ghost n = self.side();
        let ghost k = kinds(self.sites());
        let size = self.data.size();
        let c = idx.wrapped(size);
        let current = *self.state(c);
        let nb = LatticeIdx::neighbor_iter(c);
        let ghost (x, y, z) = (idx.0 as int, idx.1 as int, idx.2 as int);
        let ghost (cx, cy, cz) = (c.0 as int, c.1 as int, c.2 as int);
        let ghost mm = self.payoffs();
        proof {
            lemma_neighbor_cells(n, c);
        }
        let p0 = self.payoff_matrix.get(current, *self.state(nb[0]));
        let p1 = self.payoff_matrix.get(current, *self.state(nb[1]));
        let p2 = self.payoff_matrix.get(current, *self.state(nb[2]));
        let p3 = self.payoff_matrix.get(current, *self.state(nb[3]));
        let p4 = self.payoff_matrix.get(current, *self.state(nb[4]));
        let p5 = self.payoff_matrix.get(current, *self.state(nb[5]));
        let total: i64 = p0 as i64 + p1 as i64 + p2 as i64 + p3 as i64 + p4 as i64 + p5 as i64;
        proof {
            assert(current == k[flat(n, cx, cy, cz)]);
            assert(total as int == local_fitness(mm, k, n, cx, cy, cz));
            lemma_wrapped_fitness(mm, k, n, idx, c);
        }
        *self.fitness_mut(c) = total;
    }
    /// Advances the simulation by one event. Each site `p` waits
    /// `waits[p] / fitness(p)` (a standard exponential sample divided by its
    /// rate); the first site with the shortest wait invades its neighbour in
    /// direction `dir`, whose kind becomes the invader's. The fitness of the
    /// invader's six neighbours is recomputed, and the clock advances by the
    /// shortest wait. Returns the overwritten site, reduced onto the cube, and
    /// its new kind.
    #[verifier::rlimit(60)]
    pub fn step_with(&mut self, waits: &Vec<u64>, dir: Direction) -> (r: Result<(LatticeIdx, State), StepError>)
        requires
            old(self).wf(),
        ensures
            final(self).wf(),
            step_outcome(*old(self), *final(self), waits@, dir, r),
    {
        proof {
            self.lemma_wf();
        }
        let ghost s = self.sites();
        let ghost n = self.side();
        let ghost mm = self.payoffs();
        let len = self.data.len();
        if waits.len() != len {
            return Err(StepError::WrongSampleCount);
        }
        assert(len >= 1) by (nonlinear_arith)
            requires
                len == n * n * n,
                n >= 1,
        ;
        let mut best: usize = 0;
        let mut i: usize = 0;
        while i < len
            invariant
                self.data.wf(),
                self.sites() == s,
                len == s.len(),
                waits@.len() == len,
                0 <= i <= len,
                forall|p: int| 0 <= p < i ==> #[trigger] s[p].1 > 0,
                i == 0 ==> best == 0,
                i > 0 ==> best < i && best as int == first_min(waits@, s, i as int),
            decreases len - i,
        {
            let lambda = self.data.cell_at(i).1;
            if lambda <= 0 {
                assert(s[i as int].1 <= 0);
                return Err(StepError::DegenerateFitness);
            }
            if i > 0 {
                let lead = self.data.cell_at(best).1;
                let wi = waits[i];
                let wb = waits[best];
                proof {
                    lemma_product_fits(wi, lead);
                    lemma_product_fits(wb, lambda);
                }
                let lhs = (wi as u128) * (lead as u128);
                let rhs = (wb as u128) * (lambda as u128);
                if lhs < rhs {
                    best = i;
                }
            }
            i = i + 1;
        }
        assert(!exists|p: int| 0 <= p < s.len() && #[trigger] s[p].1 <= 0);
        assert(best as int == first_min(waits@, s, s.len() as int));
        let e = waits[best] as u128;
        let l = self.data.cell_at(best).1 as u128;
        proof {
            assert(e * 10000 <= 0xffff_ffff_ffff_ffff * 10000) by (nonlinear_arith)
                requires
                    e <= 0xffff_ffff_ffff_ffff,
            ;
        }
        let inc: u128 = (e * (PAYOFF_SCALE as u128) + l - 1) / l;
        assert(inc as int == increment(waits@[best as int] as int, s[best as int].1 as int));
        if inc > u128::MAX - self.time {
            return Err(StepError::TimeOverflow);
        }
        let size = self.data.size();
        let side = size as usize;
        proof {
            lemma_point_of(n, best as int);
            assert(side * side <= side * side * side) by (nonlinear_arith)
                requires
                    side >= 1,
            ;
        }
        let c = LatticeIdx((best / (side * side)) as i16, ((best / side) % side) as i16, (best % side) as i16);
        proof {
            lemma_flat_in_cube(n, c.0 as int, c.1 as int, c.2 as int);
            lemma_neighbor_cells(n, c);
        }
        let kind = self.data.get(c).0;
        let off = dir.offset();
        let t = LatticeIdx(c.0 + off.0, c.1 + off.1, c.2 + off.2);
        let held = self.data.get(t).1;
        self.data.set(t, (kind, held));
        let ghost s1 = self.sites();
        let ghost rg = ring(n, best as int);
        assert(s1 == s.update(target(n, best as int, dir), (s[best as int].0, s[target(n, best as int, dir)].1)));
        let nb = LatticeIdx::neighbor_iter(c);
        let mut j: usize = 0;
        while j < 6
            invariant
                self.wf(),
                self.side() == n,
                self.payoffs() == mm,
                self.clock() == old(self).clock(),
                nb@ == crate::lattice::neighbors(c),
                forall|k: int| 0 <= k < 6 ==> flat_index(#[trigger] nb@[k], n) == rg[k],
                kinds(self.sites()) == kinds(s1),
                self.sites().len() == s.len(),
                s1.len() == s.len(),
                j <= 6,
                forall|p: int|
                    0 <= p < s.len() ==> #[trigger] self.sites()[p] == if among(rg, j as int, p) {
                        (s1[p].0, fitness_at(mm, kinds(s1), n, p) as i64)
                    } else {
                        s1[p]
                    },
            decreases 6 - j,
        {
            let ghost before = self.sites();
            let ghost q = flat_index(nb@[j as int], n);
            proof {
                lemma_flat_bounds(n, nb@[j as int].0 as int, nb@[j as int].1 as int, nb@[j as int].2 as int);
                assert(before[q].0 == kinds(before)[q]);
            }
            self.gen_fitness(nb[j]);
            proof {
                assert(kinds(self.sites()) =~= kinds(before));
            }
            j = j + 1;
        }
        self.time = self.time + inc;
        assert(self.sites() =~= invaded(mm, s, n, best as int, dir));
        proof {
            crate::lattice::lemma_point_of_flat(n, t.0 as int, t.1 as int, t.2 as int);
        }
        Ok((t.wrapped(size), kind))
    }

    /// Advances the simulation by one event, drawing the invasion direction
    /// uniformly from `rng`; see `step_with`.
    pub fn step(&mut self, rng: &mut rand::rngs::StdRng, waits: &Vec<u64>) -> (r: Result<(LatticeIdx, State), StepError>)
        requires
            old(self).wf(),
        ensures
            final(self).wf(),
            exists|d: Direction| step_outcome(*old(self), *final(self), waits@, d, r),
    {
        let i = draw_direction(rng);
        let dir = match Direction::from_index(i) {
            Some(d) => d,
            None => {
                assert(false);
                Direction::NegX
            },
        };
        self.step_with(waits, dir)
    }

    /// Number of sites of each kind: resorption, formation, quiescence.
    pub fn count(&self) -> (r: (usize, usize, usize))
        requires
            self.wf(),
        ensures
            r.0 == tally(self.sites(), State::Resorption),
            r.1 == tally(self.sites(), State::Formation),
            r.2 == tally(self.sites(), State::Quiescence),
            r.0 + r.1 + r.2 == volume(self.side()),
    {
        proof {
            self.lemma_wf();
        }
        let ghost s = self.sites();
        let len = self.data.len();
        let mut tallies: (usize, usize, usize) = (0, 0, 0);
        let mut i: usize = 0;
        while i < len
            invariant
                self.data.wf(),
                self.sites() == s,
                len == s.len(),
                i <= len,
                tallies.0 == tally(s.subrange(0, i as int), State::Resorption),
                tallies.1 == tally(s.subrange(0, i as int), State::Formation),
                tallies.2 == tally(s.subrange(0, i as int), State::Quiescence),
                tallies.0 + tallies.1 + tallies.2 == i,
            decreases len - i,
        {
            proof {
                assert(s.subrange(0, i as int + 1).drop_last() =~= s.subrange(0, i as int));
            }
            match self.data.cell_at(i).0 {
                State::Resorption => tallies.0 = tallies.0 + 1,
                State::Formation => tallies.1 = tallies.1 + 1,
                State::Quiescence => tallies.2 = tallies.2 + 1,
            }
            i = i + 1;
        }
        assert(s.subrange(0, len as int) =~= s);
        tallies
    }
}

} // verus!
