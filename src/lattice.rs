use vstd::prelude::*;
use vstd::arithmetic::div_mod::{
    lemma_add_mod_noop,
    lemma_fundamental_div_mod_converse,
    lemma_mod_add_multiples_vanish,
    lemma_mod_sub_multiples_vanish,
};

verus! {

/// A point of the lattice. Coordinates are unbounded in principle and are
/// reduced modulo the lattice's side wherever a lattice is addressed.
#[derive(Debug, Clone, Copy, PartialEq, Eq, Structural)]
pub struct LatticeIdx(pub i16, pub i16, pub i16);

/// `c` reduced onto the torus of side `n` (Euclidean remainder, in `0..n`).
pub open spec fn wrap(c: int, n: int) -> int {
    c % n
}

/// Position in row-major order of the cell `(x, y, z)` of a cube of side `n`,
/// for coordinates already inside the cube.
pub open spec fn cell(n: int, x: int, y: int, z: int) -> int {
    (x * n + y) * n + z
}

/// Position of an arbitrary coordinate triple after periodic reduction.
pub open spec fn flat(n: int, x: int, y: int, z: int) -> int {
    cell(n, wrap(x, n), wrap(y, n), wrap(z, n))
}

pub open spec fn flat_index(idx: LatticeIdx, n: int) -> int {
    flat(n, idx.0 as int, idx.1 as int, idx.2 as int)
}

pub open spec fn in_cube(n: int, x: int, y: int, z: int) -> bool {
    0 <= x < n && 0 <= y < n && 0 <= z < n
}

pub open spec fn idx_in_cube(idx: LatticeIdx, n: int) -> bool {
    in_cube(n, idx.0 as int, idx.1 as int, idx.2 as int)
}

/// Number of cells of a cube of side `n`.
pub open spec fn volume(n: int) -> int {
    n * n * n
}

/// The six axis neighbours of `c`, in the order -x, +x, -y, +y, -z, +z.
pub open spec fn neighbors(c: LatticeIdx) -> Seq<LatticeIdx> {
    seq![
        LatticeIdx((c.0 - 1) as i16, c.1, c.2),
        LatticeIdx((c.0 + 1) as i16, c.1, c.2),
        LatticeIdx(c.0, (c.1 - 1) as i16, c.2),
        LatticeIdx(c.0, (c.1 + 1) as i16, c.2),
        LatticeIdx(c.0, c.1, (c.2 - 1) as i16),
        LatticeIdx(c.0, c.1, (c.2 + 1) as i16),
    ]
}

/// Whether every coordinate of `c` can move one step either way without
/// leaving the range of `i16`.
pub open spec fn interior(c: LatticeIdx) -> bool {
    i16::MIN < c.0 < i16::MAX && i16::MIN < c.1 < i16::MAX && i16::MIN < c.2 < i16::MAX
}

/// Whether `a` and `b` differ by exactly one unit along exactly one axis.
pub open spec fn unit_apart(a: LatticeIdx, b: LatticeIdx) -> bool {
    let dx = a.0 - b.0;
    let dy = a.1 - b.1;
    let dz = a.2 - b.2;
    (dx == 1 || dx == -1) && dy == 0 && dz == 0 || dx == 0 && (dy == 1 || dy == -1) && dz == 0
        || dx == 0 && dy == 0 && (dz == 1 || dz == -1)
}

pub proof fn lemma_cell_bounds(n: int, x: int, y: int, z: int)
    requires
        n >= 1,
        in_cube(n, x, y, z),
    ensures
        0 <= cell(n, x, y, z) < volume(n),
{
    assert(0 <= x * n) by (nonlinear_arith)
        requires
            0 <= x,
            0 <= n,
    ;
    assert(x * n + y < n * n) by (nonlinear_arith)
        requires
            0 <= x < n,
            0 <= y < n,
    ;
    assert(0 <= (x * n + y) * n) by (nonlinear_arith)
        requires
            0 <= x * n + y,
            0 <= n,
    ;
    assert((x * n + y) * n + z < n * n * n) by (nonlinear_arith)
        requires
            0 <= x * n + y < n * n,
            0 <= z < n,
    ;
}

/// Cells of distinct points of the cube are distinct.
pub proof fn lemma_cell_injective(n: int, a: (int, int, int), b: (int, int, int))
    requires
        n >= 1,
        in_cube(n, a.0, a.1, a.2),
        in_cube(n, b.0, b.1, b.2),
        cell(n, a.0, a.1, a.2) == cell(n, b.0, b.1, b.2),
    ensures
        a == b,
{
    let ca = cell(n, a.0, a.1, a.2);
    lemma_fundamental_div_mod_converse(ca, n, a.0 * n + a.1, a.2);
    lemma_fundamental_div_mod_converse(ca, n, b.0 * n + b.1, b.2);
    lemma_fundamental_div_mod_converse(a.0 * n + a.1, n, a.0, a.1);
    lemma_fundamental_div_mod_converse(b.0 * n + b.1, n, b.0, b.1);
}

/// Wrapped coordinates lie in `0..n`, and wrapped positions inside the cube.
pub proof fn lemma_flat_bounds(n: int, x: int, y: int, z: int)
    requires
        n >= 1,
    ensures
        in_cube(n, wrap(x, n), wrap(y, n), wrap(z, n)),
        0 <= flat(n, x, y, z) < volume(n),
{
    lemma_cell_bounds(n, wrap(x, n), wrap(y, n), wrap(z, n));
}

/// Points of the cube are their own reduction.
pub proof fn lemma_flat_in_cube(n: int, x: int, y: int, z: int)
    requires
        n >= 1,
        in_cube(n, x, y, z),
    ensures
        flat(n, x, y, z) == cell(n, x, y, z),
{
    vstd::arithmetic::div_mod::lemma_small_mod(x as nat, n as nat);
    vstd::arithmetic::div_mod::lemma_small_mod(y as nat, n as nat);
    vstd::arithmetic::div_mod::lemma_small_mod(z as nat, n as nat);
}

/// Shifting a coordinate commutes with reducing it first.
pub proof fn lemma_wrap_shift(x: int, d: int, n: int)
    requires
        n >= 1,
    ensures
        wrap(wrap(x, n) + d, n) == wrap(x + d, n),
{
    lemma_add_mod_noop(x, d, n);
    lemma_add_mod_noop(x % n, d, n);
    vstd::arithmetic::div_mod::lemma_mod_twice(x, n);
}

/// Periodic boundary: moving a coordinate by a whole side in either direction,
/// on any axis, addresses the same cell.
pub proof fn lemma_wrap_around(n: int, x: int, y: int, z: int)
    requires
        n >= 1,
    ensures
        flat(n, x + n, y, z) == flat(n, x, y, z),
        flat(n, x - n, y, z) == flat(n, x, y, z),
        flat(n, x, y + n, z) == flat(n, x, y, z),
        flat(n, x, y - n, z) == flat(n, x, y, z),
        flat(n, x, y, z + n) == flat(n, x, y, z),
        flat(n, x, y, z - n) == flat(n, x, y, z),
{
    lemma_mod_add_multiples_vanish(x, n);
    lemma_mod_add_multiples_vanish(y, n);
    lemma_mod_add_multiples_vanish(z, n);
    lemma_mod_sub_multiples_vanish(x, n);
    lemma_mod_sub_multiples_vanish(y, n);
    lemma_mod_sub_multiples_vanish(z, n);
    assert(n + x == x + n && -n + x == x - n);
    assert(n + y == y + n && -n + y == y - n);
    assert(n + z == z + n && -n + z == z - n);
}

/// The six neighbours of a point are pairwise distinct, and each lies one unit
/// away from it along exactly one axis.
pub proof fn lemma_neighbors_complete(c: LatticeIdx)
    requires
        interior(c),
    ensures
        neighbors(c).len() == 6,
        forall|i: int| 0 <= i < 6 ==> unit_apart(#[trigger] neighbors(c)[i], c),
        forall|i: int, j: int| 0 <= i < j < 6 ==> neighbors(c)[i] != neighbors(c)[j],
{
}

/// The point of the cube of side `n` whose row-major cell is `p`.
pub open spec fn point_of(n: int, p: int) -> (int, int, int) {
    (p / (n * n), (p / n) % n, p % n)
}

/// `point_of` inverts `cell` on the cube.
pub proof fn lemma_point_of_cell(n: int, x: int, y: int, z: int)
    requires
        n >= 1,
        in_cube(n, x, y, z),
    ensures
        point_of(n, cell(n, x, y, z)) == (x, y, z),
{
    let p = cell(n, x, y, z);
    lemma_cell_bounds(n, x, y, z);
    lemma_fundamental_div_mod_converse(p, n, x * n + y, z);
    lemma_fundamental_div_mod_converse(x * n + y, n, x, y);
    vstd::arithmetic::div_mod::lemma_div_denominator(p, n, n);
}

/// Every position of the cube is the cell of the point `point_of` gives.
pub proof fn lemma_point_of(n: int, p: int)
    requires
        n >= 1,
        0 <= p < volume(n),
    ensures
        in_cube(n, point_of(n, p).0, point_of(n, p).1, point_of(n, p).2),
        cell(n, point_of(n, p).0, point_of(n, p).1, point_of(n, p).2) == p,
{
    let q = p / n;
    vstd::arithmetic::div_mod::lemma_fundamental_div_mod(p, n);
    vstd::arithmetic::div_mod::lemma_fundamental_div_mod(q, n);
    vstd::arithmetic::div_mod::lemma_div_denominator(p, n, n);
    vstd::arithmetic::div_mod::lemma_div_pos_is_pos(p, n);
    vstd::arithmetic::div_mod::lemma_div_pos_is_pos(q, n);
    assert(q / n < n) by (nonlinear_arith)
        requires
            p == n * q + p % n,
            q == n * (q / n) + q % n,
            0 <= p % n,
            0 <= q % n,
            p < n * n * n,
            n >= 1,
    ;
    assert(((q / n) * n + q % n) * n + p % n == p) by (nonlinear_arith)
        requires
            p == n * q + p % n,
            q == n * (q / n) + q % n,
    ;
}

/// Reduction of a point addresses the cell of its wrapped coordinates.
pub proof fn lemma_point_of_flat(n: int, x: int, y: int, z: int)
    requires
        n >= 1,
    ensures
        point_of(n, flat(n, x, y, z)) == (wrap(x, n), wrap(y, n), wrap(z, n)),
{
    lemma_flat_bounds(n, x, y, z);
    lemma_point_of_cell(n, wrap(x, n), wrap(y, n), wrap(z, n));
}

/// Shifting a coordinate of a reduced point addresses the same cell as
/// shifting it before reduction.
pub proof fn lemma_flat_shift(n: int, x: int, y: int, z: int, dx: int, dy: int, dz: int)
    requires
        n >= 1,
    ensures
        flat(n, wrap(x, n) + dx, wrap(y, n) + dy, wrap(z, n) + dz) == flat(n, x + dx, y + dy, z + dz),
{
    lemma_wrap_shift(x, dx, n);
    lemma_wrap_shift(y, dy, n);
    lemma_wrap_shift(z, dz, n);
}

/// Reduces one coordinate onto `0..n`.
fn wrap_coord(c: i16, n: i16) -> (r: i16)
    requires
        n >= 1,
    ensures
        r as int == wrap(c as int, n as int),
        0 <= r < n,
{
    match c.checked_rem_euclid(n) {
        Some(r) => r,
        None => {
            assert(false);
            0
        },
    }
}

impl LatticeIdx {
    /// The point with all three coordinates equal to `num`.
    pub fn cubed(num: i16) -> (r: LatticeIdx)
        ensures
            r == LatticeIdx(num, num, num),
    {
        LatticeIdx(num, num, num)
    }

    /// Component-wise sum.
    pub fn add(self, rhs: LatticeIdx) -> (r: LatticeIdx)
        requires
            i16::MIN <= self.0 + rhs.0 <= i16::MAX,
            i16::MIN <= self.1 + rhs.1 <= i16::MAX,
            i16::MIN <= self.2 + rhs.2 <= i16::MAX,
        ensures
            r.0 == self.0 + rhs.0,
            r.1 == self.1 + rhs.1,
            r.2 == self.2 + rhs.2,
    {
        LatticeIdx(self.0 + rhs.0, self.1 + rhs.1, self.2 + rhs.2)
    }

    /// Component-wise in-place sum.
    pub fn add_assign(&mut self, rhs: LatticeIdx)
        requires
            i16::MIN <= old(self).0 + rhs.0 <= i16::MAX,
            i16::MIN <= old(self).1 + rhs.1 <= i16::MAX,
            i16::MIN <= old(self).2 + rhs.2 <= i16::MAX,
        ensures
            final(self).0 == old(self).0 + rhs.0,
            final(self).1 == old(self).1 + rhs.1,
            final(self).2 == old(self).2 + rhs.2,
    {
        self.0 = self.0 + rhs.0;
        self.1 = self.1 + rhs.1;
        self.2 = self.2 + rhs.2;
    }

    /// The same point reduced onto the cube of side `n`.
    pub fn wrapped(self, n: i16) -> (r: LatticeIdx)
        requires
            n >= 1,
        ensures
            r.0 as int == wrap(self.0 as int, n as int),
            r.1 as int == wrap(self.1 as int, n as int),
            r.2 as int == wrap(self.2 as int, n as int),
            idx_in_cube(r, n as int),
    {
        LatticeIdx(wrap_coord(self.0, n), wrap_coord(self.1, n), wrap_coord(self.2, n))
    }

    /// Every point of the cube `0..size` on each axis, with `x` outermost and
    /// `z` innermost; empty when `size` is not positive. The point at position
    /// `i` is the one whose row-major cell is `i`, so no point repeats.
    pub fn cube_iter(size: i16) -> (r: Vec<LatticeIdx>)
        ensures
            size < 1 ==> r@.len() == 0,
            size >= 1 ==> r@.len() == volume(size as int),
            forall|i: int|
                0 <= i < r@.len() ==> idx_in_cube(#[trigger] r@[i], size as int) && cell(
                    size as int,
                    r@[i].0 as int,
                    r@[i].1 as int,
                    r@[i].2 as int,
                ) == i,
            forall|x: int, y: int, z: int|
                in_cube(size as int, x, y, z) ==> r@[cell(size as int, x, y, z)] == LatticeIdx(
                    x as i16,
                    y as i16,
                    z as i16,
                ),
    {
        let mut out: Vec<LatticeIdx> = Vec::new();
        if size < 1 {
            return out;
        }
        let ghost n = size as int;
        let mut x: i16 = 0;
        while x < size
            invariant
                n == size as int,
                n >= 1,
                0 <= x <= size,
                out@.len() == x * n * n,
                forall|i: int|
                    0 <= i < out@.len() ==> idx_in_cube(#[trigger] out@[i], n) && cell(
                        n,
                        out@[i].0 as int,
                        out@[i].1 as int,
                        out@[i].2 as int,
                    ) == i,
            decreases size - x,
        {
            let mut y: i16 = 0;
            while y < size
                invariant
                    n == size as int,
                    n >= 1,
                    0 <= x < size,
                    0 <= y <= size,
                    out@.len() == (x * n + y) * n,
                    forall|i: int|
                        0 <= i < out@.len() ==> idx_in_cube(#[trigger] out@[i], n) && cell(
                            n,
                            out@[i].0 as int,
                            out@[i].1 as int,
                            out@[i].2 as int,
                        ) == i,
                decreases size - y,
            {
                let mut z: i16 = 0;
                while z < size
                    invariant
                        n == size as int,
                        n >= 1,
                        0 <= x < size,
                        0 <= y < size,
                        0 <= z <= size,
                        out@.len() == (x * n + y) * n + z,
                        forall|i: int|
                            0 <= i < out@.len() ==> idx_in_cube(#[trigger] out@[i], n) && cell(
                                n,
                                out@[i].0 as int,
                                out@[i].1 as int,
                                out@[i].2 as int,
                            ) == i,
                    decreases size - z,
                {
                    out.push(LatticeIdx(x, y, z));
                    z = z + 1;
                }
                assert((x * n + y) * n + n == (x * n + y + 1) * n) by (nonlinear_arith);
                y = y + 1;
            }
            assert((x * n + n) * n == (x + 1) * n * n) by (nonlinear_arith);
            x = x + 1;
        }
        assert forall|x: int, y: int, z: int| in_cube(n, x, y, z) implies out@[cell(
            n,
            x,
            y,
            z,
        )] == LatticeIdx(x as i16, y as i16, z as i16) by {
            lemma_cell_bounds(n, x, y, z);
            let p = out@[cell(n, x, y, z)];
            lemma_cell_injective(n, (x, y, z), (p.0 as int, p.1 as int, p.2 as int));
        }
        out
    }

    /// The six axis neighbours of `center`, in the order -x, +x, -y, +y, -z, +z.
    pub fn neighbor_iter(center: LatticeIdx) -> (r: Vec<LatticeIdx>)
        requires
            interior(center),
        ensures
            r@ == neighbors(center),
    {
        let mut out: Vec<LatticeIdx> = Vec::new();
        out.push(LatticeIdx(center.0 - 1, center.1, center.2));
        out.push(LatticeIdx(center.0 + 1, center.1, center.2));
        out.push(LatticeIdx(center.0, center.1 - 1, center.2));
        out.push(LatticeIdx(center.0, center.1 + 1, center.2));
        out.push(LatticeIdx(center.0, center.1, center.2 - 1));
        out.push(LatticeIdx(center.0, center.1, center.2 + 1));
        assert(out@ =~= neighbors(center));
        out
    }
}

/// A dense cube of values of side `size`, addressed by `LatticeIdx` with
/// periodic boundaries: every coordinate is reduced modulo the side first, so
/// no point lies out of range.
#[derive(Debug, Clone)]
pub struct Lattice<T> {
    data: Vec<T>,
    size: i16,
}

impl<T> View for Lattice<T> {
    type V = Seq<T>;

    /// The cells in row-major order: `(x, y, z)` is at `cell(side, x, y, z)`.
    closed spec fn view(&self) -> Seq<T> {
        self.data@
    }
}

impl<T> Lattice<T> {
    /// The side of the cube.
    pub closed spec fn side(&self) -> int {
        self.size as int
    }

    pub open spec fn wf(&self) -> bool {
        &&& self.side() >= 1
        &&& volume(self.side()) <= usize::MAX
        &&& self@.len() == volume(self.side())
    }

    /// Builds a cube of side `size` whose cell at each point `p` holds
    /// `filler(p)`, calling `filler` once per point in `cube_iter` order.
    /// Refused (`None`) for a side below 1, or one whose cube does not fit in
    /// memory addressing.
    pub fn filled<F: Fn(LatticeIdx) -> T>(size: i16, filler: F) -> (r: Option<Self>)
        requires
            forall|c: LatticeIdx| idx_in_cube(c, size as int) ==> #[trigger] filler.requires((c,)),
        ensures
            r is None <==> (size < 1 || volume(size as int) > usize::MAX),
            r matches Some(l) ==> {
                &&& l.wf()
                &&& l.side() == size as int
                &&& forall|x: int, y: int, z: int|
                    in_cube(size as int, x, y, z) ==> filler.ensures(
                        (LatticeIdx(x as i16, y as i16, z as i16),),
                        #[trigger] l@[cell(size as int, x, y, z)],
                    )
            },
    {
        if size < 1 {
            return None;
        }
        let side = size as usize;
        let sq = match side.checked_mul(side) {
            Some(v) => v,
            None => {
                assert(volume(size as int) > usize::MAX) by (nonlinear_arith)
                    requires
                        side * side > usize::MAX,
                        side >= 1,
                        volume(size as int) == side * side * side,
                ;
                return None;
            },
        };
        let vol = match sq.checked_mul(side) {
            Some(v) => v,
            None => {
                return None;
            },
        };
        let points = LatticeIdx::cube_iter(size);
        let mut data: Vec<T> = Vec::with_capacity(vol);
        let mut i: usize = 0;
        while i < points.len()
            invariant
                i <= points@.len(),
                points@.len() == vol,
                data@.len() == i,
                forall|c: LatticeIdx| idx_in_cube(c, size as int) ==> #[trigger] filler.requires((c,)),
                forall|j: int|
                    0 <= j < points@.len() ==> idx_in_cube(#[trigger] points@[j], size as int),
                forall|j: int| 0 <= j < i ==> filler.ensures((points@[j],), #[trigger] data@[j]),
            decreases points@.len() - i,
        {
            let v = filler(points[i]);
            data.push(v);
            i = i + 1;
        }
        let r = Lattice { data, size };
        assert forall|x: int, y: int, z: int| in_cube(size as int, x, y, z) implies filler.ensures(
            (LatticeIdx(x as i16, y as i16, z as i16),),
            #[trigger] r@[cell(size as int, x, y, z)],
        ) by {
            lemma_cell_bounds(size as int, x, y, z);
            assert(points@[cell(size as int, x, y, z)] == LatticeIdx(x as i16, y as i16, z as i16));
        }
        Some(r)
    }

    /// The side of the cube.
    pub fn size(&self) -> (r: i16)
        ensures
            r as int == self.side(),
    {
        self.size
    }

    /// Position in the backing sequence of the cell that `idx` addresses.
    fn position(&self, idx: LatticeIdx) -> (p: usize)
        requires
            self.wf(),
        ensures
            p as int == flat_index(idx, self.side()),
            p < self@.len(),
    {
        let n = self.size;
        let w = idx.wrapped(n);
        let ghost ni = n as int;
        proof {
            lemma_flat_bounds(ni, idx.0 as int, idx.1 as int, idx.2 as int);
            assert(0 <= w.0 * ni + w.1 < ni * ni && ni * ni <= volume(ni)) by (nonlinear_arith)
                requires
                    0 <= w.0 < ni,
                    0 <= w.1 < ni,
                    ni >= 1,
            ;
            assert(w.0 * ni <= w.0 * ni + w.1) by (nonlinear_arith)
                requires
                    0 <= w.1,
            ;
            assert(0 <= w.0 * ni) by (nonlinear_arith)
                requires
                    0 <= w.0,
                    0 <= ni,
            ;
        }
        let row = (w.0 as usize) * (n as usize) + (w.1 as usize);
        (row * (n as usize)) + (w.2 as usize)
    }

    /// The cell that `idx` addresses, after periodic reduction.
    pub fn get(&self, idx: LatticeIdx) -> (r: &T)
        requires
            self.wf(),
        ensures
            *r == self@[flat_index(idx, self.side())],
    {
        let p = self.position(idx);
        &self.data[p]
    }

    /// Replaces the cell that `idx` addresses, after periodic reduction.
    pub fn set(&mut self, idx: LatticeIdx, value: T)
        requires
            old(self).wf(),
        ensures
            final(self).side() == old(self).side(),
            final(self)@ == old(self)@.update(flat_index(idx, old(self).side()), value),
            final(self).wf(),
    {
        let p = self.position(idx);
        self.data.set(p, value);
    }
    /// The cell that `idx` addresses, after periodic reduction, for writing.
    pub fn get_mut(&mut self, idx: LatticeIdx) -> (r: &mut T)
        requires
            old(self).wf(),
        ensures
            *r == old(self)@[flat_index(idx, old(self).side())],
            final(self).side() == old(self).side(),
            final(self)@ == old(self)@.update(flat_index(idx, old(self).side()), *final(r)),
    {
        let p = self.position(idx);
        &mut self.data[p]
    }

    /// Number of cells.
    pub fn len(&self) -> (r: usize)
        ensures
            r == self@.len(),
    {
        self.data.len()
    }

    /// The cell at position `p` of the row-major order.
    pub fn cell_at(&self, p: usize) -> (r: &T)
        requires
            p < self@.len(),
        ensures
            *r == self@[p as int],
    {
        &self.data[p]
    }
}

} // verus!
