//! The lattice index transform and the simulation state.
//!
//! Lattice points live in a `DIMS`-dimensional cube of side `size`, stored
//! flat. The transform between a flat index and its multi-dimensional
//! coordinate is a mixed-radix decomposition in base `size`; the two
//! directions are exact inverses over the whole index space.

use vstd::prelude::*;

verus! {

use vstd::arithmetic::power::{lemma_pow_increases, lemma_pow_positive, pow};
use vstd::arithmetic::div_mod::{
    lemma_div_denominator, lemma_div_pos_is_pos, lemma_fundamental_div_mod,
    lemma_fundamental_div_mod_converse_div, lemma_fundamental_div_mod_converse_mod,
    lemma_mod_bound, lemma_small_mod,
};
use vstd::arithmetic::mul::{lemma_mul_inequality, lemma_mul_nonnegative};
use crate::numeric::{Fixed, Numeric};
use crate::rope::{seg_views, Rope};
use crate::vector::Vector;

/// The coordinate along each axis of the flat index `flat`:
/// `(flat / size^(dims-1-d)) mod size` for axis `d`.
pub open spec fn deindex_spec(flat: int, size: int, dims: nat) -> Seq<int> {
    Seq::new(dims, |d: int| (flat / pow(size, (dims - 1 - d) as nat)) % size)
}

/// The flat index of a coordinate: the mixed-radix value of the
/// coordinates read as digits in base `size`, most significant first.
pub open spec fn flat_index_of(coords: Seq<int>, size: int) -> int
    decreases coords.len(),
{
    if coords.len() == 0 {
        0
    } else {
        flat_index_of(coords.drop_last(), size) * size + coords.last()
    }
}

/// The coordinates of a vector of machine words, as mathematical integers.
pub open spec fn coords_int(coords: Seq<usize>) -> Seq<int> {
    coords.map_values(|x: usize| x as int)
}

/// The digits of `flat` in base `size`, least significant digit peeled
/// off first and pushed last: the recursive form of [`deindex_spec`].
spec fn digits_of(flat: int, size: int, dims: nat) -> Seq<int>
    decreases dims,
{
    if dims == 0 {
        Seq::empty()
    } else {
        digits_of(flat / size, size, (dims - 1) as nat).push(flat % size)
    }
}

/// The recursive digit decomposition computes exactly the per-axis
/// quotient-remainder formula.
proof fn lemma_digits_are_coords(flat: int, size: int, dims: nat)
    requires
        flat >= 0,
        size >= 1,
    ensures
        digits_of(flat, size, dims) =~= deindex_spec(flat, size, dims),
    decreases dims,
{
    reveal(pow);
    if dims > 0 {
        lemma_digits_are_coords(flat / size, size, (dims - 1) as nat);
        lemma_div_pos_is_pos(flat, size);
        assert forall|d: int| 0 <= d < dims implies digits_of(flat, size, dims)[d]
            == deindex_spec(flat, size, dims)[d] by {
            if d < dims - 1 {
                let e = (dims - 2 - d) as nat;
                lemma_pow_positive(size, e);
                lemma_div_denominator(flat, size, pow(size, e));
                assert(pow(size, (dims - 1 - d) as nat) == size * pow(size, e));
                assert(digits_of(flat, size, dims)[d] == deindex_spec(
                    flat / size,
                    size,
                    (dims - 1) as nat,
                )[d]);
            } else {
                assert(pow(size, 0) == 1);
                lemma_fundamental_div_mod_converse_div(flat, 1, flat, 0);
            }
        }
    }
}

/// Recomposing the digits of a flat index inside the cube recovers it.
proof fn lemma_flat_of_digits(flat: int, size: int, dims: nat)
    requires
        size >= 1,
        0 <= flat < pow(size, dims),
    ensures
        flat_index_of(digits_of(flat, size, dims), size) == flat,
    decreases dims,
{
    reveal(pow);
    if dims == 0 {
        assert(pow(size, 0) == 1);
        assert(flat == 0);
    } else {
        let p = pow(size, (dims - 1) as nat);
        lemma_pow_positive(size, (dims - 1) as nat);
        assert(pow(size, dims) == size * p);
        lemma_fundamental_div_mod(flat, size);
        assert(flat / size * size == size * (flat / size)) by (nonlinear_arith);
        lemma_mod_bound(flat, size);
        lemma_div_pos_is_pos(flat, size);
        if flat / size >= p {
            lemma_mul_inequality(p, flat / size, size);
            assert(false);
        }
        lemma_flat_of_digits(flat / size, size, (dims - 1) as nat);
        assert(digits_of(flat, size, dims).drop_last() =~= digits_of(
            flat / size,
            size,
            (dims - 1) as nat,
        ));
        assert(digits_of(flat, size, dims).last() == flat % size);
    }
}

/// The flat index of in-range coordinates lies inside the cube.
pub proof fn lemma_flat_index_bounds(coords: Seq<int>, size: int)
    requires
        size >= 1,
        forall|d: int| 0 <= d < coords.len() ==> 0 <= #[trigger] coords[d] < size,
    ensures
        0 <= flat_index_of(coords, size) < pow(size, coords.len()),
    decreases coords.len(),
{
    reveal(pow);
    if coords.len() == 0 {
        assert(pow(size, 0) == 1);
    } else {
        let front = coords.drop_last();
        let p = pow(size, front.len());
        lemma_flat_index_bounds(front, size);
        lemma_pow_positive(size, front.len());
        assert(pow(size, coords.len()) == size * p);
        let f = flat_index_of(front, size);
        lemma_mul_nonnegative(f, size);
        lemma_mul_inequality(f, p - 1, size);
        assert((p - 1) * size == p * size - size) by (nonlinear_arith);
        assert(p * size == size * p) by (nonlinear_arith);
    }
}

/// Decomposing the flat index of in-range coordinates recovers them.
proof fn lemma_digits_of_flat(coords: Seq<int>, size: int)
    requires
        size >= 1,
        forall|d: int| 0 <= d < coords.len() ==> 0 <= #[trigger] coords[d] < size,
    ensures
        digits_of(flat_index_of(coords, size), size, coords.len()) =~= coords,
    decreases coords.len(),
{
    if coords.len() > 0 {
        let front = coords.drop_last();
        let f0 = flat_index_of(front, size);
        let f = flat_index_of(coords, size);
        lemma_flat_index_bounds(front, size);
        lemma_fundamental_div_mod_converse_div(f, size, f0, coords.last());
        lemma_fundamental_div_mod_converse_mod(f, size, f0, coords.last());
        lemma_digits_of_flat(front, size);
    }
}

/// Law: recombining the coordinates of any flat index inside the cube
/// yields that index back; the index transform is injective over the cube.
pub proof fn lemma_index_of_deindex(flat: int, size: int, dims: nat)
    requires
        size >= 1,
        0 <= flat < pow(size, dims),
    ensures
        flat_index_of(deindex_spec(flat, size, dims), size) == flat,
{
    lemma_digits_are_coords(flat, size, dims);
    lemma_flat_of_digits(flat, size, dims);
}

/// Law: decomposing the flat index of any in-range coordinates yields the
/// coordinates back; together with [`lemma_index_of_deindex`] the two
/// transforms are a bijection between the cube and `[0, size^dims)`.
pub proof fn lemma_deindex_of_index(coords: Seq<int>, size: int)
    requires
        size >= 1,
        forall|d: int| 0 <= d < coords.len() ==> 0 <= #[trigger] coords[d] < size,
    ensures
        deindex_spec(flat_index_of(coords, size), size, coords.len()) == coords,
{
    lemma_flat_index_bounds(coords, size);
    lemma_digits_of_flat(coords, size);
    lemma_digits_are_coords(flat_index_of(coords, size), size, coords.len());
}

/// Raises `base` to `exp` by repeated multiplication.
fn pow_usize(base: usize, exp: usize) -> (r: usize)
    requires
        base >= 1,
        pow(base as int, exp as nat) <= usize::MAX,
    ensures
        r as int == pow(base as int, exp as nat),
{
    proof {
        reveal(pow);
    }
    let mut acc: usize = 1;
    let mut e: usize = 0;
    while e < exp
        invariant
            e <= exp,
            base >= 1,
            acc as int == pow(base as int, e as nat),
            pow(base as int, exp as nat) <= usize::MAX,
        decreases exp - e,
    {
        proof {
            reveal(pow);
            lemma_pow_increases(base as nat, (e + 1) as nat, exp as nat);
            lemma_pow_positive(base as int, e as nat);
            assert(pow(base as int, (e + 1) as nat) == base as int * pow(base as int, e as nat));
            assert(base as int * pow(base as int, e as nat) == pow(base as int, e as nat)
                * base as int) by (nonlinear_arith);
        }
        acc = acc * base;
        e += 1;
    }
    acc
}

/// Computes the `DIMS`-dimensional coordinate of a flat index into a cube
/// of side `size`: axis `d` carries `(index / size^(DIMS-1-d)) mod size`.
pub fn deindex<const DIMS: usize>(index: usize, size: usize) -> (r: Vector<usize, DIMS>)
    requires
        size >= 1,
        pow(size as int, DIMS as nat) <= usize::MAX,
    ensures
        r@.len() == DIMS,
        coords_int(r@) == deindex_spec(index as int, size as int, DIMS as nat),
{
    let mut out = Vector::<usize, DIMS>::zero();
    let mut d: usize = 0;
    while d < DIMS
        invariant
            d <= DIMS,
            size >= 1,
            pow(size as int, DIMS as nat) <= usize::MAX,
            out@.len() == DIMS,
            forall|t: int|
                0 <= t < d ==> (#[trigger] out@[t]) as int == deindex_spec(
                    index as int,
                    size as int,
                    DIMS as nat,
                )[t],
        decreases DIMS - d,
    {
        proof {
            lemma_pow_increases(size as nat, (DIMS - 1 - d) as nat, DIMS as nat);
            lemma_pow_positive(size as int, (DIMS - 1 - d) as nat);
        }
        let m = pow_usize(size, DIMS - 1 - d);
        out.set(d, (index / m) % size);
        d += 1;
    }
    proof {
        assert(coords_int(out@) =~= deindex_spec(index as int, size as int, DIMS as nat));
    }
    out
}

/// Computes the flat index of a `DIMS`-dimensional coordinate inside a
/// cube of side `size`; the result lies in `[0, size^DIMS)`.
pub fn index<const DIMS: usize>(coord: Vector<usize, DIMS>, size: usize) -> (r: usize)
    requires
        size >= 1,
        forall|d: int| 0 <= d < DIMS ==> (#[trigger] coord@[d]) < size,
        pow(size as int, DIMS as nat) <= usize::MAX,
    ensures
        r as int == flat_index_of(coords_int(coord@), size as int),
        (r as int) < pow(size as int, DIMS as nat),
{
    let ghost coords = coords_int(coord@);
    proof {
        reveal(pow);
        assert(coords.take(0) =~= Seq::<int>::empty());
    }
    let mut acc: usize = 0;
    let mut d: usize = 0;
    while d < DIMS
        invariant
            d <= DIMS,
            size >= 1,
            coords == coords_int(coord@),
            coord@.len() == DIMS,
            forall|t: int| 0 <= t < DIMS ==> (#[trigger] coord@[t]) < size,
            pow(size as int, DIMS as nat) <= usize::MAX,
            acc as int == flat_index_of(coords.take(d as int), size as int),
            (acc as int) < pow(size as int, d as nat),
        decreases DIMS - d,
    {
        proof {
            reveal(pow);
            let p = pow(size as int, d as nat);
            lemma_pow_increases(size as nat, (d + 1) as nat, DIMS as nat);
            lemma_pow_positive(size as int, d as nat);
            assert(pow(size as int, (d + 1) as nat) == size as int * p);
            lemma_mul_nonnegative(acc as int, size as int);
            lemma_mul_inequality(acc as int, p - 1, size as int);
            assert((p - 1) * size as int == p * size as int - size as int) by (nonlinear_arith);
            assert(p * size as int == size as int * p) by (nonlinear_arith);
            assert(coords.take(d + 1).drop_last() =~= coords.take(d as int));
            assert(coords.take(d + 1).last() == coords[d as int]);
        }
        acc = acc * size + coord.get(d);
        d += 1;
    }
    proof {
        assert(coords.take(DIMS as int) =~= coords);
    }
    acc
}

/// The number of boundary points of a two-dimensional lattice of side
/// `size`: the ring of points with a coordinate at either edge.
pub fn compute_boundary_size(size: usize) -> (r: usize)
    requires
        size >= 1,
        size * 4 <= usize::MAX,
    ensures
        r == size * 4 - 4,
{
    size * 4 - 4
}

/// The configuration for the coupled oscillator lattice.
#[derive(Debug, Copy, Clone, PartialEq, Eq)]
pub struct SimulationConfig<T, const DIMS: usize> {
    /// The side length of the lattice.
    pub size: usize,
    /// The strength of the coupling between neighboring lattice points.
    pub stiffness: T,
    /// The strength of the coupling between each point and its
    /// equilibrium position.
    pub origin_stiffness: T,
}

/// The full state of the lattice at one time.
#[derive(Debug, Clone)]
pub struct SimulationState<T, const DIMS: usize> {
    /// The current time in the system.
    pub time: T,
    /// The side length of the lattice.
    pub size: usize,
    /// The strength of the coupling between neighboring lattice points.
    pub stiffness: T,
    /// The strength of the coupling between each point and its
    /// equilibrium position.
    pub origin_stiffness: T,
    /// The displacement of every lattice point.
    pub position: Vec<Vector<T, DIMS>>,
    /// The velocity of every lattice point.
    pub velocity: Vec<Vector<T, DIMS>>,
    /// The acceleration of every lattice point.
    pub acceleration: Vec<Vector<T, DIMS>>,
}

impl<T, const DIMS: usize> SimulationState<T, DIMS> {
    /// Well-formed: the three per-point arrays all hold one entry per
    /// lattice point of the `size`-sided cube.
    pub open spec fn wf(self) -> bool {
        &&& self.size >= 1
        &&& pow(self.size as int, DIMS as nat) <= usize::MAX
        &&& self.position@.len() == pow(self.size as int, DIMS as nat)
        &&& self.velocity@.len() == self.position@.len()
        &&& self.acceleration@.len() == self.position@.len()
    }
}

impl<T: Numeric, const DIMS: usize> SimulationState<T, DIMS> {
    /// A zeroed state of the shape the configuration calls for.
    pub fn new(config: SimulationConfig<T, DIMS>) -> (r: Self)
        requires
            config.size >= 1,
            pow(config.size as int, DIMS as nat) <= usize::MAX,
        ensures
            r.wf(),
            r.size == config.size,
            r.stiffness == config.stiffness,
            r.origin_stiffness == config.origin_stiffness,
            r.time.as_int() == 0,
            forall|i: int, e: int|
                0 <= i < r.position@.len() && 0 <= e < DIMS ==> (#[trigger] r.position@[i]@[e]).as_int()
                    == 0,
            forall|i: int, e: int|
                0 <= i < r.velocity@.len() && 0 <= e < DIMS ==> (#[trigger] r.velocity@[i]@[e]).as_int()
                    == 0,
            forall|i: int, e: int|
                0 <= i < r.acceleration@.len() && 0 <= e < DIMS ==> (#[trigger] r.acceleration@[i]@[e]).as_int()
                    == 0,
    {
        let n = pow_usize(config.size, DIMS);
        SimulationState {
            time: T::num_zero(),
            size: config.size,
            stiffness: config.stiffness,
            origin_stiffness: config.origin_stiffness,
            position: zero_points(n),
            velocity: zero_points(n),
            acceleration: zero_points(n),
        }
    }

    /// Projects this state down to its observable boundary points.
    pub fn observe(&self, observable: &mut ObservableSimulationState<T, DIMS>)
        requires
            self.wf(),
        ensures
            final(observable).time == self.time,
            final(observable).size == self.size,
            final(observable).position@ == boundary_seq(
                self.position@,
                self.size as int,
                DIMS as nat,
                self.position@.len() as int,
            ),
            final(observable).velocity@ == boundary_seq(
                self.velocity@,
                self.size as int,
                DIMS as nat,
                self.velocity@.len() as int,
            ),
            DIMS == 2 && self.size >= 2 ==> final(observable).position@.len() == 4 * self.size - 4
                && final(observable).velocity@.len() == 4 * self.size - 4,
    {
        observable.time = self.time;
        observable.size = self.size;
        observable.position = boundary_points(&self.position, self.size);
        observable.velocity = boundary_points(&self.velocity, self.size);
        proof {
            if DIMS == 2 && self.size >= 2 {
                reveal(pow);
                let sz = self.size as int;
                assert(pow(sz, 0nat) == 1);
                assert(pow(sz, 1nat) == sz * pow(sz, 0nat));
                assert(pow(sz, 2nat) == sz * pow(sz, 1nat));
                lemma_boundary_ring_size(self.position@, sz);
                lemma_boundary_ring_size(self.velocity@, sz);
            }
        }
    }
}

/// A vector of `n` zeroed lattice points.
fn zero_points<T: Numeric, const DIMS: usize>(n: usize) -> (r: Vec<Vector<T, DIMS>>)
    ensures
        r@.len() == n,
        forall|i: int, e: int|
            0 <= i < n && 0 <= e < DIMS ==> (#[trigger] r@[i]@[e]).as_int() == 0,
{
    let mut out: Vec<Vector<T, DIMS>> = Vec::new();
    let mut i: usize = 0;
    while i < n
        invariant
            i <= n,
            out@.len() == i,
            forall|t: int, e: int|
                0 <= t < i && 0 <= e < DIMS ==> (#[trigger] out@[t]@[e]).as_int() == 0,
        decreases n - i,
    {
        out.push(Vector::zero());
        i += 1;
    }
    out
}

/// The observable subset of the lattice state: the boundary points.
#[derive(Debug, Clone)]
pub struct ObservableSimulationState<T, const DIMS: usize> {
    /// The current time in the system.
    pub time: T,
    /// The side length of the lattice.
    pub size: usize,
    /// The positions of the observable lattice points.
    pub position: Vec<Vector<T, DIMS>>,
    /// The velocities of the observable lattice points.
    pub velocity: Vec<Vector<T, DIMS>>,
}

impl<T: Numeric, const DIMS: usize> ObservableSimulationState<T, DIMS> {
    /// A zeroed observable state of the shape the configuration calls
    /// for: the boundary ring of a two-dimensional lattice.
    pub fn new(config: SimulationConfig<T, DIMS>) -> (r: Self)
        requires
            DIMS == 2,
            config.size >= 1,
            config.size * 4 <= usize::MAX,
        ensures
            r.size == config.size,
            r.time.as_int() == 0,
            r.position@.len() == config.size * 4 - 4,
            r.velocity@.len() == config.size * 4 - 4,
            forall|i: int, e: int|
                0 <= i < r.position@.len() && 0 <= e < DIMS ==> (#[trigger] r.position@[i]@[e]).as_int()
                    == 0,
            forall|i: int, e: int|
                0 <= i < r.velocity@.len() && 0 <= e < DIMS ==> (#[trigger] r.velocity@[i]@[e]).as_int()
                    == 0,
    {
        let boundary_size = compute_boundary_size(config.size);
        ObservableSimulationState {
            time: T::num_zero(),
            size: config.size,
            position: zero_points(boundary_size),
            velocity: zero_points(boundary_size),
        }
    }
}

/// Whether a coordinate lies on the lattice boundary: some axis sits at
/// either edge.
pub open spec fn is_boundary_coord(c: Seq<int>, size: int) -> bool {
    exists|d: int| 0 <= d < c.len() && (c[d] == 0 || c[d] == size - 1)
}

/// The items at the boundary points among the first `upto` lattice
/// points, in increasing flat-index order.
pub open spec fn boundary_seq<A>(items: Seq<A>, size: int, dims: nat, upto: int) -> Seq<A>
    decreases upto,
{
    if upto <= 0 {
        Seq::empty()
    } else {
        let rest = boundary_seq(items, size, dims, upto - 1);
        if is_boundary_coord(deindex_spec(upto - 1, size, dims), size) {
            rest.push(items[upto - 1])
        } else {
            rest
        }
    }
}

/// The number of boundary points among the first `i` points of a
/// two-dimensional lattice of side `s`, in closed form: full boundary
/// rows count `s` points, middle rows two, and a partial row counts what
/// of its boundary has been passed.
spec fn boundary_count_2d(s: int, i: int) -> int {
    let r = i / s;
    let t = i % s;
    if r == 0 {
        t
    } else if r < s - 1 {
        s + (r - 1) * 2 + (if t == 0 { 0int } else { 1int })
    } else if r == s - 1 {
        s + (s - 2) * 2 + t
    } else {
        s + (s - 2) * 2 + s
    }
}

/// The boundary projection of a two-dimensional lattice counts its
/// points by the closed form, row by row.
proof fn lemma_boundary_count_2d<A>(items: Seq<A>, s: int, upto: int)
    requires
        s >= 2,
        0 <= upto <= s * s,
    ensures
        boundary_seq(items, s, 2, upto).len() == boundary_count_2d(s, upto),
    decreases upto,
{
    reveal(pow);
    if upto == 0 {
        assert(0int / s == 0 && 0int % s == 0) by {
            lemma_fundamental_div_mod_converse_div(0, s, 0, 0);
            lemma_fundamental_div_mod_converse_mod(0, s, 0, 0);
        }
    } else {
        lemma_boundary_count_2d(items, s, upto - 1);
        let i = upto - 1;
        let r = i / s;
        let t = i % s;
        lemma_fundamental_div_mod(i, s);
        lemma_mod_bound(i, s);
        lemma_div_pos_is_pos(i, s);
        if r >= s {
            lemma_mul_inequality(s, r, s);
            assert(false);
        }
        let c = deindex_spec(i, s, 2nat);
        assert(pow(s, 0nat) == 1);
        assert(pow(s, 1nat) == s * pow(s, 0nat));
        assert(c[0] == (i / s) % s && c[1] == (i / 1) % s);
        lemma_small_mod(r as nat, s as nat);
        lemma_fundamental_div_mod_converse_div(i, 1, i, 0);
        assert(c[0] == r && c[1] == t);
        let on_edge = r == 0 || r == s - 1 || t == 0 || t == s - 1;
        assert(is_boundary_coord(c, s) == on_edge) by {
            if on_edge {
                if r == 0 || r == s - 1 {
                    assert(0 <= 0 < c.len() && (c[0] == 0 || c[0] == s - 1));
                } else {
                    assert(0 <= 1 < c.len() && (c[1] == 0 || c[1] == s - 1));
                }
            } else {
                assert forall|d: int| 0 <= d < c.len() implies !(c[d] == 0 || c[d] == s - 1) by {
                    assert(d == 0 || d == 1);
                }
            }
        }
        if t == s - 1 {
            assert(upto == (r + 1) * s + 0) by (nonlinear_arith)
                requires i == s * r + t, t == s - 1, upto == i + 1;
            lemma_fundamental_div_mod_converse_div(upto, s, r + 1, 0);
            lemma_fundamental_div_mod_converse_mod(upto, s, r + 1, 0);
        } else {
            assert(upto == r * s + (t + 1)) by (nonlinear_arith)
                requires i == s * r + t, upto == i + 1;
            lemma_fundamental_div_mod_converse_div(upto, s, r, t + 1);
            lemma_fundamental_div_mod_converse_mod(upto, s, r, t + 1);
        }
    }
}

/// Law: for a two-dimensional lattice of side at least two, the boundary
/// projection holds exactly `4·size - 4` points: the observable ring.
pub proof fn lemma_boundary_ring_size<A>(items: Seq<A>, size: int)
    requires
        size >= 2,
    ensures
        boundary_seq(items, size, 2, size * size).len() == 4 * size - 4,
{
    lemma_boundary_count_2d(items, size, size * size);
    let n = size * size;
    assert(n == size * size + 0);
    lemma_fundamental_div_mod_converse_div(n, size, size, 0);
    lemma_fundamental_div_mod_converse_mod(n, size, size, 0);
}

/// Collects the items at the boundary points, in flat-index order.
pub fn boundary_points<T: Copy, const DIMS: usize>(items: &Vec<Vector<T, DIMS>>, size: usize) -> (r:
    Vec<Vector<T, DIMS>>)
    requires
        size >= 1,
        pow(size as int, DIMS as nat) <= usize::MAX,
        items@.len() <= pow(size as int, DIMS as nat),
    ensures
        r@ == boundary_seq(items@, size as int, DIMS as nat, items@.len() as int),
{
    let mut out: Vec<Vector<T, DIMS>> = Vec::new();
    let mut i: usize = 0;
    let n = items.len();
    while i < n
        invariant
            i <= n,
            n == items@.len(),
            size >= 1,
            pow(size as int, DIMS as nat) <= usize::MAX,
            n <= pow(size as int, DIMS as nat),
            out@ == boundary_seq(items@, size as int, DIMS as nat, i as int),
        decreases n - i,
    {
        let c = deindex::<DIMS>(i, size);
        let ghost spec_c = deindex_spec(i as int, size as int, DIMS as nat);
        let mut on_boundary = false;
        let mut d: usize = 0;
        while d < DIMS
            invariant
                d <= DIMS,
                size >= 1,
                c@.len() == DIMS,
                coords_int(c@) == spec_c,
                spec_c.len() == DIMS,
                on_boundary == exists|t: int|
                    0 <= t < d && (spec_c[t] == 0 || spec_c[t] == size - 1),
            decreases DIMS - d,
        {
            proof {
                assert(coords_int(c@)[d as int] == c@[d as int] as int);
            }
            let cd = c.get(d);
            if cd == 0 || cd == size - 1 {
                proof {
                    assert(spec_c[d as int] == 0 || spec_c[d as int] == size as int - 1);
                    assert(exists|t: int|
                        0 <= t < d + 1 && (spec_c[t] == 0 || spec_c[t] == size - 1));
                }
                on_boundary = true;
            } else {
                proof {
                    assert(!(spec_c[d as int] == 0 || spec_c[d as int] == size as int - 1));
                    assert((exists|t: int|
                        0 <= t < d + 1 && (spec_c[t] == 0 || spec_c[t] == size - 1)) == (exists|
                        t: int,
                    |
                        0 <= t < d && (spec_c[t] == 0 || spec_c[t] == size - 1)));
                }
            }
            d += 1;
        }
        proof {
            assert(on_boundary == is_boundary_coord(spec_c, size as int));
        }
        if on_boundary {
            out.push(items[i]);
        }
        i += 1;
    }
    out
}

/// The flat scalar contents of a list of lattice points: every point's
/// components in order, points in order.
pub open spec fn points_flat<T, const DIMS: usize>(items: Seq<Vector<T, DIMS>>) -> Seq<T> {
    items.map_values(|p: Vector<T, DIMS>| p@).flatten()
}

/// The flattened scalars of `n` points of `DIMS` components number
/// `n·DIMS`.
pub proof fn lemma_points_flat_len<T, const DIMS: usize>(items: Seq<Vector<T, DIMS>>)
    ensures
        points_flat(items).len() == items.len() * DIMS,
    decreases items.len(),
{
    let segs = items.map_values(|p: Vector<T, DIMS>| p@);
    if items.len() == 0 {
        assert(points_flat(items) =~= Seq::<T>::empty());
    } else {
        let rest = items.drop_first();
        assert(segs.drop_first() =~= rest.map_values(|p: Vector<T, DIMS>| p@));
        assert(points_flat(items) == segs.first() + points_flat(rest));
        lemma_points_flat_len(rest);
        assert(DIMS + (items.len() - 1) * DIMS == items.len() * DIMS) by (nonlinear_arith);
    }
}

/// Flattening one more point appends that point's components.
proof fn lemma_points_flat_push<T, const DIMS: usize>(
    items: Seq<Vector<T, DIMS>>,
    point: Vector<T, DIMS>,
)
    ensures
        points_flat(items.push(point)) == points_flat(items) + point@,
{
    let segs = items.map_values(|p: Vector<T, DIMS>| p@);
    assert(items.push(point).map_values(|p: Vector<T, DIMS>| p@) =~= segs.push(point@));
    segs.lemma_flatten_push(point@);
}

/// Gathers the components of every lattice point into one flat buffer of
/// scalars, points in order, each point's components in order.
pub fn flatten_points<T: Copy, const DIMS: usize>(items: &Vec<Vector<T, DIMS>>) -> (r: Vec<T>)
    requires
        items@.len() * DIMS <= usize::MAX,
    ensures
        r@ == points_flat(items@),
        r@.len() == items@.len() * DIMS,
{
    let mut out: Vec<T> = Vec::new();
    let mut i: usize = 0;
    let n = items.len();
    proof {
        lemma_points_flat_len(items@);
        assert(items@.take(0) =~= Seq::<Vector<T, DIMS>>::empty());
        assert(points_flat(items@.take(0)) =~= Seq::<T>::empty());
    }
    while i < n
        invariant
            i <= n,
            n == items@.len(),
            n * DIMS <= usize::MAX,
            points_flat(items@).len() == n * DIMS,
            out@ == points_flat(items@.take(i as int)),
            out@.len() == i * DIMS,
        decreases n - i,
    {
        proof {
            assert(i * DIMS + DIMS == (i + 1) * DIMS && (i + 1) * DIMS <= n * DIMS)
                by (nonlinear_arith)
                requires 0 <= i < n;
        }
        let ghost sofar = out@;
        let mut e: usize = 0;
        while e < DIMS
            invariant
                e <= DIMS,
                i < n,
                n == items@.len(),
                out@ == sofar + items@[i as int]@.take(e as int),
                sofar.len() + DIMS <= usize::MAX,
            decreases DIMS - e,
        {
            out.push(items[i].get(e));
            proof {
                assert(items@[i as int]@.take(e + 1) =~= items@[i as int]@.take(e as int).push(
                    items@[i as int]@[e as int],
                ));
            }
            e += 1;
        }
        proof {
            assert(items@[i as int]@.take(DIMS as int) =~= items@[i as int]@);
            assert(items@.take(i + 1) =~= items@.take(i as int).push(items@[i as int]));
            lemma_points_flat_push(items@.take(i as int), items@[i as int]);
        }
        i += 1;
    }
    proof {
        assert(items@.take(n as int) =~= items@);
    }
    out
}

/// Rebuilds `n` lattice points from the flat scalars of `v` starting at
/// `start`: the inverse of [`flatten_points`] over that range.
fn unflatten_points<T: Copy + Numeric, const DIMS: usize>(v: &[T], start: usize, n: usize) -> (r:
    Vec<Vector<T, DIMS>>)
    requires
        start + n * DIMS <= v@.len(),
        v@.len() <= usize::MAX,
    ensures
        r@.len() == n,
        points_flat(r@) == v@.subrange(start as int, start + n * DIMS),
{
    let mut out: Vec<Vector<T, DIMS>> = Vec::new();
    let mut i: usize = 0;
    let mut base: usize = start;
    proof {
        assert(points_flat(out@) =~= Seq::<T>::empty());
        assert(0 * DIMS == 0) by (nonlinear_arith);
    }
    while i < n
        invariant
            i <= n,
            base == start + i * DIMS,
            i * DIMS <= n * DIMS,
            start + n * DIMS <= v@.len(),
            v@.len() <= usize::MAX,
            out@.len() == i,
            points_flat(out@) == v@.subrange(start as int, base as int),
        decreases n - i,
    {
        proof {
            assert(i * DIMS + DIMS == (i + 1) * DIMS && (i + 1) * DIMS <= n * DIMS)
                by (nonlinear_arith)
                requires 0 <= i < n;
        }
        let mut point = Vector::<T, DIMS>::zero();
        let mut e: usize = 0;
        while e < DIMS
            invariant
                e <= DIMS,
                base + DIMS <= v@.len(),
                v@.len() <= usize::MAX,
                point@.len() == DIMS,
                forall|u: int| 0 <= u < e ==> point@[u] == v@[base + u],
            decreases DIMS - e,
        {
            point.set(e, v[base + e]);
            e += 1;
        }
        proof {
            lemma_points_flat_push(out@, point);
            assert(point@ =~= v@.subrange(base as int, base + DIMS));
            assert(v@.subrange(start as int, base + DIMS) =~= v@.subrange(start as int, base as int)
                + v@.subrange(base as int, base + DIMS));
        }
        out.push(point);
        base = base + DIMS;
        i += 1;
    }
    out
}

impl<const DIMS: usize> SimulationState<Fixed, DIMS> {
    /// The state's scalars as one rope of three segments: the flattened
    /// positions, velocities and accelerations, in that order. This is
    /// the view the flat control boundary reads.
    pub fn to_rope(&self) -> (r: Rope<Fixed>)
        requires
            self.wf(),
            self.position@.len() * DIMS * 3 <= usize::MAX,
        ensures
            r.wf(),
            r.segs().len() == 3,
            r.segs()[0] == points_flat(self.position@),
            r.segs()[1] == points_flat(self.velocity@),
            r.segs()[2] == points_flat(self.acceleration@),
    {
        proof {
            assert(self.position@.len() * DIMS <= self.position@.len() * DIMS * 3)
                by (nonlinear_arith)
                requires self.position@.len() >= 0, DIMS >= 0;
        }
        let pos = flatten_points(&self.position);
        let vel = flatten_points(&self.velocity);
        let acc = flatten_points(&self.acceleration);
        let total = pos.len() + vel.len() + acc.len();
        let mut data: Vec<Vec<Fixed>> = Vec::new();
        data.push(pos);
        data.push(vel);
        data.push(acc);
        proof {
            let segs = seg_views(data@);
            assert(segs.len() == 3);
            assert(segs.take(1) =~= seq![segs[0]]);
            seq![segs[0]].lemma_flatten_one_element();
            assert(segs.take(2) =~= segs.take(1).push(segs[1]));
            segs.take(1).lemma_flatten_push(segs[1]);
            assert(segs =~= segs.take(2).push(segs[2]));
            segs.take(2).lemma_flatten_push(segs[2]);
            assert(self.position@.len() * DIMS + self.position@.len() * DIMS
                + self.position@.len() * DIMS == self.position@.len() * DIMS * 3)
                by (nonlinear_arith);
        }
        Rope::new(data)
    }

    /// Scatters one flat buffer of scalars back into the state: the first
    /// third of the buffer fills the positions, the second the
    /// velocities, the last the accelerations, point by point and
    /// component by component. The buffer must match the state exactly.
    pub fn copy_from_slice(&mut self, v: &[Fixed])
        requires
            old(self).wf(),
            old(self).position@.len() * DIMS * 3 <= usize::MAX,
            v@.len() == old(self).position@.len() * DIMS * 3,
        ensures
            final(self).wf(),
            final(self).time == old(self).time,
            final(self).size == old(self).size,
            final(self).stiffness == old(self).stiffness,
            final(self).origin_stiffness == old(self).origin_stiffness,
            points_flat(final(self).position@) == v@.subrange(
                0,
                old(self).position@.len() * DIMS,
            ),
            points_flat(final(self).velocity@) == v@.subrange(
                old(self).position@.len() * DIMS,
                old(self).position@.len() * DIMS * 2,
            ),
            points_flat(final(self).acceleration@) == v@.subrange(
                old(self).position@.len() * DIMS * 2,
                old(self).position@.len() * DIMS * 3,
            ),
    {
        let n = self.position.len();
        proof {
            assert(n * DIMS <= n * DIMS * 3 && n * DIMS + n * DIMS == n * DIMS * 2 && n * DIMS * 2
                + n * DIMS == n * DIMS * 3 && n * DIMS * 2 <= n * DIMS * 3) by (nonlinear_arith)
                requires n >= 0, DIMS >= 0;
        }
        let width = n * DIMS;
        let position = unflatten_points(v, 0, n);
        let velocity = unflatten_points(v, width, n);
        let acceleration = unflatten_points(v, width + width, n);
        self.position = position;
        self.velocity = velocity;
        self.acceleration = acceleration;
    }
}

} // verus!
