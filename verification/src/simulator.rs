//! The simulation engine: a ring buffer of lattice states advanced by
//! velocity Verlet integration, with the per-point force, position and
//! velocity updates computed in parallel across lattice points.
//!
//! One `update` works on two ring slots. The current slot receives the
//! new positions and velocities in place; the slot after it, which holds
//! the oldest retained data, receives the freshly computed accelerations
//! and the advanced time, and then becomes the current slot.

use vstd::prelude::*;

verus! {

use rayon::prelude::{IndexedParallelIterator, IntoParallelIterator, IntoParallelRefMutIterator,
    ParallelIterator};
use vstd::arithmetic::power::pow;
use vstd::arithmetic::div_mod::{
    lemma_div_is_ordered, lemma_div_multiples_vanish, lemma_div_pos_is_pos,
    lemma_fundamental_div_mod, lemma_mod_bound,
};
use vstd::math::abs;
use crate::numeric::{fhalf, fixed_fits, fmul, Fixed, Numeric, SCALE};
use crate::simulation::{boundary_points, boundary_seq, coords_int, deindex, deindex_spec,
    flat_index_of, index, lemma_flat_index_bounds, SimulationConfig, SimulationState};
use crate::system::{ControlSignalState, Observation, ObservableState, DELAY_DEPTH};
use crate::vector::Vector;

/// The raw values of a sequence of scalars.
pub open spec fn fx_view(v: Seq<Fixed>) -> Seq<int> {
    v.map_values(|x: Fixed| x@)
}

/// The raw values of a sequence of lattice points.
pub open spec fn pts_view<const DIMS: usize>(v: Seq<Vector<Fixed, DIMS>>) -> Seq<Seq<int>> {
    v.map_values(|p: Vector<Fixed, DIMS>| fx_view(p@))
}

/// One component of the position update:
/// `p + (v·dt + (a·dt·dt)/2)`, in fixed-point raw values.
pub open spec fn pos_elem_step(p: int, v: int, a: int, dt: int) -> int {
    p + (fmul(v, dt) + fhalf(fmul(fmul(a, dt), dt)))
}

/// Whether every intermediate of [`pos_elem_step`] is representable.
pub open spec fn pos_elem_fits(p: int, v: int, a: int, dt: int) -> bool {
    &&& fixed_fits(fmul(v, dt))
    &&& fixed_fits(fmul(a, dt))
    &&& fixed_fits(fmul(fmul(a, dt), dt))
    &&& fixed_fits(fmul(v, dt) + fhalf(fmul(fmul(a, dt), dt)))
    &&& fixed_fits(pos_elem_step(p, v, a, dt))
}

/// The flat index of the neighbor one step down along axis `d`.
pub open spec fn neighbor_index(c: Seq<int>, d: int, size: int) -> int {
    flat_index_of(c.update(d, c[d] - 1), size)
}

/// One component of the force on lattice point `i` after the couplings of
/// the first `d` axes have been accumulated: the pull toward the origin,
/// `(-p)·os`, plus, for each axis along which the point has a lower
/// neighbor, the asymmetric nearest-neighbor coupling
/// `(p_neighbor - p)·st`. Points at coordinate zero along an axis have no
/// lower neighbor there: the boundary is open.
pub open spec fn force_elem(
    pos: Seq<Seq<int>>,
    size: int,
    os: int,
    st: int,
    i: int,
    e: int,
    d: int,
    dims: nat,
) -> int
    decreases d,
{
    if d <= 0 {
        fmul(-pos[i][e], os)
    } else {
        let c = deindex_spec(i, size, dims);
        let prev = force_elem(pos, size, os, st, i, e, d - 1, dims);
        if c[d - 1] > 0 {
            prev + fmul(pos[neighbor_index(c, d - 1, size)][e] - pos[i][e], st)
        } else {
            prev
        }
    }
}

/// Whether every intermediate of [`force_elem`] is representable.
pub open spec fn force_elem_fits(
    pos: Seq<Seq<int>>,
    size: int,
    os: int,
    st: int,
    i: int,
    e: int,
    d: int,
    dims: nat,
) -> bool
    decreases d,
{
    if d <= 0 {
        &&& fixed_fits(-pos[i][e])
        &&& fixed_fits(fmul(-pos[i][e], os))
    } else {
        let c = deindex_spec(i, size, dims);
        &&& force_elem_fits(pos, size, os, st, i, e, d - 1, dims)
        &&& (c[d - 1] > 0 ==> {
            let j = neighbor_index(c, d - 1, size);
            &&& fixed_fits(pos[j][e] - pos[i][e])
            &&& fixed_fits(fmul(pos[j][e] - pos[i][e], st))
            &&& fixed_fits(
                force_elem(pos, size, os, st, i, e, d - 1, dims) + fmul(
                    pos[j][e] - pos[i][e],
                    st,
                ),
            )
        })
    }
}

/// One component of the velocity update:
/// `v + ((a1 + a2)·dt)/2`, in fixed-point raw values.
pub open spec fn vel_elem_step(v: int, a1: int, a2: int, dt: int) -> int {
    v + fhalf(fmul(a1 + a2, dt))
}

/// Whether every intermediate of [`vel_elem_step`] is representable.
pub open spec fn vel_elem_fits(v: int, a1: int, a2: int, dt: int) -> bool {
    &&& fixed_fits(a1 + a2)
    &&& fixed_fits(fmul(a1 + a2, dt))
    &&& fixed_fits(vel_elem_step(v, a1, a2, dt))
}

/// The position update applied to every component of every point.
pub open spec fn pos_step(pos: Seq<Seq<int>>, vel: Seq<Seq<int>>, acc: Seq<Seq<int>>, dt: int) -> Seq<
    Seq<int>,
> {
    Seq::new(pos.len(), |i: int| Seq::new(pos[i].len(), |e: int| pos_elem_step(pos[i][e], vel[i][e], acc[i][e], dt)))
}

/// The force computation applied to every component of every point.
pub open spec fn force_step(pos: Seq<Seq<int>>, size: int, os: int, st: int, dims: nat) -> Seq<
    Seq<int>,
> {
    Seq::new(pos.len(), |i: int| Seq::new(dims, |e: int| force_elem(pos, size, os, st, i, e, dims as int, dims)))
}

/// The velocity update applied to every component of every point.
pub open spec fn vel_step(vel: Seq<Seq<int>>, acc1: Seq<Seq<int>>, acc2: Seq<Seq<int>>, dt: int) -> Seq<
    Seq<int>,
> {
    Seq::new(vel.len(), |i: int| Seq::new(vel[i].len(), |e: int| vel_elem_step(vel[i][e], acc1[i][e], acc2[i][e], dt)))
}

/// Whether one whole step on a state with the given views stays within
/// the representable range at every intermediate value.
pub open spec fn step_fits(
    pos: Seq<Seq<int>>,
    vel: Seq<Seq<int>>,
    acc: Seq<Seq<int>>,
    size: int,
    st: int,
    os: int,
    time: int,
    dt: int,
    dims: nat,
) -> bool {
    let pos2 = pos_step(pos, vel, acc, dt);
    let acc2 = force_step(pos2, size, os, st, dims);
    &&& forall|i: int, e: int|
        0 <= i < pos.len() && 0 <= e < dims ==> pos_elem_fits(
            #[trigger] pos[i][e],
            vel[i][e],
            acc[i][e],
            dt,
        )
    &&& forall|i: int, e: int|
        0 <= i < pos.len() && 0 <= e < dims ==> force_elem_fits(
            pos2,
            size,
            os,
            st,
            i,
            e,
            dims as int,
            dims,
        )
    &&& forall|i: int, e: int|
        0 <= i < pos.len() && 0 <= e < dims ==> vel_elem_fits(
            #[trigger] vel[i][e],
            acc[i][e],
            acc2[i][e],
            dt,
        )
    &&& fixed_fits(time + dt)
}

/// Range bounds carry down from the full force accumulation to every
/// partial one.
proof fn lemma_force_fits_prefix(
    pos: Seq<Seq<int>>,
    size: int,
    os: int,
    st: int,
    i: int,
    e: int,
    d1: int,
    d2: int,
    dims: nat,
)
    requires
        0 <= d1 <= d2,
        force_elem_fits(pos, size, os, st, i, e, d2, dims),
    ensures
        force_elem_fits(pos, size, os, st, i, e, d1, dims),
    decreases d2 - d1,
{
    if d1 < d2 {
        lemma_force_fits_prefix(pos, size, os, st, i, e, d1, d2 - 1, dims);
    }
}

/// Advances the positions of one lattice point by one timestep, using the
/// point's current velocity and acceleration.
pub fn position_point_step<const DIMS: usize>(
    p: Vector<Fixed, DIMS>,
    v: Vector<Fixed, DIMS>,
    a: Vector<Fixed, DIMS>,
    dt: Fixed,
) -> (r: Vector<Fixed, DIMS>)
    requires
        forall|e: int|
            0 <= e < DIMS ==> pos_elem_fits((#[trigger] p@[e])@, v@[e]@, a@[e]@, dt@),
    ensures
        r@.len() == DIMS,
        forall|e: int|
            0 <= e < DIMS ==> (#[trigger] r@[e])@ == pos_elem_step(p@[e]@, v@[e]@, a@[e]@, dt@),
{
    proof {
        assert forall|e: int| 0 <= e < DIMS implies fixed_fits(
            fmul((#[trigger] v@[e])@, dt@),
        ) by {
            assert(pos_elem_fits(p@[e]@, v@[e]@, a@[e]@, dt@));
        }
        assert forall|e: int| 0 <= e < DIMS implies fixed_fits(
            fmul((#[trigger] a@[e])@, dt@),
        ) by {
            assert(pos_elem_fits(p@[e]@, v@[e]@, a@[e]@, dt@));
        }
    }
    let vdt = v.scale(dt);
    let adt = a.scale(dt);
    proof {
        assert forall|e: int| 0 <= e < DIMS implies fixed_fits(
            fmul((#[trigger] adt@[e])@, dt@),
        ) by {
            assert(pos_elem_fits(p@[e]@, v@[e]@, a@[e]@, dt@));
        }
    }
    let adt2 = adt.scale(dt).half();
    proof {
        assert forall|e: int| 0 <= e < DIMS implies fixed_fits(
            (#[trigger] vdt@[e])@ + adt2@[e]@,
        ) by {
            assert(pos_elem_fits(p@[e]@, v@[e]@, a@[e]@, dt@));
        }
    }
    let rhs = vdt.add(adt2);
    proof {
        assert forall|e: int| 0 <= e < DIMS implies fixed_fits((#[trigger] p@[e])@ + rhs@[e]@) by {
            assert(pos_elem_fits(p@[e]@, v@[e]@, a@[e]@, dt@));
        }
    }
    p.add(rhs)
}

/// Computes the force on lattice point `i` from the positions: the pull
/// toward the origin plus the coupling toward the lower neighbor along
/// each axis where the point is not on the open boundary.
pub fn force_point<const DIMS: usize>(
    position: &Vec<Vector<Fixed, DIMS>>,
    size: usize,
    stiffness: Fixed,
    origin_stiffness: Fixed,
    i: usize,
) -> (r: Vector<Fixed, DIMS>)
    requires
        size >= 1,
        pow(size as int, DIMS as nat) <= usize::MAX,
        position@.len() == pow(size as int, DIMS as nat),
        i < position@.len(),
        forall|e: int|
            0 <= e < DIMS ==> force_elem_fits(
                pts_view(position@),
                size as int,
                origin_stiffness@,
                stiffness@,
                i as int,
                #[trigger] (e + 0),
                DIMS as int,
                DIMS as nat,
            ),
    ensures
        r@.len() == DIMS,
        forall|e: int|
            0 <= e < DIMS ==> (#[trigger] r@[e])@ == force_elem(
                pts_view(position@),
                size as int,
                origin_stiffness@,
                stiffness@,
                i as int,
                e,
                DIMS as int,
                DIMS as nat,
            ),
{
    let ghost pv = pts_view(position@);
    let ghost os = origin_stiffness@;
    let ghost st = stiffness@;
    proof {
        assert forall|e: int, d: int| 0 <= e < DIMS && 0 <= d <= DIMS implies force_elem_fits(
            pv,
            size as int,
            os,
            st,
            i as int,
            #[trigger] (e + 0),
            #[trigger] (d + 0),
            DIMS as nat,
        ) by {
            assert(force_elem_fits(pv, size as int, os, st, i as int, e + 0, DIMS as int,
                DIMS as nat));
            lemma_force_fits_prefix(pv, size as int, os, st, i as int, e, d, DIMS as int,
                DIMS as nat);
        }
        assert(pv[i as int] == fx_view(position@[i as int]@));
        assert forall|e: int| 0 <= e < DIMS implies fixed_fits(
            -(#[trigger] position@[i as int]@[e])@,
        ) && fixed_fits(fmul(-position@[i as int]@[e]@, os)) by {
            assert(force_elem_fits(pv, size as int, os, st, i as int, e + 0, 0int + 0, DIMS as nat));
        }
    }
    let mut acc = vec_at(position, i).neg().scale(origin_stiffness);
    let c = deindex::<DIMS>(i, size);
    let ghost spec_c = deindex_spec(i as int, size as int, DIMS as nat);
    proof {
        assert forall|e: int| 0 <= e < DIMS implies (#[trigger] acc@[e])@ == force_elem(
            pv,
            size as int,
            os,
            st,
            i as int,
            e,
            0,
            DIMS as nat,
        ) by {
            assert(pv[i as int][e] == position@[i as int]@[e]@);
        }
        assert forall|t: int| 0 <= t < DIMS implies 0 <= #[trigger] spec_c[t]
            < size as int by {
            lemma_mod_bound(i as int / pow(size as int, (DIMS - 1 - t) as nat), size as int);
        }
    }
    let mut d: usize = 0;
    while d < DIMS
        invariant
            d <= DIMS,
            size >= 1,
            pow(size as int, DIMS as nat) <= usize::MAX,
            position@.len() == pow(size as int, DIMS as nat),
            i < position@.len(),
            pv == pts_view(position@),
            os == origin_stiffness@,
            st == stiffness@,
            c@.len() == DIMS,
            coords_int(c@) == spec_c,
            spec_c == deindex_spec(i as int, size as int, DIMS as nat),
            forall|t: int| 0 <= t < DIMS ==> 0 <= #[trigger] spec_c[t] < size as int,
            forall|e: int, t: int|
                0 <= e < DIMS && 0 <= t <= DIMS ==> force_elem_fits(
                    pv,
                    size as int,
                    os,
                    st,
                    i as int,
                    #[trigger] (e + 0),
                    #[trigger] (t + 0),
                    DIMS as nat,
                ),
            acc@.len() == DIMS,
            forall|e: int|
                0 <= e < DIMS ==> (#[trigger] acc@[e])@ == force_elem(
                    pv,
                    size as int,
                    os,
                    st,
                    i as int,
                    e,
                    d as int,
                    DIMS as nat,
                ),
        decreases DIMS - d,
    {
        let cd = c.get(d);
        if cd > 0 {
            let basis = Vector::<usize, DIMS>::basis(d);
            proof {
                assert forall|t: int| #![trigger c@[t], basis@[t]] 0 <= t < DIMS implies
                    usize::MIN <= c@[t].as_int() - basis@[t].as_int() <= usize::MAX by {
                    assert(coords_int(c@)[t] == c@[t] as int);
                }
            }
            let nc = c.sub(basis);
            proof {
                assert(coords_int(nc@) =~= spec_c.update(d as int, spec_c[d as int] - 1));
                assert forall|t: int| 0 <= t < DIMS implies (#[trigger] nc@[t]) < size by {
                    assert(coords_int(nc@)[t] == nc@[t] as int);
                    assert(coords_int(c@)[t] == c@[t] as int);
                }
            }
            let j = index::<DIMS>(nc, size);
            proof {
                assert(j as int == neighbor_index(spec_c, d as int, size as int));
                assert forall|e: int| #![trigger position@[j as int]@[e]] 0 <= e < DIMS implies
                    fixed_fits(pv[j as int][e] - pv[i as int][e]) && fixed_fits(
                    fmul(pv[j as int][e] - pv[i as int][e], st)) && fixed_fits(
                    force_elem(pv, size as int, os, st, i as int, e, d as int, DIMS as nat)
                        + fmul(pv[j as int][e] - pv[i as int][e], st)) by {
                    assert(force_elem_fits(pv, size as int, os, st, i as int, e + 0,
                        d + 1 + 0, DIMS as nat));
                }
                assert forall|e: int| 0 <= e < DIMS implies i64::MIN
                    <= (#[trigger] position@[j as int]@[e]).as_int()
                        - position@[i as int]@[e].as_int() <= i64::MAX by {
                    assert(pv[j as int][e] == position@[j as int]@[e]@);
                    assert(pv[i as int][e] == position@[i as int]@[e]@);
                }
            }
            let diff = vec_at(position, j).sub(vec_at(position, i));
            proof {
                assert forall|e: int| 0 <= e < DIMS implies fixed_fits(
                    fmul((#[trigger] diff@[e])@, st)) by {
                    assert(pv[j as int][e] == position@[j as int]@[e]@);
                    assert(pv[i as int][e] == position@[i as int]@[e]@);
                }
            }
            let coupling = diff.scale(stiffness);
            proof {
                assert forall|e: int| 0 <= e < DIMS implies fixed_fits(
                    (#[trigger] acc@[e])@ + coupling@[e]@) by {
                    assert(pv[j as int][e] == position@[j as int]@[e]@);
                    assert(pv[i as int][e] == position@[i as int]@[e]@);
                }
            }
            acc = acc.add(coupling);
            proof {
                assert forall|e: int| 0 <= e < DIMS implies (#[trigger] acc@[e])@ == force_elem(
                    pv, size as int, os, st, i as int, e, d + 1, DIMS as nat) by {
                    assert(pv[j as int][e] == position@[j as int]@[e]@);
                    assert(pv[i as int][e] == position@[i as int]@[e]@);
                }
            }
        }
        d += 1;
    }
    acc
}

/// Reads one lattice point by value.
fn vec_at<const DIMS: usize>(items: &Vec<Vector<Fixed, DIMS>>, i: usize) -> (r: Vector<
    Fixed,
    DIMS,
>)
    requires
        i < items@.len(),
    ensures
        r == items@[i as int],
{
    items[i]
}

/// Advances the velocities of one lattice point by one timestep, using
/// the trapezoidal mean of the old and new accelerations.
pub fn velocity_point_step<const DIMS: usize>(
    v: Vector<Fixed, DIMS>,
    a1: Vector<Fixed, DIMS>,
    a2: Vector<Fixed, DIMS>,
    dt: Fixed,
) -> (r: Vector<Fixed, DIMS>)
    requires
        forall|e: int|
            0 <= e < DIMS ==> vel_elem_fits((#[trigger] v@[e])@, a1@[e]@, a2@[e]@, dt@),
    ensures
        r@.len() == DIMS,
        forall|e: int|
            0 <= e < DIMS ==> (#[trigger] r@[e])@ == vel_elem_step(v@[e]@, a1@[e]@, a2@[e]@, dt@),
{
    proof {
        assert forall|e: int| #![trigger a1@[e], a2@[e]] 0 <= e < DIMS implies i64::MIN
            <= a1@[e].as_int() + a2@[e].as_int() <= i64::MAX by {
            assert(vel_elem_fits(v@[e]@, a1@[e]@, a2@[e]@, dt@));
        }
    }
    let asum = a1.add(a2);
    proof {
        assert forall|e: int| 0 <= e < DIMS implies fixed_fits(fmul((#[trigger] asum@[e])@, dt@))
            by {
            assert(vel_elem_fits(v@[e]@, a1@[e]@, a2@[e]@, dt@));
        }
    }
    let half_term = asum.scale(dt).half();
    proof {
        assert forall|e: int| 0 <= e < DIMS implies fixed_fits(
            (#[trigger] v@[e])@ + half_term@[e]@) by {
            assert(vel_elem_fits(v@[e]@, a1@[e]@, a2@[e]@, dt@));
        }
    }
    v.add(half_term)
}

/// Relies on rayon's `par_iter_mut().enumerate().for_each(..)`: the
/// closure runs exactly once on each element of the slice, in place; it
/// only calls [`position_point_step`] on that element.
#[verifier::external_body]
fn par_update_positions<const DIMS: usize>(
    position: &mut Vec<Vector<Fixed, DIMS>>,
    velocity: &Vec<Vector<Fixed, DIMS>>,
    acceleration: &Vec<Vector<Fixed, DIMS>>,
    dt: Fixed,
)
    requires
        old(position)@.len() == velocity@.len(),
        old(position)@.len() == acceleration@.len(),
        forall|i: int, e: int|
            0 <= i < old(position)@.len() && 0 <= e < DIMS ==> pos_elem_fits(
                (#[trigger] old(position)@[i]@[e])@,
                velocity@[i]@[e]@,
                acceleration@[i]@[e]@,
                dt@,
            ),
    ensures
        final(position)@.len() == old(position)@.len(),
        forall|i: int, e: int|
            0 <= i < old(position)@.len() && 0 <= e < DIMS ==> (#[trigger] final(position)@[i]@[e])@ == pos_elem_step(
                old(position)@[i]@[e]@,
                velocity@[i]@[e]@,
                acceleration@[i]@[e]@,
                dt@,
            ),
{
    position.par_iter_mut().enumerate().for_each(|(i, p)| {
        *p = position_point_step(*p, velocity[i], acceleration[i], dt);
    });
}

/// Relies on rayon's `into_par_iter().map(..).collect()` over the index
/// range: one result per index, collected in index order; the closure
/// only calls [`force_point`] for that index.
#[verifier::external_body]
fn par_compute_forces<const DIMS: usize>(
    position: &Vec<Vector<Fixed, DIMS>>,
    size: usize,
    stiffness: Fixed,
    origin_stiffness: Fixed,
) -> (r: Vec<Vector<Fixed, DIMS>>)
    requires
        size >= 1,
        pow(size as int, DIMS as nat) <= usize::MAX,
        position@.len() == pow(size as int, DIMS as nat),
        forall|i: int, e: int|
            0 <= i < position@.len() && 0 <= e < DIMS ==> force_elem_fits(
                pts_view(position@),
                size as int,
                origin_stiffness@,
                stiffness@,
                #[trigger] (i + 0),
                #[trigger] (e + 0),
                DIMS as int,
                DIMS as nat,
            ),
    ensures
        r@.len() == position@.len(),
        forall|i: int, e: int|
            0 <= i < position@.len() && 0 <= e < DIMS ==> ((#[trigger] r@[i]@[e]))@ == force_elem(
                pts_view(position@),
                size as int,
                origin_stiffness@,
                stiffness@,
                i,
                e,
                DIMS as int,
                DIMS as nat,
            ),
{
    (0..position.len()).into_par_iter().map(|i| {
        force_point(position, size, stiffness, origin_stiffness, i)
    }).collect()
}

/// Relies on rayon's `par_iter_mut().enumerate().for_each(..)`: the
/// closure runs exactly once on each element of the slice, in place; it
/// only calls [`velocity_point_step`] on that element.
#[verifier::external_body]
fn par_update_velocities<const DIMS: usize>(
    velocity: &mut Vec<Vector<Fixed, DIMS>>,
    acceleration: &Vec<Vector<Fixed, DIMS>>,
    new_acceleration: &Vec<Vector<Fixed, DIMS>>,
    dt: Fixed,
)
    requires
        old(velocity)@.len() == acceleration@.len(),
        old(velocity)@.len() == new_acceleration@.len(),
        forall|i: int, e: int|
            0 <= i < old(velocity)@.len() && 0 <= e < DIMS ==> vel_elem_fits(
                (#[trigger] old(velocity)@[i]@[e])@,
                acceleration@[i]@[e]@,
                new_acceleration@[i]@[e]@,
                dt@,
            ),
    ensures
        final(velocity)@.len() == old(velocity)@.len(),
        forall|i: int, e: int|
            0 <= i < old(velocity)@.len() && 0 <= e < DIMS ==> (#[trigger] final(velocity)@[i]@[e])@ == vel_elem_step(
                old(velocity)@[i]@[e]@,
                acceleration@[i]@[e]@,
                new_acceleration@[i]@[e]@,
                dt@,
            ),
{
    velocity.par_iter_mut().enumerate().for_each(|(i, v)| {
        *v = velocity_point_step(*v, acceleration[i], new_acceleration[i], dt);
    });
}

/// The slot that follows `offset` in the ring of `DELAY_DEPTH + 1`
/// retained states.
pub open spec fn ring_next(offset: int) -> int {
    (offset + 1) % (DELAY_DEPTH + 1)
}

/// The simulation engine for the oscillator lattice: the last
/// `DELAY_DEPTH + 1` states and applied control signals, in a ring, with
/// the cursor of the current slot.
pub struct RustSimulator<const DIMS: usize> {
    /// The retained simulation states.
    simulation_states: Vec<SimulationState<Fixed, DIMS>>,
    /// The control signal that was applied entering each slot.
    control_states: Vec<ControlSignalState<Fixed, DIMS>>,
    /// The index of the current slot.
    offset: usize,
}

impl<const DIMS: usize> RustSimulator<DIMS> {
    /// The retained states, by slot.
    pub closed spec fn states(self) -> Seq<SimulationState<Fixed, DIMS>> {
        self.simulation_states@
    }

    /// The raw values of the control signal recorded for each slot.
    pub closed spec fn controls(self) -> Seq<Seq<int>> {
        self.control_states@.map_values(|c: ControlSignalState<Fixed, DIMS>| fx_view(c.0@))
    }

    /// The current slot.
    pub closed spec fn offset_spec(self) -> int {
        self.offset as int
    }

    /// The time of each slot, in raw values.
    pub open spec fn times(self) -> Seq<int> {
        self.states().map_values(|s: SimulationState<Fixed, DIMS>| s.time@)
    }

    /// Well-formed: a full ring of well-formed states of one common
    /// lattice size, one control record per slot, the cursor in range.
    pub open spec fn wf(self) -> bool {
        &&& self.states().len() == DELAY_DEPTH + 1
        &&& self.controls().len() == DELAY_DEPTH + 1
        &&& 0 <= self.offset_spec() < DELAY_DEPTH + 1
        &&& forall|k: int| 0 <= k < self.states().len() ==> (#[trigger] self.states()[k]).wf()
        &&& forall|k: int|
            0 <= k < self.states().len() ==> (#[trigger] self.states()[k]).size
                == self.states()[0].size
    }

    /// Builds an engine whose every slot holds the zeroed state of the
    /// given configuration, with a zero control signal recorded.
    pub fn new(config: SimulationConfig<Fixed, DIMS>) -> (r: Self)
        requires
            config.size >= 1,
            pow(config.size as int, DIMS as nat) <= usize::MAX,
            config.size * 4 <= usize::MAX,
        ensures
            r.wf(),
            r.offset_spec() == 0,
            forall|k: int|
                0 <= k < DELAY_DEPTH + 1 ==> {
                    &&& (#[trigger] r.states()[k]).size == config.size
                    &&& r.states()[k].stiffness == config.stiffness
                    &&& r.states()[k].origin_stiffness == config.origin_stiffness
                    &&& r.states()[k].time@ == 0
                    &&& r.states()[k].position@.len() == pow(config.size as int, DIMS as nat)
                },
            forall|k: int, i: int, e: int|
                0 <= k < DELAY_DEPTH + 1 && 0 <= i < pow(config.size as int, DIMS as nat) && 0 <= e
                    < DIMS ==> {
                    &&& ((#[trigger] r.states()[k].position@[i]@[e]))@ == 0
                    &&& r.states()[k].velocity@[i]@[e]@ == 0
                    &&& r.states()[k].acceleration@[i]@[e]@ == 0
                },
            forall|k: int|
                0 <= k < DELAY_DEPTH + 1 ==> (#[trigger] r.controls()[k]).len() == config.size * 4
                    - 4,
            forall|k: int, u: int|
                0 <= k < DELAY_DEPTH + 1 && 0 <= u < config.size * 4 - 4 ==> (#[trigger] r.controls()[k][u])
                    == 0,
    {
        let mut simulation_states: Vec<SimulationState<Fixed, DIMS>> = Vec::new();
        let mut control_states: Vec<ControlSignalState<Fixed, DIMS>> = Vec::new();
        let mut k: usize = 0;
        while k < DELAY_DEPTH + 1
            invariant
                k <= DELAY_DEPTH + 1,
                config.size >= 1,
                pow(config.size as int, DIMS as nat) <= usize::MAX,
                config.size * 4 <= usize::MAX,
                simulation_states@.len() == k,
                control_states@.len() == k,
                forall|t: int|
                    0 <= t < k ==> {
                        &&& (#[trigger] simulation_states@[t]).wf()
                        &&& simulation_states@[t].size == config.size
                        &&& simulation_states@[t].stiffness == config.stiffness
                        &&& simulation_states@[t].origin_stiffness == config.origin_stiffness
                        &&& simulation_states@[t].time@ == 0
                    },
                forall|t: int, i: int, e: int|
                    0 <= t < k && 0 <= i < pow(config.size as int, DIMS as nat) && 0 <= e < DIMS
                        ==> {
                        &&& ((#[trigger] simulation_states@[t].position@[i]@[e]))@ == 0
                        &&& simulation_states@[t].velocity@[i]@[e]@ == 0
                        &&& simulation_states@[t].acceleration@[i]@[e]@ == 0
                    },
                forall|t: int|
                    0 <= t < k ==> (#[trigger] control_states@[t].0@).len() == config.size * 4
                        - 4,
                forall|t: int, u: int|
                    0 <= t < k && 0 <= u < config.size * 4 - 4 ==> ((
                    #[trigger] control_states@[t].0@[u]))@ == 0,
            decreases DELAY_DEPTH + 1 - k,
        {
            simulation_states.push(SimulationState::new(config));
            control_states.push(ControlSignalState::default(config));
            k += 1;
        }
        let r = RustSimulator { simulation_states, control_states, offset: 0 };
        proof {
            assert(r.states() == simulation_states@);
            assert forall|t: int| 0 <= t < DELAY_DEPTH + 1 implies (#[trigger] r.controls()[t])
                == fx_view(control_states@[t].0@) by {
            }
            assert forall|t: int, u: int|
                0 <= t < DELAY_DEPTH + 1 && 0 <= u < config.size * 4 - 4 implies (
            #[trigger] r.controls()[t][u]) == 0 by {
                assert(r.controls()[t] == fx_view(control_states@[t].0@));
                assert((control_states@[t].0@[u])@ == 0);
            }
        }
        r
    }

    /// The time of the current slot.
    pub fn get_time(&self) -> (r: Fixed)
        requires
            self.wf(),
        ensures
            r@ == self.times()[self.offset_spec()],
    {
        self.simulation_states[self.offset].time
    }

    /// The retained state in slot `k`.
    pub fn state_at(&self, k: usize) -> (r: &SimulationState<Fixed, DIMS>)
        requires
            self.wf(),
            k < DELAY_DEPTH + 1,
        ensures
            *r == self.states()[k as int],
    {
        &self.simulation_states[k]
    }

    /// Replaces the retained state in slot `k`, keeping the ring
    /// well-formed: the new state must be well-formed and of the ring's
    /// lattice size.
    pub fn replace_state(&mut self, k: usize, state: SimulationState<Fixed, DIMS>)
        requires
            old(self).wf(),
            k < DELAY_DEPTH + 1,
            state.wf(),
            state.size == old(self).states()[0].size,
        ensures
            final(self).wf(),
            final(self).states() == old(self).states().update(k as int, state),
            final(self).controls() == old(self).controls(),
            final(self).offset_spec() == old(self).offset_spec(),
    {
        self.simulation_states.remove(k);
        self.simulation_states.insert(k, state);
        proof {
            assert(self.simulation_states@ =~= old(self).simulation_states@.update(
                k as int,
                state,
            ));
        }
    }

    /// The applied control signal recorded for slot `k`.
    pub fn controls_at(&self, k: usize) -> (r: &ControlSignalState<Fixed, DIMS>)
        requires
            self.wf(),
            k < DELAY_DEPTH + 1,
        ensures
            fx_view(r.0@) == self.controls()[k as int],
    {
        &self.control_states[k]
    }

    /// Advances the simulation by one timestep. The current slot's
    /// positions are stepped in place from its velocities and
    /// accelerations; the forces of the new positions are written into
    /// the next slot's accelerations; the current slot's velocities are
    /// closed with the trapezoidal mean of the two accelerations; the
    /// next slot receives the advanced time and the applied control
    /// signal, and becomes the current slot.
    pub fn update(&mut self, dt: Fixed, control_signal: &ControlSignalState<Fixed, DIMS>)
        requires
            old(self).wf(),
            step_fits(
                pts_view(old(self).states()[old(self).offset_spec()].position@),
                pts_view(old(self).states()[old(self).offset_spec()].velocity@),
                pts_view(old(self).states()[old(self).offset_spec()].acceleration@),
                old(self).states()[old(self).offset_spec()].size as int,
                old(self).states()[old(self).offset_spec()].stiffness@,
                old(self).states()[old(self).offset_spec()].origin_stiffness@,
                old(self).states()[old(self).offset_spec()].time@,
                dt@,
                DIMS as nat,
            ),
        ensures
            final(self).wf(),
            updated(*old(self), *final(self), dt@, fx_view(control_signal.0@)),
    {
        let ghost pre = *self;
        let cur = self.offset;
        let next = (self.offset + 1) % (DELAY_DEPTH + 1);
        proof {
            lemma_mod_bound(cur as int + 1, DELAY_DEPTH as int + 1);
        }
        let cur_state = self.simulation_states.remove(cur);
        let SimulationState {
            time,
            size,
            stiffness,
            origin_stiffness,
            mut position,
            mut velocity,
            acceleration,
        } = cur_state;
        let ghost pos0 = pts_view(position@);
        let ghost vel0 = pts_view(velocity@);
        let ghost acc0 = pts_view(acceleration@);
        let ghost pos2 = pos_step(pos0, vel0, acc0, dt@);
        let ghost acc2 = force_step(pos2, size as int, origin_stiffness@, stiffness@, DIMS as nat);
        proof {
            assert(cur_state == pre.states()[cur as int]);
            assert forall|i: int, e: int|
                0 <= i < position@.len() && 0 <= e < DIMS implies pos_elem_fits(
                ((#[trigger] position@[i]@[e]))@,
                velocity@[i]@[e]@,
                acceleration@[i]@[e]@,
                dt@,
            ) by {
                assert(pos0[i] == fx_view(position@[i]@));
                assert(vel0[i] == fx_view(velocity@[i]@));
                assert(acc0[i] == fx_view(acceleration@[i]@));
                assert(pos_elem_fits(pos0[i][e], vel0[i][e], acc0[i][e], dt@));
            }
        }
        par_update_positions(&mut position, &velocity, &acceleration, dt);
        proof {
            assert forall|i: int| 0 <= i < pos0.len() implies #[trigger] pts_view(position@)[i]
                =~= pos2[i] by {
                assert forall|e: int| 0 <= e < DIMS implies pts_view(position@)[i][e] == pos2[i][e]
                    by {
                    assert(pts_view(position@)[i] == fx_view(position@[i]@));
                    assert(pos0[i] == fx_view(pre.states()[cur as int].position@[i]@));
                    assert(position@[i]@[e]@ == pos_elem_step(pos0[i][e], vel0[i][e], acc0[i][e],
                        dt@));
                }
            }
            assert(pts_view(position@) =~= pos2);
            assert forall|i: int, e: int| 0 <= i < position@.len() && 0 <= e < DIMS implies
                force_elem_fits(pts_view(position@), size as int, origin_stiffness@, stiffness@,
                #[trigger] (i + 0), #[trigger] (e + 0), DIMS as int, DIMS as nat) by {
                assert(force_elem_fits(pos2, size as int, origin_stiffness@, stiffness@, i, e,
                    DIMS as int, DIMS as nat));
            }
        }
        let new_acceleration = par_compute_forces(&position, size, stiffness, origin_stiffness);
        proof {
            assert forall|i: int| 0 <= i < acc2.len() implies #[trigger] pts_view(
                new_acceleration@,
            )[i] =~= acc2[i] by {
                assert forall|e: int| 0 <= e < DIMS implies pts_view(new_acceleration@)[i][e]
                    == acc2[i][e] by {
                    assert(pts_view(new_acceleration@)[i] == fx_view(new_acceleration@[i]@));
                    assert(new_acceleration@[i]@[e]@ == force_elem(pts_view(position@),
                        size as int, origin_stiffness@, stiffness@, i, e, DIMS as int,
                        DIMS as nat));
                }
            }
            assert(pts_view(new_acceleration@) =~= acc2);
            assert forall|i: int, e: int| 0 <= i < velocity@.len() && 0 <= e < DIMS implies
                vel_elem_fits(((#[trigger] velocity@[i]@[e]))@, acceleration@[i]@[e]@,
                new_acceleration@[i]@[e]@, dt@) by {
                assert(vel_elem_fits(vel0[i][e], acc0[i][e], acc2[i][e], dt@));
                assert(pts_view(new_acceleration@)[i][e] == new_acceleration@[i]@[e]@);
            }
        }
        par_update_velocities(&mut velocity, &acceleration, &new_acceleration, dt);
        proof {
            assert forall|i: int| 0 <= i < vel0.len() implies #[trigger] pts_view(velocity@)[i]
                =~= vel_step(vel0, acc0, acc2, dt@)[i] by {
                assert forall|e: int| 0 <= e < DIMS implies pts_view(velocity@)[i][e] == vel_step(
                    vel0,
                    acc0,
                    acc2,
                    dt@,
                )[i][e] by {
                    assert(pts_view(velocity@)[i] == fx_view(velocity@[i]@));
                    assert(velocity@[i]@[e]@ == vel_elem_step(vel0[i][e], acc0[i][e], acc2[i][e],
                        dt@));
                }
            }
            assert(pts_view(velocity@) =~= vel_step(vel0, acc0, acc2, dt@));
        }
        let new_time = time.add(dt);
        let rebuilt = SimulationState { time, size, stiffness, origin_stiffness, position, velocity, acceleration };
        self.simulation_states.insert(cur, rebuilt);
        proof {
            assert(self.simulation_states@ =~= pre.simulation_states@.update(cur as int, rebuilt));
        }
        let ghost mid = self.simulation_states@;
        let mut next_state = self.simulation_states.remove(next);
        next_state.acceleration = new_acceleration;
        next_state.time = new_time;
        self.simulation_states.insert(next, next_state);
        proof {
            assert(self.simulation_states@ =~= mid.update(next as int, next_state));
        }
        let ghost ctrl0 = self.control_states@;
        let fresh_signal = copy_signal(control_signal);
        self.control_states.remove(next);
        self.control_states.insert(next, fresh_signal);
        proof {
            assert(self.control_states@ =~= ctrl0.update(next as int, fresh_signal));
        }
        self.offset = next;
        proof {
            assert(self.controls() =~= pre.controls().update(
                next as int,
                fx_view(control_signal.0@),
            ));
            assert(self.times() =~= pre.times().update(next as int, pre.times()[cur as int] + dt@));
            assert forall|k: int| 0 <= k < self.states().len() implies (
            #[trigger] self.states()[k]).wf() && self.states()[k].size == self.states()[0].size by {
                assert(pre.states()[k].wf());
            }
        }
    }

    /// Derives the retained observations, oldest to newest, excluding
    /// the current slot: the boundary projection of each retained state,
    /// paired with the control signal recorded for that slot.
    pub fn get_observations(&self) -> (r: Vec<Observation<Fixed, DIMS>>)
        requires
            self.wf(),
        ensures
            r@.len() == DELAY_DEPTH,
            forall|k: int|
                0 <= k < DELAY_DEPTH ==> {
                    let s = self.states()[(self.offset_spec() + 1 + k) % (DELAY_DEPTH + 1)];
                    &&& (#[trigger] r@[k]).time == s.time
                    &&& r@[k].state.position@ == boundary_seq(
                        s.position@,
                        s.size as int,
                        DIMS as nat,
                        s.position@.len() as int,
                    )
                    &&& r@[k].state.velocity@ == boundary_seq(
                        s.velocity@,
                        s.size as int,
                        DIMS as nat,
                        s.velocity@.len() as int,
                    )
                    &&& fx_view(r@[k].controls.0@) == self.controls()[(self.offset_spec() + 1 + k)
                        % (DELAY_DEPTH + 1)]
                },
    {
        let mut out: Vec<Observation<Fixed, DIMS>> = Vec::new();
        let mut k: usize = 0;
        while k < DELAY_DEPTH
            invariant
                k <= DELAY_DEPTH,
                self.wf(),
                out@.len() == k,
                forall|t: int|
                    0 <= t < k ==> {
                        let s = self.states()[(self.offset_spec() + 1 + t) % (DELAY_DEPTH + 1)];
                        &&& (#[trigger] out@[t]).time == s.time
                        &&& out@[t].state.position@ == boundary_seq(
                            s.position@,
                            s.size as int,
                            DIMS as nat,
                            s.position@.len() as int,
                        )
                        &&& out@[t].state.velocity@ == boundary_seq(
                            s.velocity@,
                            s.size as int,
                            DIMS as nat,
                            s.velocity@.len() as int,
                        )
                        &&& fx_view(out@[t].controls.0@) == self.controls()[(self.offset_spec() + 1
                            + t) % (DELAY_DEPTH + 1)]
                    },
            decreases DELAY_DEPTH - k,
        {
            let slot = (self.offset + 1 + k) % (DELAY_DEPTH + 1);
            proof {
                lemma_mod_bound(self.offset_spec() + 1 + k, DELAY_DEPTH as int + 1);
            }
            let st = &self.simulation_states[slot];
            let obs = Observation {
                time: st.time,
                state: ObservableState {
                    position: boundary_points(&st.position, st.size),
                    velocity: boundary_points(&st.velocity, st.size),
                },
                controls: copy_signal(&self.control_states[slot]),
            };
            out.push(obs);
            k += 1;
        }
        out
    }
}

/// How one update transforms the engine: the relation between the ring
/// before and after one step with timestep `dt` and applied signal `sig`,
/// all in raw fixed-point values.
pub open spec fn updated<const DIMS: usize>(
    pre: RustSimulator<DIMS>,
    post: RustSimulator<DIMS>,
    dt: int,
    sig: Seq<int>,
) -> bool {
    let cur = pre.offset_spec();
    let nxt = ring_next(cur);
    let s = pre.states()[cur];
    let s2 = post.states()[cur];
    let n = pre.states()[nxt];
    let n2 = post.states()[nxt];
    let pos2 = pos_step(
        pts_view(s.position@),
        pts_view(s.velocity@),
        pts_view(s.acceleration@),
        dt,
    );
    let acc2 = force_step(pos2, s.size as int, s.origin_stiffness@, s.stiffness@, DIMS as nat);
    &&& post.offset_spec() == nxt
    &&& post.states().len() == pre.states().len()
    &&& forall|k: int|
        0 <= k < pre.states().len() && k != cur && k != nxt ==> post.states()[k]
            == pre.states()[k]
    &&& s2.time == s.time
    &&& s2.size == s.size
    &&& s2.stiffness == s.stiffness
    &&& s2.origin_stiffness == s.origin_stiffness
    &&& pts_view(s2.position@) == pos2
    &&& pts_view(s2.velocity@) == vel_step(
        pts_view(s.velocity@),
        pts_view(s.acceleration@),
        acc2,
        dt,
    )
    &&& s2.acceleration == s.acceleration
    &&& n2.time@ == s.time@ + dt
    &&& n2.size == n.size
    &&& n2.stiffness == n.stiffness
    &&& n2.origin_stiffness == n.origin_stiffness
    &&& n2.position == n.position
    &&& n2.velocity == n.velocity
    &&& pts_view(n2.acceleration@) == acc2
    &&& post.controls() == pre.controls().update(nxt, sig)
    &&& post.times() == pre.times().update(nxt, pre.times()[cur] + dt)
}


/// The largest raw scalar magnitude [`RustSimulator::update_checked`]
/// accepts in a state it steps.
pub const STEP_MAGNITUDE_LIMIT: i64 = 0x8000_0000;

/// The largest lattice dimensionality [`RustSimulator::update_checked`]
/// accepts.
pub const STEP_DIMS_LIMIT: usize = 0x10_0000;

/// Scaling by a factor of magnitude at most one cannot grow a value.
proof fn lemma_fmul_bounded(a: int, b: int, ba: int)
    requires
        abs(a) <= ba,
        abs(b) <= SCALE,
    ensures
        abs(fmul(a, b)) <= ba,
{
    let n = a * b;
    assert(-(ba * SCALE) <= a * b <= ba * SCALE) by (nonlinear_arith)
        requires -ba <= a <= ba, -(SCALE as int) <= b <= SCALE;
    lemma_div_is_ordered(abs(n) as int, ba * SCALE, SCALE as int);
    lemma_div_multiples_vanish(ba, SCALE as int);
    assert(ba * SCALE == SCALE as int * ba) by (nonlinear_arith);
    lemma_div_pos_is_pos(abs(n) as int, SCALE as int);
}

/// Halving cannot grow a value.
proof fn lemma_fhalf_bounded(a: int, ba: int)
    requires
        abs(a) <= ba,
    ensures
        abs(fhalf(a)) <= ba,
{
    lemma_div_is_ordered(abs(a) as int, ba, 2);
    lemma_div_pos_is_pos(abs(a) as int, 2);
    lemma_fundamental_div_mod(ba, 2);
    lemma_mod_bound(ba, 2);
}

/// One position step on budgeted inputs fits and stays within three
/// budget units.
proof fn lemma_pos_elem_bounded(p: int, v: int, a: int, dt: int, b: int)
    requires
        abs(p) <= b,
        abs(v) <= b,
        abs(a) <= b,
        abs(dt) <= SCALE,
        3 * b <= i64::MAX,
    ensures
        pos_elem_fits(p, v, a, dt),
        abs(pos_elem_step(p, v, a, dt)) <= 3 * b,
{
    lemma_fmul_bounded(v, dt, b);
    lemma_fmul_bounded(a, dt, b);
    lemma_fmul_bounded(fmul(a, dt), dt, b);
    lemma_fhalf_bounded(fmul(fmul(a, dt), dt), b);
}

/// The force on a point whose positions stay within a budget fits, and
/// grows by at most two budget units per coupled axis.
proof fn lemma_force_elem_bounded(
    pos: Seq<Seq<int>>,
    size: int,
    os: int,
    st: int,
    i: int,
    e: int,
    d: int,
    dims: nat,
    b: int,
)
    requires
        size >= 1,
        pos.len() == pow(size, dims),
        forall|x: int, y: int|
            0 <= x < pos.len() && 0 <= y < dims ==> abs(#[trigger] pos[x][y]) <= b,
        abs(os) <= SCALE,
        abs(st) <= SCALE,
        0 <= i < pos.len(),
        0 <= e < dims,
        0 <= d <= dims,
        b >= 0,
        b * (1 + 2 * dims) <= i64::MAX,
    ensures
        force_elem_fits(pos, size, os, st, i, e, d, dims),
        abs(force_elem(pos, size, os, st, i, e, d, dims)) <= b * (1 + 2 * d),
    decreases d,
{
    assert(b * (1 + 2 * d) <= b * (1 + 2 * dims)) by (nonlinear_arith)
        requires b >= 0, 0 <= d <= dims;
    if d <= 0 {
        lemma_fmul_bounded(-pos[i][e], os, b);
        assert(b * (1 + 2 * 0) == b) by (nonlinear_arith);
    } else {
        lemma_force_elem_bounded(pos, size, os, st, i, e, d - 1, dims, b);
        let c = deindex_spec(i, size, dims);
        if c[d - 1] > 0 {
            assert forall|t: int| 0 <= t < dims implies 0 <= #[trigger] c[t] < size by {
                lemma_mod_bound(i / pow(size, (dims - 1 - t) as nat), size);
            }
            let moved = c.update(d - 1, c[d - 1] - 1);
            assert forall|t: int| 0 <= t < moved.len() implies 0 <= #[trigger] moved[t]
                < size by {
            }
            lemma_flat_index_bounds(moved, size);
            let j = neighbor_index(c, d - 1, size);
            assert(0 <= j < pos.len());
            lemma_fmul_bounded(pos[j][e] - pos[i][e], st, 2 * b);
            assert(b * (1 + 2 * (d - 1)) + 2 * b == b * (1 + 2 * d)) by (nonlinear_arith);
        } else {
            assert(b * (1 + 2 * (d - 1)) <= b * (1 + 2 * d)) by (nonlinear_arith)
                requires b >= 0, d >= 1;
        }
    }
}

/// A state within the magnitude budget can always take one step: every
/// intermediate value of the step is representable.
proof fn lemma_budget_step_fits(
    pos: Seq<Seq<int>>,
    vel: Seq<Seq<int>>,
    acc: Seq<Seq<int>>,
    size: int,
    st: int,
    os: int,
    time: int,
    dt: int,
    dims: nat,
)
    requires
        size >= 1,
        pos.len() == pow(size, dims),
        vel.len() == pos.len(),
        acc.len() == pos.len(),
        forall|i: int| 0 <= i < pos.len() ==> (#[trigger] pos[i]).len() == dims,
        forall|i: int, e: int|
            0 <= i < pos.len() && 0 <= e < dims ==> abs(#[trigger] pos[i][e])
                <= STEP_MAGNITUDE_LIMIT,
        forall|i: int, e: int|
            0 <= i < vel.len() && 0 <= e < dims ==> abs(#[trigger] vel[i][e])
                <= STEP_MAGNITUDE_LIMIT,
        forall|i: int, e: int|
            0 <= i < acc.len() && 0 <= e < dims ==> abs(#[trigger] acc[i][e])
                <= STEP_MAGNITUDE_LIMIT,
        abs(st) <= SCALE,
        abs(os) <= SCALE,
        abs(dt) <= SCALE,
        fixed_fits(time + dt),
        dims <= STEP_DIMS_LIMIT,
    ensures
        step_fits(pos, vel, acc, size, st, os, time, dt, dims),
{
    let b = STEP_MAGNITUDE_LIMIT as int;
    let pos2 = pos_step(pos, vel, acc, dt);
    let acc2 = force_step(pos2, size, os, st, dims);
    assert(3 * b <= i64::MAX);
    assert forall|i: int, e: int| 0 <= i < pos.len() && 0 <= e < dims implies pos_elem_fits(
        #[trigger] pos[i][e],
        vel[i][e],
        acc[i][e],
        dt,
    ) by {
        lemma_pos_elem_bounded(pos[i][e], vel[i][e], acc[i][e], dt, b);
    }
    assert forall|i: int, e: int| 0 <= i < pos2.len() && 0 <= e < dims implies abs(
        #[trigger] pos2[i][e],
    ) <= 3 * b by {
        lemma_pos_elem_bounded(pos[i][e], vel[i][e], acc[i][e], dt, b);
    }
    assert((3 * b) * (1 + 2 * dims) <= i64::MAX) by (nonlinear_arith)
        requires b == 0x8000_0000, dims <= 0x10_0000;
    assert forall|i: int, e: int| 0 <= i < pos.len() && 0 <= e < dims implies force_elem_fits(
        pos2,
        size,
        os,
        st,
        i,
        e,
        dims as int,
        dims,
    ) by {
        lemma_force_elem_bounded(pos2, size, os, st, i, e, dims as int, dims, 3 * b);
    }
    assert forall|i: int, e: int| 0 <= i < pos.len() && 0 <= e < dims implies vel_elem_fits(
        #[trigger] vel[i][e],
        acc[i][e],
        acc2[i][e],
        dt,
    ) by {
        lemma_force_elem_bounded(pos2, size, os, st, i, e, dims as int, dims, 3 * b);
        let big = (3 * b) * (1 + 2 * dims);
        assert(abs(acc2[i][e]) <= big) by {
            assert((3 * b) * (1 + 2 * (dims as int)) == big);
        }
        assert(b + big <= i64::MAX) by (nonlinear_arith)
            requires b == 0x8000_0000, dims <= 0x10_0000, big == (3 * b) * (1 + 2 * dims);
        lemma_fmul_bounded(acc[i][e] + acc2[i][e], dt, b + big);
        lemma_fhalf_bounded(fmul(acc[i][e] + acc2[i][e], dt), b + big);
        assert(b + (b + big) <= i64::MAX) by (nonlinear_arith)
            requires b == 0x8000_0000, dims <= 0x10_0000, big == (3 * b) * (1 + 2 * dims);
    }
}

/// Whether one step from state `s` with timestep `dt` lies within the
/// magnitude budget that [`RustSimulator::update_checked`] enforces:
/// couplings and timestep of magnitude at most one unit, a time with one
/// unit of headroom, every stored scalar within
/// [`STEP_MAGNITUDE_LIMIT`], and a dimensionality within
/// [`STEP_DIMS_LIMIT`].
pub open spec fn within_step_budget<const DIMS: usize>(
    s: SimulationState<Fixed, DIMS>,
    dt: int,
) -> bool {
    &&& DIMS <= STEP_DIMS_LIMIT
    &&& -(SCALE as int) <= dt <= SCALE
    &&& -(SCALE as int) <= s.stiffness@ <= SCALE
    &&& -(SCALE as int) <= s.origin_stiffness@ <= SCALE
    &&& i64::MIN + SCALE <= s.time@ <= i64::MAX - SCALE
    &&& forall|i: int, e: int|
        0 <= i < s.position@.len() && 0 <= e < DIMS ==> -STEP_MAGNITUDE_LIMIT <= ((
        #[trigger] s.position@[i]@[e]))@ <= STEP_MAGNITUDE_LIMIT
    &&& forall|i: int, e: int|
        0 <= i < s.velocity@.len() && 0 <= e < DIMS ==> -STEP_MAGNITUDE_LIMIT <= ((
        #[trigger] s.velocity@[i]@[e]))@ <= STEP_MAGNITUDE_LIMIT
    &&& forall|i: int, e: int|
        0 <= i < s.acceleration@.len() && 0 <= e < DIMS ==> -STEP_MAGNITUDE_LIMIT <= ((
        #[trigger] s.acceleration@[i]@[e]))@ <= STEP_MAGNITUDE_LIMIT
}

impl<const DIMS: usize> RustSimulator<DIMS> {
    /// Advances the simulation by one timestep after checking, in
    /// executable code, that the current state, the timestep and the
    /// couplings all lie within the magnitude budget under which one step
    /// cannot leave the fixed-point range. The step is taken exactly when
    /// the budget holds; a state outside it leaves the engine unchanged.
    pub fn update_checked(&mut self, dt: Fixed, control_signal: &ControlSignalState<Fixed, DIMS>) -> (advanced:
        bool)
        requires
            old(self).wf(),
        ensures
            final(self).wf(),
            advanced == within_step_budget(
                old(self).states()[old(self).offset_spec()],
                dt@,
            ),
            advanced ==> updated(*old(self), *final(self), dt@, fx_view(control_signal.0@)),
            !advanced ==> *final(self) == *old(self),
    {
        if DIMS > STEP_DIMS_LIMIT {
            return false;
        }
        let dt_raw = dt.raw();
        if dt_raw > SCALE || dt_raw < -SCALE {
            return false;
        }
        let current = &self.simulation_states[self.offset];
        let st_raw = current.stiffness.raw();
        let os_raw = current.origin_stiffness.raw();
        let time_raw = current.time.raw();
        if st_raw > SCALE || st_raw < -SCALE || os_raw > SCALE || os_raw < -SCALE {
            return false;
        }
        if time_raw > i64::MAX - SCALE || time_raw < i64::MIN + SCALE {
            return false;
        }
        let within = points_within(&current.position, STEP_MAGNITUDE_LIMIT) && points_within(
            &current.velocity,
            STEP_MAGNITUDE_LIMIT,
        ) && points_within(&current.acceleration, STEP_MAGNITUDE_LIMIT);
        if !within {
            return false;
        }
        proof {
            let s = self.states()[self.offset_spec()];
            let pos = pts_view(s.position@);
            let vel = pts_view(s.velocity@);
            let acc = pts_view(s.acceleration@);
            assert forall|i: int, e: int| 0 <= i < pos.len() && 0 <= e < DIMS implies abs(
                #[trigger] pos[i][e],
            ) <= STEP_MAGNITUDE_LIMIT && abs(vel[i][e]) <= STEP_MAGNITUDE_LIMIT && abs(
                acc[i][e],
            ) <= STEP_MAGNITUDE_LIMIT by {
                assert(pos[i] == fx_view(s.position@[i]@));
                assert(vel[i] == fx_view(s.velocity@[i]@));
                assert(acc[i] == fx_view(s.acceleration@[i]@));
                assert(-STEP_MAGNITUDE_LIMIT <= s.position@[i]@[e]@ <= STEP_MAGNITUDE_LIMIT);
                assert(-STEP_MAGNITUDE_LIMIT <= s.velocity@[i]@[e]@ <= STEP_MAGNITUDE_LIMIT);
                assert(-STEP_MAGNITUDE_LIMIT <= s.acceleration@[i]@[e]@ <= STEP_MAGNITUDE_LIMIT);
            }
            assert forall|i: int| 0 <= i < pos.len() implies (#[trigger] pos[i]).len()
                == DIMS by {
                assert(pos[i] == fx_view(s.position@[i]@));
            }
            lemma_budget_step_fits(
                pos,
                vel,
                acc,
                s.size as int,
                s.stiffness@,
                s.origin_stiffness@,
                s.time@,
                dt@,
                DIMS as nat,
            );
        }
        self.update(dt, control_signal);
        true
    }
}

/// Whether every component of every point lies within `limit` in
/// magnitude.
fn points_within<const DIMS: usize>(items: &Vec<Vector<Fixed, DIMS>>, limit: i64) -> (r: bool)
    requires
        limit >= 0,
    ensures
        r == forall|i: int, e: int|
            0 <= i < items@.len() && 0 <= e < DIMS ==> -limit <= (#[trigger] items@[i]@[e])@
                <= limit,
{
    let n = items.len();
    let mut i: usize = 0;
    while i < n
        invariant
            i <= n,
            n == items@.len(),
            limit >= 0,
            forall|t: int, e: int|
                0 <= t < i && 0 <= e < DIMS ==> -limit <= (#[trigger] items@[t]@[e])@ <= limit,
        decreases n - i,
    {
        let mut e: usize = 0;
        while e < DIMS
            invariant
                e <= DIMS,
                i < n,
                n == items@.len(),
                limit >= 0,
                forall|u: int| 0 <= u < e ==> -limit <= (#[trigger] items@[i as int]@[u])@ <= limit,
            decreases DIMS - e,
        {
            let x = items[i].get(e).raw();
            if x > limit || x < -limit {
                return false;
            }
            e += 1;
        }
        i += 1;
    }
    true
}

/// Law: across any chain of updates with one timestep, the current
/// slot's time advances by exactly `dt` per committed update: after `n`
/// updates the clock reads the starting time plus `n·dt`, however long
/// each control computation took meanwhile.
pub proof fn lemma_clock_across_updates<const DIMS: usize>(
    runs: Seq<RustSimulator<DIMS>>,
    dt: int,
    sigs: Seq<Seq<int>>,
)
    requires
        runs.len() >= 1,
        forall|k: int| 0 <= k < runs.len() ==> (#[trigger] runs[k]).wf(),
        sigs.len() == runs.len() - 1,
        forall|k: int|
            0 <= k < runs.len() - 1 ==> updated(#[trigger] runs[k], runs[k + 1], dt, sigs[k]),
    ensures
        runs.last().times()[runs.last().offset_spec()] == runs[0].times()[runs[0].offset_spec()]
            + (runs.len() - 1) * dt,
    decreases runs.len(),
{
    if runs.len() == 1 {
        assert((runs.len() - 1) * dt == 0) by (nonlinear_arith)
            requires runs.len() == 1;
    } else {
        let front = runs.drop_last();
        assert forall|k: int| 0 <= k < front.len() - 1 implies updated(
            #[trigger] front[k],
            front[k + 1],
            dt,
            sigs.drop_last()[k],
        ) by {
            assert(front[k] == runs[k] && front[k + 1] == runs[k + 1]);
            assert(updated(runs[k], runs[k + 1], dt, sigs[k]));
        }
        lemma_clock_across_updates(front, dt, sigs.drop_last());
        let n = runs.len();
        let pre = runs[n - 2];
        let post = runs[n - 1];
        assert(updated(pre, post, dt, sigs[n - 2]));
        lemma_mod_bound(pre.offset_spec() + 1, DELAY_DEPTH as int + 1);
        assert(post.times()[post.offset_spec()] == pre.times()[pre.offset_spec()] + dt);
        assert((n - 2) * dt + dt == (n - 1) * dt) by (nonlinear_arith)
            requires n >= 2;
        assert(front.last() == pre && front[0] == runs[0]);
    }
}

/// Copies a control signal value for value.
fn copy_signal<const DIMS: usize>(signal: &ControlSignalState<Fixed, DIMS>) -> (r:
    ControlSignalState<Fixed, DIMS>)
    ensures
        r.0@ == signal.0@,
{
    let mut data: Vec<Fixed> = Vec::new();
    let mut i: usize = 0;
    let n = signal.0.len();
    while i < n
        invariant
            i <= n,
            n == signal.0@.len(),
            data@ == signal.0@.take(i as int),
        decreases n - i,
    {
        data.push(signal.0[i]);
        proof {
            assert(signal.0@.take(i + 1) =~= signal.0@.take(i as int).push(signal.0@[i as int]));
        }
        i += 1;
    }
    proof {
        assert(signal.0@.take(n as int) =~= signal.0@);
    }
    ControlSignalState::new(data)
}

} // verus!
