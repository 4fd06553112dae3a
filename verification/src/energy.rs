//! The energy components of the system.
//!
//! An energy component is anything that can compute the energy of a given
//! site for a given state: a constant gauge, a uniaxial anisotropy, the
//! Zeeman coupling to the thermostat's field, and the pairwise exchange over
//! a sparse coupling structure. A compound component sums two others, so
//! arbitrary Hamiltonians form binary trees.

use vstd::prelude::*;
use core::marker::PhantomData;
use crate::fixed::{Fixed, SCALE, abs_int, div_floor64, div_floor128,
    lemma_div_in_range};
use crate::geometry::{edge_endpoints, lattice_edges, lattice_sites, site_count};
use crate::state::{all_inv, Spin, State, MAX_SPINS};
use crate::thermostat::{Thermostat, MAX_FIELD};

verus! {

/// The largest admissible per-site energy, in fixed-point units. Every
/// energy component's per-site contribution stays within this bound, so
/// energy differences and per-site sums never overflow.
pub const MAX_SITE_ENERGY: i64 = 0x200_0000;

/// An energy component: computes the energy of a given site, and the total
/// energy of a state.
pub trait Hamiltonian<S: Spin>: Sized {
    /// Whether the component is internally consistent.
    spec fn wf(&self) -> bool;

    /// A bound on the absolute per-site energy the component can produce.
    spec fn site_bound(&self) -> int;

    /// Whether the component can evaluate states of the given length.
    spec fn fits(&self, n: int) -> bool;

    /// The energy of site `i`, in fixed-point units: exactly the portion of
    /// the total energy that depends on the spin at `i`.
    spec fn energy_spec(&self, t: &Thermostat<S>, s: Seq<S>, i: int) -> int;

    /// The total energy of a state, in fixed-point units.
    spec fn total_spec(&self, t: &Thermostat<S>, s: Seq<S>) -> int;

    /// The per-site energy stays within the component's bound, which stays
    /// within the global cap.
    proof fn lemma_energy_bounds(&self, t: &Thermostat<S>, s: Seq<S>, i: int)
        requires
            self.wf(),
            t.wf(),
            self.fits(s.len() as int),
            all_inv(s),
            0 <= i < s.len(),
        ensures
            0 <= self.site_bound() <= MAX_SITE_ENERGY,
            -self.site_bound() <= self.energy_spec(t, s, i) <= self.site_bound(),
    ;

    /// The total energy stays within one site bound per site.
    proof fn lemma_total_bounds(&self, t: &Thermostat<S>, s: Seq<S>)
        requires
            self.wf(),
            t.wf(),
            self.fits(s.len() as int),
            all_inv(s),
        ensures
            0 <= self.site_bound() <= MAX_SITE_ENERGY,
            -(s.len() as int) * self.site_bound() <= self.total_spec(t, s)
                <= (s.len() as int) * self.site_bound(),
    ;

    /// The energy of a given site for a state.
    fn energy(&self, t: &Thermostat<S>, state: &State<S>, index: usize) -> (r: Fixed)
        requires
            self.wf(),
            t.wf(),
            state.wf(),
            self.fits(state.0@.len() as int),
            index < state.0@.len(),
        ensures
            r.units == self.energy_spec(t, state.0@, index as int),
    ;

    /// The total energy of a state.
    fn total_energy(&self, t: &Thermostat<S>, state: &State<S>) -> (r: Fixed)
        requires
            self.wf(),
            t.wf(),
            state.wf(),
            self.fits(state.0@.len() as int),
            state.0@.len() <= MAX_SPINS,
        ensures
            r.units == self.total_spec(t, state.0@),
    ;
}

/// The sum of the per-site energies of the first `n` sites of a component.
pub open spec fn sum_energy<S: Spin, H: Hamiltonian<S>>(
    h: &H, t: &Thermostat<S>, s: Seq<S>, n: int,
) -> int
    decreases n,
{
    if n <= 0 {
        0
    } else {
        sum_energy(h, t, s, n - 1) + h.energy_spec(t, s, n - 1)
    }
}

/// Some constant energy that does not depend on the state.
#[derive(Clone, Copy, Debug)]
pub struct Gauge {
    pub value: Fixed,
}

impl Gauge {
    /// A new gauge energy.
    pub fn new(val: Fixed) -> (r: Self)
        requires
            -MAX_SITE_ENERGY <= val.units <= MAX_SITE_ENERGY,
        ensures
            r.value == val,
    {
        Self { value: val }
    }
}

impl<S: Spin> Hamiltonian<S> for Gauge {
    open spec fn wf(&self) -> bool {
        -MAX_SITE_ENERGY <= self.value.units <= MAX_SITE_ENERGY
    }

    open spec fn site_bound(&self) -> int {
        abs_int(self.value.units as int)
    }

    open spec fn fits(&self, n: int) -> bool {
        true
    }

    open spec fn energy_spec(&self, t: &Thermostat<S>, s: Seq<S>, i: int) -> int {
        self.value.units as int
    }

    open spec fn total_spec(&self, t: &Thermostat<S>, s: Seq<S>) -> int {
        (s.len() as int) * (self.value.units as int)
    }

    proof fn lemma_energy_bounds(&self, t: &Thermostat<S>, s: Seq<S>, i: int) {
    }

    proof fn lemma_total_bounds(&self, t: &Thermostat<S>, s: Seq<S>) {
        let n = s.len() as int;
        let c = self.value.units as int;
        assert(-n * abs_int(c) <= n * c <= n * abs_int(c)) by (nonlinear_arith)
            requires n >= 0,
        ;
    }

    fn energy(&self, t: &Thermostat<S>, state: &State<S>, index: usize) -> Fixed {
        self.value
    }

    /// The total of a constant per-site energy is the site count times the
    /// constant.
    fn total_energy(&self, t: &Thermostat<S>, state: &State<S>) -> Fixed {
        let n = state.len();
        proof {
            assert(-(MAX_SPINS as int) * (MAX_SITE_ENERGY as int)
                <= (n as int) * (self.value.units as int)
                <= (MAX_SPINS as int) * (MAX_SITE_ENERGY as int)
                && (MAX_SPINS as int) * (MAX_SITE_ENERGY as int) < i64::MAX)
                by (nonlinear_arith)
                requires
                    0 <= n as int <= MAX_SPINS as int,
                    -MAX_SITE_ENERGY <= self.value.units <= MAX_SITE_ENERGY,
            ;
        }
        let total: i128 = (n as i128) * (self.value.units as i128);
        Fixed { units: total as i64 }
    }
}

/// The number of sites times a per-site cap never reaches the integer limit.
proof fn lemma_site_cap_headroom(i: int, b: int)
    requires
        0 <= i <= MAX_SPINS as int,
        0 <= b <= MAX_SITE_ENERGY as int,
    ensures
        0 <= i * b <= (MAX_SPINS as int) * (MAX_SITE_ENERGY as int),
        i * b + b == (i + 1) * b,
        (-i) * b == -(i * b),
        (-i) * b - b == (-(i + 1)) * b,
        (-(i + 1)) * b == -((i + 1) * b),
        0 <= (i + 1) * b
            <= ((MAX_SPINS as int) + 1) * (MAX_SITE_ENERGY as int),
        ((MAX_SPINS as int) + 1) * (MAX_SITE_ENERGY as int) < i64::MAX,
{
    assert(0 <= i * b <= (MAX_SPINS as int) * (MAX_SITE_ENERGY as int)
        && i * b + b == (i + 1) * b
        && (-i) * b == -(i * b)
        && (-i) * b - b == (-(i + 1)) * b
        && (-(i + 1)) * b == -((i + 1) * b)
        && 0 <= (i + 1) * b
            <= ((MAX_SPINS as int) + 1) * (MAX_SITE_ENERGY as int)
        && ((MAX_SPINS as int) + 1) * (MAX_SITE_ENERGY as int) < i64::MAX)
        by (nonlinear_arith)
        requires
            0 <= i <= MAX_SPINS as int,
            0 <= b <= MAX_SITE_ENERGY as int,
    ;
}

/// The anisotropy energy of one spin: the strength scaled by the squared
/// projection onto the reference spin.
pub open spec fn aniso_term<S: Spin>(k: int, refer: S, s: Seq<S>, i: int) -> int {
    let d = s[i].dot_spec(&refer);
    k * d * d / ((SCALE as int) * (SCALE as int))
}

/// The anisotropy energy of the first `n` spins.
pub open spec fn sum_aniso<S: Spin>(k: int, refer: S, s: Seq<S>, n: int) -> int
    decreases n,
{
    if n <= 0 {
        0
    } else {
        sum_aniso(k, refer, s, n - 1) + aniso_term(k, refer, s, n - 1)
    }
}

/// A squared projection scaled by a strength stays within the strength.
proof fn lemma_aniso_term_bound(k: int, d: int)
    requires
        -(SCALE as int) <= d <= SCALE,
        -(MAX_SITE_ENERGY as int) <= k <= MAX_SITE_ENERGY as int,
    ensures
        -abs_int(k) <= k * d * d / ((SCALE as int) * (SCALE as int)) <= abs_int(k),
        -((MAX_SITE_ENERGY as int) * (SCALE as int)) <= k * d
            <= (MAX_SITE_ENERGY as int) * (SCALE as int),
        -((MAX_SITE_ENERGY as int) * (SCALE as int) * (SCALE as int))
            <= k * d * d
            <= (MAX_SITE_ENERGY as int) * (SCALE as int) * (SCALE as int),
{
    assert(-((MAX_SITE_ENERGY as int) * (SCALE as int)) <= k * d
        <= (MAX_SITE_ENERGY as int) * (SCALE as int)
        && -((MAX_SITE_ENERGY as int) * (SCALE as int) * (SCALE as int))
        <= k * d * d
        <= (MAX_SITE_ENERGY as int) * (SCALE as int) * (SCALE as int))
        by (nonlinear_arith)
        requires
            -(SCALE as int) <= d <= SCALE,
            -(MAX_SITE_ENERGY as int) <= k <= MAX_SITE_ENERGY as int,
    ;
    let sc2 = (SCALE as int) * (SCALE as int);
    assert(sc2 > 0 && -(abs_int(k) * sc2) <= k * d * d <= abs_int(k) * sc2)
        by (nonlinear_arith)
        requires
            -(SCALE as int) <= d <= SCALE,
            SCALE > 0,
            sc2 == (SCALE as int) * (SCALE as int),
    ;
    lemma_div_in_range(k * d * d, sc2, abs_int(k));
}

/// The anisotropy energy of `n` spins stays within `n` strengths.
proof fn lemma_sum_aniso_bounds<S: Spin>(k: int, refer: S, s: Seq<S>, n: int)
    requires
        refer.inv(),
        all_inv(s),
        -(MAX_SITE_ENERGY as int) <= k <= MAX_SITE_ENERGY as int,
        0 <= n <= s.len(),
    ensures
        -n * abs_int(k) <= sum_aniso(k, refer, s, n) <= n * abs_int(k),
    decreases n,
{
    if n == 0 {
        assert(0 * abs_int(k) == 0) by (nonlinear_arith);
    } else {
        lemma_sum_aniso_bounds(k, refer, s, n - 1);
        S::lemma_spin_bounds(&s[n - 1], &refer);
        lemma_aniso_term_bound(k, s[n - 1].dot_spec(&refer));
        assert((n - 1) * abs_int(k) + abs_int(k) == n * abs_int(k)
            && -(n - 1) * abs_int(k) - abs_int(k) == -n * abs_int(k))
            by (nonlinear_arith);
    }
}

/// Strong preference for a given axis: the energy of a site grows with the
/// square of its spin's projection onto the reference spin.
#[derive(Clone, Copy, Debug)]
pub struct UniaxialAnisotropy<S> {
    pub reference: S,
    pub strength: Fixed,
}

impl<S: Spin> UniaxialAnisotropy<S> {
    /// A new anisotropy along the given spin with the given strength.
    pub fn new(s: S, k: Fixed) -> (r: Self)
        requires
            s.inv(),
            -MAX_SITE_ENERGY <= k.units <= MAX_SITE_ENERGY,
        ensures
            r.reference == s,
            r.strength == k,
    {
        Self { reference: s, strength: k }
    }
}

impl<S: Spin> Hamiltonian<S> for UniaxialAnisotropy<S> {
    open spec fn wf(&self) -> bool {
        &&& self.reference.inv()
        &&& -MAX_SITE_ENERGY <= self.strength.units <= MAX_SITE_ENERGY
    }

    open spec fn site_bound(&self) -> int {
        abs_int(self.strength.units as int)
    }

    open spec fn fits(&self, n: int) -> bool {
        true
    }

    open spec fn energy_spec(&self, t: &Thermostat<S>, s: Seq<S>, i: int) -> int {
        aniso_term(self.strength.units as int, self.reference, s, i)
    }

    open spec fn total_spec(&self, t: &Thermostat<S>, s: Seq<S>) -> int {
        sum_aniso(self.strength.units as int, self.reference, s, s.len() as int)
    }

    proof fn lemma_energy_bounds(&self, t: &Thermostat<S>, s: Seq<S>, i: int) {
        S::lemma_spin_bounds(&s[i], &self.reference);
        lemma_aniso_term_bound(
            self.strength.units as int, s[i].dot_spec(&self.reference));
    }

    proof fn lemma_total_bounds(&self, t: &Thermostat<S>, s: Seq<S>) {
        lemma_sum_aniso_bounds(
            self.strength.units as int, self.reference, s, s.len() as int);
    }

    fn energy(&self, t: &Thermostat<S>, state: &State<S>, index: usize) -> Fixed {
        proof {
            assert(state.0@[index as int].inv());
        }
        let d = state.at(index).dot(&self.reference);
        proof {
            S::lemma_spin_bounds(&state.0@[index as int], &self.reference);
            lemma_aniso_term_bound(
                self.strength.units as int,
                state.0@[index as int].dot_spec(&self.reference));
        }
        let num: i128 = (self.strength.units as i128) * (d.units as i128)
            * (d.units as i128);
        let q = div_floor128(num, (SCALE as i128) * (SCALE as i128));
        Fixed { units: q as i64 }
    }

    fn total_energy(&self, t: &Thermostat<S>, state: &State<S>) -> Fixed {
        let ghost k = self.strength.units as int;
        let n = state.len();
        let mut acc: i64 = 0;
        let mut i: usize = 0;
        while i < n
            invariant
                self.reference.inv(),
                -MAX_SITE_ENERGY <= self.strength.units <= MAX_SITE_ENERGY,
                t.wf(),
                state.wf(),
                k == self.strength.units as int,
                n == state.0@.len() <= MAX_SPINS,
                0 <= i <= n,
                acc == sum_aniso(k, self.reference, state.0@, i as int),
                -(i as int) * abs_int(k) <= acc <= (i as int) * abs_int(k),
            decreases n - i,
        {
            proof {
                S::lemma_spin_bounds(&state.0@[i as int], &self.reference);
                lemma_aniso_term_bound(
                    k, state.0@[i as int].dot_spec(&self.reference));
                lemma_sum_aniso_bounds(k, self.reference, state.0@, i + 1 as int);
                lemma_site_cap_headroom(i as int, abs_int(k));
            }
            let e = self.energy(t, state, i);
            acc = acc + e.units;
            i = i + 1;
        }
        Fixed { units: acc }
    }
}

/// The Zeeman energy of one spin in a field: lowest when the spin points
/// along the field.
pub open spec fn zeeman_term<S: Spin>(orient: S, h: int, s: Seq<S>, i: int) -> int {
    -(s[i].dot_spec(&orient) * h) / (SCALE as int)
}

/// The Zeeman energy of the first `n` spins.
pub open spec fn sum_zeeman<S: Spin>(orient: S, h: int, s: Seq<S>, n: int) -> int
    decreases n,
{
    if n <= 0 {
        0
    } else {
        sum_zeeman(orient, h, s, n - 1) + zeeman_term(orient, h, s, n - 1)
    }
}

/// A projection scaled by a bounded field magnitude stays within the
/// magnitude.
proof fn lemma_zeeman_term_bound(d: int, h: int)
    requires
        -(SCALE as int) <= d <= SCALE,
        0 <= h <= MAX_FIELD as int,
    ensures
        -h <= -(d * h) / (SCALE as int) <= h,
        -((MAX_FIELD as int) * (SCALE as int)) <= -(d * h)
            <= (MAX_FIELD as int) * (SCALE as int),
{
    assert(-((MAX_FIELD as int) * (SCALE as int)) <= -(d * h)
        <= (MAX_FIELD as int) * (SCALE as int))
        by (nonlinear_arith)
        requires
            -(SCALE as int) <= d <= SCALE,
            0 <= h <= MAX_FIELD as int,
    ;
    assert(-(h * (SCALE as int)) <= -(d * h) <= h * (SCALE as int))
        by (nonlinear_arith)
        requires
            -(SCALE as int) <= d <= SCALE,
            0 <= h,
    ;
    lemma_div_in_range(-(d * h), SCALE as int, h);
}

/// The Zeeman energy of `n` spins stays within `n` magnitudes.
proof fn lemma_sum_zeeman_bounds<S: Spin>(orient: S, h: int, s: Seq<S>, n: int)
    requires
        orient.inv(),
        0 <= h <= MAX_FIELD as int,
        all_inv(s),
        0 <= n <= s.len(),
    ensures
        -n * h <= sum_zeeman(orient, h, s, n) <= n * h,
    decreases n,
{
    if n == 0 {
        assert(0 * h == 0) by (nonlinear_arith);
    } else {
        lemma_sum_zeeman_bounds(orient, h, s, n - 1);
        S::lemma_spin_bounds(&s[n - 1], &orient);
        lemma_zeeman_term_bound(s[n - 1].dot_spec(&orient), h);
        assert((n - 1) * h + h == n * h && -(n - 1) * h - h == -n * h)
            by (nonlinear_arith);
    }
}

/// The energy a spin gains from the thermostat's external field.
#[derive(Clone, Copy, Debug, Default)]
pub struct ZeemanEnergy;

impl ZeemanEnergy {
    /// A new Zeeman energy; the field itself lives in the thermostat.
    pub fn new() -> Self {
        ZeemanEnergy
    }
}

impl<S: Spin> Hamiltonian<S> for ZeemanEnergy {
    open spec fn wf(&self) -> bool {
        true
    }

    open spec fn site_bound(&self) -> int {
        MAX_FIELD as int
    }

    open spec fn fits(&self, n: int) -> bool {
        true
    }

    open spec fn energy_spec(&self, t: &Thermostat<S>, s: Seq<S>, i: int) -> int {
        zeeman_term(
            t.field_spec().orientation, t.field_spec().magnitude.units as int, s, i)
    }

    open spec fn total_spec(&self, t: &Thermostat<S>, s: Seq<S>) -> int {
        sum_zeeman(
            t.field_spec().orientation, t.field_spec().magnitude.units as int,
            s, s.len() as int)
    }

    proof fn lemma_energy_bounds(&self, t: &Thermostat<S>, s: Seq<S>, i: int) {
        S::lemma_spin_bounds(&s[i], &t.field_spec().orientation);
        lemma_zeeman_term_bound(
            s[i].dot_spec(&t.field_spec().orientation),
            t.field_spec().magnitude.units as int);
    }

    proof fn lemma_total_bounds(&self, t: &Thermostat<S>, s: Seq<S>) {
        let h = t.field_spec().magnitude.units as int;
        lemma_sum_zeeman_bounds(
            t.field_spec().orientation, h, s, s.len() as int);
        let n = s.len() as int;
        assert(n * h <= n * (MAX_FIELD as int)
            && -(n * h) >= -(n * (MAX_FIELD as int))
            && (-n) * h == -(n * h)
            && (-n) * (MAX_FIELD as int) == -(n * (MAX_FIELD as int)))
            by (nonlinear_arith)
            requires
                0 <= h <= MAX_FIELD as int,
                n >= 0,
        ;
    }

    fn energy(&self, t: &Thermostat<S>, state: &State<S>, index: usize) -> Fixed {
        let d = state.at(index).dot(t.field().orientation());
        let h = t.field().magnitude;
        proof {
            S::lemma_spin_bounds(
                &state.0@[index as int], &t.field_spec().orientation);
            lemma_zeeman_term_bound(
                state.0@[index as int].dot_spec(&t.field_spec().orientation),
                t.field_spec().magnitude.units as int);
        }
        let num: i128 = -((d.units as i128) * (h.units as i128));
        let q = div_floor128(num, SCALE as i128);
        Fixed { units: q as i64 }
    }

    fn total_energy(&self, t: &Thermostat<S>, state: &State<S>) -> Fixed {
        let ghost orient = t.field_spec().orientation;
        let ghost h = t.field_spec().magnitude.units as int;
        let n = state.len();
        let mut acc: i64 = 0;
        let mut i: usize = 0;
        while i < n
            invariant
                t.wf(),
                state.wf(),
                orient == t.field_spec().orientation,
                h == t.field_spec().magnitude.units as int,
                n == state.0@.len() <= MAX_SPINS,
                0 <= i <= n,
                acc == sum_zeeman(orient, h, state.0@, i as int),
                -(i as int) * (MAX_FIELD as int) <= acc
                    <= (i as int) * (MAX_FIELD as int),
            decreases n - i,
        {
            proof {
                S::lemma_spin_bounds(&state.0@[i as int], &orient);
                lemma_zeeman_term_bound(
                    state.0@[i as int].dot_spec(&orient), h);
                lemma_sum_zeeman_bounds(orient, h, state.0@, i + 1 as int);
                lemma_site_cap_headroom(i as int, MAX_FIELD as int);
                assert((i + 1) * h <= (i + 1) * (MAX_FIELD as int)
                    && -((i + 1) * h) >= -((i + 1) * (MAX_FIELD as int))
                    && (i as int) * h <= (i as int) * (MAX_FIELD as int)
                    && -((i as int) * h) >= -((i as int) * (MAX_FIELD as int)))
                    by (nonlinear_arith)
                    requires
                        0 <= h <= MAX_FIELD as int,
                        0 <= i as int,
                ;
            }
            let e = <ZeemanEnergy as Hamiltonian<S>>::energy(self, t, state, i);
            acc = acc + e.units;
            i = i + 1;
        }
        Fixed { units: acc }
    }
}

/// The pairwise exchange energy over a sparse symmetric coupling structure:
/// each site holds the list of its neighbours with their coupling weights.
#[derive(Clone, Debug)]
pub struct Exchange {
    rows: Vec<Vec<(usize, i64)>>,
    bound: i64,
}

/// The total absolute coupling weight of one row.
pub open spec fn row_abs(row: Seq<(usize, i64)>) -> int
    decreases row.len(),
{
    if row.len() == 0 {
        0
    } else {
        row_abs(row.drop_last()) + abs_int(row.last().1 as int)
    }
}

/// The exchange energy of one site against a row of weighted neighbours.
pub open spec fn row_energy<S: Spin>(row: Seq<(usize, i64)>, s: Seq<S>, site: S) -> int
    decreases row.len(),
{
    if row.len() == 0 {
        0
    } else {
        let (nb, w) = row.last();
        row_energy(row.drop_last(), s, site)
            + -((w as int) * site.dot_spec(&s[nb as int])) / (SCALE as int)
    }
}

/// The exchange energy of the first `n` sites against their rows.
pub open spec fn sum_exchange<S: Spin>(
    rows: Seq<Seq<(usize, i64)>>, s: Seq<S>, n: int,
) -> int
    decreases n,
{
    if n <= 0 {
        0
    } else {
        sum_exchange(rows, s, n - 1) + row_energy(rows[n - 1], s, s[n - 1])
    }
}

/// Absolute row weights never shrink as a row grows, and never go negative.
proof fn lemma_row_abs_monotone(row: Seq<(usize, i64)>, k: int)
    requires
        0 <= k <= row.len(),
    ensures
        0 <= row_abs(row.take(k)) <= row_abs(row),
    decreases row.len() - k,
{
    if k == row.len() {
        assert(row.take(k) == row);
        lemma_row_abs_nonneg(row);
    } else {
        lemma_row_abs_monotone(row, k + 1);
        assert(row.take(k + 1).drop_last() == row.take(k));
        lemma_row_abs_nonneg(row.take(k));
    }
}

/// A row's total absolute weight is never negative.
proof fn lemma_row_abs_nonneg(row: Seq<(usize, i64)>)
    ensures
        0 <= row_abs(row),
    decreases row.len(),
{
    if row.len() > 0 {
        lemma_row_abs_nonneg(row.drop_last());
    }
}

/// A row's energy stays within its total absolute weight.
proof fn lemma_row_energy_bound<S: Spin>(row: Seq<(usize, i64)>, s: Seq<S>, site: S)
    requires
        site.inv(),
        all_inv(s),
        forall|k: int| 0 <= k < row.len() ==> (#[trigger] row[k].0 as int) < s.len(),
    ensures
        -row_abs(row) <= row_energy(row, s, site) <= row_abs(row),
    decreases row.len(),
{
    if row.len() > 0 {
        lemma_row_energy_bound(row.drop_last(), s, site);
        let (nb, w) = row.last();
        S::lemma_spin_bounds(&site, &s[nb as int]);
        let d = site.dot_spec(&s[nb as int]);
        assert(-(abs_int(w as int) * (SCALE as int)) <= -((w as int) * d)
            <= abs_int(w as int) * (SCALE as int))
            by (nonlinear_arith)
            requires
                -(SCALE as int) <= d <= SCALE,
        ;
        lemma_div_in_range(-((w as int) * d), SCALE as int, abs_int(w as int));
    }
}

/// The exchange energy of `n` sites stays within `n` row bounds.
proof fn lemma_sum_exchange_bounds<S: Spin>(
    rows: Seq<Seq<(usize, i64)>>, s: Seq<S>, n: int, b: int,
)
    requires
        all_inv(s),
        s.len() == rows.len(),
        0 <= n <= s.len(),
        0 <= b,
        forall|i: int| 0 <= i < rows.len() ==> row_abs(#[trigger] rows[i]) <= b,
        forall|i: int, k: int| 0 <= i < rows.len() && 0 <= k < rows[i].len()
            ==> (#[trigger] rows[i][k].0 as int) < rows.len(),
    ensures
        -n * b <= sum_exchange(rows, s, n) <= n * b,
    decreases n,
{
    if n == 0 {
        assert(0 * b == 0) by (nonlinear_arith);
    } else {
        lemma_sum_exchange_bounds(rows, s, n - 1, b);
        lemma_row_energy_bound(rows[n - 1], s, s[n - 1]);
        lemma_row_abs_nonneg(rows[n - 1]);
        assert((n - 1) * b + b == n * b && -(n - 1) * b - b == -n * b)
            by (nonlinear_arith);
    }
}

/// Whether explicit coupling rows are admissible: every neighbour index
/// addresses a row, and every row's total absolute weight stays within the
/// per-site energy cap.
pub open spec fn exchange_rows_ok(rs: Seq<Seq<(usize, i64)>>) -> bool {
    &&& forall|a: int| 0 <= a < rs.len()
        ==> row_abs(#[trigger] rs[a]) <= MAX_SITE_ENERGY
    &&& forall|a: int, k: int| 0 <= a < rs.len() && 0 <= k < rs[a].len()
        ==> (#[trigger] rs[a][k].0 as int) < rs.len()
}

/// The coupling rows built from an edge list over `n` sites: the geometry
/// lists each edge once, so every edge with in-range endpoints adds the
/// coupling in both directions.
pub open spec fn adjacency_rows(edges: Seq<(usize, usize)>, n: int, w: i64)
    -> Seq<Seq<(usize, i64)>>
    decreases edges.len(),
{
    if edges.len() == 0 {
        Seq::new(n as nat, |i: int| Seq::<(usize, i64)>::empty())
    } else {
        let earlier = adjacency_rows(edges.drop_last(), n, w);
        let (s, t) = edges.last();
        if (s as int) < n && (t as int) < n {
            let with_s = earlier.update(s as int, earlier[s as int].push((t, w)));
            with_s.update(t as int, with_s[t as int].push((s, w)))
        } else {
            earlier
        }
    }
}

/// The coupling rows built from an edge list keep one row per site.
pub proof fn lemma_adjacency_rows_len(edges: Seq<(usize, usize)>, n: int, w: i64)
    requires
        n >= 0,
    ensures
        adjacency_rows(edges, n, w).len() == n,
    decreases edges.len(),
{
    if edges.len() > 0 {
        lemma_adjacency_rows_len(edges.drop_last(), n, w);
    }
}

impl Exchange {
    /// The coupling rows: for each site, its weighted neighbour list.
    pub closed spec fn rows_spec(&self) -> Seq<Seq<(usize, i64)>> {
        self.rows@.map_values(|v: Vec<(usize, i64)>| v@)
    }

    /// The stored bound on any row's total absolute weight.
    pub closed spec fn bound_spec(&self) -> int {
        self.bound as int
    }

    /// Whether the component is internally consistent; shared by the trait
    /// implementations for every spin type.
    pub open spec fn wf_exchange(&self) -> bool {
        &&& 0 <= self.bound_spec() <= MAX_SITE_ENERGY
        &&& forall|i: int| 0 <= i < self.rows_spec().len()
            ==> row_abs(#[trigger] self.rows_spec()[i]) <= self.bound_spec()
        &&& forall|i: int, k: int|
            0 <= i < self.rows_spec().len() && 0 <= k < self.rows_spec()[i].len()
                ==> (#[trigger] self.rows_spec()[i][k].0 as int)
                    < self.rows_spec().len()
    }

    /// The stored bound on any row's total absolute weight.
    pub fn bound_value(&self) -> (r: i64)
        ensures
            r as int == self.bound_spec(),
    {
        self.bound
    }

    /// A new exchange energy from explicit coupling rows. Succeeds exactly
    /// when every neighbour index addresses a row and every row's total
    /// absolute weight stays within the per-site energy cap.
    pub fn new(rows: Vec<Vec<(usize, i64)>>) -> (r: Option<Exchange>)
        ensures
            r is Some <==> exchange_rows_ok(
                rows@.map_values(|v: Vec<(usize, i64)>| v@)),
            r is Some ==> {
                &&& r.unwrap().wf_exchange()
                &&& r.unwrap().rows_spec()
                    == rows@.map_values(|v: Vec<(usize, i64)>| v@)
            },
    {
        let ghost rs = rows@.map_values(|v: Vec<(usize, i64)>| v@);
        let n = rows.len();
        let mut bound: i64 = 0;
        let mut i: usize = 0;
        while i < n
            invariant
                n == rows@.len(),
                rs == rows@.map_values(|v: Vec<(usize, i64)>| v@),
                0 <= i <= n,
                0 <= bound <= MAX_SITE_ENERGY,
                forall|a: int| 0 <= a < i ==> row_abs(#[trigger] rs[a]) <= bound,
                forall|a: int, k: int| 0 <= a < i && 0 <= k < rs[a].len()
                    ==> (#[trigger] rs[a][k].0 as int) < n,
            decreases n - i,
        {
            let row = &rows[i];
            let m = row.len();
            let mut sum: i128 = 0;
            let mut k: usize = 0;
            while k < m
                invariant
                    n == rows@.len(),
                    rs == rows@.map_values(|v: Vec<(usize, i64)>| v@),
                    i < n,
                    row == &rows@[i as int],
                    m == rs[i as int].len(),
                    0 <= k <= m,
                    sum == row_abs(rs[i as int].take(k as int)),
                    0 <= sum <= MAX_SITE_ENERGY,
                    forall|b: int| 0 <= b < k
                        ==> (#[trigger] rs[i as int][b].0 as int) < n,
                decreases m - k,
            {
                proof {
                    assert(rs[i as int].take(k + 1 as int).drop_last()
                        == rs[i as int].take(k as int));
                    assert(rs[i as int].take(k + 1 as int).last()
                        == rs[i as int][k as int]);
                    lemma_row_abs_nonneg(rs[i as int].take(k as int));
                }
                let (nb, w) = row[k];
                if nb >= n {
                    return None;
                }
                let aw: i128 = if w >= 0 {
                    w as i128
                } else {
                    -(w as i128)
                };
                if sum + aw > MAX_SITE_ENERGY as i128 {
                    proof {
                        lemma_row_abs_monotone(rs[i as int], k + 1 as int);
                    }
                    return None;
                }
                sum = sum + aw;
                k = k + 1;
            }
            proof {
                assert(rs[i as int].take(m as int) == rs[i as int]);
            }
            if (sum as i64) > bound {
                bound = sum as i64;
            }
            i = i + 1;
        }
        Some(Exchange { rows, bound })
    }

    /// A new exchange energy from a lattice geometry: the geometry lists
    /// each edge once, and every edge couples its two endpoints with the
    /// given weight, in both directions. Succeeds exactly when the
    /// accumulated couplings stay within the per-site energy cap; edges with
    /// out-of-range endpoints are ignored.
    pub fn from_lattice(exchange: Fixed, lattice: &vegas_lattice::Lattice)
        -> (r: Option<Exchange>)
        ensures
            r is Some ==> {
                &&& r.unwrap().wf_exchange()
                &&& r.unwrap().rows_spec() == adjacency_rows(
                    lattice_edges(lattice),
                    lattice_sites(lattice) as int,
                    exchange.units)
            },
            r is Some <==> exchange_rows_ok(adjacency_rows(
                lattice_edges(lattice),
                lattice_sites(lattice) as int,
                exchange.units)),
    {
        let n = site_count(lattice);
        let mut rows: Vec<Vec<(usize, i64)>> = Vec::new();
        let mut i: usize = 0;
        while i < n
            invariant
                0 <= i <= n,
                rows@.len() == i,
                forall|a: int| 0 <= a < i ==> (#[trigger] rows@[a])@.len() == 0,
            decreases n - i,
        {
            rows.push(Vec::new());
            i = i + 1;
        }
        proof {
            assert(rows@.map_values(|v: Vec<(usize, i64)>| v@)
                =~~= adjacency_rows(
                    lattice_edges(lattice).take(0),
                    lattice_sites(lattice) as int,
                    exchange.units));
        }
        let edges = edge_endpoints(lattice);
        let m = edges.len();
        let mut e: usize = 0;
        while e < m
            invariant
                n == lattice_sites(lattice),
                m == lattice_edges(lattice).len(),
                edges@ == lattice_edges(lattice),
                0 <= e <= m,
                rows@.len() == n,
                rows@.map_values(|v: Vec<(usize, i64)>| v@) == adjacency_rows(
                    lattice_edges(lattice).take(e as int),
                    n as int,
                    exchange.units),
            decreases m - e,
        {
            proof {
                assert(lattice_edges(lattice).take(e + 1 as int).drop_last()
                    == lattice_edges(lattice).take(e as int));
                assert(lattice_edges(lattice).take(e + 1 as int).last()
                    == lattice_edges(lattice)[e as int]);
            }
            let (s, t) = edges[e];
            if s < n && t < n {
                rows[s].push((t, exchange.units));
                rows[t].push((s, exchange.units));
                proof {
                    assert(rows@.map_values(|v: Vec<(usize, i64)>| v@)
                        =~~= adjacency_rows(
                            lattice_edges(lattice).take(e + 1 as int),
                            n as int,
                            exchange.units));
                }
            } else {
                proof {
                    assert(rows@.map_values(|v: Vec<(usize, i64)>| v@)
                        =~~= adjacency_rows(
                            lattice_edges(lattice).take(e + 1 as int),
                            n as int,
                            exchange.units));
                }
            }
            e = e + 1;
        }
        proof {
            assert(lattice_edges(lattice).take(m as int) == lattice_edges(lattice));
        }
        Exchange::new(rows)
    }
}

impl<S: Spin> Hamiltonian<S> for Exchange {
    open spec fn wf(&self) -> bool {
        self.wf_exchange()
    }

    open spec fn site_bound(&self) -> int {
        self.bound_spec()
    }

    open spec fn fits(&self, n: int) -> bool {
        n == self.rows_spec().len()
    }

    open spec fn energy_spec(&self, t: &Thermostat<S>, s: Seq<S>, i: int) -> int {
        row_energy(self.rows_spec()[i], s, s[i])
    }

    /// Summing per-site exchange energies counts every bond twice, so the
    /// total halves the sum.
    open spec fn total_spec(&self, t: &Thermostat<S>, s: Seq<S>) -> int {
        sum_exchange(self.rows_spec(), s, s.len() as int) / 2
    }

    proof fn lemma_energy_bounds(&self, t: &Thermostat<S>, s: Seq<S>, i: int) {
        lemma_row_energy_bound(self.rows_spec()[i], s, s[i]);
        lemma_row_abs_nonneg(self.rows_spec()[i]);
    }

    proof fn lemma_total_bounds(&self, t: &Thermostat<S>, s: Seq<S>) {
        let n = s.len() as int;
        let b = self.bound_spec();
        lemma_sum_exchange_bounds(self.rows_spec(), s, n, b);
        assert(0 <= n * b && -(n * b) <= n * b && n * b <= (n * b) * 2
            && (-n) * b == -(n * b)
            && -((n * b) * 2) <= -(n * b)) by (nonlinear_arith)
            requires n >= 0, b >= 0,
        ;
        lemma_div_in_range(sum_exchange(self.rows_spec(), s, n), 2, n * b);
    }

    fn energy(&self, t: &Thermostat<S>, state: &State<S>, index: usize) -> Fixed {
        let row = &self.rows[index];
        let m = row.len();
        let ghost rowv = self.rows_spec()[index as int];
        let ghost site = state.0@[index as int];
        let mut acc: i64 = 0;
        let mut k: usize = 0;
        while k < m
            invariant
                self.wf_exchange(),
                state.wf(),
                state.0@.len() == self.rows_spec().len(),
                (index as int) < state.0@.len(),
                row == &self.rows@[index as int],
                rowv == self.rows_spec()[index as int],
                site == state.0@[index as int],
                m == rowv.len(),
                0 <= k <= m,
                acc == row_energy(rowv.take(k as int), state.0@, site),
                -row_abs(rowv.take(k as int)) <= acc <= row_abs(rowv.take(k as int)),
                row_abs(rowv.take(k as int)) <= self.bound_spec(),
            decreases m - k,
        {
            proof {
                assert(rowv.take(k + 1 as int).drop_last() == rowv.take(k as int));
                assert(rowv.take(k + 1 as int).last() == rowv[k as int]);
                assert(forall|b: int| 0 <= b < rowv.take(k + 1 as int).len()
                    ==> (#[trigger] rowv.take(k + 1 as int)[b].0 as int)
                        < state.0@.len());
                lemma_row_energy_bound(rowv.take(k + 1 as int), state.0@, site);
                lemma_row_abs_monotone(rowv, k + 1 as int);
                lemma_row_abs_nonneg(rowv.take(k as int));
            }
            let (nb, w) = row[k];
            let d = state.at(index).dot(state.at(nb));
            proof {
                S::lemma_spin_bounds(&site, &state.0@[nb as int]);
                assert(row_abs(rowv.take(k + 1 as int))
                    == row_abs(rowv.take(k as int)) + abs_int(w as int));
                assert(abs_int(w as int) <= MAX_SITE_ENERGY as int);
                assert(-(abs_int(w as int) * (SCALE as int))
                    <= -((w as int) * site.dot_spec(&state.0@[nb as int]))
                    <= abs_int(w as int) * (SCALE as int)
                    && abs_int(w as int) * (SCALE as int)
                        <= (MAX_SITE_ENERGY as int) * (SCALE as int))
                    by (nonlinear_arith)
                    requires
                        -(SCALE as int)
                            <= site.dot_spec(&state.0@[nb as int]) <= SCALE,
                        0 <= abs_int(w as int) <= MAX_SITE_ENERGY as int,
                        SCALE > 0,
                ;
                lemma_div_in_range(
                    -((w as int) * site.dot_spec(&state.0@[nb as int])),
                    SCALE as int, abs_int(w as int));
            }
            let num: i128 = -((w as i128) * (d.units as i128));
            let q = div_floor128(num, SCALE as i128);
            acc = acc + (q as i64);
            k = k + 1;
        }
        proof {
            assert(rowv.take(m as int) == rowv);
        }
        Fixed { units: acc }
    }

    fn total_energy(&self, t: &Thermostat<S>, state: &State<S>) -> Fixed {
        let n = state.len();
        let mut acc: i64 = 0;
        let mut i: usize = 0;
        while i < n
            invariant
                self.wf_exchange(),
                t.wf(),
                state.wf(),
                n == state.0@.len() <= MAX_SPINS,
                n == self.rows_spec().len(),
                0 <= i <= n,
                acc == sum_exchange(self.rows_spec(), state.0@, i as int),
                -(i as int) * self.bound_spec() <= acc
                    <= (i as int) * self.bound_spec(),
            decreases n - i,
        {
            proof {
                lemma_row_energy_bound(
                    self.rows_spec()[i as int], state.0@, state.0@[i as int]);
                lemma_sum_exchange_bounds(
                    self.rows_spec(), state.0@, i + 1 as int, self.bound_spec());
                lemma_site_cap_headroom(i as int, self.bound_spec());
            }
            let e = <Exchange as Hamiltonian<S>>::energy(self, t, state, i);
            acc = acc + e.units;
            i = i + 1;
        }
        proof {
            lemma_site_cap_headroom(n as int, self.bound_spec());
        }
        Fixed { units: div_floor64(acc, 2) }
    }
}

/// A compound energy: the sum of two energy components, either of which may
/// itself be compound, so components form binary trees.
pub struct Compound<S: Spin, U: Hamiltonian<S>, V: Hamiltonian<S>> {
    pub a: U,
    pub b: V,
    pub phantom: PhantomData<S>,
}

impl<S: Spin, U: Hamiltonian<S>, V: Hamiltonian<S>> Compound<S, U, V> {
    /// A new compound energy from two components whose site bounds together
    /// stay within the per-site energy cap.
    pub fn new(a: U, b: V) -> (r: Self)
        requires
            a.wf(),
            b.wf(),
            a.site_bound() + b.site_bound() <= MAX_SITE_ENERGY,
        ensures
            r.a == a,
            r.b == b,
    {
        Self { a, b, phantom: PhantomData }
    }
}

impl<S: Spin, U: Hamiltonian<S>, V: Hamiltonian<S>> Hamiltonian<S>
    for Compound<S, U, V> {
    open spec fn wf(&self) -> bool {
        &&& self.a.wf()
        &&& self.b.wf()
        &&& self.a.site_bound() + self.b.site_bound() <= MAX_SITE_ENERGY
    }

    open spec fn site_bound(&self) -> int {
        self.a.site_bound() + self.b.site_bound()
    }

    open spec fn fits(&self, n: int) -> bool {
        self.a.fits(n) && self.b.fits(n)
    }

    open spec fn energy_spec(&self, t: &Thermostat<S>, s: Seq<S>, i: int) -> int {
        self.a.energy_spec(t, s, i) + self.b.energy_spec(t, s, i)
    }

    open spec fn total_spec(&self, t: &Thermostat<S>, s: Seq<S>) -> int {
        self.a.total_spec(t, s) + self.b.total_spec(t, s)
    }

    proof fn lemma_energy_bounds(&self, t: &Thermostat<S>, s: Seq<S>, i: int) {
        self.a.lemma_energy_bounds(t, s, i);
        self.b.lemma_energy_bounds(t, s, i);
    }

    proof fn lemma_total_bounds(&self, t: &Thermostat<S>, s: Seq<S>) {
        self.a.lemma_total_bounds(t, s);
        self.b.lemma_total_bounds(t, s);
        let n = s.len() as int;
        assert(n * (self.a.site_bound() + self.b.site_bound())
            == n * self.a.site_bound() + n * self.b.site_bound()
            && (-n) * (self.a.site_bound() + self.b.site_bound())
                == (-n) * self.a.site_bound() + (-n) * self.b.site_bound()
            && (-n) * self.a.site_bound() == -(n * self.a.site_bound())
            && (-n) * self.b.site_bound() == -(n * self.b.site_bound())
            && (-n) * (self.a.site_bound() + self.b.site_bound())
                == -(n * (self.a.site_bound() + self.b.site_bound())))
            by (nonlinear_arith);
    }

    fn energy(&self, t: &Thermostat<S>, state: &State<S>, index: usize) -> Fixed {
        proof {
            self.a.lemma_energy_bounds(t, state.0@, index as int);
            self.b.lemma_energy_bounds(t, state.0@, index as int);
        }
        let ea = self.a.energy(t, state, index);
        let eb = self.b.energy(t, state, index);
        Fixed { units: ea.units + eb.units }
    }

    fn total_energy(&self, t: &Thermostat<S>, state: &State<S>) -> Fixed {
        proof {
            self.a.lemma_total_bounds(t, state.0@);
            self.b.lemma_total_bounds(t, state.0@);
            let n = state.0@.len() as int;
            assert((MAX_SPINS as int) * (MAX_SITE_ENERGY as int) < i64::MAX
                && n * self.a.site_bound()
                    <= (MAX_SPINS as int) * (MAX_SITE_ENERGY as int)
                && n * self.b.site_bound()
                    <= (MAX_SPINS as int) * (MAX_SITE_ENERGY as int)
                && -(n * self.a.site_bound())
                    >= -((MAX_SPINS as int) * (MAX_SITE_ENERGY as int))
                && (-n) * self.a.site_bound() == -(n * self.a.site_bound())
                && (-n) * self.b.site_bound() == -(n * self.b.site_bound())
                && -(n * self.b.site_bound())
                    >= -((MAX_SPINS as int) * (MAX_SITE_ENERGY as int)))
                by (nonlinear_arith)
                requires
                    0 <= n <= MAX_SPINS as int,
                    0 <= self.a.site_bound() <= MAX_SITE_ENERGY as int,
                    0 <= self.b.site_bound() <= MAX_SITE_ENERGY as int,
            ;
        }
        let ta = self.a.total_energy(t, state);
        let tb = self.b.total_energy(t, state);
        Fixed { units: ta.units + tb.units }
    }
}

/// The total gauge energy is linear in the per-site energies: it equals the
/// sum of the per-site contributions, which is the site count times the
/// constant.
pub proof fn lemma_gauge_total_is_sum<S: Spin>(
    g: &Gauge, t: &Thermostat<S>, s: Seq<S>,
)
    ensures
        <Gauge as Hamiltonian<S>>::total_spec(g, t, s)
            == sum_energy(g, t, s, s.len() as int),
        <Gauge as Hamiltonian<S>>::total_spec(g, t, s)
            == (s.len() as int) * (g.value.units as int),
{
    lemma_gauge_sum(g, t, s, s.len() as int);
}

/// The sum of the first `n` gauge energies is `n` times the constant.
proof fn lemma_gauge_sum<S: Spin>(g: &Gauge, t: &Thermostat<S>, s: Seq<S>, n: int)
    requires
        0 <= n,
    ensures
        sum_energy(g, t, s, n) == n * (g.value.units as int),
    decreases n,
{
    let c = g.value.units as int;
    if n == 0 {
        assert(0 * c == 0) by (nonlinear_arith);
    } else {
        lemma_gauge_sum(g, t, s, n - 1);
        assert((n - 1) * c + c == n * c) by (nonlinear_arith);
    }
}

/// The total anisotropy energy of an all-up state with the reference spin up
/// is the site count times the strength: every projection is exactly one.
pub proof fn lemma_aniso_total_all_up<S: Spin>(
    a: &UniaxialAnisotropy<S>, t: &Thermostat<S>, s: Seq<S>,
)
    requires
        a.reference == S::up_spec(),
        forall|i: int| 0 <= i < s.len() ==> s[i] == S::up_spec(),
    ensures
        <UniaxialAnisotropy<S> as Hamiltonian<S>>::total_spec(a, t, s)
            == (s.len() as int) * (a.strength.units as int),
{
    lemma_aniso_sum_all_up(a, s, s.len() as int);
}

/// The anisotropy sum over an all-up prefix grows by the strength per site.
proof fn lemma_aniso_sum_all_up<S: Spin>(
    a: &UniaxialAnisotropy<S>, s: Seq<S>, n: int,
)
    requires
        a.reference == S::up_spec(),
        0 <= n <= s.len(),
        forall|i: int| 0 <= i < s.len() ==> s[i] == S::up_spec(),
    ensures
        sum_aniso(a.strength.units as int, a.reference, s, n)
            == n * (a.strength.units as int),
    decreases n,
{
    let k = a.strength.units as int;
    if n == 0 {
        assert(0 * k == 0) by (nonlinear_arith);
    } else {
        lemma_aniso_sum_all_up(a, s, n - 1);
        S::lemma_poles();
        S::lemma_spin_bounds(&s[n - 1], &a.reference);
        let sc2 = (SCALE as int) * (SCALE as int);
        assert(k * (SCALE as int) * (SCALE as int) == k * sc2 && sc2 > 0)
            by (nonlinear_arith)
            requires
                sc2 == (SCALE as int) * (SCALE as int),
                SCALE > 0,
        ;
        crate::fixed::lemma_div_exact(k, sc2);
        assert((n - 1) * k + k == n * k) by (nonlinear_arith);
    }
}

/// The total Zeeman energy of an all-up state in an upward field is the
/// negated site count times the field magnitude: energy is lowest when every
/// spin aligns with the field.
pub proof fn lemma_zeeman_total_all_up<S: Spin>(
    z: &ZeemanEnergy, t: &Thermostat<S>, s: Seq<S>,
)
    requires
        t.field_spec().orientation == S::up_spec(),
        forall|i: int| 0 <= i < s.len() ==> s[i] == S::up_spec(),
    ensures
        <ZeemanEnergy as Hamiltonian<S>>::total_spec(z, t, s)
            == -(s.len() as int) * (t.field_spec().magnitude.units as int),
{
    lemma_zeeman_sum_all_up::<S>(
        t.field_spec().orientation, t.field_spec().magnitude.units as int,
        s, s.len() as int);
}

/// The Zeeman sum over an all-up prefix falls by the magnitude per site.
proof fn lemma_zeeman_sum_all_up<S: Spin>(orient: S, h: int, s: Seq<S>, n: int)
    requires
        orient == S::up_spec(),
        0 <= n <= s.len(),
        forall|i: int| 0 <= i < s.len() ==> s[i] == S::up_spec(),
    ensures
        sum_zeeman(orient, h, s, n) == -n * h,
    decreases n,
{
    if n == 0 {
        assert(-0 * h == 0) by (nonlinear_arith);
    } else {
        lemma_zeeman_sum_all_up::<S>(orient, h, s, n - 1);
        S::lemma_poles();
        S::lemma_spin_bounds(&s[n - 1], &orient);
        assert(-((SCALE as int) * h) == (-h) * (SCALE as int))
            by (nonlinear_arith);
        crate::fixed::lemma_div_exact(-h, SCALE as int);
        assert(-(n - 1) * h - h == -n * h) by (nonlinear_arith);
    }
}

/// The coupling weight of one row.
pub open spec fn row_weight(row: Seq<(usize, i64)>) -> int
    decreases row.len(),
{
    if row.len() == 0 {
        0
    } else {
        row_weight(row.drop_last()) + row.last().1 as int
    }
}

/// The total coupling weight held in a set of rows.
pub open spec fn total_weight(rows: Seq<Seq<(usize, i64)>>) -> int
    decreases rows.len(),
{
    if rows.len() == 0 {
        0
    } else {
        total_weight(rows.drop_last()) + row_weight(rows.last())
    }
}

/// How many edges of a list couple two in-range sites, and so enter the
/// adjacency structure.
pub open spec fn accepted_edges(edges: Seq<(usize, usize)>, n: int) -> int
    decreases edges.len(),
{
    if edges.len() == 0 {
        0
    } else {
        let (s, t) = edges.last();
        accepted_edges(edges.drop_last(), n) + if (s as int) < n && (t as int) < n {
            1int
        } else {
            0int
        }
    }
}

/// Appending one coupling to one row raises the total weight by exactly that
/// coupling.
proof fn lemma_total_weight_push(
    rows: Seq<Seq<(usize, i64)>>, i: int, e: (usize, i64),
)
    requires
        0 <= i < rows.len(),
    ensures
        total_weight(rows.update(i, rows[i].push(e)))
            == total_weight(rows) + e.1 as int,
    decreases rows.len(),
{
    let up = rows.update(i, rows[i].push(e));
    if i == rows.len() - 1 {
        assert(up.drop_last() == rows.drop_last());
        assert(up.last() == rows[i].push(e));
        assert(rows[i].push(e).drop_last() == rows[i]);
    } else {
        lemma_total_weight_push(rows.drop_last(), i, e);
        assert(up.drop_last() == rows.drop_last().update(i, rows[i].push(e)));
        assert(up.last() == rows.last());
    }
}

/// A set of empty rows holds no coupling weight.
proof fn lemma_total_weight_empty(n: int)
    requires
        n >= 0,
    ensures
        total_weight(Seq::new(n as nat, |i: int| Seq::<(usize, i64)>::empty())) == 0,
    decreases n,
{
    let rows = Seq::new(n as nat, |i: int| Seq::<(usize, i64)>::empty());
    if n > 0 {
        lemma_total_weight_empty(n - 1);
        assert(rows.drop_last()
            =~= Seq::new((n - 1) as nat, |i: int| Seq::<(usize, i64)>::empty()));
    }
}

/// The adjacency structure built from an edge list holds every accepted edge
/// twice: once in each direction.
pub proof fn lemma_adjacency_total_weight(
    edges: Seq<(usize, usize)>, n: int, w: i64,
)
    requires
        n >= 0,
    ensures
        total_weight(adjacency_rows(edges, n, w))
            == 2 * accepted_edges(edges, n) * (w as int),
    decreases edges.len(),
{
    lemma_adjacency_rows_len(edges, n, w);
    if edges.len() == 0 {
        lemma_total_weight_empty(n);
        assert(2 * 0 * (w as int) == 0) by (nonlinear_arith);
    } else {
        lemma_adjacency_total_weight(edges.drop_last(), n, w);
        lemma_adjacency_rows_len(edges.drop_last(), n, w);
        let earlier = adjacency_rows(edges.drop_last(), n, w);
        let (s, t) = edges.last();
        let a = accepted_edges(edges.drop_last(), n);
        if (s as int) < n && (t as int) < n {
            let with_s = earlier.update(s as int, earlier[s as int].push((t, w)));
            lemma_total_weight_push(earlier, s as int, (t, w));
            lemma_total_weight_push(with_s, t as int, (s, w));
            assert(2 * (a + 1) * (w as int)
                == 2 * a * (w as int) + (w as int) + (w as int))
                by (nonlinear_arith);
        } else {
            assert(2 * a * (w as int) == 2 * accepted_edges(edges, n) * (w as int));
        }
    }
}

/// When every edge endpoint addresses a site — as every geometry the
/// collaborator builds or validates satisfies — no edge is dropped, so the
/// accepted count is the full edge count and the aligned exchange total is
/// the edge count times the coupling.
pub proof fn lemma_accepted_edges_all(edges: Seq<(usize, usize)>, n: int)
    requires
        forall|e: int| 0 <= e < edges.len()
            ==> ((#[trigger] edges[e]).0 as int) < n
                && (edges[e].1 as int) < n,
    ensures
        accepted_edges(edges, n) == edges.len(),
    decreases edges.len(),
{
    if edges.len() > 0 {
        lemma_accepted_edges_all(edges.drop_last(), n);
    }
}

/// The exchange energy of one row against an all-up state is the negated row
/// weight: every dot product is exactly one.
proof fn lemma_row_energy_all_up<S: Spin>(row: Seq<(usize, i64)>, s: Seq<S>, site: S)
    requires
        site == S::up_spec(),
        forall|i: int| 0 <= i < s.len() ==> s[i] == S::up_spec(),
        forall|k: int| 0 <= k < row.len() ==> (#[trigger] row[k].0 as int) < s.len(),
    ensures
        row_energy(row, s, site) == -row_weight(row),
    decreases row.len(),
{
    if row.len() > 0 {
        lemma_row_energy_all_up(row.drop_last(), s, site);
        let (nb, w) = row.last();
        S::lemma_poles();
        S::lemma_spin_bounds(&site, &s[nb as int]);
        assert(-((w as int) * (SCALE as int)) == (-(w as int)) * (SCALE as int))
            by (nonlinear_arith);
        crate::fixed::lemma_div_exact(-(w as int), SCALE as int);
    }
}

/// The exchange sum over an all-up prefix is the negated total weight of the
/// rows seen so far.
proof fn lemma_sum_exchange_all_up<S: Spin>(
    rows: Seq<Seq<(usize, i64)>>, s: Seq<S>, n: int,
)
    requires
        s.len() == rows.len(),
        0 <= n <= s.len(),
        forall|i: int| 0 <= i < s.len() ==> s[i] == S::up_spec(),
        forall|i: int, k: int| 0 <= i < rows.len() && 0 <= k < rows[i].len()
            ==> (#[trigger] rows[i][k].0 as int) < rows.len(),
    ensures
        sum_exchange(rows, s, n) == -total_weight(rows.take(n)),
    decreases n,
{
    if n == 0 {
        assert(rows.take(0) =~= Seq::<Seq<(usize, i64)>>::empty());
    } else {
        lemma_sum_exchange_all_up(rows, s, n - 1);
        S::lemma_poles();
        lemma_row_energy_all_up(rows[n - 1], s, s[n - 1]);
        assert(rows.take(n).drop_last() == rows.take(n - 1));
        assert(rows.take(n).last() == rows[n - 1]);
    }
}

/// The total exchange energy of an all-up state over an adjacency structure
/// built from an edge list is the negated accepted-edge count times the
/// coupling: the per-site sum counts every edge twice, and the total halves
/// it.
pub proof fn lemma_exchange_total_all_up<S: Spin>(
    x: &Exchange, t: &Thermostat<S>, s: Seq<S>,
    edges: Seq<(usize, usize)>, w: i64,
)
    requires
        x.rows_spec() == adjacency_rows(edges, s.len() as int, w),
        x.wf_exchange(),
        forall|i: int| 0 <= i < s.len() ==> s[i] == S::up_spec(),
    ensures
        <Exchange as Hamiltonian<S>>::total_spec(x, t, s)
            == -(accepted_edges(edges, s.len() as int) * (w as int)),
{
    let n = s.len() as int;
    lemma_adjacency_rows_len(edges, n, w);
    lemma_adjacency_total_weight(edges, n, w);
    lemma_sum_exchange_all_up::<S>(x.rows_spec(), s, n);
    assert(x.rows_spec().take(n) =~= x.rows_spec());
    let e = accepted_edges(edges, n);
    assert(-(2 * e * (w as int)) == (-(e * (w as int))) * 2) by (nonlinear_arith);
    crate::fixed::lemma_div_exact(-(e * (w as int)), 2);
}

} // verus!
