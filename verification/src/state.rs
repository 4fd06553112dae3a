//! Spins, magnetic fields, and states.
//!
//! Spins are the basic building blocks of the library: unit-magnitude
//! magnetic moments whose projections are fixed-point numbers. The `Spin`
//! trait captures what every spin type offers, `Flip` the extra ability to
//! produce the antipode, and `State` is a dense sequence of spins.

use vstd::prelude::*;
use rand_pcg::Pcg64;
use crate::fixed::{Fixed, SCALE, abs_int};
use crate::rng::rand_coin;

verus! {

/// The largest number of spins a state may hold, so that sums of projections
/// stay within a 64-bit signed integer.
pub const MAX_SPINS: usize = 0x4000_0000;

/// What a spin is: a unit-magnitude moment with fixed-point projections, an
/// up and a down direction, a random constructor, and a dot product.
pub trait Spin: Sized + Copy {
    /// Whether the value is a well-formed spin of this type.
    spec fn inv(&self) -> bool;

    /// The distinguished up spin.
    spec fn up_spec() -> Self;

    /// The distinguished down spin, anti-parallel to up.
    spec fn down_spec() -> Self;

    /// The projection along x, in fixed-point units.
    spec fn sx_spec(&self) -> int;

    /// The projection along y, in fixed-point units.
    spec fn sy_spec(&self) -> int;

    /// The projection along z, in fixed-point units.
    spec fn sz_spec(&self) -> int;

    /// The dot product of two spins, in fixed-point units.
    spec fn dot_spec(&self, other: &Self) -> int;

    /// The field a triple of summed projections collapses to.
    spec fn from_proj_spec(sx: int, sy: int, sz: int) -> Field<Self>;

    /// Up and down are well-formed unit spins along the z axis.
    proof fn lemma_poles()
        ensures
            Self::up_spec().inv(),
            Self::down_spec().inv(),
            Self::up_spec().sx_spec() == 0,
            Self::up_spec().sy_spec() == 0,
            Self::up_spec().sz_spec() == SCALE,
            Self::down_spec().sx_spec() == 0,
            Self::down_spec().sy_spec() == 0,
            Self::down_spec().sz_spec() == -(SCALE as int),
    ;

    /// Projections and dot products of unit spins stay within one unit, the
    /// dot product is symmetric, and a spin dotted with itself gives one.
    proof fn lemma_spin_bounds(a: &Self, b: &Self)
        requires
            a.inv(),
            b.inv(),
        ensures
            -(SCALE as int) <= a.sx_spec() <= SCALE,
            -(SCALE as int) <= a.sy_spec() <= SCALE,
            -(SCALE as int) <= a.sz_spec() <= SCALE,
            -(SCALE as int) <= a.dot_spec(b) <= SCALE,
            a.dot_spec(b) == b.dot_spec(a),
            a.dot_spec(a) == SCALE,
    ;

    /// A projection triple pointing purely along z collapses to a field
    /// whose magnitude is the absolute z component.
    proof fn lemma_proj_pure_z(z: int)
        requires
            -(i64::MAX as int) <= z <= i64::MAX as int,
        ensures
            Self::from_proj_spec(0, 0, z).magnitude.units == abs_int(z),
            Self::from_proj_spec(0, 0, z).orientation.inv(),
    ;

    /// A collapsed field's magnitude is never negative and never larger than
    /// the summed absolute projections.
    proof fn lemma_proj_magnitude(sx: int, sy: int, sz: int)
        requires
            -(i64::MAX as int) <= sx <= i64::MAX as int,
            -(i64::MAX as int) <= sy <= i64::MAX as int,
            -(i64::MAX as int) <= sz <= i64::MAX as int,
        ensures
            0 <= Self::from_proj_spec(sx, sy, sz).magnitude.units
                <= abs_int(sx) + abs_int(sy) + abs_int(sz),
    ;

    /// The up spin.
    fn up() -> (r: Self)
        ensures
            r == Self::up_spec(),
    ;

    /// The down spin.
    fn down() -> (r: Self)
        ensures
            r == Self::down_spec(),
    ;

    /// A random spin.
    fn rand(rng: &mut Pcg64) -> (r: Self)
        ensures
            r.inv(),
    ;

    /// The field that summed projections collapse to.
    fn from_projections(sx: Fixed, sy: Fixed, sz: Fixed) -> (r: Field<Self>)
        requires
            sx.units > i64::MIN,
            sy.units > i64::MIN,
            sz.units > i64::MIN,
        ensures
            r == Self::from_proj_spec(sx.units as int, sy.units as int, sz.units as int),
    ;

    /// The dot product of two spins.
    fn dot(&self, other: &Self) -> (r: Fixed)
        requires
            self.inv(),
            other.inv(),
        ensures
            r.units == self.dot_spec(other),
    ;

    /// The projection along x.
    fn sx(&self) -> (r: Fixed)
        requires
            self.inv(),
        ensures
            r.units == self.sx_spec(),
    ;

    /// The projection along y.
    fn sy(&self) -> (r: Fixed)
        requires
            self.inv(),
        ensures
            r.units == self.sy_spec(),
    ;

    /// The projection along z.
    fn sz(&self) -> (r: Fixed)
        requires
            self.inv(),
        ensures
            r.units == self.sz_spec(),
    ;
}

/// A spin with a deterministic antipode.
pub trait Flip: Spin {
    /// The antipode of the spin.
    spec fn flip_spec(&self) -> Self;

    /// Flipping is an involution onto well-formed spins, and the antipode's
    /// dot product with any spin is the negative of the spin's own.
    proof fn lemma_flip(a: &Self, b: &Self)
        requires
            a.inv(),
            b.inv(),
        ensures
            a.flip_spec().inv(),
            a.flip_spec().flip_spec() == *a,
            b.dot_spec(&a.flip_spec()) == -b.dot_spec(a),
    ;

    /// The antipode of the spin.
    fn flip(&self) -> (r: Self)
        requires
            self.inv(),
        ensures
            r == self.flip_spec(),
    ;
}

/// A two-valued spin pointing either up or down along the z axis.
#[derive(Clone, Copy, Debug, PartialEq, Eq, Structural)]
pub enum IsingSpin {
    Up,
    Down,
}

impl Spin for IsingSpin {
    open spec fn inv(&self) -> bool {
        true
    }

    open spec fn up_spec() -> Self {
        IsingSpin::Up
    }

    open spec fn down_spec() -> Self {
        IsingSpin::Down
    }

    open spec fn sx_spec(&self) -> int {
        0
    }

    open spec fn sy_spec(&self) -> int {
        0
    }

    open spec fn sz_spec(&self) -> int {
        match *self {
            IsingSpin::Up => SCALE as int,
            IsingSpin::Down => -(SCALE as int),
        }
    }

    open spec fn dot_spec(&self, other: &Self) -> int {
        if *self == *other {
            SCALE as int
        } else {
            -(SCALE as int)
        }
    }

    open spec fn from_proj_spec(sx: int, sy: int, sz: int) -> Field<Self> {
        if sz >= 0 {
            Field { orientation: IsingSpin::Up, magnitude: Fixed { units: sz as i64 } }
        } else {
            Field { orientation: IsingSpin::Down, magnitude: Fixed { units: (-sz) as i64 } }
        }
    }

    proof fn lemma_poles() {
    }

    proof fn lemma_spin_bounds(a: &Self, b: &Self) {
    }

    proof fn lemma_proj_pure_z(z: int) {
    }

    proof fn lemma_proj_magnitude(sx: int, sy: int, sz: int) {
    }

    fn up() -> Self {
        IsingSpin::Up
    }

    fn down() -> Self {
        IsingSpin::Down
    }

    /// A fair coin toss between up and down.
    fn rand(rng: &mut Pcg64) -> Self {
        if rand_coin(rng) {
            IsingSpin::Up
        } else {
            IsingSpin::Down
        }
    }

    /// Collapses by the sign of the z component: the x and y projections of
    /// a sum of Ising spins are always zero.
    fn from_projections(_sx: Fixed, _sy: Fixed, sz: Fixed) -> Field<Self> {
        if sz.units >= 0 {
            Field { orientation: IsingSpin::Up, magnitude: sz }
        } else {
            Field { orientation: IsingSpin::Down, magnitude: sz.neg() }
        }
    }

    fn dot(&self, other: &Self) -> Fixed {
        match (self, other) {
            (IsingSpin::Up, IsingSpin::Up) | (IsingSpin::Down, IsingSpin::Down) => {
                Fixed { units: SCALE }
            },
            _ => Fixed { units: -SCALE },
        }
    }

    fn sx(&self) -> Fixed {
        Fixed { units: 0 }
    }

    fn sy(&self) -> Fixed {
        Fixed { units: 0 }
    }

    fn sz(&self) -> Fixed {
        match self {
            IsingSpin::Up => Fixed { units: SCALE },
            IsingSpin::Down => Fixed { units: -SCALE },
        }
    }
}

impl Flip for IsingSpin {
    open spec fn flip_spec(&self) -> Self {
        match *self {
            IsingSpin::Up => IsingSpin::Down,
            IsingSpin::Down => IsingSpin::Up,
        }
    }

    proof fn lemma_flip(a: &Self, b: &Self) {
    }

    fn flip(&self) -> Self {
        match self {
            IsingSpin::Up => IsingSpin::Down,
            IsingSpin::Down => IsingSpin::Up,
        }
    }
}

/// A magnetic field for a given spin type: an orientation and a magnitude.
#[derive(Clone, Copy, Debug)]
pub struct Field<S: Spin> {
    pub orientation: S,
    pub magnitude: Fixed,
}

impl<S: Spin> Field<S> {
    /// A field is well formed when its orientation is a spin and its
    /// magnitude is not negative.
    pub open spec fn wf(&self) -> bool {
        self.orientation.inv() && self.magnitude.units >= 0
    }

    /// A field with the given direction and magnitude.
    pub fn new(orientation: S, magnitude: Fixed) -> (r: Self)
        ensures
            r.orientation == orientation,
            r.magnitude == magnitude,
    {
        Field { orientation, magnitude }
    }

    /// The zero field: no magnitude, pointing up.
    pub fn zero() -> (r: Self)
        ensures
            r.orientation == S::up_spec(),
            r.magnitude.units == 0,
            r.wf(),
    {
        proof {
            S::lemma_poles();
        }
        Field { orientation: S::up(), magnitude: Fixed { units: 0 } }
    }

    /// The magnitude of the field.
    pub fn magnitude(&self) -> (r: Fixed)
        requires
            self.magnitude.units > i64::MIN,
        ensures
            r.units == abs_int(self.magnitude.units as int),
    {
        self.magnitude.abs()
    }

    /// The orientation of the field.
    pub fn orientation(&self) -> (r: &S)
        ensures
            r == &self.orientation,
    {
        &self.orientation
    }
}

impl<S: Spin> Default for Field<S> {
    /// The default field is the zero field.
    fn default() -> (r: Self)
        ensures
            r.orientation == S::up_spec(),
            r.magnitude.units == 0,
    {
        Field::zero()
    }
}

/// A state: a dense, fixed-length sequence of spins.
#[derive(Clone)]
pub struct State<S: Spin>(pub Vec<S>);

/// Every spin of the sequence is well formed.
pub open spec fn all_inv<S: Spin>(s: Seq<S>) -> bool {
    forall|i: int| 0 <= i < s.len() ==> #[trigger] s[i].inv()
}

/// The sum of the x projections of a sequence of spins, in units.
pub open spec fn sum_sx<S: Spin>(s: Seq<S>) -> int
    decreases s.len(),
{
    if s.len() == 0 {
        0
    } else {
        sum_sx(s.drop_last()) + s.last().sx_spec()
    }
}

/// The sum of the y projections of a sequence of spins, in units.
pub open spec fn sum_sy<S: Spin>(s: Seq<S>) -> int
    decreases s.len(),
{
    if s.len() == 0 {
        0
    } else {
        sum_sy(s.drop_last()) + s.last().sy_spec()
    }
}

/// The sum of the z projections of a sequence of spins, in units.
pub open spec fn sum_sz<S: Spin>(s: Seq<S>) -> int
    decreases s.len(),
{
    if s.len() == 0 {
        0
    } else {
        sum_sz(s.drop_last()) + s.last().sz_spec()
    }
}

/// The magnetization of a sequence of spins: the field its summed
/// projections collapse to.
pub open spec fn magnetization_spec<S: Spin>(s: Seq<S>) -> Field<S> {
    S::from_proj_spec(sum_sx(s), sum_sy(s), sum_sz(s))
}

/// Sums of projections of well-formed spins grow by at most one unit per
/// spin in either direction.
pub proof fn lemma_projection_sums_bounded<S: Spin>(s: Seq<S>)
    requires
        forall|i: int| 0 <= i < s.len() ==> #[trigger] s[i].inv(),
    ensures
        -(s.len() as int) * (SCALE as int) <= sum_sx(s) <= s.len() * SCALE,
        -(s.len() as int) * (SCALE as int) <= sum_sy(s) <= s.len() * SCALE,
        -(s.len() as int) * (SCALE as int) <= sum_sz(s) <= s.len() * SCALE,
    decreases s.len(),
{
    if s.len() > 0 {
        lemma_projection_sums_bounded(s.drop_last());
        S::lemma_spin_bounds(&s.last(), &s.last());
        let n = s.len() as int;
        assert((n - 1) * (SCALE as int) + SCALE == n * SCALE
            && -(n - 1) * (SCALE as int) - SCALE == -n * (SCALE as int))
            by (nonlinear_arith);
    } else {
        assert(0 * (SCALE as int) == 0) by (nonlinear_arith);
    }
}

impl<S: Spin> State<S> {
    /// Every spin in the state is well formed.
    pub open spec fn wf(&self) -> bool {
        all_inv(self.0@)
    }

    /// A state of a given number of spins, all pointing down.
    pub fn down_with_size(n: usize) -> (r: Self)
        ensures
            r.0@.len() == n,
            forall|i: int| 0 <= i < n ==> r.0@[i] == S::down_spec(),
            r.wf(),
    {
        proof {
            S::lemma_poles();
        }
        let mut spins: Vec<S> = Vec::new();
        for i in 0..n
            invariant
                spins@.len() == i,
                forall|j: int| 0 <= j < i ==> spins@[j] == S::down_spec(),
        {
            spins.push(S::down());
        }
        State(spins)
    }

    /// A state of a given number of spins, all pointing up.
    pub fn up_with_size(n: usize) -> (r: Self)
        ensures
            r.0@.len() == n,
            forall|i: int| 0 <= i < n ==> r.0@[i] == S::up_spec(),
            r.wf(),
    {
        proof {
            S::lemma_poles();
        }
        let mut spins: Vec<S> = Vec::new();
        for i in 0..n
            invariant
                spins@.len() == i,
                forall|j: int| 0 <= j < i ==> spins@[j] == S::up_spec(),
        {
            spins.push(S::up());
        }
        State(spins)
    }

    /// A state of a given number of random spins.
    pub fn rand_with_size(rng: &mut Pcg64, n: usize) -> (r: Self)
        ensures
            r.0@.len() == n,
            r.wf(),
    {
        let mut spins: Vec<S> = Vec::new();
        for i in 0..n
            invariant
                spins@.len() == i,
                forall|j: int| 0 <= j < i ==> #[trigger] spins@[j].inv(),
        {
            spins.push(S::rand(rng));
        }
        State(spins)
    }

    /// The spins of the state.
    pub fn spins(&self) -> (r: &Vec<S>)
        ensures
            r == &self.0,
    {
        let State(items) = self;
        items
    }

    /// The spin at an index.
    pub fn at(&self, index: usize) -> (r: &S)
        requires
            index < self.0@.len(),
        ensures
            r == &self.0@[index as int],
    {
        &self.0[index]
    }

    /// Replace the spin at an index.
    pub fn set_at(&mut self, index: usize, spin: S)
        requires
            index < old(self).0@.len(),
        ensures
            final(self).0@ == old(self).0@.update(index as int, spin),
    {
        self.0.set(index, spin);
    }

    /// The number of spins.
    pub fn len(&self) -> (r: usize)
        ensures
            r == self.0@.len(),
    {
        self.0.len()
    }

    /// Whether the state holds no spins.
    pub fn is_empty(&self) -> (r: bool)
        ensures
            r == (self.0@.len() == 0),
    {
        self.0.len() == 0
    }

    /// The magnetization of the state: its spins summed into a field.
    pub fn magnetization(&self) -> (r: Field<S>)
        requires
            self.wf(),
            self.0@.len() <= MAX_SPINS,
        ensures
            r == magnetization_spec(self.0@),
    {
        let n = self.0.len();
        let mut px: i64 = 0;
        let mut py: i64 = 0;
        let mut pz: i64 = 0;
        for i in 0..n
            invariant
                self.wf(),
                n == self.0@.len() <= MAX_SPINS,
                px == sum_sx(self.0@.take(i as int)),
                py == sum_sy(self.0@.take(i as int)),
                pz == sum_sz(self.0@.take(i as int)),
        {
            proof {
                assert(self.0@.take(i + 1 as int).drop_last() == self.0@.take(i as int));
                assert(self.0@.take(i + 1 as int).last() == self.0@[i as int]);
                lemma_projection_sums_bounded(self.0@.take(i as int));
                lemma_projection_sums_bounded(self.0@.take(i + 1 as int));
                S::lemma_spin_bounds(&self.0@[i as int], &self.0@[i as int]);
                assert((MAX_SPINS as int) * (SCALE as int) < i64::MAX
                    && (i + 1) * (SCALE as int) <= (MAX_SPINS as int) * (SCALE as int)
                    && (i as int) * (SCALE as int) <= (MAX_SPINS as int) * (SCALE as int))
                    by (nonlinear_arith)
                    requires
                        0 <= i + 1 <= MAX_SPINS as int,
                ;
            }
            let s = &self.0[i];
            px = px + s.sx().units;
            py = py + s.sy().units;
            pz = pz + s.sz().units;
        }
        proof {
            assert(self.0@.take(n as int) == self.0@);
            lemma_projection_sums_bounded(self.0@);
            assert((MAX_SPINS as int) * (SCALE as int) < i64::MAX
                && (n as int) * (SCALE as int) <= (MAX_SPINS as int) * (SCALE as int))
                by (nonlinear_arith)
                requires
                    0 <= n as int <= MAX_SPINS as int,
            ;
        }
        S::from_projections(
            Fixed { units: px },
            Fixed { units: py },
            Fixed { units: pz },
        )
    }
}

/// An Ising spin dotted with itself gives one; dotted with its flip, minus
/// one.
pub proof fn lemma_ising_dot_self_and_flip(s: IsingSpin)
    ensures
        s.dot_spec(&s) == SCALE,
        s.dot_spec(&s.flip_spec()) == -(SCALE as int),
{
}

/// The magnetization of an all-up state has magnitude equal to the number of
/// spins: each spin contributes one unit along z and nothing else.
pub proof fn lemma_up_state_magnetization<S: Spin>(s: Seq<S>)
    requires
        s.len() <= MAX_SPINS,
        forall|i: int| 0 <= i < s.len() ==> s[i] == S::up_spec(),
    ensures
        magnetization_spec(s).magnitude.units == s.len() * SCALE,
        magnetization_spec(s).orientation.inv(),
{
    S::lemma_poles();
    lemma_pure_up_sums::<S>(s);
    assert(0 <= s.len() * SCALE <= (MAX_SPINS as int) * (SCALE as int)
        && (MAX_SPINS as int) * (SCALE as int) < i64::MAX
        && abs_int(s.len() * SCALE) == s.len() * SCALE)
        by (nonlinear_arith)
        requires 0 <= s.len() <= MAX_SPINS as int,
    ;
    S::lemma_proj_pure_z(sum_sz(s));
}

/// In an all-up state the x and y projection sums vanish and the z sum is
/// one unit per spin.
proof fn lemma_pure_up_sums<S: Spin>(s: Seq<S>)
    requires
        forall|i: int| 0 <= i < s.len() ==> s[i] == S::up_spec(),
    ensures
        sum_sx(s) == 0,
        sum_sy(s) == 0,
        sum_sz(s) == s.len() * SCALE,
    decreases s.len(),
{
    S::lemma_poles();
    if s.len() > 0 {
        lemma_pure_up_sums::<S>(s.drop_last());
        assert((s.len() - 1) * (SCALE as int) + SCALE == s.len() * SCALE)
            by (nonlinear_arith);
    } else {
        assert(s.len() * SCALE == 0) by (nonlinear_arith)
            requires s.len() == 0,
        ;
    }
}

} // verus!
