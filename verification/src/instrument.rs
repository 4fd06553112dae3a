//! Instruments monitor the simulation: they hook into the relaxation and
//! measurement phases, observe the state after every integrator sweep, and
//! accumulate or record what they saw. The machine calls every instrument in
//! list order on each hook.

use vstd::prelude::*;
use crate::accumulator::{Accumulator, binder_of, clamp64, sum_sq_of, variance_of,
    MAX_COUNT, MAX_SAMPLE};
use crate::energy::Hamiltonian;
use crate::error::{InstrumentError, InstrumentResult};
use crate::fixed::{Fixed, SCALE, abs_int, div_floor64, div_floor128,
    lemma_div_in_range};
use crate::state::{Spin, State, MAX_SPINS};
use crate::thermostat::{Thermostat, MAX_TEMPERATURE};

verus! {

/// Which lifecycle hook fired.
#[derive(PartialEq, Eq, Structural)]
pub enum HookKind {
    RelaxStart,
    RelaxEnd,
    MeasureStart,
    MeasureEnd,
    AfterStep,
}

/// One entry of an instrument's own call log: which hook reached it, and the
/// thermostat parameters it saw, for the hooks that carry a thermostat.
pub struct HookRecord {
    pub kind: HookKind,
    pub bath: Option<(int, int)>,
}

/// The thermostat parameters a hook carries: the temperature and the field
/// magnitude, in fixed-point units.
pub open spec fn bath_of<S: Spin>(t: Thermostat<S>) -> (int, int) {
    (t.temperature_spec().units as int, t.field_spec().magnitude.units as int)
}

/// An instrument hooks into the simulation at phase boundaries and after
/// every sweep. A failing hook aborts the simulation. Every hook call
/// appends to the instrument's own call log, so a caller's contract can only
/// promise a log it really produced by dispatching the hooks.
pub trait Instrument<S: Spin, H: Hamiltonian<S>>: Sized {
    /// Whether the instrument's internal records are consistent.
    spec fn inv(&self) -> bool;

    /// The log of hooks this instrument was notified of.
    spec fn hook_log(&self) -> Seq<HookRecord>;

    /// Called when a relaxation phase starts.
    fn on_relax_start(&mut self, t: &Thermostat<S>, h: &H, state: &State<S>)
        -> (r: InstrumentResult<()>)
        requires
            old(self).inv(),
            t.wf(),
            h.wf(),
            state.wf(),
            h.fits(state.0@.len() as int),
            state.0@.len() <= MAX_SPINS,
        ensures
            final(self).inv(),
            final(self).hook_log() == old(self).hook_log().push(
                HookRecord { kind: HookKind::RelaxStart, bath: Some(bath_of(*t)) }),
    ;

    /// Called when a relaxation phase ends.
    fn on_relax_end(&mut self) -> (r: InstrumentResult<()>)
        requires
            old(self).inv(),
        ensures
            final(self).inv(),
            final(self).hook_log() == old(self).hook_log().push(
                HookRecord { kind: HookKind::RelaxEnd, bath: None }),
    ;

    /// Called when a measurement phase starts.
    fn on_measure_start(&mut self, t: &Thermostat<S>, h: &H, state: &State<S>)
        -> (r: InstrumentResult<()>)
        requires
            old(self).inv(),
            t.wf(),
            h.wf(),
            state.wf(),
            h.fits(state.0@.len() as int),
            state.0@.len() <= MAX_SPINS,
        ensures
            final(self).inv(),
            final(self).hook_log() == old(self).hook_log().push(
                HookRecord { kind: HookKind::MeasureStart, bath: Some(bath_of(*t)) }),
    ;

    /// Called when a measurement phase ends.
    fn on_measure_end(&mut self) -> (r: InstrumentResult<()>)
        requires
            old(self).inv(),
        ensures
            final(self).inv(),
            final(self).hook_log() == old(self).hook_log().push(
                HookRecord { kind: HookKind::MeasureEnd, bath: None }),
    ;

    /// Called once after every integrator sweep.
    fn after_step(&mut self, t: &Thermostat<S>, h: &H, state: &State<S>)
        -> (r: InstrumentResult<()>)
        requires
            old(self).inv(),
            t.wf(),
            h.wf(),
            state.wf(),
            h.fits(state.0@.len() as int),
            state.0@.len() <= MAX_SPINS,
        ensures
            final(self).inv(),
            final(self).hook_log() == old(self).hook_log().push(
                HookRecord { kind: HookKind::AfterStep, bath: Some(bath_of(*t)) }),
    ;
}

/// The total energy of a state under a component, divided by the number of
/// sites, in fixed-point units.
pub open spec fn normalized_energy<S: Spin, H: Hamiltonian<S>>(
    t: &Thermostat<S>, h: &H, s: Seq<S>,
) -> int {
    h.total_spec(t, s) / (s.len() as int)
}

/// The magnetization magnitude of a state divided by the number of sites, in
/// fixed-point units.
pub open spec fn normalized_magnetization<S: Spin>(s: Seq<S>) -> int {
    crate::state::magnetization_spec(s).magnitude.units as int / (s.len() as int)
}

/// One emitted statistics line: the thermostat parameters, the measured
/// means, the susceptibilities, and the Binder cumulant.
#[derive(Clone, Copy, Debug, PartialEq, Eq, Structural)]
pub struct StatRecord {
    pub temperature: Fixed,
    pub field: Fixed,
    pub mean_energy: Fixed,
    pub energy_susceptibility: Fixed,
    pub mean_magnetization: Fixed,
    pub magnetization_susceptibility: Fixed,
    pub binder_cumulant: Fixed,
}

/// The energy susceptibility: the energy variance scaled by site count and
/// squared temperature, clamped into the fixed-point range.
pub open spec fn chi_energy(var: int, n: int, temp: int) -> int {
    clamp64(var * ((SCALE as int) * (SCALE as int)) / (n * (temp * temp)))
}

/// The magnetization susceptibility: the magnetization variance scaled by
/// site count and temperature, clamped into the fixed-point range.
pub open spec fn chi_magnetization(var: int, n: int, temp: int) -> int {
    clamp64(var * ((SCALE as int) * (SCALE as int)) / (n * temp))
}

/// The Binder cumulant of a window, or zero when its second moment vanishes
/// and the cumulant is undefined.
pub open spec fn binder_value(h: Seq<int>) -> int {
    if sum_sq_of(h) >= h.len() {
        binder_of(h)
    } else {
        0
    }
}

/// The record one measurement window emits: the captured thermostat
/// parameters, the means of both observation series, their susceptibilities,
/// and the magnetization's Binder cumulant.
pub open spec fn window_record(temperature: Fixed, field: Fixed, n: int,
    eh: Seq<int>, mh: Seq<int>) -> StatRecord
{
    StatRecord {
        temperature,
        field,
        mean_energy: Fixed { units: crate::accumulator::mean_of(eh) as i64 },
        energy_susceptibility: Fixed {
            units: chi_energy(
                variance_of(eh), n, temperature.units as int) as i64,
        },
        mean_magnetization: Fixed {
            units: crate::accumulator::mean_of(mh) as i64,
        },
        magnetization_susceptibility: Fixed {
            units: chi_magnetization(
                variance_of(mh), n, temperature.units as int) as i64,
        },
        binder_cumulant: Fixed { units: binder_value(mh) as i64 },
    }
}

/// Scale a variance into a susceptibility with a positive denominator.
fn scaled_susceptibility(var: Fixed, den: i128) -> (r: Fixed)
    requires
        den > 0,
        -((MAX_SAMPLE as int) * (MAX_SAMPLE as int)) <= var.units
            <= (MAX_SAMPLE as int) * (MAX_SAMPLE as int),
    ensures
        r.units == clamp64(
            (var.units as int) * ((SCALE as int) * (SCALE as int)) / (den as int)),
{
    proof {
        let c2 = (MAX_SAMPLE as int) * (MAX_SAMPLE as int);
        assert(-(c2 * ((SCALE as int) * (SCALE as int)))
            <= (var.units as int) * ((SCALE as int) * (SCALE as int))
            <= c2 * ((SCALE as int) * (SCALE as int))
            && c2 * ((SCALE as int) * (SCALE as int)) < i128::MAX)
            by (nonlinear_arith)
            requires
                -c2 <= var.units as int <= c2,
                c2 == (MAX_SAMPLE as int) * (MAX_SAMPLE as int),
                SCALE > 0,
        ;
    }
    let num: i128 = (var.units as i128) * ((SCALE as i128) * (SCALE as i128));
    let q = div_floor128(num, den);
    proof {
        crate::fixed::lemma_div_bounds(num as int, den as int);
    }
    let clamped: i64 = if q < i64::MIN as i128 {
        i64::MIN
    } else if q > i64::MAX as i128 {
        i64::MAX
    } else {
        q as i64
    };
    Fixed { units: clamped }
}

/// An instrument that accumulates normalized energy and magnetization during
/// measurement phases and emits one statistics record per phase.
pub struct StatSensor {
    energy_acc: Accumulator,
    magnetization_acc: Accumulator,
    captured_temperature: Option<Fixed>,
    captured_field: Option<Fixed>,
    n: Option<usize>,
    rows: Vec<StatRecord>,
    log: Ghost<Seq<HookRecord>>,
}

/// Whether two statistics sensors hold the same observations: everything but
/// the call log agrees.
pub open spec fn same_stat_readings(a: &StatSensor, b: &StatSensor) -> bool {
    &&& a.rows_spec() == b.rows_spec()
    &&& a.energy_history_spec() == b.energy_history_spec()
    &&& a.magnetization_history_spec() == b.magnetization_history_spec()
    &&& a.captured_temperature_spec() == b.captured_temperature_spec()
    &&& a.captured_field_spec() == b.captured_field_spec()
    &&& a.captured_size_spec() == b.captured_size_spec()
}

impl StatSensor {
    /// The statistics records emitted so far.
    pub closed spec fn rows_spec(&self) -> Seq<StatRecord> {
        self.rows@
    }

    /// The log of hooks this sensor was notified of.
    pub closed spec fn log_spec(&self) -> Seq<HookRecord> {
        self.log@
    }

    /// Whether a measurement phase is underway.
    pub closed spec fn measuring(&self) -> bool {
        self.captured_temperature is Some
    }

    /// The temperature captured when the running phase started.
    pub closed spec fn captured_temperature_spec(&self) -> Option<Fixed> {
        self.captured_temperature
    }

    /// The field magnitude captured when the running phase started.
    pub closed spec fn captured_field_spec(&self) -> Option<Fixed> {
        self.captured_field
    }

    /// The state size captured when the running phase started.
    pub closed spec fn captured_size_spec(&self) -> Option<usize> {
        self.n
    }

    /// The normalized energies accumulated in the running window.
    pub closed spec fn energy_history_spec(&self) -> Seq<int> {
        self.energy_acc.history_spec()
    }

    /// The normalized magnetization magnitudes accumulated in the running
    /// window.
    pub closed spec fn magnetization_history_spec(&self) -> Seq<int> {
        self.magnetization_acc.history_spec()
    }

    /// The accumulators stay consistent and the captures appear together.
    pub closed spec fn inv_spec(&self) -> bool {
        &&& self.energy_acc.wf()
        &&& self.magnetization_acc.wf()
        &&& self.energy_acc.count_spec() == self.magnetization_acc.count_spec()
        &&& (self.captured_temperature is Some) == (self.captured_field is Some)
        &&& (self.captured_temperature is Some) == (self.n is Some)
        &&& self.captured_temperature is Some
            ==> 1 <= self.captured_temperature.unwrap().units <= MAX_TEMPERATURE
        &&& self.n is Some ==> self.n.unwrap() <= MAX_SPINS
    }

    /// A new statistics sensor with no records.
    pub fn new() -> (r: StatSensor)
        ensures
            r.inv_spec(),
            r.rows_spec() == Seq::<StatRecord>::empty(),
            r.log_spec() == Seq::<HookRecord>::empty(),
            !r.measuring(),
    {
        StatSensor {
            energy_acc: Accumulator::new(),
            magnetization_acc: Accumulator::new(),
            captured_temperature: None,
            captured_field: None,
            n: None,
            rows: Vec::new(),
            log: Ghost(Seq::empty()),
        }
    }

    /// Close the running measurement window: when it measured anything on a
    /// non-empty state, emit exactly one record carrying the captured
    /// thermostat parameters and the window's means, susceptibilities and
    /// Binder cumulant; then clear the captures and the accumulators.
    pub fn finish_window(&mut self)
        requires
            old(self).inv_spec(),
        ensures
            final(self).inv_spec(),
            final(self).log_spec() == old(self).log_spec(),
            !final(self).measuring(),
            final(self).energy_history_spec() == Seq::<int>::empty(),
            final(self).magnetization_history_spec() == Seq::<int>::empty(),
            old(self).rows_spec().is_prefix_of(final(self).rows_spec()),
            final(self).rows_spec().len() <= old(self).rows_spec().len() + 1,
            (old(self).measuring() && old(self).energy_history_spec().len() >= 1
                && old(self).captured_size_spec().unwrap() >= 1)
                ==> final(self).rows_spec()
                    == old(self).rows_spec().push(window_record(
                        old(self).captured_temperature_spec().unwrap(),
                        old(self).captured_field_spec().unwrap(),
                        old(self).captured_size_spec().unwrap() as int,
                        old(self).energy_history_spec(),
                        old(self).magnetization_history_spec())),
    {
        proof {
            self.energy_acc.lemma_wf_facts();
            self.magnetization_acc.lemma_wf_facts();
        }
        match (self.captured_temperature, self.captured_field, self.n) {
            (Some(temperature), Some(field), Some(n)) => {
                if self.energy_acc.count() >= 1 && n >= 1 {
                    let mean_e = self.energy_acc.mean();
                    let var_e = self.energy_acc.variance();
                    let mean_m = self.magnetization_acc.mean();
                    let var_m = self.magnetization_acc.variance();
                    proof {
                        self.energy_acc.lemma_wf_facts();
                        self.magnetization_acc.lemma_wf_facts();
                        crate::accumulator::lemma_variance_range(
                            self.energy_acc.history_spec());
                        crate::accumulator::lemma_variance_range(
                            self.magnetization_acc.history_spec());
                        let tt = temperature.units as int;
                        assert(0 < tt * tt <= (MAX_TEMPERATURE as int)
                            * (MAX_TEMPERATURE as int)
                            && 0 < (n as int) * (tt * tt)
                                <= (MAX_SPINS as int) * ((MAX_TEMPERATURE as int)
                                    * (MAX_TEMPERATURE as int))
                            && (MAX_SPINS as int) * ((MAX_TEMPERATURE as int)
                                * (MAX_TEMPERATURE as int)) < i128::MAX
                            && 0 < (n as int) * tt
                                <= (MAX_SPINS as int) * (MAX_TEMPERATURE as int)
                            && (MAX_SPINS as int) * (MAX_TEMPERATURE as int)
                                < i128::MAX)
                            by (nonlinear_arith)
                            requires
                                1 <= tt <= MAX_TEMPERATURE as int,
                                1 <= n as int <= MAX_SPINS as int,
                        ;
                    }
                    let tt: i128 = (temperature.units as i128)
                        * (temperature.units as i128);
                    let chi_e = scaled_susceptibility(var_e, (n as i128) * tt);
                    let chi_m = scaled_susceptibility(
                        var_m, (n as i128) * (temperature.units as i128));
                    let binder = if self.magnetization_acc.second_moment_at_least_count() {
                        self.magnetization_acc.binder_cumulant()
                    } else {
                        Fixed { units: 0 }
                    };
                    let ghost rows_before = self.rows@;
                    let record = StatRecord {
                        temperature,
                        field,
                        mean_energy: mean_e,
                        energy_susceptibility: chi_e,
                        mean_magnetization: mean_m,
                        magnetization_susceptibility: chi_m,
                        binder_cumulant: binder,
                    };
                    proof {
                        let eh = self.energy_acc.history_spec();
                        let mh = self.magnetization_acc.history_spec();
                        let nn = n as int;
                        let tt = temperature.units as int;
                        assert(((n as i128) * ((temperature.units as i128)
                            * (temperature.units as i128))) as int
                            == nn * (tt * tt));
                        assert(record.energy_susceptibility.units as int
                            == chi_energy(variance_of(eh), nn, tt));
                        assert(record.magnetization_susceptibility.units as int
                            == chi_magnetization(variance_of(mh), nn, tt));
                        assert(record.binder_cumulant.units as int
                            == binder_value(mh));
                        assert(record == window_record(
                            temperature, field, nn, eh, mh));
                    }
                    self.rows.push(record);
                }
                self.captured_temperature = None;
                self.captured_field = None;
                self.n = None;
                self.energy_acc = Accumulator::new();
                self.magnetization_acc = Accumulator::new();
            },
            _ => {
                self.captured_temperature = None;
                self.captured_field = None;
                self.n = None;
                self.energy_acc = Accumulator::new();
                self.magnetization_acc = Accumulator::new();
            },
        }
    }

    /// The statistics records emitted so far.
    pub fn records(&self) -> (r: &Vec<StatRecord>)
        ensures
            r@ == self.rows_spec(),
    {
        &self.rows
    }
}

impl<S: Spin, H: Hamiltonian<S>> Instrument<S, H> for StatSensor {
    open spec fn inv(&self) -> bool {
        self.inv_spec()
    }

    open spec fn hook_log(&self) -> Seq<HookRecord> {
        self.log_spec()
    }

    /// The statistics sensor ignores relaxation phases.
    fn on_relax_start(&mut self, t: &Thermostat<S>, h: &H, state: &State<S>)
        -> (r: InstrumentResult<()>)
        ensures
            r is Ok,
            same_stat_readings(final(self), old(self)),
    {
        proof {
            self.log@ = self.log@.push(
                HookRecord { kind: HookKind::RelaxStart, bath: Some(bath_of(*t)) });
        }
        Ok(())
    }

    fn on_relax_end(&mut self) -> (r: InstrumentResult<()>)
    {
        proof {
            self.log@ = self.log@.push(
                HookRecord { kind: HookKind::RelaxEnd, bath: None });
        }
        Ok(())
    }

    /// Capture the thermostat and the state size, so that the emitted record
    /// reports the window it was measured under.
    fn on_measure_start(&mut self, t: &Thermostat<S>, h: &H, state: &State<S>)
        -> (r: InstrumentResult<()>)
        ensures
            r is Ok,
            final(self).measuring(),
            final(self).captured_temperature_spec()
                == Some(t.temperature_spec()),
            final(self).captured_field_spec()
                == Some(t.field_spec().magnitude),
            final(self).captured_size_spec() is Some,
            final(self).captured_size_spec().unwrap() == state.0@.len(),
            final(self).rows_spec() == old(self).rows_spec(),
            final(self).energy_history_spec() == old(self).energy_history_spec(),
            final(self).magnetization_history_spec()
                == old(self).magnetization_history_spec(),
    {
        proof {
            self.log@ = self.log@.push(
                HookRecord { kind: HookKind::MeasureStart, bath: Some(bath_of(*t)) });
        }
        self.captured_temperature = Some(t.temperature());
        self.captured_field = Some(t.field().magnitude);
        self.n = Some(state.len());
        Ok(())
    }

    /// Emit one record from the accumulated window, when the window measured
    /// anything, and reset for the next. The body is exactly one call of
    /// `finish_window`, whose public contract pins the emitted record; the
    /// hook itself cannot restate it, as its signature names no spin type
    /// for the clauses to bind to.
    fn on_measure_end(&mut self) -> InstrumentResult<()> {
        proof {
            self.log@ = self.log@.push(
                HookRecord { kind: HookKind::MeasureEnd, bath: None });
        }
        self.finish_window();
        Ok(())
    }

    /// During a measurement phase, accumulate the normalized total energy
    /// and the normalized magnetization magnitude; fail once the window is
    /// full.
    fn after_step(&mut self, t: &Thermostat<S>, h: &H, state: &State<S>)
        -> (r: InstrumentResult<()>)
        ensures
            final(self).rows_spec() == old(self).rows_spec(),
            (!old(self).measuring() || state.0@.len() == 0)
                ==> same_stat_readings(final(self), old(self)) && r is Ok,
            (old(self).measuring() && state.0@.len() >= 1)
                ==> (r is Ok <==> (old(self).energy_history_spec().len()
                    < MAX_COUNT
                    && old(self).magnetization_history_spec().len() < MAX_COUNT)),
            (old(self).measuring() && state.0@.len() >= 1 && r is Ok)
                ==> final(self).energy_history_spec()
                    == old(self).energy_history_spec().push(
                        normalized_energy(t, h, state.0@))
                && final(self).magnetization_history_spec()
                    == old(self).magnetization_history_spec().push(
                        normalized_magnetization(state.0@)),
    {
        proof {
            self.log@ = self.log@.push(
                HookRecord { kind: HookKind::AfterStep, bath: Some(bath_of(*t)) });
            self.energy_acc.lemma_wf_facts();
            self.magnetization_acc.lemma_wf_facts();
        }
        match self.captured_temperature {
            None => Ok(()),
            Some(_) => {
                let n = state.len();
                if n == 0 {
                    return Ok(());
                }
                if self.energy_acc.count() >= MAX_COUNT
                    || self.magnetization_acc.count() >= MAX_COUNT {
                    return Err(InstrumentError::IoFailure);
                }
                let total = h.total_energy(t, state);
                proof {
                    h.lemma_total_bounds(t, state.0@);
                    let b = h.site_bound();
                    let nn = n as int;
                    assert((-(nn)) * b == -(nn * b) && nn * b >= 0
                        && b * nn == nn * b
                        && nn * b <= (MAX_SPINS as int)
                            * (crate::energy::MAX_SITE_ENERGY as int)
                        && (MAX_SPINS as int)
                            * (crate::energy::MAX_SITE_ENERGY as int) < i64::MAX)
                        by (nonlinear_arith)
                        requires
                            0 <= nn <= MAX_SPINS as int,
                            0 <= b <= crate::energy::MAX_SITE_ENERGY as int,
                    ;
                    lemma_div_in_range(total.units as int, nn, b);
                }
                let energy_norm = div_floor64(total.units, n as i64);
                let mag = state.magnetization();
                proof {
                    lemma_magnitude_normalized::<S>(state.0@, n as int);
                    let sc = SCALE as int;
                    assert((3 * sc) * (n as int) == (n as int) * (3 * sc)
                        && -((3 * sc) * (n as int)) <= 0) by (nonlinear_arith)
                        requires n as int >= 1, sc >= 1,
                    ;
                    lemma_div_in_range(
                        mag.magnitude.units as int, n as int, 3 * sc);
                }
                let mag_norm = div_floor64(mag.magnitude.units, n as i64);
                self.energy_acc.collect(Fixed { units: energy_norm });
                self.magnetization_acc.collect(Fixed { units: mag_norm });
                Ok(())
            },
        }
    }
}

/// The normalized magnetization magnitude of a well-formed state stays
/// within three units: each spin contributes at most one unit per axis.
proof fn lemma_magnitude_normalized<S: Spin>(s: Seq<S>, n: int)
    requires
        crate::state::all_inv(s),
        n == s.len(),
        1 <= n <= MAX_SPINS,
    ensures
        0 <= crate::state::magnetization_spec(s).magnitude.units
            <= n * (3 * (SCALE as int)),
{
    crate::state::lemma_projection_sums_bounded(s);
    S::lemma_proj_magnitude(
        crate::state::sum_sx(s), crate::state::sum_sy(s),
        crate::state::sum_sz(s));
    let sc = SCALE as int;
    assert((MAX_SPINS as int) * sc < i64::MAX
        && abs_int(crate::state::sum_sx(s)) + abs_int(crate::state::sum_sy(s))
            + abs_int(crate::state::sum_sz(s)) <= n * (3 * sc))
        by (nonlinear_arith)
        requires
            1 <= n <= MAX_SPINS as int,
            sc == SCALE as int,
            -(n * sc) <= crate::state::sum_sx(s) <= n * sc,
            -(n * sc) <= crate::state::sum_sy(s) <= n * sc,
            -(n * sc) <= crate::state::sum_sz(s) <= n * sc,
    ;
}

/// One recorded observable row: the phase, the stage and step counters, the
/// thermostat parameters, and the measured energy and magnetization.
#[derive(Clone, Copy, Debug, PartialEq, Eq, Structural)]
pub struct ObservableRow {
    pub relax: bool,
    pub stage: u64,
    pub step: u64,
    pub temperature: Fixed,
    pub field: Fixed,
    pub energy: Fixed,
    pub magnetization: Fixed,
}

/// An instrument that records every per-step energy and magnetization pair,
/// tagged with its phase, stage and step, during both phases.
pub struct ObservableSensor {
    captured_temperature: Option<Fixed>,
    captured_field: Option<Fixed>,
    relax: bool,
    stage: u64,
    step: u64,
    rows: Vec<ObservableRow>,
    log: Ghost<Seq<HookRecord>>,
}

impl ObservableSensor {
    /// The rows recorded so far.
    pub closed spec fn rows_spec(&self) -> Seq<ObservableRow> {
        self.rows@
    }

    /// The log of hooks this sensor was notified of.
    pub closed spec fn log_spec(&self) -> Seq<HookRecord> {
        self.log@
    }

    /// Whether a phase is underway.
    pub closed spec fn active(&self) -> bool {
        self.captured_temperature is Some
    }

    /// The stage counter: phases are numbered in order of hook calls.
    pub closed spec fn stage_spec(&self) -> int {
        self.stage as int
    }

    /// The step counter within the running phase.
    pub closed spec fn step_spec(&self) -> int {
        self.step as int
    }

    /// Whether the running phase is a relaxation.
    pub closed spec fn relax_spec(&self) -> bool {
        self.relax
    }

    /// The temperature captured when the running phase started.
    pub closed spec fn captured_temperature_spec(&self) -> Option<Fixed> {
        self.captured_temperature
    }

    /// The field magnitude captured when the running phase started.
    pub closed spec fn captured_field_spec(&self) -> Option<Fixed> {
        self.captured_field
    }

    /// The captures appear together.
    pub closed spec fn inv_spec(&self) -> bool {
        (self.captured_temperature is Some) == (self.captured_field is Some)
    }

    /// A new observable sensor with no rows.
    pub fn new() -> (r: ObservableSensor)
        ensures
            r.inv_spec(),
            r.rows_spec() == Seq::<ObservableRow>::empty(),
            r.log_spec() == Seq::<HookRecord>::empty(),
            !r.active(),
            r.stage_spec() == 0,
    {
        ObservableSensor {
            captured_temperature: None,
            captured_field: None,
            relax: false,
            stage: 0,
            step: 0,
            rows: Vec::new(),
            log: Ghost(Seq::empty()),
        }
    }

    /// The rows recorded so far.
    pub fn rows(&self) -> (r: &Vec<ObservableRow>)
        ensures
            r@ == self.rows_spec(),
    {
        &self.rows
    }

    fn begin_phase(&mut self, relax: bool, temperature: Fixed, field: Fixed)
        ensures
            final(self).inv_spec(),
            final(self).log_spec() == old(self).log_spec(),
            final(self).rows_spec() == old(self).rows_spec(),
            final(self).active(),
            final(self).stage_spec() == old(self).stage_spec(),
            final(self).step_spec() == 0,
            final(self).relax_spec() == relax,
            final(self).captured_temperature_spec() == Some(temperature),
            final(self).captured_field_spec() == Some(field),
    {
        self.captured_temperature = Some(temperature);
        self.captured_field = Some(field);
        self.relax = relax;
        self.step = 0;
    }

    fn end_phase(&mut self)
        ensures
            final(self).inv_spec(),
            final(self).log_spec() == old(self).log_spec(),
            final(self).rows_spec() == old(self).rows_spec(),
            !final(self).active(),
            final(self).stage_spec() == if old(self).stage_spec() < u64::MAX as int {
                old(self).stage_spec() + 1
            } else {
                old(self).stage_spec()
            },
    {
        self.captured_temperature = None;
        self.captured_field = None;
        self.step = 0;
        if self.stage < u64::MAX {
            self.stage = self.stage + 1;
        }
    }
}

impl<S: Spin, H: Hamiltonian<S>> Instrument<S, H> for ObservableSensor {
    open spec fn inv(&self) -> bool {
        self.inv_spec()
    }

    open spec fn hook_log(&self) -> Seq<HookRecord> {
        self.log_spec()
    }

    fn on_relax_start(&mut self, t: &Thermostat<S>, h: &H, state: &State<S>)
        -> (r: InstrumentResult<()>)
        ensures
            r is Ok,
            final(self).rows_spec() == old(self).rows_spec(),
            final(self).active(),
            final(self).relax_spec(),
            final(self).stage_spec() == old(self).stage_spec(),
            final(self).step_spec() == 0,
            final(self).captured_temperature_spec()
                == Some(t.temperature_spec()),
            final(self).captured_field_spec() == Some(t.field_spec().magnitude),
    {
        proof {
            self.log@ = self.log@.push(
                HookRecord { kind: HookKind::RelaxStart, bath: Some(bath_of(*t)) });
        }
        self.begin_phase(true, t.temperature(), t.field().magnitude);
        Ok(())
    }

    fn on_relax_end(&mut self) -> (r: InstrumentResult<()>)
    {
        proof {
            self.log@ = self.log@.push(
                HookRecord { kind: HookKind::RelaxEnd, bath: None });
        }
        self.end_phase();
        Ok(())
    }

    fn on_measure_start(&mut self, t: &Thermostat<S>, h: &H, state: &State<S>)
        -> (r: InstrumentResult<()>)
        ensures
            r is Ok,
            final(self).rows_spec() == old(self).rows_spec(),
            final(self).active(),
            !final(self).relax_spec(),
            final(self).stage_spec() == old(self).stage_spec(),
            final(self).step_spec() == 0,
            final(self).captured_temperature_spec()
                == Some(t.temperature_spec()),
            final(self).captured_field_spec() == Some(t.field_spec().magnitude),
    {
        proof {
            self.log@ = self.log@.push(
                HookRecord { kind: HookKind::MeasureStart, bath: Some(bath_of(*t)) });
        }
        self.begin_phase(false, t.temperature(), t.field().magnitude);
        Ok(())
    }

    fn on_measure_end(&mut self) -> (r: InstrumentResult<()>)
    {
        proof {
            self.log@ = self.log@.push(
                HookRecord { kind: HookKind::MeasureEnd, bath: None });
        }
        self.end_phase();
        Ok(())
    }

    /// Record one row with the raw total energy and the raw magnetization
    /// magnitude of the state after the sweep.
    fn after_step(&mut self, t: &Thermostat<S>, h: &H, state: &State<S>)
        -> (r: InstrumentResult<()>)
        ensures
            r is Ok,
            old(self).active() ==> final(self).rows_spec()
                == old(self).rows_spec().push(ObservableRow {
                    relax: old(self).relax_spec(),
                    stage: old(self).stage_spec() as u64,
                    step: old(self).step_spec() as u64,
                    temperature: old(self).captured_temperature_spec().unwrap(),
                    field: old(self).captured_field_spec().unwrap(),
                    energy: (Fixed { units: h.total_spec(t, state.0@) as i64 }),
                    magnetization: crate::state::magnetization_spec(
                        state.0@).magnitude,
                }),
            !old(self).active() ==> final(self).rows_spec()
                == old(self).rows_spec()
                && final(self).stage_spec() == old(self).stage_spec()
                && final(self).step_spec() == old(self).step_spec()
                && !final(self).active(),
    {
        proof {
            self.log@ = self.log@.push(
                HookRecord { kind: HookKind::AfterStep, bath: Some(bath_of(*t)) });
        }
        match (self.captured_temperature, self.captured_field) {
            (Some(temperature), Some(field)) => {
                let energy = h.total_energy(t, state);
                proof {
                    crate::state::lemma_projection_sums_bounded(state.0@);
                }
                let mag = state.magnetization();
                self.rows.push(ObservableRow {
                    relax: self.relax,
                    stage: self.stage,
                    step: self.step,
                    temperature,
                    field,
                    energy,
                    magnetization: mag.magnitude,
                });
                if self.step < u64::MAX {
                    self.step = self.step + 1;
                }
                Ok(())
            },
            _ => Ok(()),
        }
    }
}

/// One recorded spin row: the phase, stage and step, the thermostat
/// parameters, the site number and the spin's three projections.
#[derive(Clone, Copy, Debug, PartialEq, Eq, Structural)]
pub struct StateRow {
    pub relax: bool,
    pub stage: u64,
    pub step: u64,
    pub temperature: Fixed,
    pub field: Fixed,
    pub id: u64,
    pub sx: Fixed,
    pub sy: Fixed,
    pub sz: Fixed,
}

/// The rows of one full snapshot of a state: one row per spin, carrying the
/// phase tags and the spin's projections.
pub open spec fn snapshot_of<S: Spin>(
    relax: bool, stage: u64, step: u64, temperature: Fixed, field: Fixed,
    s: Seq<S>,
) -> Seq<StateRow> {
    Seq::new(s.len(), |i: int| StateRow {
        relax,
        stage,
        step,
        temperature,
        field,
        id: i as u64,
        sx: Fixed { units: s[i].sx_spec() as i64 },
        sy: Fixed { units: s[i].sy_spec() as i64 },
        sz: Fixed { units: s[i].sz_spec() as i64 },
    })
}

/// An instrument that records a full state snapshot, one row per spin, every
/// given number of steps during both phases.
pub struct StateSensor {
    frequency: usize,
    captured_temperature: Option<Fixed>,
    captured_field: Option<Fixed>,
    relax: bool,
    step: u64,
    stage: u64,
    rows: Vec<StateRow>,
    log: Ghost<Seq<HookRecord>>,
}

impl StateSensor {
    /// The rows recorded so far.
    pub closed spec fn rows_spec(&self) -> Seq<StateRow> {
        self.rows@
    }

    /// The log of hooks this sensor was notified of.
    pub closed spec fn log_spec(&self) -> Seq<HookRecord> {
        self.log@
    }

    /// Whether a phase is underway.
    pub closed spec fn active(&self) -> bool {
        self.captured_temperature is Some
    }

    /// Whether the next per-sweep hook takes a snapshot.
    pub closed spec fn due_spec(&self) -> bool {
        if self.frequency == 0 {
            self.step == 0
        } else {
            self.step as int % (self.frequency as int) == 0
        }
    }

    /// Whether the running phase is a relaxation.
    pub closed spec fn relax_spec(&self) -> bool {
        self.relax
    }

    /// The stage counter.
    pub closed spec fn stage_spec(&self) -> u64 {
        self.stage
    }

    /// The step counter within the running phase.
    pub closed spec fn step_spec(&self) -> u64 {
        self.step
    }

    /// The thermostat parameters captured when the running phase started.
    pub closed spec fn captured_spec(&self) -> Option<(Fixed, Fixed)> {
        match (self.captured_temperature, self.captured_field) {
            (Some(t), Some(f)) => Some((t, f)),
            _ => None,
        }
    }

    /// The captures appear together.
    pub closed spec fn inv_spec(&self) -> bool {
        (self.captured_temperature is Some) == (self.captured_field is Some)
    }

    /// A new state sensor that snapshots every `frequency` steps.
    pub fn new(frequency: usize) -> (r: StateSensor)
        ensures
            r.inv_spec(),
            r.rows_spec() == Seq::<StateRow>::empty(),
            r.log_spec() == Seq::<HookRecord>::empty(),
            !r.active(),
    {
        StateSensor {
            frequency,
            captured_temperature: None,
            captured_field: None,
            relax: false,
            step: 0,
            stage: 0,
            rows: Vec::new(),
            log: Ghost(Seq::empty()),
        }
    }

    /// The rows recorded so far.
    pub fn rows(&self) -> (r: &Vec<StateRow>)
        ensures
            r@ == self.rows_spec(),
    {
        &self.rows
    }
}

impl<S: Spin, H: Hamiltonian<S>> Instrument<S, H> for StateSensor {
    open spec fn inv(&self) -> bool {
        self.inv_spec()
    }

    open spec fn hook_log(&self) -> Seq<HookRecord> {
        self.log_spec()
    }

    fn on_relax_start(&mut self, t: &Thermostat<S>, h: &H, state: &State<S>)
        -> (r: InstrumentResult<()>)
        ensures
            r is Ok,
            final(self).rows_spec() == old(self).rows_spec(),
            final(self).active(),
            final(self).relax_spec(),
            final(self).stage_spec() == old(self).stage_spec(),
            final(self).step_spec() == old(self).step_spec(),
    {
        proof {
            self.log@ = self.log@.push(
                HookRecord { kind: HookKind::RelaxStart, bath: Some(bath_of(*t)) });
        }
        self.captured_temperature = Some(t.temperature());
        self.captured_field = Some(t.field().magnitude);
        self.relax = true;
        Ok(())
    }

    fn on_relax_end(&mut self) -> (r: InstrumentResult<()>)
    {
        proof {
            self.log@ = self.log@.push(
                HookRecord { kind: HookKind::RelaxEnd, bath: None });
        }
        self.captured_temperature = None;
        self.captured_field = None;
        self.step = 0;
        if self.stage < u64::MAX {
            self.stage = self.stage + 1;
        }
        Ok(())
    }

    fn on_measure_start(&mut self, t: &Thermostat<S>, h: &H, state: &State<S>)
        -> (r: InstrumentResult<()>)
        ensures
            r is Ok,
            final(self).rows_spec() == old(self).rows_spec(),
            final(self).active(),
            !final(self).relax_spec(),
            final(self).stage_spec() == old(self).stage_spec(),
            final(self).step_spec() == old(self).step_spec(),
    {
        proof {
            self.log@ = self.log@.push(
                HookRecord { kind: HookKind::MeasureStart, bath: Some(bath_of(*t)) });
        }
        self.captured_temperature = Some(t.temperature());
        self.captured_field = Some(t.field().magnitude);
        self.relax = false;
        Ok(())
    }

    fn on_measure_end(&mut self) -> (r: InstrumentResult<()>)
    {
        proof {
            self.log@ = self.log@.push(
                HookRecord { kind: HookKind::MeasureEnd, bath: None });
        }
        self.captured_temperature = None;
        self.captured_field = None;
        self.step = 0;
        if self.stage < u64::MAX {
            self.stage = self.stage + 1;
        }
        Ok(())
    }

    /// Every `frequency` steps, record one row per spin with its
    /// projections.
    fn after_step(&mut self, t: &Thermostat<S>, h: &H, state: &State<S>)
        -> (r: InstrumentResult<()>)
        ensures
            r is Ok,
            !old(self).active() ==> final(self).rows_spec()
                == old(self).rows_spec()
                && !final(self).active()
                && final(self).stage_spec() == old(self).stage_spec()
                && final(self).step_spec() == old(self).step_spec(),
            (old(self).active() && old(self).due_spec())
                ==> final(self).rows_spec() == old(self).rows_spec()
                    + snapshot_of(
                        old(self).relax_spec(),
                        old(self).stage_spec(),
                        old(self).step_spec(),
                        old(self).captured_spec().unwrap().0,
                        old(self).captured_spec().unwrap().1,
                        state.0@),
            (old(self).active() && !old(self).due_spec())
                ==> final(self).rows_spec() == old(self).rows_spec(),
            old(self).active() ==> final(self).stage_spec()
                == old(self).stage_spec()
                && final(self).step_spec() == (if old(self).step_spec()
                    < u64::MAX {
                    (old(self).step_spec() + 1) as u64
                } else {
                    old(self).step_spec()
                }),
    {
        proof {
            self.log@ = self.log@.push(
                HookRecord { kind: HookKind::AfterStep, bath: Some(bath_of(*t)) });
        }
        match (self.captured_temperature, self.captured_field) {
            (Some(temperature), Some(field)) => {
                let due = if self.frequency == 0 {
                    self.step == 0
                } else {
                    self.step % (self.frequency as u64) == 0
                };
                if due {
                    let n = state.len();
                    let ghost log1 = self.log@;
                    let ghost rows0 = self.rows@;
                    let ghost block = snapshot_of(
                        self.relax, self.stage, self.step,
                        self.captured_temperature.unwrap(),
                        self.captured_field.unwrap(), state.0@);
                    let mut i: usize = 0;
                    while i < n
                        invariant
                            self.inv_spec(),
                            self.relax == old(self).relax_spec(),
                            self.stage == old(self).stage_spec(),
                            self.step == old(self).step_spec(),
                            self.captured_temperature
                                == old(self).captured_temperature,
                            self.captured_field == old(self).captured_field,
                            self.captured_temperature == Some(temperature),
                            self.captured_field == Some(field),
                            self.frequency == old(self).frequency,
                            self.log@ == log1,
                            state.wf(),
                            n == state.0@.len(),
                            0 <= i <= n,
                            block == snapshot_of(
                                self.relax, self.stage, self.step,
                                self.captured_temperature.unwrap(),
                                self.captured_field.unwrap(), state.0@),
                            self.rows@ == rows0 + block.take(i as int),
                        decreases n - i,
                    {
                        proof {
                            assert(state.0@[i as int].inv());
                            S::lemma_spin_bounds(
                                &state.0@[i as int], &state.0@[i as int]);
                        }
                        let s = state.at(i);
                        let row = StateRow {
                            relax: self.relax,
                            stage: self.stage,
                            step: self.step,
                            temperature,
                            field,
                            id: i as u64,
                            sx: s.sx(),
                            sy: s.sy(),
                            sz: s.sz(),
                        };
                        proof {
                            assert(row.sx == block[i as int].sx);
                            assert(row.sy == block[i as int].sy);
                            assert(row.sz == block[i as int].sz);
                            assert(row == block[i as int]);
                        }
                        self.rows.push(row);
                        proof {
                            assert(self.rows@ =~= rows0 + block.take(i + 1 as int));
                        }
                        i = i + 1;
                    }
                    proof {
                        assert(block.take(n as int) =~= block);
                    }
                }
                if self.step < u64::MAX {
                    self.step = self.step + 1;
                }
                Ok(())
            },
            _ => Ok(()),
        }
    }
}

/// Any of the engine's own instruments, so a machine can hold a mixed list
/// of them.
pub enum SensorKind {
    /// A statistics sensor.
    Stat(StatSensor),
    /// An observable recorder.
    Observables(ObservableSensor),
    /// A state snapshotter.
    Snapshot(StateSensor),
}

impl SensorKind {
    /// Whether the sensor's internal records are consistent, whatever its
    /// kind.
    pub open spec fn inv_sensor(&self) -> bool {
        match self {
            SensorKind::Stat(s) => s.inv_spec(),
            SensorKind::Observables(s) => s.inv_spec(),
            SensorKind::Snapshot(s) => s.inv_spec(),
        }
    }

    /// The log of hooks this sensor was notified of, whatever its kind.
    pub open spec fn log_sensor(&self) -> Seq<HookRecord> {
        match self {
            SensorKind::Stat(s) => s.log_spec(),
            SensorKind::Observables(s) => s.log_spec(),
            SensorKind::Snapshot(s) => s.log_spec(),
        }
    }

    /// The statistics records of a statistics sensor, and nothing for the
    /// other kinds.
    pub fn stat_records(&self) -> (r: Option<&Vec<StatRecord>>)
        ensures
            self is Stat <==> r is Some,
    {
        match self {
            SensorKind::Stat(s) => Some(s.records()),
            _ => None,
        }
    }

    /// The rows of an observable recorder, and nothing for the other kinds.
    pub fn observable_rows(&self) -> (r: Option<&Vec<ObservableRow>>)
        ensures
            self is Observables <==> r is Some,
    {
        match self {
            SensorKind::Observables(s) => Some(s.rows()),
            _ => None,
        }
    }

    /// The rows of a state snapshotter, and nothing for the other kinds.
    pub fn snapshot_rows(&self) -> (r: Option<&Vec<StateRow>>)
        ensures
            self is Snapshot <==> r is Some,
    {
        match self {
            SensorKind::Snapshot(s) => Some(s.rows()),
            _ => None,
        }
    }
}

impl<S: Spin, H: Hamiltonian<S>> Instrument<S, H> for SensorKind {
    open spec fn inv(&self) -> bool {
        self.inv_sensor()
    }

    open spec fn hook_log(&self) -> Seq<HookRecord> {
        self.log_sensor()
    }

    fn on_relax_start(&mut self, t: &Thermostat<S>, h: &H, state: &State<S>)
        -> InstrumentResult<()> {
        match self {
            SensorKind::Stat(s) => {
                <StatSensor as Instrument<S, H>>::on_relax_start(s, t, h, state)
            },
            SensorKind::Observables(s) => {
                <ObservableSensor as Instrument<S, H>>::on_relax_start(
                    s, t, h, state)
            },
            SensorKind::Snapshot(s) => {
                <StateSensor as Instrument<S, H>>::on_relax_start(s, t, h, state)
            },
        }
    }

    fn on_relax_end(&mut self) -> InstrumentResult<()> {
        match self {
            SensorKind::Stat(s) => {
                <StatSensor as Instrument<S, H>>::on_relax_end(s)
            },
            SensorKind::Observables(s) => {
                <ObservableSensor as Instrument<S, H>>::on_relax_end(s)
            },
            SensorKind::Snapshot(s) => {
                <StateSensor as Instrument<S, H>>::on_relax_end(s)
            },
        }
    }

    fn on_measure_start(&mut self, t: &Thermostat<S>, h: &H, state: &State<S>)
        -> InstrumentResult<()> {
        match self {
            SensorKind::Stat(s) => {
                <StatSensor as Instrument<S, H>>::on_measure_start(s, t, h, state)
            },
            SensorKind::Observables(s) => {
                <ObservableSensor as Instrument<S, H>>::on_measure_start(
                    s, t, h, state)
            },
            SensorKind::Snapshot(s) => {
                <StateSensor as Instrument<S, H>>::on_measure_start(
                    s, t, h, state)
            },
        }
    }

    fn on_measure_end(&mut self) -> InstrumentResult<()> {
        match self {
            SensorKind::Stat(s) => {
                <StatSensor as Instrument<S, H>>::on_measure_end(s)
            },
            SensorKind::Observables(s) => {
                <ObservableSensor as Instrument<S, H>>::on_measure_end(s)
            },
            SensorKind::Snapshot(s) => {
                <StateSensor as Instrument<S, H>>::on_measure_end(s)
            },
        }
    }

    fn after_step(&mut self, t: &Thermostat<S>, h: &H, state: &State<S>)
        -> InstrumentResult<()> {
        match self {
            SensorKind::Stat(s) => {
                <StatSensor as Instrument<S, H>>::after_step(s, t, h, state)
            },
            SensorKind::Observables(s) => {
                <ObservableSensor as Instrument<S, H>>::after_step(s, t, h, state)
            },
            SensorKind::Snapshot(s) => {
                <StateSensor as Instrument<S, H>>::after_step(s, t, h, state)
            },
        }
    }
}

} // verus!
