//! Programs drive a machine through sequences of thermostat changes,
//! relaxation phases and measurement phases. Each program validates its
//! parameters before touching the machine and fails with the specific
//! misconfiguration it found.

use vstd::prelude::*;
use rand_pcg::Pcg64;
use crate::energy::Hamiltonian;
use crate::error::{ProgramError, ProgramResult};
use crate::fixed::{abs_int, Fixed, div_floor64};
use crate::integrator::Integrator;
use crate::instrument::{HookKind, HookRecord, Instrument};
use crate::machine::{hook_all, phase_records, phase_trace, sweeps_trace,
    Machine};
use crate::state::Spin;
use crate::thermostat::{MAX_FIELD, MAX_TEMPERATURE};

verus! {

/// The log entries of one stage: a relaxation phase followed by a
/// measurement phase.
pub open spec fn stage_trace(k: int, relax: int, steps: int)
    -> Seq<crate::machine::HookEvent>
{
    phase_trace(k, relax, HookKind::RelaxStart, HookKind::RelaxEnd)
        + phase_trace(k, steps, HookKind::MeasureStart, HookKind::MeasureEnd)
}

/// The log entries of `m` consecutive stages.
pub open spec fn stages_trace(k: int, relax: int, steps: int, m: int)
    -> Seq<crate::machine::HookEvent>
    decreases m,
{
    if m <= 0 {
        Seq::empty()
    } else {
        stages_trace(k, relax, steps, m - 1) + stage_trace(k, relax, steps)
    }
}

/// The call records one instrument receives over one stage: a relaxation
/// phase followed by a measurement phase, both under the same thermostat
/// parameters.
pub open spec fn stage_records(relax: int, steps: int, bath: (int, int))
    -> Seq<HookRecord>
{
    phase_records(relax, HookKind::RelaxStart, HookKind::RelaxEnd, bath)
        + phase_records(steps, HookKind::MeasureStart, HookKind::MeasureEnd, bath)
}

/// The call records one instrument receives over a cool-down: one stage per
/// temperature, from the maximum downward in rate steps, all in the same
/// field.
pub open spec fn cooldown_records(relax: int, steps: int, fld: int, max: int,
    rate: int, m: int) -> Seq<HookRecord>
    decreases m,
{
    if m <= 0 {
        Seq::empty()
    } else {
        cooldown_records(relax, steps, fld, max, rate, m - 1)
            + stage_records(relax, steps, (max - (m - 1) * rate, fld))
    }
}

/// The field of the given stage of a hysteresis loop: rising from zero,
/// falling from the peak, rising again from the trough.
pub open spec fn hysteresis_stage_field(maxf: int, fstep: int, idx: int) -> int {
    if idx < hysteresis_leg1(maxf, fstep) {
        idx * fstep
    } else if idx < hysteresis_leg1(maxf, fstep) + hysteresis_leg2(maxf, fstep) {
        hysteresis_peak(maxf, fstep)
            - (idx - hysteresis_leg1(maxf, fstep)) * fstep
    } else {
        hysteresis_trough(maxf, fstep)
            + (idx - hysteresis_leg1(maxf, fstep)
                - hysteresis_leg2(maxf, fstep)) * fstep
    }
}

/// The call records one instrument receives over a hysteresis loop: one
/// stage per visited field, at a fixed temperature.
pub open spec fn hysteresis_records(relax: int, steps: int, t: int, maxf: int,
    fstep: int, m: int) -> Seq<HookRecord>
    decreases m,
{
    if m <= 0 {
        Seq::empty()
    } else {
        hysteresis_records(relax, steps, t, maxf, fstep, m - 1)
            + stage_records(relax, steps,
                (t, abs_int(hysteresis_stage_field(maxf, fstep, m - 1))))
    }
}

/// How many events of a log notify a given instrument of a given hook.
pub open spec fn count_hook(
    trace: Seq<crate::machine::HookEvent>, i: int, kind: HookKind,
) -> int
    decreases trace.len(),
{
    if trace.len() == 0 {
        0
    } else {
        count_hook(trace.drop_last(), i, kind)
            + if trace.last() == (crate::machine::HookEvent { instrument: i, kind }) {
                1int
            } else {
                0int
            }
    }
}

/// Concatenating logs adds their hook counts.
proof fn lemma_count_hook_add(
    a: Seq<crate::machine::HookEvent>, b: Seq<crate::machine::HookEvent>,
    i: int, kind: HookKind,
)
    ensures
        count_hook(a + b, i, kind) == count_hook(a, i, kind) + count_hook(b, i, kind),
    decreases b.len(),
{
    if b.len() == 0 {
        assert(a + b =~= a);
    } else {
        lemma_count_hook_add(a, b.drop_last(), i, kind);
        assert((a + b).drop_last() =~= a + b.drop_last());
        assert((a + b).last() == b.last());
    }
}

/// One dispatch of a hook over a list of instruments notifies each
/// instrument at most and at least once.
proof fn lemma_count_hook_all(k: int, i: int, kind: HookKind, probe: HookKind)
    requires
        0 <= i < k,
    ensures
        count_hook(crate::machine::hook_all(k, kind), i, probe)
            == if kind == probe {
                1int
            } else {
                0int
            },
{
    lemma_count_hook_all_prefix(k, k, i, kind, probe);
    assert(crate::machine::hook_all(k, kind)
        =~= crate::machine::hook_all(k, kind).take(k));
}

/// Counting over a prefix of a dispatched hook: one when the instrument lies
/// inside the prefix and the hooks match, none otherwise.
proof fn lemma_count_hook_all_prefix(k: int, m: int, i: int, kind: HookKind,
    probe: HookKind)
    requires
        0 <= i < k,
        0 <= m <= k,
    ensures
        count_hook(crate::machine::hook_all(k, kind).take(m), i, probe)
            == if kind == probe && i < m {
                1int
            } else {
                0int
            },
    decreases m,
{
    if m > 0 {
        lemma_count_hook_all_prefix(k, m - 1, i, kind, probe);
        assert(crate::machine::hook_all(k, kind).take(m).drop_last()
            =~= crate::machine::hook_all(k, kind).take(m - 1));
    }
}

/// A run of sweeps notifies each instrument of the per-sweep hook exactly
/// once per sweep and of no other hook.
proof fn lemma_count_hook_sweeps(k: int, steps: int, i: int, probe: HookKind)
    requires
        0 <= i < k,
        0 <= steps,
    ensures
        count_hook(sweeps_trace(k, steps), i, probe)
            == if probe == HookKind::AfterStep {
                steps
            } else {
                0int
            },
    decreases steps,
{
    if steps > 0 {
        lemma_count_hook_sweeps(k, steps - 1, i, probe);
        lemma_count_hook_add(
            sweeps_trace(k, steps - 1),
            crate::machine::hook_all(k, HookKind::AfterStep), i, probe);
        lemma_count_hook_all(k, i, HookKind::AfterStep, probe);
    }
}

/// Over a run of stages, each instrument is notified of the measure-start
/// hook exactly once per stage, and of the per-sweep hook exactly once per
/// sweep of every phase: programs drive every instrument through every stage.
pub proof fn lemma_stage_hook_counts(k: int, relax: int, steps: int, m: int, i: int)
    requires
        0 <= i < k,
        0 <= relax,
        0 <= steps,
        0 <= m,
    ensures
        count_hook(stages_trace(k, relax, steps, m), i, HookKind::MeasureStart)
            == m,
        count_hook(stages_trace(k, relax, steps, m), i, HookKind::MeasureEnd)
            == m,
        count_hook(stages_trace(k, relax, steps, m), i, HookKind::AfterStep)
            == m * (relax + steps),
    decreases m,
{
    if m == 0 {
        assert(0 * (relax + steps) == 0) by (nonlinear_arith);
    } else {
        lemma_stage_hook_counts(k, relax, steps, m - 1, i);
        let st = stage_trace(k, relax, steps);
        lemma_count_hook_add(
            stages_trace(k, relax, steps, m - 1), st, i, HookKind::MeasureStart);
        lemma_count_hook_add(
            stages_trace(k, relax, steps, m - 1), st, i, HookKind::MeasureEnd);
        lemma_count_hook_add(
            stages_trace(k, relax, steps, m - 1), st, i, HookKind::AfterStep);
        lemma_count_stage_trace(k, relax, steps, i, HookKind::MeasureStart);
        lemma_count_stage_trace(k, relax, steps, i, HookKind::MeasureEnd);
        lemma_count_stage_trace(k, relax, steps, i, HookKind::AfterStep);
        assert((m - 1) * (relax + steps) + (relax + steps) == m * (relax + steps))
            by (nonlinear_arith);
    }
}

/// The hook counts of one stage: one measure-start and one measure-end, and
/// one per-sweep hook per sweep of either phase.
proof fn lemma_count_stage_trace(k: int, relax: int, steps: int, i: int,
    probe: HookKind)
    requires
        0 <= i < k,
        0 <= relax,
        0 <= steps,
    ensures
        count_hook(stage_trace(k, relax, steps), i, probe) == if probe
            == HookKind::AfterStep {
            relax + steps
        } else if probe == HookKind::MeasureStart || probe == HookKind::MeasureEnd
            || probe == HookKind::RelaxStart || probe == HookKind::RelaxEnd {
            1int
        } else {
            0int
        },
{
    let rt = phase_trace(k, relax, HookKind::RelaxStart, HookKind::RelaxEnd);
    let mt = phase_trace(k, steps, HookKind::MeasureStart, HookKind::MeasureEnd);
    lemma_count_hook_add(rt, mt, i, probe);
    lemma_count_phase_trace(k, relax, HookKind::RelaxStart, HookKind::RelaxEnd,
        i, probe);
    lemma_count_phase_trace(k, steps, HookKind::MeasureStart, HookKind::MeasureEnd,
        i, probe);
}

/// The hook counts of one phase: its start and end hooks once each, and the
/// per-sweep hook once per sweep.
proof fn lemma_count_phase_trace(k: int, steps: int, start: HookKind,
    end: HookKind, i: int, probe: HookKind)
    requires
        0 <= i < k,
        0 <= steps,
        !(start == end),
        !(start == HookKind::AfterStep),
        !(end == HookKind::AfterStep),
    ensures
        count_hook(phase_trace(k, steps, start, end), i, probe) == if probe
            == HookKind::AfterStep {
            steps
        } else if probe == start || probe == end {
            1int
        } else {
            0int
        },
{
    lemma_count_hook_add(
        crate::machine::hook_all(k, start) + sweeps_trace(k, steps),
        crate::machine::hook_all(k, end), i, probe);
    lemma_count_hook_add(
        crate::machine::hook_all(k, start), sweeps_trace(k, steps), i, probe);
    lemma_count_hook_all(k, i, start, probe);
    lemma_count_hook_all(k, i, end, probe);
    lemma_count_hook_sweeps(k, steps, i, probe);
}

/// A program that relaxes the system at a fixed temperature, with no
/// measurement.
#[derive(Clone, Copy, Debug)]
pub struct Relax {
    pub steps: usize,
    pub temperature: Fixed,
}

impl Relax {
    /// A new relaxation program.
    pub fn new(steps: usize, temperature: Fixed) -> (r: Self)
        ensures
            r.steps == steps,
            r.temperature == temperature,
    {
        Self { steps, temperature }
    }

    /// Choose the number of steps.
    pub fn set_steps(self, steps: usize) -> (r: Self)
        ensures
            r.steps == steps,
            r.temperature == self.temperature,
    {
        Self { steps, ..self }
    }

    /// Choose the temperature.
    pub fn set_temperature(self, temperature: Fixed) -> (r: Self)
        ensures
            r.steps == self.steps,
            r.temperature == temperature,
    {
        Self { temperature, ..self }
    }

    /// Validate the parameters, set the thermostat temperature, and relax.
    /// Rejects a zero step count, then a non-positive temperature; a valid
    /// program fails only when an instrument does.
    pub fn run<S: Spin, H: Hamiltonian<S>, I: Integrator<S, H>,
        N: Instrument<S, H>>(
        &self, rng: &mut Pcg64, machine: &mut Machine<S, H, I, N>,
    ) -> (r: ProgramResult<()>)
        requires
            old(machine).wf(),
            self.temperature.units <= MAX_TEMPERATURE,
        ensures
            final(machine).wf(),
            r == ProgramResult::<()>::Err(ProgramError::NoSteps)
                <==> self.steps == 0,
            r == ProgramResult::<()>::Err(ProgramError::ZeroTemperature)
                <==> (self.steps != 0 && self.temperature.units < 1),
            old(machine).events_spec().is_prefix_of(final(machine).events_spec()),
            (self.steps == 0 || self.temperature.units < 1)
                ==> *final(machine) == *old(machine),
            r is Ok ==> {
                &&& final(machine).thermostat_spec().temperature_spec()
                    == self.temperature
                &&& final(machine).thermostat_spec().field_spec()
                    == old(machine).thermostat_spec().field_spec()
                &&& final(machine).events_spec() == old(machine).events_spec()
                    + phase_trace(old(machine).instruments_spec().len() as int,
                        self.steps as int, HookKind::RelaxStart,
                        HookKind::RelaxEnd)
                &&& forall|i: int| 0 <= i < old(machine).instruments_spec().len()
                    ==> (#[trigger] final(machine).instruments_spec()[i])
                        .hook_log()
                        == old(machine).instruments_spec()[i].hook_log()
                            + phase_records(self.steps as int,
                                HookKind::RelaxStart, HookKind::RelaxEnd,
                                (self.temperature.units as int,
                                    old(machine).thermostat_spec().field_spec()
                                        .magnitude.units as int))
            },
    {
        if self.steps == 0 {
            return Err(ProgramError::NoSteps);
        }
        if self.temperature.units < 1 {
            return Err(ProgramError::ZeroTemperature);
        }
        let t = machine.thermostat().with_temperature(self.temperature);
        machine.set_thermostat(t);
        match machine.relax_for(rng, self.steps) {
            Err(e) => Err(ProgramError::MachineError(e)),
            Ok(()) => Ok(()),
        }
    }
}

impl Default for Relax {
    /// The default relaxation: a thousand sweeps at a reduced temperature of
    /// three.
    fn default() -> (r: Self)
        ensures
            r.steps == 1000,
            r.temperature.units == 3 * crate::fixed::SCALE,
    {
        Self { steps: 1000, temperature: Fixed { units: 3_000_000 } }
    }
}

/// A program that cools the system stepwise from a maximum to a minimum
/// temperature, relaxing and measuring at every temperature.
#[derive(Clone, Copy, Debug)]
pub struct CoolDown {
    pub max_temperature: Fixed,
    pub min_temperature: Fixed,
    pub cool_rate: Fixed,
    pub relax: usize,
    pub steps: usize,
}

/// How many stages a cool-down with the given bounds and rate performs: one
/// per temperature from the maximum down in rate steps, until the next
/// temperature would fall below the minimum.
pub open spec fn cooldown_stages(max: int, min: int, rate: int) -> int {
    (max - min) / rate + 1
}

/// The temperature of the last stage of a cool-down.
pub open spec fn cooldown_last_temperature(max: int, min: int, rate: int) -> int {
    max - ((max - min) / rate) * rate
}

impl CoolDown {
    /// A new cool-down program.
    pub fn new(max_temperature: Fixed, min_temperature: Fixed, cool_rate: Fixed,
        relax: usize, steps: usize) -> (r: Self)
        ensures
            r.max_temperature == max_temperature,
            r.min_temperature == min_temperature,
            r.cool_rate == cool_rate,
            r.relax == relax,
            r.steps == steps,
    {
        Self { max_temperature, min_temperature, cool_rate, relax, steps }
    }

    /// Choose the maximum temperature.
    pub fn set_max_temperature(self, max_temperature: Fixed) -> (r: Self)
        ensures
            r == (CoolDown { max_temperature, ..self }),
    {
        Self { max_temperature, ..self }
    }

    /// Choose the minimum temperature.
    pub fn set_min_temperature(self, min_temperature: Fixed) -> (r: Self)
        ensures
            r == (CoolDown { min_temperature, ..self }),
    {
        Self { min_temperature, ..self }
    }

    /// Choose the cooling rate.
    pub fn set_cool_rate(self, cool_rate: Fixed) -> (r: Self)
        ensures
            r == (CoolDown { cool_rate, ..self }),
    {
        Self { cool_rate, ..self }
    }

    /// Choose the number of relaxation sweeps per stage.
    pub fn set_relax(self, relax: usize) -> (r: Self)
        ensures
            r == (CoolDown { relax, ..self }),
    {
        Self { relax, ..self }
    }

    /// Choose the number of measurement sweeps per stage.
    pub fn set_steps(self, steps: usize) -> (r: Self)
        ensures
            r == (CoolDown { steps, ..self }),
    {
        Self { steps, ..self }
    }

    /// Validate the parameters, then repeatedly set the thermostat, relax
    /// and measure, lowering the temperature by the cooling rate after every
    /// stage, until the next temperature would fall below the minimum. The
    /// number of stages and the last stage's temperature are exactly
    /// determined by the bounds and the rate; the last temperature is at
    /// least the minimum, and one more cooling step would cross it.
    pub fn run<S: Spin, H: Hamiltonian<S>, I: Integrator<S, H>,
        N: Instrument<S, H>>(
        &self, rng: &mut Pcg64, machine: &mut Machine<S, H, I, N>,
    ) -> (r: ProgramResult<()>)
        requires
            old(machine).wf(),
            self.max_temperature.units <= MAX_TEMPERATURE,
            self.cool_rate.units <= MAX_TEMPERATURE,
        ensures
            final(machine).wf(),
            r == ProgramResult::<()>::Err(ProgramError::TemperatureMaxLessThanMin)
                <==> self.max_temperature.units < self.min_temperature.units,
            r == ProgramResult::<()>::Err(ProgramError::NoSteps)
                <==> (self.max_temperature.units >= self.min_temperature.units
                    && self.steps == 0),
            r == ProgramResult::<()>::Err(ProgramError::ZeroTemperature)
                <==> (self.max_temperature.units >= self.min_temperature.units
                    && self.steps != 0 && self.min_temperature.units < 1),
            r == ProgramResult::<()>::Err(ProgramError::ZeroCoolRate)
                <==> (self.max_temperature.units >= self.min_temperature.units
                    && self.steps != 0 && self.min_temperature.units >= 1
                    && self.cool_rate.units < 1),
            old(machine).events_spec().is_prefix_of(final(machine).events_spec()),
            (self.max_temperature.units < self.min_temperature.units
                || self.steps == 0 || self.min_temperature.units < 1
                || self.cool_rate.units < 1)
                ==> *final(machine) == *old(machine),
            r is Ok ==> {
                let max = self.max_temperature.units as int;
                let min = self.min_temperature.units as int;
                let rate = self.cool_rate.units as int;
                let last = cooldown_last_temperature(max, min, rate);
                &&& final(machine).thermostat_spec().temperature_spec().units
                    == last
                &&& min <= last
                &&& last - rate < min
                &&& final(machine).thermostat_spec().field_spec()
                    == old(machine).thermostat_spec().field_spec()
                &&& final(machine).events_spec() == old(machine).events_spec()
                    + stages_trace(old(machine).instruments_spec().len() as int,
                        self.relax as int, self.steps as int,
                        cooldown_stages(max, min, rate))
                &&& forall|i: int| 0 <= i < old(machine).instruments_spec().len()
                    ==> (#[trigger] final(machine).instruments_spec()[i])
                        .hook_log()
                        == old(machine).instruments_spec()[i].hook_log()
                            + cooldown_records(self.relax as int,
                                self.steps as int,
                                old(machine).thermostat_spec().field_spec()
                                    .magnitude.units as int,
                                max, rate, cooldown_stages(max, min, rate))
            },
    {
        if self.max_temperature.units < self.min_temperature.units {
            return Err(ProgramError::TemperatureMaxLessThanMin);
        }
        if self.steps == 0 {
            return Err(ProgramError::NoSteps);
        }
        if self.min_temperature.units < 1 {
            return Err(ProgramError::ZeroTemperature);
        }
        if self.cool_rate.units < 1 {
            return Err(ProgramError::ZeroCoolRate);
        }
        let max = self.max_temperature.units;
        let min = self.min_temperature.units;
        let rate = self.cool_rate.units;
        let q = div_floor64(max - min, rate);
        proof {
            vstd::arithmetic::div_mod::lemma_fundamental_div_mod(
                (max - min) as int, rate as int);
            vstd::arithmetic::div_mod::lemma_mod_division_less_than_divisor(
                (max - min) as int, rate as int);
            vstd::arithmetic::div_mod::lemma_div_pos_is_pos(
                (max - min) as int, rate as int);
        }
        let iters = q + 1;
        let ghost k = old(machine).instruments_spec().len() as int;
        let ghost fld = old(machine).thermostat_spec().field_spec()
            .magnitude.units as int;
        let ghost logs0 = Seq::new(old(machine).instruments_spec().len(),
            |i: int| old(machine).instruments_spec()[i].hook_log());
        let mut temperature: i64 = max;
        let mut i: i64 = 0;
        while i < iters
            invariant
                machine.wf(),
                machine.hamiltonian_spec() == old(machine).hamiltonian_spec(),
                machine.thermostat_spec().field_spec()
                    == old(machine).thermostat_spec().field_spec(),
                machine.instruments_spec().len() as int == k,
                k == old(machine).instruments_spec().len() as int,
                machine.state_spec().len() == old(machine).state_spec().len(),
                fld == old(machine).thermostat_spec().field_spec()
                    .magnitude.units as int,
                logs0.len() == k,
                forall|a: int| 0 <= a < k ==> #[trigger] logs0[a]
                    == old(machine).instruments_spec()[a].hook_log(),
                forall|a: int| 0 <= a < k
                    ==> (#[trigger] machine.instruments_spec()[a]).hook_log()
                        == logs0[a] + cooldown_records(self.relax as int,
                            self.steps as int, fld, max as int, rate as int,
                            i as int),
                max == self.max_temperature.units,
                min == self.min_temperature.units,
                rate == self.cool_rate.units,
                self.steps != 0,
                1 <= min <= max <= MAX_TEMPERATURE,
                1 <= rate <= MAX_TEMPERATURE,
                q == (max - min) as int / rate as int,
                0 <= q * rate <= max - min,
                iters == q + 1,
                0 <= i <= iters,
                temperature == max - i * rate,
                i < iters ==> min <= temperature,
                i > 0 ==> machine.thermostat_spec().temperature_spec().units
                    == max - (i - 1) * rate,
                machine.events_spec() == old(machine).events_spec()
                    + stages_trace(k, self.relax as int, self.steps as int,
                        i as int),
            decreases iters - i,
        {
            proof {
                lemma_progression_step(
                    max as int, min as int, rate as int, q as int, i as int);
            }
            let t = machine.thermostat().with_temperature(
                Fixed { units: temperature });
            machine.set_thermostat(t);
            let ghost before_stage = machine.events_spec();
            match machine.relax_for(rng, self.relax) {
                Err(e) => {
                    return Err(ProgramError::MachineError(e));
                },
                Ok(()) => {},
            }
            match machine.measure_for(rng, self.steps) {
                Err(e) => {
                    return Err(ProgramError::MachineError(e));
                },
                Ok(()) => {},
            }
            proof {
                assert(machine.events_spec() =~= old(machine).events_spec()
                    + stages_trace(k, self.relax as int, self.steps as int,
                        i + 1 as int));
                lemma_progression_step(
                    max as int, min as int, rate as int, q as int, i + 1 as int);
                assert forall|a: int| 0 <= a < k
                    implies (#[trigger] machine.instruments_spec()[a]).hook_log()
                        == logs0[a] + cooldown_records(self.relax as int,
                            self.steps as int, fld, max as int, rate as int,
                            i + 1 as int) by {
                    assert(machine.instruments_spec()[a].hook_log()
                        =~= logs0[a] + cooldown_records(self.relax as int,
                            self.steps as int, fld, max as int, rate as int,
                            i + 1 as int));
                }
            }
            temperature = temperature - rate;
            i = i + 1;
        }
        proof {
            lemma_progression_step(
                max as int, min as int, rate as int, q as int, q as int);
            assert(cooldown_last_temperature(
                max as int, min as int, rate as int) == max - q * rate);
            assert((max - q * rate) - rate < min) by {
                assert(max - min == rate * q + (max - min) % (rate as int));
                assert((max - min) % (rate as int) < rate);
                assert(rate * q == q * rate) by (nonlinear_arith);
            }
        }
        Ok(())
    }
}

/// Inside a cool-down, every stage index up to the quotient keeps the
/// temperature at or above the minimum, and the products stay bounded.
proof fn lemma_progression_step(max: int, min: int, rate: int, q: int, i: int)
    requires
        1 <= min <= max,
        1 <= rate,
        q == (max - min) / rate,
        0 <= i <= q + 1,
    ensures
        0 <= q * rate <= max - min,
        i <= q ==> min <= max - i * rate,
        i * rate + rate == (i + 1) * rate,
        0 <= i * rate <= max - min + rate,
{
    vstd::arithmetic::div_mod::lemma_fundamental_div_mod(max - min, rate);
    vstd::arithmetic::div_mod::lemma_mod_division_less_than_divisor(
        max - min, rate);
    vstd::arithmetic::div_mod::lemma_div_pos_is_pos(max - min, rate);
    assert(q * rate == rate * q && (i <= q ==> i * rate <= q * rate)
        && i * rate + rate == (i + 1) * rate
        && 0 <= i * rate && (i <= q + 1 ==> i * rate <= q * rate + rate))
        by (nonlinear_arith)
        requires
            0 <= i <= q + 1,
            rate >= 1,
            0 <= q,
    ;
}

impl Default for CoolDown {
    /// The default cool-down: from a reduced temperature of three down to a
    /// tenth, a tenth at a time, with a thousand relaxation sweeps and
    /// twenty thousand measurement sweeps per stage.
    fn default() -> (r: Self)
        ensures
            r.max_temperature.units == 3_000_000,
            r.min_temperature.units == 100_000,
            r.cool_rate.units == 100_000,
            r.relax == 1000,
            r.steps == 20000,
    {
        Self {
            max_temperature: Fixed { units: 3_000_000 },
            min_temperature: Fixed { units: 100_000 },
            cool_rate: Fixed { units: 100_000 },
            relax: 1000,
            steps: 20000,
        }
    }
}

/// The number of rows of the rising first leg of a hysteresis loop: fields
/// from zero upward in steps, stopping once the next field would pass the
/// maximum.
pub open spec fn hysteresis_leg1(maxf: int, step: int) -> int {
    maxf / step + 1
}

/// The last field of the first leg: the largest multiple of the step that
/// does not pass the maximum.
pub open spec fn hysteresis_peak(maxf: int, step: int) -> int {
    (maxf / step) * step
}

/// The number of rows of the falling second leg: fields from the peak
/// downward, stopping once the next field would pass the negated maximum.
pub open spec fn hysteresis_leg2(maxf: int, step: int) -> int {
    (hysteresis_peak(maxf, step) + maxf) / step + 1
}

/// The last field of the second leg.
pub open spec fn hysteresis_trough(maxf: int, step: int) -> int {
    hysteresis_peak(maxf, step)
        - ((hysteresis_peak(maxf, step) + maxf) / step) * step
}

/// The number of rows of the rising third leg: fields from the trough
/// upward, stopping once the next field would reach the maximum again.
pub open spec fn hysteresis_leg3(maxf: int, step: int) -> int {
    let d = maxf - hysteresis_trough(maxf, step);
    if d <= step {
        1
    } else {
        (d - 1) / step + 1
    }
}

/// The last field of the third leg.
pub open spec fn hysteresis_last_field(maxf: int, step: int) -> int {
    hysteresis_trough(maxf, step) + (hysteresis_leg3(maxf, step) - 1) * step
}

/// A program that runs a hysteresis loop: at a fixed temperature, the
/// external field rises from zero to the maximum, falls through zero to the
/// negated maximum, and rises back to positive saturation, with a relaxation
/// and a measurement phase at every field value.
#[derive(Clone, Copy, Debug)]
pub struct HysteresisLoop {
    pub steps: usize,
    pub relax: usize,
    pub temperature: Fixed,
    pub max_field: Fixed,
    pub field_step: Fixed,
}

impl HysteresisLoop {
    /// A new hysteresis loop program.
    pub fn new(steps: usize, relax: usize, temperature: Fixed, max_field: Fixed,
        field_step: Fixed) -> (r: Self)
        ensures
            r.steps == steps,
            r.relax == relax,
            r.temperature == temperature,
            r.max_field == max_field,
            r.field_step == field_step,
    {
        Self { steps, relax, temperature, max_field, field_step }
    }

    /// Choose the number of measurement sweeps per field value.
    pub fn set_steps(self, steps: usize) -> (r: Self)
        ensures
            r == (HysteresisLoop { steps, ..self }),
    {
        Self { steps, ..self }
    }

    /// Choose the number of relaxation sweeps per field value.
    pub fn set_relax(self, relax: usize) -> (r: Self)
        ensures
            r == (HysteresisLoop { relax, ..self }),
    {
        Self { relax, ..self }
    }

    /// Choose the temperature.
    pub fn set_temperature(self, temperature: Fixed) -> (r: Self)
        ensures
            r == (HysteresisLoop { temperature, ..self }),
    {
        Self { temperature, ..self }
    }

    /// Choose the maximum field.
    pub fn set_max_field(self, max_field: Fixed) -> (r: Self)
        ensures
            r == (HysteresisLoop { max_field, ..self }),
    {
        Self { max_field, ..self }
    }

    /// Choose the field step.
    pub fn set_field_step(self, field_step: Fixed) -> (r: Self)
        ensures
            r == (HysteresisLoop { field_step, ..self }),
    {
        Self { field_step, ..self }
    }

    /// Validate the parameters, set the temperature, and run the three legs
    /// of the loop; the numbers of field values visited per leg, and the
    /// fields themselves, are exactly determined by the maximum field and the
    /// field step.
    pub fn run<S: Spin, H: Hamiltonian<S>, I: Integrator<S, H>,
        N: Instrument<S, H>>(
        &self, rng: &mut Pcg64, machine: &mut Machine<S, H, I, N>,
    ) -> (r: ProgramResult<()>)
        requires
            old(machine).wf(),
            self.temperature.units <= MAX_TEMPERATURE,
            self.max_field.units <= MAX_FIELD,
            self.field_step.units <= MAX_FIELD,
        ensures
            final(machine).wf(),
            r == ProgramResult::<()>::Err(ProgramError::NoSteps)
                <==> self.steps == 0,
            r == ProgramResult::<()>::Err(ProgramError::ZeroTemperature)
                <==> (self.steps != 0 && self.temperature.units < 1),
            r == ProgramResult::<()>::Err(ProgramError::ZeroField)
                <==> (self.steps != 0 && self.temperature.units >= 1
                    && self.max_field.units < 1),
            r == ProgramResult::<()>::Err(ProgramError::ZeroFieldStep)
                <==> (self.steps != 0 && self.temperature.units >= 1
                    && self.max_field.units >= 1 && self.field_step.units < 1),
            old(machine).events_spec().is_prefix_of(final(machine).events_spec()),
            (self.steps == 0 || self.temperature.units < 1
                || self.max_field.units < 1 || self.field_step.units < 1)
                ==> *final(machine) == *old(machine),
            r is Ok ==> {
                let maxf = self.max_field.units as int;
                let fstep = self.field_step.units as int;
                &&& final(machine).thermostat_spec().temperature_spec()
                    == self.temperature
                &&& final(machine).thermostat_spec().field_spec()
                    == S::from_proj_spec(
                        0, 0, hysteresis_last_field(maxf, fstep))
                &&& final(machine).events_spec() == old(machine).events_spec()
                    + stages_trace(old(machine).instruments_spec().len() as int,
                        self.relax as int, self.steps as int,
                        hysteresis_leg1(maxf, fstep)
                            + hysteresis_leg2(maxf, fstep)
                            + hysteresis_leg3(maxf, fstep))
                &&& forall|i: int| 0 <= i < old(machine).instruments_spec().len()
                    ==> (#[trigger] final(machine).instruments_spec()[i])
                        .hook_log()
                        == old(machine).instruments_spec()[i].hook_log()
                            + hysteresis_records(self.relax as int,
                                self.steps as int, self.temperature.units as int,
                                maxf, fstep,
                                hysteresis_leg1(maxf, fstep)
                                    + hysteresis_leg2(maxf, fstep)
                                    + hysteresis_leg3(maxf, fstep))
            },
    {
        if self.steps == 0 {
            return Err(ProgramError::NoSteps);
        }
        if self.temperature.units < 1 {
            return Err(ProgramError::ZeroTemperature);
        }
        if self.max_field.units < 1 {
            return Err(ProgramError::ZeroField);
        }
        if self.field_step.units < 1 {
            return Err(ProgramError::ZeroFieldStep);
        }
        let t = machine.thermostat().with_temperature(self.temperature);
        machine.set_thermostat(t);
        let maxf = self.max_field.units;
        let fstep = self.field_step.units;
        let ghost k = old(machine).instruments_spec().len() as int;
        let ghost logs0 = Seq::new(old(machine).instruments_spec().len(),
            |i: int| old(machine).instruments_spec()[i].hook_log());

        let q1 = div_floor64(maxf, fstep);
        let c1 = q1 + 1;
        proof {
            lemma_leg_div(maxf as int, fstep as int);
        }
        let mut field: i64 = 0;
        let mut i: i64 = 0;
        while i < c1
            invariant
                machine.wf(),
                machine.hamiltonian_spec() == old(machine).hamiltonian_spec(),
                machine.thermostat_spec().temperature_spec() == self.temperature,
                machine.instruments_spec().len() as int == k,
                k == old(machine).instruments_spec().len() as int,
                machine.state_spec().len() == old(machine).state_spec().len(),
                self.steps != 0,
                self.temperature.units >= 1,
                maxf == self.max_field.units,
                fstep == self.field_step.units,
                1 <= maxf <= MAX_FIELD,
                1 <= fstep <= MAX_FIELD,
                q1 == maxf as int / fstep as int,
                0 <= q1 * fstep <= maxf,
                c1 == q1 + 1,
                0 <= i <= c1,
                field == i * fstep,
                i < c1 ==> field <= maxf,
                machine.events_spec() == old(machine).events_spec()
                    + stages_trace(k, self.relax as int, self.steps as int,
                        i as int),
                logs0.len() == k,
                forall|a: int| 0 <= a < k ==> #[trigger] logs0[a]
                    == old(machine).instruments_spec()[a].hook_log(),
                forall|a: int| 0 <= a < k
                    ==> (#[trigger] machine.instruments_spec()[a]).hook_log()
                        == logs0[a] + hysteresis_records(self.relax as int,
                            self.steps as int, self.temperature.units as int,
                            maxf as int, fstep as int, i as int),
            decreases c1 - i,
        {
            proof {
                lemma_leg_index(maxf as int, fstep as int, q1 as int, i as int);
                S::lemma_proj_pure_z(field as int);
                S::lemma_proj_magnitude(0, 0, field as int);
            }
            let f = S::from_projections(
                Fixed { units: 0 }, Fixed { units: 0 }, Fixed { units: field });
            let t = machine.thermostat().with_field(f);
            machine.set_thermostat(t);
            match machine.relax_for(rng, self.relax) {
                Err(e) => {
                    return Err(ProgramError::MachineError(e));
                },
                Ok(()) => {},
            }
            match machine.measure_for(rng, self.steps) {
                Err(e) => {
                    return Err(ProgramError::MachineError(e));
                },
                Ok(()) => {},
            }
            proof {
                assert(machine.events_spec() =~= old(machine).events_spec()
                    + stages_trace(k, self.relax as int, self.steps as int,
                        i + 1 as int));
                lemma_leg_index(maxf as int, fstep as int, q1 as int, i + 1 as int);
                assert(hysteresis_stage_field(
                    maxf as int, fstep as int, i as int) == field as int);
                assert forall|a: int| 0 <= a < k
                    implies (#[trigger] machine.instruments_spec()[a]).hook_log()
                        == logs0[a] + hysteresis_records(self.relax as int,
                            self.steps as int, self.temperature.units as int,
                            maxf as int, fstep as int, i + 1 as int) by {
                    assert(machine.instruments_spec()[a].hook_log()
                        =~= logs0[a] + hysteresis_records(self.relax as int,
                            self.steps as int, self.temperature.units as int,
                            maxf as int, fstep as int, i + 1 as int));
                }
            }
            field = field + fstep;
            i = i + 1;
        }
        proof {
            lemma_leg_index(maxf as int, fstep as int, q1 as int, (q1 + 1) as int);
            lemma_leg_index(maxf as int, fstep as int, q1 as int, q1 as int);
        }
        let peak = field - fstep;

        let q2 = div_floor64(peak + maxf, fstep);
        let c2 = q2 + 1;
        proof {
            lemma_leg_div((peak + maxf) as int, fstep as int);
            assert(peak as int == hysteresis_peak(maxf as int, fstep as int));
        }
        let mut field: i64 = peak;
        let mut i: i64 = 0;
        while i < c2
            invariant
                machine.wf(),
                machine.hamiltonian_spec() == old(machine).hamiltonian_spec(),
                machine.thermostat_spec().temperature_spec() == self.temperature,
                machine.instruments_spec().len() as int == k,
                k == old(machine).instruments_spec().len() as int,
                machine.state_spec().len() == old(machine).state_spec().len(),
                self.steps != 0,
                self.temperature.units >= 1,
                maxf == self.max_field.units,
                fstep == self.field_step.units,
                1 <= maxf <= MAX_FIELD,
                1 <= fstep <= MAX_FIELD,
                peak as int == hysteresis_peak(maxf as int, fstep as int),
                0 <= peak <= maxf,
                q2 == (peak + maxf) as int / fstep as int,
                0 <= q2 * fstep <= peak + maxf,
                c2 == q2 + 1,
                0 <= i <= c2,
                field == peak - i * fstep,
                i < c2 ==> -maxf <= field,
                machine.events_spec() == old(machine).events_spec()
                    + stages_trace(k, self.relax as int, self.steps as int,
                        (q1 + 1) + i as int),
                q1 + 1 == hysteresis_leg1(maxf as int, fstep as int),
                q2 + 1 == hysteresis_leg2(maxf as int, fstep as int),
                logs0.len() == k,
                forall|a: int| 0 <= a < k ==> #[trigger] logs0[a]
                    == old(machine).instruments_spec()[a].hook_log(),
                forall|a: int| 0 <= a < k
                    ==> (#[trigger] machine.instruments_spec()[a]).hook_log()
                        == logs0[a] + hysteresis_records(self.relax as int,
                            self.steps as int, self.temperature.units as int,
                            maxf as int, fstep as int, (q1 + 1) + i as int),
            decreases c2 - i,
        {
            proof {
                lemma_leg_index(
                    (peak + maxf) as int, fstep as int, q2 as int, i as int);
                S::lemma_proj_pure_z(field as int);
                S::lemma_proj_magnitude(0, 0, field as int);
            }
            let f = S::from_projections(
                Fixed { units: 0 }, Fixed { units: 0 }, Fixed { units: field });
            let t = machine.thermostat().with_field(f);
            machine.set_thermostat(t);
            match machine.relax_for(rng, self.relax) {
                Err(e) => {
                    return Err(ProgramError::MachineError(e));
                },
                Ok(()) => {},
            }
            match machine.measure_for(rng, self.steps) {
                Err(e) => {
                    return Err(ProgramError::MachineError(e));
                },
                Ok(()) => {},
            }
            proof {
                assert(machine.events_spec() =~= old(machine).events_spec()
                    + stages_trace(k, self.relax as int, self.steps as int,
                        (q1 + 1) + (i + 1) as int));
                lemma_leg_index(
                    (peak + maxf) as int, fstep as int, q2 as int, i + 1 as int);
                assert(hysteresis_stage_field(maxf as int, fstep as int,
                    (q1 + 1) + i as int) == field as int);
                assert forall|a: int| 0 <= a < k
                    implies (#[trigger] machine.instruments_spec()[a]).hook_log()
                        == logs0[a] + hysteresis_records(self.relax as int,
                            self.steps as int, self.temperature.units as int,
                            maxf as int, fstep as int, (q1 + 1) + (i + 1) as int)
                    by {
                    assert(machine.instruments_spec()[a].hook_log()
                        =~= logs0[a] + hysteresis_records(self.relax as int,
                            self.steps as int, self.temperature.units as int,
                            maxf as int, fstep as int,
                            (q1 + 1) + (i + 1) as int));
                }
            }
            field = field - fstep;
            i = i + 1;
        }
        proof {
            lemma_leg_index(
                (peak + maxf) as int, fstep as int, q2 as int, (q2 + 1) as int);
            lemma_leg_index(
                (peak + maxf) as int, fstep as int, q2 as int, q2 as int);
        }
        let trough = field + fstep;

        let d = maxf - trough;
        let c3 = if d <= fstep {
            1
        } else {
            div_floor64(d - 1, fstep) + 1
        };
        proof {
            assert(trough as int
                == hysteresis_trough(maxf as int, fstep as int));
            if d > fstep {
                lemma_leg_div((d - 1) as int, fstep as int);
            }
            assert(c3 as int == hysteresis_leg3(maxf as int, fstep as int));
        }
        let mut field: i64 = trough;
        let mut i: i64 = 0;
        while i < c3
            invariant
                machine.wf(),
                machine.hamiltonian_spec() == old(machine).hamiltonian_spec(),
                machine.thermostat_spec().temperature_spec() == self.temperature,
                machine.instruments_spec().len() as int == k,
                k == old(machine).instruments_spec().len() as int,
                machine.state_spec().len() == old(machine).state_spec().len(),
                self.steps != 0,
                self.temperature.units >= 1,
                maxf == self.max_field.units,
                fstep == self.field_step.units,
                1 <= maxf <= MAX_FIELD,
                1 <= fstep <= MAX_FIELD,
                trough as int == hysteresis_trough(maxf as int, fstep as int),
                -maxf <= trough <= maxf,
                d == maxf - trough,
                c3 as int == hysteresis_leg3(maxf as int, fstep as int),
                c3 >= 1,
                d > fstep ==> (c3 - 1) as int == (d - 1) as int / fstep as int,
                0 <= i <= c3,
                field == trough + i * fstep,
                i < c3 ==> field <= maxf,
                i > 0 ==> machine.thermostat_spec().field_spec()
                    == S::from_proj_spec(0, 0, trough + (i - 1) * fstep),
                machine.events_spec() == old(machine).events_spec()
                    + stages_trace(k, self.relax as int, self.steps as int,
                        (q1 + 1) + (q2 + 1) + i as int),
                q1 + 1 == hysteresis_leg1(maxf as int, fstep as int),
                q2 + 1 == hysteresis_leg2(maxf as int, fstep as int),
                logs0.len() == k,
                forall|a: int| 0 <= a < k ==> #[trigger] logs0[a]
                    == old(machine).instruments_spec()[a].hook_log(),
                forall|a: int| 0 <= a < k
                    ==> (#[trigger] machine.instruments_spec()[a]).hook_log()
                        == logs0[a] + hysteresis_records(self.relax as int,
                            self.steps as int, self.temperature.units as int,
                            maxf as int, fstep as int,
                            (q1 + 1) + (q2 + 1) + i as int),
            decreases c3 - i,
        {
            proof {
                lemma_leg3_index(
                    maxf as int, fstep as int, d as int, c3 as int, i as int);
                S::lemma_proj_pure_z(field as int);
                S::lemma_proj_magnitude(0, 0, field as int);
            }
            let f = S::from_projections(
                Fixed { units: 0 }, Fixed { units: 0 }, Fixed { units: field });
            let t = machine.thermostat().with_field(f);
            machine.set_thermostat(t);
            match machine.relax_for(rng, self.relax) {
                Err(e) => {
                    return Err(ProgramError::MachineError(e));
                },
                Ok(()) => {},
            }
            match machine.measure_for(rng, self.steps) {
                Err(e) => {
                    return Err(ProgramError::MachineError(e));
                },
                Ok(()) => {},
            }
            proof {
                assert(machine.events_spec() =~= old(machine).events_spec()
                    + stages_trace(k, self.relax as int, self.steps as int,
                        (q1 + 1) + (q2 + 1) + (i + 1) as int));
                lemma_leg3_index(
                    maxf as int, fstep as int, d as int, c3 as int, i + 1 as int);
                assert(hysteresis_stage_field(maxf as int, fstep as int,
                    (q1 + 1) + (q2 + 1) + i as int) == field as int);
                assert forall|a: int| 0 <= a < k
                    implies (#[trigger] machine.instruments_spec()[a]).hook_log()
                        == logs0[a] + hysteresis_records(self.relax as int,
                            self.steps as int, self.temperature.units as int,
                            maxf as int, fstep as int,
                            (q1 + 1) + (q2 + 1) + (i + 1) as int) by {
                    assert(machine.instruments_spec()[a].hook_log()
                        =~= logs0[a] + hysteresis_records(self.relax as int,
                            self.steps as int, self.temperature.units as int,
                            maxf as int, fstep as int,
                            (q1 + 1) + (q2 + 1) + (i + 1) as int));
                }
            }
            field = field + fstep;
            i = i + 1;
        }
        Ok(())
    }
}

impl Default for HysteresisLoop {
    /// The default hysteresis loop: a thousand sweeps of each kind per field
    /// value, a reduced temperature of three, a unit maximum field swept in
    /// tenths.
    fn default() -> (r: Self)
        ensures
            r.steps == 1000,
            r.relax == 1000,
            r.temperature.units == 3_000_000,
            r.max_field.units == 1_000_000,
            r.field_step.units == 100_000,
    {
        Self {
            steps: 1000,
            relax: 1000,
            temperature: Fixed { units: 3_000_000 },
            max_field: Fixed { units: 1_000_000 },
            field_step: Fixed { units: 100_000 },
        }
    }
}

/// The quotient of a non-negative dividend by a positive step scales back
/// into the dividend's range.
proof fn lemma_leg_div(total: int, step: int)
    requires
        0 <= total,
        1 <= step,
    ensures
        0 <= (total / step) * step <= total,
        0 <= total / step <= total,
{
    vstd::arithmetic::div_mod::lemma_fundamental_div_mod(total, step);
    vstd::arithmetic::div_mod::lemma_mod_division_less_than_divisor(total, step);
    vstd::arithmetic::div_mod::lemma_div_pos_is_pos(total, step);
    vstd::arithmetic::div_mod::lemma_div_is_ordered_by_denominator(total, 1, step);
    vstd::arithmetic::div_mod::lemma_div_basics(total);
    assert((total / step) * step == step * (total / step)) by (nonlinear_arith);
}

/// Within a counted leg, every index up to the quotient keeps the travelled
/// distance within the total, and the products stay linked.
proof fn lemma_leg_index(total: int, step: int, q: int, i: int)
    requires
        0 <= total,
        1 <= step,
        q == total / step,
        0 <= i <= q + 1,
    ensures
        i <= q ==> i * step <= total,
        i * step + step == (i + 1) * step,
        0 <= i * step <= total + step,
{
    lemma_leg_div(total, step);
    assert((i <= q ==> i * step <= q * step)
        && i * step + step == (i + 1) * step
        && 0 <= i * step
        && (i <= q + 1 ==> i * step <= q * step + step))
        by (nonlinear_arith)
        requires
            0 <= i <= q + 1,
            step >= 1,
            0 <= q,
    ;
}

/// Within the third leg, every index keeps the field at or below the
/// maximum, and the products stay linked.
proof fn lemma_leg3_index(maxf: int, step: int, d: int, c3: int, i: int)
    requires
        1 <= step,
        0 <= d,
        c3 == (if d <= step {
            1int
        } else {
            (d - 1) / step + 1
        }),
        0 <= i <= c3,
    ensures
        i < c3 ==> i * step <= d,
        i * step + step == (i + 1) * step,
        0 <= i * step <= d + step,
{
    if d > step {
        vstd::arithmetic::div_mod::lemma_fundamental_div_mod(d - 1, step);
        vstd::arithmetic::div_mod::lemma_mod_division_less_than_divisor(
            d - 1, step);
        vstd::arithmetic::div_mod::lemma_div_pos_is_pos(d - 1, step);
        assert((i < c3 ==> i * step <= d)
            && i * step + step == (i + 1) * step
            && (0 <= i * step && i * step <= d + step))
            by (nonlinear_arith)
            requires
                0 <= i <= c3,
                step >= 1,
                c3 == (d - 1) / step + 1,
                0 <= (d - 1) / step,
                d - 1 == step * ((d - 1) / step) + (d - 1) % step,
                0 <= (d - 1) % step < step,
        ;
    } else {
        assert((i < c3 ==> i * step <= d)
            && i * step + step == (i + 1) * step
            && (0 <= i * step && i * step <= d + step))
            by (nonlinear_arith)
            requires
                0 <= i <= c3,
                c3 == 1,
                step >= 1,
                0 <= d,
        ;
    }
}

} // verus!
