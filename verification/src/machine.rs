//! A machine to measure samples: it owns the state, the Hamiltonian, the
//! integrator, the thermostat and the instrument list, and exposes the two
//! phases of a simulation: relax for a number of sweeps, or measure for a
//! number of sweeps. Every hook call the machine makes is recorded in a
//! ghost log, so the order of instrument notifications is part of its
//! contract.

use vstd::prelude::*;
use rand_pcg::Pcg64;
use crate::energy::Hamiltonian;
use crate::error::{MachineError, MachineResult};
use crate::instrument::{bath_of, HookKind, HookRecord, Instrument};
use crate::integrator::Integrator;
use crate::state::{all_inv, Spin, State, MAX_SPINS};
use crate::thermostat::Thermostat;

verus! {

/// One entry of the machine's hook log: which instrument was notified of
/// which hook.
pub struct HookEvent {
    pub instrument: int,
    pub kind: HookKind,
}

/// The log entries of one hook dispatched to every instrument in list order.
pub open spec fn hook_all(k: int, kind: HookKind) -> Seq<HookEvent> {
    Seq::new(k as nat, |i: int| HookEvent { instrument: i, kind })
}

/// The log entries of a run of sweeps: after every sweep, the per-sweep hook
/// goes to every instrument in list order.
pub open spec fn sweeps_trace(k: int, steps: int) -> Seq<HookEvent>
    decreases steps,
{
    if steps <= 0 {
        Seq::empty()
    } else {
        sweeps_trace(k, steps - 1) + hook_all(k, HookKind::AfterStep)
    }
}

/// The log entries of one whole phase: the start hook to every instrument,
/// the sweeps, then the end hook to every instrument.
pub open spec fn phase_trace(k: int, steps: int, start: HookKind, end: HookKind)
    -> Seq<HookEvent>
{
    hook_all(k, start) + sweeps_trace(k, steps) + hook_all(k, end)
}

/// A run of sweeps logs exactly one per-sweep hook per instrument per sweep.
pub proof fn lemma_sweeps_trace_len(k: int, steps: int)
    requires
        k >= 0,
        steps >= 0,
    ensures
        sweeps_trace(k, steps).len() == steps * k,
    decreases steps,
{
    if steps == 0 {
        assert(0 * k == 0) by (nonlinear_arith);
    } else {
        lemma_sweeps_trace_len(k, steps - 1);
        assert((steps - 1) * k + k == steps * k) by (nonlinear_arith);
    }
}

/// Within sweep `j`, instrument `i` is notified at position `j * k + i` of
/// the sweeps log: in list order within the sweep.
pub proof fn lemma_sweeps_trace_index(k: int, steps: int, j: int, i: int)
    requires
        0 <= i < k,
        0 <= j < steps,
    ensures
        0 <= j * k + i < sweeps_trace(k, steps).len(),
        sweeps_trace(k, steps)[j * k + i]
            == (HookEvent { instrument: i, kind: HookKind::AfterStep }),
    decreases steps,
{
    lemma_sweeps_trace_len(k, steps);
    lemma_sweeps_trace_len(k, steps - 1);
    assert(0 <= j * k + i && j * k + i < steps * k
        && (j < steps - 1 ==> j * k + i < (steps - 1) * k)
        && (j == steps - 1 ==> j * k + i - (steps - 1) * k == i))
        by (nonlinear_arith)
        requires
            0 <= i < k,
            0 <= j < steps,
    ;
    if j < steps - 1 {
        lemma_sweeps_trace_index(k, steps - 1, j, i);
    }
}

/// With two instruments in list order, every hook of the earlier one is
/// logged before the same hook of the later one: the start hooks sit at the
/// instruments' own positions, the per-sweep hooks of sweep `j` at the
/// instruments' positions within that sweep's block, and the end hooks at
/// the instruments' positions after all sweeps. The per-sweep hook is logged
/// exactly once per instrument per sweep.
pub proof fn lemma_hooks_fire_in_list_order(
    k: int, steps: int, start: HookKind, end: HookKind, a: int, b: int,
)
    requires
        0 <= a < b < k,
        steps >= 0,
    ensures
        phase_trace(k, steps, start, end).len() == k + steps * k + k,
        phase_trace(k, steps, start, end)[a]
            == (HookEvent { instrument: a, kind: start }),
        phase_trace(k, steps, start, end)[b]
            == (HookEvent { instrument: b, kind: start }),
        forall|j: int| 0 <= j < steps
            ==> phase_trace(k, steps, start, end)[k + #[trigger] (j * k) + a]
                == (HookEvent { instrument: a, kind: HookKind::AfterStep })
            && phase_trace(k, steps, start, end)[k + j * k + b]
                == (HookEvent { instrument: b, kind: HookKind::AfterStep }),
        phase_trace(k, steps, start, end)[k + steps * k + a]
            == (HookEvent { instrument: a, kind: end }),
        phase_trace(k, steps, start, end)[k + steps * k + b]
            == (HookEvent { instrument: b, kind: end }),
{
    lemma_sweeps_trace_len(k, steps);
    assert forall|j: int| 0 <= j < steps
        implies phase_trace(k, steps, start, end)[k + #[trigger] (j * k) + a]
            == (HookEvent { instrument: a, kind: HookKind::AfterStep })
        && phase_trace(k, steps, start, end)[k + j * k + b]
            == (HookEvent { instrument: b, kind: HookKind::AfterStep }) by {
        lemma_sweeps_trace_index(k, steps, j, a);
        lemma_sweeps_trace_index(k, steps, j, b);
    }
}

/// The call records one instrument receives over a run of sweeps: the
/// per-sweep hook once per sweep, under the given thermostat parameters.
pub open spec fn after_step_records(steps: int, bath: (int, int)) -> Seq<HookRecord>
    decreases steps,
{
    if steps <= 0 {
        Seq::empty()
    } else {
        after_step_records(steps - 1, bath).push(
            HookRecord { kind: HookKind::AfterStep, bath: Some(bath) })
    }
}

/// The call records one instrument receives over a whole phase: the start
/// hook, one per-sweep hook per sweep, and the end hook.
pub open spec fn phase_records(steps: int, start: HookKind, end: HookKind,
    bath: (int, int)) -> Seq<HookRecord>
{
    seq![HookRecord { kind: start, bath: Some(bath) }]
        + after_step_records(steps, bath)
        + seq![HookRecord { kind: end, bath: None }]
}

/// A sequence is a prefix of itself followed by anything.
pub proof fn lemma_prefix_of_concat<T>(a: Seq<T>, b: Seq<T>)
    ensures
        a.is_prefix_of(a + b),
{
    assert((a + b).subrange(0, a.len() as int) =~= a);
}

/// Taking past the left part of a concatenation keeps the left part whole
/// and takes from the right part.
pub proof fn lemma_take_concat<T>(a: Seq<T>, b: Seq<T>, m: int)
    requires
        0 <= m <= b.len(),
    ensures
        (a + b).take(a.len() + m) =~= a + b.take(m),
{
}

/// A prefix of a run of sweeps splits into whole sweeps and part of the next
/// sweep's dispatch.
pub proof fn lemma_sweeps_trace_take(k: int, steps: int, j: int, m: int)
    requires
        0 <= m <= k,
        0 <= j < steps,
    ensures
        sweeps_trace(k, steps).take(j * k + m)
            =~= sweeps_trace(k, j) + hook_all(k, HookKind::AfterStep).take(m),
    decreases steps,
{
    lemma_sweeps_trace_len(k, steps);
    lemma_sweeps_trace_len(k, steps - 1);
    lemma_sweeps_trace_len(k, j);
    if j == steps - 1 {
        assert(j * k + m == sweeps_trace(k, j).len() + m);
        lemma_take_concat(
            sweeps_trace(k, j), hook_all(k, HookKind::AfterStep), m);
    } else {
        lemma_sweeps_trace_take(k, steps - 1, j, m);
        assert(j * k + m <= (steps - 1) * k) by (nonlinear_arith)
            requires
                0 <= m <= k,
                0 <= j <= steps - 2,
        ;
        assert(sweeps_trace(k, steps).take(j * k + m)
            =~= sweeps_trace(k, steps - 1).take(j * k + m));
    }
}

/// A box containing the sample under a thermostat: the machine owns its
/// state exclusively and drives it with its integrator, notifying every
/// instrument in list order on each hook.
pub struct Machine<S: Spin, H: Hamiltonian<S>, I: Integrator<S, H>,
    N: Instrument<S, H>> {
    thermostat: Thermostat<S>,
    hamiltonian: H,
    integrator: I,
    instruments: Vec<N>,
    state: State<S>,
    events: Ghost<Seq<HookEvent>>,
}

impl<S: Spin, H: Hamiltonian<S>, I: Integrator<S, H>, N: Instrument<S, H>>
    Machine<S, H, I, N> {
    /// The machine's thermostat.
    pub closed spec fn thermostat_spec(&self) -> Thermostat<S> {
        self.thermostat
    }

    /// The machine's Hamiltonian.
    pub closed spec fn hamiltonian_spec(&self) -> H {
        self.hamiltonian
    }

    /// The machine's state, as a sequence of spins.
    pub closed spec fn state_spec(&self) -> Seq<S> {
        self.state.0@
    }

    /// The machine's instruments.
    pub closed spec fn instruments_spec(&self) -> Seq<N> {
        self.instruments@
    }

    /// The machine's hook log.
    pub closed spec fn events_spec(&self) -> Seq<HookEvent> {
        self.events@
    }

    /// Everything the machine owns is well formed and mutually compatible.
    pub open spec fn wf(&self) -> bool {
        &&& self.thermostat_spec().wf()
        &&& self.hamiltonian_spec().wf()
        &&& all_inv(self.state_spec())
        &&& self.hamiltonian_spec().fits(self.state_spec().len() as int)
        &&& self.integrator_ready()
        &&& self.state_spec().len() <= MAX_SPINS
        &&& forall|i: int| 0 <= i < self.instruments_spec().len()
            ==> (#[trigger] self.instruments_spec()[i]).inv()
    }

    /// The integrator can drive states of the machine's size.
    pub closed spec fn integrator_ready(&self) -> bool {
        self.integrator.ready(self.state_spec().len() as int)
    }

    /// A new machine from its parts.
    pub fn new(thermostat: Thermostat<S>, hamiltonian: H, integrator: I,
        instruments: Vec<N>, state: State<S>) -> (r: Self)
        requires
            thermostat.wf(),
            hamiltonian.wf(),
            state.wf(),
            hamiltonian.fits(state.0@.len() as int),
            integrator.ready(state.0@.len() as int),
            state.0@.len() <= MAX_SPINS,
            forall|i: int| 0 <= i < instruments@.len()
                ==> (#[trigger] instruments@[i]).inv(),
        ensures
            r.wf(),
            r.thermostat_spec() == thermostat,
            r.hamiltonian_spec() == hamiltonian,
            r.state_spec() == state.0@,
            r.instruments_spec() == instruments@,
            r.events_spec() == Seq::<HookEvent>::empty(),
    {
        Machine {
            thermostat,
            hamiltonian,
            integrator,
            instruments,
            state,
            events: Ghost(Seq::empty()),
        }
    }

    /// The current thermostat of the machine.
    pub fn thermostat(&self) -> (r: &Thermostat<S>)
        ensures
            *r == self.thermostat_spec(),
    {
        &self.thermostat
    }

    /// The machine's instruments, for reading their records out.
    pub fn instruments(&self) -> (r: &Vec<N>)
        ensures
            r@ == self.instruments_spec(),
    {
        &self.instruments
    }

    /// The machine's current state.
    pub fn state(&self) -> (r: &State<S>)
        ensures
            r.0@ == self.state_spec(),
    {
        &self.state
    }

    /// Replace the thermostat; allowed only between phases.
    pub fn set_thermostat(&mut self, thermostat: Thermostat<S>)
        requires
            old(self).wf(),
            thermostat.wf(),
        ensures
            final(self).wf(),
            final(self).thermostat_spec() == thermostat,
            final(self).hamiltonian_spec() == old(self).hamiltonian_spec(),
            final(self).state_spec() == old(self).state_spec(),
            final(self).instruments_spec() == old(self).instruments_spec(),
            final(self).events_spec() == old(self).events_spec(),
    {
        self.thermostat = thermostat;
        proof {
            assert forall|i: int| 0 <= i < self.instruments_spec().len()
                implies (#[trigger] self.instruments_spec()[i]).inv() by {
                assert(self.instruments_spec()[i]
                    == old(self).instruments_spec()[i]);
            }
        }
    }

    /// Advance the state by a number of sweeps, notifying every instrument
    /// after each sweep: each instrument's own call log grows by exactly one
    /// per-sweep record per sweep, so a body that skips the dispatch cannot
    /// meet this contract.
    fn run(&mut self, rng: &mut Pcg64, steps: usize) -> (r: MachineResult<()>)
        requires
            old(self).wf(),
        ensures
            final(self).wf(),
            final(self).thermostat_spec() == old(self).thermostat_spec(),
            final(self).hamiltonian_spec() == old(self).hamiltonian_spec(),
            final(self).state_spec().len() == old(self).state_spec().len(),
            final(self).instruments_spec().len()
                == old(self).instruments_spec().len(),
            old(self).events_spec().is_prefix_of(final(self).events_spec()),
            forall|i: int| 0 <= i < old(self).instruments_spec().len()
                ==> (#[trigger] old(self).instruments_spec()[i]).hook_log()
                    .is_prefix_of(final(self).instruments_spec()[i].hook_log()),
            r is Ok ==> final(self).events_spec() == old(self).events_spec()
                + sweeps_trace(old(self).instruments_spec().len() as int,
                    steps as int),
            r is Ok ==> forall|i: int| 0 <= i < old(self).instruments_spec().len()
                ==> (#[trigger] final(self).instruments_spec()[i]).hook_log()
                    == old(self).instruments_spec()[i].hook_log()
                        + after_step_records(steps as int,
                            bath_of(old(self).thermostat_spec())),
            r is Err ==> exists|p: int| 0 <= p
                <= (steps as int) * (old(self).instruments_spec().len() as int)
                && final(self).events_spec() == old(self).events_spec()
                    + sweeps_trace(old(self).instruments_spec().len() as int,
                        steps as int).take(p),
            r is Err ==> forall|i: int| 0 <= i < old(self).instruments_spec().len()
                ==> exists|m: int| 0 <= m <= steps as int
                    && (#[trigger] final(self).instruments_spec()[i]).hook_log()
                        == old(self).instruments_spec()[i].hook_log()
                            + after_step_records(m,
                                bath_of(old(self).thermostat_spec())),
    {
        let ghost base = self.events@;
        let ghost k = self.instruments@.len() as int;
        let ghost bath = bath_of(old(self).thermostat_spec());
        let ghost logs0 = Seq::new(self.instruments@.len(),
            |i: int| self.instruments@[i].hook_log());
        let mut j: usize = 0;
        proof {
            assert(self.events@ =~= base + sweeps_trace(k, 0));
        }
        while j < steps
            invariant
                self.wf(),
                self.thermostat_spec() == old(self).thermostat_spec(),
                self.hamiltonian_spec() == old(self).hamiltonian_spec(),
                self.state_spec().len() == old(self).state_spec().len(),
                self.instruments_spec().len() as int == k,
                k == old(self).instruments_spec().len() as int,
                base == old(self).events_spec(),
                bath == bath_of(old(self).thermostat_spec()),
                logs0.len() == k,
                forall|i: int| 0 <= i < k ==> #[trigger] logs0[i]
                    == old(self).instruments_spec()[i].hook_log(),
                0 <= j <= steps,
                self.events@ == base + sweeps_trace(k, j as int),
                forall|i: int| 0 <= i < k
                    ==> (#[trigger] self.instruments_spec()[i]).hook_log()
                        == logs0[i] + after_step_records(j as int, bath),
            decreases steps - j,
        {
            let mut tmp: State<S> = State(Vec::new());
            core::mem::swap(&mut tmp, &mut self.state);
            tmp = self.integrator.step(
                rng, &self.thermostat, &self.hamiltonian, tmp);
            core::mem::swap(&mut tmp, &mut self.state);
            let ghost sweep_base = self.events@;
            let kk = self.instruments.len();
            let mut i: usize = 0;
            while i < kk
                invariant
                    self.wf(),
                    self.thermostat_spec() == old(self).thermostat_spec(),
                    self.hamiltonian_spec() == old(self).hamiltonian_spec(),
                    self.state_spec().len() == old(self).state_spec().len(),
                    self.instruments_spec().len() == kk,
                    kk as int == k,
                    k == old(self).instruments_spec().len() as int,
                    base == old(self).events_spec(),
                    bath == bath_of(old(self).thermostat_spec()),
                    logs0.len() == k,
                    forall|i: int| 0 <= i < k ==> #[trigger] logs0[i]
                        == old(self).instruments_spec()[i].hook_log(),
                    0 <= j < steps,
                    sweep_base == base + sweeps_trace(k, j as int),
                    0 <= i <= kk,
                    self.events@ == sweep_base
                        + hook_all(k, HookKind::AfterStep).take(i as int),
                    forall|idx: int| 0 <= idx < i
                        ==> (#[trigger] self.instruments_spec()[idx]).hook_log()
                            == logs0[idx] + after_step_records(j + 1 as int, bath),
                    forall|idx: int| i <= idx < k
                        ==> (#[trigger] self.instruments_spec()[idx]).hook_log()
                            == logs0[idx] + after_step_records(j as int, bath),
                decreases kk - i,
            {
                let r = self.instruments[i].after_step(
                    &self.thermostat, &self.hamiltonian, &self.state);
                proof {
                    self.events@ = self.events@.push(
                        HookEvent { instrument: i as int,
                            kind: HookKind::AfterStep });
                    assert(self.events@ =~= sweep_base
                        + hook_all(k, HookKind::AfterStep).take(i + 1 as int));
                }
                match r {
                    Err(e) => {
                        proof {
                            lemma_sweeps_trace_take(
                                k, steps as int, j as int, i + 1 as int);
                            lemma_sweeps_trace_len(k, steps as int);
                            let p = (j as int) * k + (i + 1);
                            assert(0 <= p <= (steps as int) * k)
                                by (nonlinear_arith)
                                requires
                                    0 <= j < steps as int,
                                    0 <= i + 1 <= k,
                                    p == (j as int) * k + (i + 1),
                            ;
                            assert(self.events@ =~= base
                                + sweeps_trace(k, steps as int).take(p));
                            assert(base.is_prefix_of(self.events@)) by {
                                lemma_prefix_of_concat(base,
                                    sweeps_trace(k, steps as int).take(p));
                            }
                            assert forall|idx: int| 0 <= idx < k
                                implies (#[trigger] old(self).instruments_spec()[
                                    idx]).hook_log().is_prefix_of(
                                    self.instruments_spec()[idx].hook_log()) by {
                                if idx <= i as int {
                                    lemma_prefix_of_concat(logs0[idx],
                                        after_step_records(j + 1 as int, bath));
                                } else {
                                    lemma_prefix_of_concat(logs0[idx],
                                        after_step_records(j as int, bath));
                                }
                            }
                            assert forall|idx: int| 0 <= idx < k
                                implies exists|m: int| 0 <= m <= steps as int
                                    && (#[trigger] self.instruments_spec()[idx])
                                        .hook_log() == logs0[idx]
                                            + after_step_records(m, bath) by {
                                if idx <= i as int {
                                    assert(self.instruments_spec()[idx].hook_log()
                                        == logs0[idx] + after_step_records(
                                            j + 1 as int, bath));
                                } else {
                                    assert(self.instruments_spec()[idx].hook_log()
                                        == logs0[idx] + after_step_records(
                                            j as int, bath));
                                }
                            }
                        }
                        return Err(MachineError::InstrumentError(e));
                    },
                    Ok(()) => {},
                }
                i = i + 1;
            }
            proof {
                assert(hook_all(k, HookKind::AfterStep).take(kk as int)
                    =~= hook_all(k, HookKind::AfterStep));
                assert(self.events@ =~= base + sweeps_trace(k, j + 1 as int));
            }
            j = j + 1;
        }
        proof {
            assert forall|i: int| 0 <= i < k
                implies (#[trigger] old(self).instruments_spec()[i]).hook_log()
                    .is_prefix_of(self.instruments_spec()[i].hook_log()) by {
                lemma_prefix_of_concat(logs0[i],
                    after_step_records(steps as int, bath));
            }
            lemma_prefix_of_concat(base, sweeps_trace(k, steps as int));
        }
        Ok(())
    }

    /// Relax the machine for a number of sweeps: the relax-start hook goes
    /// to every instrument in list order, then the sweeps run, then the
    /// relax-end hook goes to every instrument in list order.
    pub fn relax_for(&mut self, rng: &mut Pcg64, steps: usize)
        -> (r: MachineResult<()>)
        requires
            old(self).wf(),
        ensures
            final(self).wf(),
            final(self).thermostat_spec() == old(self).thermostat_spec(),
            final(self).hamiltonian_spec() == old(self).hamiltonian_spec(),
            final(self).state_spec().len() == old(self).state_spec().len(),
            final(self).instruments_spec().len()
                == old(self).instruments_spec().len(),
            old(self).events_spec().is_prefix_of(final(self).events_spec()),
            forall|i: int| 0 <= i < old(self).instruments_spec().len()
                ==> (#[trigger] old(self).instruments_spec()[i]).hook_log()
                    .is_prefix_of(final(self).instruments_spec()[i].hook_log()),
            r is Ok ==> final(self).events_spec() == old(self).events_spec()
                + phase_trace(old(self).instruments_spec().len() as int,
                    steps as int, HookKind::RelaxStart, HookKind::RelaxEnd),
            r is Ok ==> forall|i: int| 0 <= i < old(self).instruments_spec().len()
                ==> (#[trigger] final(self).instruments_spec()[i]).hook_log()
                    == old(self).instruments_spec()[i].hook_log()
                        + phase_records(steps as int, HookKind::RelaxStart,
                            HookKind::RelaxEnd, bath_of(old(self).thermostat_spec())),
            r is Err ==> exists|p: int| 0 <= p
                <= phase_trace(old(self).instruments_spec().len() as int,
                    steps as int, HookKind::RelaxStart, HookKind::RelaxEnd).len()
                && final(self).events_spec() == old(self).events_spec()
                    + phase_trace(old(self).instruments_spec().len() as int,
                        steps as int, HookKind::RelaxStart, HookKind::RelaxEnd).take(p),
    {
        let ghost base = self.events@;
        let ghost k = self.instruments@.len() as int;
        let ghost bath = bath_of(old(self).thermostat_spec());
        let ghost logs0 = Seq::new(self.instruments@.len(),
            |i: int| self.instruments@[i].hook_log());
        let ghost trace = phase_trace(
            k, steps as int, HookKind::RelaxStart, HookKind::RelaxEnd);
        proof {
            lemma_sweeps_trace_len(k, steps as int);
        }
        let kk = self.instruments.len();
        let mut i: usize = 0;
        while i < kk
            invariant
                self.wf(),
                self.thermostat_spec() == old(self).thermostat_spec(),
                self.hamiltonian_spec() == old(self).hamiltonian_spec(),
                self.state_spec().len() == old(self).state_spec().len(),
                self.instruments_spec().len() == kk,
                kk as int == k,
                k == old(self).instruments_spec().len() as int,
                base == old(self).events_spec(),
                bath == bath_of(old(self).thermostat_spec()),
                logs0.len() == k,
                forall|i: int| 0 <= i < k ==> #[trigger] logs0[i]
                    == old(self).instruments_spec()[i].hook_log(),
                trace == phase_trace(
                    k, steps as int, HookKind::RelaxStart, HookKind::RelaxEnd),
                trace.len() == k + (steps as int) * k + k,
                0 <= i <= kk,
                self.events@ == base
                    + hook_all(k, HookKind::RelaxStart).take(i as int),
                forall|idx: int| 0 <= idx < i
                    ==> (#[trigger] self.instruments_spec()[idx]).hook_log()
                        == logs0[idx].push(HookRecord {
                            kind: HookKind::RelaxStart, bath: Some(bath) }),
                forall|idx: int| i <= idx < k
                    ==> (#[trigger] self.instruments_spec()[idx]).hook_log()
                        == logs0[idx],
            decreases kk - i,
        {
            let r = self.instruments[i].on_relax_start(
                &self.thermostat, &self.hamiltonian, &self.state);
            proof {
                self.events@ = self.events@.push(
                    HookEvent { instrument: i as int, kind: HookKind::RelaxStart });
                assert(self.events@ =~= base
                    + hook_all(k, HookKind::RelaxStart).take(i + 1 as int));
            }
            match r {
                Err(e) => {
                    proof {
                        assert(trace.take(i + 1)
                            =~= hook_all(k, HookKind::RelaxStart).take(i + 1 as int));
                        assert(self.events@ == base + trace.take(i + 1));
                        lemma_prefix_of_concat(base, trace.take(i + 1));
                        assert forall|idx: int| 0 <= idx < k
                            implies (#[trigger] old(self).instruments_spec()[
                                idx]).hook_log().is_prefix_of(
                                self.instruments_spec()[idx].hook_log()) by {
                            if idx <= i as int {
                                lemma_prefix_of_concat(logs0[idx],
                                    seq![HookRecord { kind: HookKind::RelaxStart,
                                        bath: Some(bath) }]);
                                assert(logs0[idx].push(HookRecord {
                                    kind: HookKind::RelaxStart, bath: Some(bath) })
                                    =~= logs0[idx] + seq![HookRecord {
                                        kind: HookKind::RelaxStart,
                                        bath: Some(bath) }]);
                            }
                        }
                    }
                    return Err(MachineError::InstrumentError(e));
                },
                Ok(()) => {},
            }
            i = i + 1;
        }
        proof {
            assert(hook_all(k, HookKind::RelaxStart).take(kk as int)
                =~= hook_all(k, HookKind::RelaxStart));
        }
        let ghost with_start = self.events@;
        let ghost logs1 = Seq::new(self.instruments@.len(),
            |i: int| self.instruments@[i].hook_log());
        let run_result = self.run(rng, steps);
        match run_result {
            Err(e) => {
                proof {
                    let p_run = choose|p: int| 0 <= p <= (steps as int) * k
                        && self.events@ == with_start
                            + #[trigger] sweeps_trace(k, steps as int).take(p);
                    let p = k + p_run;
                    assert(trace =~= hook_all(k, HookKind::RelaxStart)
                        + (sweeps_trace(k, steps as int)
                            + hook_all(k, HookKind::RelaxEnd)));
                    lemma_take_concat(hook_all(k, HookKind::RelaxStart),
                        sweeps_trace(k, steps as int)
                            + hook_all(k, HookKind::RelaxEnd), p_run);
                    assert((sweeps_trace(k, steps as int)
                        + hook_all(k, HookKind::RelaxEnd)).take(p_run)
                        =~= sweeps_trace(k, steps as int).take(p_run));
                    assert(trace.take(p) =~= hook_all(k, HookKind::RelaxStart)
                        + sweeps_trace(k, steps as int).take(p_run));
                    assert(self.events@ =~= base + trace.take(p));
                    lemma_prefix_of_concat(base, trace.take(p));
                    assert forall|idx: int| 0 <= idx < k
                        implies (#[trigger] old(self).instruments_spec()[
                            idx]).hook_log().is_prefix_of(
                            self.instruments_spec()[idx].hook_log()) by {
                        assert(logs1[idx] == logs0[idx].push(HookRecord {
                            kind: HookKind::RelaxStart, bath: Some(bath) }));
                        assert(logs1[idx].is_prefix_of(
                            self.instruments_spec()[idx].hook_log()));
                        lemma_prefix_of_concat(logs0[idx],
                            seq![HookRecord { kind: HookKind::RelaxStart,
                                bath: Some(bath) }]);
                        assert(logs0[idx].push(HookRecord {
                            kind: HookKind::RelaxStart, bath: Some(bath) })
                            =~= logs0[idx] + seq![HookRecord {
                                kind: HookKind::RelaxStart, bath: Some(bath) }]);
                        crate::machine::lemma_prefix_transitive(
                            logs0[idx], logs1[idx],
                            self.instruments_spec()[idx].hook_log());
                    }
                }
                return Err(e);
            },
            Ok(()) => {},
        }
        let ghost with_sweeps = self.events@;
        let ghost logs2 = Seq::new(self.instruments@.len(),
            |i: int| self.instruments@[i].hook_log());
        let mut i: usize = 0;
        while i < kk
            invariant
                self.wf(),
                self.thermostat_spec() == old(self).thermostat_spec(),
                self.hamiltonian_spec() == old(self).hamiltonian_spec(),
                self.state_spec().len() == old(self).state_spec().len(),
                self.instruments_spec().len() == kk,
                kk as int == k,
                k == old(self).instruments_spec().len() as int,
                base == old(self).events_spec(),
                bath == bath_of(old(self).thermostat_spec()),
                logs0.len() == k,
                forall|i: int| 0 <= i < k ==> #[trigger] logs0[i]
                    == old(self).instruments_spec()[i].hook_log(),
                logs2.len() == k,
                forall|i: int| 0 <= i < k ==> #[trigger] logs2[i]
                    == logs0[i].push(HookRecord {
                        kind: HookKind::RelaxStart, bath: Some(bath) })
                        + after_step_records(steps as int, bath),
                trace == phase_trace(
                    k, steps as int, HookKind::RelaxStart, HookKind::RelaxEnd),
                trace.len() == k + (steps as int) * k + k,
                with_sweeps == base + hook_all(k, HookKind::RelaxStart)
                    + sweeps_trace(k, steps as int),
                0 <= i <= kk,
                self.events@ == with_sweeps
                    + hook_all(k, HookKind::RelaxEnd).take(i as int),
                forall|idx: int| 0 <= idx < i
                    ==> (#[trigger] self.instruments_spec()[idx]).hook_log()
                        == logs2[idx].push(HookRecord {
                            kind: HookKind::RelaxEnd, bath: None }),
                forall|idx: int| i <= idx < k
                    ==> (#[trigger] self.instruments_spec()[idx]).hook_log()
                        == logs2[idx],
            decreases kk - i,
        {
            let r = self.instruments[i].on_relax_end();
            proof {
                self.events@ = self.events@.push(
                    HookEvent { instrument: i as int, kind: HookKind::RelaxEnd });
                assert(self.events@ =~= with_sweeps
                    + hook_all(k, HookKind::RelaxEnd).take(i + 1 as int));
            }
            match r {
                Err(e) => {
                    proof {
                        let p = k + (steps as int) * k + (i + 1);
                        assert(with_sweeps + hook_all(k, HookKind::RelaxEnd)
                            .take(i + 1 as int) =~= base + trace.take(p));
                        lemma_prefix_of_concat(base, trace.take(p));
                        assert(0 <= p <= trace.len());
                        assert forall|idx: int| 0 <= idx < k
                            implies (#[trigger] old(self).instruments_spec()[
                                idx]).hook_log().is_prefix_of(
                                self.instruments_spec()[idx].hook_log()) by {
                            lemma_log_prefix_end(logs0[idx], steps as int, bath,
                                HookKind::RelaxStart, HookKind::RelaxEnd,
                                self.instruments_spec()[idx].hook_log(),
                                idx <= i as int);
                        }
                    }
                    return Err(MachineError::InstrumentError(e));
                },
                Ok(()) => {},
            }
            i = i + 1;
        }
        proof {
            assert(hook_all(k, HookKind::RelaxEnd).take(kk as int)
                =~= hook_all(k, HookKind::RelaxEnd));
            assert(self.events@ =~= base + phase_trace(
                k, steps as int, HookKind::RelaxStart, HookKind::RelaxEnd));
            assert forall|idx: int| 0 <= idx < k
                implies (#[trigger] self.instruments_spec()[idx]).hook_log()
                    == old(self).instruments_spec()[idx].hook_log()
                        + phase_records(steps as int, HookKind::RelaxStart,
                            HookKind::RelaxEnd, bath) by {
                assert(self.instruments_spec()[idx].hook_log()
                    =~= logs0[idx] + phase_records(steps as int,
                        HookKind::RelaxStart, HookKind::RelaxEnd, bath));
            }
            assert forall|idx: int| 0 <= idx < k
                implies (#[trigger] old(self).instruments_spec()[idx]).hook_log()
                    .is_prefix_of(self.instruments_spec()[idx].hook_log()) by {
                lemma_prefix_of_concat(logs0[idx], phase_records(
                    steps as int, HookKind::RelaxStart, HookKind::RelaxEnd, bath));
            }
            lemma_prefix_of_concat(base, phase_trace(
                k, steps as int, HookKind::RelaxStart, HookKind::RelaxEnd));
        }
        Ok(())
    }

    /// Measure the machine for a number of sweeps: the measure-start hook
    /// goes to every instrument in list order, then the sweeps run, then the
    /// measure-end hook goes to every instrument in list order.
    pub fn measure_for(&mut self, rng: &mut Pcg64, steps: usize)
        -> (r: MachineResult<()>)
        requires
            old(self).wf(),
        ensures
            final(self).wf(),
            final(self).thermostat_spec() == old(self).thermostat_spec(),
            final(self).hamiltonian_spec() == old(self).hamiltonian_spec(),
            final(self).state_spec().len() == old(self).state_spec().len(),
            final(self).instruments_spec().len()
                == old(self).instruments_spec().len(),
            old(self).events_spec().is_prefix_of(final(self).events_spec()),
            forall|i: int| 0 <= i < old(self).instruments_spec().len()
                ==> (#[trigger] old(self).instruments_spec()[i]).hook_log()
                    .is_prefix_of(final(self).instruments_spec()[i].hook_log()),
            r is Ok ==> final(self).events_spec() == old(self).events_spec()
                + phase_trace(old(self).instruments_spec().len() as int,
                    steps as int, HookKind::MeasureStart, HookKind::MeasureEnd),
            r is Ok ==> forall|i: int| 0 <= i < old(self).instruments_spec().len()
                ==> (#[trigger] final(self).instruments_spec()[i]).hook_log()
                    == old(self).instruments_spec()[i].hook_log()
                        + phase_records(steps as int, HookKind::MeasureStart,
                            HookKind::MeasureEnd, bath_of(old(self).thermostat_spec())),
            r is Err ==> exists|p: int| 0 <= p
                <= phase_trace(old(self).instruments_spec().len() as int,
                    steps as int, HookKind::MeasureStart, HookKind::MeasureEnd).len()
                && final(self).events_spec() == old(self).events_spec()
                    + phase_trace(old(self).instruments_spec().len() as int,
                        steps as int, HookKind::MeasureStart, HookKind::MeasureEnd).take(p),
    {
        let ghost base = self.events@;
        let ghost k = self.instruments@.len() as int;
        let ghost bath = bath_of(old(self).thermostat_spec());
        let ghost logs0 = Seq::new(self.instruments@.len(),
            |i: int| self.instruments@[i].hook_log());
        let ghost trace = phase_trace(
            k, steps as int, HookKind::MeasureStart, HookKind::MeasureEnd);
        proof {
            lemma_sweeps_trace_len(k, steps as int);
        }
        let kk = self.instruments.len();
        let mut i: usize = 0;
        while i < kk
            invariant
                self.wf(),
                self.thermostat_spec() == old(self).thermostat_spec(),
                self.hamiltonian_spec() == old(self).hamiltonian_spec(),
                self.state_spec().len() == old(self).state_spec().len(),
                self.instruments_spec().len() == kk,
                kk as int == k,
                k == old(self).instruments_spec().len() as int,
                base == old(self).events_spec(),
                bath == bath_of(old(self).thermostat_spec()),
                logs0.len() == k,
                forall|i: int| 0 <= i < k ==> #[trigger] logs0[i]
                    == old(self).instruments_spec()[i].hook_log(),
                trace == phase_trace(
                    k, steps as int, HookKind::MeasureStart, HookKind::MeasureEnd),
                trace.len() == k + (steps as int) * k + k,
                0 <= i <= kk,
                self.events@ == base
                    + hook_all(k, HookKind::MeasureStart).take(i as int),
                forall|idx: int| 0 <= idx < i
                    ==> (#[trigger] self.instruments_spec()[idx]).hook_log()
                        == logs0[idx].push(HookRecord {
                            kind: HookKind::MeasureStart, bath: Some(bath) }),
                forall|idx: int| i <= idx < k
                    ==> (#[trigger] self.instruments_spec()[idx]).hook_log()
                        == logs0[idx],
            decreases kk - i,
        {
            let r = self.instruments[i].on_measure_start(
                &self.thermostat, &self.hamiltonian, &self.state);
            proof {
                self.events@ = self.events@.push(
                    HookEvent { instrument: i as int, kind: HookKind::MeasureStart });
                assert(self.events@ =~= base
                    + hook_all(k, HookKind::MeasureStart).take(i + 1 as int));
            }
            match r {
                Err(e) => {
                    proof {
                        assert(trace.take(i + 1)
                            =~= hook_all(k, HookKind::MeasureStart).take(i + 1 as int));
                        assert(self.events@ == base + trace.take(i + 1));
                        lemma_prefix_of_concat(base, trace.take(i + 1));
                        assert forall|idx: int| 0 <= idx < k
                            implies (#[trigger] old(self).instruments_spec()[
                                idx]).hook_log().is_prefix_of(
                                self.instruments_spec()[idx].hook_log()) by {
                            if idx <= i as int {
                                lemma_prefix_of_concat(logs0[idx],
                                    seq![HookRecord { kind: HookKind::MeasureStart,
                                        bath: Some(bath) }]);
                                assert(logs0[idx].push(HookRecord {
                                    kind: HookKind::MeasureStart, bath: Some(bath) })
                                    =~= logs0[idx] + seq![HookRecord {
                                        kind: HookKind::MeasureStart,
                                        bath: Some(bath) }]);
                            }
                        }
                    }
                    return Err(MachineError::InstrumentError(e));
                },
                Ok(()) => {},
            }
            i = i + 1;
        }
        proof {
            assert(hook_all(k, HookKind::MeasureStart).take(kk as int)
                =~= hook_all(k, HookKind::MeasureStart));
        }
        let ghost with_start = self.events@;
        let ghost logs1 = Seq::new(self.instruments@.len(),
            |i: int| self.instruments@[i].hook_log());
        let run_result = self.run(rng, steps);
        match run_result {
            Err(e) => {
                proof {
                    let p_run = choose|p: int| 0 <= p <= (steps as int) * k
                        && self.events@ == with_start
                            + #[trigger] sweeps_trace(k, steps as int).take(p);
                    let p = k + p_run;
                    assert(trace =~= hook_all(k, HookKind::MeasureStart)
                        + (sweeps_trace(k, steps as int)
                            + hook_all(k, HookKind::MeasureEnd)));
                    lemma_take_concat(hook_all(k, HookKind::MeasureStart),
                        sweeps_trace(k, steps as int)
                            + hook_all(k, HookKind::MeasureEnd), p_run);
                    assert((sweeps_trace(k, steps as int)
                        + hook_all(k, HookKind::MeasureEnd)).take(p_run)
                        =~= sweeps_trace(k, steps as int).take(p_run));
                    assert(trace.take(p) =~= hook_all(k, HookKind::MeasureStart)
                        + sweeps_trace(k, steps as int).take(p_run));
                    assert(self.events@ =~= base + trace.take(p));
                    lemma_prefix_of_concat(base, trace.take(p));
                    assert forall|idx: int| 0 <= idx < k
                        implies (#[trigger] old(self).instruments_spec()[
                            idx]).hook_log().is_prefix_of(
                            self.instruments_spec()[idx].hook_log()) by {
                        assert(logs1[idx] == logs0[idx].push(HookRecord {
                            kind: HookKind::MeasureStart, bath: Some(bath) }));
                        assert(logs1[idx].is_prefix_of(
                            self.instruments_spec()[idx].hook_log()));
                        lemma_prefix_of_concat(logs0[idx],
                            seq![HookRecord { kind: HookKind::MeasureStart,
                                bath: Some(bath) }]);
                        assert(logs0[idx].push(HookRecord {
                            kind: HookKind::MeasureStart, bath: Some(bath) })
                            =~= logs0[idx] + seq![HookRecord {
                                kind: HookKind::MeasureStart, bath: Some(bath) }]);
                        crate::machine::lemma_prefix_transitive(
                            logs0[idx], logs1[idx],
                            self.instruments_spec()[idx].hook_log());
                    }
                }
                return Err(e);
            },
            Ok(()) => {},
        }
        let ghost with_sweeps = self.events@;
        let ghost logs2 = Seq::new(self.instruments@.len(),
            |i: int| self.instruments@[i].hook_log());
        let mut i: usize = 0;
        while i < kk
            invariant
                self.wf(),
                self.thermostat_spec() == old(self).thermostat_spec(),
                self.hamiltonian_spec() == old(self).hamiltonian_spec(),
                self.state_spec().len() == old(self).state_spec().len(),
                self.instruments_spec().len() == kk,
                kk as int == k,
                k == old(self).instruments_spec().len() as int,
                base == old(self).events_spec(),
                bath == bath_of(old(self).thermostat_spec()),
                logs0.len() == k,
                forall|i: int| 0 <= i < k ==> #[trigger] logs0[i]
                    == old(self).instruments_spec()[i].hook_log(),
                logs2.len() == k,
                forall|i: int| 0 <= i < k ==> #[trigger] logs2[i]
                    == logs0[i].push(HookRecord {
                        kind: HookKind::MeasureStart, bath: Some(bath) })
                        + after_step_records(steps as int, bath),
                trace == phase_trace(
                    k, steps as int, HookKind::MeasureStart, HookKind::MeasureEnd),
                trace.len() == k + (steps as int) * k + k,
                with_sweeps == base + hook_all(k, HookKind::MeasureStart)
                    + sweeps_trace(k, steps as int),
                0 <= i <= kk,
                self.events@ == with_sweeps
                    + hook_all(k, HookKind::MeasureEnd).take(i as int),
                forall|idx: int| 0 <= idx < i
                    ==> (#[trigger] self.instruments_spec()[idx]).hook_log()
                        == logs2[idx].push(HookRecord {
                            kind: HookKind::MeasureEnd, bath: None }),
                forall|idx: int| i <= idx < k
                    ==> (#[trigger] self.instruments_spec()[idx]).hook_log()
                        == logs2[idx],
            decreases kk - i,
        {
            let r = self.instruments[i].on_measure_end();
            proof {
                self.events@ = self.events@.push(
                    HookEvent { instrument: i as int, kind: HookKind::MeasureEnd });
                assert(self.events@ =~= with_sweeps
                    + hook_all(k, HookKind::MeasureEnd).take(i + 1 as int));
            }
            match r {
                Err(e) => {
                    proof {
                        let p = k + (steps as int) * k + (i + 1);
                        assert(with_sweeps + hook_all(k, HookKind::MeasureEnd)
                            .take(i + 1 as int) =~= base + trace.take(p));
                        lemma_prefix_of_concat(base, trace.take(p));
                        assert(0 <= p <= trace.len());
                        assert forall|idx: int| 0 <= idx < k
                            implies (#[trigger] old(self).instruments_spec()[
                                idx]).hook_log().is_prefix_of(
                                self.instruments_spec()[idx].hook_log()) by {
                            lemma_log_prefix_end(logs0[idx], steps as int, bath,
                                HookKind::MeasureStart, HookKind::MeasureEnd,
                                self.instruments_spec()[idx].hook_log(),
                                idx <= i as int);
                        }
                    }
                    return Err(MachineError::InstrumentError(e));
                },
                Ok(()) => {},
            }
            i = i + 1;
        }
        proof {
            assert(hook_all(k, HookKind::MeasureEnd).take(kk as int)
                =~= hook_all(k, HookKind::MeasureEnd));
            assert(self.events@ =~= base + phase_trace(
                k, steps as int, HookKind::MeasureStart, HookKind::MeasureEnd));
            assert forall|idx: int| 0 <= idx < k
                implies (#[trigger] self.instruments_spec()[idx]).hook_log()
                    == old(self).instruments_spec()[idx].hook_log()
                        + phase_records(steps as int, HookKind::MeasureStart,
                            HookKind::MeasureEnd, bath) by {
                assert(self.instruments_spec()[idx].hook_log()
                    =~= logs0[idx] + phase_records(steps as int,
                        HookKind::MeasureStart, HookKind::MeasureEnd, bath));
            }
            assert forall|idx: int| 0 <= idx < k
                implies (#[trigger] old(self).instruments_spec()[idx]).hook_log()
                    .is_prefix_of(self.instruments_spec()[idx].hook_log()) by {
                lemma_prefix_of_concat(logs0[idx], phase_records(
                    steps as int, HookKind::MeasureStart, HookKind::MeasureEnd, bath));
            }
            lemma_prefix_of_concat(base, phase_trace(
                k, steps as int, HookKind::MeasureStart, HookKind::MeasureEnd));
        }
        Ok(())
    }
}

/// Prefixes compose.
pub proof fn lemma_prefix_transitive<T>(a: Seq<T>, b: Seq<T>, c: Seq<T>)
    requires
        a.is_prefix_of(b),
        b.is_prefix_of(c),
    ensures
        a.is_prefix_of(c),
{
    assert(a =~= c.subrange(0, a.len() as int));
}

/// A log that grew by a whole start record and some per-sweep records, and
/// possibly the end record, extends its original.
proof fn lemma_log_prefix_end(base: Seq<crate::instrument::HookRecord>,
    steps: int, bath: (int, int), start: HookKind, end: HookKind,
    now: Seq<crate::instrument::HookRecord>, ended: bool)
    requires
        ended ==> now == (base.push(HookRecord { kind: start, bath: Some(bath) })
            + after_step_records(steps, bath)).push(
                HookRecord { kind: end, bath: None }),
        !ended ==> now == base.push(HookRecord { kind: start, bath: Some(bath) })
            + after_step_records(steps, bath),
    ensures
        base.is_prefix_of(now),
{
    assert(base =~= now.subrange(0, base.len() as int));
}

} // verus!
