//! Input structures for simulations: the top-level configuration selects a
//! model, an algorithm, a sample geometry and a list of stages, and the
//! driver runs them against a machine built from those choices.

use vstd::prelude::*;
use rand_pcg::Pcg64;
use crate::energy::{Compound, Exchange, Hamiltonian, ZeemanEnergy,
    MAX_SITE_ENERGY};
use crate::error::{VegasError, VegasResult};
use crate::fixed::{Fixed, SCALE};
use crate::geometry::{drop_x, drop_y, drop_z, expand, lattice_sites, site_count};
use crate::instrument::{ObservableRow, ObservableSensor, SensorKind, StatRecord,
    StatSensor, StateRow, StateSensor};
use crate::integrator::{Integrator, MetropolisFlipIntegrator, WolffIntegrator,
    lemma_neighbor_rows_len};
use crate::machine::Machine;
use crate::program::{CoolDown, HysteresisLoop, Relax};
use crate::state::{Field, IsingSpin, State, MAX_SPINS};
use crate::thermostat::{Thermostat, MAX_FIELD, MAX_TEMPERATURE};

verus! {

/// The spin model to simulate.
#[derive(Clone, Copy, Debug, PartialEq, Eq, Structural)]
pub enum Model {
    /// The two-valued model.
    Ising,
    /// The unit-vector model.
    Heisenberg,
}

/// The sampling algorithm to use.
#[derive(Clone, Copy, Debug, PartialEq, Eq, Structural)]
pub enum Algorithm {
    /// Single-site moves with the Metropolis rule.
    Metropolis,
    /// Cluster moves with the Wolff rule.
    Wolff,
}

/// A unit cell known by name.
#[derive(Clone, Copy, Debug, PartialEq, Eq, Structural)]
pub enum UnitCellName {
    /// Simple cubic.
    SC,
    /// Body-centred cubic.
    BCC,
    /// Face-centred cubic.
    FCC,
}

/// The unit cell to simulate: one known by name, or one loaded from a file.
#[derive(Clone, Debug)]
pub enum UnitCell {
    /// A unit cell by name.
    Name(UnitCellName),
    /// A unit cell by file path.
    Path(String),
}

/// How often to replicate the unit cell along each axis.
#[derive(Clone, Copy, Debug, PartialEq, Eq, Structural)]
pub struct UnitCellSize {
    pub x: usize,
    pub y: usize,
    pub z: usize,
}

/// Whether each axis wraps around.
#[derive(Clone, Copy, Debug, PartialEq, Eq, Structural)]
pub struct PeriodicBoundaryConditions {
    pub x: bool,
    pub y: bool,
    pub z: bool,
}

/// The sample to simulate: a unit cell, its replication, and its boundary
/// conditions.
#[derive(Clone, Debug)]
pub struct Sample {
    pub unitcell: UnitCell,
    pub size: UnitCellSize,
    pub pbc: PeriodicBoundaryConditions,
}

/// Where to write state snapshots, and how often to take them.
#[derive(Clone, Debug)]
pub struct StateOutput {
    pub path: String,
    pub frequency: usize,
}

/// Where a simulation's observations go.
#[derive(Clone, Debug)]
pub struct Output {
    pub observables: Option<String>,
    pub state: Option<StateOutput>,
}

/// One stage of a simulation.
#[derive(Clone, Copy, Debug)]
pub enum Stage {
    /// A relaxation.
    Relax(Relax),
    /// A cool-down sweep.
    CoolDown(CoolDown),
    /// A hysteresis loop.
    Hysteresis(HysteresisLoop),
}

/// The top-level configuration of a simulation.
#[derive(Clone, Debug)]
pub struct Input {
    pub model: Model,
    pub algorithm: Algorithm,
    pub exchange: Option<Fixed>,
    pub sample: Sample,
    pub stages: Vec<Stage>,
    pub output: Option<Output>,
}

impl Default for Model {
    /// The default model is the two-valued one.
    fn default() -> (r: Self)
        ensures
            r == Model::Ising,
    {
        Model::Ising
    }
}

impl Default for Algorithm {
    /// The default algorithm is Metropolis sampling.
    fn default() -> (r: Self)
        ensures
            r == Algorithm::Metropolis,
    {
        Algorithm::Metropolis
    }
}

impl Default for UnitCellName {
    /// The default unit cell is simple cubic.
    fn default() -> (r: Self)
        ensures
            r == UnitCellName::SC,
    {
        UnitCellName::SC
    }
}

impl Default for UnitCell {
    /// The default unit cell is the default named one.
    fn default() -> (r: Self)
        ensures
            r is Name,
    {
        UnitCell::Name(UnitCellName::SC)
    }
}

impl Default for UnitCellSize {
    /// By default the unit cell is not replicated.
    fn default() -> (r: Self)
        ensures
            r == (UnitCellSize { x: 1, y: 1, z: 1 }),
    {
        UnitCellSize { x: 1, y: 1, z: 1 }
    }
}

impl Default for PeriodicBoundaryConditions {
    /// By default every axis wraps around.
    fn default() -> (r: Self)
        ensures
            r == (PeriodicBoundaryConditions { x: true, y: true, z: true }),
    {
        PeriodicBoundaryConditions { x: true, y: true, z: true }
    }
}

impl Default for Sample {
    /// The default sample is one periodic simple cubic cell.
    fn default() -> (r: Self)
        ensures
            r.unitcell is Name,
            r.size == (UnitCellSize { x: 1, y: 1, z: 1 }),
            r.pbc == (PeriodicBoundaryConditions { x: true, y: true, z: true }),
    {
        Sample {
            unitcell: UnitCell::Name(UnitCellName::SC),
            size: UnitCellSize { x: 1, y: 1, z: 1 },
            pbc: PeriodicBoundaryConditions { x: true, y: true, z: true },
        }
    }
}

impl Default for Output {
    /// By default both the observables and the state snapshots go to files
    /// in the working directory, snapshots every thousand steps.
    fn default() -> (r: Self)
        ensures
            r.observables is Some,
            r.state is Some,
    {
        Output {
            observables: Some("./output.parquet".to_owned()),
            state: Some(StateOutput {
                path: "./state.parquet".to_owned(),
                frequency: 1000,
            }),
        }
    }
}

impl Default for Stage {
    /// The default stage is the default relaxation.
    fn default() -> (r: Self)
        ensures
            r is Relax,
    {
        Stage::Relax(Relax::default())
    }
}

impl Default for Input {
    /// The default configuration: the default model and algorithm on the
    /// default sample, relaxed and then cooled down, with both outputs on.
    fn default() -> (r: Self)
        ensures
            r.model == Model::Ising,
            r.algorithm == Algorithm::Metropolis,
            r.exchange is None,
            r.stages@.len() == 2,
            r.output is Some,
    {
        let mut stages: Vec<Stage> = Vec::new();
        stages.push(Stage::Relax(Relax::default()));
        stages.push(Stage::CoolDown(CoolDown::default()));
        Input {
            model: Model::Ising,
            algorithm: Algorithm::Metropolis,
            exchange: None,
            sample: Sample::default(),
            stages,
            output: Some(Output::default()),
        }
    }
}

/// A builder for configurations.
pub struct InputBuilder {
    pub model: Option<Model>,
    pub algorithm: Option<Algorithm>,
    pub exchange: Option<Fixed>,
    pub sample: Option<Sample>,
    pub steps: Option<Vec<Stage>>,
    pub output: Option<Output>,
}

impl Input {
    /// Start building a configuration.
    pub fn builder() -> (r: InputBuilder)
        ensures
            r.model is None,
            r.algorithm is None,
            r.exchange is None,
            r.sample is None,
            r.steps is None,
            r.output is None,
    {
        InputBuilder {
            model: None,
            algorithm: None,
            exchange: None,
            sample: None,
            steps: None,
            output: None,
        }
    }
}

impl InputBuilder {
    /// An empty builder.
    pub fn new() -> (r: Self)
        ensures
            r.model is None,
            r.algorithm is None,
            r.exchange is None,
            r.sample is None,
            r.steps is None,
            r.output is None,
    {
        InputBuilder {
            model: None,
            algorithm: None,
            exchange: None,
            sample: None,
            steps: None,
            output: None,
        }
    }

    /// Choose the model.
    pub fn model(self, model: Model) -> (r: Self)
        ensures
            r.model == Some(model),
    {
        InputBuilder { model: Some(model), ..self }
    }

    /// Choose the algorithm.
    pub fn algorithm(self, algorithm: Algorithm) -> (r: Self)
        ensures
            r.algorithm == Some(algorithm),
    {
        InputBuilder { algorithm: Some(algorithm), ..self }
    }

    /// Choose the exchange coupling.
    pub fn exchange(self, exchange: Fixed) -> (r: Self)
        ensures
            r.exchange == Some(exchange),
    {
        InputBuilder { exchange: Some(exchange), ..self }
    }

    /// Choose the sample.
    pub fn sample(self, sample: Sample) -> (r: Self)
        ensures
            r.sample is Some,
    {
        InputBuilder { sample: Some(sample), ..self }
    }

    /// Choose the stages.
    pub fn steps(self, steps: Vec<Stage>) -> (r: Self)
        ensures
            r.steps is Some,
    {
        InputBuilder { steps: Some(steps), ..self }
    }

    /// Choose the outputs.
    pub fn output(self, output: Output) -> (r: Self)
        ensures
            r.output is Some,
    {
        InputBuilder { output: Some(output), ..self }
    }

    /// Produce the configuration, filling what was not chosen with defaults.
    pub fn build(self) -> (r: Input)
        ensures
            self.model is Some ==> r.model == self.model.unwrap(),
            self.exchange is Some ==> r.exchange == self.exchange,
    {
        Input {
            model: match self.model {
                Some(m) => m,
                None => Model::Ising,
            },
            algorithm: match self.algorithm {
                Some(a) => a,
                None => Algorithm::Metropolis,
            },
            exchange: self.exchange,
            sample: match self.sample {
                Some(s) => s,
                None => Sample::default(),
            },
            stages: match self.steps {
                Some(s) => s,
                None => Vec::new(),
            },
            output: self.output,
        }
    }
}

impl Default for InputBuilder {
    /// The default builder is the empty one.
    fn default() -> (r: Self)
        ensures
            r.model is None,
    {
        InputBuilder::new()
    }
}

/// Everything a run leaves behind: the statistics records, the per-step
/// observable rows, and the state snapshots.
pub struct RunOutput {
    pub stats: Vec<StatRecord>,
    pub observables: Vec<ObservableRow>,
    pub snapshots: Vec<StateRow>,
}

/// Whether a sensor holds no rows yet.
pub open spec fn sensor_rows_empty(k: SensorKind) -> bool {
    match k {
        SensorKind::Stat(x) => x.rows_spec().len() == 0,
        SensorKind::Observables(x) => x.rows_spec().len() == 0,
        SensorKind::Snapshot(x) => x.rows_spec().len() == 0,
    }
}

/// A list of sensors holding no rows contributes no output.
proof fn lemma_fresh_sensors_empty(s: Seq<SensorKind>)
    requires
        forall|i: int| 0 <= i < s.len() ==> sensor_rows_empty(#[trigger] s[i]),
    ensures
        stats_of(s).len() == 0,
        observables_of(s).len() == 0,
        snapshots_of(s).len() == 0,
    decreases s.len(),
{
    if s.len() > 0 {
        lemma_fresh_sensors_empty(s.drop_last());
    }
}

/// All statistics records held by a list of sensors, in list order.
pub open spec fn stats_of(instruments: Seq<SensorKind>) -> Seq<StatRecord>
    decreases instruments.len(),
{
    if instruments.len() == 0 {
        Seq::empty()
    } else {
        stats_of(instruments.drop_last()) + match instruments.last() {
            SensorKind::Stat(s) => s.rows_spec(),
            _ => Seq::empty(),
        }
    }
}

/// All observable rows held by a list of sensors, in list order.
pub open spec fn observables_of(instruments: Seq<SensorKind>) -> Seq<ObservableRow>
    decreases instruments.len(),
{
    if instruments.len() == 0 {
        Seq::empty()
    } else {
        observables_of(instruments.drop_last()) + match instruments.last() {
            SensorKind::Observables(s) => s.rows_spec(),
            _ => Seq::empty(),
        }
    }
}

/// All snapshot rows held by a list of sensors, in list order.
pub open spec fn snapshots_of(instruments: Seq<SensorKind>) -> Seq<StateRow>
    decreases instruments.len(),
{
    if instruments.len() == 0 {
        Seq::empty()
    } else {
        snapshots_of(instruments.drop_last()) + match instruments.last() {
            SensorKind::Snapshot(s) => s.rows_spec(),
            _ => Seq::empty(),
        }
    }
}

impl Input {
    /// The exchange coupling the configuration asks for, in fixed-point
    /// units: one unit when none is given.
    pub open spec fn coupling_units(&self) -> int {
        if self.exchange is Some {
            self.exchange.unwrap().units as int
        } else {
            SCALE as int
        }
    }

    /// Whether the configuration asks for an observable recorder.
    pub open spec fn wants_observables(&self) -> bool {
        self.output is Some && self.output.unwrap().observables is Some
    }

    /// Whether the configuration asks for a state snapshotter.
    pub open spec fn wants_snapshots(&self) -> bool {
        self.output is Some && self.output.unwrap().state is Some
    }

    /// The number of sites the configured sample holds: the unit cell's
    /// sites, replicated along each axis.
    pub open spec fn configured_sites(&self, unit_cell: &vegas_lattice::Lattice)
        -> int
    {
        lattice_sites(unit_cell) * self.sample.size.x * self.sample.size.y
            * self.sample.size.z
    }

    /// The geometry the configuration describes, built by replicating the
    /// given unit cell and dropping the boundaries of non-periodic axes.
    pub fn lattice(&self, unit_cell: vegas_lattice::Lattice)
        -> (r: vegas_lattice::Lattice)
        ensures
            lattice_sites(&r) == lattice_sites(&unit_cell)
                * self.sample.size.x * self.sample.size.y * self.sample.size.z,
    {
        let UnitCellSize { x, y, z } = self.sample.size;
        let PeriodicBoundaryConditions { x: pbc_x, y: pbc_y, z: pbc_z } =
            self.sample.pbc;
        let mut lattice = expand(unit_cell, x, y, z);
        if !pbc_x {
            lattice = drop_x(lattice);
        }
        if !pbc_y {
            lattice = drop_y(lattice);
        }
        if !pbc_z {
            lattice = drop_z(lattice);
        }
        lattice
    }

    /// The instruments the configuration asks for: always the statistics
    /// sensor first, then the observable recorder exactly when an observable
    /// output is configured, then the state snapshotter exactly when a state
    /// output is configured; every sensor starts fresh.
    pub fn instruments(&self) -> (r: Vec<SensorKind>)
        ensures
            r@.len() == 1 + (if self.wants_observables() { 1int } else { 0 })
                + (if self.wants_snapshots() { 1int } else { 0 }),
            r@[0] is Stat,
            self.wants_observables() ==> r@[1] is Observables,
            self.wants_snapshots() ==> r@[(
                if self.wants_observables() { 2int } else { 1 })] is Snapshot,
            forall|i: int| 0 <= i < r@.len()
                ==> (#[trigger] r@[i]).inv_sensor(),
            forall|i: int| 0 <= i < r@.len()
                ==> (#[trigger] r@[i]).log_sensor() == Seq::<
                    crate::instrument::HookRecord>::empty(),
            stats_of(r@) == Seq::<StatRecord>::empty(),
            observables_of(r@) == Seq::<ObservableRow>::empty(),
            snapshots_of(r@) == Seq::<StateRow>::empty(),
    {
        let mut instruments: Vec<SensorKind> = Vec::new();
        instruments.push(SensorKind::Stat(StatSensor::new()));
        proof {
            assert(instruments@[0].inv_sensor());
        }
        match &self.output {
            Some(output) => {
                match &output.observables {
                    Some(_) => {
                        instruments.push(
                            SensorKind::Observables(ObservableSensor::new()));
                    },
                    None => {},
                }
                match &output.state {
                    Some(state_output) => {
                        instruments.push(SensorKind::Snapshot(
                            StateSensor::new(state_output.frequency)));
                    },
                    None => {},
                }
            },
            None => {},
        }
        proof {
            assert(forall|i: int| 0 <= i < instruments@.len()
                ==> sensor_rows_empty(#[trigger] instruments@[i]));
            lemma_fresh_sensors_empty(instruments@);
            assert(stats_of(instruments@) =~= Seq::<StatRecord>::empty());
            assert(observables_of(instruments@)
                =~= Seq::<ObservableRow>::empty());
            assert(snapshots_of(instruments@) =~= Seq::<StateRow>::empty());
        }
        instruments
    }

    /// Run the configured stages for the two-valued model on the given
    /// geometry, starting from a random state, and hand back everything the
    /// instruments recorded. The Hamiltonian is the exchange coupling over
    /// the geometry's edges together with the Zeeman coupling to the
    /// thermostat's field.
    pub fn run_ising(&self, rng: &mut Pcg64, unit_cell: vegas_lattice::Lattice)
        -> (r: VegasResult<RunOutput>)
        ensures
            (r == VegasResult::<RunOutput>::Err(VegasError::NotImplementedError)
                <==> ((self.model is Heisenberg) || (self.sample.unitcell is Path))),
            ((self.model is Ising) && (self.sample.unitcell is Name)
                && (self.exchange is Some) && self.exchange.unwrap().units < 0)
                ==> (r == VegasResult::<RunOutput>::Err(
                    VegasError::CouplingOutOfRange)),
            ((self.model is Ising) && (self.sample.unitcell is Name)
                && self.coupling_units() >= 0)
                ==> ((r == VegasResult::<RunOutput>::Err(
                    VegasError::SampleTooLarge))
                    <==> (self.configured_sites(&unit_cell) == 0
                        || self.configured_sites(&unit_cell) > MAX_SPINS)),
    {
        match self.model {
            Model::Heisenberg => {
                return Err(VegasError::NotImplementedError);
            },
            Model::Ising => {},
        }
        match &self.sample.unitcell {
            UnitCell::Path(_) => {
                return Err(VegasError::NotImplementedError);
            },
            UnitCell::Name(_) => {},
        }
        let coupling = match self.exchange {
            Some(j) => j,
            None => Fixed { units: SCALE },
        };
        if coupling.units < 0 {
            return Err(VegasError::CouplingOutOfRange);
        }
        let lattice = self.lattice(unit_cell);
        let n = site_count(&lattice);
        if n > MAX_SPINS || n == 0 {
            return Err(VegasError::SampleTooLarge);
        }
        let exchange = match Exchange::from_lattice(coupling, &lattice) {
            Some(e) => e,
            None => {
                return Err(VegasError::CouplingOutOfRange);
            },
        };
        if exchange.bound_value() > MAX_SITE_ENERGY - MAX_FIELD {
            return Err(VegasError::CouplingOutOfRange);
        }
        proof {
            crate::energy::lemma_adjacency_rows_len(
                crate::geometry::lattice_edges(&lattice),
                lattice_sites(&lattice) as int, coupling.units);
        }
        let hamiltonian = Compound::new(exchange, ZeemanEnergy::new());
        let instruments = self.instruments();
        let thermostat: Thermostat<IsingSpin> = Thermostat::new(
            Fixed { units: 2_800_000 }, Field::zero());
        let state: State<IsingSpin> = State::rand_with_size(rng, n);
        match self.algorithm {
            Algorithm::Metropolis => {
                let integrator = MetropolisFlipIntegrator::new();
                let mut machine = Machine::new(
                    thermostat, hamiltonian, integrator, instruments, state);
                self.run_stages(rng, &mut machine)
            },
            Algorithm::Wolff => {
                if coupling.units > i64::MAX / 4 {
                    return Err(VegasError::CouplingOutOfRange);
                }
                let integrator = WolffIntegrator::from_lattice(coupling, &lattice);
                proof {
                    lemma_neighbor_rows_len(
                        crate::geometry::lattice_edges(&lattice),
                        lattice_sites(&lattice) as int);
                }
                let mut machine = Machine::new(
                    thermostat, hamiltonian, integrator, instruments, state);
                self.run_stages(rng, &mut machine)
            },
        }
    }

    /// Run the configured stages, in declaration order, against a machine,
    /// and hand back everything its instruments recorded. A stage whose
    /// parameters lie outside the representable range is rejected before it
    /// touches the machine.
    fn run_stages<H: Hamiltonian<IsingSpin>, I: Integrator<IsingSpin, H>>(
        &self, rng: &mut Pcg64,
        machine: &mut Machine<IsingSpin, H, I, SensorKind>,
    ) -> (r: VegasResult<RunOutput>)
        requires
            old(machine).wf(),
        ensures
            final(machine).wf(),
            r is Err ==> ((r.get_Err_0() is ProgramError)
                || (r.get_Err_0() is ParameterOutOfRange)),
            r is Ok ==> {
                &&& r.get_Ok_0().stats@
                    == stats_of(final(machine).instruments_spec())
                &&& r.get_Ok_0().observables@
                    == observables_of(final(machine).instruments_spec())
                &&& r.get_Ok_0().snapshots@
                    == snapshots_of(final(machine).instruments_spec())
            },
    {
        let m = self.stages.len();
        let mut s: usize = 0;
        while s < m
            invariant
                machine.wf(),
                m == self.stages@.len(),
                0 <= s <= m,
            decreases m - s,
        {
            let stage = &self.stages[s];
            let outcome = match stage {
                Stage::Relax(p) => {
                    if p.temperature.units > MAX_TEMPERATURE {
                        return Err(VegasError::ParameterOutOfRange);
                    }
                    p.run(rng, machine)
                },
                Stage::CoolDown(p) => {
                    if p.max_temperature.units > MAX_TEMPERATURE
                        || p.cool_rate.units > MAX_TEMPERATURE {
                        return Err(VegasError::ParameterOutOfRange);
                    }
                    p.run(rng, machine)
                },
                Stage::Hysteresis(p) => {
                    if p.temperature.units > MAX_TEMPERATURE
                        || p.max_field.units > MAX_FIELD
                        || p.field_step.units > MAX_FIELD {
                        return Err(VegasError::ParameterOutOfRange);
                    }
                    p.run(rng, machine)
                },
            };
            match outcome {
                Err(e) => {
                    return Err(VegasError::ProgramError(e));
                },
                Ok(()) => {},
            }
            s = s + 1;
        }
        Ok(collect_run_output(machine.instruments()))
    }
}

/// Gather everything a list of sensors recorded into one output bundle: the
/// concatenation, in list order, of the statistics records, the observable
/// rows and the snapshot rows the sensors hold.
fn collect_run_output(instruments: &Vec<SensorKind>) -> (r: RunOutput)
    ensures
        r.stats@ == stats_of(instruments@),
        r.observables@ == observables_of(instruments@),
        r.snapshots@ == snapshots_of(instruments@),
{
    let mut stats: Vec<StatRecord> = Vec::new();
    let mut observables: Vec<ObservableRow> = Vec::new();
    let mut snapshots: Vec<StateRow> = Vec::new();
    let m = instruments.len();
    let mut i: usize = 0;
    while i < m
        invariant
            m == instruments@.len(),
            0 <= i <= m,
            stats@ == stats_of(instruments@.take(i as int)),
            observables@ == observables_of(instruments@.take(i as int)),
            snapshots@ == snapshots_of(instruments@.take(i as int)),
        decreases m - i,
    {
        proof {
            assert(instruments@.take(i + 1 as int).drop_last()
                == instruments@.take(i as int));
            assert(instruments@.take(i + 1 as int).last()
                == instruments@[i as int]);
        }
        match &instruments[i] {
            SensorKind::Stat(s) => {
                let rows = s.records();
                let mut j: usize = 0;
                let c = rows.len();
                while j < c
                    invariant
                        c == rows@.len(),
                        rows@ == s.rows_spec(),
                        0 <= j <= c,
                        stats@ == stats_of(instruments@.take(i as int))
                            + rows@.take(j as int),
                    decreases c - j,
                {
                    stats.push(rows[j]);
                    proof {
                        assert(stats@ =~= stats_of(instruments@.take(i as int))
                            + rows@.take(j + 1 as int));
                    }
                    j = j + 1;
                }
                proof {
                    assert(rows@.take(c as int) =~= rows@);
                    assert(stats@ =~= stats_of(instruments@.take(i + 1 as int)));
                    assert(observables@
                        =~= observables_of(instruments@.take(i + 1 as int)));
                    assert(snapshots@
                        =~= snapshots_of(instruments@.take(i + 1 as int)));
                }
            },
            SensorKind::Observables(s) => {
                let rows = s.rows();
                let mut j: usize = 0;
                let c = rows.len();
                while j < c
                    invariant
                        c == rows@.len(),
                        rows@ == s.rows_spec(),
                        0 <= j <= c,
                        observables@ == observables_of(
                            instruments@.take(i as int)) + rows@.take(j as int),
                    decreases c - j,
                {
                    observables.push(rows[j]);
                    proof {
                        assert(observables@ =~= observables_of(
                            instruments@.take(i as int))
                            + rows@.take(j + 1 as int));
                    }
                    j = j + 1;
                }
                proof {
                    assert(rows@.take(c as int) =~= rows@);
                    assert(stats@ =~= stats_of(instruments@.take(i + 1 as int)));
                    assert(observables@
                        =~= observables_of(instruments@.take(i + 1 as int)));
                    assert(snapshots@
                        =~= snapshots_of(instruments@.take(i + 1 as int)));
                }
            },
            SensorKind::Snapshot(s) => {
                let rows = s.rows();
                let mut j: usize = 0;
                let c = rows.len();
                while j < c
                    invariant
                        c == rows@.len(),
                        rows@ == s.rows_spec(),
                        0 <= j <= c,
                        snapshots@ == snapshots_of(
                            instruments@.take(i as int)) + rows@.take(j as int),
                    decreases c - j,
                {
                    snapshots.push(rows[j]);
                    proof {
                        assert(snapshots@ =~= snapshots_of(
                            instruments@.take(i as int))
                            + rows@.take(j + 1 as int));
                    }
                    j = j + 1;
                }
                proof {
                    assert(rows@.take(c as int) =~= rows@);
                    assert(stats@ =~= stats_of(instruments@.take(i + 1 as int)));
                    assert(observables@
                        =~= observables_of(instruments@.take(i + 1 as int)));
                    assert(snapshots@
                        =~= snapshots_of(instruments@.take(i + 1 as int)));
                }
            },
        }
        i = i + 1;
    }
    proof {
        assert(instruments@.take(m as int) == instruments@);
    }
    RunOutput { stats, observables, snapshots }
}

/// Run the default cool-down benchmark for the two-valued model on a cubic
/// geometry of the given side, handing back the statistics records.
pub fn bench_ising(rng: &mut Pcg64, unit_cell: vegas_lattice::Lattice,
    length: usize) -> (r: VegasResult<Vec<StatRecord>>)
    ensures
        (r == VegasResult::<Vec<StatRecord>>::Err(VegasError::SampleTooLarge))
            <==> (lattice_sites(&unit_cell) * length * length * length == 0
                || lattice_sites(&unit_cell) * length * length * length
                    > MAX_SPINS),
        r is Err ==> ((r.get_Err_0() is SampleTooLarge)
            || (r.get_Err_0() is CouplingOutOfRange)
            || (r.get_Err_0() is ProgramError)),
{
    let lattice = expand(unit_cell, length, length, length);
    let n = site_count(&lattice);
    if n > MAX_SPINS || n == 0 {
        return Err(VegasError::SampleTooLarge);
    }
    let exchange = match Exchange::from_lattice(
        Fixed { units: SCALE }, &lattice) {
        Some(e) => e,
        None => {
            return Err(VegasError::CouplingOutOfRange);
        },
    };
    if exchange.bound_value() > MAX_SITE_ENERGY - MAX_FIELD {
        return Err(VegasError::CouplingOutOfRange);
    }
    proof {
        crate::energy::lemma_adjacency_rows_len(
            crate::geometry::lattice_edges(&lattice),
            lattice_sites(&lattice) as int, SCALE);
    }
    let hamiltonian = Compound::new(exchange, ZeemanEnergy::new());
    let mut instruments: Vec<SensorKind> = Vec::new();
    instruments.push(SensorKind::Stat(StatSensor::new()));
    let thermostat: Thermostat<IsingSpin> = Thermostat::new(
        Fixed { units: 2_800_000 }, Field::zero());
    let state: State<IsingSpin> = State::rand_with_size(rng, n);
    let integrator = MetropolisFlipIntegrator::new();
    let mut machine = Machine::new(
        thermostat, hamiltonian, integrator, instruments, state);
    let program = CoolDown::default()
        .set_max_temperature(Fixed { units: 5_000_000 })
        .set_cool_rate(Fixed { units: 50_000 });
    match program.run(rng, &mut machine) {
        Err(e) => {
            return Err(VegasError::ProgramError(e));
        },
        Ok(()) => {},
    }
    let out = collect_run_output(machine.instruments());
    Ok(out.stats)
}

} // verus!
