//! Tests for machines, programs, instruments, the accumulator and the
//! acceptance exponential.

use vegas::accumulator::Accumulator;
use vegas::energy::{Exchange, Gauge};
use vegas::error::ProgramError;
use vegas::exp::exp_neg;
use vegas::fixed::{Fixed, SCALE};
use vegas::input::{Algorithm, Input, Model, Stage};
use vegas::instrument::{SensorKind, StatSensor};
use vegas::integrator::{decide_bond, decide_move, Integrator,
    MetropolisFlipIntegrator, WolffIntegrator};
use vegas::machine::Machine;
use vegas::program::{CoolDown, HysteresisLoop, Relax};
use vegas::rng::rng_from_seed;
use vegas::state::{Field, IsingSpin, State};
use vegas::thermostat::Thermostat;

fn small_machine(
    n: usize,
) -> Machine<IsingSpin, Gauge, MetropolisFlipIntegrator, SensorKind> {
    let thermostat = Thermostat::new(Fixed::from_int(2), Field::zero());
    let gauge = Gauge::new(Fixed::from_int(1));
    let integrator = MetropolisFlipIntegrator::new();
    let instruments = vec![SensorKind::Stat(StatSensor::new())];
    let state = State::<IsingSpin>::up_with_size(n);
    Machine::new(thermostat, gauge, integrator, instruments, state)
}

fn stat_rows(
    machine: &Machine<IsingSpin, Gauge, MetropolisFlipIntegrator, SensorKind>,
) -> usize {
    machine.instruments()[0].stat_records().unwrap().len()
}

#[test]
fn cooldown_emits_one_row_per_stage() {
    let mut rng = rng_from_seed(11);
    let mut machine = small_machine(10);
    let program = CoolDown::new(
        Fixed::from_units(3_000_000),
        Fixed::from_units(100_000),
        Fixed::from_units(100_000),
        0,
        1,
    );
    program.run(&mut rng, &mut machine).unwrap();
    assert_eq!(stat_rows(&machine), 30);
    let records = machine.instruments()[0].stat_records().unwrap().clone();
    assert_eq!(records[0].temperature.units, 3_000_000);
    assert_eq!(records[1].temperature.units, 2_900_000);
    assert_eq!(records[29].temperature.units, 100_000);
    // A constant per-site energy gives a unit mean and no susceptibility.
    assert_eq!(records[0].mean_energy.units, 1_000_000);
    assert_eq!(records[0].energy_susceptibility.units, 0);
}

#[test]
fn cooldown_last_temperature_is_within_one_rate_of_the_minimum() {
    let mut rng = rng_from_seed(12);
    let mut machine = small_machine(10);
    let program = CoolDown::new(
        Fixed::from_units(3_000_000),
        Fixed::from_units(100_000),
        Fixed::from_units(100_000),
        0,
        1,
    );
    program.run(&mut rng, &mut machine).unwrap();
    let last = machine.thermostat().temperature().units;
    assert_eq!(last, 100_000);
    assert!(last >= 100_000 && last - 100_000 < 100_000);
}

#[test]
fn hysteresis_legs_emit_the_documented_rows() {
    let mut rng = rng_from_seed(13);
    let mut machine = small_machine(10);
    let program = HysteresisLoop::new(
        1,
        0,
        Fixed::from_int(1),
        Fixed::from_units(1_000_000),
        Fixed::from_units(100_000),
    );
    program.run(&mut rng, &mut machine).unwrap();
    // Eleven rising rows, twenty-one falling rows, twenty rising rows.
    assert_eq!(stat_rows(&machine), 52);
    let records = machine.instruments()[0].stat_records().unwrap().clone();
    assert_eq!(records[0].field.units, 0);
    assert_eq!(records[10].field.units, 1_000_000);
    assert_eq!(records[11].field.units, 1_000_000);
    assert_eq!(records[21].field.units, 0);
    assert_eq!(records[31].field.units, 1_000_000);
    assert_eq!(records[32].field.units, 1_000_000);
    assert_eq!(records[51].field.units, 900_000);
    let last_field = machine.thermostat().field().magnitude;
    assert_eq!(last_field.units, 900_000);
}

#[test]
fn programs_reject_their_documented_misconfigurations() {
    let mut rng = rng_from_seed(14);
    let mut machine = small_machine(4);
    let relax = Relax::new(0, Fixed::from_int(3));
    assert_eq!(relax.run(&mut rng, &mut machine), Err(ProgramError::NoSteps));
    let relax = Relax::new(5, Fixed::zero());
    assert_eq!(
        relax.run(&mut rng, &mut machine),
        Err(ProgramError::ZeroTemperature)
    );
    let cd = CoolDown::new(
        Fixed::from_int(1), Fixed::from_int(2), Fixed::from_int(1), 0, 1);
    assert_eq!(
        cd.run(&mut rng, &mut machine),
        Err(ProgramError::TemperatureMaxLessThanMin)
    );
    let cd = CoolDown::new(
        Fixed::from_int(2), Fixed::from_int(1), Fixed::zero(), 0, 1);
    assert_eq!(cd.run(&mut rng, &mut machine), Err(ProgramError::ZeroCoolRate));
    let hy = HysteresisLoop::new(
        1, 0, Fixed::from_int(1), Fixed::zero(), Fixed::from_int(1));
    assert_eq!(hy.run(&mut rng, &mut machine), Err(ProgramError::ZeroField));
    let hy = HysteresisLoop::new(
        1, 0, Fixed::from_int(1), Fixed::from_int(1), Fixed::zero());
    assert_eq!(hy.run(&mut rng, &mut machine), Err(ProgramError::ZeroFieldStep));
}

#[test]
fn relaxation_keeps_the_state_size() {
    let mut rng = rng_from_seed(15);
    let mut machine = small_machine(16);
    let relax = Relax::new(3, Fixed::from_int(3));
    relax.run(&mut rng, &mut machine).unwrap();
    assert_eq!(machine.state().len(), 16);
    assert_eq!(machine.thermostat().temperature().units, 3_000_000);
}

#[test]
fn wolff_reaches_saturation_on_the_square_lattice() {
    // On a ten-by-ten periodic square lattice with unit coupling at the
    // reduced temperature one, cluster updates order a random state quickly.
    let unit = vegas_lattice::Lattice::sc(1.0);
    let lattice = unit.expand(10, 10, 1).drop_z();
    let mut rng = rng_from_seed(16);
    let integrator = WolffIntegrator::from_lattice(Fixed::from_int(1), &lattice);
    let gauge = Gauge::new(Fixed::zero());
    let bath = Thermostat::new(Fixed::from_int(1), Field::zero());
    let mut state = State::<IsingSpin>::rand_with_size(&mut rng, 100);
    let mut saturated = false;
    for _ in 0..1000 {
        state = integrator.step(&mut rng, &bath, &gauge, state);
        if state.magnetization().magnitude().units >= 90 * SCALE {
            saturated = true;
            break;
        }
    }
    assert!(saturated);
}

#[test]
fn metropolis_orders_the_square_lattice_more_slowly() {
    let unit = vegas_lattice::Lattice::sc(1.0);
    let lattice = unit.expand(10, 10, 1).drop_z();
    let exchange = Exchange::from_lattice(Fixed::from_int(1), &lattice).unwrap();
    let mut rng = rng_from_seed(16);
    let integrator = MetropolisFlipIntegrator::new();
    let bath = Thermostat::new(Fixed::from_int(1), Field::zero());
    let mut state = State::<IsingSpin>::rand_with_size(&mut rng, 100);
    let mut sweeps = 0usize;
    for _ in 0..10000 {
        state = integrator.step(&mut rng, &bath, &exchange, state);
        sweeps += 1;
        if state.magnetization().magnitude().units >= 90 * SCALE {
            break;
        }
    }
    assert!(sweeps > 1);
}

#[test]
fn identical_seeds_reproduce_identical_outputs() {
    let run = || {
        let mut rng = rng_from_seed(2024);
        let unit = vegas_lattice::Lattice::sc(1.0);
        let stages = vec![Stage::CoolDown(CoolDown::new(
            Fixed::from_int(2),
            Fixed::from_int(1),
            Fixed::from_units(500_000),
            2,
            3,
        ))];
        let input = Input::builder()
            .model(Model::Ising)
            .algorithm(Algorithm::Metropolis)
            .steps(stages)
            .build();
        input
            .run_ising(&mut rng, unit.expand(4, 4, 4))
            .unwrap()
    };
    let a = run();
    let b = run();
    assert_eq!(a.stats, b.stats);
    assert_eq!(a.observables, b.observables);
    assert_eq!(a.snapshots, b.snapshots);
    assert!(a.stats.len() == 3);
}

#[test]
fn move_decision_matches_the_acceptance_ratio() {
    // Downhill moves are always accepted.
    assert!(decide_move(Fixed::from_int(-1), Fixed::from_int(1), 999_999));
    assert!(decide_move(Fixed::zero(), Fixed::from_int(1), 999_999));
    // An uphill move by one unit at unit temperature accepts exactly the
    // draws below the fixed-point exponential of minus one.
    assert!(decide_move(Fixed::from_int(1), Fixed::from_int(1), 367_878));
    assert!(!decide_move(Fixed::from_int(1), Fixed::from_int(1), 367_879));
    // A cluster bond at unit coupling and temperature forms exactly for the
    // draws below one minus the fixed-point exponential of minus two.
    assert!(decide_bond(Fixed::from_int(1), Fixed::from_int(1), 864_665));
    assert!(!decide_bond(Fixed::from_int(1), Fixed::from_int(1), 864_666));
}

#[test]
fn exponential_matches_its_fixed_point_series() {
    assert_eq!(exp_neg(0, SCALE), SCALE);
    assert_eq!(exp_neg(SCALE, SCALE), 367_879);
    assert_eq!(exp_neg(SCALE / 2, SCALE), 606_511);
    assert_eq!(exp_neg(100 * SCALE, SCALE), 0);
    assert!(exp_neg(SCALE, 2 * SCALE) > exp_neg(SCALE, SCALE));
}

#[test]
fn accumulator_computes_the_documented_moments() {
    let mut acc = Accumulator::new();
    acc.collect(Fixed::from_int(1));
    acc.collect(Fixed::from_int(2));
    acc.collect(Fixed::from_int(3));
    assert_eq!(acc.count(), 3);
    assert_eq!(acc.mean().units, 2_000_000);
    assert_eq!(acc.variance().units, 666_666);
    assert_eq!(acc.binder_cumulant().units, 500_000);
}

#[test]
fn accumulator_sums_grow_monotonically() {
    let mut acc = Accumulator::new();
    let mut last_mean = 0i64;
    for i in 1..6 {
        acc.collect(Fixed::from_int(i));
        let mean = acc.mean().units;
        assert!(mean >= last_mean);
        last_mean = mean;
    }
    assert_eq!(acc.count(), 5);
}

#[test]
fn instruments_observe_hooks_in_order() {
    // Two statistics sensors in list order see the same windows, so they
    // emit identical records; the per-sweep hook reaches both exactly once
    // per sweep.
    let thermostat = Thermostat::new(Fixed::from_int(2), Field::zero());
    let gauge = Gauge::new(Fixed::from_int(1));
    let integrator = MetropolisFlipIntegrator::new();
    let instruments = vec![
        SensorKind::Stat(StatSensor::new()),
        SensorKind::Stat(StatSensor::new()),
    ];
    let state = State::<IsingSpin>::up_with_size(8);
    let mut machine =
        Machine::new(thermostat, gauge, integrator, instruments, state);
    let mut rng = rng_from_seed(17);
    machine.measure_for(&mut rng, 4).unwrap();
    let first = machine.instruments()[0].stat_records().unwrap().clone();
    let second = machine.instruments()[1].stat_records().unwrap().clone();
    assert_eq!(first.len(), 1);
    assert_eq!(first, second);
}

#[test]
fn observable_sensor_tags_rows_by_stage_and_step() {
    let thermostat = Thermostat::new(Fixed::from_int(2), Field::zero());
    let gauge = Gauge::new(Fixed::from_int(1));
    let integrator = MetropolisFlipIntegrator::new();
    let instruments = vec![SensorKind::Observables(
        vegas::instrument::ObservableSensor::new(),
    )];
    let state = State::<IsingSpin>::up_with_size(4);
    let mut machine =
        Machine::new(thermostat, gauge, integrator, instruments, state);
    let mut rng = rng_from_seed(18);
    machine.relax_for(&mut rng, 2).unwrap();
    machine.measure_for(&mut rng, 3).unwrap();
    let rows = machine.instruments()[0].observable_rows().unwrap().clone();
    assert_eq!(rows.len(), 5);
    assert!(rows[0].relax && rows[1].relax);
    assert_eq!(rows[0].step, 0);
    assert_eq!(rows[1].step, 1);
    assert_eq!(rows[0].stage, 0);
    assert!(!rows[2].relax);
    assert_eq!(rows[2].stage, 1);
    assert_eq!(rows[2].step, 0);
    assert_eq!(rows[2].energy.units, 4 * SCALE);
}

#[test]
fn snapshot_sensor_records_one_row_per_spin() {
    let thermostat = Thermostat::new(Fixed::from_int(2), Field::zero());
    let gauge = Gauge::new(Fixed::from_int(1));
    let integrator = MetropolisFlipIntegrator::new();
    let instruments = vec![SensorKind::Snapshot(
        vegas::instrument::StateSensor::new(2),
    )];
    let state = State::<IsingSpin>::up_with_size(3);
    let mut machine =
        Machine::new(thermostat, gauge, integrator, instruments, state);
    let mut rng = rng_from_seed(19);
    machine.measure_for(&mut rng, 4).unwrap();
    let rows = machine.instruments()[0].snapshot_rows().unwrap().clone();
    // Steps zero and two are due with frequency two: two snapshots of three
    // spins each.
    assert_eq!(rows.len(), 6);
    assert_eq!(rows[0].id, 0);
    assert_eq!(rows[2].id, 2);
    assert_eq!(rows[3].step, 2);
}

#[test]
fn heisenberg_input_is_not_implemented_here() {
    let mut rng = rng_from_seed(20);
    let unit = vegas_lattice::Lattice::sc(1.0);
    let input = Input::builder().model(Model::Heisenberg).build();
    match input.run_ising(&mut rng, unit) {
        Err(e) => assert_eq!(e, vegas::error::VegasError::NotImplementedError),
        Ok(_) => panic!("the unit-vector model must not run here"),
    }
}
