//! Tests for the energy components on the two-valued model: every closed
//! form from the component contracts is exercised on concrete states.

use vegas::energy::{Compound, Exchange, Gauge, Hamiltonian, UniaxialAnisotropy,
    ZeemanEnergy};
use vegas::fixed::{Fixed, SCALE};
use vegas::state::{Field, IsingSpin, Spin, State};
use vegas::thermostat::Thermostat;

#[test]
fn test_gauge_energy() {
    let ups = State::<IsingSpin>::up_with_size(10);
    let gauge = Gauge::new(Fixed::from_int(10));
    assert!(gauge.total_energy(&Thermostat::near_zero(), &ups).units
        - 100 * SCALE < 1);
}

#[test]
fn test_anisotropy_energy() {
    let ups = State::<IsingSpin>::up_with_size(10);
    let downs = State::<IsingSpin>::down_with_size(10);
    let anisotropy = UniaxialAnisotropy::new(IsingSpin::up(), Fixed::from_int(1));
    assert!(anisotropy.total_energy(&Thermostat::near_zero(), &ups).units
        - 100 * SCALE < 1);
    assert!(anisotropy.total_energy(&Thermostat::near_zero(), &downs).units
        - 100 * SCALE < 1);
}

#[test]
fn test_zeeman_energy() {
    let ups = State::<IsingSpin>::up_with_size(10);
    let downs = State::<IsingSpin>::down_with_size(10);
    let zeeman = ZeemanEnergy::new();
    let bath = Thermostat::new(
        Fixed::zero(), Field::new(IsingSpin::up(), Fixed::from_int(1)));
    assert!(zeeman.total_energy(&bath, &ups).units + 10 * SCALE < 1);
    assert!(zeeman.total_energy(&bath, &downs).units - 10 * SCALE < 1);
}

#[test]
fn test_zeeman_energy_multiplies_correctly() {
    let ups = State::<IsingSpin>::up_with_size(10);
    let downs = State::<IsingSpin>::down_with_size(10);
    let zeeman = ZeemanEnergy::new();
    let bath = Thermostat::new(
        Fixed::zero(), Field::new(IsingSpin::up(), Fixed::from_int(2)));
    assert!(zeeman.total_energy(&bath, &ups).units + 20 * SCALE < 1);
    assert!(zeeman.total_energy(&bath, &downs).units - 20 * SCALE < 1);
}

#[test]
fn lets_try_a_simple_composition() {
    let ups = State::<IsingSpin>::up_with_size(10);
    let gauge = Gauge::new(Fixed::from_int(10));
    let anisotropy = UniaxialAnisotropy::new(IsingSpin::up(), Fixed::from_int(1));
    let compound = Compound::new(gauge, anisotropy);
    assert!(compound.total_energy(&Thermostat::near_zero(), &ups).units
        - 200 * SCALE < 1);
}

#[test]
fn lets_try_with_a_macro() {
    let state = State::<IsingSpin>::up_with_size(10);
    let hamiltonian = Compound::new(
        UniaxialAnisotropy::new(IsingSpin::up(), Fixed::from_int(1)),
        Gauge::new(Fixed::from_int(1)),
    );
    assert!(hamiltonian.total_energy(&Thermostat::near_zero(), &state).units
        - 200 * SCALE < 1);
}

#[test]
fn gauge_energy_invariant() {
    let mut rng = vegas::rng::rng_from_seed(42);
    let state = State::<IsingSpin>::rand_with_size(&mut rng, 1000);
    let gauge = Gauge::new(Fixed::from_int(1));
    assert_eq!(
        gauge.total_energy(&Thermostat::near_zero(), &state).units,
        1000 * SCALE
    );
    let bath = Thermostat::new(
        Fixed::from_int(2), Field::new(IsingSpin::up(), Fixed::from_int(1)));
    assert_eq!(gauge.total_energy(&bath, &state).units, 1000 * SCALE);
}

#[test]
fn anisotropy_energy_of_aligned_state() {
    let ups = State::<IsingSpin>::up_with_size(1000);
    let anisotropy = UniaxialAnisotropy::new(IsingSpin::up(), Fixed::from_int(1));
    assert_eq!(
        anisotropy.total_energy(&Thermostat::near_zero(), &ups).units,
        1000 * SCALE
    );
}

#[test]
fn zeeman_energy_sign() {
    let ups = State::<IsingSpin>::up_with_size(10);
    let downs = State::<IsingSpin>::down_with_size(10);
    let zeeman = ZeemanEnergy::new();
    let bath = Thermostat::new(
        Fixed::from_int(1), Field::new(IsingSpin::up(), Fixed::from_int(1)));
    assert_eq!(zeeman.total_energy(&bath, &ups).units, -10 * SCALE);
    assert_eq!(zeeman.total_energy(&bath, &downs).units, 10 * SCALE);
}

#[test]
fn exchange_energy_of_aligned_square() {
    // A ten-by-ten periodic square lattice has two hundred edges; with unit
    // coupling the aligned total is minus two hundred.
    let unit = vegas_lattice::Lattice::sc(1.0);
    let lattice = unit.expand(10, 10, 1).drop_z();
    let exchange =
        Exchange::from_lattice(Fixed::from_int(1), &lattice).unwrap();
    let ups = State::<IsingSpin>::up_with_size(100);
    let t: Thermostat<IsingSpin> = Thermostat::near_zero();
    assert_eq!(exchange.total_energy(&t, &ups).units, -200 * SCALE);
    // A single flipped site touches four bonds, each flipping sign.
    let mut one_down = State::<IsingSpin>::up_with_size(100);
    one_down.set_at(0, IsingSpin::Down);
    assert_eq!(exchange.total_energy(&t, &one_down).units, -192 * SCALE);
    // The per-site energy of the flipped site is plus four.
    assert_eq!(exchange.energy(&t, &one_down, 0).units, 4 * SCALE);
}

#[test]
fn exchange_rejects_oversized_couplings() {
    let rows = vec![vec![(0usize, i64::MAX / 2)]];
    assert!(Exchange::new(rows).is_none());
    let rows = vec![vec![(5usize, 1000)]];
    assert!(Exchange::new(rows).is_none());
    let rows = vec![vec![(0usize, 1000)]];
    assert!(Exchange::new(rows).is_some());
}

#[test]
fn expansion_multiplies_sites() {
    let unit = vegas_lattice::Lattice::sc(1.0);
    assert_eq!(unit.sites().len(), 1);
    let lattice = unit.expand(2, 3, 4);
    assert_eq!(lattice.sites().len(), 24);
}
