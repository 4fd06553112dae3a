//! Tests for spins, fields, states and the fixed-point helpers.

use vegas::fixed::{Fixed, SCALE};
use vegas::rng::rng_from_seed;
use vegas::state::{Field, Flip, IsingSpin, Spin, State};

#[test]
fn ising_spin_multiplies_correctly() {
    let up = IsingSpin::up();
    let down = IsingSpin::down();
    let mut rng = rng_from_seed(20_260_101);
    let rand = IsingSpin::rand(&mut rng);
    assert_eq!(up.dot(&up).units, SCALE);
    assert_eq!(up.dot(&down).units, -SCALE);
    assert_eq!(down.dot(&up).units, -SCALE);
    assert_eq!(down.dot(&down).units, SCALE);
    assert_eq!(rand.dot(&rand).units, SCALE);
    assert_eq!(rand.dot(&up).units + rand.dot(&down).units, 0);
}

#[test]
fn ising_magnetization_can_be_added_with_spin() {
    let state = State::<IsingSpin>::up_with_size(10);
    let mag = state.magnetization();
    assert_eq!(mag.magnitude().units, 10 * SCALE);
    assert_eq!(mag.orientation(), &IsingSpin::up());
}

#[test]
fn lengths_of_states() {
    let State(items) = State::<IsingSpin>::up_with_size(10);
    assert_eq!(items.len(), 10);
}

#[test]
fn flipping_twice_returns_the_spin() {
    assert_eq!(IsingSpin::Up.flip(), IsingSpin::Down);
    assert_eq!(IsingSpin::Up.flip().flip(), IsingSpin::Up);
    assert_eq!(IsingSpin::Down.flip().flip(), IsingSpin::Down);
}

#[test]
fn dot_with_flip_negates() {
    let mut rng = rng_from_seed(7);
    for _ in 0..32 {
        let s = IsingSpin::rand(&mut rng);
        assert_eq!(s.dot(&s).units, SCALE);
        assert_eq!(s.dot(&s.flip()).units, -SCALE);
    }
}

#[test]
fn down_state_magnetization_points_down() {
    let state = State::<IsingSpin>::down_with_size(7);
    let mag = state.magnetization();
    assert_eq!(mag.magnitude().units, 7 * SCALE);
    assert_eq!(mag.orientation(), &IsingSpin::down());
}

#[test]
fn mixed_state_magnetization_cancels() {
    let mut state = State::<IsingSpin>::up_with_size(4);
    state.set_at(0, IsingSpin::Down);
    state.set_at(1, IsingSpin::Down);
    let mag = state.magnetization();
    assert_eq!(mag.magnitude().units, 0);
}

#[test]
fn zero_field_has_no_magnitude() {
    let f: Field<IsingSpin> = Field::zero();
    assert_eq!(f.magnitude().units, 0);
    assert_eq!(f.orientation(), &IsingSpin::Up);
}

#[test]
fn seeded_generators_repeat_their_draws() {
    let mut a = rng_from_seed(99);
    let mut b = rng_from_seed(99);
    for _ in 0..64 {
        assert_eq!(
            vegas::rng::rand_index(&mut a, 1000),
            vegas::rng::rand_index(&mut b, 1000)
        );
    }
}

#[test]
fn coin_lands_on_both_sides() {
    let mut rng = rng_from_seed(5);
    let mut ups = 0;
    let mut downs = 0;
    for _ in 0..128 {
        if vegas::rng::rand_coin(&mut rng) {
            ups += 1;
        } else {
            downs += 1;
        }
    }
    assert!(ups > 0 && downs > 0);
}

#[test]
fn random_states_differ_between_seeds() {
    let mut a = rng_from_seed(1);
    let mut b = rng_from_seed(2);
    let sa = State::<IsingSpin>::rand_with_size(&mut a, 64);
    let sb = State::<IsingSpin>::rand_with_size(&mut b, 64);
    let mut differs = false;
    for i in 0..64 {
        if sa.at(i) != sb.at(i) {
            differs = true;
        }
    }
    assert!(differs);
}

#[test]
fn fixed_point_arithmetic_is_exact() {
    let a = Fixed::from_int(3);
    let b = Fixed::from_units(100_000);
    assert_eq!(a.add(b).units, 3_100_000);
    assert_eq!(a.sub(b).units, 2_900_000);
    assert_eq!(b.neg().units, -100_000);
    assert_eq!(b.neg().abs().units, 100_000);
    assert!(b.lt(a) && a.gt(b) && b.le(b) && a.ge(a));
}
