use selector_air::field::{
    field_to_u64, generate_consecutive_fields, u64_to_field, Fp, FIELD_MODULUS,
};
use selector_air::isa::one_hot;
use selector_air::pow2::next_power_of_two;

#[test]
fn conversion_reduces_canonically() {
    assert_eq!(field_to_u64(u64_to_field(0)), 0);
    assert_eq!(field_to_u64(u64_to_field(42)), 42);
    assert_eq!(field_to_u64(u64_to_field(FIELD_MODULUS)), 0);
    assert_eq!(field_to_u64(u64_to_field(FIELD_MODULUS + 7)), 7);
}

#[test]
fn addition_wraps_at_the_modulus() {
    let a = u64_to_field(FIELD_MODULUS - 1);
    let b = Fp::one();
    assert_eq!(field_to_u64(a.add(b)), 0);
    let c = u64_to_field(5);
    assert_eq!(field_to_u64(c.add(u64_to_field(7))), 12);
}

#[test]
fn subtraction_wraps_below_zero() {
    let a = u64_to_field(3);
    let b = u64_to_field(5);
    assert_eq!(field_to_u64(a.sub(b)), FIELD_MODULUS - 2);
    assert_eq!(field_to_u64(b.sub(a)), 2);
}

#[test]
fn multiplication_reduces() {
    let a = u64_to_field(1 << 20);
    let b = u64_to_field(1 << 15);
    // 2^35 mod (2^31 - 2^27 + 1)
    assert_eq!(field_to_u64(a.mul(b)), (1u64 << 35) % FIELD_MODULUS);
    assert_eq!(field_to_u64(a.mul(Fp::zero())), 0);
    assert_eq!(field_to_u64(a.mul(Fp::one())), 1 << 20);
}

#[test]
fn consecutive_fields_count_up() {
    let v = generate_consecutive_fields(5, 3);
    let values: Vec<u64> = v.into_iter().map(field_to_u64).collect();
    assert_eq!(values, vec![5, 6, 7]);
    assert_eq!(generate_consecutive_fields(9, 0).len(), 0);
}

#[test]
fn one_hot_encodes_the_choice() {
    let block = one_hot(2);
    let values: Vec<u64> = block.iter().map(|f| field_to_u64(*f)).collect();
    assert_eq!(values, vec![0, 0, 1, 0]);
}

#[test]
fn next_power_of_two_rounds_up() {
    assert_eq!(next_power_of_two(1), 1);
    assert_eq!(next_power_of_two(2), 2);
    assert_eq!(next_power_of_two(3), 4);
    assert_eq!(next_power_of_two(8), 8);
    assert_eq!(next_power_of_two(1000), 1024);
}
