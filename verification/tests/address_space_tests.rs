use eris::address_space::{Address, AddressSpace};
use eris::trit::{TritField, Tryte};

#[test]
fn test_write_and_read_success() {
    let mut space = AddressSpace::default();

    let addr = Address::from_i128(12345, 27);
    let val = Tryte::from_i128(42, 27);

    space.write(&addr, val.clone());

    let result = space.read(&addr);
    assert_eq!(
        result, val,
        "The value read should match the value written."
    );
}

#[test]
fn test_read_empty_address_returns_default() {
    let space = AddressSpace::default();

    let addr = Address::from_i128(999, 27);
    let result = space.read(&addr);

    assert_eq!(
        result,
        TritField::zeros(27),
        "Reading an unmapped address should return the default value."
    );
}

#[test]
fn test_overwrite_address() {
    let mut space = AddressSpace::default();

    let addr = Address::from_i128(55, 27);
    let first_val = Tryte::from_i128(10, 27);
    let second_val = Tryte::from_i128(20, 27);

    space.write(&addr, first_val);
    space.write(&addr, second_val.clone()); // Overwrite

    let result = space.read(&addr);
    assert_eq!(
        result, second_val,
        "The address should hold the most recently written value."
    );
}

#[test]
fn test_multiple_addresses_independence() {
    let mut space = AddressSpace::default();

    let addr_a = Address::from_i128(1, 27);
    let addr_b = Address::from_i128(2, 27);
    let val_a = Tryte::from_i128(100, 27);
    let val_b = Tryte::from_i128(200, 27);

    space.write(&addr_a, val_a.clone());
    space.write(&addr_b, val_b.clone());

    assert_eq!(space.read(&addr_a), val_a);
    assert_eq!(space.read(&addr_b), val_b);
}
