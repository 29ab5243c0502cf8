use eris::registers::{RegAddr, Registers};
use eris::trit::Tryte;

// Helper function to create a RegAddr from an integer
fn make_reg(val: i128) -> RegAddr {
    RegAddr::from_i128(val, 3)
}

#[test]
fn test_pc_read_write() {
    let mut regs = Registers::default();

    let new_val = Tryte::from_i128(123, 27);
    regs.write_pc(&new_val);

    assert_eq!(*regs.read_pc(), new_val);
}

#[test]
fn test_gpr_zero_register_is_immutable() {
    let mut regs = Registers::default();

    let r0 = make_reg(0);
    let some_val = Tryte::from_i128(99, 27);

    // Attempt to write to R0
    regs.write_gpr(&r0, some_val);

    // R0 must always return 0 (the zero word)
    assert_eq!(
        regs.read_gpr(&r0).to_i128(),
        0,
        "Register 0 must remain zero"
    );
}

#[test]
fn test_gpr_read_write() {
    let mut regs = Registers::default();

    let r1 = make_reg(1);
    let r2 = make_reg(2);
    let val1 = Tryte::from_i128(42, 27);
    let val2 = Tryte::from_i128(-5, 27);

    regs.write_gpr(&r1, val1.clone());
    regs.write_gpr(&r2, val2.clone());

    assert_eq!(regs.read_gpr(&r1), val1);
    assert_eq!(regs.read_gpr(&r2), val2);
}

#[test]
fn test_uninitialized_register_defaults_to_zero() {
    let regs = Registers::default();

    let r10 = make_reg(10);
    assert_eq!(regs.read_gpr(&r10).to_i128(), 0);
}

#[test]
fn test_negative_register_index_is_its_own_register() {
    // A 3-trit index field can hold negative values; each of the 27
    // encodings names its own register.
    let mut regs = Registers::default();

    let r_neg = make_reg(-1);
    let r_pos = make_reg(1);
    regs.write_gpr(&r_neg, Tryte::from_i128(7, 27));

    assert_eq!(regs.read_gpr(&r_neg).to_i128(), 7);
    assert_eq!(regs.read_gpr(&r_pos).to_i128(), 0);
}
