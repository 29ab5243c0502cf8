use eris::trit::{Trit, TritField};

#[test]
fn test_trit_conversion() {
    // 1. Test Negative ( -1 -3 -9 = -13 )
    let source = TritField(vec![Trit::Negative, Trit::Negative, Trit::Negative]);
    let decimal = source.to_i128();
    assert_eq!(decimal, -13);

    // 2. Convert back to a larger field (5 trits)
    let wider = TritField::from_i128(decimal, 5);

    println!("TritField {:?}", wider);

    // Check if the first 3 trits match the source
    assert_eq!(wider.0[0], Trit::Negative);
    assert_eq!(wider.0[1], Trit::Negative);
    assert_eq!(wider.0[2], Trit::Negative);
    // Check if padding is Zero
    assert_eq!(wider.0[3], Trit::Zero);
    assert_eq!(wider.0[4], Trit::Zero);

    println!("Decimal: {}, Wider Field: {:?}", decimal, wider);
}

#[test]
fn test_round_trip_representable_values() {
    // |x| <= (3^5 - 1) / 2 = 121 round-trips exactly through a 5-trit field.
    for x in [-121i128, -40, -13, -1, 0, 1, 2, 7, 100, 121] {
        let field = TritField::from_i128(x, 5);
        assert_eq!(field.to_i128(), x);
        // And converting the recovered value again gives the same field.
        let again = TritField::from_i128(field.to_i128(), 5);
        assert_eq!(again, field);
    }
}

#[test]
fn test_out_of_range_value_wraps() {
    // One past the widest single trit: 2 wraps to -1 in a 1-trit field.
    assert_eq!(TritField::from_i128(2, 1).to_i128(), -1);

    // One past the word maximum (3^27 - 1) / 2 wraps to the word minimum.
    let max: i128 = 3812798742493;
    assert_eq!(TritField::from_i128(max, 27).to_i128(), max);
    assert_eq!(TritField::from_i128(max + 1, 27).to_i128(), -max);
    assert_eq!(TritField::from_i128(-max - 1, 27).to_i128(), max);
}

#[test]
fn test_trit_integer_mapping() {
    assert_eq!(Trit::Negative.to_i8(), -1);
    assert_eq!(Trit::Zero.to_i8(), 0);
    assert_eq!(Trit::Positive.to_i8(), 1);
    assert_eq!(Trit::from_i8(-1), Trit::Negative);
    assert_eq!(Trit::from_i8(0), Trit::Zero);
    assert_eq!(Trit::from_i8(1), Trit::Positive);
    // Anything else falls back to Zero.
    assert_eq!(Trit::from_i8(5), Trit::Zero);
    assert_eq!(Trit::from_i8(-3), Trit::Zero);
}

#[test]
fn test_zeros_is_zero_word() {
    let z = TritField::zeros(27);
    assert_eq!(z.0.len(), 27);
    assert_eq!(z.to_i128(), 0);
    for t in z.0.iter() {
        assert_eq!(*t, Trit::Zero);
    }
}
