use eris::circuits::ErisCircuit;
use eris::trit::Trit;

/// The seven-row balanced-ternary addition table: raw sum to (sum, carry).
fn table(raw: i8) -> (i8, i8) {
    match raw {
        3 => (0, 1),
        2 => (-1, 1),
        1 => (1, 0),
        0 => (0, 0),
        -1 => (-1, 0),
        -2 => (1, -1),
        -3 => (0, -1),
        _ => unreachable!(),
    }
}

#[test]
fn test_full_trit_adder_matches_table() {
    let circuit = ErisCircuit {};
    for a in [-1i8, 0, 1] {
        for b in [-1i8, 0, 1] {
            for c in [-1i8, 0, 1] {
                let (sum, carry) = circuit.full_trit_adder(
                    Trit::from_i8(a),
                    Trit::from_i8(b),
                    Trit::from_i8(c),
                );
                let (want_sum, want_carry) = table(a + b + c);
                assert_eq!(sum.to_i8(), want_sum, "sum digit for raw {}", a + b + c);
                assert_eq!(carry.to_i8(), want_carry, "carry for raw {}", a + b + c);
            }
        }
    }
}

#[test]
fn test_min_returns_lesser_trit() {
    let circuit = ErisCircuit {};
    for a in [-1i8, 0, 1] {
        for b in [-1i8, 0, 1] {
            let r = circuit.min(Trit::from_i8(a), Trit::from_i8(b));
            let want = if a <= b { a } else { b };
            assert_eq!(r.to_i8(), want);
        }
    }
}
