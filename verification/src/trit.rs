//! Balanced-ternary digits and fixed-width digit strings.
//!
//! A `Trit` is a digit in {-1, 0, 1}; a `TritField` is an ordered string of
//! trits, position 0 least significant, read as a signed base-3 positional
//! number.  Conversion from an integer wraps out-of-range values by a
//! carry-adjusting reduction (a modulo-3^N reduction with digit rebalancing),
//! by design rather than failing.

use vstd::arithmetic::div_mod::{
    lemma_fundamental_div_mod, lemma_fundamental_div_mod_converse_div,
    lemma_fundamental_div_mod_converse_mod,
};
use vstd::arithmetic::power::{lemma_pow0, lemma_pow1, lemma_pow_adds, lemma_pow_positive, pow};
use vstd::prelude::*;

verus! {

/// One balanced-ternary digit, totally ordered Negative < Zero < Positive.
#[derive(Clone, Copy, Debug, PartialEq, Eq, Structural)]
pub enum Trit {
    Negative,
    Zero,
    Positive,
}

/// The integer a single trit stands for: -1, 0 or 1.
pub open spec fn trit_int(t: Trit) -> int {
    match t {
        Trit::Negative => -1,
        Trit::Zero => 0,
        Trit::Positive => 1,
    }
}

/// The trit standing for an integer: -1 and 1 map to the signed digits,
/// everything else falls back to Zero.
pub open spec fn trit_of(v: int) -> Trit {
    if v == -1 {
        Trit::Negative
    } else if v == 1 {
        Trit::Positive
    } else {
        Trit::Zero
    }
}

impl Trit {
    pub fn to_i8(self) -> (r: i8)
        ensures
            r as int == trit_int(self),
    {
        match self {
            Trit::Negative => -1,
            Trit::Zero => 0,
            Trit::Positive => 1,
        }
    }

    pub fn from_i8(val: i8) -> (r: Self)
        ensures
            r == trit_of(val as int),
    {
        match val {
            -1 => Trit::Negative,
            1 => Trit::Positive,
            _ => Trit::Zero,
        }
    }
}

impl Default for Trit {
    fn default() -> (r: Self)
        ensures
            r == Trit::Zero,
    {
        Trit::Zero
    }
}

/// 3 raised to the power `n`.
pub open spec fn pow3(n: nat) -> int {
    pow(3, n)
}

/// The integer a digit string stands for, least-significant digit first.
pub open spec fn field_value(s: Seq<Trit>) -> int
    decreases s.len(),
{
    if s.len() == 0 {
        0
    } else {
        trit_int(s[0]) + 3 * field_value(s.subrange(1, s.len() as int))
    }
}

/// The balanced remainder of `v` by 3: the unique digit in {-1, 0, 1}
/// congruent to `v` modulo 3.
pub open spec fn bal_rem(v: int) -> int {
    if v % 3 == 2 {
        -1
    } else {
        v % 3
    }
}

/// The balanced quotient of `v` by 3: `(v - bal_rem(v)) / 3`.
pub open spec fn bal_quot(v: int) -> int {
    if v % 3 == 2 {
        v / 3 + 1
    } else {
        v / 3
    }
}

/// The `n`-digit balanced-ternary string for `v`, produced by the
/// carry-adjusting reduction; values out of range wrap modulo `3^n`.
pub open spec fn bt_digits(v: int, n: nat) -> Seq<Trit>
    decreases n,
{
    if n == 0 {
        Seq::empty()
    } else {
        seq![trit_of(bal_rem(v))] + bt_digits(bal_quot(v), (n - 1) as nat)
    }
}

/// The value `v` wraps to when squeezed into `n` balanced-ternary digits:
/// the representative of `v` modulo `3^n` lying in `[-(3^n-1)/2, (3^n-1)/2]`.
pub open spec fn bal_wrap(v: int, n: nat) -> int {
    field_value(bt_digits(v, n))
}

/// The balanced quotient and remainder reconstruct the dividend, and the
/// remainder is a digit.
pub proof fn lemma_bal_divmod(v: int)
    ensures
        v == 3 * bal_quot(v) + bal_rem(v),
        -1 <= bal_rem(v) <= 1,
        trit_int(trit_of(bal_rem(v))) == bal_rem(v),
{
    lemma_fundamental_div_mod(v, 3);
}

pub proof fn lemma_pow3_pos(n: nat)
    ensures
        pow3(n) >= 1,
{
    lemma_pow_positive(3, n);
}

pub proof fn lemma_pow3_unfold(n: nat)
    requires
        n >= 1,
    ensures
        pow3(n) == 3 * pow3((n - 1) as nat),
{
    lemma_pow_adds(3, 1nat, (n - 1) as nat);
    lemma_pow1(3);
}

/// A digit string of length `n` stands for a value of magnitude at most
/// `(3^n - 1) / 2`.
pub proof fn lemma_field_value_bound(s: Seq<Trit>)
    ensures
        -(pow3(s.len()) - 1) <= 2 * field_value(s) <= pow3(s.len()) - 1,
    decreases s.len(),
{
    if s.len() == 0 {
        lemma_pow0(3);
    } else {
        let rest = s.subrange(1, s.len() as int);
        lemma_field_value_bound(rest);
        lemma_pow3_unfold(s.len());
        assert(field_value(s) == trit_int(s[0]) + 3 * field_value(rest));
    }
}

/// The length of the digit string produced by the reduction.
pub proof fn lemma_bt_digits_len(v: int, n: nat)
    ensures
        bt_digits(v, n).len() == n,
    decreases n,
{
    if n > 0 {
        lemma_bt_digits_len(bal_quot(v), (n - 1) as nat);
    }
}

proof fn lemma_pow3_odd(n: nat)
    ensures
        pow3(n) % 2 == 1,
    decreases n,
{
    if n == 0 {
        lemma_pow0(3);
    } else {
        let m = pow3((n - 1) as nat);
        lemma_pow3_odd((n - 1) as nat);
        lemma_pow3_unfold(n);
        lemma_fundamental_div_mod(m, 2);
        lemma_fundamental_div_mod_converse_mod(pow3(n), 2, 3 * (m / 2) + 1, 1);
    }
}

/// Shrinking step for the balanced quotient: a representable value's
/// quotient is representable one digit shorter.
proof fn lemma_bal_quot_bound(v: int, n: nat)
    requires
        n >= 1,
        -(pow3(n) - 1) <= 2 * v <= pow3(n) - 1,
    ensures
        -(pow3((n - 1) as nat) - 1) <= 2 * bal_quot(v) <= pow3((n - 1) as nat) - 1,
{
    lemma_bal_divmod(v);
    lemma_pow3_unfold(n);
    lemma_pow3_pos((n - 1) as nat);
    lemma_pow3_odd((n - 1) as nat);
    let p = pow3((n - 1) as nat);
    let q = bal_quot(v);
    assert(2 * v == 6 * q + 2 * bal_rem(v));
    if 2 * q > p - 1 {
        assert((2 * q) % 2 == 0);
        assert(2 * q >= p + 1);
        assert(2 * v >= 3 * p + 1);
    }
    if 2 * q < -(p - 1) {
        assert((2 * q) % 2 == 0);
        assert(2 * q <= -p - 1);
        assert(2 * v <= -(3 * p) - 1);
    }
}

/// Converting a representable value to digits and back returns it exactly:
/// the reduction is the identity on `[-(3^n-1)/2, (3^n-1)/2]`.
pub proof fn lemma_bt_digits_value(v: int, n: nat)
    requires
        -(pow3(n) - 1) <= 2 * v <= pow3(n) - 1,
    ensures
        field_value(bt_digits(v, n)) == v,
    decreases n,
{
    if n == 0 {
        lemma_pow0(3);
    } else {
        let d = trit_of(bal_rem(v));
        let q = bal_quot(v);
        let rest = bt_digits(q, (n - 1) as nat);
        lemma_bal_divmod(v);
        lemma_bal_quot_bound(v, n);
        lemma_bt_digits_value(q, (n - 1) as nat);
        lemma_bt_digits_len(q, (n - 1) as nat);
        let whole = seq![d] + rest;
        assert(whole.subrange(1, whole.len() as int) =~= rest);
        assert(field_value(whole) == trit_int(d) + 3 * field_value(rest));
    }
}

/// A digit string is recovered exactly from its value: digit strings of one
/// length never collide on a value.
pub proof fn lemma_bt_digits_unique(s: Seq<Trit>)
    ensures
        bt_digits(field_value(s), s.len()) == s,
    decreases s.len(),
{
    if s.len() == 0 {
        assert(bt_digits(field_value(s), s.len()) =~= s);
    } else {
        let v = field_value(s);
        let d = trit_int(s[0]);
        let rest = s.subrange(1, s.len() as int);
        let fr = field_value(rest);
        assert(v == d + 3 * fr);
        if d == -1 {
            assert(v == (fr - 1) * 3 + 2);
            lemma_fundamental_div_mod_converse_mod(v, 3, fr - 1, 2);
            lemma_fundamental_div_mod_converse_div(v, 3, fr - 1, 2);
        } else {
            assert(v == fr * 3 + d);
            lemma_fundamental_div_mod_converse_mod(v, 3, fr, d);
            lemma_fundamental_div_mod_converse_div(v, 3, fr, d);
        }
        assert(bal_rem(v) == d);
        assert(bal_quot(v) == fr);
        lemma_bt_digits_unique(rest);
        assert(bt_digits(v, s.len()) =~= s);
    }
}

/// Adding a multiple of `3^n` does not change the `n`-digit reduction:
/// the reduction is a wrap modulo `3^n`.
pub proof fn lemma_bt_digits_shift(v: int, k: int, n: nat)
    ensures
        bt_digits(v + pow3(n) * k, n) == bt_digits(v, n),
    decreases n,
{
    if n == 0 {
        assert(bt_digits(v + pow3(n) * k, n) =~= bt_digits(v, n));
    } else {
        let w = v + pow3(n) * k;
        lemma_fundamental_div_mod(v, 3);
        lemma_pow3_unfold(n);
        assert(pow3(n) * k == 3 * (pow3((n - 1) as nat) * k)) by (nonlinear_arith)
            requires
                pow3(n) == 3 * pow3((n - 1) as nat),
        ;
        assert(w == (v / 3 + pow3((n - 1) as nat) * k) * 3 + v % 3) by (nonlinear_arith)
            requires
                w == v + 3 * (pow3((n - 1) as nat) * k),
                v == 3 * (v / 3) + v % 3,
        ;
        lemma_fundamental_div_mod_converse_mod(w, 3, v / 3 + pow3((n - 1) as nat) * k, v % 3);
        lemma_fundamental_div_mod_converse_div(w, 3, v / 3 + pow3((n - 1) as nat) * k, v % 3);
        assert(bal_rem(w) == bal_rem(v));
        assert(bal_quot(w) == bal_quot(v) + pow3((n - 1) as nat) * k);
        lemma_bt_digits_shift(bal_quot(v), k, (n - 1) as nat);
    }
}

/// Round-trip law: for every width `n` and every value whose magnitude is
/// at most `(3^n - 1) / 2` (stated here doubled to stay in integers),
/// converting to digits and back to a value is the identity, and therefore
/// converting the recovered value to digits again reproduces the same
/// digits.
pub proof fn lemma_round_trip(v: int, n: nat)
    requires
        -(pow3(n) - 1) <= 2 * v <= pow3(n) - 1,
    ensures
        field_value(bt_digits(v, n)) == v,
        bt_digits(field_value(bt_digits(v, n)), n) == bt_digits(v, n),
{
    lemma_bt_digits_value(v, n);
}

/// Wrapping changes a value by an exact multiple of `3^n`: the reduction
/// really is a reduction modulo `3^n`.
pub proof fn lemma_bal_wrap_congruence(v: int, n: nat)
    ensures
        exists|k: int| bal_wrap(v, n) == v - #[trigger] (pow3(n) * k),
    decreases n,
{
    if n == 0 {
        lemma_pow0(3);
        assert(bal_wrap(v, n) == v - pow3(n) * v) by (nonlinear_arith)
            requires
                pow3(n) == 1,
                bal_wrap(v, n) == 0,
        ;
    } else {
        let d = bal_rem(v);
        let q = bal_quot(v);
        lemma_bal_divmod(v);
        lemma_bal_wrap_congruence(q, (n - 1) as nat);
        let k1 = choose|k: int| bal_wrap(q, (n - 1) as nat) == q - #[trigger] (pow3((n - 1) as nat) * k);
        let whole = seq![trit_of(d)] + bt_digits(q, (n - 1) as nat);
        lemma_bt_digits_len(q, (n - 1) as nat);
        assert(whole.subrange(1, whole.len() as int) =~= bt_digits(q, (n - 1) as nat));
        assert(bal_wrap(v, n) == d + 3 * bal_wrap(q, (n - 1) as nat));
        lemma_pow3_unfold(n);
        assert(d + 3 * (q - pow3((n - 1) as nat) * k1) == v - pow3(n) * k1) by (nonlinear_arith)
            requires
                v == 3 * q + d,
                pow3(n) == 3 * pow3((n - 1) as nat),
        ;
        assert(bal_wrap(v, n) == v - pow3(n) * k1);
    }
}

/// A digit string stands for zero exactly when every digit is Zero.
pub proof fn lemma_zero_value(s: Seq<Trit>)
    ensures
        field_value(s) == 0 <==> (forall|i: int| 0 <= i < s.len() ==> s[i] == Trit::Zero),
    decreases s.len(),
{
    if s.len() > 0 {
        let rest = s.subrange(1, s.len() as int);
        lemma_zero_value(rest);
        lemma_field_value_bound(rest);
        if field_value(s) == 0 {
            assert(trit_int(s[0]) + 3 * field_value(rest) == 0);
            assert(forall|i: int|
                0 <= i < s.len() ==> #[trigger] s[i] == (if i == 0 {
                    s[0]
                } else {
                    rest[i - 1]
                }));
        }
    }
}

/// Appending a digit adds its value at the next power of 3.
pub proof fn lemma_field_value_snoc(s: Seq<Trit>, t: Trit)
    ensures
        field_value(s.push(t)) == field_value(s) + pow3(s.len()) * trit_int(t),
    decreases s.len(),
{
    if s.len() == 0 {
        lemma_pow0(3);
        assert(s.push(t).subrange(1, 1) =~= Seq::<Trit>::empty());
        assert(s.push(t)[0] == t);
        assert(field_value(Seq::<Trit>::empty()) == 0);
        assert(field_value(s.push(t)) == trit_int(t));
    } else {
        let rest = s.subrange(1, s.len() as int);
        lemma_field_value_snoc(rest, t);
        assert(s.push(t).subrange(1, s.push(t).len() as int) =~= rest.push(t));
        assert(field_value(s.push(t)) == trit_int(s[0]) + 3 * field_value(rest.push(t)));
        assert(field_value(s) == trit_int(s[0]) + 3 * field_value(rest));
        lemma_pow3_unfold(s.len());
        assert(3 * (pow3((s.len() - 1) as nat) * trit_int(t)) == pow3(s.len()) * trit_int(t))
            by (nonlinear_arith)
            requires
                pow3(s.len()) == 3 * pow3((s.len() - 1) as nat),
        ;
    }
}

/// The all-zero digit string is the reduction of zero.
pub proof fn lemma_bt_digits_zero(n: nat)
    ensures
        bt_digits(0, n).len() == n,
        forall|i: int| 0 <= i < n ==> bt_digits(0, n)[i] == Trit::Zero,
        field_value(bt_digits(0, n)) == 0,
    decreases n,
{
    lemma_bt_digits_len(0, n);
    if n > 0 {
        lemma_bt_digits_zero((n - 1) as nat);
        assert(bal_rem(0) == 0);
        assert(bal_quot(0) == 0);
    }
    lemma_zero_value(bt_digits(0, n));
}

/// The numeric value of `3^80`, the widest field whose value conversion
/// stays inside `i128`.
pub proof fn lemma_pow3_eighty()
    ensures
        pow3(80nat) == 147808829414345923316083210206383297601,
{
    lemma_pow0(3);
    assert(pow3(1nat) == 3) by {
        lemma_pow1(3);
    }
    lemma_pow3_unfold(2);
    lemma_pow3_unfold(3);
    lemma_pow3_unfold(4);
    lemma_pow3_unfold(5);
    lemma_pow3_unfold(6);
    lemma_pow3_unfold(7);
    lemma_pow3_unfold(8);
    lemma_pow3_unfold(9);
    lemma_pow3_unfold(10);
    assert(pow3(10nat) == 59049);
    lemma_pow_adds(3, 10nat, 10nat);
    assert(pow3(20nat) == 59049 * 59049);
    assert(pow3(20nat) == 3486784401);
    lemma_pow_adds(3, 20nat, 20nat);
    assert(pow3(40nat) == 3486784401 * 3486784401);
    assert(pow3(40nat) == 12157665459056928801);
    lemma_pow_adds(3, 40nat, 40nat);
    assert(pow3(80nat) == 12157665459056928801 * 12157665459056928801);
}

/// The numeric values of the powers of 3 at the machine's field widths:
/// the register-index width, the opcode width, the immediate width and the
/// word width.
pub proof fn lemma_pow3_widths()
    ensures
        pow3(3nat) == 27,
        pow3(5nat) == 243,
        pow3(13nat) == 1594323,
        pow3(27nat) == 7625597484987,
{
    lemma_pow0(3);
    lemma_pow1(3);
    lemma_pow3_unfold(2);
    lemma_pow3_unfold(3);
    lemma_pow3_unfold(4);
    lemma_pow3_unfold(5);
    lemma_pow3_unfold(6);
    lemma_pow3_unfold(7);
    lemma_pow3_unfold(8);
    lemma_pow3_unfold(9);
    lemma_pow3_unfold(10);
    lemma_pow3_unfold(11);
    lemma_pow3_unfold(12);
    lemma_pow3_unfold(13);
    assert(pow3(13nat) == 1594323);
    lemma_pow_adds(3, 13nat, 13nat);
    assert(pow3(26nat) == 1594323 * 1594323);
    lemma_pow3_unfold(27);
}

/// An ordered, fixed-length string of trits, position 0 least significant,
/// read as a signed balanced-ternary number.  The length is fixed at
/// construction and never changes.
#[derive(Debug)]
pub struct TritField(pub Vec<Trit>);

/// The machine word and instruction-encoding unit: 27 trits.
pub type Tryte = TritField;

impl View for TritField {
    type V = Seq<Trit>;

    open spec fn view(&self) -> Seq<Trit> {
        self.0@
    }
}

impl Clone for TritField {
    fn clone(&self) -> (res: Self)
        ensures
            res@ == self@,
    {
        let mut v: Vec<Trit> = Vec::new();
        let mut i: usize = 0;
        while i < self.0.len()
            invariant
                i <= self@.len(),
                v@.len() == i as nat,
                forall|j: int| 0 <= j < i ==> v@[j] == self@[j],
            decreases self@.len() - i,
        {
            v.push(self.0[i]);
            i += 1;
        }
        proof {
            assert(v@ =~= self@);
        }
        TritField(v)
    }
}

impl PartialEq for TritField {
    fn eq(&self, other: &Self) -> (r: bool) {
        if self.0.len() != other.0.len() {
            return false;
        }
        let mut i: usize = 0;
        while i < self.0.len()
            invariant
                i <= self@.len(),
                self@.len() == other@.len(),
                forall|j: int| 0 <= j < i ==> self@[j] == other@[j],
            decreases self@.len() - i,
        {
            if self.0[i] != other.0[i] {
                return false;
            }
            i += 1;
        }
        proof {
            assert(self@ =~= other@);
        }
        true
    }
}

impl vstd::std_specs::cmp::PartialEqSpecImpl for TritField {
    open spec fn obeys_eq_spec() -> bool {
        true
    }

    open spec fn eq_spec(&self, other: &Self) -> bool {
        self@ == other@
    }
}

impl TritField {
    /// True of a field whose length is exactly `n`.
    pub open spec fn wf(&self, n: nat) -> bool {
        self@.len() == n
    }

    /// The all-zero field of the given width: the zero word.
    pub fn zeros(width: usize) -> (r: TritField)
        ensures
            r@ == bt_digits(0, width as nat),
            r@.len() == width as nat,
            forall|i: int| 0 <= i < width ==> r@[i] == Trit::Zero,
            field_value(r@) == 0,
    {
        let mut v: Vec<Trit> = Vec::new();
        let mut i: usize = 0;
        while i < width
            invariant
                i <= width,
                v@.len() == i as nat,
                forall|j: int| 0 <= j < i ==> v@[j] == Trit::Zero,
            decreases width - i,
        {
            v.push(Trit::Zero);
            i += 1;
        }
        proof {
            lemma_bt_digits_zero(width as nat);
            assert(v@ =~= bt_digits(0, width as nat));
        }
        TritField(v)
    }

    /// The signed integer this field stands for.
    pub fn to_i128(&self) -> (r: i128)
        requires
            self@.len() <= 80,
        ensures
            r as int == field_value(self@),
    {
        let n = self.0.len();
        let mut value: i128 = 0;
        let mut power: i128 = 1;
        let mut i: usize = 0;
        proof {
            lemma_pow0(3);
            assert(self@.subrange(0, 0) =~= Seq::<Trit>::empty());
        }
        while i < n
            invariant
                i <= n,
                n == self@.len(),
                n <= 80,
                value as int == field_value(self@.subrange(0, i as int)),
                power as int == pow3(i as nat),
            decreases n - i,
        {
            proof {
                lemma_pow3_eighty();
                vstd::arithmetic::power::lemma_pow_increases(3, (i + 1) as nat, 80nat);
                lemma_pow3_unfold((i + 1) as nat);
                lemma_field_value_bound(self@.subrange(0, i as int));
                lemma_field_value_snoc(self@.subrange(0, i as int), self@[i as int]);
                assert(self@.subrange(0, i + 1) =~= self@.subrange(0, i as int).push(
                    self@[i as int],
                ));
            }
            let t = self.0[i];
            if t == Trit::Positive {
                value = value + power;
            } else if t == Trit::Negative {
                value = value - power;
            }
            power = power * 3;
            i += 1;
        }
        proof {
            assert(self@.subrange(0, n as int) =~= self@);
        }
        value
    }

    /// Builds the field of the given width standing for `value`; a value
    /// outside the representable range wraps via the carry-adjusting
    /// reduction instead of failing.
    pub fn from_i128(value: i128, width: usize) -> (r: TritField)
        requires
            value > i128::MIN,
        ensures
            r@ == bt_digits(value as int, width as nat),
            r@.len() == width as nat,
    {
        let mut digits: Vec<Trit> = Vec::new();
        let mut n: i128 = value;
        let mut i: usize = 0;
        proof {
            lemma_bt_digits_len(value as int, width as nat);
            assert(Seq::<Trit>::empty() + bt_digits(value as int, width as nat) =~= bt_digits(
                value as int,
                width as nat,
            ));
        }
        while i < width
            invariant
                i <= width,
                digits@.len() == i as nat,
                n > i128::MIN,
                digits@ + bt_digits(n as int, (width - i) as nat) == bt_digits(
                    value as int,
                    width as nat,
                ),
            decreases width - i,
        {
            let (q, r) = bal_step(n);
            let d = Trit::from_i8(r as i8);
            proof {
                let rem_len = (width - i) as nat;
                lemma_bt_digits_len(q as int, (rem_len - 1) as nat);
                assert(bt_digits(n as int, rem_len) == seq![trit_of(bal_rem(n as int))]
                    + bt_digits(bal_quot(n as int), (rem_len - 1) as nat));
                assert(digits@.push(d) + bt_digits(q as int, (rem_len - 1) as nat) =~= digits@
                    + bt_digits(n as int, rem_len));
            }
            digits.push(d);
            n = q;
            i += 1;
        }
        proof {
            assert(digits@ + bt_digits(n as int, 0) =~= digits@);
        }
        TritField(digits)
    }
}

/// One step of the carry-adjusting reduction: splits `v` into a balanced
/// quotient and a remainder digit in {-1, 0, 1}.
fn bal_step(v: i128) -> (res: (i128, i128))
    requires
        v > i128::MIN,
    ensures
        res.0 as int == bal_quot(v as int),
        res.1 as int == bal_rem(v as int),
        res.0 > i128::MIN,
{
    if v >= 0 {
        let m = v as u128;
        let q = (m / 3) as i128;
        let r = (m % 3) as i128;
        proof {
            lemma_fundamental_div_mod(m as int, 3);
        }
        if r == 2 {
            (q + 1, -1)
        } else {
            (q, r)
        }
    } else {
        let m = (-v) as u128;
        let q = (m / 3) as i128;
        let r = (m % 3) as i128;
        proof {
            lemma_fundamental_div_mod(m as int, 3);
            let vi = v as int;
            if r == 0 {
                lemma_fundamental_div_mod_converse_mod(vi, 3, -(q as int), 0);
                lemma_fundamental_div_mod_converse_div(vi, 3, -(q as int), 0);
            } else if r == 1 {
                lemma_fundamental_div_mod_converse_mod(vi, 3, -(q as int) - 1, 2);
                lemma_fundamental_div_mod_converse_div(vi, 3, -(q as int) - 1, 2);
            } else {
                lemma_fundamental_div_mod_converse_mod(vi, 3, -(q as int) - 1, 1);
                lemma_fundamental_div_mod_converse_div(vi, 3, -(q as int) - 1, 1);
            }
        }
        if r == 2 {
            (-q - 1, 1)
        } else {
            (-q, -r)
        }
    }
}

} // verus!
