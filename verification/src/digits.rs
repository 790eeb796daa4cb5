use vstd::prelude::*;
use vstd::arithmetic::div_mod::lemma_fundamental_div_mod;
use vstd::string::StringExecFns;

verus! {

/// The character for decimal digit `d`.
pub open spec fn digit_char(d: int) -> char {
    if d == 0 {
        '0'
    } else if d == 1 {
        '1'
    } else if d == 2 {
        '2'
    } else if d == 3 {
        '3'
    } else if d == 4 {
        '4'
    } else if d == 5 {
        '5'
    } else if d == 6 {
        '6'
    } else if d == 7 {
        '7'
    } else if d == 8 {
        '8'
    } else {
        '9'
    }
}

/// Whether `c` is a decimal digit character.
pub open spec fn is_digit_char(c: char) -> bool {
    c == '0' || c == '1' || c == '2' || c == '3' || c == '4' || c == '5' || c == '6' || c == '7'
        || c == '8' || c == '9'
}

/// Numeric value of a digit character (zero on anything else).
pub open spec fn digit_val(c: char) -> int {
    if c == '1' {
        1
    } else if c == '2' {
        2
    } else if c == '3' {
        3
    } else if c == '4' {
        4
    } else if c == '5' {
        5
    } else if c == '6' {
        6
    } else if c == '7' {
        7
    } else if c == '8' {
        8
    } else if c == '9' {
        9
    } else {
        0
    }
}

/// Decimal rendering of `n`: most significant digit first, no leading
/// zeros (zero itself renders as the single digit `0`).
pub open spec fn dec_str(n: nat) -> Seq<char>
    decreases n,
{
    if n < 10 {
        seq![digit_char(n as int)]
    } else {
        dec_str(n / 10) + seq![digit_char((n % 10) as int)]
    }
}

/// Rendering of a signed value: a minus sign before the digits when the
/// value is negative.
pub open spec fn int_json(i: int) -> Seq<char> {
    if i < 0 {
        seq!['-'] + dec_str((-i) as nat)
    } else {
        dec_str(i as nat)
    }
}

/// Value of a run of digit characters, most significant first.
pub open spec fn num_val(s: Seq<char>) -> int
    decreases s.len(),
{
    if s.len() == 0 {
        0
    } else {
        num_val(s.drop_last()) * 10 + digit_val(s.last())
    }
}

/// Every decimal rendering is a non-empty run of digit characters, and
/// only the rendering of zero starts with the digit `0`.
pub proof fn lemma_dec_str_shape(n: nat)
    ensures
        dec_str(n).len() >= 1,
        forall|i: int| 0 <= i < dec_str(n).len() ==> is_digit_char(dec_str(n)[i]),
        n >= 1 ==> dec_str(n)[0] != '0',
    decreases n,
{
    if n >= 10 {
        lemma_dec_str_shape(n / 10);
        assert(dec_str(n) == dec_str(n / 10) + seq![digit_char((n % 10) as int)]);
        assert(dec_str(n)[0] == dec_str(n / 10)[0]);
        assert(forall|i: int| 0 <= i < dec_str(n).len() ==> is_digit_char(#[trigger] dec_str(n)[i]))
            by {
            assert forall|i: int| 0 <= i < dec_str(n).len() implies is_digit_char(
                #[trigger] dec_str(n)[i],
            ) by {
                if i < dec_str(n / 10).len() {
                    assert(dec_str(n)[i] == dec_str(n / 10)[i]);
                } else {
                    assert(dec_str(n)[i] == digit_char((n % 10) as int));
                }
            }
        }
    }
}

/// Reading a decimal rendering back as a number yields the value that was
/// rendered.
pub proof fn lemma_num_val_dec_str(n: nat)
    ensures
        num_val(dec_str(n)) == n,
    decreases n,
{
    if n < 10 {
        assert(dec_str(n) == seq![digit_char(n as int)]);
        assert(dec_str(n).drop_last() =~= Seq::<char>::empty());
        assert(dec_str(n).last() == digit_char(n as int));
        assert(digit_val(digit_char(n as int)) == n);
        assert(num_val(dec_str(n)) == num_val(Seq::<char>::empty()) * 10 + n);
    } else {
        lemma_num_val_dec_str(n / 10);
        let s = dec_str(n);
        assert(s == dec_str(n / 10) + seq![digit_char((n % 10) as int)]);
        assert(s.drop_last() =~= dec_str(n / 10));
        assert(s.last() == digit_char((n % 10) as int));
        assert(digit_val(digit_char((n % 10) as int)) == n % 10);
        lemma_fundamental_div_mod(n as int, 10);
    }
}

/// Powers of ten.
pub open spec fn pow10(k: nat) -> nat
    decreases k,
{
    if k == 0 {
        1
    } else {
        10 * pow10((k - 1) as nat)
    }
}

/// Powers of ten grow with the exponent.
pub proof fn lemma_pow10_mono(j: nat, k: nat)
    requires
        j <= k,
    ensures
        pow10(j) <= pow10(k),
    decreases k,
{
    if j < k {
        lemma_pow10_mono(j, (k - 1) as nat);
        assert(pow10(k) == 10 * pow10((k - 1) as nat));
        assert(pow10((k - 1) as nat) >= 1) by {
            lemma_pow10_pos((k - 1) as nat);
        }
    }
}

/// Powers of ten are positive.
pub proof fn lemma_pow10_pos(k: nat)
    ensures
        pow10(k) >= 1,
    decreases k,
{
    if k > 0 {
        lemma_pow10_pos((k - 1) as nat);
    }
}

/// The tenth power of ten, written out.
pub proof fn lemma_pow10_10()
    ensures
        pow10(10) == 10000000000,
{
    assert(pow10(0nat) == 1);
    assert(pow10(1nat) == 10);
    assert(pow10(2nat) == 100);
    assert(pow10(3nat) == 1000);
    assert(pow10(4nat) == 10000);
    assert(pow10(5nat) == 100000);
    assert(pow10(6nat) == 1000000);
    assert(pow10(7nat) == 10000000);
    assert(pow10(8nat) == 100000000);
    assert(pow10(9nat) == 1000000000);
    assert(pow10(10nat) == 10000000000);
}

/// A value below the `k`-th power of ten renders in at most `k` digits.
pub proof fn lemma_dec_str_len(n: nat, k: nat)
    requires
        k >= 1,
        n < pow10(k),
    ensures
        dec_str(n).len() <= k,
    decreases k,
{
    if n >= 10 {
        assert(pow10(k) == 10 * pow10((k - 1) as nat));
        if k == 1 {
            assert(pow10(0nat) == 1);
            assert(pow10(1nat) == 10);
            assert(false);
        }
        assert(n / 10 < pow10((k - 1) as nat)) by (nonlinear_arith)
            requires
                n < 10 * pow10((k - 1) as nat),
        ;
        lemma_dec_str_len(n / 10, (k - 1) as nat);
    }
}

/// One decimal digit as a string slice.
fn digit_str(d: u64) -> (r: &'static str)
    requires
        d < 10,
    ensures
        r@ == seq![digit_char(d as int)],
{
    proof {
        reveal_strlit("0");
        reveal_strlit("1");
        reveal_strlit("2");
        reveal_strlit("3");
        reveal_strlit("4");
        reveal_strlit("5");
        reveal_strlit("6");
        reveal_strlit("7");
        reveal_strlit("8");
        reveal_strlit("9");
    }
    let r: &'static str = if d == 0 {
        "0"
    } else if d == 1 {
        "1"
    } else if d == 2 {
        "2"
    } else if d == 3 {
        "3"
    } else if d == 4 {
        "4"
    } else if d == 5 {
        "5"
    } else if d == 6 {
        "6"
    } else if d == 7 {
        "7"
    } else if d == 8 {
        "8"
    } else {
        "9"
    };
    proof {
        assert(r@ =~= seq![digit_char(d as int)]);
    }
    r
}

/// Decimal rendering of `n` as a string.
pub fn dec_string(n: u64) -> (r: String)
    ensures
        r@ == dec_str(n as nat),
    decreases n,
{
    if n < 10 {
        String::from_str(digit_str(n))
    } else {
        let mut s = dec_string(n / 10);
        s.append(digit_str(n % 10));
        s
    }
}

/// Rendering of a signed 32-bit value as a string.
pub fn int_string(n: i32) -> (r: String)
    ensures
        r@ == int_json(n as int),
{
    if n < 0 {
        let m: u64 = (-(n as i64)) as u64;
        let mut s = String::from_str("-");
        proof {
            reveal_strlit("-");
            assert(s@ =~= seq!['-']);
        }
        let d = dec_string(m);
        s.append(d.as_str());
        s
    } else {
        dec_string(n as u64)
    }
}

} // verus!
