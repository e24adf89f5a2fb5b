//! Decimal rendering of integers, used for temporary names and for the
//! emitted assembly text.

use vstd::prelude::*;
use vstd::string::StringExecFns;

verus! {

/// The character of one decimal digit.
pub open spec fn digit_char(d: nat) -> char {
    if d == 0 {
        '0'
    } else if d == 1 {
        '1'
    } else if d == 2 {
        '2'
    } else if d == 3 {
        '3'
    } else if d == 4 {
        '4'
    } else if d == 5 {
        '5'
    } else if d == 6 {
        '6'
    } else if d == 7 {
        '7'
    } else if d == 8 {
        '8'
    } else {
        '9'
    }
}

/// The decimal numeral of `n`, without sign and without leading zeros
/// (a single `'0'` for zero).
pub open spec fn dec_digits(n: nat) -> Seq<char>
    decreases n,
{
    if n < 10 {
        seq![digit_char(n)]
    } else {
        dec_digits(n / 10) + seq![digit_char(n % 10)]
    }
}

/// The decimal numeral of a signed value: a leading `'-'` for negatives.
pub open spec fn dec_int(v: int) -> Seq<char> {
    if v < 0 {
        seq!['-'] + dec_digits((-v) as nat)
    } else {
        dec_digits(v as nat)
    }
}

/// A numeral is never empty.
pub proof fn lemma_dec_digits_len(n: nat)
    ensures
        dec_digits(n).len() >= 1,
    decreases n,
{
    if n >= 10 {
        lemma_dec_digits_len(n / 10);
    }
}

/// Distinct digits have distinct characters.
pub proof fn lemma_digit_char_injective(d1: nat, d2: nat)
    requires
        d1 < 10,
        d2 < 10,
        digit_char(d1) == digit_char(d2),
    ensures
        d1 == d2,
{
}

/// Distinct numbers have distinct numerals.
pub proof fn lemma_dec_digits_injective(a: nat, b: nat)
    requires
        dec_digits(a) == dec_digits(b),
    ensures
        a == b,
    decreases a + b,
{
    lemma_dec_digits_len(a);
    lemma_dec_digits_len(b);
    if a < 10 && b < 10 {
        assert(dec_digits(a)[0] == digit_char(a));
        assert(dec_digits(b)[0] == digit_char(b));
        lemma_digit_char_injective(a, b);
    } else if a < 10 {
        lemma_dec_digits_len(b / 10);
        assert(dec_digits(b).len() >= 2);
    } else if b < 10 {
        lemma_dec_digits_len(a / 10);
        assert(dec_digits(a).len() >= 2);
    } else {
        let la = dec_digits(a / 10).len() as int;
        let lb = dec_digits(b / 10).len() as int;
        assert(dec_digits(a).last() == digit_char(a % 10));
        assert(dec_digits(b).last() == digit_char(b % 10));
        lemma_digit_char_injective(a % 10, b % 10);
        assert(a % 10 == b % 10);
        assert(la == lb);
        assert(dec_digits(a / 10) =~= dec_digits(b / 10)) by {
            assert forall|i: int| 0 <= i < la implies #[trigger] dec_digits(a / 10)[i]
                == dec_digits(b / 10)[i] by {
                assert(dec_digits(a)[i] == dec_digits(a / 10)[i]);
                assert(dec_digits(b)[i] == dec_digits(b / 10)[i]);
            }
        }
        lemma_dec_digits_injective(a / 10, b / 10);
    }
}

/// One decimal digit as a string slice.
fn digit_str(d: u64) -> (s: &'static str)
    requires
        d < 10,
    ensures
        s@ == seq![digit_char(d as nat)],
{
    if d == 0 {
        proof {
            reveal_strlit("0");
            assert("0"@ =~= seq![digit_char(0)]);
        }
        "0"
    } else if d == 1 {
        proof {
            reveal_strlit("1");
            assert("1"@ =~= seq![digit_char(1)]);
        }
        "1"
    } else if d == 2 {
        proof {
            reveal_strlit("2");
            assert("2"@ =~= seq![digit_char(2)]);
        }
        "2"
    } else if d == 3 {
        proof {
            reveal_strlit("3");
            assert("3"@ =~= seq![digit_char(3)]);
        }
        "3"
    } else if d == 4 {
        proof {
            reveal_strlit("4");
            assert("4"@ =~= seq![digit_char(4)]);
        }
        "4"
    } else if d == 5 {
        proof {
            reveal_strlit("5");
            assert("5"@ =~= seq![digit_char(5)]);
        }
        "5"
    } else if d == 6 {
        proof {
            reveal_strlit("6");
            assert("6"@ =~= seq![digit_char(6)]);
        }
        "6"
    } else if d == 7 {
        proof {
            reveal_strlit("7");
            assert("7"@ =~= seq![digit_char(7)]);
        }
        "7"
    } else if d == 8 {
        proof {
            reveal_strlit("8");
            assert("8"@ =~= seq![digit_char(8)]);
        }
        "8"
    } else {
        proof {
            reveal_strlit("9");
            assert("9"@ =~= seq![digit_char(9)]);
        }
        "9"
    }
}

/// Append the decimal numeral of `n` to `out`.
pub fn push_dec_u64(n: u64, out: &mut String)
    ensures
        final(out)@ == old(out)@ + dec_digits(n as nat),
    decreases n,
{
    if n >= 10 {
        push_dec_u64(n / 10, out);
    }
    let ds = digit_str(n % 10);
    out.append(ds);
    proof {
        if n >= 10 {
            assert((old(out)@ + dec_digits((n / 10) as nat)) + ds@ =~= old(out)@ + dec_digits(
                n as nat,
            ));
        } else {
            assert(old(out)@ + ds@ =~= old(out)@ + dec_digits(n as nat));
        }
    }
}

/// Append the decimal numeral of a signed value to `out`.
pub fn push_dec_i64(v: i64, out: &mut String)
    ensures
        final(out)@ == old(out)@ + dec_int(v as int),
{
    if v < 0 {
        out.append("-");
        let wide: i128 = -(v as i128);
        proof {
            assert(0 <= wide <= u64::MAX);
        }
        let m: u64 = wide as u64;
        push_dec_u64(m, out);
        proof {
            reveal_strlit("-");
            assert("-"@ =~= seq!['-']);
            assert((old(out)@ + "-"@) + dec_digits(m as nat) =~= old(out)@ + dec_int(v as int));
        }
    } else {
        push_dec_u64(v as u64, out);
    }
}

/// Append the decimal numeral of a 32-bit signed value to `out`.
pub fn push_dec_i32(v: i32, out: &mut String)
    ensures
        final(out)@ == old(out)@ + dec_int(v as int),
{
    push_dec_i64(v as i64, out);
}

} // verus!
