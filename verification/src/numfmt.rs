//! Decimal formatting of unsigned integers, verified against a
//! mathematical definition of the decimal digit string.

use vstd::prelude::*;

verus! {

/// The character for one decimal digit value in `0 ..= 9`.
pub open spec fn dec_digit(d: int) -> char {
    if d == 0 {
        '0'
    } else if d == 1 {
        '1'
    } else if d == 2 {
        '2'
    } else if d == 3 {
        '3'
    } else if d == 4 {
        '4'
    } else if d == 5 {
        '5'
    } else if d == 6 {
        '6'
    } else if d == 7 {
        '7'
    } else if d == 8 {
        '8'
    } else {
        '9'
    }
}

/// The decimal representation of a nonnegative integer, most significant
/// digit first, with no leading zeros (`0` is written as a single digit).
pub open spec fn dec_seq(n: int) -> Seq<char>
    decreases n,
{
    if n < 10 {
        seq![dec_digit(n)]
    } else {
        dec_seq(n / 10) + seq![dec_digit(n % 10)]
    }
}

/// The characters for a sequence of digit values given least significant
/// first, emitted most significant first.
spec fn digits_text(ds: Seq<u64>) -> Seq<char>
    decreases ds.len(),
{
    if ds.len() == 0 {
        Seq::empty()
    } else {
        seq![dec_digit(ds.last() as int)] + digits_text(ds.drop_last())
    }
}

/// A one-character string for a single decimal digit value.
fn dec_digit_str(d: u64) -> (r: &'static str)
    requires
        d < 10,
    ensures
        r@ == seq![dec_digit(d as int)],
{
    if d == 0 {
        let s = "0";
        proof {
            reveal_strlit("0");
            assert(s@ =~= seq![dec_digit(d as int)]);
        }
        s
    } else if d == 1 {
        let s = "1";
        proof {
            reveal_strlit("1");
            assert(s@ =~= seq![dec_digit(d as int)]);
        }
        s
    } else if d == 2 {
        let s = "2";
        proof {
            reveal_strlit("2");
            assert(s@ =~= seq![dec_digit(d as int)]);
        }
        s
    } else if d == 3 {
        let s = "3";
        proof {
            reveal_strlit("3");
            assert(s@ =~= seq![dec_digit(d as int)]);
        }
        s
    } else if d == 4 {
        let s = "4";
        proof {
            reveal_strlit("4");
            assert(s@ =~= seq![dec_digit(d as int)]);
        }
        s
    } else if d == 5 {
        let s = "5";
        proof {
            reveal_strlit("5");
            assert(s@ =~= seq![dec_digit(d as int)]);
        }
        s
    } else if d == 6 {
        let s = "6";
        proof {
            reveal_strlit("6");
            assert(s@ =~= seq![dec_digit(d as int)]);
        }
        s
    } else if d == 7 {
        let s = "7";
        proof {
            reveal_strlit("7");
            assert(s@ =~= seq![dec_digit(d as int)]);
        }
        s
    } else if d == 8 {
        let s = "8";
        proof {
            reveal_strlit("8");
            assert(s@ =~= seq![dec_digit(d as int)]);
        }
        s
    } else {
        let s = "9";
        proof {
            reveal_strlit("9");
            assert(s@ =~= seq![dec_digit(d as int)]);
        }
        s
    }
}

/// Formats an unsigned integer as its decimal digit string.
pub fn u64_to_string(n: u64) -> (r: String)
    ensures
        r@ == dec_seq(n as int),
{
    let mut digits: Vec<u64> = Vec::new();
    let mut m: u64 = n;
    loop
        invariant_except_break
            digits@.len() == 0 ==> m == n,
            digits@.len() > 0 ==> m > 0 && dec_seq(n as int) == dec_seq(m as int) + digits_text(
                digits@,
            ),
        invariant
            forall|j: int| 0 <= j < digits@.len() ==> digits@[j] < 10,
        ensures
            dec_seq(n as int) == digits_text(digits@),
            forall|j: int| 0 <= j < digits@.len() ==> digits@[j] < 10,
        decreases m,
    {
        let ghost old_digits = digits@;
        let ghost m0 = m as int;
        let d: u64 = m % 10;
        digits.push(d);
        m = m / 10;
        proof {
            assert(digits@.last() == d);
            assert(digits@.drop_last() =~= old_digits);
            assert(digits_text(digits@) == seq![dec_digit(d as int)] + digits_text(old_digits));
            if old_digits.len() == 0 {
                if m0 < 10 {
                    assert(dec_seq(n as int) =~= digits_text(digits@));
                } else {
                    assert(dec_seq(m0) == dec_seq(m0 / 10) + seq![dec_digit(m0 % 10)]);
                    assert(dec_seq(n as int) =~= dec_seq(m as int) + digits_text(digits@));
                }
            } else {
                if m0 < 10 {
                    assert(dec_seq(m0) == seq![dec_digit(m0)]);
                    assert(dec_seq(n as int) =~= digits_text(digits@));
                } else {
                    assert(dec_seq(m0) == dec_seq(m0 / 10) + seq![dec_digit(m0 % 10)]);
                    assert(dec_seq(n as int) =~= dec_seq(m as int) + digits_text(digits@));
                }
            }
        }
        if m == 0 {
            break;
        }
    }
    proof {
        assert(dec_seq(n as int) == digits_text(digits@));
    }
    let mut r = String::new();
    let mut i: usize = digits.len();
    proof {
        assert(digits@.subrange(0, i as int) =~= digits@);
        assert(digits_text(digits@) =~= r@ + digits_text(digits@.subrange(0, i as int)));
    }
    while i > 0
        invariant
            i <= digits@.len(),
            forall|j: int| 0 <= j < digits@.len() ==> digits@[j] < 10,
            dec_seq(n as int) == digits_text(digits@),
            digits_text(digits@) == r@ + digits_text(digits@.subrange(0, i as int)),
        decreases i,
    {
        let d: u64 = digits[i - 1];
        let piece = dec_digit_str(d);
        proof {
            let ghost pre = digits@.subrange(0, i as int);
            assert(pre.last() == digits@[i - 1]);
            assert(pre.drop_last() =~= digits@.subrange(0, i - 1));
            assert(digits_text(pre) == seq![dec_digit(d as int)] + digits_text(
                digits@.subrange(0, i - 1),
            ));
        }
        r.append(piece);
        i = i - 1;
        proof {
            assert(digits_text(digits@) =~= r@ + digits_text(digits@.subrange(0, i as int)));
        }
    }
    proof {
        assert(digits@.subrange(0, 0) =~= Seq::<u64>::empty());
        assert(digits_text(digits@.subrange(0, 0)) == Seq::<char>::empty());
        assert(r@ =~= dec_seq(n as int));
    }
    r
}

} // verus!
