//! Text: decimal and fixed-width rendering, and joining of pieces.

use vstd::prelude::*;

verus! {

/// The character of a decimal digit.
pub open spec fn digit_char(d: int) -> char {
    if d == 0 {
        '0'
    } else if d == 1 {
        '1'
    } else if d == 2 {
        '2'
    } else if d == 3 {
        '3'
    } else if d == 4 {
        '4'
    } else if d == 5 {
        '5'
    } else if d == 6 {
        '6'
    } else if d == 7 {
        '7'
    } else if d == 8 {
        '8'
    } else {
        '9'
    }
}

/// Decimal digits of a natural number, most significant first, without
/// leading zeros; zero is `0`.
pub open spec fn dec(n: nat) -> Seq<char>
    decreases n,
{
    if n < 10 {
        seq![digit_char(n as int)]
    } else {
        dec(n / 10).push(digit_char((n % 10) as int))
    }
}

/// Decimal rendering of an integer, with a leading `-` when negative.
pub open spec fn dec_int(n: int) -> Seq<char> {
    if n < 0 {
        seq!['-'] + dec((-n) as nat)
    } else {
        dec(n as nat)
    }
}

/// The last `w` decimal digits of `n`, zeros in front.
pub open spec fn dec_fixed(n: nat, w: nat) -> Seq<char>
    decreases w,
{
    if w == 0 {
        seq![]
    } else {
        dec_fixed(n / 10, (w - 1) as nat).push(digit_char((n % 10) as int))
    }
}

/// One decimal digit as text.
pub fn digit_str(d: u8) -> (r: &'static str)
    requires
        d < 10,
    ensures
        r@ == seq![digit_char(d as int)],
{
    proof {
        reveal_strlit("0");
        reveal_strlit("1");
        reveal_strlit("2");
        reveal_strlit("3");
        reveal_strlit("4");
        reveal_strlit("5");
        reveal_strlit("6");
        reveal_strlit("7");
        reveal_strlit("8");
        reveal_strlit("9");
    }
    let r = if d == 0 {
        "0"
    } else if d == 1 {
        "1"
    } else if d == 2 {
        "2"
    } else if d == 3 {
        "3"
    } else if d == 4 {
        "4"
    } else if d == 5 {
        "5"
    } else if d == 6 {
        "6"
    } else if d == 7 {
        "7"
    } else if d == 8 {
        "8"
    } else {
        "9"
    };
    assert(r@ =~= seq![digit_char(d as int)]);
    r
}

/// A natural number in decimal.
pub fn dec_u64(n: u64) -> (r: String)
    ensures
        r@ == dec(n as nat),
    decreases n,
{
    if n < 10 {
        String::from_str(digit_str(n as u8))
    } else {
        let mut s = dec_u64(n / 10);
        s.append(digit_str((n % 10) as u8));
        assert(s@ =~= dec((n / 10) as nat).push(digit_char((n % 10) as int)));
        s
    }
}

/// A signed number in decimal.
pub fn dec_i64(n: i64) -> (r: String)
    ensures
        r@ == dec_int(n as int),
{
    if n >= 0 {
        dec_u64(n as u64)
    } else {
        proof {
            reveal_strlit("-");
        }
        let m: u64 = if n == i64::MIN {
            0x8000_0000_0000_0000
        } else {
            (-n) as u64
        };
        let s = String::from_str("-").concat(dec_u64(m).as_str());
        assert(s@ =~= seq!['-'] + dec(m as nat));
        s
    }
}

/// A natural number in decimal, zero-padded (or cut) to `w` digits.
pub fn dec_fixed_u64(n: u64, w: usize) -> (r: String)
    ensures
        r@ == dec_fixed(n as nat, w as nat),
    decreases w,
{
    if w == 0 {
        let r = String::new();
        assert(r@ =~= dec_fixed(n as nat, 0));
        r
    } else {
        let mut s = dec_fixed_u64(n / 10, w - 1);
        s.append(digit_str((n % 10) as u8));
        assert(s@ =~= dec_fixed((n / 10) as nat, (w - 1) as nat).push(
            digit_char((n % 10) as int),
        ));
        s
    }
}

/// Three pieces of text, one after the other.
pub fn join3(a: &str, b: &str, c: &str) -> (r: String)
    ensures
        r@ == a@ + b@ + c@,
{
    let mut s = String::from_str(a);
    s.append(b);
    s.append(c);
    s
}

/// Equality of two strings.
pub fn str_eq(a: &str, b: &str) -> (r: bool)
    ensures
        r == (a@ == b@),
{
    let x = String::from_str(a);
    let y = String::from_str(b);
    x == y
}

/// Decimal digits stand for the number: the last digit is the remainder
/// by ten, and the digits before it are those of the quotient.
pub proof fn law_decimal_digits_stand_for_the_number(n: nat)
    ensures
        dec(n).len() >= 1,
        dec(n).last() as int == '0' as int + n % 10,
        n < 10 <==> dec(n).len() == 1,
        n >= 10 ==> dec(n).drop_last() == dec(n / 10),
    decreases n,
{
    if n >= 10 {
        law_decimal_digits_stand_for_the_number(n / 10);
        assert(dec(n).drop_last() =~= dec(n / 10));
    }
}

/// The sign of a number is written in front, and the digits are those of
/// its magnitude; a number that is not negative has no sign.
pub proof fn law_sign_is_written_in_front(n: nat)
    ensures
        dec_int(n as int) == dec(n),
        n > 0 ==> dec_int(-n) == seq!['-'] + dec(n),
{
}

/// A number of fixed width has that many digits, and the digits, from the
/// last, are the remainders by ten.
pub proof fn law_fixed_width_digits_stand_for_the_number(n: nat, w: nat)
    ensures
        dec_fixed(n, w).len() == w,
        w > 0 ==> dec_fixed(n, w).last() as int == '0' as int + n % 10,
        w > 0 ==> dec_fixed(n, w).drop_last() == dec_fixed(n / 10, (w - 1) as nat),
    decreases w,
{
    if w > 0 {
        law_fixed_width_digits_stand_for_the_number(n / 10, (w - 1) as nat);
        assert(dec_fixed(n, w).drop_last() =~= dec_fixed(n / 10, (w - 1) as nat));
    }
}

} // verus!
