//! Building message text: decimal rendering of integers, exactly.
use vstd::prelude::*;
use vstd::string::StringExecFns;

verus! {

/// The ASCII digit for `d` in `0..10`.
pub open spec fn digit_char(d: int) -> char {
    if d == 0 {
        '0'
    } else if d == 1 {
        '1'
    } else if d == 2 {
        '2'
    } else if d == 3 {
        '3'
    } else if d == 4 {
        '4'
    } else if d == 5 {
        '5'
    } else if d == 6 {
        '6'
    } else if d == 7 {
        '7'
    } else if d == 8 {
        '8'
    } else {
        '9'
    }
}

/// The base-ten digits of `n`, most significant first, without leading
/// zeros (`"0"` for zero).
pub open spec fn digits_of(n: nat) -> Seq<char>
    decreases n,
{
    if n < 10 {
        seq![digit_char(n as int)]
    } else {
        digits_of(n / 10) + seq![digit_char((n % 10) as int)]
    }
}

/// `n` written in base ten, with a leading `-` when negative: what
/// `Display` prints for an integer.
pub open spec fn decimal(n: int) -> Seq<char> {
    if n < 0 {
        seq!['-'] + digits_of((-n) as nat)
    } else {
        digits_of(n as nat)
    }
}

/// The one-character string for the digit `d`.
fn digit_string(d: u128) -> (r: String)
    requires
        d < 10,
    ensures
        r@ == seq![digit_char(d as int)],
{
    let lit = if d == 0 {
        "0"
    } else if d == 1 {
        "1"
    } else if d == 2 {
        "2"
    } else if d == 3 {
        "3"
    } else if d == 4 {
        "4"
    } else if d == 5 {
        "5"
    } else if d == 6 {
        "6"
    } else if d == 7 {
        "7"
    } else if d == 8 {
        "8"
    } else {
        "9"
    };
    proof {
        reveal_strlit("0");
        reveal_strlit("1");
        reveal_strlit("2");
        reveal_strlit("3");
        reveal_strlit("4");
        reveal_strlit("5");
        reveal_strlit("6");
        reveal_strlit("7");
        reveal_strlit("8");
        reveal_strlit("9");
    }
    let r = String::from_str(lit);
    assert(r@ =~= seq![digit_char(d as int)]);
    r
}

/// The base-ten digits of `n`.
fn digits_text(n: u128) -> (r: String)
    ensures
        r@ == digits_of(n as nat),
{
    let mut m: u128 = n / 10;
    let mut s = digit_string(n % 10);
    while m > 0
        invariant
            m == 0 ==> digits_of(n as nat) == s@,
            m > 0 ==> digits_of(n as nat) == digits_of(m as nat) + s@,
        decreases m,
    {
        let d = digit_string(m % 10);
        let ghost old_s = s@;
        s = d.concat(s.as_str());
        proof {
            if m / 10 > 0 {
                assert(digits_of(m as nat) == digits_of((m / 10) as nat) + seq![digit_char((m % 10) as int)]);
                assert(digits_of(n as nat) =~= digits_of((m / 10) as nat) + s@);
            } else {
                assert(digits_of(m as nat) == seq![digit_char((m % 10) as int)]);
                assert(digits_of(n as nat) =~= s@);
            }
        }
        m = m / 10;
    }
    s
}

/// `n` in base ten, as `Display` prints it.
pub fn decimal_text(n: i128) -> (r: String)
    ensures
        r@ == decimal(n as int),
{
    if n < 0 {
        let mag: u128 = if n == i128::MIN {
            0x8000_0000_0000_0000_0000_0000_0000_0000
        } else {
            (-n) as u128
        };
        let digits = digits_text(mag);
        let mut s = String::from_str("-");
        proof {
            reveal_strlit("-");
        }
        s.append(digits.as_str());
        assert(s@ =~= decimal(n as int));
        s
    } else {
        digits_text(n as u128)
    }
}

} // verus!
