//! Identifiers as the `uuid` crate reads them, and numbers and prices as
//! text.
use vstd::prelude::*;
use vstd::string::StringExecFns;

verus! {

/// The character of a hexadecimal digit, in lower case.
pub open spec fn hex_char(d: int) -> char {
    if d < 10 {
        digit_char(d)
    } else if d == 10 {
        'a'
    } else if d == 11 {
        'b'
    } else if d == 12 {
        'c'
    } else if d == 13 {
        'd'
    } else if d == 14 {
        'e'
    } else {
        'f'
    }
}

/// Sixteen to the power of `n`.
pub open spec fn sixteen_to(n: nat) -> int
    decreases n,
{
    if n == 0 {
        1
    } else {
        16 * sixteen_to((n - 1) as nat)
    }
}

/// The hexadecimal digit of `id` at place `k` of 32, the highest first.
pub open spec fn hex_digit(id: u128, k: int) -> int {
    (id as int / sixteen_to((31 - k) as nat)) % 16
}

/// The text of the identifier with the given 128-bit value: its 32
/// hexadecimal digits in lower case, the highest first, in groups of 8, 4,
/// 4, 4 and 12 with hyphens between them.
pub open spec fn uuid_text(id: u128) -> Seq<char> {
    Seq::new(
        36,
        |i: int|
            if i < 8 {
                hex_char(hex_digit(id, i))
            } else if i == 8 {
                '-'
            } else if i < 13 {
                hex_char(hex_digit(id, i - 1))
            } else if i == 13 {
                '-'
            } else if i < 18 {
                hex_char(hex_digit(id, i - 2))
            } else if i == 18 {
                '-'
            } else if i < 23 {
                hex_char(hex_digit(id, i - 3))
            } else if i == 23 {
                '-'
            } else {
                hex_char(hex_digit(id, i - 4))
            },
    )
}

/// Calls `uuid::Uuid::is_nil` on the identifier with the given value. The
/// crate holds an identifier as the sixteen big-endian bytes of its value and
/// calls it nil when that value is zero.
#[verifier::external_body]
pub(crate) fn is_nil(id: u128) -> (nil: bool)
    ensures
        nil == (id == 0),
{
    uuid::Uuid::from_u128(id).is_nil()
}

/// Calls `to_string` on the `uuid::Uuid` with the given value. The crate
/// holds the value as sixteen bytes, the highest first, and writes each byte
/// as two hexadecimal digits in lower case, with a hyphen after the 4th, 6th,
/// 8th and 10th byte.
#[verifier::external_body]
pub(crate) fn uuid_to_string(id: u128) -> (s: String)
    ensures
        s@ == uuid_text(id),
{
    uuid::Uuid::from_u128(id).to_string()
}

/// The character of a decimal digit.
pub open spec fn digit_char(d: int) -> char {
    if d == 0 {
        '0'
    } else if d == 1 {
        '1'
    } else if d == 2 {
        '2'
    } else if d == 3 {
        '3'
    } else if d == 4 {
        '4'
    } else if d == 5 {
        '5'
    } else if d == 6 {
        '6'
    } else if d == 7 {
        '7'
    } else if d == 8 {
        '8'
    } else {
        '9'
    }
}

/// The decimal digits of a number that is not negative, without leading
/// zeros.
pub open spec fn digits(n: int) -> Seq<char>
    decreases n,
{
    if n < 10 {
        seq![digit_char(n)]
    } else {
        digits(n / 10).push(digit_char(n % 10))
    }
}

/// A number in decimal, with a minus sign where it is negative.
pub open spec fn decimal_text(n: int) -> Seq<char> {
    if n < 0 {
        seq!['-'] + digits(-n)
    } else {
        digits(n)
    }
}

/// A price in hundredths as a decimal number with two places: 9050 is
/// "90.50".
pub open spec fn price_text(price: int) -> Seq<char> {
    let size = if price < 0 {
        -price
    } else {
        price
    };
    let sign = if price < 0 {
        seq!['-']
    } else {
        Seq::<char>::empty()
    };
    sign + digits(size / 100) + seq!['.', digit_char((size % 100) / 10), digit_char(size % 10)]
}

fn digit_str(d: u8) -> (s: &'static str)
    requires
        d < 10,
    ensures
        s@ == seq![digit_char(d as int)],
{
    proof {
        reveal_strlit("0");
        reveal_strlit("1");
        reveal_strlit("2");
        reveal_strlit("3");
        reveal_strlit("4");
        reveal_strlit("5");
        reveal_strlit("6");
        reveal_strlit("7");
        reveal_strlit("8");
        reveal_strlit("9");
    }
    let s = if d == 0 {
        "0"
    } else if d == 1 {
        "1"
    } else if d == 2 {
        "2"
    } else if d == 3 {
        "3"
    } else if d == 4 {
        "4"
    } else if d == 5 {
        "5"
    } else if d == 6 {
        "6"
    } else if d == 7 {
        "7"
    } else if d == 8 {
        "8"
    } else {
        "9"
    };
    assert(s@ =~= seq![digit_char(d as int)]);
    s
}

/// Writes the decimal digits of `n` behind what `s` holds.
fn push_digits(s: &mut String, n: u128)
    ensures
        final(s)@ == old(s)@ + digits(n as int),
    decreases n,
{
    if n >= 10 {
        push_digits(s, n / 10);
    }
    s.append(digit_str((n % 10) as u8));
    proof {
        if n >= 10 {
            assert(final(s)@ =~= old(s)@ + digits(n as int));
        } else {
            assert(final(s)@ =~= old(s)@ + digits(n as int));
        }
    }
}

/// The size of a number.
fn magnitude(n: i128) -> (size: u128)
    ensures
        size == if n < 0 {
            -n
        } else {
            n as int
        },
{
    if n >= 0 {
        n as u128
    } else if n == i128::MIN {
        (i128::MAX as u128) + 1
    } else {
        (-n) as u128
    }
}

/// A number in decimal.
pub fn decimal(n: i128) -> (s: String)
    ensures
        s@ == decimal_text(n as int),
{
    let mut s = if n < 0 {
        String::from_str("-")
    } else {
        String::from_str("")
    };
    proof {
        reveal_strlit("-");
        reveal_strlit("");
    }
    push_digits(&mut s, magnitude(n));
    proof {
        if n < 0 {
            assert(s@ =~= seq!['-'] + digits(-n));
        } else {
            assert(s@ =~= digits(n as int));
        }
    }
    s
}

/// A price in hundredths as a decimal number with two places.
pub fn price_to_string(price: i64) -> (s: String)
    ensures
        s@ == price_text(price as int),
{
    let mut s = if price < 0 {
        String::from_str("-")
    } else {
        String::from_str("")
    };
    proof {
        reveal_strlit("-");
        reveal_strlit("");
        reveal_strlit(".");
    }
    let size = magnitude(price as i128);
    push_digits(&mut s, size / 100);
    s.append(".");
    s.append(digit_str(((size % 100) / 10) as u8));
    s.append(digit_str((size % 10) as u8));
    proof {
        assert(s@ =~= price_text(price as int));
    }
    s
}

} // verus!
