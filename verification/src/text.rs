//! Verified text for numbers: decimal, fixed-width hexadecimal, and exact
//! decimal forms of fixed-point values.

use vstd::prelude::*;
use vstd::string::StringExecFns;
use crate::color::Color;
use crate::fixed::{abs_val, FX_ONE};

verus! {

/// The character of one decimal or hexadecimal digit.
pub open spec fn digit_char(d: int) -> char {
    if d == 0 {
        '0'
    } else if d == 1 {
        '1'
    } else if d == 2 {
        '2'
    } else if d == 3 {
        '3'
    } else if d == 4 {
        '4'
    } else if d == 5 {
        '5'
    } else if d == 6 {
        '6'
    } else if d == 7 {
        '7'
    } else if d == 8 {
        '8'
    } else if d == 9 {
        '9'
    } else if d == 10 {
        'a'
    } else if d == 11 {
        'b'
    } else if d == 12 {
        'c'
    } else if d == 13 {
        'd'
    } else if d == 14 {
        'e'
    } else {
        'f'
    }
}

/// The decimal digits of `n`, most significant first.
pub open spec fn spec_dec(n: nat) -> Seq<char>
    decreases n,
{
    if n < 10 {
        seq![digit_char(n as int)]
    } else {
        spec_dec(n / 10) + seq![digit_char((n % 10) as int)]
    }
}

/// The low `width` decimal digits of `n`, zero padded.
pub open spec fn spec_dec_fixed(n: nat, width: nat) -> Seq<char>
    decreases width,
{
    if width == 0 {
        Seq::empty()
    } else {
        spec_dec_fixed(n / 10, (width - 1) as nat) + seq![digit_char((n % 10) as int)]
    }
}

/// The low `width` hexadecimal digits of `n`, zero padded, lower case.
pub open spec fn spec_hex_fixed(n: nat, width: nat) -> Seq<char>
    decreases width,
{
    if width == 0 {
        Seq::empty()
    } else {
        spec_hex_fixed(n / 16, (width - 1) as nat) + seq![digit_char((n % 16) as int)]
    }
}

/// Drop factors of ten while more than one digit position remains.
pub open spec fn strip_tens(n: nat, width: nat) -> (nat, nat)
    decreases width,
{
    if width > 1 && n % 10 == 0 {
        strip_tens(n / 10, (width - 1) as nat)
    } else {
        (n, width)
    }
}

/// The exact decimal form of the fixed-point value `v`: an optional minus
/// sign, the integer part, and, when the fraction is not zero, a point and
/// the fraction's decimal digits (the fraction times `5^16` is its exact
/// sixteen-digit decimal expansion, shown with trailing zeros dropped).
pub open spec fn spec_fx_dec(v: int) -> Seq<char> {
    let sign: Seq<char> = if v < 0 {
        seq!['-']
    } else {
        Seq::empty()
    };
    let mag = abs_val(v);
    let ip = (mag / (FX_ONE as int)) as nat;
    let fp = (mag % (FX_ONE as int)) as nat;
    if fp == 0 {
        sign + spec_dec(ip)
    } else {
        let stripped = strip_tens(fp * 152587890625, 16);
        sign + spec_dec(ip) + seq!['.'] + spec_dec_fixed(stripped.0, stripped.1)
    }
}

/// One digit as a string slice.
fn digit_str(d: u64) -> (r: &'static str)
    requires
        d < 16,
    ensures
        r@ == seq![digit_char(d as int)],
{
    if d == 0 {
        proof {
            reveal_strlit("0");
            assert("0"@ =~= seq![digit_char(0)]);
        }
        "0"
    } else if d == 1 {
        proof {
            reveal_strlit("1");
            assert("1"@ =~= seq![digit_char(1)]);
        }
        "1"
    } else if d == 2 {
        proof {
            reveal_strlit("2");
            assert("2"@ =~= seq![digit_char(2)]);
        }
        "2"
    } else if d == 3 {
        proof {
            reveal_strlit("3");
            assert("3"@ =~= seq![digit_char(3)]);
        }
        "3"
    } else if d == 4 {
        proof {
            reveal_strlit("4");
            assert("4"@ =~= seq![digit_char(4)]);
        }
        "4"
    } else if d == 5 {
        proof {
            reveal_strlit("5");
            assert("5"@ =~= seq![digit_char(5)]);
        }
        "5"
    } else if d == 6 {
        proof {
            reveal_strlit("6");
            assert("6"@ =~= seq![digit_char(6)]);
        }
        "6"
    } else if d == 7 {
        proof {
            reveal_strlit("7");
            assert("7"@ =~= seq![digit_char(7)]);
        }
        "7"
    } else if d == 8 {
        proof {
            reveal_strlit("8");
            assert("8"@ =~= seq![digit_char(8)]);
        }
        "8"
    } else if d == 9 {
        proof {
            reveal_strlit("9");
            assert("9"@ =~= seq![digit_char(9)]);
        }
        "9"
    } else if d == 10 {
        proof {
            reveal_strlit("a");
            assert("a"@ =~= seq![digit_char(10)]);
        }
        "a"
    } else if d == 11 {
        proof {
            reveal_strlit("b");
            assert("b"@ =~= seq![digit_char(11)]);
        }
        "b"
    } else if d == 12 {
        proof {
            reveal_strlit("c");
            assert("c"@ =~= seq![digit_char(12)]);
        }
        "c"
    } else if d == 13 {
        proof {
            reveal_strlit("d");
            assert("d"@ =~= seq![digit_char(13)]);
        }
        "d"
    } else if d == 14 {
        proof {
            reveal_strlit("e");
            assert("e"@ =~= seq![digit_char(14)]);
        }
        "e"
    } else {
        proof {
            reveal_strlit("f");
            assert("f"@ =~= seq![digit_char(15)]);
        }
        "f"
    }
}

/// Append the decimal digits of `n`.
pub fn push_dec(s: &mut String, n: u64)
    ensures
        final(s)@ == old(s)@ + spec_dec(n as nat),
    decreases n,
{
    if n >= 10 {
        push_dec(s, n / 10);
    }
    s.append(digit_str(n % 10));
    proof {
        assert(s@ =~= old(s)@ + spec_dec(n as nat));
    }
}

/// Append the low `width` decimal digits of `n`, zero padded.
pub fn push_dec_fixed(s: &mut String, n: u64, width: u64)
    ensures
        final(s)@ == old(s)@ + spec_dec_fixed(n as nat, width as nat),
    decreases width,
{
    if width > 0 {
        push_dec_fixed(s, n / 10, width - 1);
        s.append(digit_str(n % 10));
    }
    proof {
        assert(s@ =~= old(s)@ + spec_dec_fixed(n as nat, width as nat));
    }
}

/// Append the low `width` hexadecimal digits of `n`, zero padded.
pub fn push_hex_fixed(s: &mut String, n: u64, width: u64)
    ensures
        final(s)@ == old(s)@ + spec_hex_fixed(n as nat, width as nat),
    decreases width,
{
    if width > 0 {
        push_hex_fixed(s, n / 16, width - 1);
        s.append(digit_str(n % 16));
    }
    proof {
        assert(s@ =~= old(s)@ + spec_hex_fixed(n as nat, width as nat));
    }
}

/// Append the exact decimal form of the fixed-point value `v`.
pub fn push_fx_dec(s: &mut String, v: i64)
    requires
        i64::MIN < v,
    ensures
        final(s)@ == old(s)@ + spec_fx_dec(v as int),
{
    let mag: u64 = if v >= 0 {
        v as u64
    } else {
        proof {
            reveal_strlit("-");
            assert("-"@ =~= seq!['-']);
        }
        s.append("-");
        (-v) as u64
    };
    let ip: u64 = mag / (FX_ONE as u64);
    let fp: u64 = mag % (FX_ONE as u64);
    push_dec(s, ip);
    if fp > 0 {
        proof {
            reveal_strlit(".");
            assert("."@ =~= seq!['.']);
        }
        s.append(".");
        let mut nf: u64 = fp * 152587890625;
        let mut width: u64 = 16;
        proof {
            assert(strip_tens((fp * 152587890625) as nat, 16) == strip_tens(nf as nat,
                width as nat));
        }
        while width > 1 && nf % 10 == 0
            invariant
                1 <= width <= 16,
                strip_tens((fp * 152587890625) as nat, 16) == strip_tens(nf as nat, width as nat),
            decreases width,
        {
            nf = nf / 10;
            width = width - 1;
        }
        push_dec_fixed(s, nf, width);
    }
    proof {
        assert(s@ =~= old(s)@ + spec_fx_dec(v as int));
    }
}

/// The decimal form of a signed value: an optional minus sign and the
/// decimal digits of the magnitude.
pub open spec fn spec_int_dec(v: int) -> Seq<char> {
    if v < 0 {
        seq!['-'] + spec_dec((-v) as nat)
    } else {
        spec_dec(v as nat)
    }
}

/// Append the decimal form of a signed value.
pub fn push_int_dec(s: &mut String, v: i64)
    requires
        i64::MIN < v,
    ensures
        final(s)@ == old(s)@ + spec_int_dec(v as int),
{
    if v < 0 {
        proof {
            reveal_strlit("-");
            assert("-"@ =~= seq!['-']);
        }
        s.append("-");
        push_dec(s, (-v) as u64);
    } else {
        push_dec(s, v as u64);
    }
    proof {
        assert(s@ =~= old(s)@ + spec_int_dec(v as int));
    }
}

impl Color {
    /// This color's eight-digit hexadecimal form, `rrggbbaa`, lower case.
    pub fn fmt_hex(&self) -> (r: String)
        ensures
            r@ == spec_hex_fixed(
                (self.r * 0x100_0000 + self.g * 0x1_0000 + self.b * 0x100 + self.a) as nat,
                8,
            ),
    {
        let packed: u64 = self.r as u64 * 0x100_0000 + self.g as u64 * 0x1_0000 + self.b as u64
            * 0x100 + self.a as u64;
        let mut s = String::new();
        push_hex_fixed(&mut s, packed, 8);
        s
    }
}

} // verus!
