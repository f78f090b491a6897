//! Decimal rendering and the bit pattern of small integers as 64-bit floats.

use vstd::prelude::*;
use vstd::string::StringExecFns;

verus! {

/// The decimal digit character for `d`.
pub open spec fn spec_digit(d: int) -> char {
    if d == 0 {
        '0'
    } else if d == 1 {
        '1'
    } else if d == 2 {
        '2'
    } else if d == 3 {
        '3'
    } else if d == 4 {
        '4'
    } else if d == 5 {
        '5'
    } else if d == 6 {
        '6'
    } else if d == 7 {
        '7'
    } else if d == 8 {
        '8'
    } else {
        '9'
    }
}

/// The decimal rendering of `n`, without leading zeroes.
pub open spec fn spec_decimal(n: int) -> Seq<char>
    decreases n,
{
    if n < 10 {
        seq![spec_digit(n)]
    } else {
        spec_decimal(n / 10).push(spec_digit(n % 10))
    }
}

/// The decimal digit character for `d` as a one-character string slice.
fn digit_str(d: u64) -> (r: &'static str)
    requires
        d < 10,
    ensures
        r@ == seq![spec_digit(d as int)],
{
    let r = if d == 0 {
        "0"
    } else if d == 1 {
        "1"
    } else if d == 2 {
        "2"
    } else if d == 3 {
        "3"
    } else if d == 4 {
        "4"
    } else if d == 5 {
        "5"
    } else if d == 6 {
        "6"
    } else if d == 7 {
        "7"
    } else if d == 8 {
        "8"
    } else {
        "9"
    };
    proof {
        reveal_strlit("0");
        reveal_strlit("1");
        reveal_strlit("2");
        reveal_strlit("3");
        reveal_strlit("4");
        reveal_strlit("5");
        reveal_strlit("6");
        reveal_strlit("7");
        reveal_strlit("8");
        reveal_strlit("9");
        assert(r@ =~= seq![spec_digit(d as int)]);
    }
    r
}

/// The decimal rendering of a 16-bit status code.
pub fn u16_to_decimal(v: u16) -> (r: String)
    ensures
        r@ == spec_decimal(v as int),
    decreases v,
{
    if v < 10 {
        String::from_str(digit_str(v as u64))
    } else {
        let mut s = u16_to_decimal(v / 10);
        s.append(digit_str((v % 10) as u64));
        proof {
            assert(s@ =~= spec_decimal(v as int));
        }
        s
    }
}

/// The position of the highest set bit of a nonzero 16-bit value.
pub open spec fn spec_msb_u16(p: u16) -> u64 {
    if p < 2 {
        0
    } else if p < 4 {
        1
    } else if p < 8 {
        2
    } else if p < 16 {
        3
    } else if p < 32 {
        4
    } else if p < 64 {
        5
    } else if p < 128 {
        6
    } else if p < 256 {
        7
    } else if p < 512 {
        8
    } else if p < 1024 {
        9
    } else if p < 2048 {
        10
    } else if p < 4096 {
        11
    } else if p < 8192 {
        12
    } else if p < 16384 {
        13
    } else if p < 32768 {
        14
    } else {
        15
    }
}

/// The IEEE 754 double bit pattern of a 16-bit integer: zero stays zero; a
/// nonzero `p` with highest set bit `k` has biased exponent `1023 + k` and
/// carries its remaining bits at the top of the 52-bit mantissa.
pub open spec fn spec_f64_bits_of_u16(p: u16) -> u64 {
    if p == 0 {
        0
    } else {
        let k = spec_msb_u16(p);
        (((1023 + k) as u64) << 52u64) | (((p as u64) << ((52 - k) as u64)) & 0x000f_ffff_ffff_ffff)
    }
}

/// The IEEE 754 double bit pattern of a 16-bit integer, such as a port
/// number carried as a numeric tag.
pub fn f64_bits_of_u16(p: u16) -> (r: u64)
    ensures
        r == spec_f64_bits_of_u16(p),
{
    if p == 0 {
        return 0;
    }
    let k: u64 = if p < 2 {
        0
    } else if p < 4 {
        1
    } else if p < 8 {
        2
    } else if p < 16 {
        3
    } else if p < 32 {
        4
    } else if p < 64 {
        5
    } else if p < 128 {
        6
    } else if p < 256 {
        7
    } else if p < 512 {
        8
    } else if p < 1024 {
        9
    } else if p < 2048 {
        10
    } else if p < 4096 {
        11
    } else if p < 8192 {
        12
    } else if p < 16384 {
        13
    } else if p < 32768 {
        14
    } else {
        15
    };
    ((1023u64 + k) << 52u64) | (((p as u64) << (52u64 - k)) & 0x000f_ffff_ffff_ffff)
}

} // verus!
