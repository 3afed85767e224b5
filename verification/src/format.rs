//! Human-readable byte counts.
//!
//! A size is shown in the largest unit from bytes up to terabytes that
//! keeps the value below 1024: whole bytes are printed as they are, any
//! scaled value with exactly one decimal digit, rounded to the nearest
//! tenth with ties going to the even tenth.

use vstd::prelude::*;
use vstd::string::StringExecFns;

verus! {

/// The decimal digit character for a value below ten.
pub open spec fn digit_char(d: int) -> char {
    if d == 0 {
        '0'
    } else if d == 1 {
        '1'
    } else if d == 2 {
        '2'
    } else if d == 3 {
        '3'
    } else if d == 4 {
        '4'
    } else if d == 5 {
        '5'
    } else if d == 6 {
        '6'
    } else if d == 7 {
        '7'
    } else if d == 8 {
        '8'
    } else {
        '9'
    }
}

/// The decimal digits of `n`, most significant first, with no leading
/// zeros (a lone zero for `n == 0`).
pub open spec fn spec_decimal(n: nat) -> Seq<char>
    decreases n,
{
    if n < 10 {
        seq![digit_char(n as int)]
    } else {
        spec_decimal(n / 10).push(digit_char((n % 10) as int))
    }
}

/// Which unit a size is shown in: 0 for bytes through 4 for terabytes,
/// the largest unit that keeps the shown value below 1024.
pub open spec fn spec_unit_index(size: u64) -> int {
    if size < 1024 {
        0
    } else if size < 1048576 {
        1
    } else if size < 1073741824 {
        2
    } else if size < 1099511627776 {
        3
    } else {
        4
    }
}

/// How many bytes one of the given unit holds.
pub open spec fn spec_unit_scale(k: int) -> int {
    if k <= 1 {
        1024
    } else if k == 2 {
        1048576
    } else if k == 3 {
        1073741824
    } else {
        1099511627776
    }
}

/// The suffix printed after the value, leading space included.
pub open spec fn spec_unit_suffix(k: int) -> Seq<char> {
    if k == 0 {
        seq![' ', 'B']
    } else if k == 1 {
        seq![' ', 'K', 'B']
    } else if k == 2 {
        seq![' ', 'M', 'B']
    } else if k == 3 {
        seq![' ', 'G', 'B']
    } else {
        seq![' ', 'T', 'B']
    }
}

/// `n / d` in tenths, rounded to the nearest tenth with ties to the even
/// tenth.
pub open spec fn spec_tenths(n: int, d: int) -> int {
    let q = 10 * n / d;
    let r = 10 * n % d;
    if 2 * r > d {
        q + 1
    } else if 2 * r == d && q % 2 == 1 {
        q + 1
    } else {
        q
    }
}

/// The full rendering of a size: whole bytes below 1024, otherwise the
/// scaled value with one rounded decimal digit, then the unit suffix.
pub open spec fn spec_format_file_size(size: u64) -> Seq<char> {
    let k = spec_unit_index(size);
    if k == 0 {
        spec_decimal(size as nat) + spec_unit_suffix(0)
    } else {
        let t = spec_tenths(size as int, spec_unit_scale(k));
        spec_decimal((t / 10) as nat) + seq!['.', digit_char(t % 10)] + spec_unit_suffix(k)
    }
}

/// The one-character string for a decimal digit.
fn digit_to_str(d: u64) -> (r: &'static str)
    requires
        d < 10,
    ensures
        r@ == seq![digit_char(d as int)],
{
    match d {
        0 => {
            proof {
                reveal_strlit("0");
                assert(("0")@ =~= seq![digit_char(d as int)]);
            }
            "0"
        },
        1 => {
            proof {
                reveal_strlit("1");
                assert(("1")@ =~= seq![digit_char(d as int)]);
            }
            "1"
        },
        2 => {
            proof {
                reveal_strlit("2");
                assert(("2")@ =~= seq![digit_char(d as int)]);
            }
            "2"
        },
        3 => {
            proof {
                reveal_strlit("3");
                assert(("3")@ =~= seq![digit_char(d as int)]);
            }
            "3"
        },
        4 => {
            proof {
                reveal_strlit("4");
                assert(("4")@ =~= seq![digit_char(d as int)]);
            }
            "4"
        },
        5 => {
            proof {
                reveal_strlit("5");
                assert(("5")@ =~= seq![digit_char(d as int)]);
            }
            "5"
        },
        6 => {
            proof {
                reveal_strlit("6");
                assert(("6")@ =~= seq![digit_char(d as int)]);
            }
            "6"
        },
        7 => {
            proof {
                reveal_strlit("7");
                assert(("7")@ =~= seq![digit_char(d as int)]);
            }
            "7"
        },
        8 => {
            proof {
                reveal_strlit("8");
                assert(("8")@ =~= seq![digit_char(d as int)]);
            }
            "8"
        },
        _ => {
            proof {
                reveal_strlit("9");
                assert(("9")@ =~= seq![digit_char(d as int)]);
            }
            "9"
        },
    }
}

/// The decimal rendering of `n`.
fn decimal_string(n: u64) -> (r: String)
    ensures
        r@ == spec_decimal(n as nat),
    decreases n,
{
    if n < 10 {
        String::from_str(digit_to_str(n))
    } else {
        let mut s = decimal_string(n / 10);
        s.append(digit_to_str(n % 10));
        proof {
            assert(spec_decimal((n / 10) as nat) + seq![digit_char((n % 10) as int)]
                =~= spec_decimal((n / 10) as nat).push(digit_char((n % 10) as int)));
        }
        s
    }
}

/// The unit suffix for a unit index, leading space included.
fn unit_suffix_str(k: usize) -> (r: &'static str)
    requires
        k <= 4,
    ensures
        r@ == spec_unit_suffix(k as int),
{
    match k {
        0 => {
            proof {
                reveal_strlit(" B");
                assert((" B")@ =~= spec_unit_suffix(0));
            }
            " B"
        },
        1 => {
            proof {
                reveal_strlit(" KB");
                assert((" KB")@ =~= spec_unit_suffix(1));
            }
            " KB"
        },
        2 => {
            proof {
                reveal_strlit(" MB");
                assert((" MB")@ =~= spec_unit_suffix(2));
            }
            " MB"
        },
        3 => {
            proof {
                reveal_strlit(" GB");
                assert((" GB")@ =~= spec_unit_suffix(3));
            }
            " GB"
        },
        _ => {
            proof {
                reveal_strlit(" TB");
                assert((" TB")@ =~= spec_unit_suffix(4));
            }
            " TB"
        },
    }
}

/// `n / d` in tenths, rounded to the nearest tenth with ties to even.
fn rounded_tenths(n: u64, d: u64) -> (t: u64)
    requires
        1024 <= d,
    ensures
        t == spec_tenths(n as int, d as int),
{
    let n10: u128 = (n as u128) * 10;
    let q: u128 = n10 / (d as u128);
    let r: u128 = n10 % (d as u128);
    proof {
        vstd::arithmetic::div_mod::lemma_div_is_ordered_by_denominator(
            n10 as int,
            1024,
            d as int,
        );
        vstd::arithmetic::div_mod::lemma_div_is_ordered(
            n10 as int,
            184467440737095516150,
            1024,
        );
    }
    if 2 * r > d as u128 {
        (q + 1) as u64
    } else if 2 * r == d as u128 && q % 2 == 1 {
        (q + 1) as u64
    } else {
        q as u64
    }
}

/// Renders a byte count for humans: whole bytes below 1024, otherwise
/// the size scaled into the largest unit that keeps it below 1024, with
/// one decimal digit rounded to the nearest tenth (ties to even).
pub fn format_file_size(size: u64) -> (r: String)
    ensures
        r@ == spec_format_file_size(size),
{
    if size < 1024 {
        let mut s = decimal_string(size);
        s.append(unit_suffix_str(0));
        proof {
            assert(s@ =~= spec_format_file_size(size));
        }
        s
    } else {
        let k: usize = if size < 1048576 {
            1
        } else if size < 1073741824 {
            2
        } else if size < 1099511627776 {
            3
        } else {
            4
        };
        let d: u64 = if size < 1048576 {
            1024
        } else if size < 1073741824 {
            1048576
        } else if size < 1099511627776 {
            1073741824
        } else {
            1099511627776
        };
        let t = rounded_tenths(size, d);
        let mut s = decimal_string(t / 10);
        proof {
            reveal_strlit(".");
            assert((".")@ =~= seq!['.']);
        }
        s.append(".");
        s.append(digit_to_str(t % 10));
        s.append(unit_suffix_str(k));
        proof {
            assert(s@ =~= spec_format_file_size(size));
        }
        s
    }
}

} // verus!
