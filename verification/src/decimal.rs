//! Exact base-10 fixed-point numbers.
//!
//! A [`Decimal`] holds `mantissa / 10^scale`. Parsed field values and the
//! byte counts computed from them are carried in this form, so every
//! arithmetic step of the pipeline is exact and provable; nothing is ever
//! rounded.

use vstd::prelude::*;

verus! {

/// The largest mantissa a parsed number may have. Products of a parsed
/// mantissa and a `u64` unit multiplier then always fit in a `u128`.
pub const MAX_MANTISSA: u128 = 0xffff_ffff_ffff_ffff;

/// An exact non-negative number `mantissa / 10^scale`.
#[derive(Debug, Clone, Copy, PartialEq, Eq, Structural)]
pub struct Decimal {
    pub mantissa: u128,
    pub scale: usize,
}

/// The decimal digit character of `d`, for `d < 10`.
pub open spec fn digit_char(d: nat) -> char {
    if d == 0 {
        '0'
    } else if d == 1 {
        '1'
    } else if d == 2 {
        '2'
    } else if d == 3 {
        '3'
    } else if d == 4 {
        '4'
    } else if d == 5 {
        '5'
    } else if d == 6 {
        '6'
    } else if d == 7 {
        '7'
    } else if d == 8 {
        '8'
    } else {
        '9'
    }
}

/// The decimal digit characters of `n`, most significant first, with no
/// leading zeros except for `n == 0` itself.
pub open spec fn digit_chars(n: nat) -> Seq<char>
    decreases n,
{
    if n < 10 {
        seq![digit_char(n)]
    } else {
        digit_chars(n / 10).push(digit_char(n % 10))
    }
}

/// A run of `n` zero characters.
pub open spec fn zero_chars(n: nat) -> Seq<char> {
    Seq::new(n, |i: int| '0')
}

/// Strips trailing fractional zeros: the canonical `(mantissa, scale)`
/// pair denoting the same number.
pub open spec fn normalize(m: nat, s: nat) -> (nat, nat)
    decreases s,
{
    if s > 0 && m % 10 == 0 {
        normalize(m / 10, (s - 1) as nat)
    } else {
        (m, s)
    }
}

/// The text of `m / 10^s` for an already canonical pair: plain digits
/// when `s == 0`, otherwise an integer part, a point, and exactly `s`
/// fractional digits.
pub open spec fn format_canonical(m: nat, s: nat) -> Seq<char> {
    if s == 0 {
        digit_chars(m)
    } else {
        let ds = digit_chars(m);
        let padded = if ds.len() > s {
            ds
        } else {
            zero_chars((s + 1 - ds.len()) as nat) + ds
        };
        padded.take(padded.len() - s) + seq!['.'] + padded.skip(padded.len() - s)
    }
}

/// The rendered text of `m / 10^s`: canonicalized, then formatted. A whole
/// number shows no point; a fraction shows no trailing zeros.
pub open spec fn format_spec(m: nat, s: nat) -> Seq<char> {
    let (m2, s2) = normalize(m, s);
    format_canonical(m2, s2)
}

fn digit_str(d: u128) -> (r: &'static str)
    requires
        d < 10,
    ensures
        r@ == seq![digit_char(d as nat)],
{
    if d == 0 {
        proof {
            reveal_strlit("0");
            assert("0"@ =~= seq![digit_char(d as nat)]);
        }
        "0"
    } else if d == 1 {
        proof {
            reveal_strlit("1");
            assert("1"@ =~= seq![digit_char(d as nat)]);
        }
        "1"
    } else if d == 2 {
        proof {
            reveal_strlit("2");
            assert("2"@ =~= seq![digit_char(d as nat)]);
        }
        "2"
    } else if d == 3 {
        proof {
            reveal_strlit("3");
            assert("3"@ =~= seq![digit_char(d as nat)]);
        }
        "3"
    } else if d == 4 {
        proof {
            reveal_strlit("4");
            assert("4"@ =~= seq![digit_char(d as nat)]);
        }
        "4"
    } else if d == 5 {
        proof {
            reveal_strlit("5");
            assert("5"@ =~= seq![digit_char(d as nat)]);
        }
        "5"
    } else if d == 6 {
        proof {
            reveal_strlit("6");
            assert("6"@ =~= seq![digit_char(d as nat)]);
        }
        "6"
    } else if d == 7 {
        proof {
            reveal_strlit("7");
            assert("7"@ =~= seq![digit_char(d as nat)]);
        }
        "7"
    } else if d == 8 {
        proof {
            reveal_strlit("8");
            assert("8"@ =~= seq![digit_char(d as nat)]);
        }
        "8"
    } else {
        proof {
            reveal_strlit("9");
            assert("9"@ =~= seq![digit_char(d as nat)]);
        }
        "9"
    }
}

fn format_digits(n: u128) -> (r: String)
    ensures
        r@ == digit_chars(n as nat),
    decreases n,
{
    if n < 10 {
        digit_str(n).to_owned()
    } else {
        let mut r = format_digits(n / 10);
        r.append(digit_str(n % 10));
        proof {
            assert(r@ =~= digit_chars(n as nat));
        }
        r
    }
}

fn zeros_string(n: usize) -> (r: String)
    ensures
        r@ == zero_chars(n as nat),
{
    let mut r = String::new();
    let mut i: usize = 0;
    while i < n
        invariant
            i <= n,
            r@ == zero_chars(i as nat),
        decreases n - i,
    {
        r.append("0");
        i = i + 1;
        proof {
            reveal_strlit("0");
            assert(r@ =~= zero_chars(i as nat));
        }
    }
    r
}

impl Decimal {
    /// The number as text, in the canonical form the exposition uses:
    /// digits, with a point and the fractional digits only when the
    /// fraction is non-zero.
    pub fn format(&self) -> (r: String)
        ensures
            r@ == format_spec(self.mantissa as nat, self.scale as nat),
    {
        let mut m: u128 = self.mantissa;
        let mut s: usize = self.scale;
        while s > 0 && m % 10 == 0
            invariant
                normalize(m as nat, s as nat) == normalize(
                    self.mantissa as nat,
                    self.scale as nat,
                ),
            decreases s,
        {
            m = m / 10;
            s = s - 1;
        }
        if s == 0 {
            format_digits(m)
        } else {
            let ds = format_digits(m);
            let len = ds.as_str().unicode_len();
            if len > s {
                let int_part = ds.as_str().substring_char(0, len - s);
                let frac_part = ds.as_str().substring_char(len - s, len);
                let mut out = int_part.to_owned();
                out.append(".");
                out.append(frac_part);
                proof {
                    reveal_strlit(".");
                    assert(out@ =~= format_canonical(m as nat, s as nat));
                }
                out
            } else {
                let mut out = String::new();
                out.append("0");
                out.append(".");
                let z = zeros_string(s - len);
                out.append(z.as_str());
                out.append(ds.as_str());
                proof {
                    reveal_strlit("0");
                    reveal_strlit(".");
                    let dsv = digit_chars(m as nat);
                    let padded = zero_chars((s + 1 - dsv.len()) as nat) + dsv;
                    assert(padded.len() == s + 1);
                    assert(padded.take(padded.len() - s as int) =~= seq!['0']);
                    assert(padded.skip(padded.len() - s as int) =~= zero_chars(
                        (s - len) as nat,
                    ) + dsv);
                    assert(out@ =~= format_canonical(m as nat, s as nat));
                }
                out
            }
        }
    }
}

} // verus!
