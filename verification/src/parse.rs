//! The composite field parsers.
//!
//! Three grammars: a percentage `<digits>[.<digits>]%`, a single size
//! `<digits>[.<digits>]<unit-symbol>`, and a composite pair
//! `<size> / <size>` with exactly one `" / "` separator. A number is read
//! into an exact [`Decimal`]: the digits with the point removed form the
//! mantissa, the count of fractional digits the scale.

use vstd::prelude::*;

use crate::decimal::{Decimal, MAX_MANTISSA};
use crate::error::{res_view, Error, ErrorSpec};
use crate::text::{
    all_digits, digits_val, first_occurrence, is_digit_char, is_letter_char,
    lemma_digits_val_prefix, lemma_first_occurrence, lemma_first_occurrence_is,
};
use crate::units::{convert_spec, convert_to_bytes, UnitTable};

verus! {

/// The digits of `s` with any points removed.
pub open spec fn strip_dots(s: Seq<char>) -> Seq<char>
    decreases s.len(),
{
    if s.len() == 0 {
        Seq::empty()
    } else {
        strip_dots(s.drop_last()) + (if s.last() == '.' {
            Seq::<char>::empty()
        } else {
            seq![s.last()]
        })
    }
}

/// The grammar `<digits>[.<digits>]`: a non-empty integer part, and if a
/// point stands anywhere, it is single with a non-empty run of digits on
/// each side.
pub open spec fn valid_number(s: Seq<char>) -> bool {
    let d = first_occurrence(s, '.');
    if d < 0 {
        s.len() > 0 && all_digits(s)
    } else {
        0 < d && d < s.len() - 1 && all_digits(s.take(d)) && all_digits(s.skip(d + 1))
    }
}

/// The mantissa a number string denotes: its digits read in base 10 with
/// the point removed.
pub open spec fn mantissa_of(s: Seq<char>) -> nat {
    digits_val(strip_dots(s))
}

/// The scale a number string denotes: how many digits follow the point.
pub open spec fn scale_of(s: Seq<char>) -> nat {
    let d = first_occurrence(s, '.');
    if d < 0 {
        0
    } else {
        (s.len() - d - 1) as nat
    }
}

pub proof fn lemma_strip_dots_add(a: Seq<char>, b: Seq<char>)
    ensures
        strip_dots(a + b) == strip_dots(a) + strip_dots(b),
    decreases b.len(),
{
    if b.len() == 0 {
        assert(a + b =~= a);
        assert(strip_dots(a) + strip_dots(b) =~= strip_dots(a));
    } else {
        lemma_strip_dots_add(a, b.drop_last());
        assert((a + b).drop_last() =~= a + b.drop_last());
        assert((a + b).last() == b.last());
        if b.last() == '.' {
            assert(strip_dots(a + b) =~= strip_dots(a) + strip_dots(b));
        } else {
            assert(strip_dots(a + b) =~= strip_dots(a) + strip_dots(b));
        }
    }
}

pub proof fn lemma_strip_dots_push(q: Seq<char>, c: char)
    ensures
        strip_dots(q.push(c)) == if c == '.' {
            strip_dots(q)
        } else {
            strip_dots(q).push(c)
        },
{
    assert(q.push(c).drop_last() =~= q);
    assert(q.push(c).last() == c);
    assert(q.push(c).len() == q.len() + 1);
    if c == '.' {
        assert(strip_dots(q.push(c)) =~= strip_dots(q));
    } else {
        assert(strip_dots(q.push(c)) =~= strip_dots(q).push(c));
    }
}

/// Reads `<digits>[.<digits>]` into an exact decimal. `None` exactly when
/// the text does not match the grammar or its mantissa exceeds `u128`.
pub fn parse_number(s: &str) -> (r: Option<Decimal>)
    ensures
        match r {
            Some(d) => valid_number(s@) && mantissa_of(s@) <= u128::MAX && d.mantissa
                == mantissa_of(s@) && d.scale == scale_of(s@),
            None => !valid_number(s@) || mantissa_of(s@) > u128::MAX,
        },
{
    let n = s.unicode_len();
    let mut i: usize = 0;
    let mut mantissa: u128 = 0;
    let mut dot: Option<usize> = None;
    proof {
        assert(s@.take(0) =~= Seq::<char>::empty());
    }
    while i < n
        invariant
            n == s@.len(),
            i <= n,
            mantissa == digits_val(strip_dots(s@.take(i as int))),
            match dot {
                None => {
                    &&& first_occurrence(s@.take(i as int), '.') == -1
                    &&& all_digits(s@.take(i as int))
                },
                Some(dp) => {
                    &&& 0 < dp < i
                    &&& s@[dp as int] == '.'
                    &&& forall|j: int| 0 <= j < dp ==> s@[j] != '.'
                    &&& all_digits(s@.take(dp as int))
                    &&& all_digits(s@.take(i as int).skip(dp as int + 1))
                },
            },
        decreases n - i,
    {
        let ghost p = s@.take(i as int);
        let c = s.get_char(i);
        proof {
            assert(s@.take(i as int + 1) =~= p.push(c));
        }
        if c == '.' {
            if dot.is_some() || i == 0 {
                proof {
                    if i == 0 {
                        lemma_first_occurrence_is(s@, '.', 0);
                    } else {
                        let dp = dot->Some_0;
                        lemma_first_occurrence_is(s@, '.', dp as int);
                        assert(s@.skip(dp as int + 1)[i - dp - 1] == '.');
                        assert(!is_digit_char('.'));
                    }
                }
                return None;
            }
            dot = Some(i);
            proof {
                lemma_first_occurrence(p, '.');
                lemma_strip_dots_push(p, c);
                assert(s@.take(i as int + 1).skip(i as int + 1) =~= Seq::<char>::empty());
                assert(s@[i as int] == '.');
                assert forall|j: int| 0 <= j < i implies s@[j] != '.' by {
                    assert(p[j] == s@[j]);
                    assert(p[j] != '.');
                }
                assert(all_digits(s@.take(i as int)));
                assert(mantissa == digits_val(strip_dots(p.push(c))));
                assert(all_digits(s@.take(i as int + 1).skip(i as int + 1)));
            }
        } else if '0' <= c && c <= '9' {
            let d: u128 = (c as u32 as u128) - 48;
            let q: u128 = u128::MAX / 10;
            let rm: u128 = u128::MAX % 10;
            if mantissa > q || (mantissa == q && d > rm) {
                proof {
                    let m = mantissa as nat;
                    let dv = d as nat;
                    assert(10 * (u128::MAX / 10) + u128::MAX % 10 == u128::MAX);
                    assert(m * 10 + dv > u128::MAX);
                    lemma_strip_dots_push(p, c);
                    crate::text::lemma_digits_val_push(strip_dots(p), c);
                    let rest = s@.skip(i as int + 1);
                    assert(s@ =~= p.push(c) + rest);
                    lemma_strip_dots_add(p.push(c), rest);
                    lemma_digits_val_prefix(strip_dots(p.push(c)), strip_dots(rest));
                }
                return None;
            }
            proof {
                let m = mantissa as nat;
                let dv = d as nat;
                assert(10 * (u128::MAX / 10) + u128::MAX % 10 == u128::MAX);
                assert(m * 10 + dv <= u128::MAX);
                lemma_strip_dots_push(p, c);
                crate::text::lemma_digits_val_push(strip_dots(p), c);
            }
            mantissa = mantissa * 10 + d;
            proof {
                match dot {
                    None => {
                        lemma_first_occurrence(p, '.');
                        lemma_first_occurrence(p.push(c), '.');
                        if first_occurrence(p.push(c), '.') >= 0 {
                            let f = first_occurrence(p.push(c), '.');
                            assert(p.push(c)[f] == '.');
                            if f < p.len() {
                                assert(p[f] == '.');
                            }
                            assert(is_digit_char(c));
                            assert(!is_digit_char('.'));
                        }
                        assert(all_digits(p.push(c)));
                    },
                    Some(dp) => {
                        assert(s@.take(i as int + 1).skip(dp as int + 1) =~= s@.take(
                            i as int,
                        ).skip(dp as int + 1).push(c));
                        assert(all_digits(s@.take(i as int + 1).skip(dp as int + 1)));
                    },
                }
            }
        } else {
            proof {
                assert(!is_digit_char(c));
                let fd = first_occurrence(s@, '.');
                lemma_first_occurrence(s@, '.');
                match dot {
                    None => {
                        if fd < 0 {
                            assert(!all_digits(s@));
                        } else if fd < i {
                            assert(p[fd] == '.');
                            lemma_first_occurrence(p, '.');
                        } else if fd == i {
                        } else {
                            assert(s@.take(fd)[i as int] == c);
                            assert(!all_digits(s@.take(fd)));
                        }
                    },
                    Some(dp) => {
                        lemma_first_occurrence_is(s@, '.', dp as int);
                        assert(s@.skip(dp as int + 1)[i - dp - 1] == c);
                        assert(!all_digits(s@.skip(dp as int + 1)));
                    },
                }
            }
            return None;
        }
        i = i + 1;
    }
    proof {
        assert(s@.take(n as int) =~= s@);
    }
    if n == 0 {
        return None;
    }
    match dot {
        None => {
            proof {
                lemma_first_occurrence(s@, '.');
            }
            Some(Decimal { mantissa, scale: 0 })
        },
        Some(dp) => {
            proof {
                lemma_first_occurrence_is(s@, '.', dp as int);
            }
            if dp == n - 1 {
                proof {
                    assert(!valid_number(s@));
                }
                return None;
            }
            Some(Decimal { mantissa, scale: n - 1 - dp })
        },
    }
}

/// The length of the longest run of letters that ends the string: the unit
/// symbol of a size field.
pub open spec fn trailing_letters(s: Seq<char>) -> nat
    decreases s.len(),
{
    if s.len() > 0 && is_letter_char(s.last()) {
        1 + trailing_letters(s.drop_last())
    } else {
        0
    }
}

/// What `trailing_letters` counts: a run of letters, stopped by a
/// non-letter or the front.
pub proof fn lemma_trailing_letters(s: Seq<char>)
    ensures
        trailing_letters(s) <= s.len(),
        forall|j: int|
            s.len() - trailing_letters(s) <= j < s.len() ==> is_letter_char(#[trigger] s[j]),
        trailing_letters(s) < s.len() ==> !is_letter_char(
            s[s.len() - trailing_letters(s) - 1],
        ),
    decreases s.len(),
{
    if s.len() > 0 && is_letter_char(s.last()) {
        lemma_trailing_letters(s.drop_last());
        assert(forall|j: int| 0 <= j < s.len() - 1 ==> s.drop_last()[j] == s[j]);
    }
}

/// What parsing a percentage field yields: the unscaled numeric value when
/// the text is `<digits>[.<digits>]%`, else `MalformedPercent`.
pub open spec fn parse_percent_spec(s: Seq<char>) -> Result<Decimal, ErrorSpec> {
    if s.len() > 0 && s.last() == '%' && valid_number(s.drop_last()) && mantissa_of(
        s.drop_last(),
    ) <= u128::MAX {
        Ok(
            Decimal {
                mantissa: mantissa_of(s.drop_last()) as u128,
                scale: scale_of(s.drop_last()) as usize,
            },
        )
    } else {
        Err(ErrorSpec::MalformedPercent(s))
    }
}

/// Parses `<digits>[.<digits>]%`. The value is in percent, not bytes, and
/// is not normalized to a 0-1 range.
pub fn parse_percent(s: &str) -> (r: Result<Decimal, Error>)
    ensures
        res_view(r) == parse_percent_spec(s@),
{
    let n = s.unicode_len();
    if n == 0 {
        return Err(Error::MalformedPercent(s.to_owned()));
    }
    if s.get_char(n - 1) != '%' {
        return Err(Error::MalformedPercent(s.to_owned()));
    }
    let body = s.substring_char(0, n - 1);
    proof {
        assert(body@ =~= s@.drop_last());
    }
    match parse_number(body) {
        Some(d) => Ok(d),
        None => Err(Error::MalformedPercent(s.to_owned())),
    }
}

/// What parsing a single size field yields: the value scaled by the unit's
/// multiplier; `MalformedSize` when the unit run is empty or the number is
/// not `<digits>[.<digits>]` with a mantissa a `u64` can hold;
/// `UnknownUnit` when the table misses the symbol.
pub open spec fn parse_size_spec(s: Seq<char>, entries: Seq<(Seq<char>, u64)>) -> Result<
    Decimal,
    ErrorSpec,
> {
    let k = trailing_letters(s);
    let num = s.take(s.len() - k);
    let unit = s.skip(s.len() - k);
    if k == 0 {
        Err(ErrorSpec::MalformedSize(s))
    } else if !(valid_number(num) && mantissa_of(num) <= MAX_MANTISSA) {
        Err(ErrorSpec::MalformedSize(s))
    } else {
        convert_spec(
            Decimal { mantissa: mantissa_of(num) as u128, scale: scale_of(num) as usize },
            unit,
            entries,
        )
    }
}

fn is_letter(c: char) -> (r: bool)
    ensures
        r == is_letter_char(c),
{
    let u = c as u32;
    (65 <= u && u <= 90) || (97 <= u && u <= 122)
}

/// Parses `<digits>[.<digits>]<unit-symbol>` into a byte count: the unit
/// is the longest trailing run of letters, the prefix the numeric literal.
pub fn parse_io_str(s: &str, table: &UnitTable) -> (r: Result<Decimal, Error>)
    ensures
        res_view(r) == parse_size_spec(s@, table@),
{
    let n = s.unicode_len();
    let mut k: usize = 0;
    while k < n && is_letter(s.get_char(n - 1 - k))
        invariant
            n == s@.len(),
            k <= n,
            forall|j: int| n - k <= j < n ==> is_letter_char(#[trigger] s@[j]),
        decreases n - k,
    {
        k = k + 1;
    }
    proof {
        lemma_trailing_letters(s@);
        let tl = trailing_letters(s@);
        if tl < k {
            assert(is_letter_char(s@[n - tl - 1]));
        }
        if tl > k {
            assert(is_letter_char(s@[n - k - 1]));
        }
        assert(tl == k);
    }
    if k == 0 {
        return Err(Error::MalformedSize(s.to_owned()));
    }
    let num_str = s.substring_char(0, n - k);
    let unit_str = s.substring_char(n - k, n);
    match parse_number(num_str) {
        None => Err(Error::MalformedSize(s.to_owned())),
        Some(d) => {
            if d.mantissa > MAX_MANTISSA {
                Err(Error::MalformedSize(s.to_owned()))
            } else {
                convert_to_bytes(d, unit_str, table)
            }
        },
    }
}

/// A `" / "` separator starts at `i`.
pub open spec fn is_sep_at(s: Seq<char>, i: int) -> bool {
    &&& 0 <= i
    &&& i + 3 <= s.len()
    &&& s[i] == ' '
    &&& s[i + 1] == '/'
    &&& s[i + 2] == ' '
}

/// How many separators start below `i`.
pub open spec fn sep_count_upto(s: Seq<char>, i: int) -> nat
    decreases i,
{
    if i <= 0 {
        0
    } else {
        sep_count_upto(s, i - 1) + (if is_sep_at(s, i - 1) {
            1nat
        } else {
            0nat
        })
    }
}

/// How many `" / "` separators the string holds.
pub open spec fn sep_count(s: Seq<char>) -> nat {
    sep_count_upto(s, s.len() as int)
}

/// The position of the separator, meaningful when there is exactly one.
pub open spec fn sep_index(s: Seq<char>) -> int {
    choose|i: int| is_sep_at(s, i)
}

pub proof fn lemma_sep_count_mono(s: Seq<char>, a: int, b: int)
    requires
        a <= b,
    ensures
        sep_count_upto(s, a) <= sep_count_upto(s, b),
    decreases b - a,
{
    if a < b {
        lemma_sep_count_mono(s, a, b - 1);
    }
}

/// Two distinct separators force the count to at least two.
pub proof fn lemma_sep_two(s: Seq<char>, a: int, b: int)
    requires
        a < b,
        is_sep_at(s, a),
        is_sep_at(s, b),
    ensures
        sep_count(s) >= 2,
{
    lemma_sep_count_mono(s, a + 1, b);
    lemma_sep_count_mono(s, b + 1, s.len() as int);
}

/// What parsing a composite pair yields, in textual order:
/// `MalformedPair` unless exactly one `" / "` stands in the string, else
/// each half parsed as a single size, the left one first.
pub open spec fn split_pair_spec(s: Seq<char>, entries: Seq<(Seq<char>, u64)>) -> Result<
    (Decimal, Decimal),
    ErrorSpec,
> {
    if sep_count(s) != 1 {
        Err(ErrorSpec::MalformedPair(s))
    } else {
        let i = sep_index(s);
        match parse_size_spec(s.take(i), entries) {
            Err(e) => Err(e),
            Ok(dl) => match parse_size_spec(s.skip(i + 3), entries) {
                Err(e) => Err(e),
                Ok(dr) => Ok((dl, dr)),
            },
        }
    }
}

/// The reversed convention: the textual second half lands in the first
/// return slot. Network and block pairs use it; memory does not.
pub open spec fn split_pair_rev_spec(s: Seq<char>, entries: Seq<(Seq<char>, u64)>) -> Result<
    (Decimal, Decimal),
    ErrorSpec,
> {
    match split_pair_spec(s, entries) {
        Ok(p) => Ok((p.1, p.0)),
        Err(e) => Err(e),
    }
}

/// Splits on the single `" / "` and parses both halves, textual order.
pub fn parse_pair(s: &str, table: &UnitTable) -> (r: Result<(Decimal, Decimal), Error>)
    ensures
        res_view(r) == split_pair_spec(s@, table@),
{
    let n = s.unicode_len();
    let mut cnt: usize = 0;
    let mut found: usize = 0;
    let mut i: usize = 0;
    while i < n
        invariant
            n == s@.len(),
            i <= n,
            cnt <= i,
            cnt == sep_count_upto(s@, i as int),
            cnt > 0 ==> is_sep_at(s@, found as int),
        decreases n - i,
    {
        if n - i > 2 {
            if s.get_char(i) == ' ' && s.get_char(i + 1) == '/' && s.get_char(i + 2) == ' ' {
                if cnt == 0 {
                    found = i;
                }
                cnt = cnt + 1;
            }
        }
        i = i + 1;
    }
    if cnt != 1 {
        return Err(Error::MalformedPair(s.to_owned()));
    }
    proof {
        let w = sep_index(s@);
        assert(is_sep_at(s@, w)) by {
            assert(is_sep_at(s@, found as int));
        }
        if w < found {
            lemma_sep_two(s@, w, found as int);
        }
        if w > found {
            lemma_sep_two(s@, found as int, w);
        }
        assert(w == found);
    }
    let left = s.substring_char(0, found);
    let right = s.substring_char(found + 3, n);
    proof {
        assert(left@ =~= s@.take(found as int));
        assert(right@ =~= s@.skip(found as int + 3));
    }
    match parse_io_str(left, table) {
        Err(e) => Err(e),
        Ok(dl) => match parse_io_str(right, table) {
            Err(e) => Err(e),
            Ok(dr) => Ok((dl, dr)),
        },
    }
}

/// Parses a network I/O field, raw text "received / transmitted", into
/// `(input, output)` bytes under the reversed convention: `input` is the
/// textual second half, `output` the first.
pub fn parse_netio_str(s: &str, table: &UnitTable) -> (r: Result<(Decimal, Decimal), Error>)
    ensures
        res_view(r) == split_pair_rev_spec(s@, table@),
{
    match parse_pair(s, table) {
        Ok(p) => Ok((p.1, p.0)),
        Err(e) => Err(e),
    }
}

/// Parses a block I/O field, raw text "read / write", with the same
/// reversed convention as the network pair.
pub fn parse_blockio_str(s: &str, table: &UnitTable) -> (r: Result<(Decimal, Decimal), Error>)
    ensures
        res_view(r) == split_pair_rev_spec(s@, table@),
{
    match parse_pair(s, table) {
        Ok(p) => Ok((p.1, p.0)),
        Err(e) => Err(e),
    }
}

/// Parses a memory usage field, raw text "usage / limit", in textual
/// order: `(usage, limit)`.
pub fn parse_mem_usage_str(s: &str, table: &UnitTable) -> (r: Result<(Decimal, Decimal), Error>)
    ensures
        res_view(r) == split_pair_spec(s@, table@),
{
    parse_pair(s, table)
}

} // verus!
