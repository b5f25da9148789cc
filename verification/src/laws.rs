//! The library's general laws, stated and proved over the same spec
//! functions its contracts use.

use vstd::prelude::*;

use crate::decimal::{Decimal, MAX_MANTISSA};
use crate::docker::RecordSpec;
use crate::error::ErrorSpec;
use crate::metrics::{derive_spec, sample_spec, MetricSampleSpec, NamingMode};
use crate::parse::{
    mantissa_of, parse_percent_spec, parse_size_spec, scale_of, trailing_letters, valid_number,
};
use crate::render::{
    dup_at, first_dup, id_of, lemma_first_dup_from, pipeline_spec, render_spec,
};
use crate::text::{is_digit_char, is_letter_char};
use crate::units::{convert_spec, lookup};

verus! {

/// Conversion on a known unit is exactly the value times the table's
/// multiplier, at the value's own scale.
pub proof fn lemma_convert_known(
    value: Decimal,
    unit: Seq<char>,
    entries: Seq<(Seq<char>, u64)>,
    m: u64,
)
    requires
        lookup(entries, unit) == Some(m),
    ensures
        convert_spec(value, unit, entries) == Ok::<Decimal, ErrorSpec>(
            Decimal { mantissa: (value.mantissa * m) as u128, scale: value.scale },
        ),
{
}

/// Conversion on a unit the table does not hold fails with `UnknownUnit`
/// carrying the symbol verbatim.
pub proof fn lemma_convert_unknown(value: Decimal, unit: Seq<char>, entries: Seq<(Seq<char>, u64)>)
    requires
        lookup(entries, unit) is None,
    ensures
        convert_spec(value, unit, entries) == Err::<Decimal, ErrorSpec>(
            ErrorSpec::UnknownUnit(unit),
        ),
{
}

/// Round trip: writing any valid number directly in front of any known,
/// all-letter unit symbol and parsing the result as a size field yields
/// exactly the number's mantissa times the unit's multiplier, at the
/// number's scale.
pub proof fn lemma_size_round_trip(
    num: Seq<char>,
    unit: Seq<char>,
    entries: Seq<(Seq<char>, u64)>,
    m: u64,
)
    requires
        valid_number(num),
        mantissa_of(num) <= MAX_MANTISSA,
        lookup(entries, unit) == Some(m),
        unit.len() > 0,
        forall|j: int| 0 <= j < unit.len() ==> is_letter_char(#[trigger] unit[j]),
    ensures
        parse_size_spec(num + unit, entries) == Ok::<Decimal, ErrorSpec>(
            Decimal {
                mantissa: (mantissa_of(num) * m) as u128,
                scale: scale_of(num) as usize,
            },
        ),
{
    let s = num + unit;
    let d = crate::text::first_occurrence(num, '.');
    crate::text::lemma_first_occurrence(num, '.');
    if d < 0 {
        assert(is_digit_char(num.last()));
    } else {
        let frac = num.skip(d + 1);
        assert(frac[frac.len() - 1] == num.last());
        assert(is_digit_char(num.last()));
    }
    assert(!is_letter_char(num.last()));
    crate::parse::lemma_trailing_letters(s);
    let tl = trailing_letters(s);
    assert(forall|j: int| num.len() <= j < s.len() ==> s[j] == unit[j - num.len()]);
    if tl < unit.len() {
        assert(is_letter_char(s[s.len() - tl - 1]));
    }
    if tl > unit.len() {
        assert(s[num.len() - 1] == num.last());
        assert(is_letter_char(s[num.len() - 1]));
    }
    assert(tl == unit.len());
    assert(s.take(s.len() - tl) =~= num);
    assert(s.skip(s.len() - tl) =~= unit);
    assert(mantissa_of(num) * m <= MAX_MANTISSA * 0xffff_ffff_ffff_ffffu64)
        by (nonlinear_arith)
        requires
            mantissa_of(num) <= MAX_MANTISSA,
            m <= 0xffff_ffff_ffff_ffffu64,
    ;
}

/// Two records with one container name, derived under one label set and
/// mode, cannot both be rendered: their first gauges collide, and
/// rendering refuses the collision with `DuplicateMetric`.
pub proof fn lemma_duplicate_container_rejected(
    r1: RecordSpec,
    r2: RecordSpec,
    user: Seq<(Seq<char>, Seq<char>)>,
    mode: NamingMode,
    entries: Seq<(Seq<char>, u64)>,
    ss1: Seq<MetricSampleSpec>,
    ss2: Seq<MetricSampleSpec>,
)
    requires
        r1.container == r2.container,
        derive_spec(r1, user, mode, entries) == Ok::<Seq<MetricSampleSpec>, ErrorSpec>(ss1),
        derive_spec(r2, user, mode, entries) == Ok::<Seq<MetricSampleSpec>, ErrorSpec>(ss2),
    ensures
        render_spec(ss1 + ss2) matches Err(ErrorSpec::DuplicateMetric(_)),
{
    let cpu1 = parse_percent_spec(r1.cpu_perc);
    let cpu2 = parse_percent_spec(r2.cpu_perc);
    assert(cpu1 is Ok);
    assert(cpu2 is Ok);
    let c1 = sample_spec(
        "container_cpu_usage"@,
        "CPU usage percentage for container"@,
        cpu1->Ok_0,
        r1.container,
        user,
        mode,
    );
    let c2 = sample_spec(
        "container_cpu_usage"@,
        "CPU usage percentage for container"@,
        cpu2->Ok_0,
        r2.container,
        user,
        mode,
    );
    assert(ss1.len() > 0 && ss1[0] == c1);
    assert(ss2.len() > 0 && ss2[0] == c2);
    let both = ss1 + ss2;
    assert(both[0] == c1);
    assert(both[ss1.len() as int] == c2);
    assert(id_of(c1) == id_of(c2));
    assert(dup_at(both, ss1.len() as int));
    lemma_first_dup_from(both, 0);
    let f = first_dup(both);
    if f == -1 {
        assert(!dup_at(both, ss1.len() as int));
    }
    assert(f >= 0);
}

/// Derivation and rendering are deterministic: one record set, label set
/// and mode always yield one rendered outcome, byte for byte.
pub proof fn lemma_scrape_deterministic(
    rs: Seq<RecordSpec>,
    user: Seq<(Seq<char>, Seq<char>)>,
    mode: NamingMode,
    entries: Seq<(Seq<char>, u64)>,
    out1: Result<Seq<char>, ErrorSpec>,
    out2: Result<Seq<char>, ErrorSpec>,
)
    requires
        out1 == pipeline_spec(rs, user, mode, entries),
        out2 == pipeline_spec(rs, user, mode, entries),
    ensures
        out1 == out2,
{
}

} // verus!
