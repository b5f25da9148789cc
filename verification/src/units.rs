//! The unit conversion engine: an immutable table from unit symbol to byte
//! multiplier, and the conversion of a value with a unit into a byte count.
//!
//! The table is a value, built once at startup and passed by reference into
//! the pipeline. Two families are supported out of the box: decimal (powers
//! of 1000) and binary (powers of 1024), sharing `B` as the base unit.

use vstd::prelude::*;

use crate::decimal::{Decimal, MAX_MANTISSA};
use crate::error::{res_view, Error, ErrorSpec};
use crate::text::str_eq;

verus! {

/// A unit table: symbols paired with their byte multipliers, looked up by
/// exact, case-sensitive match.
pub struct UnitTable {
    pub entries: Vec<(String, u64)>,
}

impl View for UnitTable {
    type V = Seq<(Seq<char>, u64)>;

    open spec fn view(&self) -> Seq<(Seq<char>, u64)> {
        self.entries@.map_values(|p: (String, u64)| (p.0@, p.1))
    }
}

/// First-match lookup of a symbol among table entries.
pub open spec fn lookup(entries: Seq<(Seq<char>, u64)>, unit: Seq<char>) -> Option<u64>
    decreases entries.len(),
{
    if entries.len() == 0 {
        None
    } else if entries[0].0 == unit {
        Some(entries[0].1)
    } else {
        lookup(entries.drop_first(), unit)
    }
}

/// No two entries spell the same symbol.
pub open spec fn table_wf(entries: Seq<(Seq<char>, u64)>) -> bool {
    forall|i: int, j: int|
        0 <= i < j < entries.len() ==> (#[trigger] entries[i]).0 != (#[trigger] entries[j]).0
}

/// The built-in table: the base unit, the decimal family and the binary
/// family.
pub open spec fn standard_entries() -> Seq<(Seq<char>, u64)> {
    seq![
        (seq!['B'], 1u64),
        (seq!['k', 'B'], 1000u64),
        (seq!['M', 'B'], 1000000u64),
        (seq!['G', 'B'], 1000000000u64),
        (seq!['T', 'B'], 1000000000000u64),
        (seq!['K', 'i', 'B'], 1024u64),
        (seq!['M', 'i', 'B'], 1048576u64),
        (seq!['G', 'i', 'B'], 1073741824u64),
        (seq!['T', 'i', 'B'], 1099511627776u64),
    ]
}

/// What converting `value` with `unit` against `entries` yields: the value
/// scaled by the multiplier on a hit, `UnknownUnit` on a miss.
pub open spec fn convert_spec(value: Decimal, unit: Seq<char>, entries: Seq<(Seq<char>, u64)>)
    -> Result<Decimal, ErrorSpec> {
    match lookup(entries, unit) {
        Some(m) => Ok(
            Decimal { mantissa: (value.mantissa * m) as u128, scale: value.scale },
        ),
        None => Err(ErrorSpec::UnknownUnit(unit)),
    }
}

impl UnitTable {
    /// Builds the standard table.
    pub fn standard() -> (t: UnitTable)
        ensures
            t@ == standard_entries(),
            table_wf(t@),
    {
        let mut entries: Vec<(String, u64)> = Vec::new();
        entries.push(("B".to_owned(), 1));
        entries.push(("kB".to_owned(), 1000));
        entries.push(("MB".to_owned(), 1000000));
        entries.push(("GB".to_owned(), 1000000000));
        entries.push(("TB".to_owned(), 1000000000000));
        entries.push(("KiB".to_owned(), 1024));
        entries.push(("MiB".to_owned(), 1048576));
        entries.push(("GiB".to_owned(), 1073741824));
        entries.push(("TiB".to_owned(), 1099511627776));
        let t = UnitTable { entries };
        proof {
            reveal_strlit("B");
            reveal_strlit("kB");
            reveal_strlit("MB");
            reveal_strlit("GB");
            reveal_strlit("TB");
            reveal_strlit("KiB");
            reveal_strlit("MiB");
            reveal_strlit("GiB");
            reveal_strlit("TiB");
            assert(t@ =~~= standard_entries());
            assert forall|i: int, j: int| 0 <= i < j < standard_entries().len() implies (
            #[trigger] standard_entries()[i]).0 != (#[trigger] standard_entries()[j]).0 by {
                let a = standard_entries()[i].0;
                let b = standard_entries()[j].0;
                if a.len() == b.len() {
                    assert(a[0] != b[0] || a.len() >= 2 && a[1] != b[1]);
                }
            }
        }
        t
    }

    /// Finds the multiplier of `unit`, if the table holds it.
    pub fn find(&self, unit: &str) -> (r: Option<u64>)
        ensures
            r == lookup(self@, unit@),
    {
        let n = self.entries.len();
        let mut i: usize = 0;
        proof {
            assert(self@.skip(0) =~= self@);
        }
        while i < n
            invariant
                n == self.entries.len(),
                i <= n,
                lookup(self@, unit@) == lookup(self@.skip(i as int), unit@),
            decreases n - i,
        {
            proof {
                assert(self@.skip(i as int)[0] == self@[i as int]);
                assert(self@.skip(i as int).drop_first() =~= self@.skip(i as int + 1));
            }
            if str_eq(self.entries[i].0.as_str(), unit) {
                return Some(self.entries[i].1);
            }
            i = i + 1;
        }
        proof {
            assert(self@.skip(n as int) =~= Seq::<(Seq<char>, u64)>::empty());
        }
        None
    }
}

/// Scales `value` by the multiplier of `unit`, failing with
/// [`Error::UnknownUnit`] when the table does not know the symbol. The
/// mantissa bound keeps the product inside `u128` for any `u64`
/// multiplier.
pub fn convert_to_bytes(value: Decimal, unit: &str, table: &UnitTable) -> (r: Result<
    Decimal,
    Error,
>)
    requires
        value.mantissa <= MAX_MANTISSA,
    ensures
        res_view(r) == convert_spec(value, unit@, table@),
{
    match table.find(unit) {
        Some(m) => {
            proof {
                assert(value.mantissa * m <= MAX_MANTISSA * 0xffff_ffff_ffff_ffffu64)
                    by (nonlinear_arith)
                    requires
                        value.mantissa <= MAX_MANTISSA,
                        m <= 0xffff_ffff_ffff_ffffu64,
                ;
            }
            Ok(Decimal { mantissa: value.mantissa * (m as u128), scale: value.scale })
        },
        None => Err(Error::UnknownUnit(unit.to_owned())),
    }
}

} // verus!
