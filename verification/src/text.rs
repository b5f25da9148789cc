//! Character-level ground work: digit and letter classification, the value
//! of a digit string, first occurrences, and equality of strings, with the
//! lemmas the parsers lean on.

use vstd::prelude::*;

verus! {

/// An ASCII decimal digit. The numeric grammars accept these digits only.
pub open spec fn is_digit_char(c: char) -> bool {
    48 <= c as int && c as int <= 57
}

/// An ASCII letter. Unit symbols are runs of these.
pub open spec fn is_letter_char(c: char) -> bool {
    (65 <= c as int && c as int <= 90) || (97 <= c as int && c as int <= 122)
}

/// ASCII whitespace, as trimmed from label keys and values.
pub open spec fn is_space_char(c: char) -> bool {
    c == ' ' || c == '\t' || c == '\n' || c == '\r'
}

/// The numeric value of a digit character.
pub open spec fn digit_value(c: char) -> nat {
    (c as int - 48) as nat
}

/// Every character of `s` is a digit.
pub open spec fn all_digits(s: Seq<char>) -> bool {
    forall|i: int| 0 <= i < s.len() ==> is_digit_char(#[trigger] s[i])
}

/// The value of a digit string read in base 10.
pub open spec fn digits_val(s: Seq<char>) -> nat
    decreases s.len(),
{
    if s.len() == 0 {
        0
    } else {
        digits_val(s.drop_last()) * 10 + digit_value(s.last())
    }
}

/// `10^n`.
pub open spec fn pow10(n: nat) -> nat
    decreases n,
{
    if n == 0 {
        1
    } else {
        10 * pow10((n - 1) as nat)
    }
}

/// The index of the first occurrence of `c` in `s`, or `-1`.
pub open spec fn first_occurrence(s: Seq<char>, c: char) -> int
    decreases s.len(),
{
    if s.len() == 0 {
        -1
    } else if s[0] == c {
        0
    } else {
        let r = first_occurrence(s.drop_first(), c);
        if r < 0 {
            -1
        } else {
            r + 1
        }
    }
}

/// How many times `c` occurs in `s`.
pub open spec fn count_char(s: Seq<char>, c: char) -> nat
    decreases s.len(),
{
    if s.len() == 0 {
        0
    } else {
        count_char(s.drop_last(), c) + (if s.last() == c {
            1nat
        } else {
            0nat
        })
    }
}

pub proof fn lemma_pow10_pos(n: nat)
    ensures
        pow10(n) >= 1,
    decreases n,
{
    if n > 0 {
        lemma_pow10_pos((n - 1) as nat);
    }
}

/// Appending a digit multiplies the value by ten and adds the digit.
pub proof fn lemma_digits_val_push(q: Seq<char>, c: char)
    ensures
        digits_val(q.push(c)) == digits_val(q) * 10 + digit_value(c),
{
    assert(q.push(c).drop_last() =~= q);
    assert(q.push(c).last() == c);
    assert(q.push(c).len() == q.len() + 1);
}

/// Reading `a + b` in base 10 shifts the value of `a` by the length of `b`.
pub proof fn lemma_digits_val_add(a: Seq<char>, b: Seq<char>)
    ensures
        digits_val(a + b) == digits_val(a) * pow10(b.len()) + digits_val(b),
    decreases b.len(),
{
    if b.len() == 0 {
        assert(a + b =~= a);
        assert(pow10(b.len()) == 1);
        assert(digits_val(b) == 0);
        assert(digits_val(a + b) == digits_val(a) * pow10(b.len()) + digits_val(b));
    } else {
        lemma_digits_val_add(a, b.drop_last());
        assert((a + b).drop_last() =~= a + b.drop_last());
        assert((a + b).last() == b.last());
        let p = pow10((b.len() - 1) as nat);
        assert(digits_val(a + b) == (digits_val(a) * p + digits_val(b.drop_last())) * 10
            + digit_value(b.last()));
        assert((digits_val(a) * p + digits_val(b.drop_last())) * 10 == digits_val(a) * p * 10
            + digits_val(b.drop_last()) * 10) by (nonlinear_arith);
        assert(digits_val(a) * p * 10 == digits_val(a) * (p * 10)) by (nonlinear_arith);
        assert(p * 10 == pow10(b.len()));
        assert(digits_val(b) == digits_val(b.drop_last()) * 10 + digit_value(b.last()));
        assert(digits_val(a + b) == digits_val(a) * (p * 10) + digits_val(b.drop_last()) * 10
            + digit_value(b.last()));
    }
}

/// A digit string is worth at least any of its prefixes.
pub proof fn lemma_digits_val_prefix(a: Seq<char>, b: Seq<char>)
    ensures
        digits_val(a + b) >= digits_val(a),
{
    lemma_digits_val_add(a, b);
    lemma_pow10_pos(b.len());
    let p = pow10(b.len());
    assert(digits_val(a) * p >= digits_val(a) * 1) by (nonlinear_arith)
        requires
            p >= 1,
    ;
}

/// What `first_occurrence` finds: a hit is the first, a miss is total.
pub proof fn lemma_first_occurrence(s: Seq<char>, c: char)
    ensures
        first_occurrence(s, c) == -1 ==> (forall|j: int| 0 <= j < s.len() ==> s[j] != c),
        first_occurrence(s, c) >= 0 ==> {
            let f = first_occurrence(s, c);
            &&& f < s.len()
            &&& s[f] == c
            &&& forall|j: int| 0 <= j < f ==> s[j] != c
        },
    decreases s.len(),
{
    if s.len() > 0 && s[0] != c {
        lemma_first_occurrence(s.drop_first(), c);
        assert(forall|j: int| 1 <= j < s.len() ==> s[j] == s.drop_first()[j - 1]);
    }
}

/// The converse: a first hit determines `first_occurrence`.
pub proof fn lemma_first_occurrence_is(s: Seq<char>, c: char, d: int)
    requires
        0 <= d < s.len(),
        s[d] == c,
        forall|j: int| 0 <= j < d ==> s[j] != c,
    ensures
        first_occurrence(s, c) == d,
{
    lemma_first_occurrence(s, c);
    let f = first_occurrence(s, c);
    if f == -1 {
    } else if f < d {
    } else if f > d {
    }
}

/// Compares two strings character by character.
pub fn str_eq(a: &str, b: &str) -> (r: bool)
    ensures
        r == (a@ == b@),
{
    let na = a.unicode_len();
    let nb = b.unicode_len();
    if na != nb {
        return false;
    }
    let mut i: usize = 0;
    while i < na
        invariant
            na == a@.len(),
            nb == b@.len(),
            na == nb,
            i <= na,
            forall|j: int| 0 <= j < i ==> a@[j] == b@[j],
        decreases na - i,
    {
        if a.get_char(i) != b.get_char(i) {
            return false;
        }
        i = i + 1;
    }
    proof {
        assert(a@ =~= b@);
    }
    true
}

} // verus!
