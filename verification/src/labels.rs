//! Label configuration: parses a flat `"k1=v1,k2=v2"` argument into an
//! ordered label set.
//!
//! Every comma-separated pair must hold exactly one `=`; key and value
//! are trimmed of surrounding ASCII whitespace. A repeated key keeps its
//! first position and takes the later value. A malformed pair is a
//! configuration-time error carrying the pair's text, distinct from the
//! pipeline's own error kinds.

use vstd::pervasive::VecAdditionalExecFns;
use vstd::prelude::*;

use crate::metrics::pairs_view;
use crate::text::{
    count_char, first_occurrence, is_space_char, lemma_first_occurrence,
    lemma_first_occurrence_is, str_eq,
};

verus! {

/// How many spaces the string starts with.
pub open spec fn leading_spaces(s: Seq<char>) -> nat
    decreases s.len(),
{
    if s.len() > 0 && is_space_char(s[0]) {
        1 + leading_spaces(s.drop_first())
    } else {
        0
    }
}

/// How many spaces the string ends with.
pub open spec fn trailing_spaces(s: Seq<char>) -> nat
    decreases s.len(),
{
    if s.len() > 0 && is_space_char(s.last()) {
        1 + trailing_spaces(s.drop_last())
    } else {
        0
    }
}

/// The string without its surrounding whitespace.
pub open spec fn trim_spec(s: Seq<char>) -> Seq<char> {
    let a = leading_spaces(s);
    if a == s.len() {
        Seq::empty()
    } else {
        s.subrange(a as int, s.len() - trailing_spaces(s))
    }
}

pub proof fn lemma_leading_spaces(s: Seq<char>)
    ensures
        leading_spaces(s) <= s.len(),
        forall|j: int| 0 <= j < leading_spaces(s) ==> is_space_char(#[trigger] s[j]),
        leading_spaces(s) < s.len() ==> !is_space_char(s[leading_spaces(s) as int]),
    decreases s.len(),
{
    if s.len() > 0 && is_space_char(s[0]) {
        lemma_leading_spaces(s.drop_first());
        assert(forall|j: int| 1 <= j < s.len() ==> s[j] == s.drop_first()[j - 1]);
    }
}

pub proof fn lemma_trailing_spaces(s: Seq<char>)
    ensures
        trailing_spaces(s) <= s.len(),
        forall|j: int|
            s.len() - trailing_spaces(s) <= j < s.len() ==> is_space_char(#[trigger] s[j]),
        trailing_spaces(s) < s.len() ==> !is_space_char(
            s[s.len() - trailing_spaces(s) - 1],
        ),
    decreases s.len(),
{
    if s.len() > 0 && is_space_char(s.last()) {
        lemma_trailing_spaces(s.drop_last());
        assert(forall|j: int| 0 <= j < s.len() - 1 ==> s.drop_last()[j] == s[j]);
    }
}

fn is_space(c: char) -> (r: bool)
    ensures
        r == is_space_char(c),
{
    c == ' ' || c == '\t' || c == '\n' || c == '\r'
}

/// Strips surrounding ASCII whitespace.
fn trim_str<'a>(s: &'a str) -> (r: &'a str)
    ensures
        r@ == trim_spec(s@),
{
    let n = s.unicode_len();
    let mut a: usize = 0;
    while a < n && is_space(s.get_char(a))
        invariant
            n == s@.len(),
            a <= n,
            forall|j: int| 0 <= j < a ==> is_space_char(#[trigger] s@[j]),
        decreases n - a,
    {
        a = a + 1;
    }
    proof {
        lemma_leading_spaces(s@);
        let ls = leading_spaces(s@);
        if ls < a {
            assert(is_space_char(s@[ls as int]));
        }
        if ls > a {
            assert(is_space_char(s@[a as int]));
        }
        assert(ls == a);
    }
    if a == n {
        let r = s.substring_char(n, n);
        proof {
            assert(r@ =~= trim_spec(s@));
        }
        return r;
    }
    let mut b: usize = 0;
    while b < n - a && is_space(s.get_char(n - 1 - b))
        invariant
            n == s@.len(),
            a < n,
            b <= n - a,
            !is_space_char(s@[a as int]),
            forall|j: int| n - b <= j < n ==> is_space_char(#[trigger] s@[j]),
        decreases n - a - b,
    {
        b = b + 1;
        proof {
            if b == n - a {
                assert(is_space_char(s@[a as int]));
            }
        }
    }
    proof {
        lemma_trailing_spaces(s@);
        let ts = trailing_spaces(s@);
        if ts < b {
            assert(is_space_char(s@[n - ts - 1]));
        }
        if ts > b {
            assert(is_space_char(s@[n - b - 1]));
        }
        assert(ts == b);
    }
    let r = s.substring_char(a, n - b);
    proof {
        assert(r@ =~= trim_spec(s@));
    }
    r
}

/// Inserts a pair into an ordered label set: a present key keeps its
/// position and takes the new value, a new key goes to the end.
pub open spec fn insert_label(
    acc: Seq<(Seq<char>, Seq<char>)>,
    k: Seq<char>,
    v: Seq<char>,
) -> Seq<(Seq<char>, Seq<char>)>
    decreases acc.len(),
{
    if acc.len() == 0 {
        seq![(k, v)]
    } else if acc[0].0 == k {
        seq![(k, v)] + acc.drop_first()
    } else {
        seq![acc[0]] + insert_label(acc.drop_first(), k, v)
    }
}

fn insert_label_exec(acc: &mut Vec<(String, String)>, k: String, v: String)
    ensures
        pairs_view(final(acc)@) == insert_label(pairs_view(old(acc)@), k@, v@),
{
    let ghost full = pairs_view(acc@);
    proof {
        assert(full == pairs_view(old(acc)@));
        assert(full.len() == acc@.len());
        assert(full.skip(0) =~= full);
        assert(full.take(0) =~= Seq::<(Seq<char>, Seq<char>)>::empty());
    }
    let n = acc.len();
    let mut i: usize = 0;
    while i < n
        invariant
            full == pairs_view(acc@),
            full == pairs_view(old(acc)@),
            full.len() == acc@.len(),
            n == acc@.len(),
            i <= n,
            insert_label(full, k@, v@) == full.take(i as int) + insert_label(
                full.skip(i as int),
                k@,
                v@,
            ),
        decreases n - i,
    {
        proof {
            assert(full[i as int] == (acc@[i as int].0@, acc@[i as int].1@));
            assert(full.skip(i as int)[0] == full[i as int]);
            assert(full.skip(i as int).drop_first() =~= full.skip(i as int + 1));
        }
        if str_eq(acc[i].0.as_str(), k.as_str()) {
            let ghost pre = acc@;
            acc.set(i, (k, v));
            proof {
                assert(insert_label(full.skip(i as int), k@, v@) == seq![(k@, v@)] + full.skip(
                    i as int + 1,
                ));
                assert forall|t: int| 0 <= t < acc@.len() implies pairs_view(acc@)[t] == (
                full.take(i as int) + insert_label(full.skip(i as int), k@, v@))[t] by {
                    assert(pairs_view(acc@)[t] == (acc@[t].0@, acc@[t].1@));
                    if t != i {
                        assert(acc@[t] == pre[t]);
                        assert(pairs_view(pre)[t] == (pre[t].0@, pre[t].1@));
                    }
                }
                assert(pairs_view(acc@).len() == acc@.len());
                assert(pairs_view(acc@) =~~= full.take(i as int) + insert_label(
                    full.skip(i as int),
                    k@,
                    v@,
                ));
                assert(pairs_view(acc@) == insert_label(full, k@, v@));
            }
            return;
        }
        proof {
            assert(full.take(i as int + 1) =~= full.take(i as int) + seq![full[i as int]]);
            assert(full.take(i as int) + (seq![full[i as int]] + insert_label(
                full.skip(i as int + 1),
                k@,
                v@,
            )) =~= full.take(i as int + 1) + insert_label(full.skip(i as int + 1), k@, v@));
        }
        i = i + 1;
    }
    let ghost pre = acc@;
    acc.push((k, v));
    proof {
        assert(full.skip(n as int) =~= Seq::<(Seq<char>, Seq<char>)>::empty());
        assert forall|t: int| 0 <= t < acc@.len() implies pairs_view(acc@)[t] == (full.take(
            n as int,
        ) + seq![(k@, v@)])[t] by {
            assert(pairs_view(acc@)[t] == (acc@[t].0@, acc@[t].1@));
            if t < n {
                assert(acc@[t] == pre[t]);
                assert(pairs_view(pre)[t] == (pre[t].0@, pre[t].1@));
            }
        }
        assert(pairs_view(acc@).len() == acc@.len());
        assert(pairs_view(acc@) =~~= full.take(n as int) + seq![(k@, v@)]);
    }
}

/// What one `key=value` segment does to the set: an error holding the
/// segment unless it has exactly one `=`, else the trimmed pair inserted.
pub open spec fn seg_insert(seg: Seq<char>, acc: Seq<(Seq<char>, Seq<char>)>) -> Result<
    Seq<(Seq<char>, Seq<char>)>,
    Seq<char>,
> {
    if count_char(seg, '=') != 1 {
        Err(seg)
    } else {
        let e = first_occurrence(seg, '=');
        Ok(insert_label(acc, trim_spec(seg.take(e)), trim_spec(seg.skip(e + 1))))
    }
}

/// What the whole argument yields: its comma-separated segments applied
/// left to right, stopping at the first malformed one.
pub open spec fn labels_go(s: Seq<char>, acc: Seq<(Seq<char>, Seq<char>)>) -> Result<
    Seq<(Seq<char>, Seq<char>)>,
    Seq<char>,
>
    decreases s.len(),
{
    let c = first_occurrence(s, ',');
    if c < 0 || c >= s.len() {
        seg_insert(s, acc)
    } else {
        match seg_insert(s.take(c), acc) {
            Err(e) => Err(e),
            Ok(acc2) => labels_go(s.skip(c + 1), acc2),
        }
    }
}

fn apply_segment(seg: &str, acc: &mut Vec<(String, String)>) -> (r: Result<(), String>)
    ensures
        match seg_insert(seg@, pairs_view(old(acc)@)) {
            Ok(m) => r is Ok && pairs_view(final(acc)@) == m,
            Err(e) => r is Err && r->Err_0@ == e && final(acc)@ == old(acc)@,
        },
{
    let n = seg.unicode_len();
    let mut cnt: usize = 0;
    let mut eq_pos: usize = 0;
    let mut i: usize = 0;
    proof {
        assert(seg@.take(0) =~= Seq::<char>::empty());
    }
    while i < n
        invariant
            n == seg@.len(),
            i <= n,
            cnt <= i,
            cnt == count_char(seg@.take(i as int), '='),
            cnt == 0 ==> (forall|t: int| 0 <= t < i ==> seg@[t] != '='),
            cnt > 0 ==> (eq_pos < i && seg@[eq_pos as int] == '=' && (forall|t: int|
                0 <= t < eq_pos ==> seg@[t] != '=')),
        decreases n - i,
    {
        let c = seg.get_char(i);
        proof {
            let p = seg@.take(i as int);
            assert(seg@.take(i as int + 1) =~= p.push(c));
            assert(p.push(c).drop_last() =~= p);
            assert(p.push(c).last() == c);
        }
        if c == '=' {
            if cnt == 0 {
                eq_pos = i;
            }
            cnt = cnt + 1;
        }
        i = i + 1;
    }
    proof {
        assert(seg@.take(n as int) =~= seg@);
    }
    if cnt != 1 {
        return Err(seg.to_owned());
    }
    proof {
        lemma_first_occurrence_is(seg@, '=', eq_pos as int);
    }
    let key_raw = seg.substring_char(0, eq_pos);
    let val_raw = seg.substring_char(eq_pos + 1, n);
    proof {
        assert(key_raw@ =~= seg@.take(eq_pos as int));
        assert(val_raw@ =~= seg@.skip(eq_pos as int + 1));
    }
    let key = trim_str(key_raw).to_owned();
    let val = trim_str(val_raw).to_owned();
    insert_label_exec(acc, key, val);
    Ok(())
}

/// Parses the optional `"k1=v1,k2=v2"` label argument into an ordered
/// label set. `None` means no labels. A pair without exactly one `=` is
/// refused with its own text as the error.
pub fn parse_labels(labels_str: Option<String>) -> (r: Result<Vec<(String, String)>, String>)
    ensures
        match labels_str {
            None => r is Ok && pairs_view(r->Ok_0@) == Seq::<(Seq<char>, Seq<char>)>::empty(),
            Some(s) => match labels_go(s@, Seq::empty()) {
                Ok(m) => r is Ok && pairs_view(r->Ok_0@) == m,
                Err(e) => r is Err && r->Err_0@ == e,
            },
        },
{
    let mut acc: Vec<(String, String)> = Vec::new();
    let s = match labels_str {
        None => {
            proof {
                assert(pairs_view(acc@) =~= Seq::<(Seq<char>, Seq<char>)>::empty());
            }
            return Ok(acc);
        },
        Some(s) => s,
    };
    let sr = s.as_str();
    let n = sr.unicode_len();
    let mut pos: usize = 0;
    let ghost whole = labels_go(s@, Seq::empty());
    proof {
        assert(s@.skip(0) =~= s@);
        assert(pairs_view(acc@) =~= Seq::<(Seq<char>, Seq<char>)>::empty());
    }
    loop
        invariant
            labels_str == Some(s),
            n == s@.len(),
            sr@ == s@,
            pos <= n,
            whole == labels_go(s@, Seq::empty()),
            whole == labels_go(s@.skip(pos as int), pairs_view(acc@)),
        decreases n - pos,
    {
        let ghost suffix = s@.skip(pos as int);
        let mut j: usize = pos;
        while j < n && sr.get_char(j) != ','
            invariant
                n == s@.len(),
                sr@ == s@,
                pos <= j <= n,
                forall|t: int| pos <= t < j ==> s@[t] != ',',
            decreases n - j,
        {
            j = j + 1;
        }
        proof {
            assert(forall|t: int|
                0 <= t < j - pos ==> suffix[t] == s@[t + pos] && s@[t + pos] != ',');
            if j < n {
                assert(suffix[j - pos] == ',');
                lemma_first_occurrence_is(suffix, ',', j - pos);
            } else {
                lemma_first_occurrence(suffix, ',');
                if first_occurrence(suffix, ',') >= 0 {
                    let f = first_occurrence(suffix, ',');
                    assert(suffix[f] == ',');
                    assert(s@[f + pos] == ',');
                }
                assert(first_occurrence(suffix, ',') == -1);
            }
        }
        let seg = sr.substring_char(pos, j);
        let ghost cur = pairs_view(acc@);
        let ghost c = first_occurrence(suffix, ',');
        proof {
            assert(seg@ =~= suffix.take(j - pos));
            if j >= n {
                assert(seg@ =~= suffix);
            }
            assert(whole == labels_go(suffix, cur));
        }
        match apply_segment(seg, &mut acc) {
            Err(e) => {
                proof {
                    assert(seg_insert(seg@, cur) == Err::<
                        Seq<(Seq<char>, Seq<char>)>,
                        Seq<char>,
                    >(e@));
                    if j < n {
                        assert(labels_go(suffix, cur) == Err::<
                            Seq<(Seq<char>, Seq<char>)>,
                            Seq<char>,
                        >(e@));
                    } else {
                        assert(labels_go(suffix, cur) == Err::<
                            Seq<(Seq<char>, Seq<char>)>,
                            Seq<char>,
                        >(e@));
                    }
                }
                return Err(e);
            },
            Ok(()) => {
                proof {
                    let m = seg_insert(seg@, cur)->Ok_0;
                    assert(pairs_view(acc@) == m);
                    if j < n {
                        assert(labels_go(suffix, cur) == labels_go(suffix.skip(c + 1), m));
                    } else {
                        assert(labels_go(suffix, cur) == Ok::<
                            Seq<(Seq<char>, Seq<char>)>,
                            Seq<char>,
                        >(m));
                    }
                }
            },
        }
        if j >= n {
            return Ok(acc);
        }
        proof {
            assert(s@.skip(pos as int).skip(j - pos + 1) =~= s@.skip(j as int + 1));
        }
        pos = j + 1;
    }
}

} // verus!
