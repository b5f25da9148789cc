//! The exposition renderer: registers every sample under its name,
//! refuses a second sample with the same name and identical label set,
//! and serializes the rest as Prometheus text.
//!
//! Series order is deterministic: names appear in the order they were
//! first registered, each with its help and type line, followed by every
//! series of that name in registration order.

use vstd::prelude::*;

use crate::decimal::format_spec;
use crate::docker::{DockerContainerStats, RecordSpec};
use crate::error::{Error, ErrorSpec};
use crate::metrics::{
    gauges_for_container, pairs_view, samples_view, derive_spec, MetricSample,
    MetricSampleSpec, NamingMode,
};
use crate::text::str_eq;
use crate::units::UnitTable;

verus! {

/// A sample's registration identity: its name and its label set.
pub open spec fn id_of(s: MetricSampleSpec) -> (Seq<char>, Seq<(Seq<char>, Seq<char>)>) {
    (s.name, s.labels)
}

/// Sample `j` collides with an earlier sample.
pub open spec fn dup_at(ss: Seq<MetricSampleSpec>, j: int) -> bool {
    exists|i: int| 0 <= i < j && id_of(ss[i]) == id_of(ss[j])
}

/// The first index at or after `j` that collides with an earlier sample,
/// or `-1`.
pub open spec fn first_dup_from(ss: Seq<MetricSampleSpec>, j: int) -> int
    decreases ss.len() - j,
{
    if j >= ss.len() {
        -1
    } else if dup_at(ss, j) {
        j
    } else {
        first_dup_from(ss, j + 1)
    }
}

/// The first colliding index of the whole sequence, or `-1`.
pub open spec fn first_dup(ss: Seq<MetricSampleSpec>) -> int {
    first_dup_from(ss, 0)
}

/// What `first_dup_from` finds: the least colliding index at or after
/// `j`, or the absence of any.
pub proof fn lemma_first_dup_from(ss: Seq<MetricSampleSpec>, j: int)
    ensures
        first_dup_from(ss, j) >= -1,
        first_dup_from(ss, j) == -1 ==> (forall|t: int| j <= t < ss.len() ==> !dup_at(ss, t)),
        first_dup_from(ss, j) >= 0 ==> {
            let f = first_dup_from(ss, j);
            &&& j <= f < ss.len()
            &&& dup_at(ss, f)
            &&& forall|t: int| j <= t < f ==> !dup_at(ss, t)
        },
    decreases ss.len() - j,
{
    if j < ss.len() && !dup_at(ss, j) {
        lemma_first_dup_from(ss, j + 1);
    }
}

/// One rendered label: `key="value"`.
pub open spec fn label_text(p: (Seq<char>, Seq<char>)) -> Seq<char> {
    p.0 + "=\""@ + p.1 + "\""@
}

/// Rendered labels joined with commas.
pub open spec fn labels_text(ls: Seq<(Seq<char>, Seq<char>)>) -> Seq<char>
    decreases ls.len(),
{
    if ls.len() == 0 {
        Seq::empty()
    } else if ls.len() == 1 {
        label_text(ls[0])
    } else {
        labels_text(ls.drop_last()) + ","@ + label_text(ls.last())
    }
}

/// One series line: the name, the braced labels when any, a space, the
/// value, a newline.
pub open spec fn line_text(s: MetricSampleSpec) -> Seq<char> {
    s.name + (if s.labels.len() == 0 {
        Seq::<char>::empty()
    } else {
        "{"@ + labels_text(s.labels) + "}"@
    }) + " "@ + format_spec(s.value.mantissa as nat, s.value.scale as nat) + "\n"@
}

/// The help and type lines of a name, taken from its first sample.
pub open spec fn header_text(s: MetricSampleSpec) -> Seq<char> {
    "# HELP "@ + s.name + " "@ + s.help + "\n"@ + "# TYPE "@ + s.name + " gauge\n"@
}

/// An earlier sample already carries the name of sample `j`.
pub open spec fn name_seen(ss: Seq<MetricSampleSpec>, j: int) -> bool {
    exists|i: int| 0 <= i < j && ss[i].name == ss[j].name
}

/// The lines of every sample below `k` whose name is `name`, in order.
pub open spec fn lines_for(ss: Seq<MetricSampleSpec>, k: int, name: Seq<char>) -> Seq<char>
    decreases k,
{
    if k <= 0 {
        Seq::empty()
    } else {
        lines_for(ss, k - 1, name) + (if ss[k - 1].name == name {
            line_text(ss[k - 1])
        } else {
            Seq::<char>::empty()
        })
    }
}

/// The whole text up to sample `j`: for each name, at its first
/// occurrence, the header and every series of that name.
pub open spec fn blocks_upto(ss: Seq<MetricSampleSpec>, j: int) -> Seq<char>
    decreases j,
{
    if j <= 0 {
        Seq::empty()
    } else {
        blocks_upto(ss, j - 1) + (if name_seen(ss, j - 1) {
            Seq::<char>::empty()
        } else {
            header_text(ss[j - 1]) + lines_for(ss, ss.len() as int, ss[j - 1].name)
        })
    }
}

/// The full rendered exposition of a duplicate-free sample sequence.
pub open spec fn render_text(ss: Seq<MetricSampleSpec>) -> Seq<char> {
    blocks_upto(ss, ss.len() as int)
}

/// What rendering yields: `DuplicateMetric` naming the first colliding
/// sample, else the exposition text.
pub open spec fn render_spec(ss: Seq<MetricSampleSpec>) -> Result<Seq<char>, ErrorSpec> {
    let f = first_dup(ss);
    if f >= 0 {
        Err(ErrorSpec::DuplicateMetric(ss[f].name))
    } else {
        Ok(render_text(ss))
    }
}

fn labels_eq(a: &Vec<(String, String)>, b: &Vec<(String, String)>) -> (r: bool)
    ensures
        r == (pairs_view(a@) == pairs_view(b@)),
{
    proof {
        assert(pairs_view(a@).len() == a@.len());
        assert(pairs_view(b@).len() == b@.len());
    }
    let na = a.len();
    if na != b.len() {
        return false;
    }
    let mut i: usize = 0;
    while i < na
        invariant
            na == a@.len() == b@.len(),
            i <= na,
            forall|t: int| 0 <= t < i ==> pairs_view(a@)[t] == pairs_view(b@)[t],
        decreases na - i,
    {
        proof {
            assert(pairs_view(a@)[i as int] == (a@[i as int].0@, a@[i as int].1@));
            assert(pairs_view(b@)[i as int] == (b@[i as int].0@, b@[i as int].1@));
        }
        if !str_eq(a[i].0.as_str(), b[i].0.as_str()) {
            return false;
        }
        if !str_eq(a[i].1.as_str(), b[i].1.as_str()) {
            return false;
        }
        i = i + 1;
    }
    proof {
        assert(pairs_view(a@) =~~= pairs_view(b@));
    }
    true
}

fn sample_id_eq(a: &MetricSample, b: &MetricSample) -> (r: bool)
    ensures
        r == (id_of(a@) == id_of(b@)),
{
    if !str_eq(a.name.as_str(), b.name.as_str()) {
        return false;
    }
    labels_eq(&a.labels, &b.labels)
}

/// Scans registration order for the first sample whose name and label set
/// an earlier sample already took.
fn find_duplicate(samples: &Vec<MetricSample>) -> (r: Option<usize>)
    ensures
        match r {
            Some(j) => first_dup(samples_view(samples@)) == j,
            None => first_dup(samples_view(samples@)) == -1,
        },
{
    let ghost vs = samples_view(samples@);
    proof {
        assert(vs.len() == samples@.len());
    }
    let n = samples.len();
    let mut j: usize = 0;
    while j < n
        invariant
            vs == samples_view(samples@),
            vs.len() == samples@.len(),
            n == samples@.len(),
            j <= n,
            forall|t: int| 0 <= t < j ==> !dup_at(vs, t),
        decreases n - j,
    {
        let mut i: usize = 0;
        while i < j
            invariant
                vs == samples_view(samples@),
                vs.len() == samples@.len(),
                n == samples@.len(),
                i <= j < n,
                forall|t: int| 0 <= t < j ==> !dup_at(vs, t),
                forall|t: int| 0 <= t < i ==> id_of(vs[t]) != id_of(vs[j as int]),
            decreases j - i,
        {
            proof {
                assert(vs[i as int] == samples@[i as int]@);
                assert(vs[j as int] == samples@[j as int]@);
            }
            if sample_id_eq(&samples[i], &samples[j]) {
                proof {
                    assert(dup_at(vs, j as int));
                    lemma_first_dup_from(vs, 0);
                    let f = first_dup(vs);
                    if f == -1 {
                        assert(!dup_at(vs, j as int));
                    } else if f < j {
                        assert(!dup_at(vs, f));
                    } else if f > j {
                        assert(!dup_at(vs, j as int));
                    }
                }
                return Some(j);
            }
            i = i + 1;
        }
        proof {
            assert(!dup_at(vs, j as int));
        }
        j = j + 1;
    }
    proof {
        lemma_first_dup_from(vs, 0);
        let f = first_dup(vs);
        if f >= 0 {
            assert(!dup_at(vs, f));
        }
    }
    None
}

fn render_line(s: &MetricSample) -> (r: String)
    ensures
        r@ == line_text(s@),
{
    let mut out = s.name.clone();
    let nl = s.labels.len();
    let ghost lv = pairs_view(s.labels@);
    proof {
        assert(lv.len() == s.labels@.len());
    }
    if nl > 0 {
        out.append("{");
        let mut i: usize = 0;
        proof {
            assert(lv.take(0) =~= Seq::<(Seq<char>, Seq<char>)>::empty());
        }
        while i < nl
            invariant
                lv == pairs_view(s.labels@),
                lv.len() == s.labels@.len(),
                nl == s.labels@.len(),
                i <= nl,
                out@ == s.name@ + "{"@ + labels_text(lv.take(i as int)),
            decreases nl - i,
        {
            if i > 0 {
                out.append(",");
            }
            out.append(s.labels[i].0.as_str());
            out.append("=\"");
            out.append(s.labels[i].1.as_str());
            out.append("\"");
            proof {
                assert(lv[i as int] == (s.labels@[i as int].0@, s.labels@[i as int].1@));
                assert(lv.take(i as int + 1).drop_last() =~= lv.take(i as int));
                assert(lv.take(i as int + 1).last() == lv[i as int]);
                if i == 0 {
                    assert(labels_text(lv.take(1)) == label_text(lv[0]));
                    assert(out@ =~= s.name@ + "{"@ + labels_text(lv.take(i as int + 1)));
                } else {
                    assert(labels_text(lv.take(i as int + 1)) == labels_text(lv.take(i as int))
                        + ","@ + label_text(lv[i as int]));
                    assert(out@ =~= s.name@ + "{"@ + labels_text(lv.take(i as int + 1)));
                }
            }
            i = i + 1;
        }
        out.append("}");
        proof {
            assert(lv.take(nl as int) =~= lv);
        }
    }
    out.append(" ");
    let val = s.value.format();
    out.append(val.as_str());
    out.append("\n");
    proof {
        assert(out@ =~= line_text(s@));
    }
    out
}

fn render_header(s: &MetricSample) -> (r: String)
    ensures
        r@ == header_text(s@),
{
    let mut out = String::new();
    out.append("# HELP ");
    out.append(s.name.as_str());
    out.append(" ");
    out.append(s.help.as_str());
    out.append("\n");
    out.append("# TYPE ");
    out.append(s.name.as_str());
    out.append(" gauge\n");
    proof {
        assert(out@ =~= header_text(s@));
    }
    out
}

/// Renders all samples: refuses the first name-and-label collision with
/// [`Error::DuplicateMetric`], else produces the exposition text.
pub fn render(samples: &Vec<MetricSample>) -> (r: Result<String, Error>)
    ensures
        match render_spec(samples_view(samples@)) {
            Ok(text) => r is Ok && r->Ok_0@ == text,
            Err(e) => r is Err && r->Err_0@ == e,
        },
{
    let ghost vs = samples_view(samples@);
    proof {
        assert(vs.len() == samples@.len());
    }
    match find_duplicate(samples) {
        Some(j) => {
            proof {
                lemma_first_dup_from(vs, 0);
                assert(j < vs.len());
                assert(vs[j as int] == samples@[j as int]@);
            }
            Err(Error::DuplicateMetric(samples[j].name.clone()))
        },
        None => {
            let n = samples.len();
            let mut out = String::new();
            let mut j: usize = 0;
            while j < n
                invariant
                    vs == samples_view(samples@),
                    vs.len() == samples@.len(),
                    n == samples@.len(),
                    j <= n,
                    out@ == blocks_upto(vs, j as int),
                decreases n - j,
            {
                let mut seen = false;
                let mut i: usize = 0;
                while i < j
                    invariant
                        vs == samples_view(samples@),
                        vs.len() == samples@.len(),
                        n == samples@.len(),
                        i <= j < n,
                        seen ==> name_seen(vs, j as int),
                        !seen ==> (forall|t: int|
                            0 <= t < i ==> vs[t].name != vs[j as int].name),
                    decreases j - i,
                {
                    proof {
                        assert(vs[i as int] == samples@[i as int]@);
                        assert(vs[j as int] == samples@[j as int]@);
                    }
                    if str_eq(samples[i].name.as_str(), samples[j].name.as_str()) {
                        seen = true;
                    }
                    i = i + 1;
                }
                if !seen {
                    proof {
                        assert(vs[j as int] == samples@[j as int]@);
                        assert(!name_seen(vs, j as int));
                    }
                    let h = render_header(&samples[j]);
                    out.append(h.as_str());
                    let ghost base = blocks_upto(vs, j as int) + header_text(vs[j as int]);
                    let mut k: usize = 0;
                    while k < n
                        invariant
                            vs == samples_view(samples@),
                            vs.len() == samples@.len(),
                            n == samples@.len(),
                            k <= n,
                            j < n,
                            out@ == base + lines_for(vs, k as int, vs[j as int].name),
                        decreases n - k,
                    {
                        proof {
                            assert(vs[k as int] == samples@[k as int]@);
                            assert(vs[j as int] == samples@[j as int]@);
                        }
                        if str_eq(samples[k].name.as_str(), samples[j].name.as_str()) {
                            let ln = render_line(&samples[k]);
                            out.append(ln.as_str());
                        }
                        k = k + 1;
                        proof {
                            assert(out@ =~= base + lines_for(vs, k as int, vs[j as int].name));
                        }
                    }
                } else {
                    proof {
                        assert(name_seen(vs, j as int));
                    }
                }
                j = j + 1;
                proof {
                    assert(out@ =~= blocks_upto(vs, j as int));
                }
            }
            Ok(out)
        },
    }
}

/// Records as their mathematical shapes.
pub open spec fn records_view(v: Seq<DockerContainerStats>) -> Seq<RecordSpec> {
    v.map_values(|d: DockerContainerStats| d@)
}

/// The samples of every record from `i` on, concatenated in order, or the
/// first record's derivation error.
pub open spec fn derive_from(
    rs: Seq<RecordSpec>,
    user: Seq<(Seq<char>, Seq<char>)>,
    mode: NamingMode,
    entries: Seq<(Seq<char>, u64)>,
    i: int,
) -> Result<Seq<MetricSampleSpec>, ErrorSpec>
    decreases rs.len() - i,
{
    if i < 0 || i >= rs.len() {
        Ok(Seq::empty())
    } else {
        match derive_spec(rs[i], user, mode, entries) {
            Err(e) => Err(e),
            Ok(ss) => match derive_from(rs, user, mode, entries, i + 1) {
                Err(e) => Err(e),
                Ok(rest) => Ok(ss + rest),
            },
        }
    }
}

/// What the whole scrape yields: every record derived, all samples
/// registered and rendered.
pub open spec fn pipeline_spec(
    rs: Seq<RecordSpec>,
    user: Seq<(Seq<char>, Seq<char>)>,
    mode: NamingMode,
    entries: Seq<(Seq<char>, u64)>,
) -> Result<Seq<char>, ErrorSpec> {
    match derive_from(rs, user, mode, entries, 0) {
        Err(e) => Err(e),
        Ok(ss) => render_spec(ss),
    }
}

/// Derives every container's gauges and renders them as one Prometheus
/// text document. Fails on the first malformed field or on a metric
/// identity collision; never emits a partial document.
pub fn get_prometheus_format(
    stats: &Vec<DockerContainerStats>,
    labels: &Vec<(String, String)>,
    mode: NamingMode,
    table: &UnitTable,
) -> (r: Result<String, Error>)
    ensures
        match pipeline_spec(records_view(stats@), pairs_view(labels@), mode, table@) {
            Ok(text) => r is Ok && r->Ok_0@ == text,
            Err(e) => r is Err && r->Err_0@ == e,
        },
{
    let ghost rv = records_view(stats@);
    let ghost user = pairs_view(labels@);
    proof {
        assert(rv.len() == stats@.len());
    }
    let n = stats.len();
    let mut all: Vec<MetricSample> = Vec::new();
    let mut i: usize = 0;
    while i < n
        invariant
            rv == records_view(stats@),
            user == pairs_view(labels@),
            rv.len() == stats@.len(),
            n == stats@.len(),
            i <= n,
            derive_from(rv, user, mode, table@, 0) == (match derive_from(
                rv,
                user,
                mode,
                table@,
                i as int,
            ) {
                Err(e) => Err::<Seq<MetricSampleSpec>, ErrorSpec>(e),
                Ok(rest) => Ok(samples_view(all@) + rest),
            }),
        decreases n - i,
    {
        proof {
            assert(rv[i as int] == stats@[i as int]@);
        }
        match gauges_for_container(&stats[i], labels, mode, table) {
            Err(e) => {
                proof {
                    assert(derive_from(rv, user, mode, table@, i as int) == Err::<
                        Seq<MetricSampleSpec>,
                        ErrorSpec,
                    >(e@));
                }
                return Err(e);
            },
            Ok(mut v) => {
                let ghost pre = all@;
                let ghost added = v@;
                all.append(&mut v);
                proof {
                    let ss = derive_spec(rv[i as int], user, mode, table@)->Ok_0;
                    assert(samples_view(added) == ss);
                    assert(samples_view(all@) =~= samples_view(pre) + samples_view(added));
                    match derive_from(rv, user, mode, table@, i as int + 1) {
                        Err(e) => {},
                        Ok(rest) => {
                            assert(derive_from(rv, user, mode, table@, i as int)
                                == Ok::<Seq<MetricSampleSpec>, ErrorSpec>(ss + rest));
                            assert((samples_view(pre) + ss) + rest =~= samples_view(pre) + (ss
                                + rest));
                        },
                    }
                }
            },
        }
        i = i + 1;
    }
    proof {
        assert(derive_from(rv, user, mode, table@, n as int)
            == Ok::<Seq<MetricSampleSpec>, ErrorSpec>(Seq::empty()));
        assert(samples_view(all@) + Seq::<MetricSampleSpec>::empty() =~= samples_view(all@));
    }
    render(&all)
}

} // verus!
