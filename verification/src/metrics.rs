//! Metric derivation: one container record becomes a set of named, labeled
//! gauge samples.
//!
//! Two naming modes are supported. In label-based mode every container
//! shares the metric names and is told apart by a `container` label; in
//! name-embedding mode the container's name is folded into each metric
//! name and no container label is added. Either way any `-` in a metric
//! name becomes `_`, since metric names may hold only alphanumerics and
//! underscores.

use vstd::prelude::*;

use crate::decimal::Decimal;
use crate::docker::{DockerContainerStats, RecordSpec};
use crate::error::{Error, ErrorSpec};
use crate::parse::{
    parse_mem_usage_str, parse_netio_str, parse_blockio_str, parse_percent,
    parse_percent_spec, split_pair_rev_spec, split_pair_spec,
};
use crate::units::UnitTable;

verus! {

/// How a sample's identity carries the container: as a label, or embedded
/// in the metric name.
#[derive(Debug, Clone, Copy, PartialEq, Eq, Structural)]
pub enum NamingMode {
    LabelBased,
    NameEmbedded,
}

/// One derived gauge: a name, a help text, an exact value and an ordered
/// label set. Built fresh on every scrape and discarded after rendering.
#[derive(Debug, Clone)]
pub struct MetricSample {
    pub name: String,
    pub help: String,
    pub value: Decimal,
    pub labels: Vec<(String, String)>,
}

/// The mathematical shape of a sample.
pub struct MetricSampleSpec {
    pub name: Seq<char>,
    pub help: Seq<char>,
    pub value: Decimal,
    pub labels: Seq<(Seq<char>, Seq<char>)>,
}

/// String pairs as character-sequence pairs.
pub open spec fn pairs_view(v: Seq<(String, String)>) -> Seq<(Seq<char>, Seq<char>)> {
    v.map_values(|p: (String, String)| (p.0@, p.1@))
}

impl View for MetricSample {
    type V = MetricSampleSpec;

    open spec fn view(&self) -> MetricSampleSpec {
        MetricSampleSpec {
            name: self.name@,
            help: self.help@,
            value: self.value,
            labels: pairs_view(self.labels@),
        }
    }
}

/// Samples as their mathematical shapes.
pub open spec fn samples_view(v: Seq<MetricSample>) -> Seq<MetricSampleSpec> {
    v.map_values(|m: MetricSample| m@)
}

/// `-` becomes `_`; everything else stands.
pub open spec fn sanitize(s: Seq<char>) -> Seq<char> {
    s.map_values(
        |c: char|
            if c == '-' {
                '_'
            } else {
                c
            },
    )
}

/// The name a sample carries: the metric kind alone, or the container
/// name, an underscore and the kind; sanitized either way.
pub open spec fn metric_name(kind: Seq<char>, container: Seq<char>, mode: NamingMode) -> Seq<
    char,
> {
    match mode {
        NamingMode::LabelBased => sanitize(kind),
        NamingMode::NameEmbedded => sanitize(container + seq!['_'] + kind),
    }
}

/// The labels a sample carries: a `container` label first in label-based
/// mode, then the user-supplied labels unchanged, in their given order.
pub open spec fn metric_labels(
    container: Seq<char>,
    user: Seq<(Seq<char>, Seq<char>)>,
    mode: NamingMode,
) -> Seq<(Seq<char>, Seq<char>)> {
    match mode {
        NamingMode::LabelBased => seq![("container"@, container)] + user,
        NamingMode::NameEmbedded => user,
    }
}

/// The sample a kind, help, value and identity make.
pub open spec fn sample_spec(
    kind: Seq<char>,
    help: Seq<char>,
    value: Decimal,
    container: Seq<char>,
    user: Seq<(Seq<char>, Seq<char>)>,
    mode: NamingMode,
) -> MetricSampleSpec {
    MetricSampleSpec {
        name: metric_name(kind, container, mode),
        help: help,
        value: value,
        labels: metric_labels(container, user, mode),
    }
}

/// Replaces every `-` with `_`.
pub fn sanitize_name(s: &str) -> (r: String)
    ensures
        r@ == sanitize(s@),
{
    let n = s.unicode_len();
    let mut r = String::new();
    let mut i: usize = 0;
    proof {
        assert(r@ =~= sanitize(s@.take(0)));
    }
    while i < n
        invariant
            n == s@.len(),
            i <= n,
            r@ == sanitize(s@.take(i as int)),
        decreases n - i,
    {
        let c = s.get_char(i);
        if c == '-' {
            r.append("_");
            proof {
                reveal_strlit("_");
            }
        } else {
            let piece = s.substring_char(i, i + 1);
            proof {
                assert(piece@ =~= seq![c]);
            }
            r.append(piece);
        }
        proof {
            assert(s@.take(i as int + 1) =~= s@.take(i as int).push(c));
            assert(r@ =~= sanitize(s@.take(i as int + 1)));
        }
        i = i + 1;
    }
    proof {
        assert(s@.take(n as int) =~= s@);
    }
    r
}

fn build_labels(container_name: &str, labels: &Vec<(String, String)>, mode: NamingMode) -> (v:
    Vec<(String, String)>)
    ensures
        pairs_view(v@) == metric_labels(container_name@, pairs_view(labels@), mode),
{
    let mut v: Vec<(String, String)> = Vec::new();
    let ghost base: Seq<(Seq<char>, Seq<char>)> = match mode {
        NamingMode::LabelBased => seq![("container"@, container_name@)],
        NamingMode::NameEmbedded => Seq::empty(),
    };
    match mode {
        NamingMode::LabelBased => {
            v.push(("container".to_owned(), container_name.to_owned()));
            proof {
                assert(pairs_view(v@) =~= base);
            }
        },
        NamingMode::NameEmbedded => {
            proof {
                assert(pairs_view(v@) =~= base);
            }
        },
    }
    let n = labels.len();
    let mut j: usize = 0;
    proof {
        assert(base + pairs_view(labels@).take(0) =~= base);
    }
    while j < n
        invariant
            n == labels@.len(),
            j <= n,
            pairs_view(v@) == base + pairs_view(labels@).take(j as int),
        decreases n - j,
    {
        let k = labels[j].0.clone();
        let val = labels[j].1.clone();
        let ghost pre = v@;
        v.push((k, val));
        proof {
            let pv = pairs_view(labels@);
            assert(pairs_view(pre).len() == pre.len());
            assert(pairs_view(v@).len() == v@.len());
            assert(pv.len() == labels@.len());
            assert(pre.len() == base.len() + j);
            assert(pv[j as int] == (labels@[j as int].0@, labels@[j as int].1@));
            assert forall|i: int| 0 <= i < pre.len() implies pairs_view(v@)[i] == (base
                + pv.take(j as int + 1))[i] by {
                assert(pairs_view(pre)[i] == (base + pv.take(j as int))[i]);
                assert(v@[i] == pre[i]);
            }
            assert(pairs_view(v@)[pre.len() as int] == pv[j as int]);
            assert(pairs_view(v@) =~~= base + pv.take(j as int + 1));
        }
        j = j + 1;
    }
    proof {
        assert(pairs_view(labels@).take(n as int) =~= pairs_view(labels@));
        match mode {
            NamingMode::LabelBased => {
                assert(pairs_view(v@) =~= metric_labels(
                    container_name@,
                    pairs_view(labels@),
                    mode,
                ));
            },
            NamingMode::NameEmbedded => {
                assert(pairs_view(v@) =~= metric_labels(
                    container_name@,
                    pairs_view(labels@),
                    mode,
                ));
            },
        }
    }
    v
}

/// Builds one gauge sample: the sanitized name for the mode, the help
/// text, the exact value and the merged labels.
pub fn get_gauge(
    name: &str,
    help: &str,
    value: Decimal,
    container_name: &str,
    labels: &Vec<(String, String)>,
    mode: NamingMode,
) -> (g: MetricSample)
    ensures
        g@ == sample_spec(name@, help@, value, container_name@, pairs_view(labels@), mode),
{
    let full_name = match mode {
        NamingMode::LabelBased => sanitize_name(name),
        NamingMode::NameEmbedded => {
            let mut t = container_name.to_owned();
            t.append("_");
            t.append(name);
            proof {
                reveal_strlit("_");
                assert(t@ =~= container_name@ + seq!['_'] + name@);
            }
            sanitize_name(t.as_str())
        },
    };
    let labs = build_labels(container_name, labels, mode);
    let g = MetricSample { name: full_name, help: help.to_owned(), value, labels: labs };
    proof {
        assert(g@ =~~= sample_spec(
            name@,
            help@,
            value,
            container_name@,
            pairs_view(labels@),
            mode,
        ));
    }
    g
}

/// Parses a percentage field and builds its gauge sample; the parse error
/// passes through untouched.
pub fn percent_gauge(
    name: &str,
    percent_string: &str,
    help: &str,
    container_name: &str,
    labels: &Vec<(String, String)>,
    mode: NamingMode,
) -> (r: Result<MetricSample, Error>)
    ensures
        match parse_percent_spec(percent_string@) {
            Ok(d) => r is Ok && r->Ok_0@ == sample_spec(
                name@,
                help@,
                d,
                container_name@,
                pairs_view(labels@),
                mode,
            ),
            Err(e) => r is Err && r->Err_0@ == e,
        },
{
    match parse_percent(percent_string) {
        Ok(d) => Ok(get_gauge(name, help, d, container_name, labels, mode)),
        Err(e) => Err(e),
    }
}

/// What deriving one record yields: the gauge samples of every present
/// field in order — cpu, memory, network, block — or the first field's
/// parse error. No partial set is ever produced.
pub open spec fn derive_spec(
    r: RecordSpec,
    user: Seq<(Seq<char>, Seq<char>)>,
    mode: NamingMode,
    entries: Seq<(Seq<char>, u64)>,
) -> Result<Seq<MetricSampleSpec>, ErrorSpec> {
    match parse_percent_spec(r.cpu_perc) {
        Err(e) => Err(e),
        Ok(cpu) => {
            let cpu_s = sample_spec(
                "container_cpu_usage"@,
                "CPU usage percentage for container"@,
                cpu,
                r.container,
                user,
                mode,
            );
            let mem_part = match r.mem_usage {
                Some(mu) => match split_pair_spec(mu, entries) {
                    Err(e) => Err(e),
                    Ok(ul) => Ok(
                        seq![
                            sample_spec(
                                "container_memory_usage_bytes"@,
                                "Memory usage in bytes for container"@,
                                ul.0,
                                r.container,
                                user,
                                mode,
                            ),
                            sample_spec(
                                "container_memory_limit_bytes"@,
                                "Memory limit in bytes for container"@,
                                ul.1,
                                r.container,
                                user,
                                mode,
                            ),
                        ],
                    ),
                },
                None => match r.mem_perc {
                    Some(mp) => match parse_percent_spec(mp) {
                        Err(e) => Err(e),
                        Ok(d) => Ok(
                            seq![
                                sample_spec(
                                    "container_memory_usage"@,
                                    "Memory usage percentage for container"@,
                                    d,
                                    r.container,
                                    user,
                                    mode,
                                ),
                            ],
                        ),
                    },
                    None => Ok(Seq::empty()),
                },
            };
            match mem_part {
                Err(e) => Err(e),
                Ok(mems) => match split_pair_rev_spec(r.net_io, entries) {
                    Err(e) => Err(e),
                    Ok(io) => {
                        let nets = seq![
                            sample_spec(
                                "container_network_input_bytes"@,
                                "Network input bytes for container"@,
                                io.0,
                                r.container,
                                user,
                                mode,
                            ),
                            sample_spec(
                                "container_network_output_bytes"@,
                                "Network output bytes for container"@,
                                io.1,
                                r.container,
                                user,
                                mode,
                            ),
                        ];
                        let block_part = match r.block_io {
                            Some(b) => match split_pair_rev_spec(b, entries) {
                                Err(e) => Err(e),
                                Ok(rw) => Ok(
                                    seq![
                                        sample_spec(
                                            "container_block_read_bytes"@,
                                            "Block read bytes for container"@,
                                            rw.0,
                                            r.container,
                                            user,
                                            mode,
                                        ),
                                        sample_spec(
                                            "container_block_write_bytes"@,
                                            "Block write bytes for container"@,
                                            rw.1,
                                            r.container,
                                            user,
                                            mode,
                                        ),
                                    ],
                                ),
                            },
                            None => Ok(Seq::empty()),
                        };
                        match block_part {
                            Err(e) => Err(e),
                            Ok(blocks) => Ok(seq![cpu_s] + mems + nets + blocks),
                        }
                    },
                },
            }
        },
    }
}

/// Derives every gauge of one container record, failing whole on the
/// first malformed field.
pub fn gauges_for_container(
    stat: &DockerContainerStats,
    labels: &Vec<(String, String)>,
    mode: NamingMode,
    table: &UnitTable,
) -> (r: Result<Vec<MetricSample>, Error>)
    ensures
        match derive_spec(stat@, pairs_view(labels@), mode, table@) {
            Ok(ss) => r is Ok && samples_view(r->Ok_0@) == ss,
            Err(e) => r is Err && r->Err_0@ == e,
        },
{
    let ghost user = pairs_view(labels@);
    let mut out: Vec<MetricSample> = Vec::new();
    let cpu = match percent_gauge(
        "container_cpu_usage",
        stat.cpu_perc.as_str(),
        "CPU usage percentage for container",
        stat.container.as_str(),
        labels,
        mode,
    ) {
        Ok(g) => g,
        Err(e) => {
            return Err(e);
        },
    };
    out.push(cpu);
    match &stat.mem_usage {
        Some(mu) => {
            match parse_mem_usage_str(mu.as_str(), table) {
                Ok(ul) => {
                    out.push(
                        get_gauge(
                            "container_memory_usage_bytes",
                            "Memory usage in bytes for container",
                            ul.0,
                            stat.container.as_str(),
                            labels,
                            mode,
                        ),
                    );
                    out.push(
                        get_gauge(
                            "container_memory_limit_bytes",
                            "Memory limit in bytes for container",
                            ul.1,
                            stat.container.as_str(),
                            labels,
                            mode,
                        ),
                    );
                },
                Err(e) => {
                    return Err(e);
                },
            }
        },
        None => {
            match &stat.mem_perc {
                Some(mp) => {
                    match percent_gauge(
                        "container_memory_usage",
                        mp.as_str(),
                        "Memory usage percentage for container",
                        stat.container.as_str(),
                        labels,
                        mode,
                    ) {
                        Ok(g) => {
                            out.push(g);
                        },
                        Err(e) => {
                            return Err(e);
                        },
                    }
                },
                None => {},
            }
        },
    }
    match parse_netio_str(stat.net_io.as_str(), table) {
        Ok(io) => {
            out.push(
                get_gauge(
                    "container_network_input_bytes",
                    "Network input bytes for container",
                    io.0,
                    stat.container.as_str(),
                    labels,
                    mode,
                ),
            );
            out.push(
                get_gauge(
                    "container_network_output_bytes",
                    "Network output bytes for container",
                    io.1,
                    stat.container.as_str(),
                    labels,
                    mode,
                ),
            );
        },
        Err(e) => {
            return Err(e);
        },
    }
    match &stat.block_io {
        Some(b) => {
            match parse_blockio_str(b.as_str(), table) {
                Ok(rw) => {
                    out.push(
                        get_gauge(
                            "container_block_read_bytes",
                            "Block read bytes for container",
                            rw.0,
                            stat.container.as_str(),
                            labels,
                            mode,
                        ),
                    );
                    out.push(
                        get_gauge(
                            "container_block_write_bytes",
                            "Block write bytes for container",
                            rw.1,
                            stat.container.as_str(),
                            labels,
                            mode,
                        ),
                    );
                },
                Err(e) => {
                    return Err(e);
                },
            }
        },
        None => {},
    }
    proof {
        let spec_r = derive_spec(stat@, user, mode, table@);
        assert(samples_view(out@) =~~= spec_r->Ok_0);
    }
    Ok(out)
}

} // verus!
