//! The container stat record: one snapshot row per monitored container,
//! with its raw textual fields as the snapshot source hands them over.

use vstd::prelude::*;

verus! {

/// One container's raw stats. `container` and `cpu_perc` and `net_io` are
/// always present; the other fields only in some configuration variants.
/// Every present field must parse whole: a malformed field invalidates the
/// record's entire derivation.
#[derive(Debug, Clone)]
pub struct DockerContainerStats {
    pub container: String,
    pub cpu_perc: String,
    pub mem_perc: Option<String>,
    pub mem_usage: Option<String>,
    pub net_io: String,
    pub block_io: Option<String>,
}

/// The mathematical shape of a record: the same fields as character
/// sequences.
pub struct RecordSpec {
    pub container: Seq<char>,
    pub cpu_perc: Seq<char>,
    pub mem_perc: Option<Seq<char>>,
    pub mem_usage: Option<Seq<char>>,
    pub net_io: Seq<char>,
    pub block_io: Option<Seq<char>>,
}

pub open spec fn opt_view(o: Option<String>) -> Option<Seq<char>> {
    match o {
        Some(s) => Some(s@),
        None => None,
    }
}

impl View for DockerContainerStats {
    type V = RecordSpec;

    open spec fn view(&self) -> RecordSpec {
        RecordSpec {
            container: self.container@,
            cpu_perc: self.cpu_perc@,
            mem_perc: opt_view(self.mem_perc),
            mem_usage: opt_view(self.mem_usage),
            net_io: self.net_io@,
            block_io: opt_view(self.block_io),
        }
    }
}

} // verus!
