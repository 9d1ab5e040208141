//! The aggregator: a processed-file counter and the two append-only
//! diagnostic streams, with the origin labels they carry.

use vstd::prelude::*;
use crate::parse::Outcome;

verus! {

/// The origin label of a source unit, used only for diagnostics. A plain
/// file is identified by its path alone; an archive member carries both
/// the archive's path and the member's name, so the two stay
/// distinguishable in the output.
#[derive(Clone, Debug, PartialEq, Eq)]
pub enum Origin {
    File { path: Vec<u8> },
    Member { archive: Vec<u8>, member: Vec<u8> },
}

/// The mathematical value of an `Origin`.
pub enum OriginV {
    File { path: Seq<u8> },
    Member { archive: Seq<u8>, member: Seq<u8> },
}

impl View for Origin {
    type V = OriginV;

    open spec fn view(&self) -> OriginV {
        match *self {
            Origin::File { path } => OriginV::File { path: path@ },
            Origin::Member { archive, member } => OriginV::Member {
                archive: archive@,
                member: member@,
            },
        }
    }
}

/// The values of a sequence of origin labels.
pub open spec fn origin_views(s: Seq<Origin>) -> Seq<OriginV> {
    s.map_values(|o: Origin| o@)
}

/// Run-wide aggregation: the count of files processed, one failure line
/// per unit whose parse tree had a syntax error, and one unreadable line
/// per unit whose bytes were not valid text.
#[derive(Clone, Debug, PartialEq, Eq)]
pub struct RunStats {
    pub processed: u64,
    pub failures: Vec<Origin>,
    pub unreadable: Vec<Origin>,
}

/// The mathematical value of `RunStats`.
pub struct StatsV {
    pub processed: int,
    pub failures: Seq<OriginV>,
    pub unreadable: Seq<OriginV>,
}

impl View for RunStats {
    type V = StatsV;

    open spec fn view(&self) -> StatsV {
        StatsV {
            processed: self.processed as int,
            failures: origin_views(self.failures@),
            unreadable: origin_views(self.unreadable@),
        }
    }
}

/// A fresh aggregation with nothing recorded.
pub open spec fn empty_stats() -> StatsV {
    StatsV { processed: 0, failures: seq![], unreadable: seq![] }
}

/// One more processed file; the counter saturates at its machine limit.
pub open spec fn bump(c: int) -> int {
    if c < u64::MAX {
        c + 1
    } else {
        c
    }
}

/// The aggregation after recording one outcome for one origin: clean and
/// syntax-errored units count as processed, a syntax error adds its
/// origin's failure line, and an unreadable unit adds its unreadable line
/// without being counted.
pub open spec fn record_spec(s: StatsV, o: OriginV, out: Outcome) -> StatsV {
    match out {
        Outcome::Clean => StatsV {
            processed: bump(s.processed),
            failures: s.failures,
            unreadable: s.unreadable,
        },
        Outcome::SyntaxError => StatsV {
            processed: bump(s.processed),
            failures: s.failures.push(o),
            unreadable: s.unreadable,
        },
        Outcome::Unreadable => StatsV {
            processed: s.processed,
            failures: s.failures,
            unreadable: s.unreadable.push(o),
        },
    }
}

impl RunStats {
    /// Starts a run with zero processed files and no diagnostics.
    pub fn new() -> (s: RunStats)
        ensures
            s@ == empty_stats(),
    {
        let s = RunStats { processed: 0, failures: Vec::new(), unreadable: Vec::new() };
        proof {
            assert(origin_views(s.failures@) =~= Seq::<OriginV>::empty());
            assert(origin_views(s.unreadable@) =~= Seq::<OriginV>::empty());
        }
        s
    }

    /// Counts one successfully read and parsed unit.
    pub fn record_processed(&mut self)
        ensures
            final(self)@ == (StatsV { processed: bump(old(self)@.processed), ..old(self)@ }),
    {
        if self.processed < u64::MAX {
            self.processed = self.processed + 1;
        }
    }

    /// Emits one failure line for a unit whose parse tree had an error.
    pub fn report_failure(&mut self, origin: Origin)
        ensures
            final(self)@ == (StatsV { failures: old(self)@.failures.push(origin@), ..old(self)@ }),
    {
        let ghost prev = self.failures@;
        self.failures.push(origin);
        proof {
            assert(origin_views(self.failures@) =~= origin_views(prev).push(origin@));
        }
    }

    /// Emits one unreadable-diagnostic line; the unit is not counted.
    pub fn report_unreadable(&mut self, origin: Origin)
        ensures
            final(self)@ == (StatsV {
                unreadable: old(self)@.unreadable.push(origin@),
                ..old(self)@
            }),
    {
        let ghost prev = self.unreadable@;
        self.unreadable.push(origin);
        proof {
            assert(origin_views(self.unreadable@) =~= origin_views(prev).push(origin@));
        }
    }

    /// Records the one outcome a source unit yielded.
    pub fn record_outcome(&mut self, origin: Origin, out: Outcome)
        ensures
            final(self)@ == record_spec(old(self)@, origin@, out),
    {
        match out {
            Outcome::Clean => self.record_processed(),
            Outcome::SyntaxError => {
                self.record_processed();
                self.report_failure(origin);
            },
            Outcome::Unreadable => self.report_unreadable(origin),
        }
    }
}

} // verus!
