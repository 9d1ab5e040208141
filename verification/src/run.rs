//! The run driver: plans the units of work from probed input paths,
//! dispatches each planned unit through the parser adapter or the archive
//! reader, and folds every outcome into the aggregation. The laws the
//! engine obeys stand here as proof functions.

use vstd::prelude::*;
use crate::archive::{
    extract_members, is_zip_archive, selected_members, zip_entries_of, MemberUnit, MemberV,
    member_views,
};
use crate::fs_model::{
    collect_leaves, leaf_views, leaves_of, plan_of_leaves, plan_units, plan_views, FsTree,
    LeafInfo, LeafV, PlannedUnit,
};
use crate::parse::{
    evaluate_file, evaluate_member, file_outcome, is_utf8, member_outcome, parse_has_error,
    FatalError, Outcome,
};
use crate::stats::{record_spec, OriginV, Origin, RunStats, StatsV};

verus! {

/// One unit of parse work together with the bytes the process read for it.
#[derive(Clone, Debug, PartialEq, Eq)]
pub enum ScanUnit {
    /// A plain source file: its path and its raw bytes.
    SourceFile { path: Vec<u8>, bytes: Vec<u8> },
    /// An archive container: its path and the container's raw bytes.
    ArchiveFile { path: Vec<u8>, bytes: Vec<u8> },
}

/// The mathematical value of a `ScanUnit`.
pub enum ScanUnitV {
    SourceFile { path: Seq<u8>, bytes: Seq<u8> },
    ArchiveFile { path: Seq<u8>, bytes: Seq<u8> },
}

impl View for ScanUnit {
    type V = ScanUnitV;

    open spec fn view(&self) -> ScanUnitV {
        match *self {
            ScanUnit::SourceFile { path, bytes } => ScanUnitV::SourceFile {
                path: path@,
                bytes: bytes@,
            },
            ScanUnit::ArchiveFile { path, bytes } => ScanUnitV::ArchiveFile {
                path: path@,
                bytes: bytes@,
            },
        }
    }
}

/// The values of a sequence of scan units.
pub open spec fn unit_views(s: Seq<ScanUnit>) -> Seq<ScanUnitV> {
    s.map_values(|u: ScanUnit| u@)
}

/// The aggregation after recording one plain file's outcome.
pub open spec fn apply_file(s: StatsV, path: Seq<u8>, bytes: Seq<u8>) -> StatsV {
    record_spec(s, OriginV::File { path }, file_outcome(bytes))
}

/// The aggregation after recording, in order, the outcome of every
/// extracted member of one archive.
pub open spec fn apply_members(s: StatsV, apath: Seq<u8>, ms: Seq<MemberV>) -> StatsV
    decreases ms,
{
    if ms.len() == 0 {
        s
    } else {
        let s1 = record_spec(
            s,
            OriginV::Member { archive: apath, member: ms[0].name },
            member_outcome(ms[0].text),
        );
        apply_members(s1, apath, ms.drop_first())
    }
}

/// The aggregation after scanning one whole archive.
pub open spec fn apply_archive(s: StatsV, path: Seq<u8>, bytes: Seq<u8>) -> StatsV {
    apply_members(s, path, selected_members(zip_entries_of(bytes)))
}

/// The aggregation after one unit of work.
pub open spec fn apply_unit(s: StatsV, u: ScanUnitV) -> StatsV {
    match u {
        ScanUnitV::SourceFile { path, bytes } => apply_file(s, path, bytes),
        ScanUnitV::ArchiveFile { path, bytes } => apply_archive(s, path, bytes),
    }
}

/// The aggregation after a whole run over the given units, in order.
pub open spec fn run_spec(s: StatsV, us: Seq<ScanUnitV>) -> StatsV
    decreases us,
{
    if us.len() == 0 {
        s
    } else {
        run_spec(apply_unit(s, us[0]), us.drop_first())
    }
}

/// Parses one plain file's bytes and records its outcome. On a fatal
/// parser failure nothing is recorded; such a failure can only arise
/// where a parse is owed, so a file with non-text bytes always returns
/// normally and the run continues.
pub fn process_file(stats: &mut RunStats, path: Vec<u8>, bytes: &Vec<u8>) -> (r: Result<
    (),
    FatalError,
>)
    ensures
        r matches Ok(u) ==> final(stats)@ == apply_file(old(stats)@, path@, bytes@),
        r matches Err(e) ==> e == FatalError::ParserUnavailable && final(stats)@ == old(stats)@
            && is_utf8(bytes@),
{
    match evaluate_file(bytes) {
        Err(e) => Err(e),
        Ok(o) => {
            stats.record_outcome(Origin::File { path }, o);
            Ok(())
        },
    }
}

/// Opens an archive's bytes, extracts its matching members, decides every
/// member's outcome, then records them in entry order. An invalid
/// container or an unavailable parser is fatal and records nothing:
/// enumeration and evaluation complete before the aggregation is touched.
pub fn process_archive(stats: &mut RunStats, path: Vec<u8>, bytes: &Vec<u8>) -> (r: Result<
    (),
    FatalError,
>)
    ensures
        r matches Ok(u) ==> is_zip_archive(bytes@) && final(stats)@ == apply_archive(
            old(stats)@,
            path@,
            bytes@,
        ),
        r matches Err(e) ==> final(stats)@ == old(stats)@ && (e == FatalError::ParserUnavailable
            || e == FatalError::InvalidArchive) && (e == FatalError::InvalidArchive
            <==> !is_zip_archive(bytes@)) && (e == FatalError::ParserUnavailable
            ==> member_attempts(selected_members(zip_entries_of(bytes@))) > 0),
{
    let members: Vec<MemberUnit> = match extract_members(bytes) {
        Err(e) => {
            return Err(e);
        },
        Ok(v) => v,
    };
    let ghost mv = member_views(members@);
    assert(mv == selected_members(zip_entries_of(bytes@)));
    // Evaluation phase: every member's outcome, before anything is recorded.
    let mut outs: Vec<Outcome> = Vec::new();
    let mut i: usize = 0;
    while i < members.len()
        invariant
            i <= members.len(),
            mv == member_views(members@),
            mv.len() == members@.len(),
            outs@.len() == i,
            forall|j: int| 0 <= j < i ==> outs@[j] == member_outcome(mv[j].text),
            stats@ == old(stats)@,
            is_zip_archive(bytes@),
            mv == selected_members(zip_entries_of(bytes@)),
        decreases members.len() - i,
    {
        assert(mv[i as int] == members@[i as int]@);
        match evaluate_member(&members[i].text) {
            Err(e) => {
                proof {
                    assert(mv[i as int].text is Some);
                    lemma_member_attempts_positive(mv, i as int);
                }
                return Err(e);
            },
            Ok(o) => {
                outs.push(o);
            },
        }
        i += 1;
    }
    // Recording phase, in entry order.
    let mut k: usize = 0;
    assert(mv.skip(0) =~= mv);
    while k < members.len()
        invariant
            k <= members.len(),
            mv == member_views(members@),
            mv.len() == members@.len(),
            outs@.len() == members@.len(),
            forall|j: int| 0 <= j < members@.len() ==> outs@[j] == member_outcome(mv[j].text),
            apply_members(stats@, path@, mv.skip(k as int)) == apply_members(
                old(stats)@,
                path@,
                mv,
            ),
        decreases members.len() - k,
    {
        let ghost rest = mv.skip(k as int);
        proof {
            assert(rest.drop_first() =~= mv.skip(k + 1));
            assert(rest[0] == mv[k as int]);
            assert(mv[k as int] == members@[k as int]@);
        }
        let origin = Origin::Member { archive: path.clone(), member: members[k].name.clone() };
        assert(origin@ == OriginV::Member { archive: path@, member: mv[k as int].name });
        stats.record_outcome(origin, outs[k]);
        k += 1;
    }
    proof {
        assert(mv.skip(members@.len() as int) =~= Seq::<MemberV>::empty());
    }
    Ok(())
}

/// The prefix-fold lemma for `run_spec`: one more unit folds onto the end
/// of a prefix.
proof fn lemma_run_spec_take(s: StatsV, us: Seq<ScanUnitV>, i: int)
    requires
        0 <= i < us.len(),
    ensures
        run_spec(s, us.take(i + 1)) == apply_unit(run_spec(s, us.take(i)), us[i]),
    decreases i,
{
    if i == 0 {
        assert(us.take(1)[0] == us[0]);
        assert(us.take(1).drop_first() =~= Seq::<ScanUnitV>::empty());
        assert(us.take(0) =~= Seq::<ScanUnitV>::empty());
        assert(run_spec(s, us.take(1)) == run_spec(
            apply_unit(s, us[0]),
            us.take(1).drop_first(),
        ));
        assert(run_spec(s, us.take(0)) == s);
    } else {
        let s1 = apply_unit(s, us[0]);
        let d = us.drop_first();
        lemma_run_spec_take(s1, d, i - 1);
        assert(us.take(i + 1)[0] == us[0]);
        assert(us.take(i)[0] == us[0]);
        assert(us.take(i + 1).drop_first() =~= d.take(i));
        assert(us.take(i).drop_first() =~= d.take(i - 1));
        assert(d[i - 1] == us[i]);
        assert(run_spec(s, us.take(i + 1)) == run_spec(s1, d.take(i)));
        assert(run_spec(s, us.take(i)) == run_spec(s1, d.take(i - 1)));
        assert(run_spec(s1, d.take(i)) == apply_unit(run_spec(s1, d.take(i - 1)), d[i - 1]));
    }
}

/// True when unit `u` is an archive whose bytes are no valid container:
/// the one way a run raises the invalid-archive error.
pub open spec fn unit_is_invalid_archive(u: ScanUnitV) -> bool {
    u matches ScanUnitV::ArchiveFile { path, bytes } && !is_zip_archive(bytes)
}

/// Runs every unit in order, folding each outcome into the aggregation.
/// A fatal error stops the run at the unit that raised it, leaving the
/// aggregation at the fold over the units completed before it; each error
/// kind can come only from a unit able to raise it, so a unit list that
/// admits no failure is owed success.
pub fn run_units(stats: &mut RunStats, units: Vec<ScanUnit>) -> (r: Result<(), FatalError>)
    ensures
        r matches Ok(u) ==> final(stats)@ == run_spec(old(stats)@, unit_views(units@)),
        r matches Err(e) ==> (e == FatalError::ParserUnavailable || e == FatalError::InvalidArchive)
            && exists|j: int|
            0 <= j <= units@.len() && final(stats)@ == run_spec(
                old(stats)@,
                unit_views(units@).take(j),
            ),
        r matches Err(e) ==> (e == FatalError::InvalidArchive ==> exists|j: int|
            0 <= j < units@.len() && unit_is_invalid_archive(#[trigger] unit_views(units@)[j])),
        r matches Err(e) ==> (e == FatalError::ParserUnavailable ==> exists|j: int|
            0 <= j < units@.len() && unit_attempts(#[trigger] unit_views(units@)[j]) > 0),
{
    let ghost uv = unit_views(units@);
    let mut i: usize = 0;
    assert(uv.take(0) =~= Seq::<ScanUnitV>::empty());
    while i < units.len()
        invariant
            i <= units.len(),
            uv == unit_views(units@),
            uv.len() == units@.len(),
            stats@ == run_spec(old(stats)@, uv.take(i as int)),
        decreases units.len() - i,
    {
        assert(uv[i as int] == units@[i as int]@);
        let unit = &units[i];
        let r = match unit {
            ScanUnit::SourceFile { path, bytes } => {
                let r = process_file(stats, path.clone(), bytes);
                proof {
                    if r is Err {
                        assert(uv[i as int] == (ScanUnitV::SourceFile {
                            path: path@,
                            bytes: bytes@,
                        }));
                        assert(unit_attempts(uv[i as int]) > 0);
                    }
                }
                r
            },
            ScanUnit::ArchiveFile { path, bytes } => {
                let r = process_archive(stats, path.clone(), bytes);
                proof {
                    if r is Err {
                        assert(uv[i as int] == (ScanUnitV::ArchiveFile {
                            path: path@,
                            bytes: bytes@,
                        }));
                        if r->Err_0 == FatalError::InvalidArchive {
                            assert(unit_is_invalid_archive(uv[i as int]));
                        } else {
                            assert(unit_attempts(uv[i as int]) > 0);
                        }
                    }
                }
                r
            },
        };
        match r {
            Ok(u) => {
                proof {
                    lemma_run_spec_take(old(stats)@, uv, i as int);
                }
            },
            Err(e) => {
                assert(stats@ == run_spec(old(stats)@, uv.take(i as int)));
                assert(e == FatalError::InvalidArchive ==> unit_is_invalid_archive(
                    unit_views(units@)[i as int],
                ));
                assert(e == FatalError::ParserUnavailable ==> unit_attempts(
                    unit_views(units@)[i as int],
                ) > 0);
                return Err(e);
            },
        }
        i += 1;
    }
    proof {
        assert(uv.take(units@.len() as int) =~= uv);
    }
    Ok(())
}

/// One probed top-level input: the path the process was given, whether it
/// exists at all, and the snapshot of the subtree found there.
#[derive(Debug, PartialEq, Eq)]
pub struct InputProbe {
    pub path: Vec<u8>,
    pub exists: bool,
    pub tree: FsTree,
}

/// The leaves of every probed input, in order.
pub open spec fn all_leaves_of(ps: Seq<InputProbe>) -> Seq<LeafV>
    decreases ps,
{
    if ps.len() == 0 {
        seq![]
    } else {
        leaves_of(ps[0].tree) + all_leaves_of(ps.drop_first())
    }
}

/// The plan a set of probed inputs is owed: every non-directory descendant
/// of every input, classified, with the ignored ones dropped.
pub open spec fn plan_of_probes(ps: Seq<InputProbe>) -> Seq<crate::fs_model::PlannedV> {
    plan_of_leaves(all_leaves_of(ps))
}

/// True when `e` is the missing-input error for `path`.
pub open spec fn is_missing_error(e: FatalError, path: Seq<u8>) -> bool {
    e matches FatalError::MissingInput { path: p } && p@ == path
}

/// Plans a run: a nonexistent input path is fatal and names the first such
/// path; otherwise every input's descendants are discovered and
/// classified, and exactly the source files and archives come back.
pub fn plan_inputs(probes: &Vec<InputProbe>) -> (r: Result<Vec<PlannedUnit>, FatalError>)
    ensures
        r matches Ok(v) ==> (forall|j: int| 0 <= j < probes@.len() ==> probes@[j].exists)
            && plan_views(v@) == plan_of_probes(probes@),
        r matches Err(e) ==> exists|j: int|
            0 <= j < probes@.len() && !probes@[j].exists && (forall|k: int|
                0 <= k < j ==> probes@[k].exists) && is_missing_error(e, probes@[j].path@),
{
    let mut i: usize = 0;
    while i < probes.len()
        invariant
            i <= probes.len(),
            forall|k: int| 0 <= k < i ==> probes@[k].exists,
        decreases probes.len() - i,
    {
        if !probes[i].exists {
            return Err(FatalError::MissingInput { path: probes[i].path.clone() });
        }
        i += 1;
    }
    let ghost pv = probes@;
    let mut leaves: Vec<LeafInfo> = Vec::new();
    let mut j: usize = 0;
    assert(pv.skip(0) =~= pv);
    assert(leaf_views(leaves@) =~= Seq::<LeafV>::empty());
    while j < probes.len()
        invariant
            j <= probes.len(),
            pv == probes@,
            leaf_views(leaves@) + all_leaves_of(pv.skip(j as int)) == all_leaves_of(pv),
        decreases probes.len() - j,
    {
        let ghost prev = leaves@;
        let ghost rest = pv.skip(j as int);
        proof {
            assert(rest.drop_first() =~= pv.skip(j + 1));
            assert(rest[0] == pv[j as int]);
        }
        collect_leaves(&probes[j].tree, &mut leaves);
        proof {
            assert(leaf_views(leaves@) + all_leaves_of(pv.skip(j + 1)) =~= (leaf_views(prev)
                + leaves_of(pv[j as int].tree)) + all_leaves_of(pv.skip(j + 1)));
            assert((leaf_views(prev) + leaves_of(pv[j as int].tree)) + all_leaves_of(
                pv.skip(j + 1),
            ) =~= leaf_views(prev) + all_leaves_of(rest));
        }
        j += 1;
    }
    proof {
        assert(pv.skip(probes@.len() as int) =~= Seq::<InputProbe>::empty());
        assert(leaf_views(leaves@) + all_leaves_of(pv.skip(probes@.len() as int)) =~= leaf_views(
            leaves@,
        ));
    }
    Ok(plan_units(leaves))
}

/// Law: an archive whose selected members are all readable as text makes
/// exactly one parse attempt per member — the processed counter increases
/// by exactly the number of selected members (within the counter's machine
/// limit) and the unreadable stream is untouched.
pub proof fn lemma_archive_processed_count(s: StatsV, apath: Seq<u8>, ms: Seq<MemberV>)
    requires
        forall|j: int| 0 <= j < ms.len() ==> ms[j].text is Some,
        s.processed + ms.len() <= u64::MAX,
    ensures
        apply_members(s, apath, ms).processed == s.processed + ms.len(),
        apply_members(s, apath, ms).unreadable == s.unreadable,
    decreases ms.len(),
{
    if ms.len() > 0 {
        assert(ms[0].text is Some);
        let o = member_outcome(ms[0].text);
        let s1 = record_spec(s, OriginV::Member { archive: apath, member: ms[0].name }, o);
        assert(s1.processed == s.processed + 1);
        assert(forall|j: int|
            0 <= j < ms.drop_first().len() ==> ms.drop_first()[j].text is Some);
        lemma_archive_processed_count(s1, apath, ms.drop_first());
    }
}

/// Law: a run is a function of its inputs — two runs over equal unit
/// sequences from equal starting aggregations yield the same failure
/// diagnostics, the same unreadable diagnostics, and the same processed
/// count, so repeating a run over an unmodified input set repeats its
/// report.
pub proof fn lemma_run_idempotent(s1: StatsV, s2: StatsV, u1: Seq<ScanUnitV>, u2: Seq<ScanUnitV>)
    requires
        s1 == s2,
        u1 == u2,
    ensures
        run_spec(s1, u1) == run_spec(s2, u2),
{
}

/// Law: a file whose text is syntactically valid under the grammar never
/// adds a failure line, and one whose parse tree has a syntax error always
/// adds exactly its own line.
pub proof fn lemma_failure_line_iff_syntax_error(s: StatsV, path: Seq<u8>, bytes: Seq<u8>)
    ensures
        !parse_has_error(bytes) ==> apply_file(s, path, bytes).failures == s.failures,
        is_utf8(bytes) && parse_has_error(bytes) ==> apply_file(s, path, bytes).failures
            == s.failures.push(OriginV::File { path }),
{
}

/// Law: a file with non-text bytes goes to the unreadable stream, is never
/// counted as processed, and never adds a failure line.
pub proof fn lemma_unreadable_excluded(s: StatsV, path: Seq<u8>, bytes: Seq<u8>)
    ensures
        !is_utf8(bytes) ==> apply_file(s, path, bytes) == (StatsV {
            unreadable: s.unreadable.push(OriginV::File { path }),
            ..s
        }),
{
}

/// The failure lines one archive's members contribute, in entry order.
pub open spec fn member_failures(apath: Seq<u8>, ms: Seq<MemberV>) -> Seq<OriginV>
    decreases ms,
{
    if ms.len() == 0 {
        seq![]
    } else {
        let rest = member_failures(apath, ms.drop_first());
        if member_outcome(ms[0].text) == Outcome::SyntaxError {
            seq![OriginV::Member { archive: apath, member: ms[0].name }] + rest
        } else {
            rest
        }
    }
}

/// The failure lines one unit contributes.
pub open spec fn unit_failures(u: ScanUnitV) -> Seq<OriginV> {
    match u {
        ScanUnitV::SourceFile { path, bytes } => if file_outcome(bytes) == Outcome::SyntaxError {
            seq![OriginV::File { path }]
        } else {
            seq![]
        },
        ScanUnitV::ArchiveFile { path, bytes } => member_failures(
            path,
            selected_members(zip_entries_of(bytes)),
        ),
    }
}

/// The failure lines a whole run contributes, in run order.
pub open spec fn run_failures(us: Seq<ScanUnitV>) -> Seq<OriginV>
    decreases us,
{
    if us.len() == 0 {
        seq![]
    } else {
        unit_failures(us[0]) + run_failures(us.drop_first())
    }
}

proof fn lemma_members_failures_decompose(s: StatsV, apath: Seq<u8>, ms: Seq<MemberV>)
    ensures
        apply_members(s, apath, ms).failures == s.failures + member_failures(apath, ms),
    decreases ms.len(),
{
    if ms.len() == 0 {
        assert(s.failures + member_failures(apath, ms) =~= s.failures);
    } else {
        let o = OriginV::Member { archive: apath, member: ms[0].name };
        let s1 = record_spec(s, o, member_outcome(ms[0].text));
        lemma_members_failures_decompose(s1, apath, ms.drop_first());
        if member_outcome(ms[0].text) == Outcome::SyntaxError {
            assert(s1.failures =~= s.failures + seq![o]);
            assert((s.failures + seq![o]) + member_failures(apath, ms.drop_first()) =~= s.failures
                + (seq![o] + member_failures(apath, ms.drop_first())));
        } else {
            assert(s1.failures == s.failures);
        }
    }
}

proof fn lemma_unit_failures_decompose(s: StatsV, u: ScanUnitV)
    ensures
        apply_unit(s, u).failures == s.failures + unit_failures(u),
{
    match u {
        ScanUnitV::SourceFile { path, bytes } => {
            if file_outcome(bytes) == Outcome::SyntaxError {
                assert(apply_file(s, path, bytes).failures =~= s.failures + seq![
                    OriginV::File { path },
                ]);
            } else {
                assert(s.failures + unit_failures(u) =~= s.failures);
            }
        },
        ScanUnitV::ArchiveFile { path, bytes } => {
            lemma_members_failures_decompose(s, path, selected_members(zip_entries_of(bytes)));
        },
    }
}

/// Law: a run's failure output is exactly the starting failures followed
/// by the lines its units contribute, unit by unit, member by member.
pub proof fn lemma_run_failures_decompose(s: StatsV, us: Seq<ScanUnitV>)
    ensures
        run_spec(s, us).failures == s.failures + run_failures(us),
    decreases us.len(),
{
    if us.len() == 0 {
        assert(s.failures + run_failures(us) =~= s.failures);
    } else {
        let s1 = apply_unit(s, us[0]);
        lemma_unit_failures_decompose(s, us[0]);
        lemma_run_failures_decompose(s1, us.drop_first());
        assert((s.failures + unit_failures(us[0])) + run_failures(us.drop_first()) =~= s.failures
            + (unit_failures(us[0]) + run_failures(us.drop_first())));
    }
}

/// True when unit `u` is a plain source file at `p` whose text parses with
/// a syntax error, so that it owes a failure line naming `p`.
pub open spec fn unit_fails_as_file(u: ScanUnitV, p: Seq<u8>) -> bool {
    u matches ScanUnitV::SourceFile { path, bytes } && path == p && file_outcome(bytes)
        == Outcome::SyntaxError
}

proof fn lemma_member_failures_never_file(apath: Seq<u8>, ms: Seq<MemberV>, p: Seq<u8>)
    ensures
        !member_failures(apath, ms).contains(OriginV::File { path: p }),
    decreases ms.len(),
{
    broadcast use vstd::seq_lib::lemma_seq_concat_contains_all_elements;

    if ms.len() > 0 {
        lemma_member_failures_never_file(apath, ms.drop_first(), p);
        if member_outcome(ms[0].text) == Outcome::SyntaxError {
            let o = OriginV::Member { archive: apath, member: ms[0].name };
            assert(!seq![o].contains(OriginV::File { path: p }));
        }
    }
}

/// Law: a plain file's path stands in a run's failure output if and only
/// if some source-file unit of the run has that path and syntax-erroring
/// text. In particular a file whose content is syntactically valid never
/// appears there, and one with a syntax error always does.
pub proof fn lemma_file_failure_line_iff(us: Seq<ScanUnitV>, p: Seq<u8>)
    ensures
        run_failures(us).contains(OriginV::File { path: p }) <==> exists|j: int|
            0 <= j < us.len() && unit_fails_as_file(#[trigger] us[j], p),
    decreases us.len(),
{
    broadcast use vstd::seq_lib::lemma_seq_concat_contains_all_elements;

    if us.len() == 0 {
        assert(!run_failures(us).contains(OriginV::File { path: p }));
    } else {
        let d = us.drop_first();
        lemma_file_failure_line_iff(d, p);
        let target = OriginV::File { path: p };
        // The head unit contributes the line exactly when it fails as `p`.
        match us[0] {
            ScanUnitV::SourceFile { path, bytes } => {
                if file_outcome(bytes) == Outcome::SyntaxError {
                    assert(seq![OriginV::File { path }][0] == OriginV::File { path });
                    assert(unit_failures(us[0]).contains(target) <==> path == p);
                } else {
                    assert(!unit_failures(us[0]).contains(target));
                }
            },
            ScanUnitV::ArchiveFile { path, bytes } => {
                lemma_member_failures_never_file(
                    path,
                    selected_members(zip_entries_of(bytes)),
                    p,
                );
            },
        }
        if run_failures(us).contains(target) {
            if unit_failures(us[0]).contains(target) {
                assert(unit_fails_as_file(us[0], p));
            } else {
                let j = choose|j: int| 0 <= j < d.len() && unit_fails_as_file(#[trigger] d[j], p);
                assert(d[j] == us[j + 1]);
                assert(unit_fails_as_file(us[j + 1], p));
            }
        }
        if exists|j: int| 0 <= j < us.len() && unit_fails_as_file(#[trigger] us[j], p) {
            let j = choose|j: int| 0 <= j < us.len() && unit_fails_as_file(#[trigger] us[j], p);
            if j == 0 {
                assert(unit_failures(us[0]).contains(target));
            } else {
                assert(d[j - 1] == us[j]);
                assert(exists|k: int| 0 <= k < d.len() && unit_fails_as_file(#[trigger] d[k], p));
            }
        }
    }
}

/// The number of parse attempts one archive's members owe: one per member
/// whose text was readable; unreadable members are never attempted.
pub open spec fn member_attempts(ms: Seq<MemberV>) -> nat
    decreases ms,
{
    if ms.len() == 0 {
        0
    } else {
        (if ms[0].text is Some {
            1nat
        } else {
            0nat
        }) + member_attempts(ms.drop_first())
    }
}

proof fn lemma_member_attempts_positive(ms: Seq<MemberV>, j: int)
    requires
        0 <= j < ms.len(),
        ms[j].text is Some,
    ensures
        member_attempts(ms) > 0,
    decreases j,
{
    if j > 0 {
        assert(ms.drop_first()[j - 1] == ms[j]);
        lemma_member_attempts_positive(ms.drop_first(), j - 1);
    }
}

/// The number of parse attempts one unit owes.
pub open spec fn unit_attempts(u: ScanUnitV) -> nat {
    match u {
        ScanUnitV::SourceFile { path, bytes } => if is_utf8(bytes) {
            1nat
        } else {
            0nat
        },
        ScanUnitV::ArchiveFile { path, bytes } => member_attempts(
            selected_members(zip_entries_of(bytes)),
        ),
    }
}

/// The number of parse attempts a whole run owes.
pub open spec fn run_attempts(us: Seq<ScanUnitV>) -> nat
    decreases us,
{
    if us.len() == 0 {
        0
    } else {
        unit_attempts(us[0]) + run_attempts(us.drop_first())
    }
}

proof fn lemma_members_processed(s: StatsV, apath: Seq<u8>, ms: Seq<MemberV>)
    requires
        s.processed + member_attempts(ms) <= u64::MAX,
    ensures
        apply_members(s, apath, ms).processed == s.processed + member_attempts(ms),
    decreases ms.len(),
{
    if ms.len() > 0 {
        let s1 = record_spec(
            s,
            OriginV::Member { archive: apath, member: ms[0].name },
            member_outcome(ms[0].text),
        );
        lemma_members_processed(s1, apath, ms.drop_first());
    }
}

proof fn lemma_unit_processed(s: StatsV, u: ScanUnitV)
    requires
        s.processed + unit_attempts(u) <= u64::MAX,
    ensures
        apply_unit(s, u).processed == s.processed + unit_attempts(u),
{
    match u {
        ScanUnitV::SourceFile { path, bytes } => {},
        ScanUnitV::ArchiveFile { path, bytes } => {
            lemma_members_processed(s, path, selected_members(zip_entries_of(bytes)));
        },
    }
}

/// Law: within the counter's machine limit, a run's processed count grows
/// by exactly the number of parse attempts its units owe — one per
/// readable source unit, so unreadable units are never counted.
pub proof fn lemma_run_processed_counts_attempts(s: StatsV, us: Seq<ScanUnitV>)
    requires
        s.processed + run_attempts(us) <= u64::MAX,
    ensures
        run_spec(s, us).processed == s.processed + run_attempts(us),
    decreases us.len(),
{
    if us.len() > 0 {
        lemma_unit_processed(s, us[0]);
        lemma_run_processed_counts_attempts(apply_unit(s, us[0]), us.drop_first());
    }
}

} // verus!
