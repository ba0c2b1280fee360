//! The version-range compressor: a single left-to-right pass that turns a
//! browser's ordered version list and a sparse version-to-support mapping
//! into a compact ordered list of contiguous ranges, merging adjacent
//! versions of equal support and skipping absent slots.

use vstd::prelude::*;

use crate::data::assoc_find;
use crate::errors::Error;
use crate::errors::ErrorModel;

verus! {

/// One cell of the version grid: a maximal contiguous run of versions
/// sharing one support level. `stop` is absent for a single-version run.
pub struct VersionGridCell {
    pub start: String,
    pub stop: Option<String>,
    pub support: String,
}

/// The mathematical shape of a `VersionGridCell`.
pub ghost struct CellModel {
    pub start: Seq<char>,
    pub stop: Option<Seq<char>>,
    pub support: Seq<char>,
}

impl DeepView for VersionGridCell {
    type V = CellModel;

    open spec fn deep_view(&self) -> CellModel {
        CellModel {
            start: self.start@,
            stop: self.stop.deep_view(),
            support: self.support@,
        }
    }
}

/// The support level that `stats` assigns to `version` (the empty
/// sequence stands in where no entry exists; compression only reads it
/// for versions that have one).
pub open spec fn stat_of(stats: Seq<(Seq<char>, Seq<char>)>, version: Seq<char>) -> Seq<char> {
    match assoc_find(stats, version) {
        Some(s) => s,
        None => Seq::empty(),
    }
}

/// The first version present in `versions` that has no entry in `stats`.
pub open spec fn first_missing(
    versions: Seq<Option<Seq<char>>>,
    stats: Seq<(Seq<char>, Seq<char>)>,
) -> Option<Seq<char>>
    decreases versions.len(),
{
    if versions.len() == 0 {
        None
    } else {
        match versions[0] {
            Option::None => first_missing(versions.drop_first(), stats),
            Option::Some(v) => if assoc_find(stats, v) is None {
                Some(v)
            } else {
                first_missing(versions.drop_first(), stats)
            },
        }
    }
}

/// Compression succeeds exactly when every present version has a stats
/// entry.
pub open spec fn compress_ok(
    versions: Seq<Option<Seq<char>>>,
    stats: Seq<(Seq<char>, Seq<char>)>,
) -> bool {
    first_missing(versions, stats) is None
}

/// What compression returns: processing slots left to right, an absent
/// slot is skipped, a version whose support equals the last cell's extends
/// that cell, and any other version opens a new single-version cell.
pub open spec fn spec_compress(
    versions: Seq<Option<Seq<char>>>,
    stats: Seq<(Seq<char>, Seq<char>)>,
) -> Seq<CellModel>
    decreases versions.len(),
{
    if versions.len() == 0 {
        Seq::empty()
    } else {
        let rest = spec_compress(versions.drop_last(), stats);
        match versions.last() {
            Option::None => rest,
            Option::Some(v) => {
                let s = stat_of(stats, v);
                if rest.len() > 0 && rest.last().support == s {
                    rest.update(
                        rest.len() - 1,
                        CellModel { start: rest.last().start, stop: Some(v), support: s },
                    )
                } else {
                    rest.push(CellModel { start: v, stop: None, support: s })
                }
            },
        }
    }
}

/// A prefix whose present versions all have stats entries does not change
/// where the first missing version lies.
proof fn lemma_first_missing_skip(
    versions: Seq<Option<Seq<char>>>,
    stats: Seq<(Seq<char>, Seq<char>)>,
    i: int,
)
    requires
        0 <= i <= versions.len(),
        forall|j: int|
            0 <= j < i ==> ((#[trigger] versions[j]) matches Some(v) ==> assoc_find(stats, v)
                is Some),
    ensures
        first_missing(versions, stats) == first_missing(versions.skip(i), stats),
    decreases i,
{
    if i > 0 {
        let rest = versions.drop_first();
        assert forall|j: int|
            0 <= j < i - 1 implies ((#[trigger] rest[j]) matches Some(v) ==> assoc_find(stats, v)
            is Some) by {
            assert(rest[j] == versions[j + 1]);
        }
        lemma_first_missing_skip(rest, stats, i - 1);
        assert(rest.skip(i - 1) =~= versions.skip(i));
    } else {
        assert(versions.skip(0) =~= versions);
    }
}

/// Compresses a browser's ordered version list against that browser's
/// stats for one feature. Exactly when every present version has a stats
/// entry the result is `Ok` and carries the compressed cells; otherwise it
/// is a `LookupError` naming the first present version without an entry,
/// and `browser`, the browser the stats belong to.
pub fn compress(
    versions: &Vec<Option<String>>,
    stats: &Vec<(String, String)>,
    browser: &String,
) -> (r: Result<Vec<VersionGridCell>, Error>)
    ensures
        r is Ok <==> compress_ok(versions.deep_view(), stats.deep_view()),
        r matches Ok(cells) ==> cells.deep_view() == spec_compress(
            versions.deep_view(),
            stats.deep_view(),
        ),
        r matches Err(e) ==> (e@ matches ErrorModel::LookupError { version, browser: b }
            && first_missing(versions.deep_view(), stats.deep_view()) == Some(version) && b
            == browser@),
{
    let ghost vm = versions.deep_view();
    let ghost sm = stats.deep_view();
    let mut cells: Vec<VersionGridCell> = Vec::new();
    let mut i: usize = 0;
    proof {
        assert(cells.deep_view() =~= spec_compress(vm.take(0), sm));
    }
    while i < versions.len()
        invariant
            0 <= i <= versions.len(),
            vm == versions.deep_view(),
            sm == stats.deep_view(),
            cells.deep_view() == spec_compress(vm.take(i as int), sm),
            forall|j: int|
                0 <= j < i ==> ((#[trigger] vm[j]) matches Some(v) ==> assoc_find(sm, v) is Some),
        decreases versions.len() - i,
    {
        let ghost prev = cells.deep_view();
        match &versions[i] {
            None => {
                proof {
                    assert(vm[i as int] is None);
                    assert(vm.take(i + 1).drop_last() =~= vm.take(i as int));
                    assert(vm.take(i + 1).last() == vm[i as int]);
                }
            },
            Some(version) => {
                proof {
                    assert(vm[i as int] == Some(version@));
                }
                match crate::data::assoc_get(stats, version) {
                    None => {
                        proof {
                            lemma_first_missing_skip(vm, sm, i as int);
                            assert(vm.skip(i as int)[0] == vm[i as int]);
                        }
                        return Err(
                            Error::LookupError {
                                version: version.clone(),
                                browser: browser.clone(),
                            },
                        );
                    },
                    Some(stat) => {
                        proof {
                            assert(stat_of(sm, version@) == stat@);
                            assert(vm.take(i + 1).drop_last() =~= vm.take(i as int));
                            assert(vm.take(i + 1).last() == vm[i as int]);
                        }
                        let n = cells.len();
                        if n > 0 && cells[n - 1].support == *stat {
                            let mut last = cells.pop().unwrap();
                            proof {
                                assert(last.deep_view() == prev.last());
                            }
                            last.stop = Some(version.clone());
                            cells.push(last);
                            proof {
                                assert(cells.deep_view() =~= prev.update(
                                    prev.len() - 1,
                                    CellModel {
                                        start: prev.last().start,
                                        stop: Some(version@),
                                        support: stat_of(sm, version@),
                                    },
                                ));
                            }
                        } else {
                            cells.push(
                                VersionGridCell {
                                    start: version.clone(),
                                    stop: None,
                                    support: stat.clone(),
                                },
                            );
                            proof {
                                assert(cells.deep_view() =~= prev.push(
                                    CellModel {
                                        start: version@,
                                        stop: None,
                                        support: stat_of(sm, version@),
                                    },
                                ));
                            }
                        }
                    },
                }
            },
        }
        i += 1;
    }
    proof {
        assert(vm.take(vm.len() as int) =~= vm);
        lemma_first_missing_skip(vm, sm, vm.len() as int);
        assert(vm.skip(vm.len() as int) =~= Seq::<Option<Seq<char>>>::empty());
    }
    Ok(cells)
}

/// The present versions of an ordered list, in order, each paired with its
/// support level.
pub open spec fn present_pairs(
    versions: Seq<Option<Seq<char>>>,
    stats: Seq<(Seq<char>, Seq<char>)>,
) -> Seq<(Seq<char>, Seq<char>)>
    decreases versions.len(),
{
    if versions.len() == 0 {
        Seq::empty()
    } else {
        let rest = present_pairs(versions.drop_last(), stats);
        match versions.last() {
            Option::None => rest,
            Option::Some(v) => rest.push((v, stat_of(stats, v))),
        }
    }
}

/// Groups a sequence of version/support pairs into its maximal runs of
/// equal support, in order.
pub open spec fn group_runs(pairs: Seq<(Seq<char>, Seq<char>)>) -> Seq<
    Seq<(Seq<char>, Seq<char>)>,
>
    decreases pairs.len(),
{
    if pairs.len() == 0 {
        Seq::empty()
    } else {
        let runs = group_runs(pairs.drop_last());
        let p = pairs.last();
        if runs.len() > 0 && runs.last().len() > 0 && runs.last().last().1 == p.1 {
            runs.update(runs.len() - 1, runs.last().push(p))
        } else {
            runs.push(seq![p])
        }
    }
}

/// The concatenation of a sequence of runs, in order.
pub open spec fn concat_runs(runs: Seq<Seq<(Seq<char>, Seq<char>)>>) -> Seq<
    (Seq<char>, Seq<char>),
>
    decreases runs.len(),
{
    if runs.len() == 0 {
        Seq::empty()
    } else {
        concat_runs(runs.drop_last()) + runs.last()
    }
}

/// Every run is nonempty and uniform in support.
pub open spec fn runs_wf(runs: Seq<Seq<(Seq<char>, Seq<char>)>>) -> bool {
    forall|i: int|
        0 <= i < runs.len() ==> (#[trigger] runs[i]).len() > 0 && (forall|j: int|
            0 <= j < runs[i].len() ==> (#[trigger] runs[i][j]).1 == runs[i][0].1)
}

/// The cell a run collapses to: `start` is the run's first version, `stop`
/// its last (absent for a single-version run), `support` its level.
pub open spec fn run_cell(run: Seq<(Seq<char>, Seq<char>)>) -> CellModel {
    CellModel {
        start: run[0].0,
        stop: if run.len() <= 1 {
            None
        } else {
            Some(run.last().0)
        },
        support: run[0].1,
    }
}

/// One cell per run, in order.
pub open spec fn cells_of_runs(runs: Seq<Seq<(Seq<char>, Seq<char>)>>) -> Seq<CellModel> {
    runs.map_values(|run: Seq<(Seq<char>, Seq<char>)>| run_cell(run))
}

/// Grouping produces only nonempty, support-uniform runs.
pub proof fn lemma_group_runs_wf(pairs: Seq<(Seq<char>, Seq<char>)>)
    ensures
        runs_wf(group_runs(pairs)),
    decreases pairs.len(),
{
    if pairs.len() > 0 {
        lemma_group_runs_wf(pairs.drop_last());
        let runs = group_runs(pairs.drop_last());
        let p = pairs.last();
        if runs.len() > 0 && runs.last().len() > 0 && runs.last().last().1 == p.1 {
            let grown = runs.last().push(p);
            let out = runs.update(runs.len() - 1, grown);
            assert forall|i: int| 0 <= i < out.len() implies (#[trigger] out[i]).len() > 0 && (
            forall|j: int| 0 <= j < out[i].len() ==> (#[trigger] out[i][j]).1 == out[i][0].1) by {
                if i < out.len() - 1 {
                    assert(out[i] == runs[i]);
                } else {
                    assert(out[i] == grown);
                    assert forall|j: int| 0 <= j < grown.len() implies (#[trigger] grown[j]).1
                        == grown[0].1 by {
                        if j < grown.len() - 1 {
                            assert(grown[j] == runs.last()[j]);
                        } else {
                            assert(grown[j] == p);
                            assert(runs.last().last().1 == runs.last()[0].1);
                        }
                    }
                }
            }
        } else {
            let out = runs.push(seq![p]);
            assert forall|i: int| 0 <= i < out.len() implies (#[trigger] out[i]).len() > 0 && (
            forall|j: int| 0 <= j < out[i].len() ==> (#[trigger] out[i][j]).1 == out[i][0].1) by {
                if i < out.len() - 1 {
                    assert(out[i] == runs[i]);
                } else {
                    assert(out[i] == seq![p]);
                }
            }
        }
    }
}

/// The runs of a pair sequence concatenate back to it: grouping is a
/// partition that keeps the original order.
pub proof fn lemma_concat_group_runs(pairs: Seq<(Seq<char>, Seq<char>)>)
    ensures
        concat_runs(group_runs(pairs)) == pairs,
    decreases pairs.len(),
{
    if pairs.len() == 0 {
        assert(concat_runs(group_runs(pairs)) =~= pairs);
    } else {
        lemma_concat_group_runs(pairs.drop_last());
        let runs = group_runs(pairs.drop_last());
        let p = pairs.last();
        if runs.len() > 0 && runs.last().len() > 0 && runs.last().last().1 == p.1 {
            let out = runs.update(runs.len() - 1, runs.last().push(p));
            assert(out.drop_last() =~= runs.drop_last());
            assert(out.last() == runs.last().push(p));
            assert(concat_runs(out) == concat_runs(runs.drop_last()) + runs.last().push(p));
            assert(concat_runs(runs.drop_last()) + runs.last().push(p) =~= (concat_runs(
                runs.drop_last(),
            ) + runs.last()).push(p));
            assert(concat_runs(runs) == concat_runs(runs.drop_last()) + runs.last());
            assert(pairs.drop_last().push(p) =~= pairs);
        } else {
            let out = runs.push(seq![p]);
            assert(out.drop_last() =~= runs);
            assert(out.last() == seq![p]);
            assert(concat_runs(out) == concat_runs(runs) + seq![p]);
            assert(pairs.drop_last() + seq![p] =~= pairs);
        }
    }
}

/// Compression is exactly one cell per maximal run of the present
/// versions.
pub proof fn lemma_compress_is_grouped(
    versions: Seq<Option<Seq<char>>>,
    stats: Seq<(Seq<char>, Seq<char>)>,
)
    ensures
        spec_compress(versions, stats) == cells_of_runs(group_runs(present_pairs(versions, stats))),
    decreases versions.len(),
{
    if versions.len() == 0 {
        assert(spec_compress(versions, stats) =~= cells_of_runs(
            group_runs(present_pairs(versions, stats)),
        ));
    } else {
        lemma_compress_is_grouped(versions.drop_last(), stats);
        let pairs_rest = present_pairs(versions.drop_last(), stats);
        let runs = group_runs(pairs_rest);
        let cells = cells_of_runs(runs);
        lemma_group_runs_wf(pairs_rest);
        match versions.last() {
            Option::None => {
                assert(present_pairs(versions, stats) == pairs_rest);
            },
            Option::Some(v) => {
                let s = stat_of(stats, v);
                let pairs = pairs_rest.push((v, s));
                assert(present_pairs(versions, stats) == pairs);
                assert(pairs.drop_last() =~= pairs_rest);
                assert(pairs.last() == (v, s));
                if runs.len() > 0 && runs.last().len() > 0 && runs.last().last().1 == s {
                    let grown = runs.last().push((v, s));
                    let out = runs.update(runs.len() - 1, grown);
                    assert(group_runs(pairs) == out);
                    // the exec-side merge condition coincides: the last
                    // cell's support is the last run's uniform support
                    assert(cells.last() == run_cell(runs.last()));
                    assert(runs.last().last().1 == runs.last()[0].1);
                    assert(cells.len() > 0 && cells.last().support == s);
                    let merged = CellModel { start: cells.last().start, stop: Some(v), support: s };
                    assert(run_cell(grown).start == grown[0].0);
                    assert(grown[0] == runs.last()[0]);
                    assert(grown.last() == (v, s));
                    assert(grown.len() > 1);
                    assert(run_cell(grown) == merged);
                    assert(spec_compress(versions, stats) == cells.update(cells.len() - 1, merged));
                    assert(cells.update(cells.len() - 1, merged) =~= cells_of_runs(out));
                } else {
                    let out = runs.push(seq![(v, s)]);
                    assert(group_runs(pairs) == out);
                    if cells.len() > 0 {
                        assert(cells.last() == run_cell(runs.last()));
                        assert(runs.last().last().1 == runs.last()[0].1);
                        assert(cells.last().support != s);
                    }
                    let fresh = CellModel { start: v, stop: None, support: s };
                    assert(run_cell(seq![(v, s)]) == fresh);
                    assert(spec_compress(versions, stats) == cells.push(fresh));
                    assert(cells.push(fresh) =~= cells_of_runs(out));
                }
            },
        }
    }
}

/// No two adjacent compressed cells share a support level: merging is
/// maximal.
pub proof fn lemma_adjacent_supports_differ(
    versions: Seq<Option<Seq<char>>>,
    stats: Seq<(Seq<char>, Seq<char>)>,
)
    ensures
        forall|i: int|
            0 <= i < spec_compress(versions, stats).len() - 1 ==> (#[trigger] spec_compress(
                versions,
                stats,
            )[i]).support != spec_compress(versions, stats)[i + 1].support,
    decreases versions.len(),
{
    if versions.len() > 0 {
        lemma_adjacent_supports_differ(versions.drop_last(), stats);
        let rest = spec_compress(versions.drop_last(), stats);
        let out = spec_compress(versions, stats);
        match versions.last() {
            Option::None => {},
            Option::Some(v) => {
                let s = stat_of(stats, v);
                assert forall|i: int| 0 <= i < out.len() - 1 implies (#[trigger] out[i]).support
                    != out[i + 1].support by {
                    if rest.len() > 0 && rest.last().support == s {
                        assert(out[i] == rest[i] || i == rest.len() - 1);
                        assert(out[i].support == rest[i].support);
                        assert(out[i + 1].support == rest[i + 1].support);
                    } else {
                        if i + 1 < rest.len() {
                            assert(out[i] == rest[i] && out[i + 1] == rest[i + 1]);
                        } else {
                            assert(out[i] == rest[i] && out[i + 1].support == s);
                        }
                    }
                }
            },
        }
    }
}

/// Compression correctness: when every present version has a stats entry,
/// the compressed cells are exactly the maximal runs of the present
/// versions. The runs concatenate back to the present versions in their
/// original order (a partition); each cell spans its run's first to last
/// version and carries the run's uniform support level; and no two
/// adjacent cells share a support level.
pub proof fn lemma_compress_correct(
    versions: Seq<Option<Seq<char>>>,
    stats: Seq<(Seq<char>, Seq<char>)>,
)
    requires
        compress_ok(versions, stats),
    ensures
        spec_compress(versions, stats) == cells_of_runs(group_runs(present_pairs(versions, stats))),
        concat_runs(group_runs(present_pairs(versions, stats))) == present_pairs(versions, stats),
        runs_wf(group_runs(present_pairs(versions, stats))),
        forall|i: int|
            0 <= i < spec_compress(versions, stats).len() - 1 ==> (#[trigger] spec_compress(
                versions,
                stats,
            )[i]).support != spec_compress(versions, stats)[i + 1].support,
{
    lemma_compress_is_grouped(versions, stats);
    lemma_concat_group_runs(present_pairs(versions, stats));
    lemma_group_runs_wf(present_pairs(versions, stats));
    lemma_adjacent_supports_differ(versions, stats);
}

/// Absent slots are transparent to compression: inserting an absent slot
/// anywhere changes nothing — in particular, one inserted between two
/// versions of equal support does not split their run.
pub proof fn lemma_absent_slot_transparent(
    left: Seq<Option<Seq<char>>>,
    right: Seq<Option<Seq<char>>>,
    stats: Seq<(Seq<char>, Seq<char>)>,
)
    ensures
        spec_compress(left + seq![Option::<Seq<char>>::None] + right, stats) == spec_compress(
            left + right,
            stats,
        ),
    decreases right.len(),
{
    let gap = seq![Option::<Seq<char>>::None];
    if right.len() == 0 {
        assert(left + gap + right =~= left + gap);
        assert((left + gap).drop_last() =~= left);
        assert((left + gap).last() is None);
        assert(left + right =~= left);
    } else {
        lemma_absent_slot_transparent(left, right.drop_last(), stats);
        let a = left + gap + right;
        let b = left + right;
        assert(a.drop_last() =~= left + gap + right.drop_last());
        assert(a.last() == right.last());
        assert(b.drop_last() =~= left + right.drop_last());
        assert(b.last() == right.last());
    }
}

} // verus!
