//! Whole runs: one archive handed in directly (every failure is fatal), or a
//! directory of archives (a failing archive is reported and the rest still
//! run).

use crate::ExtractedFile;
use crate::archive::{archive_warnings, archive_writes, entry_fails, extract_archive, writes_view};
use crate::casefold::{normalize_filter, normalize_spec};
use crate::errors::ExtractError;
use crate::zipbridge::zip_entries;
use vstd::prelude::*;

verus! {

/// The result of a run over a single archive.
pub struct SingleRun {
    pub writes: Vec<ExtractedFile>,
    pub warnings: Vec<String>,
    pub error: Option<ExtractError>,
}

/// Run over one archive handed in directly. The run succeeds exactly when
/// the buffer is a readable archive and no entry of it fails; any failure
/// is fatal, and the writes planned before it are kept.
pub fn run_single(bytes: &Vec<u8>, raw_filter: &str) -> (r: SingleRun)
    ensures
        r.error is None <==> zip_entries(bytes@) is Some && (forall|i: int|
            0 <= i < zip_entries(bytes@).unwrap().len() ==> !entry_fails(
                #[trigger] zip_entries(bytes@).unwrap()[i],
                normalize_spec(raw_filter@),
            )),
        r.error is None ==> writes_view(r.writes@) == archive_writes(
            zip_entries(bytes@).unwrap(),
            normalize_spec(raw_filter@),
        ) && r.warnings.deep_view() == archive_warnings(
            zip_entries(bytes@).unwrap(),
            normalize_spec(raw_filter@),
        ),
        zip_entries(bytes@) is None ==> r.writes@.len() == 0 && r.warnings@.len() == 0,
        r.error is Some ==> r.error matches Some(ExtractError::ArchiveFailed(_)),
        r.error is Some && zip_entries(bytes@) is Some ==> exists|k: int|
            0 <= k < zip_entries(bytes@).unwrap().len() && entry_fails(
                #[trigger] zip_entries(bytes@).unwrap()[k],
                normalize_spec(raw_filter@),
            ) && (forall|i: int|
                0 <= i < k ==> !entry_fails(
                    zip_entries(bytes@).unwrap()[i],
                    normalize_spec(raw_filter@),
                )) && writes_view(r.writes@) == archive_writes(
                zip_entries(bytes@).unwrap().take(k),
                normalize_spec(raw_filter@),
            ) && r.warnings.deep_view() == archive_warnings(
                zip_entries(bytes@).unwrap().take(k),
                normalize_spec(raw_filter@),
            ),
{
    let filter = normalize_filter(raw_filter);
    let mut writes: Vec<ExtractedFile> = Vec::new();
    let outcome = extract_archive(bytes, filter.as_str(), &mut writes);
    proof {
        assert(writes_view(Seq::<ExtractedFile>::empty()) =~= Seq::<(Seq<char>, Seq<u8>)>::empty());
        assert(forall|s: Seq<(Seq<char>, Seq<u8>)>|
            Seq::<(Seq<char>, Seq<u8>)>::empty() + s =~= s);
    }
    match outcome.failure {
        None => SingleRun { writes, warnings: outcome.warnings, error: None },
        Some(m) => SingleRun {
            writes,
            warnings: outcome.warnings,
            error: Some(ExtractError::ArchiveFailed(m)),
        },
    }
}

/// What one archive of a directory run did: how many files it planned, the
/// warnings it raised, and its failure if it had one.
pub struct ArchiveRun {
    pub written: usize,
    pub warnings: Vec<String>,
    pub failure: Option<String>,
}

/// The mathematical form of an `ArchiveRun`.
pub ghost struct ArchiveRunView {
    pub written: int,
    pub warnings: Seq<Seq<char>>,
    pub failed: bool,
}

impl View for ArchiveRun {
    type V = ArchiveRunView;

    open spec fn view(&self) -> ArchiveRunView {
        ArchiveRunView {
            written: self.written as int,
            warnings: self.warnings.deep_view(),
            failed: self.failure is Some,
        }
    }
}

/// The views of a sequence of archive reports.
pub open spec fn runs_view(s: Seq<ArchiveRun>) -> Seq<ArchiveRunView> {
    s.map_values(|a: ArchiveRun| a@)
}

/// Whether one archive's segment of a run is accounted for. A buffer that
/// is no readable archive fails and contributes nothing. Otherwise the
/// archive fails exactly when an entry of it fails: a succeeding archive's
/// segment holds its full planned writes, a failing one's the writes
/// planned before its first failing entry.
pub open spec fn archive_run_matches(
    bytes: Seq<u8>,
    filter: Seq<char>,
    seg: Seq<(Seq<char>, Seq<u8>)>,
    run: ArchiveRunView,
) -> bool {
    &&& run.written == seg.len()
    &&& match zip_entries(bytes) {
        Option::None => run.failed && seg.len() == 0 && run.warnings.len() == 0,
        Option::Some(es) => {
            if run.failed {
                exists|k: int|
                    0 <= k < es.len() && entry_fails(#[trigger] es[k], filter) && (forall|i: int|
                        0 <= i < k ==> !entry_fails(es[i], filter)) && seg == archive_writes(
                        es.take(k),
                        filter,
                    ) && run.warnings == archive_warnings(es.take(k), filter)
            } else {
                (forall|i: int| 0 <= i < es.len() ==> !entry_fails(#[trigger] es[i], filter))
                    && seg == archive_writes(es, filter) && run.warnings == archive_warnings(
                    es,
                    filter,
                )
            }
        },
    }
}

/// Whether a whole directory run is accounted for: one report per archive,
/// and the planned writes are the archives' segments laid end to end, in
/// archive order.
pub open spec fn directory_run_matches(
    archives: Seq<Seq<u8>>,
    filter: Seq<char>,
    writes: Seq<(Seq<char>, Seq<u8>)>,
    runs: Seq<ArchiveRunView>,
) -> bool
    decreases archives.len(),
{
    if archives.len() == 0 {
        writes.len() == 0 && runs.len() == 0
    } else {
        &&& runs.len() == archives.len()
        &&& exists|m: int|
            0 <= m <= writes.len() && directory_run_matches(
                archives.drop_last(),
                filter,
                #[trigger] writes.take(m),
                runs.drop_last(),
            ) && archive_run_matches(
                archives.last(),
                filter,
                writes.subrange(m, writes.len() as int),
                runs.last(),
            )
    }
}

/// Run over every archive of a directory, in the order given: a failing
/// archive keeps what it planned before failing and is reported in its
/// `ArchiveRun`; the archives after it still run.
pub fn run_directory(archives: &Vec<Vec<u8>>, raw_filter: &str) -> (r: (
    Vec<ExtractedFile>,
    Vec<ArchiveRun>,
))
    ensures
        r.1@.len() == archives@.len(),
        directory_run_matches(
            archives.deep_view(),
            normalize_spec(raw_filter@),
            writes_view(r.0@),
            runs_view(r.1@),
        ),
{
    let filter = normalize_filter(raw_filter);
    let mut writes: Vec<ExtractedFile> = Vec::new();
    let mut runs: Vec<ArchiveRun> = Vec::new();
    let mut i: usize = 0;
    proof {
        assert(archives.deep_view().take(0) =~= Seq::<Seq<u8>>::empty());
    }
    while i < archives.len()
        invariant
            0 <= i <= archives@.len(),
            archives.deep_view().len() == archives@.len(),
            filter@ == normalize_spec(raw_filter@),
            runs@.len() == i,
            directory_run_matches(
                archives.deep_view().take(i as int),
                filter@,
                writes_view(writes@),
                runs_view(runs@),
            ),
        decreases archives@.len() - i,
    {
        let ghost writes_old = writes_view(writes@);
        let ghost runs_old = runs_view(runs@);
        let ghost bs = archives.deep_view()[i as int];
        let before = writes.len();
        let outcome = extract_archive(&archives[i], filter.as_str(), &mut writes);
        proof {
            assert(archives.deep_view()[i as int] == archives@[i as int]@);
            assert(writes_old.len() == before as int);
            assert(writes_view(writes@).take(before as int) =~= writes_old);
        }
        let written = writes.len() - before;
        let run = ArchiveRun {
            written,
            warnings: outcome.warnings,
            failure: outcome.failure,
        };
        let ghost run_v = run@;
        let ghost seg = writes_view(writes@).subrange(
            before as int,
            writes_view(writes@).len() as int,
        );
        proof {
            assert(writes_old + seg =~= writes_view(writes@));
            if zip_entries(bs) is Some {
                let es = zip_entries(bs).unwrap();
                if run_v.failed {
                    let k = choose|k: int|
                        0 <= k < es.len() && entry_fails(#[trigger] es[k], filter@) && (forall|
                            i: int,
                        |
                            0 <= i < k ==> !entry_fails(es[i], filter@)) && writes_view(writes@)
                            == writes_old + archive_writes(es.take(k), filter@)
                            && run_v.warnings == archive_warnings(es.take(k), filter@);
                    assert(seg =~= archive_writes(es.take(k), filter@));
                } else {
                    assert(seg =~= archive_writes(es, filter@));
                }
            } else {
                assert(seg.len() == 0);
            }
            assert(archive_run_matches(bs, filter@, seg, run_v));
        }
        runs.push(run);
        proof {
            let a1 = archives.deep_view().take(i as int + 1);
            assert(a1.drop_last() =~= archives.deep_view().take(i as int));
            assert(a1.last() == bs);
            assert(runs_view(runs@).drop_last() =~= runs_old);
            assert(runs_view(runs@).last() == run_v);
            assert(seg == writes_view(writes@).subrange(
                before as int,
                writes_view(writes@).len() as int,
            ));
            assert(directory_run_matches(a1, filter@, writes_view(writes@), runs_view(runs@)));
        }
        i = i + 1;
    }
    proof {
        assert(archives.deep_view().take(archives@.len() as int) =~= archives.deep_view());
    }
    (writes, runs)
}

} // verus!
