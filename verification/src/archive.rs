//! Extraction over one archive: the planned writes it produces, the
//! warnings it raises, when it is owed success, and the loop that walks its
//! entries in order.

use crate::ExtractedFile;
use crate::entry::{Decision, DecisionView, decide_entry, decision_of};
use crate::zipbridge::{EntryModel, archive_entries, archive_len, entry_bytes, entry_meta,
    open_archive, zip_entries};
use vstd::prelude::*;

verus! {

/// Whether walking the entries stops at `e`: its metadata cannot be read,
/// or the decision extracts it and its contents cannot be read. An entry
/// that is skipped needs no readable contents.
pub open spec fn entry_fails(e: EntryModel, filter: Seq<char>) -> bool {
    !e.2 || (decision_of(e.0, e.1, filter) is Extract && e.3 is None)
}

/// The writes a sequence of entries produces under `filter`, in entry order:
/// one `(basename, contents)` pair per extracted entry.
pub open spec fn archive_writes(entries: Seq<EntryModel>, filter: Seq<char>) -> Seq<
    (Seq<char>, Seq<u8>),
>
    decreases entries.len(),
{
    if entries.len() == 0 {
        Seq::empty()
    } else {
        let front = archive_writes(entries.drop_last(), filter);
        match decision_of(entries.last().0, entries.last().1, filter) {
            DecisionView::Extract(basename) => front.push((basename, entries.last().3.unwrap())),
            _ => front,
        }
    }
}

/// The stored names that warrant a warning under `filter`: matching entries
/// whose final segment is no usable file name, in entry order.
pub open spec fn archive_warnings(entries: Seq<EntryModel>, filter: Seq<char>) -> Seq<Seq<char>>
    decreases entries.len(),
{
    if entries.len() == 0 {
        Seq::empty()
    } else {
        let front = archive_warnings(entries.drop_last(), filter);
        match decision_of(entries.last().0, entries.last().1, filter) {
            DecisionView::SkipBadName => front.push(entries.last().0),
            _ => front,
        }
    }
}

/// The views of a sequence of planned writes.
pub open spec fn writes_view(s: Seq<ExtractedFile>) -> Seq<(Seq<char>, Seq<u8>)> {
    s.map_values(|e: ExtractedFile| e@)
}

/// How one more entry extends the planned writes and warnings.
proof fn lemma_plan_step(entries: Seq<EntryModel>, filter: Seq<char>, i: int)
    requires
        0 <= i < entries.len(),
    ensures
        decision_of(entries[i].0, entries[i].1, filter) matches DecisionView::Extract(b) ==>
            archive_writes(entries.take(i + 1), filter) == archive_writes(
                entries.take(i),
                filter,
            ).push((b, entries[i].3.unwrap())),
        !(decision_of(entries[i].0, entries[i].1, filter) is Extract) ==> archive_writes(
            entries.take(i + 1),
            filter,
        ) == archive_writes(entries.take(i), filter),
        decision_of(entries[i].0, entries[i].1, filter) is SkipBadName ==> archive_warnings(
            entries.take(i + 1),
            filter,
        ) == archive_warnings(entries.take(i), filter).push(entries[i].0),
        !(decision_of(entries[i].0, entries[i].1, filter) is SkipBadName) ==> archive_warnings(
            entries.take(i + 1),
            filter,
        ) == archive_warnings(entries.take(i), filter),
{
    assert(entries.take(i + 1).drop_last() =~= entries.take(i));
    assert(entries.take(i + 1).last() == entries[i]);
}

/// Every planned write stems from an entry that the decision extracts: the
/// write bears that entry's final path segment as its name and that entry's
/// decompressed contents as its bytes. With the decision laws, nothing
/// named `__MACOSX`, no directory entry, and no mismatched or extension-less
/// entry is ever written.
pub proof fn lemma_write_provenance(entries: Seq<EntryModel>, filter: Seq<char>, j: int)
    requires
        0 <= j < archive_writes(entries, filter).len(),
    ensures
        exists|i: int|
            0 <= i < entries.len() && decision_of(
                (#[trigger] entries[i]).0,
                entries[i].1,
                filter,
            ) == DecisionView::Extract(archive_writes(entries, filter)[j].0)
                && archive_writes(entries, filter)[j].1 == entries[i].3.unwrap(),
    decreases entries.len(),
{
    let w = archive_writes(entries, filter);
    let front = archive_writes(entries.drop_last(), filter);
    if j < front.len() {
        lemma_write_provenance(entries.drop_last(), filter, j);
        let i = choose|i: int|
            0 <= i < entries.drop_last().len() && decision_of(
                (#[trigger] entries.drop_last()[i]).0,
                entries.drop_last()[i].1,
                filter,
            ) == DecisionView::Extract(front[j].0) && front[j].1
                == entries.drop_last()[i].3.unwrap();
        assert(entries[i] == entries.drop_last()[i]);
        assert(w[j] == front[j]);
    } else {
        assert(entries[entries.len() - 1] == entries.last());
    }
}

/// Every entry that the decision extracts leaves its write in the plan: its
/// final path segment paired with its decompressed contents.
pub proof fn lemma_extracted_entry_written(entries: Seq<EntryModel>, filter: Seq<char>, i: int)
    requires
        0 <= i < entries.len(),
        decision_of(entries[i].0, entries[i].1, filter) is Extract,
    ensures
        exists|j: int|
            0 <= j < archive_writes(entries, filter).len() && (#[trigger] archive_writes(
                entries,
                filter,
            )[j]) == (crate::entry::basename_of(entries[i].0), entries[i].3.unwrap()),
    decreases entries.len(),
{
    let w = archive_writes(entries, filter);
    let front = archive_writes(entries.drop_last(), filter);
    if i == entries.len() - 1 {
        assert(entries.last() == entries[i]);
        assert(w[w.len() - 1] == (crate::entry::basename_of(entries[i].0), entries[i].3.unwrap()));
    } else {
        assert(entries.drop_last()[i] == entries[i]);
        lemma_extracted_entry_written(entries.drop_last(), filter, i);
        let j = choose|j: int|
            0 <= j < front.len() && (#[trigger] front[j]) == (
                crate::entry::basename_of(entries[i].0),
                entries[i].3.unwrap(),
            );
        assert(w[j] == front[j]);
    }
}

/// The outcome of one archive: the warnings it raised, and the failure that
/// stopped it, if one did.
pub struct ArchiveOutcome {
    pub warnings: Vec<String>,
    pub failure: Option<String>,
}

/// Walk the archive held in `bytes` and append the planned writes of its
/// matching entries to `out`, in entry order. The walk succeeds exactly
/// when the buffer is a readable archive and no entry of it fails; a
/// failing entry stops that archive at the first failure, keeping the
/// writes planned before it.
pub fn extract_archive(bytes: &Vec<u8>, filter: &str, out: &mut Vec<ExtractedFile>) -> (r:
    ArchiveOutcome)
    ensures
        r.failure is None <==> zip_entries(bytes@) is Some && (forall|i: int|
            0 <= i < zip_entries(bytes@).unwrap().len() ==> !entry_fails(
                #[trigger] zip_entries(bytes@).unwrap()[i],
                filter@,
            )),
        r.failure is None ==> writes_view(final(out)@) == writes_view(old(out)@) + archive_writes(
            zip_entries(bytes@).unwrap(),
            filter@,
        ) && r.warnings.deep_view() == archive_warnings(zip_entries(bytes@).unwrap(), filter@),
        zip_entries(bytes@) is None ==> final(out)@ == old(out)@ && r.warnings@.len() == 0,
        r.failure is Some && zip_entries(bytes@) is Some ==> exists|k: int|
            0 <= k < zip_entries(bytes@).unwrap().len() && entry_fails(
                #[trigger] zip_entries(bytes@).unwrap()[k],
                filter@,
            ) && (forall|i: int|
                0 <= i < k ==> !entry_fails(zip_entries(bytes@).unwrap()[i], filter@))
                && writes_view(final(out)@) == writes_view(old(out)@) + archive_writes(
                zip_entries(bytes@).unwrap().take(k),
                filter@,
            ) && r.warnings.deep_view() == archive_warnings(
                zip_entries(bytes@).unwrap().take(k),
                filter@,
            ),
{
    let mut archive = match open_archive(bytes) {
        Ok(a) => a,
        Err(m) => {
            return ArchiveOutcome { warnings: Vec::new(), failure: Some(m) };
        },
    };
    let ghost es = zip_entries(bytes@).unwrap();
    let n = archive_len(&archive);
    let mut warnings: Vec<String> = Vec::new();
    let mut i: usize = 0;
    while i < n
        invariant
            0 <= i <= n,
            n == es.len(),
            zip_entries(bytes@) == Some(es),
            archive_entries(archive) == es,
            forall|j: int| 0 <= j < i ==> !entry_fails(#[trigger] es[j], filter@),
            writes_view(out@) == writes_view(old(out)@) + archive_writes(
                es.take(i as int),
                filter@,
            ),
            warnings.deep_view() == archive_warnings(es.take(i as int), filter@),
        decreases n - i,
    {
        let ghost writes_before = writes_view(out@);
        let ghost warnings_before = warnings.deep_view();
        let (name, is_file) = match entry_meta(&mut archive, i) {
            Ok(m) => m,
            Err(m) => {
                proof {
                    assert(entry_fails(zip_entries(bytes@).unwrap()[i as int], filter@));
                    assert(writes_view(out@) == writes_view(old(out)@) + archive_writes(
                        zip_entries(bytes@).unwrap().take(i as int),
                        filter@,
                    ));
                }
                return ArchiveOutcome { warnings, failure: Some(m) };
            },
        };
        proof {
            lemma_plan_step(es, filter@, i as int);
        }
        let ghost name_v = name@;
        match decide_entry(name.as_str(), is_file, filter) {
            Decision::Extract { basename } => {
                let ghost bn = basename@;
                let data = match entry_bytes(&mut archive, i) {
                    Ok(d) => d,
                    Err(m) => {
                        proof {
                            assert(entry_fails(zip_entries(bytes@).unwrap()[i as int], filter@));
                            assert(writes_view(out@) == writes_view(old(out)@) + archive_writes(
                                zip_entries(bytes@).unwrap().take(i as int),
                                filter@,
                            ));
                        }
                        return ArchiveOutcome { warnings, failure: Some(m) };
                    },
                };
                out.push(ExtractedFile { name: basename, data });
                proof {
                    assert(writes_view(out@) =~= writes_before.push((bn, es[i as int].3.unwrap())));
                    assert(writes_view(out@) =~= writes_view(old(out)@) + archive_writes(
                        es.take(i as int + 1),
                        filter@,
                    ));
                }
            },
            Decision::SkipBadName => {
                warnings.push(name);
                proof {
                    assert(warnings.deep_view() =~= warnings_before.push(name_v));
                }
            },
            _ => {
            },
        }
        i = i + 1;
    }
    proof {
        assert(es.take(n as int) =~= es);
    }
    ArchiveOutcome { warnings, failure: None }
}

} // verus!
