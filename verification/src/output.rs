//! The state of the flat output directory after a run of planned writes:
//! every write lands under its bare name, and a later write over the same
//! name replaces the earlier one.

use crate::archive::archive_writes;
use crate::run::{ArchiveRunView, archive_run_matches, directory_run_matches};
use crate::zipbridge::zip_entries;
use vstd::prelude::*;

verus! {

/// The files on disk after the writes are made in order, as a map from file
/// name to contents.
pub open spec fn disk_after(writes: Seq<(Seq<char>, Seq<u8>)>) -> Map<Seq<char>, Seq<u8>>
    decreases writes.len(),
{
    if writes.len() == 0 {
        Map::empty()
    } else {
        disk_after(writes.drop_last()).insert(writes.last().0, writes.last().1)
    }
}

/// A name is on disk after a run exactly when some write of the run bears it.
pub proof fn lemma_disk_names(writes: Seq<(Seq<char>, Seq<u8>)>, name: Seq<char>)
    ensures
        disk_after(writes).contains_key(name) <==> exists|j: int|
            0 <= j < writes.len() && (#[trigger] writes[j]).0 == name,
    decreases writes.len(),
{
    if writes.len() > 0 {
        lemma_disk_names(writes.drop_last(), name);
        if disk_after(writes).contains_key(name) {
            if writes.last().0 == name {
                assert((writes[writes.len() - 1]).0 == name);
            } else {
                let j = choose|j: int|
                    0 <= j < writes.drop_last().len() && (#[trigger] writes.drop_last()[j]).0
                        == name;
                assert((writes[j]).0 == name);
            }
        }
        if exists|j: int| 0 <= j < writes.len() && (#[trigger] writes[j]).0 == name {
            let j = choose|j: int| 0 <= j < writes.len() && (#[trigger] writes[j]).0 == name;
            if j < writes.len() - 1 {
                assert((writes.drop_last()[j]).0 == name);
            }
        }
    }
}

/// When several writes of one run share a name, the one made last is the one
/// on disk after the run.
pub proof fn lemma_last_write_wins(writes: Seq<(Seq<char>, Seq<u8>)>, j: int)
    requires
        0 <= j < writes.len(),
        forall|l: int| j < l < writes.len() ==> (#[trigger] writes[l]).0 != writes[j].0,
    ensures
        disk_after(writes).contains_key(writes[j].0),
        disk_after(writes)[writes[j].0] == writes[j].1,
    decreases writes.len(),
{
    if j == writes.len() - 1 {
        assert(writes.last() == writes[j]);
    } else {
        assert(writes.last().0 != writes[j].0) by {
            assert((writes[writes.len() - 1]).0 != writes[j].0);
        }
        assert(forall|l: int|
            j < l < writes.drop_last().len() ==> (#[trigger] writes.drop_last()[l]).0
                != writes.drop_last()[j].0) by {
            assert(forall|l: int|
                j < l < writes.len() - 1 ==> (#[trigger] writes.drop_last()[l]) == writes[l]);
        }
        lemma_last_write_wins(writes.drop_last(), j);
    }
}

/// The writes a directory of archives plans when every archive succeeds: the
/// archives' full planned writes, laid end to end in archive order.
pub open spec fn full_writes(archives: Seq<Seq<u8>>, filter: Seq<char>) -> Seq<
    (Seq<char>, Seq<u8>),
>
    decreases archives.len(),
{
    if archives.len() == 0 {
        Seq::empty()
    } else {
        full_writes(archives.drop_last(), filter) + match zip_entries(archives.last()) {
            Option::Some(es) => archive_writes(es, filter),
            Option::None => Seq::empty(),
        }
    }
}

/// A directory run in which no archive failed plans exactly the archives'
/// full writes, laid end to end in archive order.
pub proof fn lemma_directory_success(
    archives: Seq<Seq<u8>>,
    filter: Seq<char>,
    writes: Seq<(Seq<char>, Seq<u8>)>,
    runs: Seq<ArchiveRunView>,
)
    requires
        directory_run_matches(archives, filter, writes, runs),
        forall|j: int| 0 <= j < runs.len() ==> !(#[trigger] runs[j]).failed,
    ensures
        writes == full_writes(archives, filter),
    decreases archives.len(),
{
    if archives.len() == 0 {
        assert(writes =~= full_writes(archives, filter));
    } else {
        let m = choose|m: int|
            0 <= m <= writes.len() && directory_run_matches(
                archives.drop_last(),
                filter,
                #[trigger] writes.take(m),
                runs.drop_last(),
            ) && archive_run_matches(
                archives.last(),
                filter,
                writes.subrange(m, writes.len() as int),
                runs.last(),
            );
        assert(forall|j: int|
            0 <= j < runs.drop_last().len() ==> !(#[trigger] runs.drop_last()[j]).failed) by {
            assert(forall|j: int|
                0 <= j < runs.len() - 1 ==> (#[trigger] runs.drop_last()[j]) == runs[j]);
        }
        lemma_directory_success(archives.drop_last(), filter, writes.take(m), runs.drop_last());
        let seg = writes.subrange(m, writes.len() as int);
        assert(!runs.last().failed) by {
            assert(!(runs[runs.len() - 1]).failed);
        }
        assert(writes =~= writes.take(m) + seg);
        assert(writes =~= full_writes(archives, filter));
    }
}

} // verus!
