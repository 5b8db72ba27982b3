//! The per-entry decision: whether one archive entry is extracted, and under
//! which output name.

use crate::casefold::{lower_of, lowercase};
use crate::text::{after_last, contains_seq, contains_str, has_char, strs_equal, suffix_after_last};
use vstd::prelude::*;

verus! {

/// The marker that names macOS resource-fork metadata inside an archive.
pub open spec fn macosx_marker() -> Seq<char> {
    "__MACOSX"@
}

/// The final path segment of a stored entry name; the whole name when it
/// holds no separator.
pub open spec fn basename_of(name: Seq<char>) -> Seq<char> {
    after_last(name, '/')
}

/// The extension component of a stored entry name: what follows the final
/// dot of the final path segment. Meaningful only when that segment holds a
/// dot at all.
pub open spec fn extension_of(name: Seq<char>) -> Seq<char> {
    after_last(basename_of(name), '.')
}

/// Whether an extension matches a normalized filter: its lower-cased form
/// equals the filter exactly.
pub open spec fn ext_matches(ext: Seq<char>, filter: Seq<char>) -> bool {
    lower_of(ext) == filter
}

/// A final path segment that cannot serve as an output file name.
pub open spec fn invalid_basename(seg: Seq<char>) -> bool {
    seg.len() == 0 || seg == seq!['.'] || seg == seq!['.', '.']
}

/// What becomes of one entry. `Extract` carries the output file name; every
/// other variant names the reason the entry is passed over, `SkipBadName`
/// being the one that warrants a warning.
pub enum Decision {
    SkipMetadata,
    SkipDirectory,
    SkipNoExtension,
    SkipMismatch,
    SkipBadName,
    Extract { basename: String },
}

/// The mathematical form of a `Decision`.
pub ghost enum DecisionView {
    SkipMetadata,
    SkipDirectory,
    SkipNoExtension,
    SkipMismatch,
    SkipBadName,
    Extract(Seq<char>),
}

impl View for Decision {
    type V = DecisionView;

    open spec fn view(&self) -> DecisionView {
        match self {
            Decision::SkipMetadata => DecisionView::SkipMetadata,
            Decision::SkipDirectory => DecisionView::SkipDirectory,
            Decision::SkipNoExtension => DecisionView::SkipNoExtension,
            Decision::SkipMismatch => DecisionView::SkipMismatch,
            Decision::SkipBadName => DecisionView::SkipBadName,
            Decision::Extract { basename } => DecisionView::Extract(basename@),
        }
    }
}

/// What becomes of an entry named `name` (with `is_file` telling files from
/// directories) under a normalized `filter`, checked in the fixed order:
/// metadata marker, entry type, extension presence, extension match, name
/// validity.
pub open spec fn decision_of(name: Seq<char>, is_file: bool, filter: Seq<char>) -> DecisionView {
    if contains_seq(name, macosx_marker()) {
        DecisionView::SkipMetadata
    } else if !is_file {
        DecisionView::SkipDirectory
    } else if !has_char(basename_of(name), '.') {
        DecisionView::SkipNoExtension
    } else if !ext_matches(extension_of(name), filter) {
        DecisionView::SkipMismatch
    } else if invalid_basename(basename_of(name)) {
        DecisionView::SkipBadName
    } else {
        DecisionView::Extract(basename_of(name))
    }
}

/// Decide one entry against a normalized filter.
pub fn decide_entry(name: &str, is_file: bool, filter: &str) -> (r: Decision)
    ensures
        r@ == decision_of(name@, is_file, filter@),
{
    if contains_str(name, "__MACOSX") {
        return Decision::SkipMetadata;
    }
    if !is_file {
        return Decision::SkipDirectory;
    }
    let segment = suffix_after_last(name, '/').1;
    let (has_dot, ext) = suffix_after_last(segment, '.');
    if !has_dot {
        return Decision::SkipNoExtension;
    }
    let lowered = lowercase(ext);
    if !strs_equal(lowered.as_str(), filter) {
        return Decision::SkipMismatch;
    }
    proof {
        reveal_strlit(".");
        reveal_strlit("..");
        assert("."@ =~= seq!['.']);
        assert(".."@ =~= seq!['.', '.']);
    }
    if segment.unicode_len() == 0 || strs_equal(segment, ".") || strs_equal(segment, "..") {
        return Decision::SkipBadName;
    }
    Decision::Extract { basename: segment.to_owned() }
}

/// An entry whose stored name holds the metadata marker anywhere is skipped
/// outright, whatever its type, its extension, or the filter.
pub proof fn lemma_metadata_skipped(name: Seq<char>, is_file: bool, filter: Seq<char>)
    requires
        contains_seq(name, macosx_marker()),
    ensures
        decision_of(name, is_file, filter) == DecisionView::SkipMetadata,
{
}

/// A directory-type entry is never extracted, whatever its name, its
/// extension, or the filter.
pub proof fn lemma_directory_never_extracted(name: Seq<char>, filter: Seq<char>)
    ensures
        !(decision_of(name, false, filter) is Extract),
{
}

/// A file-type entry free of the metadata marker, whose final segment holds
/// a dot, whose lower-cased extension equals the filter, and whose final
/// segment is a usable file name, is extracted under that segment.
pub proof fn lemma_matching_file_extracted(name: Seq<char>, filter: Seq<char>)
    requires
        !contains_seq(name, macosx_marker()),
        has_char(basename_of(name), '.'),
        ext_matches(extension_of(name), filter),
        !invalid_basename(basename_of(name)),
    ensures
        decision_of(name, true, filter) == DecisionView::Extract(basename_of(name)),
{
}

/// Extension matching sees only the lower-cased form of the entry side: two
/// extensions that lower-case alike match exactly the same filters.
pub proof fn lemma_match_case_insensitive(ext_a: Seq<char>, ext_b: Seq<char>, filter: Seq<char>)
    requires
        lower_of(ext_a) == lower_of(ext_b),
    ensures
        ext_matches(ext_a, filter) == ext_matches(ext_b, filter),
{
}

} // verus!
