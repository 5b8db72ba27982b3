//! Resolving the input path into the archives a run will process: a
//! directory contributes its immediate `.zip` files, a regular file
//! contributes itself, and anything else halts the run.

use crate::entry::{basename_of, extension_of};
use crate::errors::ExtractError;
use crate::text::{eq_ignore_ascii_case, has_char, strs_equal_ignore_ascii_case, suffix_after_last};
use vstd::prelude::*;

verus! {

/// Whether a path names a ZIP archive: its final segment carries an
/// extension equal to `zip` up to ASCII case.
pub open spec fn is_zip_path(path: Seq<char>) -> bool {
    has_char(basename_of(path), '.') && eq_ignore_ascii_case(extension_of(path), "zip"@)
}

/// Whether `path` names a ZIP archive.
pub fn is_zip_path_str(path: &str) -> (r: bool)
    ensures
        r == is_zip_path(path@),
{
    let segment = suffix_after_last(path, '/').1;
    let (has_dot, ext) = suffix_after_last(segment, '.');
    has_dot && strs_equal_ignore_ascii_case(ext, "zip")
}

/// One immediate entry of the input directory, as the caller saw it on
/// disk: its path, and whether it is a regular file.
pub struct DirEntry {
    pub path: String,
    pub is_regular_file: bool,
}

impl View for DirEntry {
    type V = (Seq<char>, bool);

    open spec fn view(&self) -> (Seq<char>, bool) {
        (self.path@, self.is_regular_file)
    }
}

/// The views of a directory listing.
pub open spec fn listing_view(s: Seq<DirEntry>) -> Seq<(Seq<char>, bool)> {
    s.map_values(|d: DirEntry| d@)
}

/// The paths of a listing that name ZIP archives and are regular files, in
/// listing order.
pub open spec fn zip_selection(listing: Seq<(Seq<char>, bool)>) -> Seq<Seq<char>>
    decreases listing.len(),
{
    if listing.len() == 0 {
        Seq::empty()
    } else {
        let front = zip_selection(listing.drop_last());
        if listing.last().1 && is_zip_path(listing.last().0) {
            front.push(listing.last().0)
        } else {
            front
        }
    }
}

/// Select from a directory listing the regular files whose paths name ZIP
/// archives, in listing order.
pub fn select_zip_paths(listing: &Vec<DirEntry>) -> (r: Vec<String>)
    ensures
        r.deep_view() == zip_selection(listing_view(listing@)),
{
    let ghost lv = listing_view(listing@);
    let mut picked: Vec<String> = Vec::new();
    let mut i: usize = 0;
    proof {
        assert(picked.deep_view() =~= zip_selection(lv.take(0)));
    }
    while i < listing.len()
        invariant
            0 <= i <= listing@.len(),
            lv == listing_view(listing@),
            lv.len() == listing@.len(),
            picked.deep_view() == zip_selection(lv.take(i as int)),
        decreases listing@.len() - i,
    {
        let ghost picked_old = picked.deep_view();
        let entry = &listing[i];
        if entry.is_regular_file && is_zip_path_str(entry.path.as_str()) {
            picked.push(entry.path.clone());
            proof {
                assert(picked.deep_view() =~= picked_old.push(lv[i as int].0));
            }
        }
        proof {
            assert(lv.take(i as int + 1).drop_last() =~= lv.take(i as int));
            assert(lv.take(i as int + 1).last() == lv[i as int]);
        }
        i = i + 1;
    }
    proof {
        assert(lv.take(listing@.len() as int) =~= lv);
    }
    picked
}

/// How the input path stands on disk, as the caller found it.
#[derive(Clone, Copy)]
pub enum InputStatus {
    Directory,
    RegularFile,
    Absent,
}

/// Resolve the input into archive paths: a directory contributes the ZIP
/// files of its listing, a regular file contributes itself whatever its
/// extension, and an absent path is rejected.
pub fn resolve_input(status: InputStatus, input_path: &str, listing: &Vec<DirEntry>) -> (r: Result<
    Vec<String>,
    ExtractError,
>)
    ensures
        status is Directory ==> (r matches Ok(v) && v.deep_view() == zip_selection(
            listing_view(listing@),
        )),
        status is RegularFile ==> (r matches Ok(v) && v.deep_view() == seq![input_path@]),
        status is Absent ==> (r matches Err(e) && e is PathInvalid),
{
    match status {
        InputStatus::Directory => Ok(select_zip_paths(listing)),
        InputStatus::RegularFile => {
            let mut single: Vec<String> = Vec::new();
            single.push(input_path.to_owned());
            proof {
                assert(single.deep_view() =~= seq![input_path@]);
            }
            Ok(single)
        },
        InputStatus::Absent => Err(ExtractError::PathInvalid),
    }
}

} // verus!
