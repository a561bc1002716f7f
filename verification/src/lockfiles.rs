//! The hash of the lock files of all targets.

use vstd::prelude::*;
use crate::hash_files::{SourceFile, file_views, files_digest, hash_files};
use crate::targets::{Discovered, lock_files_of, target_views, TargetView};
use crate::text::text_views;

verus! {

/// Whether the target at index `i` has the lock file that `exists` tells
/// of; a target that `exists` does not reach has none.
pub open spec fn has_lock(exists: Seq<bool>, i: int) -> bool {
    0 <= i < exists.len() && exists[i]
}

/// The lock files of the first `n` targets, in order.
pub open spec fn lock_files_upto(targets: Seq<TargetView>, exists: Seq<bool>, n: nat) -> Seq<
    Seq<char>,
>
    decreases n,
{
    if n == 0 {
        Seq::<Seq<char>>::empty()
    } else {
        lock_files_upto(targets, exists, (n - 1) as nat) + lock_files_of(
            targets[n - 1],
            has_lock(exists, n - 1),
        )
    }
}

/// The lock files of all targets, in order; `exists[i]` says whether the
/// Rust crate at index `i` has a `Cargo.lock`.
pub fn lock_files(targets: &Vec<Discovered>, exists: &Vec<bool>) -> (files: Vec<String>)
    ensures
        text_views(files@) == lock_files_upto(target_views(targets@), exists@, targets.len() as nat),
{
    let ghost views = target_views(targets@);
    let mut files: Vec<String> = Vec::new();
    let mut i: usize = 0;
    assert(text_views(files@) =~= lock_files_upto(views, exists@, 0));
    while i < targets.len()
        invariant
            i <= targets.len(),
            views == target_views(targets@),
            text_views(files@) == lock_files_upto(views, exists@, i as nat),
        decreases targets.len() - i,
    {
        let there = i < exists.len() && exists[i];
        let mut more = targets[i].lock_files(there);
        let ghost held = text_views(files@);
        let ghost added = text_views(more@);
        files.append(&mut more);
        assert(text_views(files@) =~= held + added);
        i += 1;
    }
    files
}

/// The content hash of the lock files, given with what they hold.
pub fn hash(files: &Vec<SourceFile>) -> (digest: Vec<u8>)
    ensures
        digest@ == files_digest(file_views(files@)),
        digest@.len() == 32,
{
    hash_files(files)
}

} // verus!
