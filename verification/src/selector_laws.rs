//! What holds of selectors: an explicit path stands for itself and all
//! beneath it, a prefix scopes what is added under it, and merging is the
//! union of what two selectors include.

use vstd::prelude::*;
use crate::file_selector::{
    SelectorView, built, first_ancestor, includes_path, matches_a_glob, merged, pattern_selects,
    selects, under_a_path, with_path, with_subdir,
};
use crate::path::{join, join_paths, normal_parts, normalized};

verus! {

/// A selector includes every path that lies at or under one of its
/// explicit paths.
pub proof fn lemma_includes_what_lies_under(
    v: SelectorView,
    root: Seq<Seq<char>>,
    parts: Seq<Seq<char>>,
)
    requires
        v.files.contains(root),
        root.is_prefix_of(parts),
        first_ancestor(parts) <= root.len(),
    ensures
        selects(v, parts),
{
    assert(parts.take(root.len() as int) =~= root);
}

/// A selector that holds one explicit path and no pattern includes
/// exactly what lies at or under that path.
pub proof fn lemma_one_path_selects_its_tree(
    v: SelectorView,
    root: Seq<Seq<char>>,
    parts: Seq<Seq<char>>,
)
    requires
        v.files == Set::<Seq<Seq<char>>>::empty().insert(root),
        v.globs == Set::<Seq<char>>::empty(),
    ensures
        selects(v, parts) == (root.is_prefix_of(parts) && first_ancestor(parts) <= root.len()),
{
    if root.is_prefix_of(parts) && first_ancestor(parts) <= root.len() {
        lemma_includes_what_lies_under(v, root, parts);
    }
    if selects(v, parts) {
        let k = choose|k: int|
            first_ancestor(parts) <= k <= parts.len() && v.files.contains(#[trigger] parts.take(k));
        assert(parts.take(k) == root);
        assert(root =~= parts.subrange(0, root.len() as int));
    }
}

/// A path added under the prefix `subdir` makes the selector include
/// what lies under the prefix and the path together, and, if nothing
/// else was added, nothing that does not.
pub proof fn lemma_prefix_scopes_paths(
    subdir: Seq<char>,
    path: Seq<char>,
    candidate: Seq<char>,
)
    requires
        normal_parts(subdir) is Some,
        normal_parts(path) is Some,
        normal_parts(candidate) is Some,
    ensures
        ({
            let b = with_subdir(crate::file_selector::empty_builder(), subdir);
            let v = built(with_path(b->Ok_0, path)->Ok_0);
            let root = join_paths(normal_parts(subdir)->0, normal_parts(path)->0);
            let parts = normal_parts(candidate)->0;
            includes_path(v, candidate) == (root.is_prefix_of(parts) && first_ancestor(parts)
                <= root.len())
        }),
{
    let b = with_subdir(crate::file_selector::empty_builder(), subdir);
    let v = built(with_path(b->Ok_0, path)->Ok_0);
    let root = join_paths(normal_parts(subdir)->0, normal_parts(path)->0);
    lemma_one_path_selects_its_tree(v, root, normal_parts(candidate)->0);
}

/// Whether a selector includes a path depends on the normal form of the
/// path alone: a path and its normal form are included alike.
pub proof fn lemma_inclusion_is_by_normal_form(v: SelectorView, path: Seq<char>)
    requires
        normalized(path) is Some,
    ensures
        includes_path(v, normalized(path)->0) == includes_path(v, path),
{
    crate::path_laws::lemma_normal_parts_is_normal(path);
    crate::path_laws::lemma_join_roundtrip(normal_parts(path)->0);
}

/// Merging is a true union: the merged selector includes a path exactly
/// when one of the two selectors does.
pub proof fn lemma_merge_is_union(a: SelectorView, b: SelectorView, parts: Seq<Seq<char>>)
    ensures
        selects(merged(a, b), parts) == (selects(a, parts) || selects(b, parts)),
{
    let m = merged(a, b);
    if under_a_path(m.files, parts) {
        let k = choose|k: int|
            first_ancestor(parts) <= k <= parts.len() && m.files.contains(#[trigger] parts.take(k));
        if a.files.contains(parts.take(k)) {
            assert(under_a_path(a.files, parts));
        } else {
            assert(under_a_path(b.files, parts));
        }
    }
    if matches_a_glob(m.globs, parts) {
        let g = choose|g: Seq<char>|
            m.globs.contains(g) && #[trigger] pattern_selects(g, join(parts));
        if a.globs.contains(g) {
            assert(matches_a_glob(a.globs, parts));
        } else {
            assert(matches_a_glob(b.globs, parts));
        }
    }
    if under_a_path(a.files, parts) {
        let k = choose|k: int|
            first_ancestor(parts) <= k <= parts.len() && a.files.contains(#[trigger] parts.take(k));
        assert(m.files.contains(parts.take(k)));
    }
    if under_a_path(b.files, parts) {
        let k = choose|k: int|
            first_ancestor(parts) <= k <= parts.len() && b.files.contains(#[trigger] parts.take(k));
        assert(m.files.contains(parts.take(k)));
    }
    if matches_a_glob(a.globs, parts) {
        let g = choose|g: Seq<char>|
            a.globs.contains(g) && #[trigger] pattern_selects(g, join(parts));
        assert(m.globs.contains(g));
    }
    if matches_a_glob(b.globs, parts) {
        let g = choose|g: Seq<char>|
            b.globs.contains(g) && #[trigger] pattern_selects(g, join(parts));
        assert(m.globs.contains(g));
    }
}

/// Merging does not depend on which selector is merged into which, nor on
/// how three selectors are grouped.
pub proof fn lemma_merge_commutes_and_associates(a: SelectorView, b: SelectorView, c: SelectorView)
    ensures
        merged(a, b) == merged(b, a),
        merged(merged(a, b), c) == merged(a, merged(b, c)),
{
    assert(a.files.union(b.files) =~= b.files.union(a.files));
    assert(a.globs.union(b.globs) =~= b.globs.union(a.globs));
    assert(a.files.union(b.files).union(c.files) =~= a.files.union(b.files.union(c.files)));
    assert(a.globs.union(b.globs).union(c.globs) =~= a.globs.union(b.globs.union(c.globs)));
}

/// A selector that holds nothing includes nothing.
pub proof fn lemma_empty_selector_includes_nothing(parts: Seq<Seq<char>>)
    ensures
        !selects(built(crate::file_selector::empty_builder()), parts),
{
}

} // verus!
