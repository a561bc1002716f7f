//! A declarative set of included paths: explicit files and directories,
//! and shell-style patterns.

use vstd::prelude::*;
use vstd::seq_lib::group_seq_properties;
use crate::path::{
    NormalPath, PathError, is_rooted, join, join_paths, join_text, joined_text, normal_parts,
};
use crate::pattern::{check_pattern, glob_compiles, glob_matches, pattern_matches};
use crate::text::text_views;

verus! {

/// Why a path or a pattern was not added to a selector.
#[derive(Debug, Clone, Copy, PartialEq, Eq)]
pub enum SelectorError {
    /// The path has a `..` with no component before it to remove.
    EscapesRoot,
    /// The pattern is malformed.
    InvalidGlob,
}

/// Why a selector could not be resolved to files.
#[derive(Debug, Clone, Copy, PartialEq, Eq)]
pub enum ListError {
    /// No file of the tree is included.
    NoFiles,
    /// The path of a file has a `..` with no component before it to
    /// remove.
    EscapesRoot,
}

/// What kind of entry a walk of the tree met.
#[derive(Debug, Clone, Copy, PartialEq, Eq)]
pub enum EntryKind {
    File,
    Directory,
    Other,
}

/// One entry met while walking the tree.
#[derive(Debug)]
pub struct TreeEntry {
    pub path: String,
    pub kind: EntryKind,
}

/// What a selector includes: the explicit paths and the pattern texts.
pub ghost struct SelectorView {
    pub files: Set<Seq<Seq<char>>>,
    pub globs: Set<Seq<char>>,
}

/// What a builder holds: the prefix for what is added next, and what was
/// added so far.
pub ghost struct BuilderView {
    pub subdir: Seq<Seq<char>>,
    pub files: Set<Seq<Seq<char>>>,
    pub globs: Set<Seq<char>>,
}

/// The component sequences of the paths in a vector.
pub open spec fn path_views(files: Seq<NormalPath>) -> Seq<Seq<Seq<char>>> {
    files.map_values(|p: NormalPath| p@)
}

/// The shortest prefix of a path that counts as one of its ancestors: the
/// empty path for a relative path, the root for a rooted one.
pub open spec fn first_ancestor(parts: Seq<Seq<char>>) -> int {
    if is_rooted(parts) {
        1
    } else {
        0
    }
}

/// Whether the path or one of its ancestors is among `files`.
pub open spec fn under_a_path(files: Set<Seq<Seq<char>>>, parts: Seq<Seq<char>>) -> bool {
    exists|k: int|
        first_ancestor(parts) <= k <= parts.len() && files.contains(#[trigger] parts.take(k))
}

/// Whether `pattern` matches `text` the way a selector matches: without
/// regard to ASCII case, and with wildcards that never match a separator.
pub open spec fn pattern_selects(pattern: Seq<char>, text: Seq<char>) -> bool {
    glob_compiles(pattern) && glob_matches(pattern, text, false, true, false)
}

/// Whether one of `globs` matches the path written as a string.
pub open spec fn matches_a_glob(globs: Set<Seq<char>>, parts: Seq<Seq<char>>) -> bool {
    exists|g: Seq<char>| globs.contains(g) && #[trigger] pattern_selects(g, join(parts))
}

/// Whether the selector includes the path with these normalised components.
pub open spec fn selects(v: SelectorView, parts: Seq<Seq<char>>) -> bool {
    under_a_path(v.files, parts) || matches_a_glob(v.globs, parts)
}

/// Whether the selector includes `path`; a path that escapes its root is
/// never included.
pub open spec fn includes_path(v: SelectorView, path: Seq<char>) -> bool {
    match normal_parts(path) {
        Some(parts) => selects(v, parts),
        None => false,
    }
}

/// The pattern text compiled for `pattern` under the prefix `subdir`: the
/// pattern itself if it is rooted or the prefix is empty, else the prefix,
/// a separator and the pattern.
pub open spec fn prefixed_pattern(subdir: Seq<Seq<char>>, pattern: Seq<char>) -> Seq<char> {
    joined_text(join(subdir), pattern)
}

/// A builder that holds nothing, with an empty prefix.
pub open spec fn empty_builder() -> BuilderView {
    BuilderView {
        subdir: Seq::<Seq<char>>::empty(),
        files: Set::<Seq<Seq<char>>>::empty(),
        globs: Set::<Seq<char>>::empty(),
    }
}

/// The builder after `path` is added: its normal form, placed under the
/// prefix, joins the explicit paths.
pub open spec fn with_path(b: BuilderView, path: Seq<char>) -> Result<BuilderView, SelectorError> {
    match normal_parts(path) {
        Some(parts) => Ok(BuilderView { files: b.files.insert(join_paths(b.subdir, parts)), ..b }),
        None => Err(SelectorError::EscapesRoot),
    }
}

/// The builder after `pattern` is added: written under the prefix, it
/// joins the patterns if it compiles.
pub open spec fn with_glob(b: BuilderView, pattern: Seq<char>) -> Result<
    BuilderView,
    SelectorError,
> {
    let text = prefixed_pattern(b.subdir, pattern);
    if glob_compiles(text) {
        Ok(BuilderView { globs: b.globs.insert(text), ..b })
    } else {
        Err(SelectorError::InvalidGlob)
    }
}

/// The builder after its prefix is set to the normal form of `path`; what
/// it holds already is untouched.
pub open spec fn with_subdir(b: BuilderView, path: Seq<char>) -> Result<
    BuilderView,
    SelectorError,
> {
    match normal_parts(path) {
        Some(parts) => Ok(BuilderView { subdir: parts, ..b }),
        None => Err(SelectorError::EscapesRoot),
    }
}

/// The selector that a builder yields.
pub open spec fn built(b: BuilderView) -> SelectorView {
    SelectorView { files: b.files, globs: b.globs }
}

/// The selector that includes what either of two selectors includes.
pub open spec fn merged(a: SelectorView, b: SelectorView) -> SelectorView {
    SelectorView { files: a.files.union(b.files), globs: a.globs.union(b.globs) }
}

/// The explicit paths of any of the selectors `vs`.
pub open spec fn all_files(vs: Seq<SelectorView>) -> Set<Seq<Seq<char>>> {
    Set::new(
        |p: Seq<Seq<char>>| exists|i: int| 0 <= i < vs.len() && (#[trigger] vs[i]).files.contains(p),
    )
}

/// The patterns of any of the selectors `vs`.
pub open spec fn all_globs(vs: Seq<SelectorView>) -> Set<Seq<char>> {
    Set::new(|g: Seq<char>| exists|i: int| 0 <= i < vs.len() && (#[trigger] vs[i]).globs.contains(g))
}

/// The selector that includes what `first` or any of `vs` includes.
pub open spec fn merged_with_all(first: SelectorView, vs: Seq<SelectorView>) -> SelectorView {
    SelectorView {
        files: first.files.union(all_files(vs)),
        globs: first.globs.union(all_globs(vs)),
    }
}

/// What the selectors in a vector include.
pub open spec fn selector_views(selectors: Seq<FileSelector>) -> Seq<SelectorView> {
    selectors.map_values(|s: FileSelector| s@)
}

/// `with_path`, unless an earlier step failed.
pub open spec fn then_path(r: Result<BuilderView, SelectorError>, path: Seq<char>) -> Result<
    BuilderView,
    SelectorError,
> {
    match r {
        Ok(b) => with_path(b, path),
        Err(e) => Err(e),
    }
}

/// `with_glob`, unless an earlier step failed.
pub open spec fn then_glob(r: Result<BuilderView, SelectorError>, pattern: Seq<char>) -> Result<
    BuilderView,
    SelectorError,
> {
    match r {
        Ok(b) => with_glob(b, pattern),
        Err(e) => Err(e),
    }
}

/// What a builder method returned, as a view.
pub open spec fn outcome(r: Result<FileSelectorBuilder, SelectorError>) -> Result<
    BuilderView,
    SelectorError,
> {
    match r {
        Ok(b) => Ok(b@),
        Err(e) => Err(e),
    }
}

/// Whether an entry is a regular file that the selector includes.
pub open spec fn is_listed(v: SelectorView, entry: TreeEntry) -> bool {
    entry.kind == EntryKind::File && includes_path(v, entry.path@)
}

/// The entries of a walk that the selector lists, in the order of the walk.
pub open spec fn listed(v: SelectorView, entries: Seq<TreeEntry>) -> Seq<TreeEntry> {
    entries.filter(listing(v))
}

/// The test that `listed` applies to each entry.
pub open spec fn listing(v: SelectorView) -> spec_fn(TreeEntry) -> bool {
    |e: TreeEntry| is_listed(v, e)
}

/// Whether the path of some regular file among the entries escapes its
/// root.
pub open spec fn some_file_escapes(entries: Seq<TreeEntry>) -> bool {
    exists|i: int|
        0 <= i < entries.len() && (#[trigger] entries[i]).kind == EntryKind::File && normal_parts(
            entries[i].path@,
        ) is None
}

/// The paths of a sequence of entries.
pub open spec fn entry_paths(entries: Seq<TreeEntry>) -> Seq<Seq<char>> {
    entries.map_values(|e: TreeEntry| e.path@)
}

/// Whether `p`, cut to its first `k` components, is one of `files`.
fn holds_prefix(files: &Vec<NormalPath>, p: &NormalPath, k: usize) -> (b: bool)
    requires
        k <= p@.len(),
    ensures
        b == path_views(files@).to_set().contains(p@.take(k as int)),
{
    let ghost target = p@.take(k as int);
    let mut j: usize = 0;
    while j < files.len()
        invariant
            j <= files.len(),
            k <= p@.len(),
            target == p@.take(k as int),
            forall|m: int| 0 <= m < j ==> path_views(files@)[m] != target,
        decreases files.len() - j,
    {
        if p.prefix_is(k, &files[j]) {
            assert(path_views(files@)[j as int] == target);
            assert(path_views(files@).contains(target));
            return true;
        }
        j += 1;
    }
    assert(!path_views(files@).contains(target));
    false
}

/// Adds `p` to `files` unless it is there already.
fn insert_path(files: &mut Vec<NormalPath>, p: NormalPath)
    requires
        path_views(old(files)@).no_duplicates(),
    ensures
        path_views(final(files)@).no_duplicates(),
        path_views(final(files)@).to_set() == path_views(old(files)@).to_set().insert(p@),
{
    broadcast use group_seq_properties;

    let ghost before = path_views(files@);
    let n = p.len();
    assert(p@.take(n as int) =~= p@);
    if holds_prefix(files, &p, n) {
        assert(before.to_set().insert(p@) =~= before.to_set());
    } else {
        files.push(p);
        assert(path_views(files@) =~= before.push(p@));
        assert(before.push(p@).to_set() =~= before.to_set().insert(p@));
    }
}

/// Adds `text` to `globs`.
fn insert_glob(globs: &mut Vec<String>, text: String)
    ensures
        text_views(final(globs)@).to_set() == text_views(old(globs)@).to_set().insert(text@),
{
    broadcast use group_seq_properties;

    let ghost before = text_views(globs@);
    let ghost t = text@;
    globs.push(text);
    assert(text_views(globs@) =~= before.push(t));
    assert(before.push(t).to_set() =~= before.to_set().insert(t));
}

/// A set of included paths, queried with `includes`.
pub struct FileSelector {
    files: Vec<NormalPath>,
    globs: Vec<String>,
}

impl View for FileSelector {
    type V = SelectorView;

    closed spec fn view(&self) -> SelectorView {
        SelectorView {
            files: path_views(self.files@).to_set(),
            globs: text_views(self.globs@).to_set(),
        }
    }
}

impl FileSelector {
    /// No explicit path is held twice.
    #[verifier::type_invariant]
    spec fn distinct(self) -> bool {
        path_views(self.files@).no_duplicates()
    }

    /// A builder that holds nothing yet, with an empty prefix.
    pub fn builder() -> (b: FileSelectorBuilder)
        ensures
            b@ == empty_builder(),
    {
        let b = FileSelectorBuilder {
            subdir: NormalPath::empty(),
            files: Vec::new(),
            globs: Vec::new(),
        };
        assert(path_views(b.files@).to_set() =~= Set::<Seq<Seq<char>>>::empty());
        assert(text_views(b.globs@).to_set() =~= Set::<Seq<char>>::empty());
        b
    }

    /// Whether the selector includes the path `p`.
    fn covers(&self, p: &NormalPath) -> (b: bool)
        ensures
            b == selects(self@, p@),
    {
        let n = p.len();
        let mut k: usize = if p.is_rooted() {
            1
        } else {
            0
        };
        while k < n
            invariant
                n == p@.len(),
                first_ancestor(p@) <= k <= n,
                forall|m: int|
                    first_ancestor(p@) <= m < k ==> !self@.files.contains(#[trigger] p@.take(m)),
            decreases n - k,
        {
            if holds_prefix(&self.files, &p, k) {
                assert(self@.files.contains(p@.take(k as int)));
                return true;
            }
            k += 1;
        }
        if holds_prefix(&self.files, &p, n) {
            assert(self@.files.contains(p@.take(n as int)));
            return true;
        }
        assert(!under_a_path(self@.files, p@));
        let text = p.to_string();
        let mut j: usize = 0;
        while j < self.globs.len()
            invariant
                j <= self.globs.len(),
                text@ == join(p@),
                forall|m: int|
                    0 <= m < j ==> !pattern_selects(#[trigger] text_views(self.globs@)[m], text@),
            decreases self.globs.len() - j,
        {
            if pattern_matches(self.globs[j].as_str(), text.as_str(), false, true, false) {
                let ghost g = self.globs@[j as int]@;
                assert(text_views(self.globs@)[j as int] == g);
                assert(text_views(self.globs@).contains(g));
                assert(self@.globs.contains(g));
                assert(pattern_selects(g, join(p@)));
                return true;
            }
            j += 1;
        }
        assert(!matches_a_glob(self@.globs, p@)) by {
            if matches_a_glob(self@.globs, p@) {
                let g = choose|g: Seq<char>|
                    self@.globs.contains(g) && #[trigger] pattern_selects(g, join(p@));
                assert(text_views(self.globs@).contains(g));
            }
        }
        false
    }

    /// Whether the selector includes `path`: the path or one of its
    /// ancestors was added explicitly, or a pattern matches its normal form.
    ///
    /// The path must not escape its root.
    pub fn includes(&self, path: &str) -> (b: bool)
        requires
            normal_parts(path@) is Some,
        ensures
            b == includes_path(self@, path@),
    {
        match NormalPath::parse(path) {
            Ok(p) => self.covers(&p),
            Err(_) => false,
        }
    }

    /// Whether the selector includes `path`, or that `path` escapes its
    /// root.
    pub fn try_includes(&self, path: &str) -> (r: Result<bool, PathError>)
        ensures
            match r {
                Ok(b) => normal_parts(path@) is Some && b == includes_path(self@, path@),
                Err(e) => normal_parts(path@) is None,
            },
    {
        match NormalPath::parse(path) {
            Ok(p) => Ok(self.covers(&p)),
            Err(e) => Err(e),
        }
    }

    /// The regular files among `entries` that the selector includes, in
    /// the order of the walk.
    ///
    /// Fails with `ListError::EscapesRoot` if the path of a regular file
    /// escapes its root, and with `ListError::NoFiles` if no file is
    /// included.
    pub fn list(&self, entries: &Vec<TreeEntry>) -> (r: Result<Vec<String>, ListError>)
        ensures
            match r {
                Ok(found) => !some_file_escapes(entries@) && found.len() > 0 && text_views(found@)
                    == entry_paths(listed(self@, entries@)),
                Err(ListError::EscapesRoot) => some_file_escapes(entries@),
                Err(ListError::NoFiles) => !some_file_escapes(entries@) && listed(
                    self@,
                    entries@,
                ).len() == 0,
            },
    {
        broadcast use group_seq_properties;

        let mut found: Vec<String> = Vec::new();
        let mut i: usize = 0;
        assert(entries@.take(0) =~= Seq::<TreeEntry>::empty());
        assert(text_views(found@) =~= entry_paths(listed(self@, entries@.take(0))));
        while i < entries.len()
            invariant
                i <= entries.len(),
                forall|k: int|
                    0 <= k < i && (#[trigger] entries[k]).kind == EntryKind::File ==> normal_parts(
                        entries[k].path@,
                    ) is Some,
                text_views(found@) == entry_paths(listed(self@, entries@.take(i as int))),
            decreases entries.len() - i,
        {
            let entry = &entries[i];
            let ghost before = entries@.take(i as int);
            let ghost pred = listing(self@);
            assert(entries@.take(i as int + 1) =~= before.push(*entry));
            proof {
                before.lemma_filter_push(*entry, pred);
            }
            let is_file = match entry.kind {
                EntryKind::File => true,
                _ => false,
            };
            if is_file {
                match self.try_includes(entry.path.as_str()) {
                    Ok(true) => {
                        let ghost kept = text_views(found@);
                        found.push(entry.path.clone());
                        assert(pred(*entry));
                        assert(text_views(found@) =~= kept.push(entry.path@));
                        assert(entry_paths(before.filter(pred).push(*entry)) =~= entry_paths(
                            before.filter(pred),
                        ).push(entry.path@));
                    },
                    Ok(false) => {
                        assert(!pred(*entry));
                    },
                    Err(_) => {
                        assert(entries[i as int].kind == EntryKind::File);
                        return Err(ListError::EscapesRoot);
                    },
                }
            } else {
                assert(!pred(*entry));
            }
            i += 1;
        }
        assert(entries@.take(i as int) =~= entries@);
        if found.len() == 0 {
            return Err(ListError::NoFiles);
        }
        Ok(found)
    }

    /// Adds everything `other` includes: afterwards the selector includes a
    /// path exactly when it or `other` did before.
    pub fn merge(&mut self, other: FileSelector)
        ensures
            final(self)@ == merged(old(self)@, other@),
    {
        broadcast use group_seq_properties;

        proof {
            use_type_invariant(&*self);
            use_type_invariant(&other);
        }
        let ghost all_files = self@.files.union(other@.files);
        let ghost all_globs = self@.globs.union(other@.globs);
        let FileSelector { files, globs } = other;
        let mut theirs = files;
        let mut mine: Vec<NormalPath> = Vec::new();
        std::mem::swap(&mut self.files, &mut mine);
        while theirs.len() > 0
            invariant
                path_views(mine@).no_duplicates(),
                path_views(mine@).to_set().union(path_views(theirs@).to_set()) == all_files,
            decreases theirs.len(),
        {
            let ghost rest = path_views(theirs@);
            let ghost held = path_views(mine@).to_set();
            let p = theirs.pop().unwrap();
            assert(rest =~= path_views(theirs@).push(p@));
            proof {
                path_views(theirs@).lemma_push_to_set_commute(p@);
            }
            insert_path(&mut mine, p);
            assert(held.insert(p@).union(path_views(theirs@).to_set()) =~= held.union(
                rest.to_set(),
            ));
        }
        assert(path_views(theirs@).to_set() =~= Set::<Seq<Seq<char>>>::empty());
        assert(path_views(mine@).to_set() =~= all_files);
        self.files = mine;

        let mut their_globs = globs;
        let mut my_globs: Vec<String> = Vec::new();
        std::mem::swap(&mut self.globs, &mut my_globs);
        while their_globs.len() > 0
            invariant
                text_views(my_globs@).to_set().union(text_views(their_globs@).to_set())
                    == all_globs,
            decreases their_globs.len(),
        {
            let ghost rest = text_views(their_globs@);
            let ghost held = text_views(my_globs@).to_set();
            let g = their_globs.pop().unwrap();
            assert(rest =~= text_views(their_globs@).push(g@));
            proof {
                text_views(their_globs@).lemma_push_to_set_commute(g@);
            }
            insert_glob(&mut my_globs, g);
            assert(held.insert(g@).union(text_views(their_globs@).to_set()) =~= held.union(
                rest.to_set(),
            ));
        }
        assert(text_views(their_globs@).to_set() =~= Set::<Seq<char>>::empty());
        assert(text_views(my_globs@).to_set() =~= all_globs);
        self.globs = my_globs;
    }
}

impl FileSelector {
    /// Adds everything that any of `others` includes.
    pub fn merge_all(&mut self, others: Vec<FileSelector>)
        ensures
            final(self)@ == merged_with_all(old(self)@, selector_views(others@)),
    {
        let ghost all = selector_views(others@);
        let ghost first = self@;
        let mut rest = others;
        assert(selector_views(rest@.take(rest.len() as int)) =~= all);
        assert(all.skip(all.len() as int) =~= Seq::<SelectorView>::empty());
        assert(self@.files =~= first.files.union(all_files(all.skip(all.len() as int))));
        assert(self@.globs =~= first.globs.union(all_globs(all.skip(all.len() as int))));
        while rest.len() > 0
            invariant
                rest.len() <= all.len(),
                selector_views(rest@) == all.take(rest.len() as int),
                self@.files == first.files.union(all_files(all.skip(rest.len() as int))),
                self@.globs == first.globs.union(all_globs(all.skip(rest.len() as int))),
            decreases rest.len(),
        {
            let ghost n = rest.len() as int;
            let ghost held = self@;
            let ghost before = selector_views(rest@);
            let other = rest.pop().unwrap();
            assert(other@ == before[n - 1]);
            assert(other@ == all[n - 1]);
            assert(selector_views(rest@) =~= all.take(n - 1));
            self.merge(other);
            let ghost tail = all.skip(n);
            let ghost more = all.skip(n - 1);
            assert(more[0] == all[n - 1]);
            assert forall|p: Seq<Seq<char>>| all_files(more).contains(p) == (all[n - 1].files.contains(
                p,
            ) || all_files(tail).contains(p)) by {
                if all_files(tail).contains(p) {
                    let i = choose|i: int| 0 <= i < tail.len() && (#[trigger] tail[i]).files.contains(p);
                    assert(more[i + 1] == tail[i]);
                }
                if all_files(more).contains(p) {
                    let i = choose|i: int| 0 <= i < more.len() && (#[trigger] more[i]).files.contains(p);
                    if i > 0 {
                        assert(tail[i - 1] == more[i]);
                    }
                }
            }
            assert forall|g: Seq<char>| all_globs(more).contains(g) == (all[n - 1].globs.contains(
                g,
            ) || all_globs(tail).contains(g)) by {
                if all_globs(tail).contains(g) {
                    let i = choose|i: int| 0 <= i < tail.len() && (#[trigger] tail[i]).globs.contains(g);
                    assert(more[i + 1] == tail[i]);
                }
                if all_globs(more).contains(g) {
                    let i = choose|i: int| 0 <= i < more.len() && (#[trigger] more[i]).globs.contains(g);
                    if i > 0 {
                        assert(tail[i - 1] == more[i]);
                    }
                }
            }
            assert(self@.files =~= first.files.union(all_files(more)));
            assert(self@.globs =~= first.globs.union(all_globs(more)));
        }
        assert(all.skip(0) =~= all);
    }
}

/// Collects what a selector will hold.
pub struct FileSelectorBuilder {
    subdir: NormalPath,
    files: Vec<NormalPath>,
    globs: Vec<String>,
}

impl View for FileSelectorBuilder {
    type V = BuilderView;

    closed spec fn view(&self) -> BuilderView {
        BuilderView {
            subdir: self.subdir@,
            files: path_views(self.files@).to_set(),
            globs: text_views(self.globs@).to_set(),
        }
    }
}

impl FileSelectorBuilder {
    /// No explicit path is held twice.
    #[verifier::type_invariant]
    spec fn distinct(self) -> bool {
        path_views(self.files@).no_duplicates()
    }

    /// Adds the normal form of `path`, placed under the current prefix.
    ///
    /// The selector then includes that path and everything beneath it.
    pub fn path(self, path: &str) -> (r: Result<FileSelectorBuilder, SelectorError>)
        ensures
            outcome(r) == with_path(self@, path@),
    {
        proof {
            use_type_invariant(&self);
        }
        let FileSelectorBuilder { subdir, files, globs } = self;
        let mut files = files;
        match NormalPath::parse(path) {
            Ok(p) => {
                let full = subdir.join(&p);
                insert_path(&mut files, full);
                Ok(FileSelectorBuilder { subdir, files, globs })
            },
            Err(_) => Err(SelectorError::EscapesRoot),
        }
    }

    /// Adds `pattern`, written under the current prefix, if it compiles.
    ///
    /// The pattern text itself is not normalised.
    pub fn glob(self, pattern: &str) -> (r: Result<FileSelectorBuilder, SelectorError>)
        ensures
            outcome(r) == with_glob(self@, pattern@),
    {
        proof {
            use_type_invariant(&self);
        }
        let FileSelectorBuilder { subdir, files, globs } = self;
        let mut globs = globs;
        let head = subdir.to_string();
        let text = join_text(head.as_str(), pattern);
        match check_pattern(text.as_str()) {
            Ok(_) => {
                insert_glob(&mut globs, text);
                Ok(FileSelectorBuilder { subdir, files, globs })
            },
            Err(_) => Err(SelectorError::InvalidGlob),
        }
    }

    /// Sets the prefix for what is added from now on to the normal form of
    /// `path`; what was added before stays as it is.
    pub fn set_subdir(self, path: &str) -> (r: Result<FileSelectorBuilder, SelectorError>)
        ensures
            outcome(r) == with_subdir(self@, path@),
    {
        proof {
            use_type_invariant(&self);
        }
        let FileSelectorBuilder { subdir, files, globs } = self;
        match NormalPath::parse(path) {
            Ok(p) => Ok(FileSelectorBuilder { subdir: p, files, globs }),
            Err(_) => Err(SelectorError::EscapesRoot),
        }
    }

    /// The selector that includes what was added.
    pub fn build(self) -> (s: FileSelector)
        ensures
            s@ == built(self@),
    {
        proof {
            use_type_invariant(&self);
        }
        FileSelector { files: self.files, globs: self.globs }
    }
}

} // verus!
