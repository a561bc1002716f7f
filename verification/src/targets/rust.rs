//! Targets built from a `Cargo.toml`.

use vstd::prelude::*;
use crate::file_selector::{
    FileSelector, SelectorError, SelectorView, built, empty_builder, merged_with_all,
    selector_views, then_glob, then_path, with_subdir,
};
use crate::path::{join_text, joined_text};
use crate::targets::{
    CommandLine, CommandView, StringOutput, address_of, command_line, format_address,
};
use crate::text::{append_chars, chars_of, string_of, text_views};

verus! {

/// The directory of a Rust crate.
pub struct RustCargoTarget {
    path: String,
}

impl View for RustCargoTarget {
    type V = Seq<char>;

    closed spec fn view(&self) -> Seq<char> {
        self.path@
    }
}

/// The name of the manifest that makes a directory a target of this kind.
pub fn manifest_name() -> (name: &'static str)
    ensures
        name@ == "Cargo.toml"@,
{
    "Cargo.toml"
}

/// The probe for this kind: a target for `path` if the directory holds the
/// manifest, nothing otherwise.
pub fn discover(path: &str, has_manifest: bool) -> (found: Option<RustCargoTarget>)
    ensures
        has_manifest ==> (found matches Some(t) && t@ == path@),
        !has_manifest ==> found is None,
{
    if has_manifest {
        Some(RustCargoTarget::new(path))
    } else {
        None
    }
}

/// An entry of a crate's release directory.
#[derive(Debug, PartialEq, Eq)]
pub struct ReleaseEntry {
    /// The name of the entry in the directory.
    pub file_name: String,
    pub is_dir: bool,
    /// The permission bits of the entry.
    pub mode: u32,
}

/// A file to copy, and where to.
#[derive(Debug, PartialEq, Eq)]
pub struct FileCopy {
    pub from: String,
    pub to: String,
}

/// A file to copy, and where to.
pub ghost struct CopyView {
    pub from: Seq<char>,
    pub to: Seq<char>,
}

impl View for FileCopy {
    type V = CopyView;

    open spec fn view(&self) -> CopyView {
        CopyView { from: self.from@, to: self.to@ }
    }
}

/// What the copies in a vector are.
pub open spec fn copy_views(copies: Seq<FileCopy>) -> Seq<CopyView> {
    copies.map_values(|c: FileCopy| c@)
}

/// Whether an entry of a release directory is a produced executable: a
/// file, not a directory, that its owner may execute.
pub open spec fn is_artifact(entry: ReleaseEntry) -> bool {
    !entry.is_dir && entry.mode & 0o100 != 0
}

/// The copies that put the executables among `entries`, found in `dir`,
/// into `out`, in order.
pub open spec fn artifact_copies(dir: Seq<char>, entries: Seq<ReleaseEntry>, out: Seq<char>) -> Seq<
    CopyView,
>
    decreases entries.len(),
{
    if entries.len() == 0 {
        Seq::<CopyView>::empty()
    } else {
        let before = artifact_copies(dir, entries.drop_last(), out);
        let last = entries.last();
        if is_artifact(last) {
            before.push(
                CopyView {
                    from: joined_text(dir, last.file_name@),
                    to: joined_text(out, last.file_name@),
                },
            )
        } else {
            before
        }
    }
}

/// What a failed `cargo` reports: what it wrote to standard error, a line
/// break, and what it wrote to standard output.
pub open spec fn failure_text(out: StringOutput) -> Seq<char> {
    out.stderr@ + seq!['\n'] + out.stdout@
}

/// What a failed `cargo` reports.
pub fn failure_message(out: &StringOutput) -> (text: String)
    ensures
        text@ == failure_text(*out),
{
    let mut all = chars_of(out.stderr.as_str());
    all.push('\n');
    let rest = chars_of(out.stdout.as_str());
    append_chars(&mut all, &rest);
    string_of(&all)
}

/// Whether a file with these permission bits may be executed by its owner.
pub fn is_executable(mode: u32) -> (b: bool)
    ensures
        b == (mode & 0o100 != 0),
{
    mode & 0o100 != 0
}

/// What the files of the crate in directory `dir` are: its manifest, its
/// lock file, and the Rust sources under `src` and `test`.
pub open spec fn crate_sources(dir: Seq<char>) -> Result<SelectorView, SelectorError> {
    let b = then_glob(
        then_glob(
            then_path(
                then_path(with_subdir(empty_builder(), dir), "Cargo.toml"@),
                "Cargo.lock"@,
            ),
            "src/**/*.rs"@,
        ),
        "test/**/*.rs"@,
    );
    match b {
        Ok(b) => Ok(built(b)),
        Err(e) => Err(e),
    }
}

impl RustCargoTarget {
    /// The target in directory `path`.
    pub fn new(path: &str) -> (t: Self)
        ensures
            t@ == path@,
    {
        Self { path: path.to_owned() }
    }

    /// The directory of the target.
    pub fn path(&self) -> (p: &str)
        ensures
            p@ == self@,
    {
        self.path.as_str()
    }

    /// The address of the target.
    pub fn to_string(&self) -> (r: String)
        ensures
            r@ == address_of(self@, "rust_crate"@),
    {
        format_address(self.path.as_str(), "rust_crate")
    }

    /// The path of the crate's manifest.
    pub fn manifest(&self) -> (r: String)
        ensures
            r@ == joined_text(self@, "Cargo.toml"@),
    {
        join_text(self.path.as_str(), manifest_name())
    }

    /// The crate that this crate names as a dependency at `path`.
    pub fn dependency(&self, path: &str) -> (t: RustCargoTarget)
        ensures
            t@ == joined_text(self@, path@),
    {
        RustCargoTarget { path: join_text(self.path.as_str(), path) }
    }

    /// The `cargo` command with `before`, the crate's manifest, and
    /// `after` as its arguments.
    fn cargo(&self, before: Vec<String>, after: Vec<String>) -> (c: CommandLine)
        ensures
            c@ == (CommandView {
                program: "cargo"@,
                args: text_views(before@) + seq![
                    "--manifest-path"@,
                    joined_text(self@, "Cargo.toml"@),
                ] + text_views(after@),
                dir: None,
                env: Seq::<(Seq<char>, Seq<char>)>::empty(),
            }),
    {
        let ghost head = text_views(before@);
        let ghost tail = text_views(after@);
        let mut args = before;
        let mut after = after;
        args.push("--manifest-path".to_owned());
        args.push(self.manifest());
        assert(text_views(args@) =~= head + seq![
            "--manifest-path"@,
            joined_text(self@, "Cargo.toml"@),
        ]);
        let ghost mid = text_views(args@);
        args.append(&mut after);
        assert(text_views(args@) =~= mid + tail);
        let c = command_line("cargo", args, None, Vec::new());
        assert(c@.env =~= Seq::<(Seq<char>, Seq<char>)>::empty());
        c
    }

    /// The command that tests the crate.
    pub fn test_command(&self) -> (c: CommandLine)
        ensures
            c@ == (CommandView {
                program: "cargo"@,
                args: seq![
                    "test"@,
                    "--manifest-path"@,
                    joined_text(self@, "Cargo.toml"@),
                    "--color=always"@,
                ],
                dir: None,
                env: Seq::<(Seq<char>, Seq<char>)>::empty(),
            }),
    {
        let mut before: Vec<String> = Vec::new();
        before.push("test".to_owned());
        let mut after: Vec<String> = Vec::new();
        after.push("--color=always".to_owned());
        let c = self.cargo(before, after);
        assert(c@.args =~= seq![
            "test"@,
            "--manifest-path"@,
            joined_text(self@, "Cargo.toml"@),
            "--color=always"@,
        ]);
        c
    }

    /// The command that lints the crate; warnings count as errors.
    pub fn lint_command(&self) -> (c: CommandLine)
        ensures
            c@ == (CommandView {
                program: "cargo"@,
                args: seq![
                    "clippy"@,
                    "--manifest-path"@,
                    joined_text(self@, "Cargo.toml"@),
                    "--no-deps"@,
                    "--color=always"@,
                    "--"@,
                    "--deny=warnings"@,
                ],
                dir: None,
                env: Seq::<(Seq<char>, Seq<char>)>::empty(),
            }),
    {
        let mut before: Vec<String> = Vec::new();
        before.push("clippy".to_owned());
        let mut after: Vec<String> = Vec::new();
        after.push("--no-deps".to_owned());
        after.push("--color=always".to_owned());
        after.push("--".to_owned());
        after.push("--deny=warnings".to_owned());
        let c = self.cargo(before, after);
        assert(c@.args =~= seq![
            "clippy"@,
            "--manifest-path"@,
            joined_text(self@, "Cargo.toml"@),
            "--no-deps"@,
            "--color=always"@,
            "--"@,
            "--deny=warnings"@,
        ]);
        c
    }

    /// The command that tells whether the crate is formatted.
    pub fn format_command(&self) -> (c: CommandLine)
        ensures
            c@ == (CommandView {
                program: "cargo"@,
                args: seq![
                    "fmt"@,
                    "--manifest-path"@,
                    joined_text(self@, "Cargo.toml"@),
                    "--check"@,
                ],
                dir: None,
                env: Seq::<(Seq<char>, Seq<char>)>::empty(),
            }),
    {
        let mut before: Vec<String> = Vec::new();
        before.push("fmt".to_owned());
        let mut after: Vec<String> = Vec::new();
        after.push("--check".to_owned());
        let c = self.cargo(before, after);
        assert(c@.args =~= seq![
            "fmt"@,
            "--manifest-path"@,
            joined_text(self@, "Cargo.toml"@),
            "--check"@,
        ]);
        c
    }

    /// The command that builds the crate for release.
    pub fn build_command(&self) -> (c: CommandLine)
        ensures
            c@ == (CommandView {
                program: "cargo"@,
                args: seq![
                    "build"@,
                    "--release"@,
                    "--manifest-path"@,
                    joined_text(self@, "Cargo.toml"@),
                    "--color=always"@,
                ],
                dir: None,
                env: Seq::<(Seq<char>, Seq<char>)>::empty(),
            }),
    {
        let mut before: Vec<String> = Vec::new();
        before.push("build".to_owned());
        before.push("--release".to_owned());
        let mut after: Vec<String> = Vec::new();
        after.push("--color=always".to_owned());
        let c = self.cargo(before, after);
        assert(c@.args =~= seq![
            "build"@,
            "--release"@,
            "--manifest-path"@,
            joined_text(self@, "Cargo.toml"@),
            "--color=always"@,
        ]);
        c
    }

    /// The directory in which a release build leaves what it produces.
    pub fn release_dir(&self) -> (dir: String)
        ensures
            dir@ == joined_text(self@, "target/release"@),
    {
        join_text(self.path.as_str(), "target/release")
    }

    /// The copies that put the executables of a release build, found
    /// among the entries of the release directory, into `out`.
    pub fn artifacts(&self, entries: &Vec<ReleaseEntry>, out: &str) -> (copies: Vec<FileCopy>)
        ensures
            copy_views(copies@) == artifact_copies(
                joined_text(self@, "target/release"@),
                entries@,
                out@,
            ),
    {
        let dir = self.release_dir();
        let mut copies: Vec<FileCopy> = Vec::new();
        let mut i: usize = 0;
        assert(entries@.take(0) =~= Seq::<ReleaseEntry>::empty());
        assert(copy_views(copies@) =~= artifact_copies(dir@, entries@.take(0), out@));
        while i < entries.len()
            invariant
                i <= entries.len(),
                dir@ == joined_text(self@, "target/release"@),
                copy_views(copies@) == artifact_copies(dir@, entries@.take(i as int), out@),
            decreases entries.len() - i,
        {
            let entry = &entries[i];
            let ghost upto = entries@.take(i as int + 1);
            assert(upto.drop_last() =~= entries@.take(i as int));
            assert(upto.last() == *entry);
            if !entry.is_dir && is_executable(entry.mode) {
                let ghost held = copy_views(copies@);
                let copy = FileCopy {
                    from: join_text(dir.as_str(), entry.file_name.as_str()),
                    to: join_text(out, entry.file_name.as_str()),
                };
                let ghost made = copy@;
                copies.push(copy);
                assert(copy_views(copies@) =~= held.push(made));
            }
            i += 1;
        }
        assert(entries@.take(i as int) =~= entries@);
        copies
    }

    /// The crate's own files, without those of its dependencies.
    pub fn direct_sources(&self) -> (r: Result<FileSelector, SelectorError>)
        ensures
            match r {
                Ok(s) => crate_sources(self@) == Ok::<SelectorView, SelectorError>(s@),
                Err(e) => crate_sources(self@) == Err::<SelectorView, SelectorError>(e),
            },
    {
        let b = match FileSelector::builder().set_subdir(self.path.as_str()) {
            Ok(b) => b,
            Err(e) => {
                return Err(e);
            },
        };
        let b = match b.path("Cargo.toml") {
            Ok(b) => b,
            Err(e) => {
                return Err(e);
            },
        };
        let b = match b.path("Cargo.lock") {
            Ok(b) => b,
            Err(e) => {
                return Err(e);
            },
        };
        let b = match b.glob("src/**/*.rs") {
            Ok(b) => b,
            Err(e) => {
                return Err(e);
            },
        };
        let b = match b.glob("test/**/*.rs") {
            Ok(b) => b,
            Err(e) => {
                return Err(e);
            },
        };
        Ok(b.build())
    }

    /// The files whose content decides whether an action on the crate has
    /// to run again: the crate's own, and those of the crates it depends on
    /// by path, given as `dependencies`.
    pub fn src_files(&self, dependencies: Vec<FileSelector>) -> (r: Result<
        Option<FileSelector>,
        SelectorError,
    >)
        ensures
            match r {
                Ok(Some(s)) => crate_sources(self@) matches Ok(own) && s@ == merged_with_all(
                    own,
                    selector_views(dependencies@),
                ),
                Ok(None) => false,
                Err(e) => crate_sources(self@) == Err::<SelectorView, SelectorError>(e),
            },
    {
        match self.direct_sources() {
            Ok(own) => {
                let mut all = own;
                all.merge_all(dependencies);
                Ok(Some(all))
            },
            Err(e) => Err(e),
        }
    }

    /// The directories that may be purged to reclaim space: the crate's
    /// `target` directory.
    pub fn cache_paths(&self) -> (dirs: Vec<String>)
        ensures
            dirs@.len() == 1,
            dirs@[0]@ == joined_text(self@, "target"@),
    {
        let mut dirs: Vec<String> = Vec::new();
        dirs.push(join_text(self.path.as_str(), "target"));
        dirs
    }

    /// The lock files of the target: its `Cargo.lock`, if there is one.
    pub fn lock_files(&self, lock_exists: bool) -> (files: Vec<String>)
        ensures
            lock_exists ==> files@.len() == 1 && files@[0]@ == joined_text(self@, "Cargo.lock"@),
            !lock_exists ==> files@.len() == 0,
    {
        let mut files: Vec<String> = Vec::new();
        if lock_exists {
            files.push(join_text(self.path.as_str(), "Cargo.lock"));
        }
        files
    }
}

} // verus!
