//! Targets built from a `Dockerfile`.

use vstd::prelude::*;
use crate::file_selector::{
    BuilderView, FileSelector, FileSelectorBuilder, SelectorError, SelectorView, built,
    empty_builder, with_path,
};
use crate::path::{join_text, joined_text};
use crate::targets::{CommandLine, CommandView, address_of, command_line, format_address};
use crate::text::{
    append_chars, chars_of, keep_nonempty, lines_of, nonempty_of, rows, split_chars, split_on,
    starts_with, string_of, tail_of, text_views, trimmed_lines,
};

verus! {

/// The directory of a `Dockerfile`.
pub struct DockerfileTarget {
    path: String,
}

impl View for DockerfileTarget {
    type V = Seq<char>;

    closed spec fn view(&self) -> Seq<char> {
        self.path@
    }
}

/// The name of the manifest that makes a directory a target of this kind.
pub fn manifest_name() -> (name: &'static str)
    ensures
        name@ == "Dockerfile"@,
{
    "Dockerfile"
}

/// The probe for this kind: a target for `path` if the directory holds the
/// manifest, nothing otherwise.
pub fn discover(path: &str, has_manifest: bool) -> (found: Option<DockerfileTarget>)
    ensures
        has_manifest ==> (found matches Some(t) && t@ == path@),
        !has_manifest ==> found is None,
{
    if has_manifest {
        Some(DockerfileTarget::new(path))
    } else {
        None
    }
}

/// Why the files of a `Dockerfile` target could not be told.
#[derive(Debug, Clone, Copy, PartialEq, Eq)]
pub enum SourcesError {
    /// A path could not be added to the selector.
    Selector(SelectorError),
    /// A `COPY` or `ADD` instruction names nothing.
    CopyWithoutArguments,
}

/// The words after `COPY ` or `ADD ` if `line`, already trimmed, begins
/// with one of them: the pieces between spaces that are not empty.
pub open spec fn instruction_args(line: Seq<char>) -> Option<Seq<Seq<char>>> {
    if "COPY "@.is_prefix_of(line) {
        Some(nonempty_of(split_on(line.skip("COPY "@.len() as int), ' ')))
    } else if "ADD "@.is_prefix_of(line) {
        Some(nonempty_of(split_on(line.skip("ADD "@.len() as int), ' ')))
    } else {
        None
    }
}

/// The builder after `path` is added, unless an earlier step failed.
pub open spec fn add_source(r: Result<BuilderView, SourcesError>, path: Seq<char>) -> Result<
    BuilderView,
    SourcesError,
> {
    match r {
        Ok(b) => match with_path(b, path) {
            Ok(next) => Ok(next),
            Err(e) => Err(SourcesError::Selector(e)),
        },
        Err(e) => Err(e),
    }
}

/// The builder after each of `paths` is added in turn.
pub open spec fn add_sources(r: Result<BuilderView, SourcesError>, paths: Seq<Seq<char>>) -> Result<
    BuilderView,
    SourcesError,
>
    decreases paths.len(),
{
    if paths.len() == 0 {
        r
    } else {
        add_source(add_sources(r, paths.drop_last()), paths.last())
    }
}

/// The builder after one line: a `COPY` or `ADD` instruction adds every
/// word but its last, the destination; any other line adds nothing.
pub open spec fn scan_line(r: Result<BuilderView, SourcesError>, line: Seq<char>) -> Result<
    BuilderView,
    SourcesError,
> {
    match r {
        Ok(b) => match instruction_args(line) {
            None => Ok(b),
            Some(args) => if args.len() == 0 {
                Err(SourcesError::CopyWithoutArguments)
            } else {
                add_sources(Ok(b), args.drop_last())
            },
        },
        Err(e) => Err(e),
    }
}

/// The builder after each of `lines` in turn.
pub open spec fn scan_lines(r: Result<BuilderView, SourcesError>, lines: Seq<Seq<char>>) -> Result<
    BuilderView,
    SourcesError,
>
    decreases lines.len(),
{
    if lines.len() == 0 {
        r
    } else {
        scan_line(scan_lines(r, lines.drop_last()), lines.last())
    }
}

/// The files of the `Dockerfile` target in directory `dir` whose
/// `Dockerfile` reads `contents`: the `Dockerfile` itself and what its
/// `COPY` and `ADD` instructions copy.
pub open spec fn dockerfile_sources(dir: Seq<char>, contents: Seq<char>) -> Result<
    SelectorView,
    SourcesError,
> {
    let start = add_source(Ok(empty_builder()), joined_text(dir, "Dockerfile"@));
    match scan_lines(start, trimmed_lines(contents)) {
        Ok(b) => Ok(built(b)),
        Err(e) => Err(e),
    }
}

/// What a builder or an error stands for.
pub open spec fn progress(state: Result<FileSelectorBuilder, SourcesError>) -> Result<
    BuilderView,
    SourcesError,
> {
    match state {
        Ok(b) => Ok(b@),
        Err(e) => Err(e),
    }
}

/// Adds one path to the builder, unless an earlier step failed.
fn push_source(state: Result<FileSelectorBuilder, SourcesError>, path: &str) -> (r: Result<
    FileSelectorBuilder,
    SourcesError,
>)
    ensures
        progress(r) == add_source(progress(state), path@),
{
    match state {
        Ok(b) => match b.path(path) {
            Ok(next) => Ok(next),
            Err(e) => Err(SourcesError::Selector(e)),
        },
        Err(e) => Err(e),
    }
}

/// Adds every word of `args` but the last to the builder.
fn push_sources(state: Result<FileSelectorBuilder, SourcesError>, args: &Vec<Vec<char>>) -> (r:
    Result<FileSelectorBuilder, SourcesError>)
    requires
        args.len() > 0,
    ensures
        progress(r) == add_sources(progress(state), rows(args@).drop_last()),
{
    let ghost start = progress(state);
    let ghost paths = rows(args@).drop_last();
    let mut state = state;
    let mut i: usize = 0;
    let n = args.len() - 1;
    assert(paths.take(0) =~= Seq::<Seq<char>>::empty());
    while i < n
        invariant
            i <= n,
            n + 1 == args.len(),
            paths == rows(args@).drop_last(),
            progress(state) == add_sources(start, paths.take(i as int)),
        decreases n - i,
    {
        let ghost upto = paths.take(i as int + 1);
        assert(upto.drop_last() =~= paths.take(i as int));
        assert(upto.last() == args@[i as int]@);
        let word = string_of(&args[i]);
        state = push_source(state, word.as_str());
        i += 1;
    }
    assert(paths.take(i as int) =~= paths);
    state
}

/// Applies one trimmed line of a `Dockerfile` to the builder.
fn push_line(state: Result<FileSelectorBuilder, SourcesError>, line: &Vec<char>) -> (r: Result<
    FileSelectorBuilder,
    SourcesError,
>)
    ensures
        progress(r) == scan_line(progress(state), line@),
{
    let copy = chars_of("COPY ");
    let add = chars_of("ADD ");
    let rest = if starts_with(line, &copy) {
        tail_of(line, copy.len())
    } else if starts_with(line, &add) {
        tail_of(line, add.len())
    } else {
        return state;
    };
    let args = keep_nonempty(split_chars(&rest, ' '));
    match state {
        Ok(b) => {
            if args.len() == 0 {
                Err(SourcesError::CopyWithoutArguments)
            } else {
                push_sources(Ok(b), &args)
            }
        },
        Err(e) => Err(e),
    }
}

impl DockerfileTarget {
    /// The target in directory `path`.
    pub fn new(path: &str) -> (t: Self)
        ensures
            t@ == path@,
    {
        Self { path: path.to_owned() }
    }

    /// The directory of the target.
    pub fn path(&self) -> (p: &str)
        ensures
            p@ == self@,
    {
        self.path.as_str()
    }

    /// The address of the target.
    pub fn to_string(&self) -> (r: String)
        ensures
            r@ == address_of(self@, "docker_image"@),
    {
        format_address(self.path.as_str(), "docker_image")
    }

    /// The files whose content decides whether an action on the target has
    /// to run again, given what the target's `Dockerfile` reads.
    pub fn src_files(&self, dockerfile_contents: &str) -> (r: Result<
        Option<FileSelector>,
        SourcesError,
    >)
        ensures
            match r {
                Ok(Some(s)) => dockerfile_sources(self@, dockerfile_contents@) == Ok::<
                    SelectorView,
                    SourcesError,
                >(s@),
                Ok(None) => false,
                Err(e) => dockerfile_sources(self@, dockerfile_contents@) == Err::<
                    SelectorView,
                    SourcesError,
                >(e),
            },
    {
        let dockerfile = self.dockerfile();
        let mut state = push_source(Ok(FileSelector::builder()), dockerfile.as_str());
        let ghost start = progress(state);
        let lines = lines_of(dockerfile_contents);
        let ghost all = rows(lines@);
        let mut i: usize = 0;
        assert(all.take(0) =~= Seq::<Seq<char>>::empty());
        while i < lines.len()
            invariant
                i <= lines.len(),
                all == rows(lines@),
                progress(state) == scan_lines(start, all.take(i as int)),
            decreases lines.len() - i,
        {
            let ghost upto = all.take(i as int + 1);
            assert(upto.drop_last() =~= all.take(i as int));
            assert(upto.last() == lines@[i as int]@);
            state = push_line(state, &lines[i]);
            i += 1;
        }
        assert(all.take(i as int) =~= all);
        match state {
            Ok(b) => Ok(Some(b.build())),
            Err(e) => Err(e),
        }
    }

    /// The command that tests the target: it builds the image from the
    /// target's `Dockerfile`, in the working directory.
    pub fn test_command(&self) -> (c: CommandLine)
        ensures
            c@ == (CommandView {
                program: "docker"@,
                args: seq!["build"@, "--file="@ + joined_text(self@, "Dockerfile"@), "."@],
                dir: None,
                env: Seq::<(Seq<char>, Seq<char>)>::empty(),
            }),
    {
        let mut file = chars_of("--file=");
        let dockerfile = self.dockerfile();
        let path = chars_of(dockerfile.as_str());
        append_chars(&mut file, &path);
        let mut args: Vec<String> = Vec::new();
        args.push("build".to_owned());
        args.push(string_of(&file));
        args.push(".".to_owned());
        let c = command_line("docker", args, None, Vec::new());
        assert(c@.args =~= seq!["build"@, "--file="@ + joined_text(self@, "Dockerfile"@), "."@]);
        assert(c@.env =~= Seq::<(Seq<char>, Seq<char>)>::empty());
        c
    }

    /// The path of the target's `Dockerfile`.
    pub fn dockerfile(&self) -> (r: String)
        ensures
            r@ == joined_text(self@, "Dockerfile"@),
    {
        join_text(self.path.as_str(), manifest_name())
    }
}

} // verus!
