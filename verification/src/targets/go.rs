//! Targets built from a `go.mod`.

use vstd::prelude::*;
use crate::path::{join_text, joined_text};
use crate::targets::{CommandLine, CommandView, address_of, command_line, format_address};
use crate::text::{
    append_chars, chars_of, keep_nonempty, lines_of, nonempty_of, rows, string_of, text_views,
    trimmed_lines,
};

verus! {

/// The directory of a Go module.
pub struct GoModTarget {
    path: String,
}

impl View for GoModTarget {
    type V = Seq<char>;

    closed spec fn view(&self) -> Seq<char> {
        self.path@
    }
}

/// The name of the manifest that makes a directory a target of this kind.
pub fn manifest_name() -> (name: &'static str)
    ensures
        name@ == "go.mod"@,
{
    "go.mod"
}

/// The probe for this kind: a target for `path` if the directory holds the
/// manifest, nothing otherwise.
pub fn discover(path: &str, has_manifest: bool) -> (found: Option<GoModTarget>)
    ensures
        has_manifest ==> (found matches Some(t) && t@ == path@),
        !has_manifest ==> found is None,
{
    if has_manifest {
        Some(GoModTarget::new(path))
    } else {
        None
    }
}

/// The build cache directory: `gocache` if it is set, else `.cache/go-build`
/// under `home`, or under `/` if that is not set either.
pub open spec fn cache_dir_of(gocache: Option<String>, home: Option<String>) -> Seq<char> {
    match gocache {
        Some(dir) => dir@,
        None => joined_text(
            match home {
                Some(h) => h@,
                None => "/"@,
            },
            ".cache/go-build"@,
        ),
    }
}

/// The lines, each indented by four spaces, with a line break between
/// neighbours.
pub open spec fn indented(lines: Seq<Seq<char>>) -> Seq<char>
    decreases lines.len(),
{
    if lines.len() == 0 {
        Seq::<char>::empty()
    } else if lines.len() == 1 {
        "    "@ + lines[0]
    } else {
        indented(lines.drop_last()) + seq!['\n'] + "    "@ + lines.last()
    }
}

/// What the formatter's output reports: nothing if it names no file, else
/// a message that lists the files it modified.
pub open spec fn format_failure(stdout: Seq<char>) -> Option<Seq<char>> {
    let modified = nonempty_of(trimmed_lines(stdout));
    if modified.len() == 0 {
        None
    } else {
        Some("go fmt modified files:\n"@ + indented(modified))
    }
}

/// Reads the output of `go fmt`, which names the files it rewrote: success
/// if it names none, else the message that lists them.
pub fn format_report(stdout: &str) -> (r: Result<(), String>)
    ensures
        match r {
            Ok(_) => format_failure(stdout@) is None,
            Err(msg) => format_failure(stdout@) == Some(msg@),
        },
{
    let modified = keep_nonempty(lines_of(stdout));
    if modified.len() == 0 {
        return Ok(());
    }
    let pad = chars_of("    ");
    let mut out: Vec<char> = Vec::new();
    let ghost lines = rows(modified@);
    let mut i: usize = 0;
    assert(lines.take(0) =~= Seq::<Seq<char>>::empty());
    while i < modified.len()
        invariant
            i <= modified.len(),
            lines == rows(modified@),
            pad@ == "    "@,
            out@ == indented(lines.take(i as int)),
        decreases modified.len() - i,
    {
        let ghost upto = lines.take(i as int + 1);
        assert(upto.drop_last() =~= lines.take(i as int));
        assert(upto.last() == modified@[i as int]@);
        assert(upto[0] == lines[0]);
        if i > 0 {
            out.push('\n');
        }
        let ghost head = out@;
        append_chars(&mut out, &pad);
        append_chars(&mut out, &modified[i]);
        assert(out@ =~= head + "    "@ + modified@[i as int]@);
        assert(i == 0 ==> head =~= Seq::<char>::empty());
        assert(i == 0 ==> out@ =~= "    "@ + upto[0]);
        assert(i > 0 ==> out@ =~= indented(upto.drop_last()) + seq!['\n'] + "    "@ + upto.last());
        i += 1;
    }
    assert(lines.take(i as int) =~= lines);
    let mut msg = chars_of("go fmt modified files:\n");
    append_chars(&mut msg, &out);
    Err(string_of(&msg))
}

impl GoModTarget {
    /// The target in directory `path`.
    pub fn new(path: &str) -> (t: Self)
        ensures
            t@ == path@,
    {
        Self { path: path.to_owned() }
    }

    /// The directory of the target.
    pub fn path(&self) -> (p: &str)
        ensures
            p@ == self@,
    {
        self.path.as_str()
    }

    /// The address of the target.
    pub fn to_string(&self) -> (r: String)
        ensures
            r@ == address_of(self@, "go_mod"@),
    {
        format_address(self.path.as_str(), "go_mod")
    }

    /// The build cache directory, given the values of the variables
    /// `GOCACHE` and `HOME`.
    pub fn cache_dir(&self, gocache: Option<String>, home: Option<String>) -> (dir: String)
        ensures
            dir@ == cache_dir_of(gocache, home),
    {
        match gocache {
            Some(dir) => dir,
            None => {
                match home {
                    Some(h) => join_text(h.as_str(), ".cache/go-build"),
                    None => join_text("/", ".cache/go-build"),
                }
            },
        }
    }

    /// The command that tests the module, with the given build cache
    /// directory.
    pub fn test_command(&self, cache_dir: &str) -> (c: CommandLine)
        ensures
            c@ == (CommandView {
                program: "go"@,
                args: seq!["test"@],
                dir: Some(self@),
                env: seq![("GOCACHE"@, cache_dir@)],
            }),
    {
        let mut args: Vec<String> = Vec::new();
        args.push("test".to_owned());
        let mut env: Vec<(String, String)> = Vec::new();
        env.push(("GOCACHE".to_owned(), cache_dir.to_owned()));
        let c = command_line("go", args, Some(self.path.clone()), env);
        assert(c@.args =~= seq!["test"@]);
        assert(c@.env =~= seq![("GOCACHE"@, cache_dir@)]);
        c
    }

    /// The command that lints the module.
    pub fn lint_command(&self) -> (c: CommandLine)
        ensures
            c@ == (CommandView {
                program: "golangci-lint"@,
                args: seq!["--verbose"@],
                dir: Some(self@),
                env: Seq::<(Seq<char>, Seq<char>)>::empty(),
            }),
    {
        let mut args: Vec<String> = Vec::new();
        args.push("--verbose".to_owned());
        let c = command_line("golangci-lint", args, Some(self.path.clone()), Vec::new());
        assert(c@.args =~= seq!["--verbose"@]);
        assert(c@.env =~= Seq::<(Seq<char>, Seq<char>)>::empty());
        c
    }

    /// The command that formats the module; what it writes is read by
    /// `format_report`.
    pub fn format_command(&self) -> (c: CommandLine)
        ensures
            c@ == (CommandView {
                program: "go"@,
                args: seq!["fmt"@],
                dir: Some(self@),
                env: Seq::<(Seq<char>, Seq<char>)>::empty(),
            }),
    {
        let mut args: Vec<String> = Vec::new();
        args.push("fmt".to_owned());
        let c = command_line("go", args, Some(self.path.clone()), Vec::new());
        assert(c@.args =~= seq!["fmt"@]);
        assert(c@.env =~= Seq::<(Seq<char>, Seq<char>)>::empty());
        c
    }

    /// The command that builds the module into the directory `out`, taken
    /// from the working directory `working_dir`, with the given build
    /// cache directory.
    pub fn build_command(&self, working_dir: &str, out: &str, cache_dir: &str) -> (c: CommandLine)
        ensures
            c@ == (CommandView {
                program: "go"@,
                args: seq!["build"@, "-o"@, joined_text(working_dir@, out@)],
                dir: Some(self@),
                env: seq![("GOCACHE"@, cache_dir@)],
            }),
    {
        let mut args: Vec<String> = Vec::new();
        args.push("build".to_owned());
        args.push("-o".to_owned());
        args.push(join_text(working_dir, out));
        let mut env: Vec<(String, String)> = Vec::new();
        env.push(("GOCACHE".to_owned(), cache_dir.to_owned()));
        let c = command_line("go", args, Some(self.path.clone()), env);
        assert(c@.args =~= seq!["build"@, "-o"@, joined_text(working_dir@, out@)]);
        assert(c@.env =~= seq![("GOCACHE"@, cache_dir@)]);
        c
    }

    /// The directories that may be purged to reclaim space: the build
    /// cache directory.
    pub fn cache_paths(&self, gocache: Option<String>, home: Option<String>) -> (dirs: Vec<String>)
        ensures
            dirs@.len() == 1,
            dirs@[0]@ == cache_dir_of(gocache, home),
    {
        let mut dirs: Vec<String> = Vec::new();
        dirs.push(self.cache_dir(gocache, home));
        dirs
    }

    /// The lock files of the target: its `go.sum`.
    pub fn lock_files(&self) -> (files: Vec<String>)
        ensures
            files@.len() == 1,
            files@[0]@ == joined_text(self@, "go.sum"@),
    {
        let mut files: Vec<String> = Vec::new();
        files.push(join_text(self.path.as_str(), "go.sum"));
        files
    }
}

} // verus!
