//! Buildable units found in the tree, and how they are discovered.
//!
//! A directory holds a target of some kind when it holds that kind's
//! manifest file.  One directory may hold targets of several kinds.

use vstd::prelude::*;
use crate::file_selector::EntryKind;
use crate::targets::docker::DockerfileTarget;
use crate::targets::go::GoModTarget;
use crate::targets::rust::RustCargoTarget;
use crate::path::joined_text;
use crate::text::{append_chars, chars_of, string_of, text_views};

pub mod docker;
pub mod go;
pub mod rust;

verus! {

/// The kinds of target, in the order in which a directory is probed for
/// them.
#[derive(Debug, Clone, Copy, PartialEq, Eq)]
pub enum TargetKind {
    DockerImage,
    GoMod,
    RustCrate,
}

/// Which manifest files a directory holds.
#[derive(Debug, Clone, Copy, PartialEq, Eq)]
pub struct Manifests {
    pub dockerfile: bool,
    pub go_mod: bool,
    pub cargo_toml: bool,
}

/// One entry met while walking the tree, with the manifests found in it.
#[derive(Debug)]
pub struct Visited {
    pub path: String,
    pub kind: EntryKind,
    pub manifests: Manifests,
}

/// A target of any kind.
pub enum Discovered {
    Dockerfile(DockerfileTarget),
    GoMod(GoModTarget),
    RustCargo(RustCargoTarget),
}

/// A program to run on behalf of a target.
#[derive(Debug, PartialEq, Eq)]
pub struct CommandLine {
    pub program: String,
    pub args: Vec<String>,
    /// The directory to run in, if not the working directory.
    pub dir: Option<String>,
    /// Variables to set for the program, as names and values.
    pub env: Vec<(String, String)>,
}

/// What a program wrote, as text.
#[derive(Debug, PartialEq, Eq)]
pub struct StringOutput {
    pub stdout: String,
    pub stderr: String,
}

/// A program to run, as texts.
pub ghost struct CommandView {
    pub program: Seq<char>,
    pub args: Seq<Seq<char>>,
    pub dir: Option<Seq<char>>,
    pub env: Seq<(Seq<char>, Seq<char>)>,
}

impl View for CommandLine {
    type V = CommandView;

    open spec fn view(&self) -> CommandView {
        CommandView {
            program: self.program@,
            args: text_views(self.args@),
            dir: match self.dir {
                Some(d) => Some(d@),
                None => None,
            },
            env: self.env@.map_values(|v: (String, String)| (v.0@, v.1@)),
        }
    }
}

/// What identifies a target: its kind and the directory it was found in.
pub ghost struct TargetView {
    pub kind: TargetKind,
    pub path: Seq<char>,
}

impl View for Discovered {
    type V = TargetView;

    open spec fn view(&self) -> TargetView {
        match self {
            Discovered::Dockerfile(t) => TargetView { kind: TargetKind::DockerImage, path: t@ },
            Discovered::GoMod(t) => TargetView { kind: TargetKind::GoMod, path: t@ },
            Discovered::RustCargo(t) => TargetView { kind: TargetKind::RustCrate, path: t@ },
        }
    }
}

/// The suffix that names a kind in a target's address.
pub open spec fn kind_suffix(kind: TargetKind) -> Seq<char> {
    match kind {
        TargetKind::DockerImage => "docker_image"@,
        TargetKind::GoMod => "go_mod"@,
        TargetKind::RustCrate => "rust_crate"@,
    }
}

/// `s` without its first occurrence of `./`.
pub open spec fn without_dot_slash(s: Seq<char>) -> Seq<char>
    decreases s.len(),
{
    if s.len() < 2 {
        s
    } else if s[0] == '.' && s[1] == '/' {
        s.skip(2)
    } else {
        seq![s[0]] + without_dot_slash(s.skip(1))
    }
}

/// The address of the target of kind `suffix` in directory `path`: two
/// slashes, the directory without its first `./`, a colon and the suffix.
pub open spec fn address_of(path: Seq<char>, suffix: Seq<char>) -> Seq<char> {
    seq!['/', '/'] + without_dot_slash(path) + seq![':'] + suffix
}

/// The address of a target.
pub open spec fn address(t: TargetView) -> Seq<char> {
    address_of(t.path, kind_suffix(t.kind))
}

/// The lock files of a target: none for a `Dockerfile`, the `go.sum` of a
/// Go module, and the `Cargo.lock` of a Rust crate if it has one.
pub open spec fn lock_files_of(t: TargetView, lock_exists: bool) -> Seq<Seq<char>> {
    match t.kind {
        TargetKind::DockerImage => Seq::<Seq<char>>::empty(),
        TargetKind::GoMod => seq![joined_text(t.path, "go.sum"@)],
        TargetKind::RustCrate => if lock_exists {
            seq![joined_text(t.path, "Cargo.lock"@)]
        } else {
            Seq::<Seq<char>>::empty()
        },
    }
}

/// The targets that a directory with these manifests holds, in probe order.
pub open spec fn found_in(path: Seq<char>, m: Manifests) -> Seq<TargetView> {
    (if m.dockerfile {
        seq![TargetView { kind: TargetKind::DockerImage, path }]
    } else {
        Seq::<TargetView>::empty()
    }) + (if m.go_mod {
        seq![TargetView { kind: TargetKind::GoMod, path }]
    } else {
        Seq::<TargetView>::empty()
    }) + (if m.cargo_toml {
        seq![TargetView { kind: TargetKind::RustCrate, path }]
    } else {
        Seq::<TargetView>::empty()
    })
}

/// The targets found by a walk: those of each directory, in walk order.
pub open spec fn discovered(walk: Seq<Visited>) -> Seq<TargetView>
    decreases walk.len(),
{
    if walk.len() == 0 {
        Seq::<TargetView>::empty()
    } else {
        let last = walk.last();
        discovered(walk.drop_last()) + (if last.kind == EntryKind::Directory {
            found_in(last.path@, last.manifests)
        } else {
            Seq::<TargetView>::empty()
        })
    }
}

/// What the targets in a vector are.
pub open spec fn target_views(found: Seq<Discovered>) -> Seq<TargetView> {
    found.map_values(|t: Discovered| t@)
}

/// The command line made of these texts.
pub fn command_line(
    program: &str,
    args: Vec<String>,
    dir: Option<String>,
    env: Vec<(String, String)>,
) -> (c: CommandLine)
    ensures
        c.program@ == program@,
        c.args == args,
        c.dir == dir,
        c.env == env,
{
    CommandLine { program: program.to_owned(), args, dir, env }
}

/// What a program that ended wrote: as a success if it succeeded, as a
/// failure if not.
pub fn success_ok(succeeded: bool, stdout: String, stderr: String) -> (r: Result<
    StringOutput,
    StringOutput,
>)
    ensures
        match r {
            Ok(out) => succeeded && out.stdout == stdout && out.stderr == stderr,
            Err(out) => !succeeded && out.stdout == stdout && out.stderr == stderr,
        },
{
    let output = StringOutput { stdout, stderr };
    if succeeded {
        Ok(output)
    } else {
        Err(output)
    }
}

/// Writes the address of the target of kind `suffix` in directory `path`.
pub fn format_address(path: &str, suffix: &str) -> (r: String)
    ensures
        r@ == address_of(path@, suffix@),
{
    let p = chars_of(path);
    let mut out: Vec<char> = Vec::new();
    out.push('/');
    out.push('/');
    let ghost lead = out@;
    let mut i: usize = 0;
    let mut rest_from: usize = 0;
    let mut cut = false;
    assert(p@.skip(0) =~= p@);
    assert(lead + p@.take(0) =~= lead);
    while i < p.len() && !cut
        invariant
            i <= p.len(),
            rest_from <= p.len(),
            !cut ==> out@ == lead + p@.take(i as int),
            !cut ==> without_dot_slash(p@) == p@.take(i as int) + without_dot_slash(
                p@.skip(i as int),
            ),
            cut ==> out@ + p@.skip(rest_from as int) == lead + without_dot_slash(p@),
        decreases p.len() - i + (if cut { 0int } else { 1int }),
    {
        let ghost here = p@.skip(i as int);
        if p.len() - i < 2 {
            // Fewer than two characters are left: they stay as they are.
            rest_from = i;
            cut = true;
            assert(without_dot_slash(here) == here);
            assert(p@.take(i as int) + here =~= p@);
            assert(out@ + here =~= lead + p@);
        } else if p[i] == '.' && p[i + 1] == '/' {
            rest_from = i + 2;
            cut = true;
            assert(here[0] == '.' && here[1] == '/');
            assert(here.skip(2) =~= p@.skip(i as int + 2));
            assert(out@ + p@.skip(rest_from as int) =~= lead + (p@.take(i as int) + here.skip(
                2,
            )));
        } else {
            out.push(p[i]);
            assert(here[0] == p@[i as int] && here[1] == p@[i as int + 1]);
            assert(here.skip(1) =~= p@.skip(i as int + 1));
            assert(p@.take(i as int) + (seq![here[0]] + without_dot_slash(here.skip(1)))
                =~= p@.take(i as int + 1) + without_dot_slash(p@.skip(i as int + 1)));
            assert(out@ =~= lead + p@.take(i as int + 1));
            i += 1;
        }
    }
    if !cut {
        rest_from = p.len();
        assert(p@.skip(i as int) =~= Seq::<char>::empty());
        assert(p@.take(i as int) =~= p@);
        assert(out@ + p@.skip(rest_from as int) =~= lead + without_dot_slash(p@));
    }
    let rest = crate::text::tail_of(&p, rest_from);
    append_chars(&mut out, &rest);
    out.push(':');
    let s = chars_of(suffix);
    append_chars(&mut out, &s);
    assert(out@ =~= address_of(path@, suffix@));
    string_of(&out)
}

impl Discovered {
    /// The kind of the target.
    pub fn kind(&self) -> (kind: TargetKind)
        ensures
            kind == self@.kind,
    {
        match self {
            Discovered::Dockerfile(_) => TargetKind::DockerImage,
            Discovered::GoMod(_) => TargetKind::GoMod,
            Discovered::RustCargo(_) => TargetKind::RustCrate,
        }
    }

    /// The directory of the target.
    pub fn path(&self) -> (p: &str)
        ensures
            p@ == self@.path,
    {
        match self {
            Discovered::Dockerfile(t) => t.path(),
            Discovered::GoMod(t) => t.path(),
            Discovered::RustCargo(t) => t.path(),
        }
    }

    /// The lock files of the target; `lock_exists` says whether a Rust
    /// crate has a `Cargo.lock`.
    pub fn lock_files(&self, lock_exists: bool) -> (files: Vec<String>)
        ensures
            text_views(files@) == lock_files_of(self@, lock_exists),
    {
        match self {
            Discovered::Dockerfile(_) => {
                let files: Vec<String> = Vec::new();
                assert(text_views(files@) =~= Seq::<Seq<char>>::empty());
                files
            },
            Discovered::GoMod(t) => {
                let files = t.lock_files();
                assert(text_views(files@) =~= seq![joined_text(t@, "go.sum"@)]);
                files
            },
            Discovered::RustCargo(t) => {
                let files = t.lock_files(lock_exists);
                if lock_exists {
                    assert(text_views(files@) =~= seq![joined_text(t@, "Cargo.lock"@)]);
                } else {
                    assert(text_views(files@) =~= Seq::<Seq<char>>::empty());
                }
                files
            },
        }
    }

    /// The address of the target.
    pub fn to_string(&self) -> (r: String)
        ensures
            r@ == address(self@),
    {
        match self {
            Discovered::Dockerfile(t) => t.to_string(),
            Discovered::GoMod(t) => t.to_string(),
            Discovered::RustCargo(t) => t.to_string(),
        }
    }
}

/// The targets of a walk of the tree: at every directory, every kind is
/// probed in turn, and what is found is collected in that order.
pub fn targets(walk: &Vec<Visited>) -> (found: Vec<Discovered>)
    ensures
        target_views(found@) == discovered(walk@),
{
    let mut found: Vec<Discovered> = Vec::new();
    let mut i: usize = 0;
    assert(walk@.take(0) =~= Seq::<Visited>::empty());
    assert(target_views(found@) =~= discovered(walk@.take(0)));
    while i < walk.len()
        invariant
            i <= walk.len(),
            target_views(found@) == discovered(walk@.take(i as int)),
        decreases walk.len() - i,
    {
        let entry = &walk[i];
        let ghost before = target_views(found@);
        proof {
            assert(walk@.take(i as int + 1).drop_last() =~= walk@.take(i as int));
            assert(walk@.take(i as int + 1).last() == *entry);
        }
        let is_dir = match entry.kind {
            EntryKind::Directory => true,
            _ => false,
        };
        if is_dir {
            let path = entry.path.as_str();
            let ghost none = Seq::<TargetView>::empty();
            let ghost mut added = none;
            match docker::discover(path, entry.manifests.dockerfile) {
                Some(t) => {
                    found.push(Discovered::Dockerfile(t));
                    proof {
                        added = added.push(TargetView { kind: TargetKind::DockerImage, path: path@ });
                    }
                },
                None => {},
            }
            assert(target_views(found@) =~= before + added);
            assert(added =~= none + added);
            let ghost first = added;
            match go::discover(path, entry.manifests.go_mod) {
                Some(t) => {
                    found.push(Discovered::GoMod(t));
                    proof {
                        added = added.push(TargetView { kind: TargetKind::GoMod, path: path@ });
                    }
                },
                None => {},
            }
            assert(target_views(found@) =~= before + added);
            let ghost second = added;
            match rust::discover(path, entry.manifests.cargo_toml) {
                Some(t) => {
                    found.push(Discovered::RustCargo(t));
                    proof {
                        added = added.push(TargetView { kind: TargetKind::RustCrate, path: path@ });
                    }
                },
                None => {},
            }
            assert(target_views(found@) =~= before + added);
            assert(added =~= found_in(path@, entry.manifests));
        } else {
            assert(before + Seq::<TargetView>::empty() =~= before);
        }
        i += 1;
    }
    assert(walk@.take(i as int) =~= walk@);
    found
}

} // verus!
