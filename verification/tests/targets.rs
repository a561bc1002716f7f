use gentle::file_selector::EntryKind;
use gentle::hash_files::{hash_files, SourceFile};
use gentle::lockfiles;
use gentle::targets::docker::DockerfileTarget;
use gentle::targets::go::GoModTarget;
use gentle::targets::rust::{failure_message, FileCopy, ReleaseEntry, RustCargoTarget};
use gentle::targets::{
    format_address, success_ok, targets, Manifests, StringOutput, TargetKind, Visited,
};

fn visited(path: &str, kind: EntryKind, dockerfile: bool, go_mod: bool, cargo_toml: bool) -> Visited {
    Visited {
        path: String::from(path),
        kind,
        manifests: Manifests { dockerfile, go_mod, cargo_toml },
    }
}

#[test]
fn addresses_name_directory_and_kind() {
    assert_eq!(DockerfileTarget::new("./services/api").to_string(), "//services/api:docker_image");
    assert_eq!(GoModTarget::new("./b").to_string(), "//b:go_mod");
    assert_eq!(RustCargoTarget::new("./a").to_string(), "//a:rust_crate");
    assert_eq!(RustCargoTarget::new("./").to_string(), "//:rust_crate");
    assert_eq!(RustCargoTarget::new("plain").to_string(), "//plain:rust_crate");
}

#[test]
fn address_drops_first_dot_slash_only() {
    assert_eq!(format_address("./a/./b", "k"), "//a/./b:k");
    assert_eq!(format_address("a./b", "k"), "//ab:k");
    assert_eq!(format_address(".", "k"), "//.:k");
    assert_eq!(format_address("", "k"), "//:k");
    assert_eq!(format_address("a/.", "k"), "//a/.:k");
}

#[test]
fn new_keeps_path() {
    assert_eq!(DockerfileTarget::new("./x").path(), "./x");
    assert_eq!(GoModTarget::new("./y").path(), "./y");
    assert_eq!(RustCargoTarget::new("./z").path(), "./z");
}

#[test]
fn discovery_probes_each_directory_in_order() {
    let walk = vec![
        visited("./", EntryKind::Directory, false, false, false),
        visited("./a", EntryKind::Directory, true, false, true),
        visited("./a/Cargo.toml", EntryKind::File, true, true, true),
        visited("./b", EntryKind::Directory, false, true, false),
        visited("./c", EntryKind::Other, true, true, true),
    ];
    let found: Vec<String> = targets(&walk).iter().map(|t| t.to_string()).collect();

    assert_eq!(found, vec!["//a:docker_image", "//a:rust_crate", "//b:go_mod"]);
}

#[test]
fn discovery_of_nothing_is_empty() {
    assert_eq!(targets(&Vec::new()).len(), 0);
    let walk = vec![visited("./", EntryKind::Directory, false, false, false)];
    assert_eq!(targets(&walk).len(), 0);
}

#[test]
fn one_directory_may_hold_every_kind() {
    let walk = vec![visited("./all", EntryKind::Directory, true, true, true)];
    let found: Vec<String> = targets(&walk).iter().map(|t| t.to_string()).collect();

    assert_eq!(found, vec!["//all:docker_image", "//all:go_mod", "//all:rust_crate"]);
}

#[test]
fn go_cache_dir_prefers_gocache() {
    let t = GoModTarget::new("./m");
    assert_eq!(t.cache_dir(Some(String::from("/tmp/gc")), Some(String::from("/home/u"))), "/tmp/gc");
    assert_eq!(t.cache_dir(None, Some(String::from("/home/u"))), "/home/u/.cache/go-build");
    assert_eq!(t.cache_dir(None, None), "/.cache/go-build");
    assert_eq!(t.cache_paths(None, None), vec![String::from("/.cache/go-build")]);
}

#[test]
fn lock_files_sit_beside_manifests() {
    assert_eq!(GoModTarget::new("./m").lock_files(), vec![String::from("./m/go.sum")]);
    assert_eq!(RustCargoTarget::new("./c").lock_files(true), vec![String::from("./c/Cargo.lock")]);
    assert_eq!(RustCargoTarget::new("./c").lock_files(false), Vec::<String>::new());
    assert_eq!(RustCargoTarget::new("./c").cache_paths(), vec![String::from("./c/target")]);
}

#[test]
fn rust_dependency_is_relative_to_crate() {
    let t = RustCargoTarget::new("./a");
    assert_eq!(t.dependency("../shared").path(), "./a/../shared");
    assert_eq!(t.dependency("/abs").path(), "/abs");
    assert_eq!(t.manifest(), "./a/Cargo.toml");
    assert_eq!(DockerfileTarget::new("./").dockerfile(), "./Dockerfile");
}

fn texts(items: &[&str]) -> Vec<String> {
    items.iter().map(|s| String::from(*s)).collect()
}

#[test]
fn docker_test_builds_from_the_dockerfile() {
    let line = DockerfileTarget::new("./svc").test_command();

    assert_eq!(line.program, "docker");
    assert_eq!(line.args, texts(&["build", "--file=./svc/Dockerfile", "."]));
    assert_eq!(line.dir, None);
    assert!(line.env.is_empty());
}

#[test]
fn go_commands_run_in_the_module() {
    let target = GoModTarget::new("./m");
    let cache = (String::from("GOCACHE"), String::from("/c"));

    let test = target.test_command("/c");
    assert_eq!((test.program.as_str(), test.args), ("go", texts(&["test"])));
    assert_eq!(test.dir, Some(String::from("./m")));
    assert_eq!(test.env, vec![cache.clone()]);

    let lint = target.lint_command();
    assert_eq!((lint.program.as_str(), lint.args), ("golangci-lint", texts(&["--verbose"])));
    assert_eq!(lint.dir, Some(String::from("./m")));
    assert!(lint.env.is_empty());

    let format = target.format_command();
    assert_eq!((format.program.as_str(), format.args), ("go", texts(&["fmt"])));

    let build = target.build_command("/work", "gentle/out", "/c");
    assert_eq!(build.args, texts(&["build", "-o", "/work/gentle/out"]));
    assert_eq!(build.env, vec![cache]);
    assert_eq!(target.build_command("/work", "/abs/out", "/c").args[2], "/abs/out");
}

#[test]
fn cargo_commands_name_the_manifest() {
    let target = RustCargoTarget::new("./a");

    let test = target.test_command();
    assert_eq!(test.program, "cargo");
    assert_eq!(test.args, texts(&["test", "--manifest-path", "./a/Cargo.toml", "--color=always"]));
    assert_eq!(test.dir, None);
    assert_eq!(
        target.lint_command().args,
        texts(&[
            "clippy",
            "--manifest-path",
            "./a/Cargo.toml",
            "--no-deps",
            "--color=always",
            "--",
            "--deny=warnings"
        ])
    );
    assert_eq!(
        target.format_command().args,
        texts(&["fmt", "--manifest-path", "./a/Cargo.toml", "--check"])
    );
    assert_eq!(
        target.build_command().args,
        texts(&["build", "--release", "--manifest-path", "./a/Cargo.toml", "--color=always"])
    );
}

#[test]
fn release_build_copies_executables_only() {
    let target = RustCargoTarget::new("./a");
    let entry = |name: &str, is_dir: bool, mode: u32| ReleaseEntry {
        file_name: String::from(name),
        is_dir,
        mode,
    };
    let entries = vec![
        entry("deps", true, 0o755),
        entry("tool", false, 0o755),
        entry("tool.d", false, 0o644),
        entry("other", false, 0o100),
        entry("group-only", false, 0o010),
    ];

    assert_eq!(target.release_dir(), "./a/target/release");
    assert_eq!(
        target.artifacts(&entries, "gentle/out"),
        vec![
            FileCopy {
                from: String::from("./a/target/release/tool"),
                to: String::from("gentle/out/tool"),
            },
            FileCopy {
                from: String::from("./a/target/release/other"),
                to: String::from("gentle/out/other"),
            },
        ]
    );
    assert_eq!(target.artifacts(&Vec::new(), "out"), Vec::new());
}

#[test]
fn program_output_is_success_or_failure() {
    let out = |o: &str, e: &str| StringOutput { stdout: String::from(o), stderr: String::from(e) };

    assert_eq!(success_ok(true, String::from("o"), String::from("e")), Ok(out("o", "e")));
    assert_eq!(success_ok(false, String::from("o"), String::from("e")), Err(out("o", "e")));
    assert_eq!(failure_message(&out("made 3 files", "error: x")), "error: x\nmade 3 files");
}

#[test]
fn discovered_targets_tell_kind_path_and_lock_files() {
    let walk = vec![visited("./all", EntryKind::Directory, true, true, true)];
    let found = targets(&walk);

    assert_eq!(found[0].kind(), TargetKind::DockerImage);
    assert_eq!(found[1].kind(), TargetKind::GoMod);
    assert_eq!(found[2].kind(), TargetKind::RustCrate);
    assert_eq!(found[2].path(), "./all");
    assert_eq!(found[0].lock_files(true), Vec::<String>::new());
    assert_eq!(found[1].lock_files(false), vec![String::from("./all/go.sum")]);
    assert_eq!(found[2].lock_files(true), vec![String::from("./all/Cargo.lock")]);
    assert_eq!(found[2].lock_files(false), Vec::<String>::new());
}

#[test]
fn lock_files_of_all_targets_are_collected_and_hashed() {
    let walk = vec![
        visited("./a", EntryKind::Directory, false, false, true),
        visited("./b", EntryKind::Directory, true, true, false),
        visited("./c", EntryKind::Directory, false, false, true),
    ];
    let found = targets(&walk);

    assert_eq!(
        lockfiles::lock_files(&found, &vec![true, false, false, false]),
        vec![String::from("./a/Cargo.lock"), String::from("./b/go.sum")]
    );
    assert_eq!(
        lockfiles::lock_files(&found, &vec![true]),
        vec![String::from("./a/Cargo.lock"), String::from("./b/go.sum")]
    );
    assert_eq!(
        lockfiles::lock_files(&found, &vec![false, true, true, true]),
        vec![String::from("./b/go.sum"), String::from("./c/Cargo.lock")]
    );

    let files = vec![
        SourceFile { path: String::from("./b/go.sum"), contents: b"sum".to_vec() },
        SourceFile { path: String::from("./a/Cargo.lock"), contents: b"lock".to_vec() },
    ];
    assert_eq!(lockfiles::hash(&files), hash_files(&files));
    assert_eq!(lockfiles::hash(&files), blake3::hash(b"locksum").as_bytes().to_vec());
}
