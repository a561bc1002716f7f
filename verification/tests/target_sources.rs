use gentle::file_selector::{FileSelector, SelectorError};
use gentle::targets::docker::{DockerfileTarget, SourcesError};
use gentle::targets::go::format_report;
use gentle::targets::rust::RustCargoTarget;

#[test]
fn docker_sources_are_dockerfile_and_copied_paths() {
    let target = DockerfileTarget::new("./svc");
    let contents = "FROM rust:1\n  COPY  src  Cargo.toml   /app/\nRUN cargo build\nADD assets /srv\n";
    let selector = target.src_files(contents).unwrap().unwrap();

    assert_eq!(selector.includes("svc/Dockerfile"), true);
    assert_eq!(selector.includes("src/main.rs"), true);
    assert_eq!(selector.includes("Cargo.toml"), true);
    assert_eq!(selector.includes("assets/logo.png"), true);
    assert_eq!(selector.includes("app"), false);
    assert_eq!(selector.includes("srv"), false);
    assert_eq!(selector.includes("svc/src/main.rs"), false);
    assert_eq!(selector.includes("README.md"), false);
}

#[test]
fn docker_sources_without_instructions_are_the_dockerfile() {
    let target = DockerfileTarget::new("./");
    let selector = target.src_files("FROM scratch\n# COPY a b\nCOPYING x y\n").unwrap().unwrap();

    assert_eq!(selector.includes("Dockerfile"), true);
    assert_eq!(selector.includes("a"), false);
    assert_eq!(selector.includes("x"), false);
}

#[test]
fn docker_instruction_with_one_word_copies_nothing() {
    let target = DockerfileTarget::new("./d");
    let selector = target.src_files("COPY only\r\n").unwrap().unwrap();

    assert_eq!(selector.includes("only"), false);
    assert_eq!(selector.includes("d/Dockerfile"), true);
}

#[test]
fn docker_sources_reject_escaping_paths() {
    let target = DockerfileTarget::new("./d");
    assert_eq!(
        target.src_files("COPY ../secret /app\n").err(),
        Some(SourcesError::Selector(SelectorError::EscapesRoot))
    );
    assert_eq!(
        DockerfileTarget::new("../out").src_files("").err(),
        Some(SourcesError::Selector(SelectorError::EscapesRoot))
    );
}

#[test]
fn go_format_report_lists_modified_files() {
    assert_eq!(format_report(""), Ok(()));
    assert_eq!(format_report("\n  \n\t\n"), Ok(()));
    assert_eq!(
        format_report("main.go\n  util/io.go  \n\n"),
        Err(String::from("go fmt modified files:\n    main.go\n    util/io.go"))
    );
    assert_eq!(
        format_report("one.go\r\n"),
        Err(String::from("go fmt modified files:\n    one.go"))
    );
}

#[test]
fn rust_sources_are_manifest_lock_and_sources() {
    let target = RustCargoTarget::new("./crates/core");
    let selector = target.src_files(Vec::new()).unwrap().unwrap();

    assert_eq!(selector.includes("crates/core/Cargo.toml"), true);
    assert_eq!(selector.includes("crates/core/Cargo.lock"), true);
    assert_eq!(selector.includes("crates/core/src/lib.rs"), true);
    assert_eq!(selector.includes("crates/core/src/a/b.rs"), true);
    assert_eq!(selector.includes("crates/core/test/it.rs"), true);
    assert_eq!(selector.includes("crates/core/README.md"), false);
    assert_eq!(selector.includes("crates/core/src/notes.txt"), false);
    assert_eq!(selector.includes("crates/other/src/lib.rs"), false);
    assert_eq!(selector.includes("Cargo.toml"), false);
}

#[test]
fn rust_sources_take_in_dependencies() {
    let target = RustCargoTarget::new("./a");
    let shared = target.dependency("../shared").direct_sources().unwrap();
    let extra = FileSelector::builder().path("vendor").unwrap().build();
    let selector = target.src_files(vec![shared, extra]).unwrap().unwrap();

    assert_eq!(selector.includes("a/src/main.rs"), true);
    assert_eq!(selector.includes("shared/src/lib.rs"), true);
    assert_eq!(selector.includes("shared/Cargo.toml"), true);
    assert_eq!(selector.includes("vendor/x/y"), true);
    assert_eq!(selector.includes("b/src/lib.rs"), false);
}

#[test]
fn rust_sources_reject_bad_directories() {
    assert_eq!(
        RustCargoTarget::new("../outside").src_files(Vec::new()).err(),
        Some(SelectorError::EscapesRoot)
    );
    assert_eq!(
        RustCargoTarget::new("./odd[dir").direct_sources().err(),
        Some(SelectorError::InvalidGlob)
    );
}
