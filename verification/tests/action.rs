use gentle::action::{
    choose_progress, should_run, Action, ActionCommand, Build, Command, ProgressKind,
};

fn build() -> Action {
    Action::Build(Build { out: String::from("gentle/out") })
}

#[test]
fn every_action_but_build_can_cache_success() {
    assert_eq!(Action::Test.can_cache_success(), true);
    assert_eq!(Action::Lint.can_cache_success(), true);
    assert_eq!(Action::Format.can_cache_success(), true);
    assert_eq!(build().can_cache_success(), false);
}

#[test]
fn actions_have_names() {
    assert_eq!(Action::Test.to_string(), "test");
    assert_eq!(Action::Lint.to_string(), "lint");
    assert_eq!(Action::Format.to_string(), "format");
    assert_eq!(build().to_string(), "build");
    assert_eq!(Action::Test.task_name("//a:rust_crate"), "test //a:rust_crate");
    assert_eq!(build().task_name(""), "build ");
}

#[test]
fn should_run_honours_skip_and_filter() {
    let skip = vec![String::from("//a:rust_crate"), String::from("//x:go_mod")];

    assert_eq!(should_run("//b:go_mod", &skip, &None), true);
    assert_eq!(should_run("//a:rust_crate", &skip, &None), false);
    assert_eq!(should_run("//a:rust_crate2", &skip, &None), true);
    assert_eq!(should_run("//b:go_mod", &skip, &Some(String::from("//b"))), true);
    assert_eq!(should_run("//b:go_mod", &skip, &Some(String::from("//c"))), false);
    assert_eq!(should_run("//b:go_mod", &skip, &Some(String::from("//b:go_mod_and_more"))), false);
    assert_eq!(should_run("//x:go_mod", &skip, &Some(String::from("//x"))), false);
    assert_eq!(should_run("//b", &Vec::new(), &Some(String::new())), true);
}

#[test]
fn commands_name_their_action() {
    let asked = ActionCommand { filter: Some(String::from("//a")), verb: Action::Lint };
    assert_eq!(Command::Do(asked.clone()).action(), Some(asked));
    assert_eq!(
        Command::Action(Action::Test).action(),
        Some(ActionCommand { filter: None, verb: Action::Test })
    );
    assert_eq!(Command::LockfileHash.action(), None);
    assert_eq!(Command::CacheLoad { from: String::from("x") }.action(), None);
    assert_eq!(Command::CacheSave { to: String::from("x") }.action(), None);
}

#[test]
fn progress_follows_environment() {
    let ci = Some(String::from("true"));
    assert_eq!(choose_progress(ci.clone(), true), ProgressKind::ContinuousIntegration);
    assert_eq!(choose_progress(ci, false), ProgressKind::ContinuousIntegration);
    assert_eq!(choose_progress(Some(String::from("1")), true), ProgressKind::Terminal);
    assert_eq!(choose_progress(Some(String::from("TRUE")), false), ProgressKind::Silent);
    assert_eq!(choose_progress(None, true), ProgressKind::Terminal);
    assert_eq!(choose_progress(None, false), ProgressKind::Silent);
}
