use gentle::batch::ContinuousIntegrationProgress;
use gentle::progress::SlotPool;
use gentle::text::decimal;

fn span(nanos: u64) -> String {
    humantime::format_duration(std::time::Duration::from_nanos(nanos)).to_string()
}

#[test]
fn slots_are_reused_before_new_ones_are_made() {
    let mut pool = SlotPool::new();

    assert_eq!(pool.len(), 0);
    assert_eq!(pool.on_start("a"), 0);
    assert_eq!(pool.on_start("b"), 1);
    assert_eq!(pool.on_start("c"), 2);
    assert_eq!(pool.on_finish("b"), Some(1));
    assert_eq!(pool.on_finish("a"), Some(0));
    assert_eq!(pool.on_start("d"), 0);
    assert_eq!(pool.on_start("e"), 1);
    assert_eq!(pool.len(), 3);
    assert_eq!(pool.on_start("f"), 3);
    assert_eq!(pool.len(), 4);
}

#[test]
fn pool_is_as_large_as_the_most_tasks_at_once() {
    let mut pool = SlotPool::new();
    for round in 0..5 {
        let one = format!("one {round}");
        let two = format!("two {round}");
        pool.on_start(&one);
        pool.on_start(&two);
        assert_eq!(pool.on_finish(&one), Some(0));
        assert_eq!(pool.on_finish(&two), Some(1));
    }

    assert_eq!(pool.len(), 2);
}

#[test]
fn finish_without_start_finds_no_slot() {
    let mut pool = SlotPool::new();
    assert_eq!(pool.on_finish("ghost"), None);
    pool.on_start("a");
    assert_eq!(pool.on_finish("b"), None);
    assert_eq!(pool.on_finish("a"), Some(0));
    assert_eq!(pool.on_finish("a"), None);
    assert_eq!(pool.len(), 1);
}

#[test]
fn decimal_writes_numbers() {
    let text = |n: usize| decimal(n).into_iter().collect::<String>();
    assert_eq!(text(0), "0");
    assert_eq!(text(7), "7");
    assert_eq!(text(10), "10");
    assert_eq!(text(4096), "4096");
    assert_eq!(text(usize::MAX), usize::MAX.to_string());
}

#[test]
fn batch_progress_logs_start_and_finish() {
    let mut progress = ContinuousIntegrationProgress::new(3);

    assert_eq!(progress.banner(), "Running 3 tasks");
    assert_eq!(progress.on_start("test //a:rust_crate", 1_000), "Starting test //a:rust_crate");
    assert_eq!(
        progress.on_finish("test //a:rust_crate", 32_001_000),
        Some(String::from("Finished test //a:rust_crate in 32ms"))
    );
    assert_eq!(progress.on_finish("test //a:rust_crate", 40_000_000), None);
    assert_eq!(progress.on_finish("never started", 0), None);
}

#[test]
fn batch_summary_lists_running_tasks_by_name() {
    let mut progress = ContinuousIntegrationProgress::new(4);
    progress.on_start("lint //b", 5_000_000_000);
    progress.on_start("lint //a", 2_000_000_000);
    progress.on_start("lint //c", 1_000_000_000);
    progress.on_finish("lint //c", 3_000_000_000);

    assert_eq!(
        progress.log_status(9_420_000_000_000),
        vec![
            String::from("Running 2, finished 1 / 4"),
            format!("  lint //a: {}", span(9_418_000_000_000)),
            format!("  lint //b: {}", span(9_415_000_000_000)),
        ]
    );
    assert_eq!(
        ContinuousIntegrationProgress::new(0).log_status(5),
        vec![String::from("Running 0, finished 0 / 0")]
    );
}

#[test]
fn batch_summary_never_counts_backwards() {
    let mut progress = ContinuousIntegrationProgress::new(1);
    progress.on_start("t", 100);

    assert_eq!(progress.log_status(50), vec![String::from("Running 1, finished 0 / 1"), String::from("  t: 0s")]);
    assert_eq!(progress.on_finish("t", 10), Some(String::from("Finished t in 0s")));
}

#[test]
fn batch_report_is_sorted_by_duration() {
    let mut progress = ContinuousIntegrationProgress::new(4);
    for (name, start, end) in [
        ("d", 0u64, 9_420_000_000_000u64),
        ("b", 0, 32_000_000),
        ("c", 10, 32_000_010),
        ("a", 0, 1_000_000_000),
    ] {
        progress.on_start(name, start);
        progress.on_finish(name, end);
    }

    assert_eq!(
        progress.report(),
        vec![
            String::from("Runtime report:"),
            String::from("  32ms: b"),
            String::from("  32ms: c"),
            String::from("  1s: a"),
            String::from("  2h 37m: d"),
        ]
    );
    assert_eq!(ContinuousIntegrationProgress::new(2).report(), vec![String::from("Runtime report:")]);
}

#[test]
fn restarted_task_keeps_one_entry() {
    let mut progress = ContinuousIntegrationProgress::new(2);
    progress.on_start("t", 0);
    progress.on_finish("t", 5);
    progress.on_start("t", 100);
    progress.on_start("t", 200);
    progress.on_finish("t", 1_000_000_200);

    assert_eq!(progress.report(), vec![String::from("Runtime report:"), String::from("  1s: t")]);
    assert_eq!(progress.log_status(0), vec![String::from("Running 0, finished 1 / 2")]);
}
