use nixpkgs2flatpak::ci_builder::{
    arch_folder, build_target, build_timed_out, build_timeout_secs, crash_log, decimal_chars,
    failed_line, failed_log_path, failed_shard_path, judge_attempt, lex_le_exec,
    may_start_package, needs_launch_test, order_packages, past_safety_margin, remaining_secs,
    remote_path, resume_index, retry_with_fixed, runner_share, select_target, state_filename,
    timeout_log, too_late_to_upload, upload_timeout_secs, BuildLoop, Judgement, LaunchReport,
};
use nixpkgs2flatpak::ci_builder::{first_position, Action, Attempt, Event, Stage};
use nixpkgs2flatpak::stats::runtime_counts;

const NS: u64 = 1_000_000_000;

fn names(v: &[&str]) -> Vec<String> {
    v.iter().map(|s| s.to_string()).collect()
}

#[test]
fn arch_folders() {
    assert_eq!(arch_folder("x86_64-linux"), "x86");
    assert_eq!(arch_folder("aarch64-linux"), "aarch64");
    assert_eq!(arch_folder("X86"), "aarch64");
}

#[test]
fn state_file_names() {
    assert_eq!(state_filename("x86_64-linux", 1), "github_runners_state/state-x86_64-linux-runner1.json");
    assert_eq!(state_filename("aarch64-linux", 255), "github_runners_state/state-aarch64-linux-runner255.json");
    assert_eq!(decimal_chars(0), vec!['0']);
    assert_eq!(decimal_chars(1203), vec!['1', '2', '0', '3']);
}

#[test]
fn path_builders() {
    assert_eq!(remote_path("r:x", "a/b"), "r:x/a/b");
    assert_eq!(build_target("hello", false), ".#hello");
    assert_eq!(build_target("hello", true), ".#hello-fixed");
    assert_eq!(failed_shard_path("x86", 2), "failed_apps/x86/runner2.txt");
    assert_eq!(failed_line("gimp", "org.gimp.GIMP"), "gimp (org.gimp.GIMP)");
    assert_eq!(failed_log_path("failed_logs", "org.a.B", "x86_64-linux"), "failed_logs/org.a.B_x86_64-linux.log");
    assert_eq!(crash_log("out", "err"), "out\n--- STDERR ---\nerr");
    assert_eq!(timeout_log(), "Build exceeded 3 hour limit and was stopped.");
}

#[test]
fn lexicographic_order() {
    let c = |s: &str| s.chars().collect::<Vec<char>>();
    assert!(lex_le_exec(&c("abc"), &c("abd")));
    assert!(lex_le_exec(&c("ab"), &c("abc")));
    assert!(!lex_le_exec(&c("b"), &c("abc")));
    assert!(lex_le_exec(&c("Z"), &c("a")));
    assert!(lex_le_exec(&c("x"), &c("x")));
}

#[test]
fn curated_first_then_alphabetical() {
    let r = order_packages(vec![
        ("zed".to_string(), false),
        ("beta".to_string(), true),
        ("alpha".to_string(), false),
        ("Zulu".to_string(), true),
    ]);
    let order: Vec<&str> = r.iter().map(|(n, _)| n.as_str()).collect();
    assert_eq!(order, vec!["Zulu", "beta", "alpha", "zed"]);
}

#[test]
fn runners_split_the_list() {
    let all = names(&["a", "b", "c", "d", "e"]);
    assert_eq!(runner_share(all.clone(), 1), Some(names(&["a", "b", "c"])));
    assert_eq!(runner_share(all.clone(), 2), Some(names(&["e", "d"])));
    assert_eq!(runner_share(all.clone(), 3), None);
    assert_eq!(runner_share(names(&["a", "b", "c", "d"]), 2), Some(names(&["d", "c"])));
    assert_eq!(runner_share(Vec::new(), 1), Some(Vec::new()));
}

#[test]
fn target_selection() {
    let all = names(&["a", "b"]);
    assert_eq!(select_target(all.clone(), &None), Some(all.clone()));
    assert_eq!(select_target(all.clone(), &Some("b".to_string())), Some(names(&["b"])));
    assert_eq!(select_target(all, &Some("c".to_string())), None);
}

#[test]
fn resuming() {
    let all = names(&["a", "b", "c"]);
    assert_eq!(resume_index(&all, &Some("a".to_string()), false), 1);
    assert_eq!(resume_index(&all, &Some("c".to_string()), false), 0);
    assert_eq!(resume_index(&all, &Some("z".to_string()), false), 0);
    assert_eq!(resume_index(&all, &None, false), 0);
    assert_eq!(resume_index(&all, &Some("a".to_string()), true), 0);
}

#[test]
fn time_budget() {
    assert_eq!(remaining_secs(0), 21600);
    assert_eq!(remaining_secs(NS / 2), 21599);
    assert_eq!(remaining_secs(30000 * NS), 0);
    assert!(may_start_package(9900 * NS, u64::MAX));
    assert!(!may_start_package(9900 * NS + 1, u64::MAX));
    assert!(!may_start_package(61 * 60 * NS, 60 * 60 * NS));
    assert!(may_start_package(59 * 60 * NS, 60 * 60 * NS));
    assert!(!may_start_package(0, 0));
    assert!(past_safety_margin(20400 * NS));
    assert!(!past_safety_margin(20399 * NS));
    assert!(too_late_to_upload(18000 * NS + 1));
    assert!(!too_late_to_upload(18000 * NS));
    assert_eq!(upload_timeout_secs(400 * NS), 20000);
    assert_eq!(build_timeout_secs(0, 0), 10800);
    assert_eq!(build_timeout_secs(800 * NS, 0), 10000);
    assert_eq!(build_timeout_secs(0, 15000 * NS), 5400);
    assert_eq!(build_timeout_secs(20000 * NS, 0), 0);
}

#[test]
fn fallback_and_timeouts() {
    assert!(retry_with_fixed(false, 10789 * NS));
    assert!(!retry_with_fixed(false, 10790 * NS));
    assert!(!retry_with_fixed(true, 0));
    assert!(build_timed_out(10770 * NS));
    assert!(!build_timed_out(10769 * NS));
    assert!(needs_launch_test(true, "org.a.B"));
    assert!(!needs_launch_test(true, ""));
    assert!(!needs_launch_test(false, "org.a.B"));
}

#[test]
fn judging_attempts() {
    assert!(matches!(judge_attempt(true, &None, 0), Judgement::Passed));
    for code in [0, 124, 137, 143] {
        assert!(matches!(judge_attempt(true, &Some(LaunchReport::Exited(Some(code))), 0), Judgement::Passed));
    }
    assert!(matches!(judge_attempt(true, &Some(LaunchReport::Exited(None)), 0), Judgement::Passed));
    assert!(matches!(judge_attempt(true, &Some(LaunchReport::Exited(Some(1))), 0), Judgement::Crashed));
    assert!(matches!(judge_attempt(true, &Some(LaunchReport::NotRun), 0), Judgement::Crashed));
    assert!(matches!(judge_attempt(false, &None, 10770 * NS), Judgement::TimedOut));
    assert!(matches!(judge_attempt(false, &None, 60 * NS), Judgement::Skipped));
}

#[test]
fn the_loop_cycles_and_collects_garbage() {
    let mut l = BuildLoop::start(names(&["a", "b", "c"]), &Some("b".to_string()), false).unwrap();
    let mut seen = Vec::new();
    let mut gcs = Vec::new();
    for _ in 0..7 {
        let s = l.begin(0, u64::MAX).unwrap();
        assert_eq!(s.total, 3);
        seen.push(s.name.clone());
        gcs.push(s.collect_garbage);
        assert_eq!(l.finish(), Some(s.name));
    }
    assert_eq!(seen, names(&["c", "a", "b", "c", "a", "b", "c"]));
    assert_eq!(gcs, vec![false, false, false, false, false, true, false]);
    assert!(l.begin(10000 * NS, u64::MAX).is_none());
    assert!(l.begin(61 * 60 * NS, 60 * 60 * NS).is_none());
    assert!(l.begin(0, 60 * 60 * NS).is_some());
}

#[test]
fn single_package_loop_stops_after_one() {
    let mut l = BuildLoop::start(names(&["a"]), &Some("a".to_string()), true).unwrap();
    let s = l.begin(0, u64::MAX).unwrap();
    assert_eq!(s.name, "a");
    assert_eq!(s.ordinal, 1);
    assert!(!s.collect_garbage);
    assert_eq!(l.finish(), None);
    assert!(BuildLoop::start(Vec::new(), &None, false).is_none());
}

#[test]
fn runtime_counts_most_used_first() {
    let hints = names(&["gnome", "kde", "gnome", "fd", "kde", "gnome"]);
    let counts = runtime_counts(&hints);
    assert_eq!(counts[0], ("gnome".to_string(), 3));
    assert_eq!(counts[1], ("kde".to_string(), 2));
    assert_eq!(counts[2], ("fd".to_string(), 1));
    assert_eq!(counts.len(), 3);
    assert!(runtime_counts(&Vec::new()).is_empty());
}

#[test]
fn first_positions() {
    let all = names(&["a", "b", "a"]);
    assert_eq!(first_position(&all, &"a".to_string()), Some(0));
    assert_eq!(first_position(&all, &"b".to_string()), Some(1));
    assert_eq!(first_position(&all, &"c".to_string()), None);
}

fn loop_of(v: &[&str]) -> BuildLoop {
    BuildLoop::start(names(v), &None, false).unwrap()
}

#[test]
fn a_passing_attempt_uploads_then_bookmarks() {
    let mut l = loop_of(&["a", "b"]);
    let mut at = Attempt::new("org.a.A");
    assert!(matches!(at.stage, Stage::AwaitingBuild));
    let a = l.step(&mut at, Event::BuildFinished { ok: true, package_ns: NS, elapsed_ns: NS });
    assert!(matches!(a, Action::ReadClock));
    let a = l.step(&mut at, Event::Clock { package_ns: NS, elapsed_ns: NS });
    assert!(matches!(a, Action::Import { launch_test: true }));
    let a = l.step(&mut at, Event::LaunchFinished { report: Some(LaunchReport::Exited(Some(124))), elapsed_ns: NS });
    assert!(matches!(a, Action::UploadObjects));
    let a = l.step(&mut at, Event::ObjectsFinished { ok: true, elapsed_ns: NS });
    assert!(matches!(a, Action::UploadRefs));
    let a = l.step(&mut at, Event::RefsFinished { elapsed_ns: NS });
    match a {
        Action::Bookmark(name) => assert_eq!(name, "a"),
        _ => panic!("expected a bookmark"),
    }
    assert_eq!(l.position(), 1);
    assert!(matches!(l.step(&mut at, Event::RefsFinished { elapsed_ns: NS }), Action::Stop));
    assert_eq!(l.position(), 1);
}

#[test]
fn guards_stop_without_bookmark() {
    let mut l = loop_of(&["a", "b"]);
    let mut at = Attempt::new("org.a.A");
    let a = l.step(&mut at, Event::BuildFinished { ok: true, package_ns: NS, elapsed_ns: 20400 * NS });
    assert!(matches!(a, Action::Stop));
    assert_eq!(l.position(), 0);

    let mut at = Attempt::new("org.a.A");
    l.step(&mut at, Event::BuildFinished { ok: true, package_ns: NS, elapsed_ns: NS });
    l.step(&mut at, Event::Clock { package_ns: NS, elapsed_ns: NS });
    let a = l.step(&mut at, Event::LaunchFinished { report: None, elapsed_ns: 18001 * NS });
    assert!(matches!(a, Action::Stop));
    assert_eq!(l.position(), 0);
}

#[test]
fn failures_retry_record_and_skip() {
    let mut l = loop_of(&["a", "b", "c"]);
    let mut at = Attempt::new("");
    let a = l.step(&mut at, Event::BuildFinished { ok: false, package_ns: 60 * NS, elapsed_ns: NS });
    assert!(matches!(a, Action::RunFixedBuild));
    let a = l.step(&mut at, Event::BuildFinished { ok: false, package_ns: 90 * NS, elapsed_ns: NS });
    assert!(matches!(a, Action::ReadClock));
    let a = l.step(&mut at, Event::Clock { package_ns: 90 * NS, elapsed_ns: NS });
    assert!(matches!(a, Action::Bookmark(_)));
    assert_eq!(l.position(), 1);

    let mut at = Attempt::new("org.b.B");
    let a = l.step(&mut at, Event::BuildFinished { ok: false, package_ns: 10800 * NS, elapsed_ns: NS });
    assert!(matches!(a, Action::ReadClock));
    let a = l.step(&mut at, Event::Clock { package_ns: 10800 * NS, elapsed_ns: NS });
    assert!(matches!(a, Action::RecordFailure { timed_out: true }));
    let a = l.step(&mut at, Event::FailureRecorded { elapsed_ns: NS });
    assert!(matches!(a, Action::Bookmark(_)));

    let mut at = Attempt::new("org.c.C");
    l.step(&mut at, Event::BuildFinished { ok: true, package_ns: NS, elapsed_ns: NS });
    l.step(&mut at, Event::Clock { package_ns: NS, elapsed_ns: NS });
    let a = l.step(&mut at, Event::LaunchFinished { report: Some(LaunchReport::Exited(Some(1))), elapsed_ns: NS });
    assert!(matches!(a, Action::RecordFailure { timed_out: false }));
    let a = l.step(&mut at, Event::FailureRecorded { elapsed_ns: 20400 * NS });
    assert!(matches!(a, Action::Stop));
    assert_eq!(l.position(), 2);
}

#[test]
fn objects_failure_skips_refs_and_single_mode_ends() {
    let mut l = BuildLoop::start(names(&["a"]), &None, true).unwrap();
    let mut at = Attempt::new("");
    l.step(&mut at, Event::BuildFinished { ok: true, package_ns: NS, elapsed_ns: NS });
    let a = l.step(&mut at, Event::Clock { package_ns: NS, elapsed_ns: NS });
    assert!(matches!(a, Action::Import { launch_test: false }));
    l.step(&mut at, Event::LaunchFinished { report: None, elapsed_ns: NS });
    let a = l.step(&mut at, Event::ObjectsFinished { ok: false, elapsed_ns: NS });
    assert!(matches!(a, Action::SkipRefs));
    let a = l.step(&mut at, Event::RefsFinished { elapsed_ns: NS });
    assert!(matches!(a, Action::EndSingle));
}
