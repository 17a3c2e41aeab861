use cymo::args::{get_args, Args, ArgsError};
use cymo::orchestrator::plan_sessions;
use cymo::partition::{build_worker_task, worker_count};
use cymo::report::{aggregate, empty_report, UploadReport};
use cymo::session::{Phase, SessionOutcome};
use cymo::task::{fold_parents, is_hidden, join_segment, remote_levels, same_path, UploadTask};
use cymo::transfer::{classify, TransferMode};

fn strings(parts: &[&str]) -> Vec<String> {
    parts.iter().map(|p| p.to_string()).collect()
}

fn args(remote: &str) -> Args {
    Args {
        remote_path: remote.to_string(),
        local_path: "/local".to_string(),
        server: "localhost".to_string(),
        username: None,
        password: None,
        retry: None,
        port: 21,
        thread: None,
    }
}

fn task(rel: &[&str]) -> UploadTask {
    UploadTask::new(format!("/local/{}", rel.join("/")), strings(rel)).unwrap()
}

#[test]
fn shares_of_three_files_for_two_workers() {
    let shares = build_worker_task(vec![1, 2, 3], 2);
    assert_eq!(shares, vec![vec![1, 2], vec![3]]);
}

#[test]
fn shares_keep_order_and_differ_by_one() {
    let tasks: Vec<u32> = (0..10).collect();
    let shares = build_worker_task(tasks.clone(), 3);
    assert_eq!(shares.iter().map(|s| s.len()).collect::<Vec<_>>(), vec![4, 3, 3]);
    assert_eq!(shares.concat(), tasks);
}

#[test]
fn shares_of_no_tasks_are_empty() {
    let shares = build_worker_task(Vec::<u8>::new(), 2);
    assert_eq!(shares, vec![Vec::<u8>::new(), Vec::new()]);
}

#[test]
fn shares_with_more_workers_than_tasks() {
    let shares = build_worker_task(vec!['a', 'b'], 4);
    assert_eq!(shares, vec![vec!['a'], vec!['b'], vec![], vec![]]);
}

#[test]
fn worker_count_is_clamped() {
    assert_eq!(worker_count(8, 3), 3);
    assert_eq!(worker_count(2, 3), 2);
    assert_eq!(worker_count(4, 0), 1);
    assert_eq!(worker_count(0, 5), 1);
}

#[test]
fn hidden_entries() {
    assert!(is_hidden(Some(".git")));
    assert!(!is_hidden(Some("src")));
    assert!(!is_hidden(Some("")));
    assert!(!is_hidden(None));
}

#[test]
fn remote_paths_are_joined_with_one_separator() {
    assert_eq!(join_segment(&"/up".to_string(), &"a".to_string()), "/up/a");
    assert_eq!(join_segment(&"/".to_string(), &"a".to_string()), "/a");
    assert_eq!(join_segment(&"/up/".to_string(), &"a".to_string()), "/up/a");
    assert_eq!(join_segment(&String::new(), &"a".to_string()), "a");
}

#[test]
fn remote_levels_walk_down_from_the_root() {
    let levels = remote_levels(&"/up".to_string(), &strings(&["a", "b"]));
    assert_eq!(levels, strings(&["/up", "/up/a", "/up/a/b"]));
    assert_eq!(remote_levels(&"/up".to_string(), &vec![]), strings(&["/up"]));
}

#[test]
fn fold_parents_collects_each_directory_once() {
    let files = vec![
        strings(&["top.txt"]),
        strings(&["a", "b", "c.txt"]),
        strings(&["a", "b", "d.txt"]),
        strings(&["e", "f.txt"]),
    ];
    let dirs = files.iter().fold(Vec::new(), |prev, cur| fold_parents(prev, cur));
    assert_eq!(
        dirs,
        vec![strings(&["a"]), strings(&["a", "b"]), strings(&["e"])]
    );
}

#[test]
fn fold_parents_skips_known_ancestors() {
    let files = vec![strings(&["a", "x"]), strings(&["a", "b", "y"]), strings(&["a", "b", "c", "z"])];
    let dirs = files.iter().fold(Vec::new(), |prev, cur| fold_parents(prev, cur));
    assert_eq!(
        dirs,
        vec![strings(&["a"]), strings(&["a", "b"]), strings(&["a", "b", "c"])]
    );
}

#[test]
fn paths_compare_by_components() {
    assert!(same_path(&strings(&["a", "b"]), &strings(&["a", "b"])));
    assert!(!same_path(&strings(&["a", "b"]), &strings(&["a"])));
    assert!(!same_path(&strings(&["a", "b"]), &strings(&["a", "c"])));
}

#[test]
fn task_needs_a_file_name() {
    assert!(UploadTask::new("/x".to_string(), vec![]).is_none());
    let t = task(&["a", "b.txt"]);
    assert_eq!(t.file_name(), "b.txt");
}

#[test]
fn args_must_be_set() {
    let a = args("/up");
    assert_eq!(get_args(Some(&a)).unwrap().remote_path, "/up");
    assert_eq!(get_args(None).err(), Some(ArgsError::Unset));
}

#[test]
fn credentials_need_both_parts() {
    let mut a = args("/up");
    a.username = Some("u".to_string());
    assert_eq!(a.credentials(), None);
    a.password = Some("p".to_string());
    assert_eq!(a.credentials(), Some(("u".to_string(), "p".to_string())));
    assert_eq!(a.retry_limit(), 0);
    a.retry = Some(4);
    assert_eq!(a.retry_limit(), 4);
}

#[test]
fn text_and_binary_samples() {
    assert_eq!(classify(b"hello, world 1234"), Some(TransferMode::Text));
    assert_eq!(classify(&[0xff; 16]), Some(TransferMode::Binary));
    assert_eq!(classify(b"short"), None);
    // A character cut at the sixteenth byte makes the sample invalid.
    let mut cut = b"fifteen bytes..".to_vec();
    cut.extend_from_slice("é".as_bytes());
    assert_eq!(classify(&cut), Some(TransferMode::Binary));
}

#[test]
fn empty_run_plans_no_session() {
    let sessions = plan_sessions(&args("/up"), vec![], 4);
    assert!(sessions.is_empty());
    assert_eq!(empty_report(), UploadReport { found: 0, uploaded: 0, failed: 0 });
    assert_eq!(aggregate(0, &vec![]), UploadReport { found: 0, uploaded: 0, failed: 0 });
}

#[test]
fn plan_splits_files_among_sessions() {
    let mut a = args("/up");
    a.thread = Some(2);
    let tasks = vec![task(&["x"]), task(&["y"]), task(&["z"])];
    let sessions = plan_sessions(&a, tasks, 8);
    assert_eq!(sessions.len(), 2);
    assert_eq!(sessions[0].share().len(), 2);
    assert_eq!(sessions[1].share().len(), 1);
    assert_eq!(sessions[1].share()[0].local, "/local/z");
    assert_eq!(sessions[0].phase(), Phase::Start);
}

#[test]
fn plan_uses_detected_parallelism() {
    let tasks = vec![task(&["x"]), task(&["y"]), task(&["z"]), task(&["w"])];
    let sessions = plan_sessions(&args("/up"), tasks, 3);
    assert_eq!(sessions.iter().map(|s| s.share().len()).collect::<Vec<_>>(), vec![2, 1, 1]);
}

#[test]
fn report_sums_the_outcomes() {
    let outcomes = vec![
        SessionOutcome { uploaded: 2, failed: vec![] },
        SessionOutcome { uploaded: 1, failed: vec!["/local/q".to_string()] },
    ];
    let report = aggregate(4, &outcomes);
    assert_eq!(report, UploadReport { found: 4, uploaded: 3, failed: 1 });
    assert_eq!(report.uploaded + report.failed, report.found);
}
