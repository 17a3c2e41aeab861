use std::collections::{HashSet, VecDeque};

use cymo::args::Args;
use cymo::orchestrator::plan_sessions;
use cymo::report::{aggregate, UploadReport};
use cymo::session::{create_thread_task, Action, Event, Phase, UploadSession};
use cymo::task::UploadTask;

fn args(remote: &str, retry: Option<u32>, thread: Option<usize>) -> Args {
    Args {
        remote_path: remote.to_string(),
        local_path: "/local".to_string(),
        server: "localhost".to_string(),
        username: None,
        password: None,
        retry,
        port: 21,
        thread,
    }
}

fn task(rel: &[&str]) -> UploadTask {
    UploadTask::new(
        format!("/local/{}", rel.join("/")),
        rel.iter().map(|p| p.to_string()).collect(),
    )
    .unwrap()
}

/// A remote server kept in memory: the directories that exist, whether the
/// connection opens, and how each store ends (success when none is scripted).
struct FakeServer {
    dirs: HashSet<String>,
    connects: bool,
    stores: VecDeque<bool>,
}

impl FakeServer {
    fn new(dirs: &[&str]) -> FakeServer {
        FakeServer {
            dirs: dirs.iter().map(|d| d.to_string()).collect(),
            connects: true,
            stores: VecDeque::new(),
        }
    }

    fn answer(&mut self, action: &Action) -> Event {
        let ok = match action {
            Action::Connect => self.connects,
            Action::Login { .. } => true,
            Action::ChangeDir(d) => self.dirs.contains(d),
            Action::MakeDir(d) => self.dirs.insert(d.clone()),
            Action::Store { .. } => self.stores.pop_front().unwrap_or(true),
            Action::Wait | Action::Quit | Action::Finish => true,
        };
        if ok {
            Event::Succeeded
        } else {
            Event::Failed
        }
    }
}

fn describe(action: &Action) -> String {
    match action {
        Action::Connect => "connect".to_string(),
        Action::Login { user, password } => format!("login {} {}", user, password),
        Action::ChangeDir(d) => format!("cd {}", d),
        Action::MakeDir(d) => format!("mkdir {}", d),
        Action::Store { local, name } => format!("store {} as {}", local, name),
        Action::Wait => "wait".to_string(),
        Action::Quit => "quit".to_string(),
        Action::Finish => "finish".to_string(),
    }
}

/// Runs a session against the server to its end and returns the commands it sent.
fn drive(session: &mut UploadSession, server: &mut FakeServer) -> Vec<String> {
    let mut log = Vec::new();
    let mut event = Event::Succeeded;
    for _ in 0..1000 {
        let action = session.step(event);
        if let Action::Finish = action {
            return log;
        }
        log.push(describe(&action));
        event = server.answer(&action);
    }
    panic!("session did not finish");
}

fn count(log: &[String], prefix: &str) -> usize {
    log.iter().filter(|l| l.starts_with(prefix)).count()
}

#[test]
fn three_flat_files_on_two_workers() {
    let tasks = vec![task(&["a.txt"]), task(&["b.txt"]), task(&["c.txt"])];
    let found = tasks.len();
    let mut sessions = plan_sessions(&args("/up", None, Some(2)), tasks, 8);
    assert_eq!(sessions.iter().map(|s| s.share().len()).collect::<Vec<_>>(), vec![2, 1]);
    let mut outcomes = Vec::new();
    for session in sessions.iter_mut() {
        let mut server = FakeServer::new(&["/up"]);
        drive(session, &mut server);
        assert_eq!(session.phase(), Phase::Done);
        outcomes.push(session.outcome());
    }
    assert_eq!(aggregate(found, &outcomes), UploadReport { found: 3, uploaded: 3, failed: 0 });
}

#[test]
fn nested_file_creates_each_level_in_order() {
    let mut session = create_thread_task(&args("/up", None, None), vec![task(&["a", "b", "c.txt"])]);
    let mut server = FakeServer::new(&["/up"]);
    let log = drive(&mut session, &mut server);
    assert_eq!(
        log,
        vec![
            "connect",
            "cd /up",
            "cd /up/a",
            "mkdir /up/a",
            "cd /up/a",
            "cd /up/a/b",
            "mkdir /up/a/b",
            "cd /up/a/b",
            "store /local/a/b/c.txt as c.txt",
            "quit",
        ]
    );
    assert_eq!(session.uploaded(), 1);
}

#[test]
fn login_comes_before_the_root() {
    let mut a = args("/up", None, None);
    a.username = Some("me".to_string());
    a.password = Some("pw".to_string());
    let mut session = create_thread_task(&a, vec![task(&["f"])]);
    let log = drive(&mut session, &mut FakeServer::new(&["/up"]));
    assert_eq!(log[..3], ["connect", "login me pw", "cd /up"]);
}

#[test]
fn second_file_in_same_directory_needs_no_mirroring() {
    let share = vec![task(&["d", "one.txt"]), task(&["d", "two.txt"])];
    let mut session = create_thread_task(&args("/up", None, None), share);
    let log = drive(&mut session, &mut FakeServer::new(&["/up"]));
    assert_eq!(count(&log, "mkdir"), 1);
    let first = log.iter().position(|l| l.starts_with("store /local/d/one.txt")).unwrap();
    assert_eq!(log[first + 1], "store /local/d/two.txt as two.txt");
}

#[test]
fn confirmed_directories_are_not_probed_again() {
    let share = vec![task(&["a", "b", "x"]), task(&["a", "y"]), task(&["a", "b", "z"])];
    let mut session = create_thread_task(&args("/up", None, None), share);
    let log = drive(&mut session, &mut FakeServer::new(&["/up"]));
    assert_eq!(count(&log, "mkdir"), 2);
    let y = log.iter().position(|l| l.starts_with("store /local/a/y")).unwrap();
    // Back into /up/a/b directly, without walking from the root again.
    assert_eq!(log[y + 1], "cd /up/a/b");
    assert_eq!(log[y + 2], "store /local/a/b/z as z");
}

#[test]
fn failed_connection_fails_the_whole_share() {
    let share = vec![task(&["1"]), task(&["2"]), task(&["3"]), task(&["4"])];
    let mut session = create_thread_task(&args("/up", None, None), share);
    let mut server = FakeServer::new(&["/up"]);
    server.connects = false;
    let log = drive(&mut session, &mut server);
    assert_eq!(log, vec!["connect"]);
    let outcome = session.outcome();
    assert_eq!(outcome.uploaded, 0);
    assert_eq!(outcome.failed, vec!["/local/1", "/local/2", "/local/3", "/local/4"]);
}

#[test]
fn failed_worker_leaves_others_alone() {
    let tasks: Vec<UploadTask> = (0..8).map(|i| task(&[&format!("f{}", i)])).collect();
    let mut sessions = plan_sessions(&args("/up", None, Some(2)), tasks, 8);
    let mut outcomes = Vec::new();
    for (i, session) in sessions.iter_mut().enumerate() {
        let mut server = FakeServer::new(&["/up"]);
        server.connects = i != 1;
        let log = drive(session, &mut server);
        if i == 1 {
            assert_eq!(count(&log, "store"), 0);
        }
        outcomes.push(session.outcome());
    }
    assert_eq!(outcomes[1].failed.len(), 4);
    assert_eq!(aggregate(8, &outcomes), UploadReport { found: 8, uploaded: 4, failed: 4 });
}

#[test]
fn missing_root_fails_the_share_and_quits() {
    let mut session = create_thread_task(&args("/nowhere", None, None), vec![task(&["f"])]);
    let log = drive(&mut session, &mut FakeServer::new(&["/up"]));
    assert_eq!(log, vec!["connect", "cd /nowhere", "quit"]);
    assert_eq!(session.failed(), &vec![0]);
}

#[test]
fn third_attempt_succeeds_within_the_retry_limit() {
    let mut session = create_thread_task(&args("/up", Some(2), None), vec![task(&["f.bin"])]);
    let mut server = FakeServer::new(&["/up"]);
    server.stores = VecDeque::from(vec![false, false, true]);
    let log = drive(&mut session, &mut server);
    assert_eq!(count(&log, "store"), 3);
    assert_eq!(count(&log, "wait"), 2);
    let outcome = session.outcome();
    assert_eq!(outcome.uploaded, 1);
    assert!(outcome.failed.is_empty());
}

#[test]
fn always_failing_file_is_tried_retry_plus_one_times() {
    let share = vec![task(&["bad"]), task(&["good"])];
    let mut session = create_thread_task(&args("/up", Some(3), None), share);
    let mut server = FakeServer::new(&["/up"]);
    server.stores = VecDeque::from(vec![false, false, false, false]);
    let log = drive(&mut session, &mut server);
    assert_eq!(count(&log, "store /local/bad"), 4);
    assert_eq!(count(&log, "store /local/good"), 1);
    let outcome = session.outcome();
    assert_eq!(outcome.failed, vec!["/local/bad"]);
    assert_eq!(outcome.uploaded, 1);
}

#[test]
fn without_retry_a_failure_is_final() {
    let mut session = create_thread_task(&args("/up", None, None), vec![task(&["f"])]);
    let mut server = FakeServer::new(&["/up"]);
    server.stores = VecDeque::from(vec![false]);
    let log = drive(&mut session, &mut server);
    assert_eq!(count(&log, "wait"), 0);
    assert_eq!(session.outcome().failed, vec!["/local/f"]);
}

#[test]
fn directory_that_cannot_be_made_fails_the_file_only() {
    let share = vec![task(&["locked", "f"]), task(&["g"])];
    let mut session = create_thread_task(&args("/up", None, None), share);
    let mut server = FakeServer::new(&["/up"]);
    let mut log = Vec::new();
    let mut event = Event::Succeeded;
    loop {
        let action = session.step(event);
        if let Action::Finish = action {
            break;
        }
        event = match &action {
            Action::MakeDir(_) => Event::Failed,
            other => server.answer(other),
        };
        log.push(describe(&action));
    }
    assert_eq!(session.outcome().failed, vec!["/local/locked/f"]);
    assert_eq!(session.outcome().uploaded, 1);
    assert!(log.contains(&"store /local/g as g".to_string()));
}

#[test]
fn finished_session_stays_finished() {
    let mut session = create_thread_task(&args("/up", None, None), vec![]);
    let log = drive(&mut session, &mut FakeServer::new(&["/up"]));
    assert_eq!(log, vec!["connect", "cd /up", "quit"]);
    assert!(matches!(session.step(Event::Failed), Action::Finish));
    assert_eq!(session.phase(), Phase::Done);
}
