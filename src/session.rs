//! One worker's upload session, as a state machine: it is told how the last
//! transport command went and answers with the next command to run.
use crate::args::Args;
use crate::task::{mirror_levels, remote_levels, take_components, UploadTask};
use vstd::prelude::*;

verus! {

/// Where a session stands: which command it is waiting on.
#[derive(Debug, Clone, Copy, PartialEq, Eq, Structural)]
pub enum Phase {
    /// Nothing has been asked of the transport yet.
    Start,
    /// Waiting for the connection to open.
    Connecting,
    /// Waiting for the login to be accepted.
    LoggingIn,
    /// Waiting to enter the remote upload root.
    EnteringRoot,
    /// Waiting to enter the directory at `level` of the current file's walk;
    /// `made` tells whether it was just created.
    Entering { level: usize, made: bool },
    /// Waiting for the directory at `level` of the current file's walk to be created.
    Making { level: usize },
    /// Waiting for the current file to be stored.
    Storing,
    /// Waiting out the delay before the current file is tried again.
    Waiting,
    /// Waiting for the transport to close.
    Quitting,
    /// Finished: every file of the share is either uploaded or failed.
    Done,
}

/// How the last command went.
#[derive(Debug, Clone, Copy, PartialEq, Eq, Structural)]
pub enum Event {
    Succeeded,
    Failed,
}

/// The next command for the transport.
pub enum Action {
    /// Open the connection.
    Connect,
    /// Authenticate.
    Login { user: String, password: String },
    /// Change the remote working directory.
    ChangeDir(String),
    /// Create a remote directory.
    MakeDir(String),
    /// Store the local file under `name` in the current remote directory.
    Store { local: String, name: String },
    /// Wait before the current file is tried again.
    Wait,
    /// Close the connection.
    Quit,
    /// Nothing more: the session is over.
    Finish,
}

/// A command, with its text as sequences of characters.
pub enum Command {
    Connect,
    Login(Seq<char>, Seq<char>),
    ChangeDir(Seq<char>),
    MakeDir(Seq<char>),
    Store(Seq<char>, Seq<char>),
    Wait,
    Quit,
    Finish,
}

impl View for Action {
    type V = Command;

    open spec fn view(&self) -> Command {
        match self {
            Action::Connect => Command::Connect,
            Action::Login { user, password } => Command::Login(user@, password@),
            Action::ChangeDir(d) => Command::ChangeDir(d@),
            Action::MakeDir(d) => Command::MakeDir(d@),
            Action::Store { local, name } => Command::Store(local@, name@),
            Action::Wait => Command::Wait,
            Action::Quit => Command::Quit,
            Action::Finish => Command::Finish,
        }
    }
}

/// The abstract state of a session.
pub struct SessionModel {
    /// Remote upload root.
    pub root: Seq<char>,
    /// User name and password, when the session logs in.
    pub credentials: Option<(Seq<char>, Seq<char>)>,
    /// How many times a failed file is tried again.
    pub retry_limit: nat,
    /// The files this session uploads, in order.
    pub share: Seq<UploadTask>,
    pub phase: Phase,
    /// Index in `share` of the current file; the files before it are settled.
    pub next: nat,
    /// Failed attempts so far on the current file.
    pub attempt: nat,
    /// The remote working directory, where known.
    pub current_dir: Option<Seq<char>>,
    /// Remote directories known to exist.
    pub confirmed: Seq<Seq<char>>,
    /// The remote directories from the root down to the current file's directory.
    pub levels: Seq<Seq<char>>,
    /// Files uploaded so far.
    pub uploaded: nat,
    /// Indices in `share` of the files that failed for good, in order.
    pub failed: Seq<usize>,
}

/// The remote directories from the root down to the directory of file `i`.
pub open spec fn file_levels(s: SessionModel, i: nat) -> Seq<Seq<char>> {
    mirror_levels(s.root, s.share[i as int].parent())
}

/// The command that stores file `i`.
pub open spec fn store_cmd(s: SessionModel, i: nat) -> Command {
    Command::Store(s.share[i as int].local@, s.share[i as int].name())
}

/// Index of the deepest of the first `n` levels known to exist, or 0 if none is.
pub open spec fn deepest_confirmed(levels: Seq<Seq<char>>, confirmed: Seq<Seq<char>>, n: nat) -> nat
    decreases n,
{
    if n == 0 {
        0
    } else if confirmed.contains(levels[n - 1]) {
        (n - 1) as nat
    } else {
        deepest_confirmed(levels, confirmed, (n - 1) as nat)
    }
}

/// `dirs` with `d` recorded as existing.
pub open spec fn confirm(dirs: Seq<Seq<char>>, d: Seq<char>) -> Seq<Seq<char>> {
    if dirs.contains(d) {
        dirs
    } else {
        dirs.push(d)
    }
}

/// The indices `from`, `from + 1`, ..., `to - 1`.
pub open spec fn index_range(from: nat, to: nat) -> Seq<usize> {
    Seq::new((to - from) as nat, |k: int| (from + k) as usize)
}

/// Begins the current file: nothing to do if every file is settled; store at
/// once if the remote working directory is already the file's directory;
/// else walk down to it from the deepest level known to exist (from the level
/// below it, where that one is the working directory).
pub open spec fn start_file(s: SessionModel) -> (SessionModel, Command) {
    if s.next >= s.share.len() {
        (SessionModel { phase: Phase::Quitting, ..s }, Command::Quit)
    } else {
        let lv = file_levels(s, s.next);
        if s.current_dir == Some(lv.last()) {
            (SessionModel { phase: Phase::Storing, levels: lv, ..s }, store_cmd(s, s.next))
        } else {
            let deepest = deepest_confirmed(lv, s.confirmed, lv.len());
            let k = if s.current_dir == Some(lv[deepest as int]) {
                deepest + 1
            } else {
                deepest
            };
            (
                SessionModel {
                    phase: Phase::Entering { level: k as usize, made: false },
                    levels: lv,
                    ..s
                },
                Command::ChangeDir(lv[k as int]),
            )
        }
    }
}

/// After a failed attempt on the current file: wait and try it again while
/// retries are left, else record it as failed and go on with the next file.
pub open spec fn attempt_failed(s: SessionModel) -> (SessionModel, Command) {
    if s.attempt < s.retry_limit {
        (SessionModel { phase: Phase::Waiting, attempt: s.attempt + 1, ..s }, Command::Wait)
    } else {
        start_file(
            SessionModel { failed: s.failed.push(s.next as usize), next: s.next + 1, attempt: 0, ..s },
        )
    }
}

/// Every file not yet settled is recorded as failed.
pub open spec fn fail_all(s: SessionModel, phase: Phase) -> SessionModel {
    SessionModel {
        phase,
        failed: s.failed + index_range(s.next, s.share.len()),
        next: s.share.len(),
        ..s
    }
}

/// The session's answer to how its last command went: its next state and command.
pub open spec fn transition(s: SessionModel, ev: Event) -> (SessionModel, Command) {
    match s.phase {
        Phase::Start => (SessionModel { phase: Phase::Connecting, ..s }, Command::Connect),
        Phase::Connecting => match ev {
            Event::Succeeded => match s.credentials {
                Some((u, p)) => (SessionModel { phase: Phase::LoggingIn, ..s }, Command::Login(u, p)),
                None => (
                    SessionModel { phase: Phase::EnteringRoot, ..s },
                    Command::ChangeDir(s.root),
                ),
            },
            Event::Failed => (fail_all(s, Phase::Done), Command::Finish),
        },
        Phase::LoggingIn => match ev {
            Event::Succeeded => (
                SessionModel { phase: Phase::EnteringRoot, ..s },
                Command::ChangeDir(s.root),
            ),
            Event::Failed => (fail_all(s, Phase::Quitting), Command::Quit),
        },
        Phase::EnteringRoot => match ev {
            Event::Succeeded => start_file(
                SessionModel {
                    current_dir: Some(s.root),
                    confirmed: confirm(s.confirmed, s.root),
                    ..s
                },
            ),
            Event::Failed => (fail_all(s, Phase::Quitting), Command::Quit),
        },
        Phase::Entering { level, made } => match ev {
            Event::Succeeded => {
                let d = s.levels[level as int];
                let s1 = SessionModel {
                    current_dir: Some(d),
                    confirmed: confirm(s.confirmed, d),
                    ..s
                };
                if level + 1 < s.levels.len() {
                    (
                        SessionModel {
                            phase: Phase::Entering { level: (level + 1) as usize, made: false },
                            ..s1
                        },
                        Command::ChangeDir(s.levels[level + 1]),
                    )
                } else {
                    (SessionModel { phase: Phase::Storing, ..s1 }, store_cmd(s, s.next))
                }
            },
            Event::Failed => if made {
                attempt_failed(s)
            } else {
                (
                    SessionModel { phase: Phase::Making { level }, ..s },
                    Command::MakeDir(s.levels[level as int]),
                )
            },
        },
        Phase::Making { level } => match ev {
            Event::Succeeded => (
                SessionModel { phase: Phase::Entering { level, made: true }, ..s },
                Command::ChangeDir(s.levels[level as int]),
            ),
            Event::Failed => attempt_failed(s),
        },
        Phase::Storing => match ev {
            Event::Succeeded => start_file(
                SessionModel { uploaded: s.uploaded + 1, next: s.next + 1, attempt: 0, ..s },
            ),
            Event::Failed => attempt_failed(s),
        },
        Phase::Waiting => start_file(s),
        Phase::Quitting => (SessionModel { phase: Phase::Done, ..s }, Command::Finish),
        Phase::Done => (s, Command::Finish),
    }
}

impl SessionModel {
    /// The invariant of a session.
    pub open spec fn wf(&self) -> bool {
        &&& self.settled_wf()
        &&& self.phase_wf()
    }

    /// What holds of the settled files, whatever the phase.
    pub open spec fn settled_wf(&self) -> bool {
        &&& self.next <= self.share.len()
        &&& self.share.len() <= usize::MAX
        &&& self.retry_limit <= u32::MAX
        &&& self.attempt <= self.retry_limit
        &&& forall|i: int| 0 <= i < self.share.len() ==> (#[trigger] self.share[i]).wf()
        &&& self.uploaded + self.failed.len() == self.next
        &&& forall|j: int| 0 <= j < self.failed.len() ==> (#[trigger] self.failed[j]) < self.next
        &&& forall|j: int, k: int|
            0 <= j < k < self.failed.len() ==> #[trigger] self.failed[j] < #[trigger] self.failed[k]
    }

    /// What the phase says of the current file and the walk towards its directory.
    pub open spec fn phase_wf(&self) -> bool {
        match self.phase {
            Phase::Start | Phase::Connecting | Phase::LoggingIn | Phase::EnteringRoot => self.next
                == 0,
            Phase::Entering { level, made: _ } | Phase::Making { level } => {
                &&& self.next < self.share.len()
                &&& self.levels == file_levels(*self, self.next)
                &&& level < self.levels.len()
            },
            Phase::Storing => {
                &&& self.next < self.share.len()
                &&& self.levels == file_levels(*self, self.next)
                &&& self.current_dir == Some(self.levels.last())
            },
            Phase::Waiting => self.next < self.share.len(),
            Phase::Quitting | Phase::Done => self.next == self.share.len(),
        }
    }
}

/// The level a walk starts from is one of the levels.
pub proof fn lemma_deepest_confirmed_bound(levels: Seq<Seq<char>>, confirmed: Seq<Seq<char>>, n: nat)
    requires
        n > 0,
    ensures
        deepest_confirmed(levels, confirmed, n) < n,
    decreases n,
{
    if n > 1 {
        lemma_deepest_confirmed_bound(levels, confirmed, (n - 1) as nat);
    } else {
        assert(deepest_confirmed(levels, confirmed, 0) == 0);
    }
}

/// Beginning a file keeps the invariant.
proof fn lemma_start_file_wf(s: SessionModel)
    requires
        s.settled_wf(),
    ensures
        start_file(s).0.wf(),
{
    if s.next < s.share.len() {
        let lv = file_levels(s, s.next);
        assert(lv.len() == s.share[s.next as int].parent().len() + 1);
        lemma_deepest_confirmed_bound(lv, s.confirmed, lv.len());
    }
}

/// Every step of a session keeps its invariant, its configuration and its share.
pub proof fn lemma_transition_wf(s: SessionModel, ev: Event)
    requires
        s.wf(),
    ensures
        transition(s, ev).0.wf(),
        transition(s, ev).0.share == s.share,
        transition(s, ev).0.root == s.root,
        transition(s, ev).0.credentials == s.credentials,
        transition(s, ev).0.retry_limit == s.retry_limit,
{
    match s.phase {
        Phase::Start | Phase::Quitting | Phase::Done => {},
        Phase::Connecting | Phase::LoggingIn => {
            lemma_fail_all_wf(s);
        },
        Phase::EnteringRoot => {
            lemma_fail_all_wf(s);
            lemma_start_file_wf(
                SessionModel {
                    current_dir: Some(s.root),
                    confirmed: confirm(s.confirmed, s.root),
                    ..s
                },
            );
        },
        Phase::Entering { .. } | Phase::Making { .. } => {
            lemma_attempt_failed_wf(s);
        },
        Phase::Storing => {
            lemma_attempt_failed_wf(s);
            lemma_start_file_wf(
                SessionModel { uploaded: s.uploaded + 1, next: s.next + 1, attempt: 0, ..s },
            );
        },
        Phase::Waiting => {
            lemma_start_file_wf(s);
        },
    }
}

/// Giving up on the remaining files keeps the invariant.
proof fn lemma_fail_all_wf(s: SessionModel)
    requires
        s.wf(),
    ensures
        fail_all(s, Phase::Done).wf(),
        fail_all(s, Phase::Quitting).wf(),
{
    let f = s.failed + index_range(s.next, s.share.len());
    assert forall|j: int| 0 <= j < f.len() implies (#[trigger] f[j]) < s.share.len() by {
        if j >= s.failed.len() {
            assert(f[j] == (s.next + (j - s.failed.len())) as usize);
        }
    }
    assert forall|j: int, k: int| 0 <= j < k < f.len() implies #[trigger] f[j] < #[trigger] f[k] by {
        if j >= s.failed.len() {
            assert(f[j] == (s.next + (j - s.failed.len())) as usize);
        }
        if k >= s.failed.len() {
            assert(f[k] == (s.next + (k - s.failed.len())) as usize);
        }
    }
}

/// A failed attempt keeps the invariant.
proof fn lemma_attempt_failed_wf(s: SessionModel)
    requires
        s.wf(),
        s.next < s.share.len(),
    ensures
        attempt_failed(s).0.wf(),
{
    if s.attempt >= s.retry_limit {
        let g = SessionModel {
            failed: s.failed.push(s.next as usize),
            next: s.next + 1,
            attempt: 0,
            ..s
        };
        assert forall|j: int| 0 <= j < g.failed.len() implies (#[trigger] g.failed[j]) < g.next by {
            if j < s.failed.len() {
                assert(g.failed[j] == s.failed[j]);
            }
        }
        assert forall|j: int, k: int| 0 <= j < k < g.failed.len() implies #[trigger] g.failed[j]
            < #[trigger] g.failed[k] by {
            assert(g.failed[j] == s.failed[j]);
            if k < s.failed.len() {
                assert(g.failed[k] == s.failed[k]);
            }
        }
        lemma_start_file_wf(g);
    }
}

/// What one session achieved: how many files it uploaded, and the local paths
/// of those that failed for good, in order.
pub struct SessionOutcome {
    pub uploaded: usize,
    pub failed: Vec<String>,
}

/// One worker's session: its configuration, its share of the files, and how far it got.
pub struct UploadSession {
    root: String,
    credentials: Option<(String, String)>,
    retry_limit: u32,
    share: Vec<UploadTask>,
    phase: Phase,
    next: usize,
    attempt: u32,
    current_dir: Option<String>,
    confirmed: Vec<String>,
    levels: Vec<String>,
    uploaded: usize,
    failed: Vec<usize>,
}

impl View for UploadSession {
    type V = SessionModel;

    closed spec fn view(&self) -> SessionModel {
        SessionModel {
            root: self.root@,
            credentials: match self.credentials {
                Some((u, p)) => Some((u@, p@)),
                None => None,
            },
            retry_limit: self.retry_limit as nat,
            share: self.share@,
            phase: self.phase,
            next: self.next as nat,
            attempt: self.attempt as nat,
            current_dir: match self.current_dir {
                Some(d) => Some(d@),
                None => None,
            },
            confirmed: self.confirmed.deep_view(),
            levels: self.levels.deep_view(),
            uploaded: self.uploaded as nat,
            failed: self.failed@,
        }
    }
}

/// The state of a session that has not started, for the given configuration and share.
pub open spec fn initial(
    root: Seq<char>,
    credentials: Option<(Seq<char>, Seq<char>)>,
    retry_limit: nat,
    share: Seq<UploadTask>,
) -> SessionModel {
    SessionModel {
        root,
        credentials,
        retry_limit,
        share,
        phase: Phase::Start,
        next: 0,
        attempt: 0,
        current_dir: None,
        confirmed: Seq::empty(),
        levels: Seq::empty(),
        uploaded: 0,
        failed: Seq::empty(),
    }
}

/// The credentials a run logs in with: both a user name and a password, or none.
pub open spec fn args_credentials(args: &Args) -> Option<(Seq<char>, Seq<char>)> {
    match (args.username, args.password) {
        (Some(u), Some(p)) => Some((u@, p@)),
        _ => None,
    }
}

/// How many times a run tries a failed file again.
pub open spec fn args_retry_limit(args: &Args) -> nat {
    match args.retry {
        Some(n) => n as nat,
        None => 0,
    }
}

/// Creates the session of one worker for its share of the files.
pub fn create_thread_task(args: &Args, share: Vec<UploadTask>) -> (r: UploadSession)
    requires
        forall|i: int| 0 <= i < share@.len() ==> (#[trigger] share@[i]).wf(),
    ensures
        r.wf(),
        r@ == initial(args.remote_path@, args_credentials(args), args_retry_limit(args), share@),
{
    let n = share.len();
    let r = UploadSession {
        root: args.remote_path.clone(),
        credentials: args.credentials(),
        retry_limit: args.retry_limit(),
        share,
        phase: Phase::Start,
        next: 0,
        attempt: 0,
        current_dir: None,
        confirmed: Vec::new(),
        levels: Vec::new(),
        uploaded: 0,
        failed: Vec::new(),
    };
    assert(r@.confirmed =~= Seq::<Seq<char>>::empty());
    assert(r@.levels =~= Seq::<Seq<char>>::empty());
    assert(r@ == initial(args.remote_path@, args_credentials(args), args_retry_limit(args), r.share@));
    r
}

/// Whether `d` is among the directories in `dirs`.
fn holds_dir(dirs: &Vec<String>, d: &String) -> (r: bool)
    ensures
        r == dirs.deep_view().contains(d@),
{
    let mut i: usize = 0;
    while i < dirs.len()
        invariant
            i <= dirs@.len(),
            forall|k: int| 0 <= k < i ==> dirs.deep_view()[k] != d@,
        decreases dirs@.len() - i,
    {
        if dirs[i] == *d {
            assert(dirs.deep_view()[i as int] == d@);
            return true;
        }
        i = i + 1;
    }
    false
}

/// The level of a walk down `levels` to start from: the deepest one known to exist.
fn change_remote(levels: &Vec<String>, confirmed: &Vec<String>) -> (k: usize)
    ensures
        k == deepest_confirmed(levels.deep_view(), confirmed.deep_view(), levels@.len()),
{
    let mut n = levels.len();
    while n > 0
        invariant
            n <= levels@.len(),
            deepest_confirmed(levels.deep_view(), confirmed.deep_view(), levels@.len())
                == deepest_confirmed(levels.deep_view(), confirmed.deep_view(), n as nat),
        decreases n,
    {
        if holds_dir(confirmed, &levels[n - 1]) {
            return n - 1;
        }
        n = n - 1;
    }
    0
}

impl UploadSession {
    /// The session's invariant.
    pub open spec fn wf(&self) -> bool {
        self@.wf()
    }

    /// Where the session stands.
    pub fn phase(&self) -> (r: Phase)
        ensures
            r == self@.phase,
    {
        self.phase
    }

    /// The files of this session.
    pub fn share(&self) -> (r: &Vec<UploadTask>)
        ensures
            r@ == self@.share,
    {
        &self.share
    }

    /// Files uploaded so far.
    pub fn uploaded(&self) -> (r: usize)
        ensures
            r == self@.uploaded,
    {
        self.uploaded
    }

    /// Indices in the share of the files that failed for good, in order.
    pub fn failed(&self) -> (r: &Vec<usize>)
        ensures
            r@ == self@.failed,
    {
        &self.failed
    }

    /// The session's result so far; once it is done, every file of its share is
    /// counted as uploaded or listed as failed.
    pub fn outcome(&self) -> (r: SessionOutcome)
        requires
            self.wf(),
        ensures
            r.uploaded == self@.uploaded,
            r.failed@.len() == self@.failed.len(),
            forall|j: int|
                0 <= j < r.failed@.len() ==> (#[trigger] r.failed@[j])@ == self@.share[self@.failed[j] as int].local@,
            self@.phase == Phase::Done ==> r.uploaded + r.failed@.len() == self@.share.len(),
    {
        let mut failed: Vec<String> = Vec::new();
        let mut j: usize = 0;
        while j < self.failed.len()
            invariant
                self.wf(),
                j <= self@.failed.len(),
                failed@.len() == j,
                forall|i: int|
                    0 <= i < j ==> (#[trigger] failed@[i])@ == self@.share[self@.failed[i] as int].local@,
            decreases self@.failed.len() - j,
        {
            let i = self.failed[j];
            failed.push(self.share[i].local.clone());
            j = j + 1;
        }
        SessionOutcome { uploaded: self.uploaded, failed }
    }

    /// Records `d` as the working directory and as existing.
    fn enter(&mut self, d: String)
        ensures
            final(self)@ == (SessionModel {
                current_dir: Some(d@),
                confirmed: confirm(old(self)@.confirmed, d@),
                ..old(self)@
            }),
    {
        if !holds_dir(&self.confirmed, &d) {
            let ghost before = self.confirmed@;
            self.confirmed.push(d.clone());
            proof {
                assert forall|k: int| 0 <= k < self.confirmed@.len() implies self.confirmed.deep_view()[k]
                    == confirm(old(self)@.confirmed, d@)[k] by {
                    if k < before.len() {
                        assert(self.confirmed@[k] == before[k]);
                    }
                }
            }
            assert(self.confirmed.deep_view() =~= confirm(old(self)@.confirmed, d@));
        }
        self.current_dir = Some(d);
    }

    /// The command that stores the current file.
    fn store_action(&self) -> (a: Action)
        requires
            self@.settled_wf(),
            self@.next < self@.share.len(),
        ensures
            a@ == store_cmd(self@, self@.next),
    {
        let task = &self.share[self.next];
        Action::Store { local: task.local.clone(), name: task.file_name() }
    }

    /// Begins the current file, or closes the session once every file is settled.
    fn upload_files(&mut self) -> (a: Action)
        requires
            old(self)@.settled_wf(),
        ensures
            (final(self)@, a@) == start_file(old(self)@),
    {
        if self.next >= self.share.len() {
            self.phase = Phase::Quitting;
            return Action::Quit;
        }
        let ghost s = self@;
        let task = &self.share[self.next];
        let parent = take_components(&task.relative, task.relative.len() - 1);
        assert(parent.deep_view() =~= task.parent());
        let levels = remote_levels(&self.root, &parent);
        let ghost lv = levels.deep_view();
        assert(lv == file_levels(s, s.next));
        let last = levels.len() - 1;
        let here = match &self.current_dir {
            Some(d) => *d == levels[last],
            None => false,
        };
        if here {
            self.levels = levels;
            self.phase = Phase::Storing;
            return self.store_action();
        }
        let deepest = change_remote(&levels, &self.confirmed);
        proof {
            lemma_deepest_confirmed_bound(lv, s.confirmed, lv.len());
        }
        let inside = match &self.current_dir {
            Some(d) => *d == levels[deepest],
            None => false,
        };
        let k = if inside {
            deepest + 1
        } else {
            deepest
        };
        let d = levels[k].clone();
        self.levels = levels;
        self.phase = Phase::Entering { level: k, made: false };
        Action::ChangeDir(d)
    }

    /// After a failed attempt: waits while retries are left, else gives the
    /// current file up and begins the next one.
    fn upload(&mut self) -> (a: Action)
        requires
            old(self)@.wf(),
            old(self)@.next < old(self)@.share.len(),
        ensures
            (final(self)@, a@) == attempt_failed(old(self)@),
    {
        if self.attempt < self.retry_limit {
            self.attempt = self.attempt + 1;
            self.phase = Phase::Waiting;
            return Action::Wait;
        }
        self.failed.push(self.next);
        self.next = self.next + 1;
        self.attempt = 0;
        self.upload_files()
    }

    /// Records every file not yet settled as failed.
    fn fail_all(&mut self, phase: Phase)
        requires
            old(self)@.wf(),
        ensures
            final(self)@ == fail_all(old(self)@, phase),
    {
        let ghost s = self@;
        while self.next < self.share.len()
            invariant
                s.next <= self.next <= self.share@.len(),
                self.share@.len() == s.share.len(),
                self@ == (SessionModel {
                    failed: s.failed + index_range(s.next, self.next as nat),
                    next: self.next as nat,
                    ..s
                }),
            decreases self.share@.len() - self.next,
        {
            self.failed.push(self.next);
            self.next = self.next + 1;
            assert(self.failed@ =~= s.failed + index_range(s.next, self.next as nat));
        }
        self.phase = phase;
    }

    /// Opening, logging in and entering the remote root: a failure there fails
    /// the whole share.
    fn connect_and_init(&mut self, ev: Event) -> (a: Action)
        requires
            old(self)@.wf(),
            old(self)@.phase == Phase::Connecting || old(self)@.phase == Phase::LoggingIn
                || old(self)@.phase == Phase::EnteringRoot,
        ensures
            (final(self)@, a@) == transition(old(self)@, ev),
    {
        match (self.phase, ev) {
            (Phase::Connecting, Event::Failed) => {
                self.fail_all(Phase::Done);
                Action::Finish
            },
            (_, Event::Failed) => {
                self.fail_all(Phase::Quitting);
                Action::Quit
            },
            (Phase::Connecting, Event::Succeeded) => match &self.credentials {
                Some((u, p)) => {
                    let a = Action::Login { user: u.clone(), password: p.clone() };
                    self.phase = Phase::LoggingIn;
                    a
                },
                None => {
                    self.phase = Phase::EnteringRoot;
                    Action::ChangeDir(self.root.clone())
                },
            },
            (Phase::LoggingIn, Event::Succeeded) => {
                self.phase = Phase::EnteringRoot;
                Action::ChangeDir(self.root.clone())
            },
            (_, Event::Succeeded) => {
                let root = self.root.clone();
                self.enter(root);
                self.upload_files()
            },
        }
    }

    /// One level of the walk down to the current file's directory: enter it,
    /// or create it where it is missing and enter it then.
    fn remote_mkdir(&mut self, ev: Event) -> (a: Action)
        requires
            old(self)@.wf(),
            old(self)@.phase is Entering || old(self)@.phase is Making,
        ensures
            (final(self)@, a@) == transition(old(self)@, ev),
    {
        match (self.phase, ev) {
            (Phase::Entering { level, made: _ }, Event::Succeeded) => {
                let d = self.levels[level].clone();
                self.enter(d);
                let n = self.levels.len();
                if level + 1 < n {
                    self.phase = Phase::Entering { level: level + 1, made: false };
                    Action::ChangeDir(self.levels[level + 1].clone())
                } else {
                    self.phase = Phase::Storing;
                    self.store_action()
                }
            },
            (Phase::Entering { level, made: false }, Event::Failed) => {
                self.phase = Phase::Making { level };
                Action::MakeDir(self.levels[level].clone())
            },
            (Phase::Making { level }, Event::Succeeded) => {
                self.phase = Phase::Entering { level, made: true };
                Action::ChangeDir(self.levels[level].clone())
            },
            (_, _) => self.upload(),
        }
    }

    /// Answers how the last command went with the next command to run.
    pub fn step(&mut self, ev: Event) -> (a: Action)
        requires
            old(self).wf(),
        ensures
            final(self).wf(),
            final(self)@.share == old(self)@.share,
            (final(self)@, a@) == transition(old(self)@, ev),
    {
        proof {
            lemma_transition_wf(self@, ev);
        }
        match self.phase {
            Phase::Start => {
                self.phase = Phase::Connecting;
                Action::Connect
            },
            Phase::Connecting | Phase::LoggingIn | Phase::EnteringRoot => self.connect_and_init(ev),
            Phase::Entering { .. } | Phase::Making { .. } => self.remote_mkdir(ev),
            Phase::Storing => match ev {
                Event::Succeeded => {
                    self.uploaded = self.uploaded + 1;
                    self.next = self.next + 1;
                    self.attempt = 0;
                    self.upload_files()
                },
                Event::Failed => self.upload(),
            },
            Phase::Waiting => self.upload_files(),
            Phase::Quitting => {
                self.phase = Phase::Done;
                Action::Finish
            },
            Phase::Done => Action::Finish,
        }
    }
}

/// After a file is stored, a next file in the same directory is stored at once:
/// mirroring the same directory a second time sends no command at all, so in
/// particular it creates nothing.
pub proof fn lemma_mirror_idempotent(s: SessionModel)
    requires
        s.wf(),
        s.phase == Phase::Storing,
        s.next + 1 < s.share.len(),
        s.share[s.next + 1 as int].parent() == s.share[s.next as int].parent(),
    ensures
        transition(s, Event::Succeeded).1 == store_cmd(s, s.next + 1),
        transition(s, Event::Succeeded).0.phase == Phase::Storing,
{
}

/// The state after `k` rounds in which storing the current file fails and the
/// delay before the next attempt runs out.
pub open spec fn fail_rounds(s: SessionModel, k: nat) -> SessionModel
    decreases k,
{
    if k == 0 {
        s
    } else {
        fail_rounds(transition(transition(s, Event::Failed).0, Event::Succeeded).0, (k - 1) as nat)
    }
}

proof fn lemma_fail_rounds(s: SessionModel, k: nat)
    requires
        s.wf(),
        s.phase == Phase::Storing,
        s.attempt + k <= s.retry_limit,
    ensures
        fail_rounds(s, k) == (SessionModel { attempt: s.attempt + k, ..s }),
    decreases k,
{
    if k > 0 {
        let w = transition(s, Event::Failed).0;
        let t = transition(w, Event::Succeeded).0;
        assert(w == SessionModel { phase: Phase::Waiting, attempt: s.attempt + 1, ..s });
        assert(t == SessionModel { attempt: s.attempt + 1, ..s });
        lemma_fail_rounds(t, (k - 1) as nat);
    }
}

/// A file whose store keeps failing is stored `retry_limit + 1` times in all:
/// once before the first failure, then once after each of `retry_limit` delays.
/// The next failure lists it as failed, once, and the session goes on with the
/// next file.
pub proof fn lemma_retry_bound(s: SessionModel)
    requires
        s.wf(),
        s.phase == Phase::Storing,
        s.attempt == 0,
    ensures
        forall|k: nat|
            k < s.retry_limit ==> {
                let r = #[trigger] fail_rounds(s, k);
                &&& r.next == s.next
                &&& r.failed == s.failed
                &&& transition(r, Event::Failed).1 == Command::Wait
                &&& transition(transition(r, Event::Failed).0, Event::Succeeded).1 == store_cmd(
                    s,
                    s.next,
                )
            },
        ({
            let last = transition(fail_rounds(s, s.retry_limit), Event::Failed).0;
            &&& last.failed == s.failed.push(s.next as usize)
            &&& !s.failed.contains(s.next as usize)
            &&& last.next == s.next + 1
        }),
{
    assert forall|k: nat| k < s.retry_limit implies {
        let r = #[trigger] fail_rounds(s, k);
        &&& r.next == s.next
        &&& r.failed == s.failed
        &&& transition(r, Event::Failed).1 == Command::Wait
        &&& transition(transition(r, Event::Failed).0, Event::Succeeded).1 == store_cmd(s, s.next)
    } by {
        lemma_fail_rounds(s, k);
    }
    lemma_fail_rounds(s, s.retry_limit);
    if s.failed.contains(s.next as usize) {
        let j = choose|j: int| 0 <= j < s.failed.len() && s.failed[j] == s.next as usize;
        assert(s.failed[j] < s.next);
    }
}

/// A session answers `Finish` only once it is done, so a loop that runs it
/// until `Finish` leaves it done.
pub proof fn lemma_finish_only_when_done(s: SessionModel, ev: Event)
    requires
        s.wf(),
    ensures
        transition(s, ev).1 == Command::Finish ==> transition(s, ev).0.phase == Phase::Done,
{
    match s.phase {
        Phase::EnteringRoot => {
            if ev == Event::Succeeded {
                lemma_start_file_finish(
                    SessionModel {
                        current_dir: Some(s.root),
                        confirmed: confirm(s.confirmed, s.root),
                        ..s
                    },
                );
            }
        },
        Phase::Entering { .. } | Phase::Making { .. } => {
            lemma_attempt_failed_finish(s);
        },
        Phase::Storing => {
            lemma_attempt_failed_finish(s);
            lemma_start_file_finish(
                SessionModel { uploaded: s.uploaded + 1, next: s.next + 1, attempt: 0, ..s },
            );
        },
        Phase::Waiting => {
            lemma_start_file_finish(s);
        },
        _ => {},
    }
}

proof fn lemma_start_file_finish(s: SessionModel)
    ensures
        start_file(s).1 != Command::Finish,
{
}

proof fn lemma_attempt_failed_finish(s: SessionModel)
    ensures
        attempt_failed(s).1 != Command::Finish,
{
    lemma_start_file_finish(
        SessionModel { failed: s.failed.push(s.next as usize), next: s.next + 1, attempt: 0, ..s },
    );
}

/// A session that cannot connect lists every file of its share as failed, in
/// order, uploads none, and asks for nothing more of the transport.
pub proof fn lemma_connect_failure_fails_share(s: SessionModel)
    requires
        s.wf(),
        s.phase == Phase::Connecting,
    ensures
        transition(s, Event::Failed).1 == Command::Finish,
        transition(s, Event::Failed).0.phase == Phase::Done,
        transition(s, Event::Failed).0.uploaded == 0,
        transition(s, Event::Failed).0.failed == index_range(0, s.share.len()),
{
    assert(s.failed.len() == 0);
    assert(s.failed + index_range(0, s.share.len()) =~= index_range(0, s.share.len()));
}

/// A session that cannot log in or enter the remote root lists every file of
/// its share as failed, uploads none, and closes the connection.
pub proof fn lemma_setup_failure_fails_share(s: SessionModel)
    requires
        s.wf(),
        s.phase == Phase::LoggingIn || s.phase == Phase::EnteringRoot,
    ensures
        transition(s, Event::Failed).1 == Command::Quit,
        transition(s, Event::Failed).0.uploaded == 0,
        transition(s, Event::Failed).0.failed == index_range(0, s.share.len()),
{
    assert(s.failed.len() == 0);
    assert(s.failed + index_range(0, s.share.len()) =~= index_range(0, s.share.len()));
}

/// A file whose store fails `k` times, with `k` within the retry limit, and
/// then succeeds is counted as uploaded and not as failed.
pub proof fn lemma_retry_recovers(s: SessionModel, k: nat)
    requires
        s.wf(),
        s.phase == Phase::Storing,
        s.attempt == 0,
        k <= s.retry_limit,
    ensures
        ({
            let done = transition(fail_rounds(s, k), Event::Succeeded).0;
            &&& done.uploaded == s.uploaded + 1
            &&& done.failed == s.failed
            &&& done.next == s.next + 1
        }),
{
    lemma_fail_rounds(s, k);
}

} // verus!
