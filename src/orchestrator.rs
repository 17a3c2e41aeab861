//! Planning a run: how many sessions, and which files each one uploads.
use crate::args::Args;
use crate::partition::{
    build_worker_task, lemma_share_start_bound, lemma_share_start_step, share_start, shares_of,
    spec_worker_count, worker_count,
};
use crate::session::{
    args_credentials, args_retry_limit, create_thread_task, initial, UploadSession,
};
use crate::task::UploadTask;
use vstd::prelude::*;

verus! {

/// The number of sessions a run asks for: the configured one, else the
/// machine's parallelism.
pub open spec fn requested_workers(args: &Args, detected: usize) -> nat {
    match args.thread {
        Some(n) => n as nat,
        None => detected as nat,
    }
}

/// The sessions of a run over `tasks`: none when there is nothing to upload,
/// else one per worker, each with its share of the files in order.
pub fn plan_sessions(args: &Args, tasks: Vec<UploadTask>, detected: usize) -> (r: Vec<UploadSession>)
    requires
        forall|i: int| 0 <= i < tasks@.len() ==> (#[trigger] tasks@[i]).wf(),
    ensures
        tasks@.len() == 0 ==> r@.len() == 0,
        tasks@.len() > 0 ==> {
            let w = spec_worker_count(requested_workers(args, detected), tasks@.len());
            &&& r@.len() == w
            &&& forall|i: int|
                0 <= i < w ==> (#[trigger] r@[i]).wf() && r@[i]@ == initial(
                    args.remote_path@,
                    args_credentials(args),
                    args_retry_limit(args),
                    shares_of(tasks@, w)[i],
                )
        },
{
    let len = tasks.len();
    if len == 0 {
        return Vec::new();
    }
    let requested = match args.thread {
        Some(n) => n,
        None => detected,
    };
    let workers = worker_count(requested, len);
    let ghost all = tasks@;
    let mut shares = build_worker_task(tasks, workers);
    let ghost planned = shares_of(all, workers as nat);
    assert(shares@.len() == workers) by {
        assert(shares@.map_values(|s: Vec<UploadTask>| s@).len() == planned.len());
    }
    let mut sessions: Vec<UploadSession> = Vec::new();
    let mut i: usize = 0;
    while i < workers
        invariant
            i <= workers,
            workers > 0,
            planned == shares_of(all, workers as nat),
            forall|k: int| 0 <= k < all.len() ==> (#[trigger] all[k]).wf(),
            shares@.len() == workers - i,
            forall|k: int| 0 <= k < shares@.len() ==> (#[trigger] shares@[k])@ == planned[k + i],
            sessions@.len() == i,
            forall|k: int|
                0 <= k < i ==> (#[trigger] sessions@[k]).wf() && sessions@[k]@ == initial(
                    args.remote_path@,
                    args_credentials(args),
                    args_retry_limit(args),
                    planned[k],
                ),
        decreases workers - i,
    {
        let share = shares.remove(0);
        proof {
            let n = all.len();
            lemma_share_start_step(n, workers as nat, i as nat);
            lemma_share_start_bound(n, workers as nat, (i + 1) as nat);
            assert forall|j: int| 0 <= j < share@.len() implies (#[trigger] share@[j]).wf() by {
                assert(share@[j] == all[share_start(n, workers as nat, i as nat) + j]);
            }
        }
        let session = create_thread_task(args, share);
        sessions.push(session);
        i = i + 1;
    }
    sessions
}

} // verus!
