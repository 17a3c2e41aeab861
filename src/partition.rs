//! Splitting the discovered files into one contiguous share per worker.
use vstd::arithmetic::div_mod::{lemma_fundamental_div_mod, lemma_mod_bound};
use vstd::prelude::*;

verus! {

/// Number of tasks that share `i` receives when `len` tasks go to `workers` workers:
/// the first `len % workers` shares get one task more than the others.
pub open spec fn share_len(len: nat, workers: nat, i: nat) -> nat
    recommends
        workers > 0,
{
    if i < len % workers {
        len / workers + 1
    } else {
        len / workers
    }
}

/// Position in the task list at which share `i` begins.
pub open spec fn share_start(len: nat, workers: nat, i: nat) -> nat
    recommends
        workers > 0,
{
    i * (len / workers) + if i < len % workers {
        i
    } else {
        len % workers
    }
}

/// The shares of `tasks` among `workers` workers, in worker order.
pub open spec fn shares_of<T>(tasks: Seq<T>, workers: nat) -> Seq<Seq<T>>
    recommends
        workers > 0,
{
    Seq::new(
        workers,
        |i: int|
            tasks.subrange(
                share_start(tasks.len(), workers, i as nat) as int,
                (share_start(tasks.len(), workers, i as nat) + share_len(
                    tasks.len(),
                    workers,
                    i as nat,
                )) as int,
            ),
    )
}

/// The concatenation of a sequence of sequences, in order.
pub open spec fn concat<T>(parts: Seq<Seq<T>>) -> Seq<T>
    decreases parts.len(),
{
    if parts.len() == 0 {
        Seq::empty()
    } else {
        concat(parts.drop_last()) + parts.last()
    }
}

/// Each share begins where the previous one ends.
pub proof fn lemma_share_start_step(len: nat, workers: nat, i: nat)
    requires
        workers > 0,
    ensures
        share_start(len, workers, i + 1) == share_start(len, workers, i) + share_len(len, workers, i),
{
    let q = len / workers;
    assert((i + 1) * q == i * q + q) by (nonlinear_arith);
}

/// The shares start in order and the last one ends at the end of the task list.
pub proof fn lemma_share_start_bound(len: nat, workers: nat, i: nat)
    requires
        workers > 0,
        i <= workers,
    ensures
        share_start(len, workers, i) <= share_start(len, workers, workers),
        share_start(len, workers, workers) == len,
        share_start(len, workers, 0) == 0,
{
    lemma_fundamental_div_mod(len as int, workers as int);
    lemma_mod_bound(len as int, workers as int);
    let q = len / workers;
    assert(i * q <= workers * q) by (nonlinear_arith)
        requires
            i <= workers,
    ;
    assert(workers * q == q * workers) by (nonlinear_arith);
}

/// The first `k` shares, put together, are the tasks before share `k`.
proof fn lemma_concat_prefix<T>(tasks: Seq<T>, workers: nat, k: nat)
    requires
        workers > 0,
        k <= workers,
    ensures
        concat(shares_of(tasks, workers).take(k as int)) == tasks.take(
            share_start(tasks.len(), workers, k) as int,
        ),
    decreases k,
{
    let len = tasks.len();
    let shares = shares_of(tasks, workers);
    lemma_share_start_bound(len, workers, k);
    if k > 0 {
        let j = (k - 1) as nat;
        lemma_concat_prefix(tasks, workers, j);
        lemma_share_start_step(len, workers, j);
        lemma_share_start_bound(len, workers, j);
        assert(shares.take(k as int).drop_last() == shares.take(j as int));
        assert(tasks.take(share_start(len, workers, k) as int) =~= tasks.take(
            share_start(len, workers, j) as int,
        ) + shares[j as int]);
    } else {
        assert(shares.take(0) =~= Seq::<Seq<T>>::empty());
        assert(tasks.take(0) =~= Seq::<T>::empty());
    }
}

/// Putting the shares back together, in worker order, gives the task list
/// exactly, and no two shares differ in size by more than one task.
pub proof fn lemma_partition_complete<T>(tasks: Seq<T>, workers: nat)
    requires
        workers > 0,
    ensures
        shares_of(tasks, workers).len() == workers,
        concat(shares_of(tasks, workers)) == tasks,
        forall|i: int, j: int|
            0 <= i < workers && 0 <= j < workers ==> #[trigger] shares_of(tasks, workers)[i].len()
                <= #[trigger] shares_of(tasks, workers)[j].len() + 1,
{
    let len = tasks.len();
    let shares = shares_of(tasks, workers);
    lemma_share_start_bound(len, workers, workers);
    lemma_concat_prefix(tasks, workers, workers);
    assert(shares.take(workers as int) == shares);
    assert(tasks.take(len as int) == tasks);
    assert forall|i: int, j: int|
        0 <= i < workers && 0 <= j < workers implies #[trigger] shares[i].len() <= #[trigger] shares[j].len()
        + 1 by {
        lemma_share_start_step(len, workers, i as nat);
        lemma_share_start_step(len, workers, j as nat);
        lemma_share_start_bound(len, workers, (i + 1) as nat);
        lemma_share_start_bound(len, workers, (j + 1) as nat);
    }
}

/// Number of workers for a run that found `found` files: the requested count
/// (at least one), but never more than there are files, and one when there are none.
pub open spec fn spec_worker_count(requested: nat, found: nat) -> nat {
    if found == 0 {
        1
    } else if requested == 0 {
        1
    } else if requested < found {
        requested
    } else {
        found
    }
}

/// Clamps the requested number of workers to the number of files found.
pub fn worker_count(requested: usize, found: usize) -> (r: usize)
    ensures
        r == spec_worker_count(requested as nat, found as nat),
        r >= 1,
{
    if found == 0 || requested == 0 {
        1
    } else if requested < found {
        requested
    } else {
        found
    }
}

/// Splits `tasks` into `workers` contiguous shares, in order; the first
/// `tasks.len() % workers` shares hold one task more than the others.
pub fn build_worker_task<T>(tasks: Vec<T>, workers: usize) -> (shares: Vec<Vec<T>>)
    requires
        workers > 0,
    ensures
        shares@.map_values(|s: Vec<T>| s@) == shares_of(tasks@, workers as nat),
{
    let ghost all = tasks@;
    let len = tasks.len();
    let quotient = len / workers;
    let remainder = len % workers;
    let mut rest = tasks;
    let mut shares: Vec<Vec<T>> = Vec::new();
    let mut i: usize = 0;
    proof {
        lemma_share_start_bound(len as nat, workers as nat, 0);
    }
    while i < workers
        invariant
            i <= workers,
            workers > 0,
            len == all.len(),
            quotient == len / workers,
            remainder == len % workers,
            rest@ == all.subrange(share_start(len as nat, workers as nat, i as nat) as int, len as int),
            shares@.len() == i,
            forall|k: int| 0 <= k < i ==> (#[trigger] shares@[k])@ == shares_of(all, workers as nat)[k],
        decreases workers - i,
    {
        proof {
            lemma_share_start_step(len as nat, workers as nat, i as nat);
            lemma_share_start_bound(len as nat, workers as nat, (i + 1) as nat);
        }
        let size = if i < remainder {
            quotient + 1
        } else {
            quotient
        };
        let tail = rest.split_off(size);
        shares.push(rest);
        rest = tail;
        i = i + 1;
    }
    assert(shares@.map_values(|s: Vec<T>| s@) =~= shares_of(all, workers as nat));
    shares
}

} // verus!
