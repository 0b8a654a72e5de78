//! Spreading sessions over the nodes of a cluster, round robin, and putting
//! the executed sessions back in the order they were submitted.
use crate::history::Session;
use vstd::prelude::*;

verus! {

/// One unit of concurrent work: the session at position `index` of the
/// workload, to run on the node at position `node_id` of the cluster.
pub struct Task {
    pub index: usize,
    pub node_id: usize,
    pub session: Session,
}

/// The tasks for `sessions` on `n_node` nodes: session `i` goes to node
/// `i mod n_node`.
pub open spec fn planned(n_node: nat, sessions: Seq<Session>) -> Seq<Task> {
    Seq::new(
        sessions.len(),
        |i: int| Task { index: i as usize, node_id: (i % n_node as int) as usize, session: sessions[i] },
    )
}

/// Some task of `done` has index `k`.
pub open spec fn names(done: Seq<Task>, k: int) -> bool {
    exists|j: int| 0 <= j < done.len() && #[trigger] done[j].index == k
}

/// The indices of `done` name each position `0..n` exactly once.
pub open spec fn covers(done: Seq<Task>, n: nat) -> bool {
    &&& forall|j: int| 0 <= j < done.len() ==> (#[trigger] done[j]).index < n
    &&& forall|j1: int, j2: int|
        0 <= j1 < done.len() && 0 <= j2 < done.len() && j1 != j2 ==> #[trigger] done[j1].index
            != #[trigger] done[j2].index
    &&& forall|k: int| 0 <= k < n ==> #[trigger] names(done, k)
}

/// The sessions of `done`, each at the position its index names.
pub open spec fn gathered(done: Seq<Task>, n: nat) -> Seq<Session> {
    Seq::new(
        n,
        |k: int| done[choose|j: int| 0 <= j < done.len() && #[trigger] done[j].index == k].session,
    )
}

/// Splits `sessions` into one task per session, in order, assigning them to
/// the `n_node` nodes round robin.
pub fn plan_tasks(n_node: usize, sessions: Vec<Session>) -> (r: Vec<Task>)
    requires
        n_node > 0,
    ensures
        r@ == planned(n_node as nat, sessions@),
{
    let mut rest = sessions;
    let mut tasks: Vec<Task> = Vec::new();
    let mut i: usize = 0;
    let ghost all = rest@;
    let total: usize = rest.len();
    while rest.len() > 0
        invariant
            n_node > 0,
            i <= all.len() == total,
            rest@ == all.subrange(i as int, all.len() as int),
            tasks@ == planned(n_node as nat, all).subrange(0, i as int),
        decreases rest@.len(),
    {
        let session = rest.remove(0);
        tasks.push(Task { index: i, node_id: i % n_node, session });
        i = i + 1;
    }
    assert(tasks@ =~= planned(n_node as nat, all));
    tasks
}

/// Puts the sessions of finished tasks back in submission order: the session
/// of the task with index `k` ends at position `k`. Fails unless the indices
/// name each position `0..n` exactly once.
pub fn gather(n: usize, done: Vec<Task>) -> (r: Option<Vec<Session>>)
    ensures
        r.is_some() == covers(done@, n as nat),
        r.is_some() ==> r.unwrap()@ == gathered(done@, n as nat),
{
    let ghost d = done@;
    let mut slots: Vec<Option<Session>> = Vec::new();
    let mut k: usize = 0;
    while k < n
        invariant
            k <= n,
            slots@.len() == k,
            forall|m: int| 0 <= m < k ==> (#[trigger] slots@[m]).is_none(),
        decreases n - k,
    {
        slots.push(None);
        k = k + 1;
    }
    let mut rest = done;
    let total: usize = rest.len();
    let mut j: usize = 0;
    while rest.len() > 0
        invariant
            j <= d.len() == total,
            d == done@,
            rest@ == d.subrange(j as int, d.len() as int),
            slots@.len() == n,
            forall|a: int| 0 <= a < j ==> (#[trigger] d[a]).index < n,
            forall|a1: int, a2: int|
                0 <= a1 < j && 0 <= a2 < j && a1 != a2 ==> #[trigger] d[a1].index != #[trigger] d[a2].index,
            forall|m: int|
                0 <= m < n ==> (#[trigger] slots@[m]).is_some() == exists|a: int|
                    0 <= a < j && #[trigger] d[a].index == m,
            forall|a: int| 0 <= a < j ==> slots@[d[a].index as int] == Some(#[trigger] d[a].session),
        decreases rest@.len(),
    {
        let task = rest.remove(0);
        assert(task == d[j as int]);
        if task.index >= n {
            assert(d[j as int].index >= n);
            return None;
        }
        if slots[task.index].is_some() {
            proof {
                let m = task.index as int;
                assert(slots@[m].is_some());
                let a = choose|a: int| 0 <= a < j && #[trigger] d[a].index == m;
                assert(d[a].index == d[j as int].index);
            }
            return None;
        }
        let ghost before = slots@;
        slots.set(task.index, Some(task.session));
        proof {
            assert forall|m: int|
                0 <= m < n implies (#[trigger] slots@[m]).is_some() == exists|a: int|
                    0 <= a < j + 1 && #[trigger] d[a].index == m by {
                if m == task.index as int {
                    assert(d[j as int].index == m);
                } else {
                    assert(slots@[m] == before[m]);
                    if exists|a: int| 0 <= a < j + 1 && #[trigger] d[a].index == m {
                        let a = choose|a: int| 0 <= a < j + 1 && #[trigger] d[a].index == m;
                        assert(a < j);
                    }
                }
            }
            assert forall|a: int| 0 <= a < j + 1 implies slots@[d[a].index as int] == Some(
                #[trigger] d[a].session,
            ) by {
                if a < j {
                    assert(d[a].index != d[j as int].index);
                }
            }
        }
        j = j + 1;
    }
    assert(d == d.subrange(0, j as int));
    let mut out: Vec<Session> = Vec::new();
    let mut k: usize = 0;
    while slots.len() > 0
        invariant
            k <= n,
            d == done@,
            slots@.len() == n - k,
            forall|a: int| 0 <= a < d.len() ==> (#[trigger] d[a]).index < n,
            forall|a1: int, a2: int|
                0 <= a1 < d.len() && 0 <= a2 < d.len() && a1 != a2 ==> #[trigger] d[a1].index
                    != #[trigger] d[a2].index,
            forall|m: int|
                k <= m < n ==> (#[trigger] slots@[m - k]).is_some() == names(d, m),
            forall|a: int| 0 <= a < d.len() && d[a].index >= k ==> slots@[d[a].index - k] == Some(#[trigger] d[a].session),
            forall|m: int| 0 <= m < k ==> #[trigger] names(d, m),
            out@ == gathered(d, n as nat).subrange(0, k as int),
        decreases slots@.len(),
    {
        let ghost before = slots@;
        let slot = slots.remove(0);
        // The slot of position `k`, as the invariant names it.
        assert(slot == before[k - k]);
        assert forall|m: int| k + 1 <= m < n implies (#[trigger] slots@[m - (k + 1)]).is_some() == names(d, m) by {
            assert(slots@[m - (k + 1)] == before[m - k]);
        }
        match slot {
            Some(s) => {
                proof {
                    assert(names(d, k as int));
                    let a = choose|a: int| 0 <= a < d.len() && #[trigger] d[a].index == k;
                    assert(s == d[a].session);
                }
                out.push(s);
                assert(out@ =~= gathered(d, n as nat).subrange(0, k + 1));
                k = k + 1;
            },
            None => {
                assert(!names(d, k as int));
                return None;
            },
        }
    }
    assert(out@ =~= gathered(d, n as nat));
    Some(out)
}

/// Whatever order the units finish in, gathering gives the executed sessions
/// in the order they were submitted. Here the unit of planned task `perm[j]`
/// is the `j`-th to finish, handing back `results[perm[j]]`, and every
/// planned task finishes exactly once.
pub proof fn lemma_order_preserved(
    n_node: nat,
    sessions: Seq<Session>,
    results: Seq<Session>,
    perm: Seq<int>,
    done: Seq<Task>,
)
    requires
        n_node > 0,
        sessions.len() <= usize::MAX,
        results.len() == sessions.len(),
        forall|j: int| 0 <= j < perm.len() ==> 0 <= #[trigger] perm[j] < sessions.len(),
        forall|j1: int, j2: int|
            0 <= j1 < perm.len() && 0 <= j2 < perm.len() && j1 != j2 ==> #[trigger] perm[j1]
                != #[trigger] perm[j2],
        forall|k: int| 0 <= k < sessions.len() ==> #[trigger] perm.contains(k),
        done.len() == perm.len(),
        forall|j: int|
            0 <= j < done.len() ==> (#[trigger] done[j]).index == planned(n_node, sessions)[perm[j]].index
                && done[j].session == results[perm[j]],
    ensures
        covers(done, sessions.len()),
        gathered(done, sessions.len()) == results,
{
    let n = sessions.len();
    assert forall|j: int| 0 <= j < done.len() implies (#[trigger] done[j]).index == perm[j] by {
        assert(planned(n_node, sessions)[perm[j]].index == perm[j] as usize);
    }
    assert forall|k: int| 0 <= k < n implies #[trigger] names(done, k) by {
        assert(perm.contains(k));
        let j = choose|j: int| 0 <= j < perm.len() && #[trigger] perm[j] == k;
        assert(done[j].index == k);
    }
    assert forall|k: int| 0 <= k < n implies #[trigger] gathered(done, n)[k] == results[k] by {
        assert(names(done, k));
        let j = choose|j: int| 0 <= j < done.len() && #[trigger] done[j].index == k;
        assert(done[j].index == perm[j]);
        assert(done[j].session == results[k]);
    }
    assert(gathered(done, n) =~= results);
}

} // verus!
