//! Executing one history against a cluster. The stages run in order:
//! [`start_run`] sets the schema up, seeds it and hands each session, with
//! the executor of its node, to a unit of concurrent work; the caller runs
//! the units and reads the clock around them; [`finish_run`] tears the
//! schema down and assembles the result, labelled with the backend's label
//! (what the cluster's `info` returns), which the caller persists.
use crate::cluster::{Cluster, ClusterNode};
use crate::history::{
    session_committed, session_executed, session_model, sessions_model, History, Session, Timestamp,
};
use crate::schedule::{covers, gather, gathered, names, plan_tasks, planned, Task};
use vstd::prelude::*;

verus! {

/// A unit of concurrent work: a task and the executor of the node it runs on.
pub struct Dispatch<N> {
    pub task: Task,
    pub node: N,
}

/// The units of one run, spread over `n_node` nodes.
pub struct Run<N> {
    pub n_node: usize,
    pub units: Vec<Dispatch<N>>,
}

/// Why a run could not start.
#[derive(Clone, Copy, Debug, PartialEq, Eq, Structural)]
pub enum StartError {
    /// The cluster reported that setting the schema up failed.
    SetupFailed,
    /// The cluster has no node for the sessions to run on.
    NoNodes,
}

/// Decides, from what setting the cluster up reported and its number of
/// nodes, whether a run of `sessions` goes ahead, and if so plans it: one
/// task per session, session `i` on node `i mod n_node`.
pub fn plan_run(setup_ok: bool, n_node: usize, sessions: Vec<Session>) -> (r: Result<Vec<Task>, StartError>)
    ensures
        (r == Err::<Vec<Task>, StartError>(StartError::SetupFailed)) == !setup_ok,
        (r == Err::<Vec<Task>, StartError>(StartError::NoNodes)) == (setup_ok && n_node == 0 && sessions@.len() > 0),
        r is Ok ==> r.unwrap()@ == planned(n_node as nat, sessions@),
{
    if !setup_ok {
        return Err(StartError::SetupFailed);
    }
    if sessions.len() == 0 {
        let none: Vec<Task> = Vec::new();
        assert(none@ =~= planned(n_node as nat, sessions@));
        return Ok(none);
    }
    if n_node == 0 {
        return Err(StartError::NoNodes);
    }
    Ok(plan_tasks(n_node, sessions))
}

/// Sets `cluster` up for `hist`, seeds it, and hands out one unit per
/// session of a copy of the history's sessions: session `i` goes, with
/// index `i`, to the executor that `get_cluster_node(i mod n_node())`
/// returns. Whether the run starts is what [`plan_run`] decides from what
/// `setup()` and `n_node()` return; when it does not, the error says why,
/// the cluster is left as it was (nothing is seeded) and nothing further
/// runs.
pub fn start_run<N, C>(cluster: &mut C, hist: &History) -> (r: Result<Run<N>, StartError>) where
    N: 'static + Send + ClusterNode,
    C: Cluster<N>,

    ensures
        r is Err ==> *final(cluster) == *old(cluster),
        r == Err::<Run<N>, StartError>(StartError::NoNodes) ==> hist.data@.len() > 0,
        r is Ok ==> {
            let k = r.unwrap().n_node;
            let d = r.unwrap().units@;
            &&& k > 0 || hist.data@.len() == 0
            &&& d.len() == hist.data@.len()
            &&& forall|i: int|
                0 <= i < d.len() ==> {
                    &&& (#[trigger] d[i]).task.index == i
                    &&& d[i].task.node_id == i % (k as int)
                    &&& session_model(d[i].task.session@) == session_model(hist.data@[i]@)
                }
        },
{
    let setup_ok = cluster.setup();
    let n = cluster.n_node();
    let copy = hist.get_cloned_data();
    let ghost copied = copy@;
    assert(copied.len() == sessions_model(copied).len());
    assert(hist.data@.len() == sessions_model(hist.data@).len());
    let mut tasks = match plan_run(setup_ok, n, copy) {
        Ok(tasks) => tasks,
        Err(e) => {
            return Err(e);
        },
    };
    cluster.setup_test(hist.get_params());
    let ghost plan = tasks@;
    let total: usize = tasks.len();
    let mut units: Vec<Dispatch<N>> = Vec::new();
    let mut i: usize = 0;
    while tasks.len() > 0
        invariant
            i <= plan.len() == total,
            plan.len() == hist.data@.len(),
            plan == planned(n as nat, copied),
            sessions_model(copied) == sessions_model(hist.data@),
            tasks@ == plan.subrange(i as int, plan.len() as int),
            units@.len() == i,
            forall|k: int| 0 <= k < i ==> (#[trigger] units@[k]).task == plan[k],
        decreases tasks@.len(),
    {
        let task = tasks.remove(0);
        assert(task == plan[i as int]);
        let node = cluster.get_cluster_node(task.node_id);
        units.push(Dispatch { task, node });
        i = i + 1;
    }
    assert forall|k: int| 0 <= k < units@.len() implies session_model(
        (#[trigger] units@[k]).task.session@,
    ) == session_model(hist.data@[k]@) by {
        assert(sessions_model(copied)[k] == sessions_model(hist.data@)[k]);
    }
    Ok(Run { n_node: n, units })
}

/// Tears the schema of `cluster` down and assembles the result of running
/// `hist` between `start` and `end` on the backend labelled `label`, where
/// `done` are the tasks of the units of [`start_run`] once finished, in any
/// order. The result carries the history's parameters, the label, the two
/// instants and the finished sessions, each at the index of its task.
/// Returns `None` unless the indices of `done` name each session of `hist` exactly once.
pub fn finish_run<N, C>(
    cluster: &C,
    hist: &History,
    label: String,
    start: Timestamp,
    end: Timestamp,
    done: Vec<Task>,
) -> (r: Option<History>) where
    N: 'static + Send + ClusterNode,
    C: Cluster<N>,

    ensures
        r is Some == covers(done@, hist.data@.len()),
        r is Some ==> {
            let h = r.unwrap();
            &&& h.params == hist.params
            &&& h.info@ == label@
            &&& h.start == Some(start)
            &&& h.end == Some(end)
            &&& h.data@ == gathered(done@, hist.data@.len())
        },
{
    cluster.cleanup();
    let n = hist.get_data().len();
    match gather(n, done) {
        Some(data) => Some(History::new(hist.get_cloned_params(), label, start, end, data)),
        None => None,
    }
}

/// No history is recorded with an unresolved transaction. If each finished
/// task holds an execution of the session of the history at its index (what
/// `ClusterNode::exec_session` ensures of the session it is handed), and the
/// tasks name each session once, then each session that [`finish_run`]
/// gathers is an execution of the history's session at its position, with
/// every transaction and every event committed.
pub proof fn lemma_result_committed(data: Seq<Session>, done: Seq<Task>)
    requires
        covers(done, data.len()),
        forall|j: int|
            0 <= j < done.len() ==> session_executed(
                session_model(data[(#[trigger] done[j]).index as int]@),
                session_model(done[j].session@),
            ),
    ensures
        forall|i: int|
            0 <= i < data.len() ==> {
                &&& session_executed(
                    session_model(data[i]@),
                    session_model((#[trigger] gathered(done, data.len())[i])@),
                )
                &&& session_committed(session_model(gathered(done, data.len())[i]@))
            },
{
    assert forall|i: int| 0 <= i < data.len() implies {
        &&& session_executed(
            session_model(data[i]@),
            session_model((#[trigger] gathered(done, data.len())[i])@),
        )
        &&& session_committed(session_model(gathered(done, data.len())[i]@))
    } by {
        assert(names(done, i));
        let j = choose|j: int| 0 <= j < done.len() && #[trigger] done[j].index == i;
        assert(gathered(done, data.len())[i] == done[j].session);
    }
}

} // verus!
