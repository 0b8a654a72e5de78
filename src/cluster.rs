//! Cluster members and the two interfaces a database backend implements.
use crate::history::{session_executed, session_model, HistParams, Session};
use vstd::prelude::*;
use vstd::string::StrSliceExecFns;

verus! {

/// A member of a cluster: its resolved `host:port` address, as text, and its
/// 1-based ordinal.
#[derive(Debug)]
pub struct Node {
    pub addr: String,
    pub id: usize,
}

impl Node {
    /// A copy of the node.
    pub fn duplicate(&self) -> (r: Node)
        ensures
            r.addr@ == self.addr@,
            r.id == self.id,
    {
        Node { addr: self.addr.clone(), id: self.id }
    }
}

/// The members of a cluster with the given addresses, numbered from 1 in the
/// order given.
pub fn node_vec(addrs: &Vec<String>) -> (r: Vec<Node>)
    ensures
        r@.len() == addrs@.len(),
        forall|i: int| 0 <= i < addrs@.len() ==> (#[trigger] r@[i]).addr@ == addrs@[i]@ && r@[i].id == i + 1,
{
    let mut nodes: Vec<Node> = Vec::new();
    let mut i: usize = 0;
    while i < addrs.len()
        invariant
            i <= addrs@.len(),
            nodes@.len() == i,
            forall|k: int| 0 <= k < i ==> (#[trigger] nodes@[k]).addr@ == addrs@[k]@ && nodes@[k].id == k + 1,
        decreases addrs@.len() - i,
    {
        nodes.push(Node { addr: addrs[i].clone(), id: i + 1 });
        i = i + 1;
    }
    nodes
}

/// `mysql://<user>:<password>@<address>`
pub open spec fn mysql_url(user: Seq<char>, password: Seq<char>, addr: Seq<char>) -> Seq<char> {
    "mysql://"@ + user + ":"@ + password + "@"@ + addr
}

/// The connection string of a MySQL-compatible node for the given account.
pub fn get_mysql_conn_string(username: &str, password: &str, node: &Node) -> (r: String)
    ensures
        r@ == mysql_url(username@, password@, node.addr@),
{
    let mut url = String::from_str("mysql://");
    url.append(username);
    url.append(":");
    url.append(password);
    url.append("@");
    url.append(node.addr.as_str());
    url
}

/// The connection string of the node at position `i`, if there is one.
pub fn get_mysql_addr(nodes: &Vec<Node>, username: &str, password: &str, i: usize) -> (r: Option<String>)
    ensures
        r.is_some() == (i < nodes@.len()),
        r.is_some() ==> r.unwrap()@ == mysql_url(username@, password@, nodes@[i as int].addr@),
{
    if i < nodes.len() {
        Some(get_mysql_conn_string(username, password, &nodes[i]))
    } else {
        None
    }
}

/// What a backend provides to run a session on one node.
pub trait ClusterNode {
    /// Runs every transaction of `session`, in order, retrying each until it
    /// commits; the values read are filled into the read events.
    fn exec_session(&self, session: &mut Session)
        ensures
            session_executed(session_model(old(session)@), session_model(final(session)@)),
    ;
}

/// What a backend provides to manage the cluster under test. Its node list
/// is fixed for its lifetime.
pub trait Cluster<N> where N: 'static + Send + ClusterNode {
    /// The number of nodes.
    fn n_node(&self) -> usize;

    /// (Re)creates the schema under test; whether that went through.
    fn setup(&self) -> bool;

    /// Seeds the schema with the initial state that `p` implies.
    fn setup_test(&mut self, p: &HistParams);

    /// The node at position `id`.
    fn get_node(&self, id: usize) -> Node;

    /// An executor bound to the node at position `id`.
    fn get_cluster_node(&self, id: usize) -> N;

    /// Tears the schema down.
    fn cleanup(&self);

    /// The label recorded in results.
    fn info(&self) -> String;
}

} // verus!
