//! The workload data model: events, transactions, sessions and histories.
use vstd::prelude::*;

verus! {

/// One read or write of a single variable.
#[derive(Clone, Copy, Debug, PartialEq, Eq, Structural)]
pub struct Event {
    /// `true` for a write, `false` for a read.
    pub write: bool,
    pub variable: usize,
    /// The value to write, or the value observed by a read.
    pub value: u64,
    /// Set once the owning transaction has committed.
    pub success: bool,
}

/// A unit of atomic execution: an ordered list of events.
#[derive(Debug)]
pub struct Transaction {
    pub events: Vec<Event>,
    pub success: bool,
}

/// The mathematical model of a transaction.
pub ghost struct TxnModel {
    pub events: Seq<Event>,
    pub success: bool,
}

impl View for Transaction {
    type V = TxnModel;

    open spec fn view(&self) -> TxnModel {
        TxnModel { events: self.events@, success: self.success }
    }
}

/// One client's ordered stream of transactions.
pub type Session = Vec<Transaction>;

/// The model of a session: the models of its transactions, in order.
pub open spec fn session_model(s: Seq<Transaction>) -> Seq<TxnModel> {
    Seq::new(s.len(), |i: int| s[i]@)
}

/// The model of a list of sessions.
pub open spec fn sessions_model(ss: Seq<Session>) -> Seq<Seq<TxnModel>> {
    Seq::new(ss.len(), |i: int| session_model(ss[i]@))
}

impl TxnModel {
    /// Committed: the transaction and each of its events succeeded.
    pub open spec fn committed(self) -> bool {
        &&& self.success
        &&& forall|j: int| 0 <= j < self.events.len() ==> #[trigger] self.events[j].success
    }

    /// `after` is an execution of `self`: the same operations on the same
    /// variables, the same values written.
    pub open spec fn same_operations(self, after: TxnModel) -> bool {
        &&& after.events.len() == self.events.len()
        &&& forall|j: int|
            0 <= j < self.events.len() ==> {
                let (b, a) = (#[trigger] self.events[j], after.events[j]);
                &&& a.write == b.write
                &&& a.variable == b.variable
                &&& b.write ==> a.value == b.value
            }
    }
}

/// Every transaction of the session has committed.
pub open spec fn session_committed(s: Seq<TxnModel>) -> bool {
    forall|i: int| 0 <= i < s.len() ==> (#[trigger] s[i]).committed()
}

/// `after` is what executing the session `before` to the end leaves: the same
/// transactions, in order, each of them committed.
pub open spec fn session_executed(before: Seq<TxnModel>, after: Seq<TxnModel>) -> bool {
    &&& after.len() == before.len()
    &&& session_committed(after)
    &&& forall|i: int| 0 <= i < before.len() ==> (#[trigger] before[i]).same_operations(after[i])
}

impl Transaction {
    /// A copy of the transaction, event for event.
    pub fn duplicate(&self) -> (r: Transaction)
        ensures
            r@ == self@,
    {
        let mut events: Vec<Event> = Vec::new();
        let mut j: usize = 0;
        while j < self.events.len()
            invariant
                j <= self.events@.len(),
                events@ == self.events@.subrange(0, j as int),
            decreases self.events@.len() - j,
        {
            events.push(self.events[j]);
            j = j + 1;
        }
        assert(events@ == self.events@);
        Transaction { events, success: self.success }
    }
}

/// A copy of a session, transaction for transaction.
pub fn duplicate_session(s: &Session) -> (r: Session)
    ensures
        session_model(r@) == session_model(s@),
{
    let mut out: Session = Vec::new();
    let mut i: usize = 0;
    while i < s.len()
        invariant
            i <= s@.len(),
            out@.len() == i,
            forall|k: int| 0 <= k < i ==> #[trigger] out@[k]@ == s@[k]@,
        decreases s@.len() - i,
    {
        out.push(s[i].duplicate());
        i = i + 1;
    }
    assert(session_model(out@) =~= session_model(s@));
    out
}

/// A copy of a list of sessions.
pub fn duplicate_sessions(ss: &Vec<Session>) -> (r: Vec<Session>)
    ensures
        sessions_model(r@) == sessions_model(ss@),
{
    let mut out: Vec<Session> = Vec::new();
    let mut i: usize = 0;
    while i < ss.len()
        invariant
            i <= ss@.len(),
            out@.len() == i,
            forall|k: int| 0 <= k < i ==> session_model(#[trigger] out@[k]@) == session_model(ss@[k]@),
        decreases ss@.len() - i,
    {
        out.push(duplicate_session(&ss[i]));
        i = i + 1;
    }
    assert(sessions_model(out@) =~= sessions_model(ss@));
    out
}

/// How the generator picked the variable of each event.
#[derive(Clone, Copy, Debug, PartialEq, Eq, Structural)]
pub enum KeyDistribution {
    Uniform,
    Zipf,
    Hotspot,
}

/// The parameters a history was generated with. The library carries them
/// through execution untouched; the three fractional parameters are kept as
/// the bit patterns of their IEEE-754 double values, so that they come back
/// exactly as they were written.
#[derive(Clone, Copy, Debug, PartialEq, Eq, Structural)]
pub struct HistParams {
    pub id: usize,
    pub n_node: usize,
    pub n_variable: usize,
    pub n_transaction: usize,
    pub n_event: usize,
    pub read_probability_bits: u64,
    pub key_distribution: KeyDistribution,
    pub longtxn_proportion_bits: u64,
    pub longtxn_size_bits: u64,
    pub random_txn_size: bool,
}

impl HistParams {
    pub fn get_id(&self) -> (r: usize)
        ensures
            r == self.id,
    {
        self.id
    }

    pub fn get_n_node(&self) -> (r: usize)
        ensures
            r == self.n_node,
    {
        self.n_node
    }

    pub fn get_n_variable(&self) -> (r: usize)
        ensures
            r == self.n_variable,
    {
        self.n_variable
    }
}

/// An instant: whole seconds since the Unix epoch and the nanoseconds past
/// that second.
#[derive(Clone, Copy, Debug, PartialEq, Eq, Structural)]
pub struct Timestamp {
    pub secs: i64,
    pub nanos: u32,
}

/// A test case, or once executed, its result.
#[derive(Debug)]
pub struct History {
    pub params: HistParams,
    /// The label of the backend that executed it; empty for a test case.
    pub info: String,
    pub start: Option<Timestamp>,
    pub end: Option<Timestamp>,
    pub data: Vec<Session>,
}

impl History {
    /// A test case as the generator writes it: no backend label, no times.
    pub fn test_case(params: HistParams, data: Vec<Session>) -> (r: History)
        ensures
            r.params == params,
            r.info@ == Seq::<char>::empty(),
            r.start.is_none(),
            r.end.is_none(),
            r.data@ == data@,
    {
        History { params, info: String::new(), start: None, end: None, data }
    }

    /// An executed history: the parameters of the test case, the label of the
    /// backend, the times that bracket execution and the executed sessions.
    pub fn new(
        params: HistParams,
        info: String,
        start: Timestamp,
        end: Timestamp,
        data: Vec<Session>,
    ) -> (r: History)
        ensures
            r.params == params,
            r.info@ == info@,
            r.start == Some(start),
            r.end == Some(end),
            r.data@ == data@,
    {
        History { params, info, start: Some(start), end: Some(end), data }
    }

    pub fn get_id(&self) -> (r: usize)
        ensures
            r == self.params.id,
    {
        self.params.id
    }

    pub fn get_params(&self) -> (r: &HistParams)
        ensures
            *r == self.params,
    {
        &self.params
    }

    pub fn get_cloned_params(&self) -> (r: HistParams)
        ensures
            r == self.params,
    {
        self.params
    }

    pub fn get_data(&self) -> (r: &Vec<Session>)
        ensures
            r@ == self.data@,
    {
        &self.data
    }

    /// A deep copy of the sessions, to execute while the test case itself
    /// stays as it was.
    pub fn get_cloned_data(&self) -> (r: Vec<Session>)
        ensures
            sessions_model(r@) == sessions_model(self.data@),
    {
        duplicate_sessions(&self.data)
    }

    pub fn get_info(&self) -> (r: &str)
        ensures
            r@ == self.info@,
    {
        self.info.as_str()
    }
}

} // verus!
