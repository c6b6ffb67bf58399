use vstd::prelude::*;

use crate::client_table::{ids_contiguous, ClienTable, Entry};
use crate::configuration::{Address, Configuration};
use crate::kvstore::{store_apply, KVStore};
use crate::log::{numbered_from_one, spec_append, Log, LogEntry, LogEntryView};
use crate::message::{
    ClientRequest, IOMessage, Prepare, PrepareOk, PrepareView, ReplicaMessage, ReplicaMessageView,
    Reply, RequestView,
};
use crate::operation::{OpResult, OperationView};
use crate::quorum::{quorum_size, reaches_quorum, QuorumTracker};
use crate::types::{ClientID, CommitID, OpNumber, ReplicaID, ViewNumber};

verus! {

/// Where a replica stands in the protocol. Only `Normal` processes messages.
#[derive(Clone, Copy, Debug, PartialEq, Eq, Structural)]
pub enum Status {
    Normal,
    ViewChange,
    Recovering,
}

/// Why a replica turned a message down.
#[derive(Clone, Copy, Debug, PartialEq, Eq, Structural)]
pub enum ReplicaError {
    /// Only the primary takes client requests and `PrepareOk`.
    NotPrimary,
    /// Only a backup takes `Prepare`.
    NotBackup,
    /// The replica is not in `Normal` status.
    InvalidStatus,
    /// A client that has not joined; on commit this is a broken invariant.
    UnknownClient,
    /// A message from an earlier view, or a repeated `Prepare`.
    StaleMessage,
    /// A `Prepare` that would leave a gap in the log.
    LogSequenceViolation,
    /// A replica index beyond the configuration.
    UnknownReplica,
    /// A message from a later view; adopting a view belongs to view change.
    FutureView,
    /// A `PrepareOk` for an op-number that the primary has not logged.
    UnknownOperation,
    /// A message that a replica never receives, such as a `Reply`.
    UnexpectedMessage,
}

/// What committed operations act on: the sessions of joined clients, the entries
/// of `Join` senders, and the key/value store.
pub struct ExecState {
    pub clients: Map<ClientID, Entry>,
    pub count: nat,
    pub joins: Map<ClientID, Entry>,
    pub store: Map<Seq<u8>, Seq<u8>>,
}

/// Executes one committed request. `Join` registers the next client, which is
/// answered with its identifier, and the result is cached for the sender of the
/// `Join`; any other operation goes to the store and its result is cached for the
/// client. `None`: the client has not joined.
pub open spec fn execute(st: ExecState, req: RequestView) -> Option<(ExecState, OpResult)> {
    match req.op {
        OperationView::Join => if st.count < u64::MAX {
            let id = (st.count + 1) as ClientID;
            let result = OpResult::JoinResult(Ok(id));
            let cached = Entry { last_request_id: req.request_number, last_result: Some(result) };
            Some(
                (
                    ExecState {
                        clients: st.clients.insert(id, cached),
                        count: st.count + 1,
                        joins: st.joins.insert(req.client_id, cached),
                        store: st.store,
                    },
                    result,
                ),
            )
        } else {
            let result = OpResult::JoinResult(Err(()));
            let cached = Entry { last_request_id: req.request_number, last_result: Some(result) };
            Some((ExecState { joins: st.joins.insert(req.client_id, cached), ..st }, result))
        },
        _ => if st.clients.contains_key(req.client_id) {
            let (store, result) = store_apply(st.store, req.op);
            Some(
                (
                    ExecState {
                        clients: st.clients.insert(
                            req.client_id,
                            Entry { last_request_id: req.request_number, last_result: Some(result) },
                        ),
                        count: st.count,
                        joins: st.joins,
                        store,
                    },
                    result,
                ),
            )
        } else {
            None
        },
    }
}

/// The reply to `req`, addressed to its client.
pub open spec fn reply_for(req: RequestView, view: ViewNumber, result: OpResult) -> (ClientID, Reply) {
    (req.client_id, Reply { view_number: view, request_number: req.request_number, result })
}

/// The outcome of committing a run of log entries in order.
pub struct CommitRun {
    pub machine: ExecState,
    pub replies: Seq<(ClientID, Reply)>,
    pub applied: nat,
    pub failed: bool,
}

/// Commits `entries` in order, starting from `st`, and stops at the first entry whose
/// client has not joined.
pub open spec fn run_entries(st: ExecState, entries: Seq<LogEntryView>, view: ViewNumber) -> CommitRun
    decreases entries.len(),
{
    if entries.len() == 0 {
        CommitRun { machine: st, replies: Seq::empty(), applied: 0, failed: false }
    } else {
        let prev = run_entries(st, entries.drop_last(), view);
        if prev.failed {
            prev
        } else {
            match execute(prev.machine, entries.last().request) {
                Some((next, result)) => CommitRun {
                    machine: next,
                    replies: prev.replies.push(reply_for(entries.last().request, view, result)),
                    applied: prev.applied + 1,
                    failed: false,
                },
                None => CommitRun {
                    machine: prev.machine,
                    replies: prev.replies,
                    applied: prev.applied,
                    failed: true,
                },
            }
        }
    }
}

/// Mathematical value of a [`Replica`].
pub struct ReplicaState {
    pub conf: Seq<Address>,
    pub replica: ReplicaID,
    pub view: ViewNumber,
    pub status: Status,
    pub commit: CommitID,
    pub log: Seq<LogEntryView>,
    pub machine: ExecState,
    pub acks: Map<(ViewNumber, OpNumber), Set<ReplicaID>>,
    pub replica_tx: Seq<(ReplicaID, ReplicaMessageView)>,
    pub client_tx: Seq<(ClientID, Reply)>,
}

/// The replicas `0..n` other than `me`, in order.
pub open spec fn others(n: nat, me: ReplicaID) -> Seq<ReplicaID>
    decreases n,
{
    if n == 0 {
        Seq::empty()
    } else if n - 1 == me {
        others((n - 1) as nat, me)
    } else {
        others((n - 1) as nat, me).push((n - 1) as ReplicaID)
    }
}

proof fn lemma_others_in_range(n: nat, me: ReplicaID)
    ensures
        forall|i: int| 0 <= i < others(n, me).len() ==> (#[trigger] others(n, me)[i]) < n,
    decreases n,
{
    if n > 0 {
        lemma_others_in_range((n - 1) as nat, me);
        let prev = others((n - 1) as nat, me);
        assert forall|i: int| 0 <= i < others(n, me).len() implies (#[trigger] others(n, me)[i])
            < n by {
            if i < prev.len() {
                assert(others(n, me)[i] == prev[i]);
            }
        }
    }
}

/// One `Prepare` for each of `targets`.
pub open spec fn prepares_to(targets: Seq<ReplicaID>, p: PrepareView) -> Seq<
    (ReplicaID, ReplicaMessageView),
> {
    targets.map_values(|i: ReplicaID| (i, ReplicaMessageView::Prepare(p)))
}

/// The acknowledgers recorded for `(view, op)`.
pub open spec fn acks_for(
    acks: Map<(ViewNumber, OpNumber), Set<ReplicaID>>,
    view: ViewNumber,
    op: OpNumber,
) -> Set<ReplicaID> {
    if acks.contains_key((view, op)) {
        acks[(view, op)]
    } else {
        Set::empty()
    }
}

/// Whether the replica is the primary of its view.
pub open spec fn is_primary_in(s: ReplicaState) -> bool {
    s.replica as int == s.view as int % s.conf.len() as int
}

/// What holds of every replica between messages: a non-empty configuration that
/// holds the replica, a gap-free log from op-number 1, a commit number within the
/// log, clients numbered from 1, and queued messages addressed to replicas of the
/// configuration.
pub open spec fn state_inv(s: ReplicaState) -> bool {
    &&& s.conf.len() > 0
    &&& s.replica < s.conf.len()
    &&& s.commit <= s.log.len()
    &&& numbered_from_one(s.log)
    &&& ids_contiguous(s.machine.clients, s.machine.count)
    &&& forall|i: int| 0 <= i < s.replica_tx.len() ==> (#[trigger] s.replica_tx[i]).0 < s.conf.len()
}

/// Where committing toward `target` stops: never below the commit number, and
/// never beyond the local log.
pub open spec fn commit_target(s: ReplicaState, target: CommitID) -> CommitID {
    if target <= s.commit {
        s.commit
    } else if target <= s.log.len() {
        target
    } else {
        s.log.len() as CommitID
    }
}

/// The state after committing the log toward `target`, and whether a commit
/// stopped at a client that has not joined. Only the primary answers clients.
pub open spec fn committed(s: ReplicaState, target: CommitID, answer: bool) -> (ReplicaState, bool) {
    let run = run_entries(
        s.machine,
        s.log.subrange(s.commit as int, commit_target(s, target) as int),
        s.view,
    );
    (
        ReplicaState {
            machine: run.machine,
            commit: (s.commit + run.applied) as CommitID,
            client_tx: if answer {
                s.client_tx + run.replies
            } else {
                s.client_tx
            },
            ..s
        },
        run.failed,
    )
}

/// The state of a replica just started with configuration `conf` as replica `replica`.
pub open spec fn initial_state(conf: Seq<Address>, replica: ReplicaID) -> ReplicaState {
    ReplicaState {
        conf,
        replica,
        view: 0,
        status: Status::Normal,
        commit: 0,
        log: Seq::empty(),
        machine: ExecState { clients: Map::empty(), count: 0, joins: Map::empty(), store: Map::empty() },
        acks: Map::empty(),
        replica_tx: Seq::empty(),
        client_tx: Seq::empty(),
    }
}

/// The primary of the replica's current view.
pub open spec fn primary_of(s: ReplicaState) -> ReplicaID {
    (s.view as int % s.conf.len() as int) as ReplicaID
}

/// The entry that `req` is held against: for a `Join`, the entry of its sender as
/// a `Join` sender if there is one; otherwise the entry of its client, if it has
/// joined.
pub open spec fn session_of(m: ExecState, req: RequestView) -> Option<Entry> {
    if req.op is Join && m.joins.contains_key(req.client_id) {
        Some(m.joins[req.client_id])
    } else if m.clients.contains_key(req.client_id) {
        Some(m.clients[req.client_id])
    } else {
        None
    }
}

/// Whether `req` repeats, or comes before, the last request of the entry it is
/// held against.
pub open spec fn is_duplicate(s: ReplicaState, req: RequestView) -> bool {
    &&& session_of(s.machine, req) is Some
    &&& req.request_number <= session_of(s.machine, req).unwrap().last_request_id
}

/// A repeated request is answered from the cached result, if its request has
/// committed, and is otherwise dropped; the log is left alone.
pub open spec fn duplicate_answered(s: ReplicaState, req: RequestView) -> ReplicaState {
    let e = session_of(s.machine, req).unwrap();
    match e.last_result {
        Some(result) => ReplicaState {
            client_tx: s.client_tx.push(
                (
                    req.client_id,
                    Reply { view_number: s.view, request_number: e.last_request_id, result },
                ),
            ),
            ..s
        },
        None => s,
    }
}

/// The op-number that the next appended operation gets.
pub open spec fn next_op(s: ReplicaState) -> OpNumber {
    (s.log.len() + 1) as OpNumber
}

/// The primary has taken `req` as a new operation: it is logged, the entry of its
/// client (of its sender, for a `Join`) notes the pending request, every other
/// replica gets a `Prepare`, and the primary's own vote is counted.
pub open spec fn accepted(s: ReplicaState, req: RequestView) -> ReplicaState {
    let op = next_op(s);
    let pending = Entry { last_request_id: req.request_number, last_result: None };
    let machine = if req.op is Join {
        ExecState { joins: s.machine.joins.insert(req.client_id, pending), ..s.machine }
    } else {
        ExecState { clients: s.machine.clients.insert(req.client_id, pending), ..s.machine }
    };
    let p = PrepareView { view_number: s.view, request: req, op_number: op, commit_number: s.commit };
    ReplicaState {
        log: spec_append(s.log, s.view, req),
        machine,
        acks: s.acks.insert((s.view, op), acks_for(s.acks, s.view, op).insert(s.replica)),
        replica_tx: s.replica_tx + prepares_to(others(s.conf.len(), s.replica), p),
        ..s
    }
}

/// The outcome of a commit run as a result.
pub open spec fn commit_result(failed: bool) -> Result<(), ReplicaError> {
    if failed {
        Err(ReplicaError::UnknownClient)
    } else {
        Ok(())
    }
}

/// How a replica handles a client request.
pub open spec fn on_client_request_spec(s: ReplicaState, req: RequestView) -> (
    ReplicaState,
    Result<(), ReplicaError>,
) {
    if s.status != Status::Normal {
        (s, Err(ReplicaError::InvalidStatus))
    } else if !is_primary_in(s) {
        (s, Err(ReplicaError::NotPrimary))
    } else if !(req.op is Join) && !s.machine.clients.contains_key(req.client_id) {
        (s, Err(ReplicaError::UnknownClient))
    } else if is_duplicate(s, req) {
        (duplicate_answered(s, req), Ok(()))
    } else {
        let a = accepted(s, req);
        if reaches_quorum(acks_for(s.acks, s.view, next_op(s)), s.replica, quorum_size(s.conf.len())) {
            let (c, failed) = committed(a, next_op(s), true);
            (c, commit_result(failed))
        } else {
            (a, Ok(()))
        }
    }
}

/// How a replica handles a `Prepare`. A backup logs the next operation, commits as
/// far as the primary has and its own log reaches, and acknowledges to the primary.
pub open spec fn on_prepare_spec(s: ReplicaState, p: PrepareView) -> (
    ReplicaState,
    Result<(), ReplicaError>,
) {
    if s.status != Status::Normal {
        (s, Err(ReplicaError::InvalidStatus))
    } else if is_primary_in(s) {
        (s, Err(ReplicaError::NotBackup))
    } else if p.view_number < s.view {
        (s, Err(ReplicaError::StaleMessage))
    } else if p.view_number > s.view {
        (s, Err(ReplicaError::FutureView))
    } else if p.op_number <= s.log.len() {
        (s, Err(ReplicaError::StaleMessage))
    } else if p.op_number > s.log.len() + 1 {
        (s, Err(ReplicaError::LogSequenceViolation))
    } else {
        let logged = ReplicaState { log: spec_append(s.log, s.view, p.request), ..s };
        let (c, failed) = committed(logged, p.commit_number, false);
        if failed {
            (c, Err(ReplicaError::UnknownClient))
        } else {
            (
                ReplicaState {
                    replica_tx: c.replica_tx.push(
                        (
                            primary_of(s),
                            ReplicaMessageView::PrepareOk(
                                PrepareOk {
                                    view_number: s.view,
                                    op_number: p.op_number,
                                    replica_number: s.replica,
                                },
                            ),
                        ),
                    ),
                    ..c
                },
                Ok(()),
            )
        }
    }
}

/// How a replica handles a `PrepareOk`. The primary counts the acknowledgement and,
/// when it completes a quorum, commits up to its op-number and answers the clients.
/// An acknowledgement of an op-number already committed changes nothing.
pub open spec fn on_prepare_ok_spec(s: ReplicaState, ok: PrepareOk) -> (
    ReplicaState,
    Result<(), ReplicaError>,
) {
    if s.status != Status::Normal {
        (s, Err(ReplicaError::InvalidStatus))
    } else if !is_primary_in(s) {
        (s, Err(ReplicaError::NotPrimary))
    } else if ok.op_number <= s.commit {
        (s, Ok(()))
    } else if ok.view_number < s.view {
        (s, Err(ReplicaError::StaleMessage))
    } else if ok.view_number > s.view {
        (s, Err(ReplicaError::FutureView))
    } else if ok.op_number > s.log.len() {
        (s, Err(ReplicaError::UnknownOperation))
    } else if ok.replica_number >= s.conf.len() {
        (s, Err(ReplicaError::UnknownReplica))
    } else {
        let before = acks_for(s.acks, s.view, ok.op_number);
        let counted = ReplicaState {
            acks: s.acks.insert((s.view, ok.op_number), before.insert(ok.replica_number)),
            ..s
        };
        if reaches_quorum(before, ok.replica_number, quorum_size(s.conf.len())) {
            let (c, failed) = committed(counted, ok.op_number, true);
            (c, commit_result(failed))
        } else {
            (counted, Ok(()))
        }
    }
}

/// Executes `req` on the client table and the store, as [`execute`] says.
fn execute_request(table: &mut ClienTable, store: &mut KVStore, req: &ClientRequest) -> (r: Option<
    OpResult,
>)
    requires
        old(table).wf(),
    ensures
        final(table).wf(),
        match execute(
            ExecState {
                clients: old(table)@,
                count: old(table).size(),
                joins: old(table).joins(),
                store: old(store)@,
            },
            req@,
        ) {
            Some((st, result)) => {
                &&& r == Some(result)
                &&& final(table)@ == st.clients
                &&& final(table).size() == st.count
                &&& final(table).joins() == st.joins
                &&& final(store)@ == st.store
            },
            None => {
                &&& r is None
                &&& final(table)@ == old(table)@
                &&& final(table).size() == old(table).size()
                &&& final(table).joins() == old(table).joins()
                &&& final(store)@ == old(store)@
            },
        },
{
    if req.op.is_join() {
        if table.len() < u64::MAX {
            let id = table.add_client();
            let result = OpResult::JoinResult(Ok(id));
            table.update_client(id, req.request_number, Some(result));
            table.update_join(req.client_id, req.request_number, Some(result));
            proof {
                let e = Entry { last_request_id: req.request_number, last_result: Some(result) };
                assert(old(table)@.insert(id, crate::client_table::fresh_entry()).insert(id, e)
                    =~= old(table)@.insert(id, e));
            }
            Some(result)
        } else {
            let result = OpResult::JoinResult(Err(()));
            table.update_join(req.client_id, req.request_number, Some(result));
            Some(result)
        }
    } else {
        match table.find_client(req.client_id) {
            None => None,
            Some(_) => {
                let result = store.apply(&req.op);
                table.update_client(req.client_id, req.request_number, Some(result));
                Some(result)
            },
        }
    }
}

/// Once a commit run has stopped, longer runs stop at the same place.
proof fn lemma_run_failed_stays(st: ExecState, entries: Seq<LogEntryView>, k: nat, view: ViewNumber)
    requires
        k <= entries.len(),
        run_entries(st, entries.subrange(0, k as int), view).failed,
    ensures
        run_entries(st, entries, view) == run_entries(st, entries.subrange(0, k as int), view),
    decreases entries.len() - k,
{
    if k < entries.len() {
        let longer = entries.subrange(0, k + 1 as int);
        assert(longer.drop_last() =~= entries.subrange(0, k as int));
        lemma_run_failed_stays(st, entries, k + 1, view);
    } else {
        assert(entries.subrange(0, k as int) =~= entries);
    }
}

/// A replica: its place in the configuration, its view and status, its log and
/// commit number, the client sessions, the store, the quorum tracker, and the
/// messages waiting to go out.
pub struct Replica {
    conf: Configuration,
    replica: ReplicaID,
    view: ViewNumber,
    status: Status,
    log: Log,
    commit: CommitID,
    client_table: ClienTable,
    store: KVStore,
    quorum: QuorumTracker,
    replica_tx: Vec<(ReplicaID, ReplicaMessage)>,
    client_tx: Vec<(ClientID, Reply)>,
}

impl View for Replica {
    type V = ReplicaState;

    closed spec fn view(&self) -> ReplicaState {
        ReplicaState {
            conf: self.conf@,
            replica: self.replica,
            view: self.view,
            status: self.status,
            commit: self.commit,
            log: self.log@,
            machine: ExecState {
                clients: self.client_table@,
                count: self.client_table.size(),
                joins: self.client_table.joins(),
                store: self.store@,
            },
            acks: self.quorum.acks(),
            replica_tx: self.replica_tx@.map_values(|m: (ReplicaID, ReplicaMessage)| (m.0, m.1@)),
            client_tx: self.client_tx@,
        }
    }
}

impl Replica {
    /// The parts are well-formed and agree on the cluster size.
    pub closed spec fn parts_wf(&self) -> bool {
        &&& self.conf.wf()
        &&& self.log.wf()
        &&& self.client_table.wf()
        &&& self.quorum.wf()
        &&& self.quorum.cluster_size() == self.conf@.len()
    }

    /// Well-formed: the parts are, and [`state_inv`] holds.
    pub open spec fn wf(&self) -> bool {
        self.parts_wf() && state_inv(self@)
    }

    /// Replica number `replica` of `conf`, in view 0 and `Normal` status, with an
    /// empty log.
    pub fn new(conf: Configuration, replica: ReplicaID) -> (r: Result<Replica, ReplicaError>)
        requires
            conf.wf(),
        ensures
            match r {
                Ok(rep) => replica < conf@.len() && rep.wf() && rep@ == initial_state(conf@, replica),
                Err(e) => replica >= conf@.len() && e == ReplicaError::UnknownReplica,
            },
    {
        let n = conf.replica_count();
        if replica >= n {
            return Err(ReplicaError::UnknownReplica);
        }
        let rep = Replica {
            conf,
            replica,
            view: 0,
            status: Status::Normal,
            log: Log::new(),
            commit: 0,
            client_table: ClienTable::new(),
            store: KVStore::new(),
            quorum: QuorumTracker::new(n),
            replica_tx: Vec::new(),
            client_tx: Vec::new(),
        };
        assert(rep@.replica_tx =~= Seq::<(ReplicaID, ReplicaMessageView)>::empty());
        assert(rep@ == initial_state(rep.conf@, replica));
        Ok(rep)
    }

    /// Whether this replica is the primary of its view.
    pub fn is_primary(&self) -> (r: bool)
        requires
            self.wf(),
        ensures
            r == is_primary_in(self@),
    {
        let p = self.conf.primary_id(self.view);
        self.replica == p
    }

    /// Whether this replica is a backup in its view.
    pub fn is_backup(&self) -> (r: bool)
        requires
            self.wf(),
        ensures
            r == !is_primary_in(self@),
    {
        !self.is_primary()
    }

    /// Commits the log in order up to op-number `target`, or up to its last entry
    /// when `target` lies beyond it, answering the clients when `answer` is set. A
    /// target at or below the commit number changes nothing. Stops with
    /// `UnknownClient` at an entry whose client has not joined.
    fn commit_ops(&mut self, target: CommitID, answer: bool) -> (r: Result<(), ReplicaError>)
        requires
            old(self).wf(),
        ensures
            final(self).wf(),
            final(self)@ == committed(old(self)@, target, answer).0,
            r == commit_result(committed(old(self)@, target, answer).1),
            final(self)@.log == old(self)@.log,
            final(self)@.commit <= final(self)@.log.len(),
            r is Ok ==> final(self)@.commit == commit_target(old(self)@, target),
            target <= old(self)@.commit ==> final(self)@ == old(self)@ && r is Ok,
    {
        let ghost s0 = self@;
        let last = self.log.last_op_num();
        let goal = if target <= self.commit {
            self.commit
        } else if target <= last {
            target
        } else {
            last
        };
        assert(goal == commit_target(s0, target));
        while self.commit < goal
            invariant
                self.wf(),
                s0 == old(self)@,
                state_inv(s0),
                goal == commit_target(s0, target),
                s0.commit <= self.commit <= goal <= s0.log.len(),
                ({
                    let run = run_entries(
                        s0.machine,
                        s0.log.subrange(s0.commit as int, self.commit as int),
                        s0.view,
                    );
                    &&& !run.failed
                    &&& self.commit == s0.commit + run.applied
                    &&& self@ == ReplicaState {
                        machine: run.machine,
                        commit: self.commit,
                        client_tx: if answer {
                            s0.client_tx + run.replies
                        } else {
                            s0.client_tx
                        },
                        ..s0
                    }
                }),
            decreases goal - self.commit,
        {
            let next = self.commit + 1;
            let ghost prev = run_entries(
                s0.machine,
                s0.log.subrange(s0.commit as int, self.commit as int),
                s0.view,
            );
            let ghost entries = s0.log.subrange(s0.commit as int, next as int);
            assert(entries.drop_last() =~= s0.log.subrange(s0.commit as int, self.commit as int));
            assert(entries.last() == s0.log[self.commit as int]);
            let entry = match self.log.get_entry(next) {
                Some(e) => e,
                None => {
                    proof {
                        assert(false);
                    }
                    return Err(ReplicaError::UnknownClient);
                },
            };
            match execute_request(&mut self.client_table, &mut self.store, &entry.request) {
                None => {
                    assert(entries.last().request == entry.request@);
                    assert(prev.machine == self@.machine);
                    assert(run_entries(s0.machine, entries, s0.view).failed);
                    proof {
                        let all = s0.log.subrange(s0.commit as int, goal as int);
                        assert(all.subrange(0, (next - s0.commit) as int) =~= entries);
                        lemma_run_failed_stays(s0.machine, all, (next - s0.commit) as nat, s0.view);
                        assert(self@ == committed(s0, target, answer).0);
                        assert(committed(s0, target, answer).1);
                    }
                    return Err(ReplicaError::UnknownClient);
                },
                Some(result) => {
                    if answer {
                        self.client_tx.push(
                            (
                                entry.request.client_id,
                                Reply {
                                    view_number: self.view,
                                    request_number: entry.request.request_number,
                                    result,
                                },
                            ),
                        );
                    }
                    self.commit = next;
                    proof {
                        if answer {
                            assert(s0.client_tx + prev.replies.push(
                                reply_for(entries.last().request, s0.view, result),
                            ) =~= (s0.client_tx + prev.replies).push(
                                reply_for(entries.last().request, s0.view, result),
                            ));
                        }
                        assert(self@.replica_tx == s0.replica_tx);
                    }
                },
            }
        }
        proof {
            assert(s0.log.subrange(s0.commit as int, goal as int) =~= s0.log.subrange(
                s0.commit as int,
                self.commit as int,
            ));
            if target <= s0.commit {
                assert(s0.log.subrange(s0.commit as int, s0.commit as int) =~= Seq::<
                    LogEntryView,
                >::empty());
                assert(s0.client_tx + Seq::<(ClientID, Reply)>::empty() =~= s0.client_tx);
            }
        }
        Ok(())
    }

    /// Queues a copy of `msg` for every replica but this one, in replica order.
    fn broadcast_prepare(&mut self, msg: Prepare)
        requires
            old(self).wf(),
        ensures
            final(self).wf(),
            final(self)@ == (ReplicaState {
                replica_tx: old(self)@.replica_tx + prepares_to(
                    others(old(self)@.conf.len(), old(self)@.replica),
                    msg@,
                ),
                ..old(self)@
            }),
    {
        let ghost s0 = self@;
        let n = self.conf.replica_count();
        let mut i: usize = 0;
        while i < n
            invariant
                self.wf(),
                s0 == old(self)@,
                state_inv(s0),
                n == s0.conf.len(),
                i <= n,
                self@ == (ReplicaState {
                    replica_tx: s0.replica_tx + prepares_to(others(i as nat, s0.replica), msg@),
                    ..s0
                }),
            decreases n - i,
        {
            let ghost before = self.replica_tx@;
            if i != self.replica {
                let copy = Prepare {
                    view_number: msg.view_number,
                    request: msg.request.duplicate(),
                    op_number: msg.op_number,
                    commit_number: msg.commit_number,
                };
                self.replica_tx.push((i, ReplicaMessage::Prepare(copy)));
                proof {
                    let f = |m: (ReplicaID, ReplicaMessage)| (m.0, m.1@);
                    assert(self.replica_tx@.map_values(f) =~= before.map_values(f).push(
                        (i, ReplicaMessageView::Prepare(msg@)),
                    ));
                    let g = |j: ReplicaID| (j, ReplicaMessageView::Prepare(msg@));
                    assert(others((i + 1) as nat, s0.replica) == others(i as nat, s0.replica).push(i));
                    assert(others((i + 1) as nat, s0.replica).map_values(g) =~= others(
                        i as nat,
                        s0.replica,
                    ).map_values(g).push((i, ReplicaMessageView::Prepare(msg@))));
                    assert(s0.replica_tx + prepares_to(others((i + 1) as nat, s0.replica), msg@)
                        =~= (s0.replica_tx + prepares_to(others(i as nat, s0.replica), msg@)).push(
                        (i, ReplicaMessageView::Prepare(msg@)),
                    ));
                    lemma_others_in_range((i + 1) as nat, s0.replica);
                    let added = prepares_to(others((i + 1) as nat, s0.replica), msg@);
                    assert forall|k: int| 0 <= k < self@.replica_tx.len() implies (
                    #[trigger] self@.replica_tx[k]).0 < self@.conf.len() by {
                        if k >= s0.replica_tx.len() {
                            assert(self@.replica_tx[k] == added[k - s0.replica_tx.len()]);
                        }
                    }
                }
            } else {
                assert(others((i + 1) as nat, s0.replica) == others(i as nat, s0.replica));
            }
            i = i + 1;
        }
    }

    /// Handles a client request. Only the primary in `Normal` status takes one; a
    /// client other than a joining one must have joined. A request that repeats the
    /// client's last one is answered from the cache without touching the log. A new
    /// one is logged, sent to every backup in a `Prepare`, and counted with the
    /// primary's own vote; in a one-replica cluster that vote commits it.
    pub fn on_client_request(&mut self, req: ClientRequest) -> (r: Result<(), ReplicaError>)
        requires
            old(self).wf(),
            old(self)@.log.len() < u64::MAX,
        ensures
            final(self).wf(),
            (final(self)@, r) == on_client_request_spec(old(self)@, req@),
    {
        let ghost s0 = self@;
        if self.status != Status::Normal {
            return Err(ReplicaError::InvalidStatus);
        }
        if !self.is_primary() {
            return Err(ReplicaError::NotPrimary);
        }
        let is_join = req.op.is_join();
        let session: Option<Entry> = if is_join {
            match self.client_table.find_join(req.client_id) {
                Some(e) => Some(*e),
                None => match self.client_table.find_client(req.client_id) {
                    Some(e) => Some(*e),
                    None => None,
                },
            }
        } else {
            match self.client_table.find_client(req.client_id) {
                Some(e) => Some(*e),
                None => None,
            }
        };
        match session {
            None => {
                if !is_join {
                    return Err(ReplicaError::UnknownClient);
                }
            },
            Some(e) => {
                if req.request_number <= e.last_request_id {
                    match e.last_result {
                        Some(result) => {
                            let reply = Reply {
                                view_number: self.view,
                                request_number: e.last_request_id,
                                result,
                            };
                            self.client_tx.push((req.client_id, reply));
                        },
                        None => {},
                    }
                    return Ok(());
                }
            },
        }
        let view = self.view;
        let commit = self.commit;
        let client_id = req.client_id;
        let request_number = req.request_number;
        let copy = req.duplicate();
        let op = self.log.append(view, req);
        if is_join {
            self.client_table.update_join(client_id, request_number, None);
        } else {
            self.client_table.update_client(client_id, request_number, None);
        }
        assert(self.wf());
        self.broadcast_prepare(
            Prepare { view_number: view, request: copy, op_number: op, commit_number: commit },
        );
        let ghost sent = self@;
        let decided = self.quorum.record_ack(view, op, self.replica);
        assert(self@ == accepted(s0, req@));
        assert(self@.replica_tx == sent.replica_tx);
        assert forall|k: int| 0 <= k < self@.replica_tx.len() implies (
        #[trigger] self@.replica_tx[k]).0 < self@.conf.len() by {
            assert(sent.replica_tx[k] == self@.replica_tx[k]);
        }
        if decided {
            self.commit_ops(op, true)
        } else {
            Ok(())
        }
    }

    /// Handles a `Prepare` from the primary. Only a backup in `Normal` status takes
    /// one, and only for its own view and for the op-number that follows its log.
    /// It logs the operation, commits up to the primary's commit number as far as
    /// its log reaches, and queues a `PrepareOk` for the primary.
    pub fn on_prepare(&mut self, prepare: Prepare) -> (r: Result<(), ReplicaError>)
        requires
            old(self).wf(),
        ensures
            final(self).wf(),
            (final(self)@, r) == on_prepare_spec(old(self)@, prepare@),
    {
        let ghost s0 = self@;
        if self.status != Status::Normal {
            return Err(ReplicaError::InvalidStatus);
        }
        if self.is_primary() {
            return Err(ReplicaError::NotBackup);
        }
        if prepare.view_number < self.view {
            return Err(ReplicaError::StaleMessage);
        }
        if prepare.view_number > self.view {
            return Err(ReplicaError::FutureView);
        }
        let last = self.log.last_op_num();
        if prepare.op_number <= last {
            return Err(ReplicaError::StaleMessage);
        }
        if prepare.op_number - 1 > last {
            return Err(ReplicaError::LogSequenceViolation);
        }
        let op_number = prepare.op_number;
        let target = prepare.commit_number;
        self.log.append_entry(LogEntry { op_number, view_number: self.view, request: prepare.request });
        let ghost logged = self@;
        assert(logged == (ReplicaState { log: spec_append(s0.log, s0.view, prepare@.request), ..s0 }));
        let res = self.commit_ops(target, false);
        if res.is_err() {
            return res;
        }
        let primary = self.conf.primary_id(self.view);
        let ack = PrepareOk { view_number: self.view, op_number, replica_number: self.replica };
        let ghost before = self.replica_tx@;
        self.replica_tx.push((primary, ReplicaMessage::PrepareOk(ack)));
        proof {
            let f = |m: (ReplicaID, ReplicaMessage)| (m.0, m.1@);
            assert(self.replica_tx@.map_values(f) =~= before.map_values(f).push(
                (primary, ReplicaMessageView::PrepareOk(ack)),
            ));
        }
        Ok(())
    }

    /// Handles a `PrepareOk` from a backup. Only the primary in `Normal` status takes
    /// one. An acknowledgement of an op-number already committed is taken without
    /// any change, whatever its view; any other must be of the primary's own view. Otherwise it is counted, and the one that completes
    /// a quorum commits the log up to its op-number and answers the clients.
    pub fn on_prepare_ok(&mut self, ok: PrepareOk) -> (r: Result<(), ReplicaError>)
        requires
            old(self).wf(),
        ensures
            final(self).wf(),
            (final(self)@, r) == on_prepare_ok_spec(old(self)@, ok),
    {
        let ghost s0 = self@;
        if self.status != Status::Normal {
            return Err(ReplicaError::InvalidStatus);
        }
        if !self.is_primary() {
            return Err(ReplicaError::NotPrimary);
        }
        if ok.op_number <= self.commit {
            return Ok(());
        }
        if ok.view_number < self.view {
            return Err(ReplicaError::StaleMessage);
        }
        if ok.view_number > self.view {
            return Err(ReplicaError::FutureView);
        }
        if ok.op_number > self.log.last_op_num() {
            return Err(ReplicaError::UnknownOperation);
        }
        if ok.replica_number >= self.conf.replica_count() {
            return Err(ReplicaError::UnknownReplica);
        }
        let decided = self.quorum.record_ack(ok.view_number, ok.op_number, ok.replica_number);
        if decided {
            self.commit_ops(ok.op_number, true)
        } else {
            Ok(())
        }
    }

    /// Handles a message from another replica.
    pub fn on_replica_message(&mut self, msg: ReplicaMessage) -> (r: Result<(), ReplicaError>)
        requires
            old(self).wf(),
        ensures
            final(self).wf(),
            (final(self)@, r) == (match msg@ {
                ReplicaMessageView::Prepare(p) => on_prepare_spec(old(self)@, p),
                ReplicaMessageView::PrepareOk(ok) => on_prepare_ok_spec(old(self)@, ok),
            }),
    {
        match msg {
            ReplicaMessage::Prepare(p) => self.on_prepare(p),
            ReplicaMessage::PrepareOk(ok) => self.on_prepare_ok(ok),
        }
    }

    /// Handles any inbound message; a replica never takes a `Reply`.
    pub fn on_message(&mut self, msg: IOMessage) -> (r: Result<(), ReplicaError>)
        requires
            old(self).wf(),
            old(self)@.log.len() < u64::MAX,
        ensures
            final(self).wf(),
            (final(self)@, r) == (match msg {
                IOMessage::Reply(_) => (old(self)@, Err(ReplicaError::UnexpectedMessage)),
                IOMessage::Client(req) => on_client_request_spec(old(self)@, req@),
                IOMessage::Replica(m) => match m@ {
                    ReplicaMessageView::Prepare(p) => on_prepare_spec(old(self)@, p),
                    ReplicaMessageView::PrepareOk(ok) => on_prepare_ok_spec(old(self)@, ok),
                },
            }),
    {
        match msg {
            IOMessage::Reply(_) => Err(ReplicaError::UnexpectedMessage),
            IOMessage::Client(req) => self.on_client_request(req),
            IOMessage::Replica(m) => self.on_replica_message(m),
        }
    }

    /// Takes the oldest queued message for another replica, with its destination.
    pub fn dequeue_replica_msg(&mut self) -> (r: Option<(ReplicaID, ReplicaMessage)>)
        requires
            old(self).wf(),
        ensures
            final(self).wf(),
            old(self)@.replica_tx.len() == 0 ==> r is None && final(self)@ == old(self)@,
            old(self)@.replica_tx.len() > 0 ==> {
                &&& r is Some
                &&& (r.unwrap().0, r.unwrap().1@) == old(self)@.replica_tx[0]
                &&& final(self)@ == (ReplicaState {
                    replica_tx: old(self)@.replica_tx.drop_first(),
                    ..old(self)@
                })
            },
    {
        if self.replica_tx.len() == 0 {
            return None;
        }
        let ghost before = self.replica_tx@;
        let m = self.replica_tx.remove(0);
        proof {
            let f = |m: (ReplicaID, ReplicaMessage)| (m.0, m.1@);
            assert(self.replica_tx@.map_values(f) =~= before.map_values(f).drop_first());
            assert forall|k: int| 0 <= k < self@.replica_tx.len() implies (
            #[trigger] self@.replica_tx[k]).0 < self@.conf.len() by {
                assert(self@.replica_tx[k] == old(self)@.replica_tx[k + 1]);
            }
        }
        Some(m)
    }

    /// Takes the oldest queued message for another replica, with the address of
    /// that replica in the configuration.
    pub fn dequeue_replica_message(&mut self) -> (r: Option<(Address, ReplicaMessage)>)
        requires
            old(self).wf(),
        ensures
            final(self).wf(),
            old(self)@.replica_tx.len() == 0 ==> r is None && final(self)@ == old(self)@,
            old(self)@.replica_tx.len() > 0 ==> {
                &&& r is Some
                &&& r.unwrap().0 == old(self)@.conf[old(self)@.replica_tx[0].0 as int]
                &&& r.unwrap().1@ == old(self)@.replica_tx[0].1
                &&& final(self)@ == (ReplicaState {
                    replica_tx: old(self)@.replica_tx.drop_first(),
                    ..old(self)@
                })
            },
    {
        match self.dequeue_replica_msg() {
            None => None,
            Some((to, m)) => match self.conf.find_addr(to) {
                Ok(addr) => Some((addr, m)),
                Err(_) => {
                    assert(old(self)@.replica_tx[0].0 < old(self)@.conf.len());
                    None
                },
            },
        }
    }

    /// Takes the oldest queued reply, with the client it is for.
    pub fn dequeue_client_reply(&mut self) -> (r: Option<(ClientID, Reply)>)
        requires
            old(self).wf(),
        ensures
            final(self).wf(),
            old(self)@.client_tx.len() == 0 ==> r is None && final(self)@ == old(self)@,
            old(self)@.client_tx.len() > 0 ==> {
                &&& r == Some(old(self)@.client_tx[0])
                &&& final(self)@ == (ReplicaState {
                    client_tx: old(self)@.client_tx.drop_first(),
                    ..old(self)@
                })
            },
    {
        if self.client_tx.len() == 0 {
            return None;
        }
        let m = self.client_tx.remove(0);
        assert(self.client_tx@ =~= old(self)@.client_tx.drop_first());
        Some(m)
    }

    /// The current view.
    pub fn view_number(&self) -> (r: ViewNumber)
        ensures
            r == self@.view,
    {
        self.view
    }

    /// The commit number.
    pub fn commit_number(&self) -> (r: CommitID)
        ensures
            r == self@.commit,
    {
        self.commit
    }

    /// The status.
    pub fn status(&self) -> (r: Status)
        ensures
            r == self@.status,
    {
        self.status
    }

    /// This replica's index in the configuration.
    pub fn replica_id(&self) -> (r: ReplicaID)
        ensures
            r == self@.replica,
    {
        self.replica
    }

    /// The op-number of the last log entry, 0 for an empty log.
    pub fn last_op_number(&self) -> (r: OpNumber)
        requires
            self.wf(),
        ensures
            r == self@.log.len(),
    {
        self.log.last_op_num()
    }

    /// The operation log.
    pub fn log(&self) -> (r: &Log)
        requires
            self.wf(),
        ensures
            r.wf(),
            r@ == self@.log,
    {
        &self.log
    }

    /// The configuration.
    pub fn configuration(&self) -> (r: &Configuration)
        ensures
            r@ == self@.conf,
    {
        &self.conf
    }

    /// The session entry of client `id`, if it has joined.
    pub fn client_entry(&self, id: ClientID) -> (r: Option<&Entry>)
        ensures
            match r {
                Some(e) => self@.machine.clients.contains_key(id) && *e == self@.machine.clients[id],
                None => !self@.machine.clients.contains_key(id),
            },
    {
        self.client_table.find_client(id)
    }

    /// The value that the store holds under `key`, if any.
    pub fn stored_value(&self, key: &Vec<u8>) -> (r: Option<&Vec<u8>>)
        ensures
            match r {
                Some(v) => self@.machine.store.contains_key(key@) && v@ == self@.machine.store[key@],
                None => !self@.machine.store.contains_key(key@),
            },
    {
        self.store.get(key)
    }
}

} // verus!

verus! {

/// Whenever a replica's commit number is `k`, its log holds an entry for every
/// op-number from 1 to `k`.
pub proof fn commit_implies_log_presence(r: &Replica)
    requires
        r.wf(),
    ensures
        forall|k: int| 1 <= k <= r@.commit ==> #[trigger] r@.log[k - 1].op_number == k,
{
}

/// A `PrepareOk` for an op-number that has already committed, from any view, is
/// taken without error and without any change: neither the log, nor the commit
/// number, nor the acknowledgements, nor the outbound queues move.
pub proof fn stale_prepare_ok_changes_nothing(s: ReplicaState, ok: PrepareOk)
    requires
        state_inv(s),
        s.status == Status::Normal,
        is_primary_in(s),
        ok.op_number <= s.commit,
    ensures
        on_prepare_ok_spec(s, ok) == (s, Ok::<(), ReplicaError>(())),
{
}

proof fn lemma_run_applies_all(st: ExecState, entries: Seq<LogEntryView>, view: ViewNumber)
    ensures
        !run_entries(st, entries, view).failed ==> run_entries(st, entries, view).applied
            == entries.len(),
    decreases entries.len(),
{
    if entries.len() > 0 {
        lemma_run_applies_all(st, entries.drop_last(), view);
    }
}

/// On the primary, an acknowledgement in its own view of an op-number past the
/// commit number is counted, and it commits up to that op-number exactly when it
/// completes the quorum of that op-number's acknowledgers (the primary's own vote
/// is among them from the start); otherwise the commit number and the replies stay
/// as they are.
pub proof fn prepare_ok_commits_on_quorum(s: ReplicaState, ok: PrepareOk)
    requires
        state_inv(s),
        s.status == Status::Normal,
        is_primary_in(s),
        ok.view_number == s.view,
        s.commit < ok.op_number <= s.log.len(),
        ok.replica_number < s.conf.len(),
    ensures
        ({
            let before = acks_for(s.acks, s.view, ok.op_number);
            let (after, r) = on_prepare_ok_spec(s, ok);
            &&& after.acks == s.acks.insert(
                (s.view, ok.op_number),
                before.insert(ok.replica_number),
            )
            &&& after.log == s.log
            &&& !reaches_quorum(before, ok.replica_number, quorum_size(s.conf.len())) ==> {
                &&& r == Ok::<(), ReplicaError>(())
                &&& after.commit == s.commit
                &&& after.client_tx == s.client_tx
            }
            &&& reaches_quorum(before, ok.replica_number, quorum_size(s.conf.len())) && r is Ok
                ==> after.commit == ok.op_number
        }),
{
    let before = acks_for(s.acks, s.view, ok.op_number);
    let counted = ReplicaState {
        acks: s.acks.insert((s.view, ok.op_number), before.insert(ok.replica_number)),
        ..s
    };
    lemma_run_applies_all(
        counted.machine,
        counted.log.subrange(counted.commit as int, commit_target(counted, ok.op_number) as int),
        counted.view,
    );
}

/// Committing a request caches its result, under its request number, in the entry
/// that a resubmission of it is held against: its sender's entry for a `Join`,
/// its client's entry otherwise. That is the result that the commit's reply carries.
pub proof fn commit_caches_its_result(st: ExecState, req: RequestView)
    requires
        execute(st, req) is Some,
    ensures
        session_of(execute(st, req).unwrap().0, req) == Some(
            Entry {
                last_request_id: req.request_number,
                last_result: Some(execute(st, req).unwrap().1),
            },
        ),
{
}

/// A request submitted again while the entry it is held against caches the result
/// of that request, as its commit leaves it, is answered with the reply that the
/// commit produced (in the same view), and nothing else changes: the log does not
/// grow and nothing runs again. This holds of a retried `Join` too.
pub proof fn resubmission_gets_the_same_reply(s: ReplicaState, req: RequestView, result: OpResult)
    requires
        state_inv(s),
        s.status == Status::Normal,
        is_primary_in(s),
        session_of(s.machine, req) == Some(
            Entry { last_request_id: req.request_number, last_result: Some(result) },
        ),
    ensures
        on_client_request_spec(s, req) == (
            ReplicaState { client_tx: s.client_tx.push(reply_for(req, s.view, result)), ..s },
            Ok::<(), ReplicaError>(()),
        ),
{
}

} // verus!
