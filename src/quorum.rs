use vstd::prelude::*;

use crate::types::{OpNumber, ReplicaID, ViewNumber};

verus! {

/// Majority of a cluster of `n` replicas.
pub open spec fn quorum_size(n: nat) -> nat {
    n / 2 + 1
}

/// Whether an acknowledgement from `replica`, arriving when `acks` have already
/// acknowledged, is the one that brings the count up to a quorum of `quorum`.
pub open spec fn reaches_quorum(acks: Set<ReplicaID>, replica: ReplicaID, quorum: nat) -> bool {
    !acks.contains(replica) && acks.len() + 1 == quorum
}

struct QuorumRecord {
    view_number: ViewNumber,
    op_number: OpNumber,
    voters: Vec<ReplicaID>,
}

/// Counts, for each `(view, op-number)`, the distinct replicas that acknowledged it.
pub struct QuorumTracker {
    replica_count: usize,
    records: Vec<QuorumRecord>,
    acks: Ghost<Map<(ViewNumber, OpNumber), Set<ReplicaID>>>,
}

impl QuorumTracker {
    /// The acknowledging replicas of each `(view, op-number)` acknowledged so far.
    pub closed spec fn acks(&self) -> Map<(ViewNumber, OpNumber), Set<ReplicaID>> {
        self.acks@
    }

    /// Size of the cluster.
    pub closed spec fn cluster_size(&self) -> nat {
        self.replica_count as nat
    }

    /// The acknowledging replicas of `(view_number, op_number)`.
    pub open spec fn acks_of(&self, view_number: ViewNumber, op_number: OpNumber) -> Set<ReplicaID> {
        if self.acks().contains_key((view_number, op_number)) {
            self.acks()[(view_number, op_number)]
        } else {
            Set::empty()
        }
    }

    /// Well-formed: each record stands for one key, with distinct voters.
    pub closed spec fn wf(&self) -> bool {
        &&& forall|i: int|
            0 <= i < self.records@.len() ==> {
                let rec = #[trigger] self.records@[i];
                &&& self.acks@.contains_key((rec.view_number, rec.op_number))
                &&& self.acks@[(rec.view_number, rec.op_number)] == rec.voters@.to_set()
                &&& rec.voters@.no_duplicates()
            }
        &&& forall|a: int, b: int|
            0 <= a < b < self.records@.len() ==> (#[trigger] self.records@[a]).view_number
                != (#[trigger] self.records@[b]).view_number || self.records@[a].op_number
                != self.records@[b].op_number
        &&& forall|k: (ViewNumber, OpNumber)|
            #[trigger] self.acks@.contains_key(k) ==> exists|i: int|
                0 <= i < self.records@.len() && (#[trigger] self.records@[i]).view_number == k.0
                    && self.records@[i].op_number == k.1
    }

    /// A tracker for a cluster of `replica_count` replicas, with no acknowledgement yet.
    pub fn new(replica_count: usize) -> (r: QuorumTracker)
        ensures
            r.wf(),
            r.cluster_size() == replica_count,
            r.acks() == Map::<(ViewNumber, OpNumber), Set<ReplicaID>>::empty(),
    {
        QuorumTracker { replica_count, records: Vec::new(), acks: Ghost(Map::empty()) }
    }

    /// Records that `replica_number` acknowledged `(view_number, op_number)`. Returns
    /// `true` exactly when this acknowledgement brings the distinct acknowledgers up
    /// to a majority; a repeated acknowledgement counts once.
    pub fn record_ack(
        &mut self,
        view_number: ViewNumber,
        op_number: OpNumber,
        replica_number: ReplicaID,
    ) -> (r: bool)
        requires
            old(self).wf(),
        ensures
            final(self).wf(),
            final(self).cluster_size() == old(self).cluster_size(),
            final(self).acks() == old(self).acks().insert(
                (view_number, op_number),
                old(self).acks_of(view_number, op_number).insert(replica_number),
            ),
            r == reaches_quorum(
                old(self).acks_of(view_number, op_number),
                replica_number,
                quorum_size(old(self).cluster_size()),
            ),
    {
        let ghost key = (view_number, op_number);
        let ghost old_acks = self.acks@;
        let ghost before = self.acks_of(view_number, op_number);
        let quorum = self.replica_count / 2 + 1;
        let mut i: usize = 0;
        while i < self.records.len()
            invariant
                i <= self.records@.len(),
                forall|j: int|
                    0 <= j < i ==> !((#[trigger] self.records@[j]).view_number == view_number
                        && self.records@[j].op_number == op_number),
            ensures
                i <= self.records@.len(),
                i < self.records@.len() ==> self.records@[i as int].view_number == view_number
                    && self.records@[i as int].op_number == op_number,
                forall|j: int|
                    0 <= j < i ==> !((#[trigger] self.records@[j]).view_number == view_number
                        && self.records@[j].op_number == op_number),
            decreases self.records@.len() - i,
        {
            if self.records[i].view_number == view_number && self.records[i].op_number == op_number {
                break;
            }
            i = i + 1;
        }
        if i == self.records.len() {
            assert(!old_acks.contains_key(key));
            let ghost old_records = self.records@;
            let mut voters: Vec<ReplicaID> = Vec::new();
            voters.push(replica_number);
            self.records.push(QuorumRecord { view_number, op_number, voters });
            self.acks = Ghost(old_acks.insert(key, set![replica_number]));
            proof {
                let s = self.records@.last().voters@;
                assert(s.to_set() =~= set![replica_number]) by {
                    assert(s[0] == replica_number);
                }
                assert(Set::<ReplicaID>::empty().insert(replica_number) == set![replica_number]);
                assert forall|k: (ViewNumber, OpNumber)| #[trigger]
                    self.acks@.contains_key(k) implies exists|j: int|
                    0 <= j < self.records@.len() && (#[trigger] self.records@[j]).view_number
                        == k.0 && self.records@[j].op_number == k.1 by {
                    if k == key {
                        assert(self.records@[old_records.len() as int].view_number == k.0);
                    } else {
                        let j = choose|j: int|
                            0 <= j < old_records.len() && (#[trigger] old_records[j]).view_number
                                == k.0 && old_records[j].op_number == k.1;
                        assert(self.records@[j] == old_records[j]);
                    }
                }
                assert(self.records@.last().voters@.len() == 1);
                assert forall|a: int, b: int|
                    0 <= a < b < self.records@.len() implies (#[trigger] self.records@[a]).view_number
                    != (#[trigger] self.records@[b]).view_number || self.records@[a].op_number
                    != self.records@[b].op_number by {
                    if b == old_records.len() {
                        let ra = old_records[a];
                        assert(old_acks.contains_key((ra.view_number, ra.op_number)));
                    } else {
                        assert(self.records@[a] == old_records[a] && self.records@[b] == old_records[b]);
                    }
                }
            }
            return quorum == 1;
        }
        let ghost old_records = self.records@;
        proof {
            let rec = old_records[i as int];
            assert(old_acks.contains_key((rec.view_number, rec.op_number)));
            assert(old_acks.contains_key(key));
            assert(before == rec.voters@.to_set());
            old_records[i as int].voters@.unique_seq_to_set();
        }
        let mut j: usize = 0;
        while j < self.records[i].voters.len()
            invariant
                self.records@ == old_records,
                self.acks@ == old_acks,
                self.replica_count == old(self).replica_count,
                self.wf(),
                key == (view_number, op_number),
                before == old(self).acks_of(view_number, op_number),
                old_acks == old(self).acks(),
                old_acks.contains_key(key),
                before == old_records[i as int].voters@.to_set(),
                i < old_records.len(),
                j <= old_records[i as int].voters@.len(),
                forall|m: int| 0 <= m < j ==> old_records[i as int].voters@[m] != replica_number,
            decreases old_records[i as int].voters@.len() - j,
        {
            if self.records[i].voters[j] == replica_number {
                proof {
                    assert(before.contains(replica_number)) by {
                        assert(old_records[i as int].voters@[j as int] == replica_number);
                        assert(old_records[i as int].voters@.contains(replica_number));
                    }
                    assert(before.insert(replica_number) =~= before);
                    assert(old_acks.contains_key(key));
                    assert(before == old_acks[key]);
                    assert(old_acks.insert(key, before) =~= old_acks);
                }
                return false;
            }
            j = j + 1;
        }
        let ghost old_voters = old_records[i as int].voters@;
        assert(!before.contains(replica_number)) by {
            if before.contains(replica_number) {
                assert(old_voters.contains(replica_number));
            }
        }
        let rec = self.records.remove(i);
        let QuorumRecord { view_number: vn, op_number: on, voters: mut vs } = rec;
        vs.push(replica_number);
        let count = vs.len();
        self.records.insert(i, QuorumRecord { view_number: vn, op_number: on, voters: vs });
        self.acks = Ghost(old_acks.insert(key, before.insert(replica_number)));
        proof {
            let nv = self.records@[i as int].voters@;
            assert(self.records@ == old_records.update(
                i as int,
                self.records@[i as int],
            ));
            assert(nv == old_voters.push(replica_number));
            assert(nv.to_set() =~= old_voters.to_set().insert(replica_number)) by {
                assert forall|x: ReplicaID| nv.to_set().contains(x) implies old_voters.to_set().insert(
                    replica_number,
                ).contains(x) by {
                    let m = choose|m: int| 0 <= m < nv.len() && nv[m] == x;
                    if m < old_voters.len() {
                        assert(old_voters[m] == x);
                    }
                }
                assert forall|x: ReplicaID| old_voters.to_set().insert(replica_number).contains(
                    x,
                ) implies nv.to_set().contains(x) by {
                    if x == replica_number {
                        assert(nv[old_voters.len() as int] == x);
                    } else {
                        let m = choose|m: int| 0 <= m < old_voters.len() && old_voters[m] == x;
                        assert(nv[m] == x);
                    }
                }
            }
            assert(nv.no_duplicates()) by {
                assert forall|a: int, b: int| 0 <= a < b < nv.len() implies nv[a] != nv[b] by {
                    if b == old_voters.len() {
                        assert(old_voters.contains(nv[a]));
                    }
                }
            }
            assert forall|k: (ViewNumber, OpNumber)| #[trigger]
                self.acks@.contains_key(k) implies exists|m: int|
                0 <= m < self.records@.len() && (#[trigger] self.records@[m]).view_number == k.0
                    && self.records@[m].op_number == k.1 by {
                let m = choose|m: int|
                    0 <= m < old_records.len() && (#[trigger] old_records[m]).view_number == k.0
                        && old_records[m].op_number == k.1;
                assert(self.records@[m].view_number == old_records[m].view_number);
            }
            assert forall|a: int, b: int|
                0 <= a < b < self.records@.len() implies (#[trigger] self.records@[a]).view_number
                != (#[trigger] self.records@[b]).view_number || self.records@[a].op_number
                != self.records@[b].op_number by {
                assert(self.records@[a] == old_records[a] || a == i);
            }
        }
        count == quorum
    }
}

/// The distinct replicas among the first `k` acknowledgements of `acks`.
pub open spec fn acked_by(acks: Seq<ReplicaID>, k: int) -> Set<ReplicaID> {
    acks.subrange(0, k).to_set()
}

/// Whether the acknowledgement at position `i` of `acks`, fed in order to a tracker
/// that had none for the key, is the one that completes a quorum of `quorum`.
pub open spec fn completes_quorum(acks: Seq<ReplicaID>, i: int, quorum: nat) -> bool {
    reaches_quorum(acked_by(acks, i), acks[i], quorum)
}

proof fn lemma_acked_step(acks: Seq<ReplicaID>, i: int)
    requires
        0 <= i < acks.len(),
    ensures
        acked_by(acks, i + 1) == acked_by(acks, i).insert(acks[i]),
        acked_by(acks, i).finite(),
        acked_by(acks, i + 1).len() == acked_by(acks, i).len() + (if acked_by(acks, i).contains(
            acks[i],
        ) {
            0int
        } else {
            1
        }),
{
    broadcast use vstd::seq_lib::seq_to_set_is_finite, vstd::set::axiom_set_insert_len;

    let a = acks.subrange(0, i);
    let b = acks.subrange(0, i + 1);
    assert(b =~= a.push(acks[i]));
    assert(b.to_set() =~= a.to_set().insert(acks[i])) by {
        assert forall|x: ReplicaID| b.to_set().contains(x) implies a.to_set().insert(
            acks[i],
        ).contains(x) by {
            let k = choose|k: int| 0 <= k < b.len() && b[k] == x;
            if k < i {
                assert(a[k] == x);
            }
        }
        assert forall|x: ReplicaID| a.to_set().insert(acks[i]).contains(x) implies b.to_set().contains(
            x,
        ) by {
            if x == acks[i] {
                assert(b[i] == x);
            } else {
                let k = choose|k: int| 0 <= k < a.len() && a[k] == x;
                assert(b[k] == x);
            }
        }
    }
}

proof fn lemma_acked_grows(acks: Seq<ReplicaID>, i: int, j: int)
    requires
        0 <= i <= j <= acks.len(),
    ensures
        acked_by(acks, i).subset_of(acked_by(acks, j)),
        acked_by(acks, i).len() <= acked_by(acks, j).len(),
    decreases j - i,
{
    broadcast use vstd::seq_lib::seq_to_set_is_finite;

    if i < j {
        lemma_acked_grows(acks, i, j - 1);
        lemma_acked_step(acks, j - 1);
        vstd::set_lib::lemma_len_subset(acked_by(acks, i), acked_by(acks, j));
    }
}

proof fn lemma_crossing_exists(acks: Seq<ReplicaID>, m: int, quorum: nat)
    requires
        quorum >= 1,
        0 <= m <= acks.len(),
        acked_by(acks, m).len() >= quorum,
    ensures
        exists|i: int| 0 <= i < m && #[trigger] completes_quorum(acks, i, quorum),
    decreases m,
{
    if m == 0 {
        assert(acks.subrange(0, 0).to_set() =~= Set::<ReplicaID>::empty());
        assert(Set::<ReplicaID>::empty().len() == 0) by {
            broadcast use vstd::set::axiom_set_empty_len;

        }
    } else {
        lemma_acked_step(acks, m - 1);
        if acked_by(acks, m - 1).len() >= quorum {
            lemma_crossing_exists(acks, m - 1, quorum);
            let i = choose|i: int| 0 <= i < m - 1 && #[trigger] completes_quorum(acks, i, quorum);
            assert(completes_quorum(acks, i, quorum));
        } else {
            assert(completes_quorum(acks, m - 1, quorum));
        }
    }
}

/// Acknowledgements of one `(view, op-number)` fed to a tracker one after another:
/// at most one of them completes a quorum, and one does exactly when the distinct
/// acknowledging replicas reach the quorum size.
pub proof fn quorum_reached_exactly_once(acks: Seq<ReplicaID>, quorum: nat)
    requires
        quorum >= 1,
    ensures
        forall|i: int, j: int|
            0 <= i < j < acks.len() && #[trigger] completes_quorum(acks, i, quorum)
                ==> !#[trigger] completes_quorum(acks, j, quorum),
        (exists|i: int| 0 <= i < acks.len() && #[trigger] completes_quorum(acks, i, quorum))
            <==> acks.to_set().len() >= quorum,
{
    assert forall|i: int, j: int|
        0 <= i < j < acks.len() && #[trigger] completes_quorum(acks, i, quorum) implies !#[trigger] completes_quorum(
        acks,
        j,
        quorum,
    ) by {
        lemma_acked_step(acks, i);
        lemma_acked_grows(acks, i + 1, j);
    }
    assert(acks.subrange(0, acks.len() as int) =~= acks);
    if acks.to_set().len() >= quorum {
        lemma_crossing_exists(acks, acks.len() as int, quorum);
    }
    if exists|i: int| 0 <= i < acks.len() && #[trigger] completes_quorum(acks, i, quorum) {
        let i = choose|i: int| 0 <= i < acks.len() && #[trigger] completes_quorum(acks, i, quorum);
        lemma_acked_step(acks, i);
        lemma_acked_grows(acks, i + 1, acks.len() as int);
    }
}

} // verus!
