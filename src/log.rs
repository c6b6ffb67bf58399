use vstd::prelude::*;

use crate::message::{ClientRequest, RequestView};
use crate::types::{OpNumber, ViewNumber};

verus! {

/// One accepted operation, with the op-number and view it was logged under.
#[derive(Clone, Debug, PartialEq, Eq)]
pub struct LogEntry {
    pub op_number: OpNumber,
    pub view_number: ViewNumber,
    pub request: ClientRequest,
}

/// Mathematical value of a [`LogEntry`].
pub struct LogEntryView {
    pub op_number: OpNumber,
    pub view_number: ViewNumber,
    pub request: RequestView,
}

impl View for LogEntry {
    type V = LogEntryView;

    open spec fn view(&self) -> LogEntryView {
        LogEntryView {
            op_number: self.op_number,
            view_number: self.view_number,
            request: self.request@,
        }
    }
}

/// The append-only operation log of one replica.
#[derive(Clone, Debug)]
pub struct Log {
    entries: Vec<LogEntry>,
}

/// Op-numbers of a log are `1, 2, 3, ...`: entry `i` carries `i + 1`.
pub open spec fn numbered_from_one(entries: Seq<LogEntryView>) -> bool {
    forall|i: int| 0 <= i < entries.len() ==> #[trigger] entries[i].op_number == i + 1
}

/// The log after one append.
pub open spec fn spec_append(
    entries: Seq<LogEntryView>,
    view_number: ViewNumber,
    request: RequestView,
) -> Seq<LogEntryView> {
    entries.push(
        LogEntryView { op_number: (entries.len() + 1) as OpNumber, view_number, request },
    )
}

/// The log after a series of appends, each given by its view and request.
pub open spec fn appended(
    entries: Seq<LogEntryView>,
    batch: Seq<(ViewNumber, RequestView)>,
) -> Seq<LogEntryView>
    decreases batch.len(),
{
    if batch.len() == 0 {
        entries
    } else {
        let last = batch.last();
        spec_append(appended(entries, batch.drop_last()), last.0, last.1)
    }
}

impl View for Log {
    type V = Seq<LogEntryView>;

    closed spec fn view(&self) -> Seq<LogEntryView> {
        self.entries@.map_values(|e: LogEntry| e@)
    }
}

impl Log {
    /// Well-formed: the op-numbers are gap-free from 1.
    pub open spec fn wf(&self) -> bool {
        numbered_from_one(self@)
    }

    /// An empty log.
    pub fn new() -> (r: Log)
        ensures
            r.wf(),
            r@ == Seq::<LogEntryView>::empty(),
    {
        let r = Log { entries: Vec::new() };
        assert(r@ =~= Seq::<LogEntryView>::empty());
        r
    }

    /// Appends `request` under `view_number` with the next op-number, which it returns.
    pub fn append(&mut self, view_number: ViewNumber, request: ClientRequest) -> (r: OpNumber)
        requires
            old(self).wf(),
            old(self)@.len() < u64::MAX,
        ensures
            final(self).wf(),
            r == old(self)@.len() + 1,
            final(self)@ == spec_append(old(self)@, view_number, request@),
    {
        let op_number = self.entries.len() as u64 + 1;
        let ghost old_view = self@;
        self.entries.push(LogEntry { op_number, view_number, request });
        assert(self@ =~= spec_append(old_view, view_number, self.entries@.last().request@));
        op_number
    }

    /// Appends `e`, whose op-number must follow the last one of the log.
    pub fn append_entry(&mut self, e: LogEntry)
        requires
            old(self).wf(),
            e.op_number == old(self)@.len() + 1,
        ensures
            final(self).wf(),
            final(self)@ == old(self)@.push(e@),
            final(self)@ == spec_append(old(self)@, e.view_number, e.request@),
    {
        self.entries.push(e);
        assert(self@ =~= old(self)@.push(e@));
    }

    /// The entry with op-number `op_number`, if the log holds one.
    pub fn get_entry(&self, op_number: OpNumber) -> (r: Option<&LogEntry>)
        requires
            self.wf(),
        ensures
            match r {
                Some(e) => 1 <= op_number <= self@.len() && e@ == self@[op_number - 1],
                None => op_number < 1 || op_number > self@.len(),
            },
    {
        if op_number >= 1 && op_number <= self.entries.len() as u64 {
            Some(&self.entries[(op_number - 1) as usize])
        } else {
            None
        }
    }

    /// The op-number of the last entry, 0 when the log is empty.
    pub fn last_op_num(&self) -> (r: OpNumber)
        requires
            self.wf(),
        ensures
            r == self@.len(),
    {
        self.entries.len() as u64
    }

    /// Number of entries.
    pub fn size(&self) -> (r: usize)
        ensures
            r == self@.len(),
    {
        self.entries.len()
    }
}

/// Starting from an empty log, the op-numbers that a series of appends hands out
/// are exactly `1, 2, 3, ...`, with no gap and no repeat.
pub proof fn append_numbers_are_consecutive(batch: Seq<(ViewNumber, RequestView)>)
    requires
        batch.len() <= u64::MAX,
    ensures
        appended(Seq::empty(), batch).len() == batch.len(),
        numbered_from_one(appended(Seq::empty(), batch)),
    decreases batch.len(),
{
    if batch.len() > 0 {
        append_numbers_are_consecutive(batch.drop_last());
        let prev = appended(Seq::empty(), batch.drop_last());
        let next = appended(Seq::empty(), batch);
        assert forall|i: int| 0 <= i < next.len() implies #[trigger] next[i].op_number == i + 1 by {
            if i < prev.len() {
                assert(next[i] == prev[i]);
            } else {
                assert(i == prev.len());
            }
        }
    }
}

} // verus!
