//! The store of the board, held in memory: it numbers and stamps each
//! message that is inserted, keeps the messages in the order in which they
//! came, and never changes or drops one.

use vstd::prelude::*;
use crate::filter::TimeRange;
use crate::models::{rows_view, Message, MessageView, NewMessage, NewMessageView};

verus! {

/// Why the store did not do what was asked.
#[derive(Debug, Clone, Copy, PartialEq, Eq)]
pub enum StoreError {
    /// The store was reached and refused or failed the operation.
    Failed,
    /// The store could not be reached.
    Unavailable,
}

impl StoreError {
    pub open spec fn text(self) -> Seq<char> {
        match self {
            StoreError::Failed => "storage failure"@,
            StoreError::Unavailable => "storage unavailable"@,
        }
    }

    /// The error in words.
    pub fn describe(&self) -> (r: String)
        ensures
            r@ == self.text(),
    {
        match self {
            StoreError::Failed => "storage failure".to_owned(),
            StoreError::Unavailable => "storage unavailable".to_owned(),
        }
    }
}

/// The most rows that any store holds: identifiers are positive `i32`s.
pub const MAX_ROWS: usize = 0x7fff_ffff;

/// Rows as a store holds them: no more than `limit`, and the row at
/// position `i` has the identifier `i + 1`, so identifiers are distinct and
/// grow in the order of insertion.
pub open spec fn valid_rows(rows: Seq<MessageView>, limit: nat) -> bool {
    &&& rows.len() <= limit <= MAX_ROWS
    &&& forall|i: int| 0 <= i < rows.len() ==> (#[trigger] rows[i]).id == i + 1
}

/// The row that an insert adds to `rows`.
pub open spec fn stamped(rows: Seq<MessageView>, record: NewMessageView, now: int) -> MessageView {
    MessageView {
        id: rows.len() as int + 1,
        username: record.username,
        message: record.message,
        timestamp: now,
    }
}

/// The rows after an insert: one more at the end while there is room, the
/// same rows in a full store.
pub open spec fn rows_after_insert(
    rows: Seq<MessageView>,
    limit: nat,
    record: NewMessageView,
    now: int,
) -> Seq<MessageView> {
    if rows.len() < limit {
        rows.push(stamped(rows, record, now))
    } else {
        rows
    }
}

/// What an insert returns: the timestamp given to the new row, or the
/// failure of a full store.
pub open spec fn insert_outcome(rows: Seq<MessageView>, limit: nat, now: i64) -> Result<
    i64,
    StoreError,
> {
    if rows.len() < limit {
        Ok(now)
    } else {
        Err(StoreError::Failed)
    }
}

/// The rows that a listing restricted to `range` returns: those whose
/// timestamp the range admits, in the order of the store.
pub open spec fn select(rows: Seq<MessageView>, range: TimeRange) -> Seq<MessageView> {
    rows.filter(|m: MessageView| range.admits(m.timestamp))
}

pub struct MemoryStore {
    rows: Vec<Message>,
    limit: usize,
}

impl View for MemoryStore {
    type V = Seq<MessageView>;

    closed spec fn view(&self) -> Seq<MessageView> {
        rows_view(self.rows@)
    }
}

impl MemoryStore {
    /// The number of rows that the store has room for.
    pub closed spec fn limit(&self) -> nat {
        self.limit as nat
    }

    pub open spec fn wf(&self) -> bool {
        valid_rows(self@, self.limit())
    }

    /// An empty store with room for as many rows as there are identifiers.
    pub fn new() -> (r: MemoryStore)
        ensures
            r.wf(),
            r@ == Seq::<MessageView>::empty(),
            r.limit() == MAX_ROWS,
    {
        let r = MemoryStore { rows: Vec::new(), limit: MAX_ROWS };
        assert(r@ =~= Seq::<MessageView>::empty());
        r
    }

    /// An empty store with room for `limit` rows, or for as many as there
    /// are identifiers if that is less.
    pub fn bounded(limit: usize) -> (r: MemoryStore)
        ensures
            r.wf(),
            r@ == Seq::<MessageView>::empty(),
            r.limit() == if limit <= MAX_ROWS {
                limit as nat
            } else {
                MAX_ROWS as nat
            },
    {
        let r = MemoryStore {
            rows: Vec::new(),
            limit: if limit <= MAX_ROWS {
                limit
            } else {
                MAX_ROWS
            },
        };
        assert(r@ =~= Seq::<MessageView>::empty());
        r
    }

    /// The number of rows in the store.
    pub fn len(&self) -> (r: usize)
        ensures
            r == self@.len(),
    {
        self.rows.len()
    }

    /// Inserts one message, stamped with `now`, and returns that timestamp.
    /// A full store fails the insert and stays as it was.
    pub fn insert(&mut self, record: NewMessage, now: i64) -> (r: Result<i64, StoreError>)
        requires
            old(self).wf(),
        ensures
            final(self).wf(),
            final(self).limit() == old(self).limit(),
            final(self)@ == rows_after_insert(old(self)@, old(self).limit(), record@, now as int),
            r == insert_outcome(old(self)@, old(self).limit(), now),
    {
        if self.rows.len() >= self.limit {
            return Err(StoreError::Failed);
        }
        let ghost before = self@;
        let id: i32 = (self.rows.len() + 1) as i32;
        let row = Message { id, username: record.username, message: record.message, timestamp: now };
        assert(row@ == stamped(before, record@, now as int));
        self.rows.push(row);
        assert(self@ =~= before.push(stamped(before, record@, now as int)));
        Ok(now)
    }

    /// Lists the messages whose timestamp lies in `range`, in the order of
    /// the store.
    pub fn query(&self, range: TimeRange) -> (r: Vec<Message>)
        ensures
            rows_view(r@) == select(self@, range),
    {
        let ghost rows = self@;
        let ghost pred = |m: MessageView| range.admits(m.timestamp);
        let mut out: Vec<Message> = Vec::new();
        let mut i: usize = 0;
        proof {
            reveal(Seq::filter);
            assert(rows.take(0) =~= Seq::<MessageView>::empty());
            assert(rows_view(out@) =~= rows.take(0).filter(pred));
        }
        while i < self.rows.len()
            invariant
                i <= self.rows.len(),
                rows == self@,
                rows.len() == self.rows.len(),
                pred == (|m: MessageView| range.admits(m.timestamp)),
                rows_view(out@) == rows.take(i as int).filter(pred),
            decreases self.rows.len() - i,
        {
            let ghost upto = rows.take(i + 1);
            let ghost before = rows_view(out@);
            proof {
                reveal(Seq::filter);
                assert(upto.drop_last() =~= rows.take(i as int));
                assert(upto.last() == self.rows@[i as int]@);
            }
            if range.contains(self.rows[i].timestamp) {
                out.push(self.rows[i].clone());
                assert(rows_view(out@) =~= before.push(upto.last()));
            }
            i = i + 1;
        }
        assert(rows.take(i as int) =~= rows);
        out
    }
}

} // verus!
