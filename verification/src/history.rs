//! The history abstraction behind undo and redo: an ordered record of
//! addresses with a cursor. Pushing discards everything after the cursor and
//! appends, exactly as a host address history does; stepping past either end
//! is a no-op. Stepping alone never changes application state: the caller
//! re-reads the current address afterwards.
use vstd::prelude::*;

verus! {

use crate::model::{Query, QueryV};

/// An address history: at least one entry, and a cursor on one of them.
pub struct History {
    entries: Vec<Query>,
    pos: usize,
}

/// The mathematical value of a [`History`].
#[verifier::ext_equal]
pub ghost struct HistoryV {
    pub entries: Seq<QueryV>,
    pub pos: int,
}

impl DeepView for Query {
    type V = QueryV;

    open spec fn deep_view(&self) -> QueryV {
        self@
    }
}

impl View for History {
    type V = HistoryV;

    closed spec fn view(&self) -> HistoryV {
        HistoryV { entries: self.entries.deep_view(), pos: self.pos as int }
    }
}

impl History {
    /// Well-formed history: non-empty, cursor in range.
    pub open spec fn wf(self: History) -> bool {
        self@.entries.len() >= 1 && 0 <= self@.pos < self@.entries.len()
    }

    /// A history holding one initial address.
    pub fn new(initial: Query) -> (r: History)
        ensures
            r@.entries == seq![initial@],
            r@.pos == 0,
            r.wf(),
    {
        let ghost iv = initial@;
        let mut entries: Vec<Query> = Vec::new();
        entries.push(initial);
        let r = History { entries, pos: 0 };
        proof {
            assert(r@.entries =~= seq![iv]);
        }
        r
    }

    /// The number of recorded addresses.
    pub fn len(&self) -> (r: usize)
        ensures
            r as int == self@.entries.len(),
    {
        proof {
            assert(self@.entries.len() == self.entries@.len());
        }
        self.entries.len()
    }

    /// The address under the cursor.
    pub fn current(&self) -> (r: &Query)
        requires
            self.wf(),
        ensures
            r@ == self@.entries[self@.pos],
    {
        &self.entries[self.pos]
    }

    /// Records a new address: everything after the cursor is discarded, the
    /// address is appended, and the cursor moves onto it.
    pub fn push(&mut self, q: Query)
        requires
            old(self).wf(),
            old(self)@.entries.len() < usize::MAX,
        ensures
            final(self).wf(),
            final(self)@.entries == old(self)@.entries.take(old(self)@.pos + 1).push(q@),
            final(self)@.pos == old(self)@.pos + 1,
    {
        let ghost qv = q@;
        let ghost entries0 = self@.entries;
        let keep = self.pos + 1;
        self.entries.truncate(keep);
        self.entries.push(q);
        self.pos = keep;
        proof {
            assert forall|j: int|
                0 <= j < self@.entries.len() implies self@.entries[j] == entries0.take(
                old(self)@.pos + 1,
            ).push(qv)[j] by {
                assert(self@.entries[j] == self.entries@[j]@);
            }
            assert(self@.entries =~= entries0.take(old(self)@.pos + 1).push(qv));
        }
    }

    /// Steps the cursor back one entry; at the oldest entry this is a no-op.
    pub fn back(&mut self)
        requires
            old(self).wf(),
        ensures
            final(self).wf(),
            final(self)@.entries == old(self)@.entries,
            final(self)@.pos == (if old(self)@.pos > 0 {
                old(self)@.pos - 1
            } else {
                0
            }),
    {
        if self.pos > 0 {
            self.pos = self.pos - 1;
        }
    }

    /// Steps the cursor forward one entry; at the newest entry this is a
    /// no-op.
    pub fn forward(&mut self)
        requires
            old(self).wf(),
        ensures
            final(self).wf(),
            final(self)@.entries == old(self)@.entries,
            final(self)@.pos == (if old(self)@.pos + 1 < old(self)@.entries.len() {
                old(self)@.pos + 1
            } else {
                old(self)@.pos
            }),
    {
        let n = self.entries.len();
        proof {
            assert(self@.pos < self@.entries.len());
            assert(self@.entries.len() == self.entries@.len());
        }
        if self.pos < n - 1 {
            self.pos = self.pos + 1;
        }
    }
}

} // verus!
