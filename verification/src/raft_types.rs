//! The basic identifiers of the Raft log: `LogId`, snapshot segment ids, and
//! small extension traits over optional log positions.

use vstd::prelude::*;
use vstd::string::StringExecFns;

verus! {

/// The identity of a log entry: the term in which it was written and its
/// position in the log. Ordered lexicographically by `(term, index)`.
///
/// The sentinel `(0, 0)` marks "no log": a nonzero term requires a nonzero
/// index and vice versa.
#[derive(Clone, Copy, Debug, PartialEq, Eq, Structural, PartialOrd, Ord, Hash)]
pub struct LogId {
    pub term: u64,
    pub index: u64,
}

impl LogId {
    /// Build a `LogId`, rejecting the malformed mixes of zero and nonzero:
    /// the zero-th log entry must be exactly `(0, 0)`.
    pub fn new(term: u64, index: u64) -> (r: LogId)
        requires
            term == 0 <==> index == 0,
        ensures
            r.term == term,
            r.index == index,
    {
        LogId { term, index }
    }
}

impl Default for LogId {
    /// The "no log" sentinel `(0, 0)`.
    fn default() -> (r: LogId)
        ensures
            r.term == 0,
            r.index == 0,
    {
        LogId { term: 0, index: 0 }
    }
}

impl From<(u64, u64)> for LogId {
    fn from(v: (u64, u64)) -> (r: LogId) {
        LogId { term: v.0, index: v.1 }
    }
}

impl vstd::std_specs::convert::FromSpecImpl<(u64, u64)> for LogId {
    open spec fn obeys_from_spec() -> bool {
        true
    }

    open spec fn from_spec(v: (u64, u64)) -> LogId {
        LogId { term: v.0, index: v.1 }
    }
}

/// Extensions over an optional `LogId`.
pub trait LogIdOptionExt {
    /// The index of the position, if there is one, as a specification value.
    spec fn opt_index(&self) -> Option<u64>;

    /// The index of the position, if there is one.
    fn index(&self) -> (r: Option<u64>)
        ensures
            r == self.opt_index(),
    ;

    /// The index right after this position; 0 when there is no position.
    fn next_index(&self) -> (r: u64)
        requires
            (match self.opt_index() {
                Some(i) => i < u64::MAX,
                None => true,
            }),
        ensures
            r == match self.opt_index() {
                Some(i) => i + 1,
                None => 0,
            },
    ;
}

impl LogIdOptionExt for Option<LogId> {
    open spec fn opt_index(&self) -> Option<u64> {
        match *self {
            Some(log_id) => Some(log_id.index),
            None => None,
        }
    }

    fn index(&self) -> (r: Option<u64>) {
        match self {
            Some(x) => Some(x.index),
            None => None,
        }
    }

    fn next_index(&self) -> (r: u64) {
        match self {
            None => 0,
            Some(log_id) => log_id.index + 1,
        }
    }
}

/// Extensions over an optional log index, counting `None` as the position
/// right before index 0.
pub trait LogIndexOptionExt: Sized {
    /// The optional index itself, as a specification value.
    spec fn opt_value(&self) -> Option<u64>;

    /// The index right after this one; 0 when there is none.
    fn next_index(&self) -> (r: u64)
        requires
            (match self.opt_value() {
                Some(v) => v < u64::MAX,
                None => true,
            }),
        ensures
            r == match self.opt_value() {
                Some(v) => v + 1,
                None => 0,
            },
    ;

    /// The index right before this one; `None` when this is index 0.
    fn prev_index(&self) -> (r: Self)
        requires
            self.opt_value() is Some,
        ensures
            r.opt_value() == if self.opt_value()->Some_0 == 0 {
                None::<u64>
            } else {
                Some((self.opt_value()->Some_0 - 1) as u64)
            },
    ;

    /// This index advanced by `v` positions.
    fn add(&self, v: u64) -> (r: Self)
        requires
            (match self.opt_value() {
                Some(x) => x + 1 + v,
                None => v as int,
            }) <= u64::MAX,
        ensures
            r.opt_value() == match self.opt_value() {
                Some(x) => Some((x + v) as u64),
                None => if v == 0 {
                    None::<u64>
                } else {
                    Some((v - 1) as u64)
                },
            },
    ;
}

impl LogIndexOptionExt for Option<u64> {
    open spec fn opt_value(&self) -> Option<u64> {
        *self
    }

    fn next_index(&self) -> (r: u64) {
        match self {
            None => 0,
            Some(v) => v + 1,
        }
    }

    fn prev_index(&self) -> (r: Option<u64>) {
        match self {
            None => {
                unreached()
            },
            Some(v) => {
                if *v == 0 {
                    None
                } else {
                    Some(*v - 1)
                }
            },
        }
    }

    fn add(&self, v: u64) -> (r: Option<u64>) {
        Some(self.next_index() + v).prev_index()
    }
}

/// The identity of one streamed segment of a snapshot: the snapshot's id and
/// the byte offset of the segment within it.
#[derive(Clone, Debug, PartialEq, Eq, Hash)]
pub struct SnapshotSegmentId {
    pub id: String,
    pub offset: u64,
}

impl From<(String, u64)> for SnapshotSegmentId {
    fn from(v: (String, u64)) -> (r: SnapshotSegmentId) {
        SnapshotSegmentId { id: v.0, offset: v.1 }
    }
}

impl vstd::std_specs::convert::FromSpecImpl<(String, u64)> for SnapshotSegmentId {
    open spec fn obeys_from_spec() -> bool {
        true
    }

    open spec fn from_spec(v: (String, u64)) -> SnapshotSegmentId {
        SnapshotSegmentId { id: v.0, offset: v.1 }
    }
}

impl LogId {
    /// The text `term-index`, both in decimal.
    pub fn display_string(&self) -> (r: String)
        ensures
            r@ == crate::text::dec_uint(self.term as int) + seq!['-'] + crate::text::dec_uint(
                self.index as int,
            ),
    {
        proof {
            reveal_strlit("-");
        }
        let mut s = crate::text::u64_to_dec(self.term);
        s.append("-");
        let s2 = crate::text::u64_to_dec(self.index);
        s.append(s2.as_str());
        proof {
            assert(s@ =~= crate::text::dec_uint(self.term as int) + seq!['-']
                + crate::text::dec_uint(self.index as int));
        }
        s
    }
}

impl SnapshotSegmentId {
    /// The text `id+offset`, the offset in decimal.
    pub fn display_string(&self) -> (r: String)
        ensures
            r@ == self.id@ + seq!['+'] + crate::text::dec_uint(self.offset as int),
    {
        proof {
            reveal_strlit("+");
        }
        let mut s = self.id.clone();
        s.append("+");
        let s2 = crate::text::u64_to_dec(self.offset);
        s.append(s2.as_str());
        proof {
            assert(s@ =~= self.id@ + seq!['+'] + crate::text::dec_uint(self.offset as int));
        }
        s
    }
}

/// An update action: replace a value, or leave it as it is.
#[derive(Debug, Clone, PartialOrd, PartialEq, Eq)]
pub enum Update<T> {
    Update(T),
    AsIs,
}

} // verus!
