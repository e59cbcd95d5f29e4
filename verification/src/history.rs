//! The bounded trajectory history: a fixed-capacity ring of position
//! snapshots.
//!
//! Snapshots append at the tail; once the ring is full, each append
//! overwrites the oldest snapshot in place, so both appending and evicting
//! cost one write, never a shift.

use vstd::prelude::*;
use crate::math::Vec2;

verus! {

/// A ring of position snapshots, oldest first in its view.
pub struct History {
    buf: Vec<Vec<Vec2>>,
    head: usize,
    cap: usize,
}

impl History {
    /// The buffer contents in storage order, as sequences.
    closed spec fn raw(self) -> Seq<Seq<Vec2>> {
        self.buf@.map_values(|v: Vec<Vec2>| v@)
    }

    /// The recorded snapshots, oldest first: the storage rotated so that
    /// the head comes first.
    pub closed spec fn snapshots(self) -> Seq<Seq<Vec2>> {
        self.raw().subrange(self.head as int, self.raw().len() as int) + self.raw().subrange(
            0,
            self.head as int,
        )
    }

    /// How many snapshots the ring can hold before it overwrites.
    pub closed spec fn cap(self) -> int {
        self.cap as int
    }

    /// The ring either is still filling, with the oldest snapshot at the
    /// start, or is full, with the head inside the buffer.
    pub closed spec fn wf(self) -> bool {
        &&& 1 <= self.cap()
        &&& (self.buf@.len() < self.cap() && self.head == 0) || (self.buf@.len() == self.cap()
            && (self.head as int) < self.cap())
    }

    /// A well-formed ring records at most its capacity.
    pub proof fn lemma_len_le_cap(self)
        requires
            self.wf(),
        ensures
            1 <= self.cap(),
            self.snapshots().len() <= self.cap(),
    {
    }

    /// Start a history holding one snapshot.
    pub fn new(cap: usize, first: Vec<Vec2>) -> (r: History)
        requires
            cap >= 1,
        ensures
            r.wf(),
            r.cap() == cap,
            r.snapshots() == seq![first@],
    {
        let mut buf: Vec<Vec<Vec2>> = Vec::new();
        buf.push(first);
        let r = History { buf, head: 0, cap };
        proof {
            assert(r.snapshots() =~~= seq![first@]);
        }
        r
    }

    /// How many snapshots are recorded.
    pub fn len(&self) -> (r: usize)
        requires
            self.wf(),
        ensures
            r == self.snapshots().len(),
    {
        self.buf.len()
    }

    /// The `k`-th recorded snapshot, oldest first.
    pub fn get(&self, k: usize) -> (r: &Vec<Vec2>)
        requires
            self.wf(),
            k < self.snapshots().len(),
        ensures
            r@ == self.snapshots()[k as int],
    {
        let ahead = self.buf.len() - self.head;
        let idx = if k < ahead {
            self.head + k
        } else {
            k - ahead
        };
        &self.buf[idx]
    }

    /// Append a snapshot; once the ring is full, the oldest snapshot leaves
    /// to make room.
    pub fn push(&mut self, snap: Vec<Vec2>)
        requires
            old(self).wf(),
        ensures
            final(self).wf(),
            final(self).cap() == old(self).cap(),
            final(self).snapshots() == if old(self).snapshots().len() < old(self).cap() {
                old(self).snapshots().push(snap@)
            } else {
                old(self).snapshots().subrange(1, old(self).snapshots().len() as int).push(snap@)
            },
    {
        let ghost osnaps = self.snapshots();
        if self.buf.len() < self.cap {
            self.buf.push(snap);
            proof {
                assert(self.snapshots() =~~= osnaps.push(snap@));
            }
        } else {
            let h = self.head;
            self.buf[h] = snap;
            self.head = if h + 1 < self.cap {
                h + 1
            } else {
                0
            };
            proof {
                assert(self.snapshots() =~~= osnaps.subrange(1, osnaps.len() as int).push(
                    snap@));
            }
        }
    }
}

} // verus!
