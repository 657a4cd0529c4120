//! Live-feed fan-out: an owned hub holding one bounded FIFO buffer per
//! subscriber. Publishing appends to every buffer, dropping each full
//! buffer's oldest entry; it never blocks, never errors, and with zero
//! subscribers does nothing at all. Messages reach one subscriber in
//! publish order; a slow subscriber loses oldest entries only.

use vstd::prelude::*;

verus! {

/// What one publish carries: the plain fields of the new post.
#[derive(Clone, Copy, PartialEq, Eq, Structural)]
pub struct FeedItem {
    pub post_id: u128,
    pub score: i64,
    pub created_at: i64,
}

/// One subscriber's slot: its handle and its pending items, oldest first.
pub struct SubChannel {
    pub id: u64,
    pub buf: Vec<FeedItem>,
}

/// The fan-out hub. `capacity` bounds each subscriber's buffer.
pub struct FeedHub {
    pub capacity: usize,
    pub next_id: u64,
    pub subs: Vec<SubChannel>,
}

/// What one publish does to one buffer: append, dropping the oldest entry
/// first when the buffer is full.
pub open spec fn buf_after_publish(buf: Seq<FeedItem>, item: FeedItem, cap: nat) -> Seq<FeedItem> {
    if buf.len() < cap {
        buf.push(item)
    } else {
        buf.drop_first().push(item)
    }
}

impl FeedHub {
    /// Hub well-formedness: a positive capacity, distinct live handles all
    /// below the next handle, and no buffer over capacity.
    pub open spec fn wf(&self) -> bool {
        &&& self.capacity >= 1
        &&& (forall|i: int, j: int|
            0 <= i < j < self.subs@.len() ==> (#[trigger] self.subs@[i]).id != (
            #[trigger] self.subs@[j]).id)
        &&& (forall|i: int|
            0 <= i < self.subs@.len() ==> (#[trigger] self.subs@[i]).id < self.next_id)
        &&& (forall|i: int|
            0 <= i < self.subs@.len() ==> (#[trigger] self.subs@[i]).buf@.len() <= self.capacity)
    }

    pub fn with_capacity(capacity: usize) -> (h: Self)
        requires
            capacity >= 1,
        ensures
            h.wf(),
            h.capacity == capacity,
            h.subs@.len() == 0,
    {
        FeedHub { capacity, next_id: 0, subs: Vec::new() }
    }

    pub fn subscriber_count(&self) -> (c: usize)
        ensures
            c == self.subs@.len(),
    {
        self.subs.len()
    }

    /// Opens a slot and hands back its handle; existing slots are untouched.
    pub fn subscribe(&mut self) -> (sid: u64)
        requires
            old(self).wf(),
            old(self).next_id < u64::MAX,
        ensures
            final(self).wf(),
            sid == old(self).next_id,
            final(self).capacity == old(self).capacity,
            final(self).next_id == old(self).next_id + 1,
            final(self).subs@.len() == old(self).subs@.len() + 1,
            (forall|i: int|
                0 <= i < old(self).subs@.len() ==> #[trigger] final(self).subs@[i] == old(
                    self,
                ).subs@[i]),
            final(self).subs@.last().id == sid,
            final(self).subs@.last().buf@.len() == 0,
    {
        let sid = self.next_id;
        self.next_id = self.next_id + 1;
        self.subs.push(SubChannel { id: sid, buf: Vec::new() });
        sid
    }

    /// Closes the slot with this handle, if it is live; everything else is
    /// untouched.
    pub fn unsubscribe(&mut self, sid: u64)
        requires
            old(self).wf(),
        ensures
            final(self).wf(),
            final(self).capacity == old(self).capacity,
            final(self).next_id == old(self).next_id,
            (forall|i: int|
                0 <= i < final(self).subs@.len() ==> (#[trigger] final(self).subs@[i]).id != sid),
            (forall|i: int|
                0 <= i < final(self).subs@.len() ==> old(self).subs@.contains(
                    #[trigger] final(self).subs@[i],
                )),
            (forall|i: int|
                0 <= i < old(self).subs@.len() && (#[trigger] old(self).subs@[i]).id != sid
                    ==> final(self).subs@.contains(old(self).subs@[i])),
    {
        let ghost s0 = self.subs@;
        let n = self.subs.len();
        let mut i: usize = 0;
        while i < n
            invariant
                n == self.subs@.len(),
                i <= n,
                self.subs@ == s0,
                old(self).wf(),
                s0 == old(self).subs@,
                self.capacity == old(self).capacity,
                self.next_id == old(self).next_id,
                (forall|k: int| 0 <= k < i ==> (#[trigger] s0[k]).id != sid),
            decreases n - i,
        {
            if self.subs[i].id == sid {
                self.subs.remove(i);
                proof {
                    assert(forall|k: int|
                        0 <= k < self.subs@.len() ==> #[trigger] self.subs@[k] == (if k < i {
                            s0[k]
                        } else {
                            s0[k + 1]
                        }));
                    assert forall|k: int|
                        0 <= k < s0.len() && (#[trigger] s0[k]).id != sid implies
                        self.subs@.contains(s0[k]) by {
                        if k < i {
                            assert(self.subs@[k] == s0[k]);
                        } else {
                            assert(k != i);
                            assert(self.subs@[k - 1] == s0[k]);
                        }
                    }
                }
                return ;
            }
            i = i + 1;
        }
    }

    /// Fans one item out to every live subscriber, dropping each full
    /// buffer's oldest entry. With zero subscribers this is a no-op: it
    /// neither errors nor blocks, and the hub is unchanged.
    pub fn publish(&mut self, item: FeedItem)
        requires
            old(self).wf(),
        ensures
            final(self).wf(),
            final(self).capacity == old(self).capacity,
            final(self).next_id == old(self).next_id,
            final(self).subs@.len() == old(self).subs@.len(),
            (forall|i: int|
                0 <= i < final(self).subs@.len() ==> (#[trigger] final(self).subs@[i]).id == old(
                    self,
                ).subs@[i].id),
            (forall|i: int|
                0 <= i < final(self).subs@.len() ==> (#[trigger] final(self).subs@[i]).buf@
                    == buf_after_publish(
                    old(self).subs@[i].buf@,
                    item,
                    old(self).capacity as nat,
                )),
            old(self).subs@.len() == 0 ==> final(self).subs@ == old(self).subs@,
    {
        let n = self.subs.len();
        let mut i: usize = 0;
        while i < n
            invariant
                n == self.subs@.len(),
                i <= n,
                self.capacity == old(self).capacity,
                self.next_id == old(self).next_id,
                self.capacity >= 1,
                n == old(self).subs@.len(),
                old(self).wf(),
                (forall|k: int|
                    0 <= k < n ==> (#[trigger] self.subs@[k]).id == old(self).subs@[k].id),
                (forall|k: int|
                    i <= k < n ==> (#[trigger] self.subs@[k]).buf@ == old(self).subs@[k].buf@),
                (forall|k: int|
                    0 <= k < i ==> (#[trigger] self.subs@[k]).buf@ == buf_after_publish(
                        old(self).subs@[k].buf@,
                        item,
                        old(self).capacity as nat,
                    )),
                (forall|k: int|
                    0 <= k < n ==> (#[trigger] self.subs@[k]).buf@.len() <= self.capacity),
                (forall|a: int, b: int|
                    0 <= a < b < n ==> (#[trigger] self.subs@[a]).id != (
                    #[trigger] self.subs@[b]).id),
            decreases n - i,
        {
            let ghost before = self.subs@;
            let mut sub = self.subs.remove(i);
            if sub.buf.len() >= self.capacity {
                sub.buf.remove(0);
            }
            sub.buf.push(item);
            self.subs.insert(i, sub);
            proof {
                assert(self.subs@ =~= before.update(
                    i as int,
                    SubChannel { id: before[i as int].id, buf: self.subs@[i as int].buf },
                ));
                assert(self.subs@[i as int].buf@ == buf_after_publish(
                    old(self).subs@[i as int].buf@,
                    item,
                    old(self).capacity as nat,
                ));
            }
            i = i + 1;
        }
        proof {
            if old(self).subs@.len() == 0 {
                assert(self.subs@ =~= old(self).subs@);
            }
        }
    }

    /// Hands out the oldest pending item of this subscriber, if any; other
    /// subscribers are untouched.
    pub fn poll(&mut self, sid: u64) -> (r: Option<FeedItem>)
        requires
            old(self).wf(),
        ensures
            final(self).wf(),
            final(self).capacity == old(self).capacity,
            final(self).next_id == old(self).next_id,
            final(self).subs@.len() == old(self).subs@.len(),
            (forall|i: int|
                0 <= i < final(self).subs@.len() ==> (#[trigger] final(self).subs@[i]).id == old(
                    self,
                ).subs@[i].id),
            (forall|i: int|
                0 <= i < final(self).subs@.len() && old(self).subs@[i].id != sid
                    ==> #[trigger] final(self).subs@[i] == old(self).subs@[i]),
            (forall|i: int|
                0 <= i < final(self).subs@.len() && old(self).subs@[i].id == sid ==> ((
                #[trigger] final(self).subs@[i]).buf@ == (if old(self).subs@[i].buf@.len() > 0 {
                    old(self).subs@[i].buf@.drop_first()
                } else {
                    old(self).subs@[i].buf@
                }) && (r == (if old(self).subs@[i].buf@.len() > 0 {
                    Some(old(self).subs@[i].buf@[0])
                } else {
                    Option::<FeedItem>::None
                })))),
            ((forall|i: int|
                0 <= i < old(self).subs@.len() ==> (#[trigger] old(self).subs@[i]).id != sid)
                ==> r is None && final(self).subs@ == old(self).subs@),
    {
        let n = self.subs.len();
        let mut i: usize = 0;
        while i < n
            invariant
                n == self.subs@.len(),
                i <= n,
                self.subs@ == old(self).subs@,
                old(self).wf(),
                self.capacity == old(self).capacity,
                self.next_id == old(self).next_id,
                (forall|k: int| 0 <= k < i ==> (#[trigger] self.subs@[k]).id != sid),
            decreases n - i,
        {
            if self.subs[i].id == sid {
                let ghost before = self.subs@;
                let mut sub = self.subs.remove(i);
                let r: Option<FeedItem> = if sub.buf.len() > 0 {
                    Some(sub.buf.remove(0))
                } else {
                    None
                };
                self.subs.insert(i, sub);
                proof {
                    assert(self.subs@ =~= before.update(
                        i as int,
                        SubChannel { id: before[i as int].id, buf: self.subs@[i as int].buf },
                    ));
                }
                return r;
            }
            i = i + 1;
        }
        None
    }
}

} // verus!
