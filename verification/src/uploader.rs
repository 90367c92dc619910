//! The adaptive batch upload planner and the remote error classification.
//!
//! The planner walks an item list left to right in contiguous windows and
//! shrinks the window size on payload-limit rejections; the I/O shell only
//! performs the calls the planner hands out and reports each outcome back.

use vstd::prelude::*;
use crate::text::{contains_chars, contains_seq, lower, lower_chars, str_to_chars, u64_to_chars};

verus! {

/// A failed remote call: HTTP status plus response body.
pub struct ConvexError {
    status: u16,
    body: String,
}

impl ConvexError {
    pub closed spec fn status_spec(&self) -> int {
        self.status as int
    }

    pub closed spec fn body_spec(&self) -> Seq<char> {
        self.body@
    }

    pub fn new(status: u16, body: String) -> (r: ConvexError)
        ensures
            r.status_spec() == status as int,
            r.body_spec() == body@,
    {
        ConvexError { status, body }
    }

    /// The one classification rule of the remote boundary: a rejection is
    /// retryable with a smaller batch iff the status is 413 or the body
    /// mentions "limit" in any casing.
    pub fn is_payload_limit(&self) -> (r: bool)
        ensures
            r == (self.status_spec() == 413 || contains_seq(lower(self.body_spec()), "limit"@)),
    {
        self.status == 413 || contains_chars(
            &lower_chars(&str_to_chars(self.body.as_str())),
            &str_to_chars("limit"),
        )
    }

    /// A human-readable description of the failure.
    pub fn message(&self) -> (r: String)
        ensures
            r@ == "Convex request failed (status "@ + crate::text::dec_str(self.status_spec())
                + "): "@ + self.body_spec(),
    {
        let mut out = str_to_chars("Convex request failed (status ");
        let mut digits = u64_to_chars(self.status as u64);
        out.append(&mut digits);
        let mut mid = str_to_chars("): ");
        out.append(&mut mid);
        let mut body = str_to_chars(self.body.as_str());
        out.append(&mut body);
        assert(out@ =~= "Convex request failed (status "@ + crate::text::dec_str(
            self.status_spec(),
        ) + "): "@ + self.body_spec());
        crate::text::chars_to_string(&out)
    }
}

/// Windows are half-open `[start, end)` index pairs into the item list.
/// A chain is ordered, disjoint, and gap-free from the very first item.
pub open spec fn windows_chain(ws: Seq<(int, int)>, total: int) -> bool {
    &&& forall|k: int| 0 <= k < ws.len() ==> (#[trigger] ws[k]).0 < ws[k].1 <= total
    &&& forall|k: int| 0 <= k < ws.len() - 1 ==> (#[trigger] ws[k]).1 == ws[k + 1].0
    &&& (ws.len() > 0 ==> ws[0].0 == 0)
}

/// The number of items the windows cover.
pub open spec fn windows_len_sum(ws: Seq<(int, int)>) -> int
    decreases ws.len(),
{
    if ws.len() == 0 {
        0
    } else {
        windows_len_sum(ws.drop_last()) + (ws.last().1 - ws.last().0)
    }
}

/// Walks an ordered item list in contiguous windows. The current batch size
/// only ever shrinks within one job; successfully applied windows are
/// recorded so the coverage claim below can be stated.
pub struct UploadPlan {
    total: usize,
    cursor: usize,
    batch: usize,
    applied: Ghost<Seq<(int, int)>>,
}

impl UploadPlan {
    pub closed spec fn total_spec(&self) -> int {
        self.total as int
    }

    pub closed spec fn cursor_spec(&self) -> int {
        self.cursor as int
    }

    pub closed spec fn batch_spec(&self) -> int {
        self.batch as int
    }

    /// The windows acknowledged as applied so far, in order.
    pub closed spec fn windows(&self) -> Seq<(int, int)> {
        self.applied@
    }

    pub open spec fn done(&self) -> bool {
        self.cursor_spec() == self.total_spec()
    }

    pub closed spec fn wf(&self) -> bool {
        &&& self.cursor <= self.total
        &&& 1 <= self.batch
        &&& windows_chain(self.applied@, self.total as int)
        &&& if self.applied@.len() == 0 {
            self.cursor == 0
        } else {
            self.applied@.last().1 == self.cursor as int
        }
    }

    /// A fresh job over `total` items; a zero initial batch size is lifted
    /// to the floor of one. Empty input is done at once.
    pub fn new(total: usize, initial_batch: usize) -> (r: UploadPlan)
        ensures
            r.wf(),
            r.total_spec() == total as int,
            r.cursor_spec() == 0,
            r.batch_spec() == if initial_batch >= 1 {
                initial_batch as int
            } else {
                1
            },
            r.windows() == Seq::<(int, int)>::empty(),
    {
        UploadPlan {
            total,
            cursor: 0,
            batch: if initial_batch >= 1 {
                initial_batch
            } else {
                1
            },
            applied: Ghost(Seq::empty()),
        }
    }

    pub fn is_done(&self) -> (r: bool)
        ensures
            r == self.done(),
    {
        self.cursor == self.total
    }

    /// The start of the window to apply next.
    pub fn window_start(&self) -> (r: usize)
        ensures
            r as int == self.cursor_spec(),
    {
        self.cursor
    }

    /// The end of the window to apply next: batch-size items, clipped to
    /// the end of the list.
    pub fn window_end(&self) -> (r: usize)
        requires
            self.wf(),
            !self.done(),
        ensures
            r as int == vstd::math::min(self.cursor_spec() + self.batch_spec(), self.total_spec()),
            self.cursor_spec() < r as int <= self.total_spec(),
    {
        if self.total - self.cursor < self.batch {
            self.total
        } else {
            self.cursor + self.batch
        }
    }

    /// The remote accepted the current window: advance past it and keep
    /// the batch size that just worked.
    pub fn on_success(&mut self)
        requires
            old(self).wf(),
            !old(self).done(),
        ensures
            final(self).wf(),
            final(self).total_spec() == old(self).total_spec(),
            final(self).batch_spec() == old(self).batch_spec(),
            final(self).cursor_spec() == vstd::math::min(
                old(self).cursor_spec() + old(self).batch_spec(),
                old(self).total_spec(),
            ),
            final(self).windows() == old(self).windows().push(
                (old(self).cursor_spec(), final(self).cursor_spec()),
            ),
    {
        let end = self.window_end();
        proof {
            let ws = self.applied@.push((self.cursor as int, end as int));
            assert(windows_chain(ws, self.total as int)) by {
                assert(forall|k: int|
                    0 <= k < ws.len() - 1 ==> #[trigger] ws[k] == self.applied@[k]);
            }
            self.applied@ = ws;
        }
        self.cursor = end;
    }

    /// The remote rejected the current window. A payload-limit rejection
    /// with batch size above one halves the size and retries in place;
    /// anything else aborts the whole job.
    pub fn on_failure(&mut self, payload_limit: bool) -> (abort: bool)
        requires
            old(self).wf(),
        ensures
            final(self).wf(),
            final(self).total_spec() == old(self).total_spec(),
            final(self).cursor_spec() == old(self).cursor_spec(),
            final(self).windows() == old(self).windows(),
            abort == !(payload_limit && old(self).batch_spec() > 1),
            abort ==> final(self).batch_spec() == old(self).batch_spec(),
            !abort ==> final(self).batch_spec() == vstd::math::max(
                old(self).batch_spec() / 2,
                1,
            ) && final(self).batch_spec() < old(self).batch_spec(),
    {
        if payload_limit && self.batch > 1 {
            let next = self.batch / 2;
            self.batch = if next >= 1 {
                next
            } else {
                1
            };
            false
        } else {
            true
        }
    }
}

proof fn lemma_chain_sum(ws: Seq<(int, int)>, total: int)
    requires
        windows_chain(ws, total),
    ensures
        windows_len_sum(ws) == if ws.len() == 0 {
            0
        } else {
            ws.last().1
        },
    decreases ws.len(),
{
    if ws.len() > 0 {
        let head = ws.drop_last();
        assert(windows_chain(head, total)) by {
            assert(forall|k: int| 0 <= k < head.len() ==> #[trigger] head[k] == ws[k]);
        }
        lemma_chain_sum(head, total);
        if head.len() > 0 {
            assert(ws[head.len() - 1].1 == ws[head.len() as int].0);
        } else {
            assert(ws[0].0 == 0);
        }
    }
}

/// A finished upload job applied the whole input exactly once: its
/// acknowledged windows are ordered, disjoint, and contiguous from index
/// zero to the total, and their lengths sum to the input length. Batch
/// size never rose and never fell under one along the way (each transition
/// above says so of itself).
pub proof fn lemma_upload_partition(p: &UploadPlan)
    requires
        p.wf(),
        p.done(),
    ensures
        windows_chain(p.windows(), p.total_spec()),
        windows_len_sum(p.windows()) == p.total_spec(),
        p.windows().len() > 0 ==> p.windows()[0].0 == 0 && p.windows().last().1 == p.total_spec(),
        p.total_spec() > 0 ==> p.windows().len() > 0,
{
    lemma_chain_sum(p.windows(), p.total_spec());
}

} // verus!
