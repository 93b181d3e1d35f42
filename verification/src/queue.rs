//! The bounded FIFO queue of reports awaiting delivery, and the decision
//! logic of one flush pass over its drained entries.

use vstd::prelude::*;
use crate::report::{PendingReport, PendingReportView};
use crate::{PENDING_REPORTS_MAX, PENDING_REPORT_MAX_ATTEMPTS};

verus! {

pub open spec fn views_of(s: Seq<PendingReport>) -> Seq<PendingReportView> {
    s.map_values(|p: PendingReport| p@)
}

/// One bounded enqueue: when the queue is at (or beyond) capacity, the
/// single oldest entry leaves to admit the new one.
pub open spec fn spec_enqueue(s: Seq<PendingReportView>, e: PendingReportView) -> Seq<
    PendingReportView,
> {
    if s.len() >= PENDING_REPORTS_MAX {
        s.subrange(1, s.len() as int).push(e)
    } else {
        s.push(e)
    }
}

/// A sequence of bounded enqueues, oldest first.
pub open spec fn spec_enqueue_all(
    s: Seq<PendingReportView>,
    items: Seq<PendingReportView>,
) -> Seq<PendingReportView>
    decreases items.len(),
{
    if items.len() == 0 {
        s
    } else {
        spec_enqueue_all(spec_enqueue(s, items[0]), items.drop_first())
    }
}

/// The durable, bounded FIFO queue of undelivered reports.
pub struct ReportQueue {
    entries: Vec<PendingReport>,
}

impl View for ReportQueue {
    type V = Seq<PendingReportView>;

    closed spec fn view(&self) -> Seq<PendingReportView> {
        views_of(self.entries@)
    }
}

impl ReportQueue {
    /// An empty queue.
    pub fn new() -> (r: ReportQueue)
        ensures
            r@ == Seq::<PendingReportView>::empty(),
    {
        let r = ReportQueue { entries: Vec::new() };
        proof {
            assert(r@ =~= Seq::<PendingReportView>::empty());
        }
        r
    }

    /// A queue holding the given entries, oldest first, as loaded at startup.
    pub fn with_entries(entries: Vec<PendingReport>) -> (r: ReportQueue)
        ensures
            r@ == views_of(entries@),
    {
        ReportQueue { entries }
    }

    pub fn len(&self) -> (r: usize)
        ensures
            r == self@.len(),
    {
        self.entries.len()
    }

    /// Appends a report; at capacity, the single oldest entry is evicted.
    pub fn enqueue(&mut self, report: PendingReport)
        ensures
            final(self)@ == spec_enqueue(old(self)@, report@),
    {
        let ghost pre = self@;
        if self.entries.len() >= PENDING_REPORTS_MAX {
            self.entries.remove(0);
            proof {
                assert(self@ =~= pre.subrange(1, pre.len() as int));
            }
        }
        let ghost mid = self@;
        self.entries.push(report);
        proof {
            assert(self@ =~= mid.push(report@));
        }
    }

    /// Atomically removes and returns every queued entry, oldest first.
    pub fn drain_all(&mut self) -> (r: Vec<PendingReport>)
        ensures
            views_of(r@) == old(self)@,
            final(self)@ == Seq::<PendingReportView>::empty(),
    {
        let mut out: Vec<PendingReport> = Vec::new();
        core::mem::swap(&mut self.entries, &mut out);
        proof {
            assert(self@ =~= Seq::<PendingReportView>::empty());
        }
        out
    }

    /// Borrows the queued entries, oldest first, for persistence.
    pub fn borrow_entries(&self) -> (r: &Vec<PendingReport>)
        ensures
            views_of(r@) == self@,
    {
        &self.entries
    }

    /// Re-queues every still-pending entry from a flush pass, oldest first,
    /// under the capacity rule.
    pub fn requeue_all(&mut self, items: Vec<PendingReport>)
        ensures
            final(self)@ == spec_enqueue_all(old(self)@, views_of(items@)),
    {
        let ghost all = views_of(items@);
        let mut items = items;
        proof {
            assert(views_of(items@) =~= all.skip(0));
        }
        while items.len() > 0
            invariant
                spec_enqueue_all(old(self)@, all) == spec_enqueue_all(
                    self@,
                    views_of(items@),
                ),
            decreases items@.len(),
        {
            let ghost rem = views_of(items@);
            let it = items.remove(0);
            proof {
                assert(rem[0] == it@);
                assert(views_of(items@) =~= rem.drop_first());
            }
            self.enqueue(it);
        }
        proof {
            assert(views_of(items@) =~= Seq::<PendingReportView>::empty());
        }
    }
}

// ---------------------------------------------------------------------------
// The flush pass
// ---------------------------------------------------------------------------

/// A queued report whose next attempt would exceed the retry budget.
pub open spec fn retries_exhausted(e: PendingReportView) -> bool {
    e.attempts >= PENDING_REPORT_MAX_ATTEMPTS
}

pub open spec fn bump_attempts(e: PendingReportView) -> PendingReportView {
    PendingReportView { attempts: (e.attempts + 1) as u32, ..e }
}

/// What one flush pass keeps of the drained entries, oldest first: every
/// delivered entry leaves; every undelivered entry has its attempt count
/// raised by one and is kept exactly when that count stays within the
/// retry budget.
pub open spec fn spec_flush_keep(
    items: Seq<PendingReportView>,
    delivered: Seq<bool>,
) -> Seq<PendingReportView>
    decreases items.len(),
{
    if items.len() == 0 {
        Seq::empty()
    } else {
        let rest = spec_flush_keep(items.drop_first(), delivered.drop_first());
        if delivered[0] || retries_exhausted(items[0]) {
            rest
        } else {
            seq![bump_attempts(items[0])] + rest
        }
    }
}

/// Applies the flush decision to the drained entries, given which of them
/// were delivered: exactly the undelivered entries within the retry budget
/// come back, in order, each with one more attempt on its count.
pub fn process_flush_results(items: Vec<PendingReport>, delivered: &Vec<bool>) -> (r: Vec<
    PendingReport,
>)
    requires
        delivered@.len() == items@.len(),
    ensures
        views_of(r@) == spec_flush_keep(views_of(items@), delivered@),
{
    let ghost all = views_of(items@);
    let ghost dall = delivered@;
    let mut items = items;
    let mut out: Vec<PendingReport> = Vec::new();
    let mut i: usize = 0;
    let n = items.len();
    proof {
        assert(all.len() == n as int);
        assert(views_of(out@) =~= Seq::<PendingReportView>::empty());
        assert(dall.skip(0) =~= dall);
        assert(views_of(items@) == all);
        assert(views_of(out@) + spec_flush_keep(all, dall) =~= spec_flush_keep(all, dall));
    }
    while items.len() > 0
        invariant
            dall == delivered@,
            i <= all.len() <= usize::MAX,
            i + items@.len() == all.len(),
            dall.len() == all.len(),
            spec_flush_keep(all, dall) == views_of(out@) + spec_flush_keep(
                views_of(items@),
                dall.skip(i as int),
            ),
        decreases items@.len(),
    {
        let ghost rem = views_of(items@);
        let ghost drem = dall.skip(i as int);
        let it = items.remove(0);
        proof {
            assert(rem[0] == it@);
            assert(views_of(items@) =~= rem.drop_first());
            assert(drem[0] == dall[i as int]);
            assert(drem.drop_first() =~= dall.skip(i + 1));
        }
        let was_delivered = delivered[i];
        if !was_delivered && it.attempts < PENDING_REPORT_MAX_ATTEMPTS {
            let ghost pre_out = views_of(out@);
            let bumped = PendingReport { attempts: it.attempts + 1, ..it };
            proof {
                assert(bumped@ == bump_attempts(it@));
            }
            out.push(bumped);
            proof {
                assert(views_of(out@) =~= pre_out.push(bump_attempts(it@)));
                assert(pre_out + (seq![bump_attempts(rem[0])] + spec_flush_keep(
                    rem.drop_first(),
                    drem.drop_first(),
                )) =~= pre_out.push(bump_attempts(rem[0])) + spec_flush_keep(
                    rem.drop_first(),
                    drem.drop_first(),
                ));
            }
        }
        i = i + 1;
    }
    proof {
        assert(views_of(items@) =~= Seq::<PendingReportView>::empty());
        assert(views_of(out@) + Seq::<PendingReportView>::empty() =~= views_of(out@));
    }
    out
}

// ---------------------------------------------------------------------------
// Laws
// ---------------------------------------------------------------------------

/// Law: starting within capacity, the queue never exceeds its capacity
/// bound after any sequence of enqueue operations; and an enqueue at
/// capacity keeps the length unchanged, evicting exactly the single
/// oldest entry.
pub proof fn lemma_enqueue_all_bounded(
    s: Seq<PendingReportView>,
    items: Seq<PendingReportView>,
)
    requires
        s.len() <= PENDING_REPORTS_MAX,
    ensures
        spec_enqueue_all(s, items).len() <= PENDING_REPORTS_MAX,
        s.len() == PENDING_REPORTS_MAX && items.len() > 0 ==> spec_enqueue(s, items[0])
            == s.subrange(1, s.len() as int).push(items[0]),
    decreases items.len(),
{
    if items.len() > 0 {
        lemma_enqueue_all_bounded(spec_enqueue(s, items[0]), items.drop_first());
    }
}

/// Law: an entry whose attempt count has exhausted the retry budget — one
/// whose next attempt would be the twenty-first — is dropped by the next
/// flush pass rather than re-queued, whatever its delivery outcome: the
/// pass keeps exactly what it would keep were the entry not there at all.
pub proof fn lemma_exhausted_entry_dropped(
    items: Seq<PendingReportView>,
    delivered: Seq<bool>,
    i: int,
)
    requires
        items.len() == delivered.len(),
        0 <= i < items.len(),
        retries_exhausted(items[i]),
    ensures
        spec_flush_keep(items, delivered) == spec_flush_keep(
            items.remove(i),
            delivered.remove(i),
        ),
    decreases items.len(),
{
    if i == 0 {
        assert(items.remove(0) =~= items.drop_first());
        assert(delivered.remove(0) =~= delivered.drop_first());
    } else {
        lemma_exhausted_entry_dropped(items.drop_first(), delivered.drop_first(), i - 1);
        assert(items.remove(i).drop_first() =~= items.drop_first().remove(i - 1));
        assert(delivered.remove(i).drop_first() =~= delivered.drop_first().remove(i - 1));
        assert(items.remove(i)[0] == items[0]);
        assert(delivered.remove(i)[0] == delivered[0]);
    }
}

/// Law: every entry a flush pass keeps carries at least one attempt and
/// never more than the retry budget.
pub proof fn lemma_flush_keep_all_bumped(items: Seq<PendingReportView>, delivered: Seq<bool>)
    requires
        items.len() == delivered.len(),
    ensures
        forall|j: int| 0 <= j < spec_flush_keep(items, delivered).len() ==> {
            &&& 1 <= #[trigger] spec_flush_keep(items, delivered)[j].attempts
            &&& spec_flush_keep(items, delivered)[j].attempts <= PENDING_REPORT_MAX_ATTEMPTS
        },
    decreases items.len(),
{
    if items.len() > 0 {
        lemma_flush_keep_all_bumped(items.drop_first(), delivered.drop_first());
        let kept = spec_flush_keep(items, delivered);
        let rest = spec_flush_keep(items.drop_first(), delivered.drop_first());
        if !(delivered[0] || retries_exhausted(items[0])) {
            assert forall|j: int| 0 <= j < kept.len() implies {
                &&& 1 <= #[trigger] kept[j].attempts
                &&& kept[j].attempts <= PENDING_REPORT_MAX_ATTEMPTS
            } by {
                if j > 0 {
                    assert(kept[j] == rest[j - 1]);
                }
            }
        }
    }
}

} // verus!
