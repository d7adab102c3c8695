//! Change events.
//!
//! Every poll that observes a difference appends at most one removal batch
//! and at most one addition batch to the event log, removals first.  The log
//! only ever grows, and the recording times never decrease along it.

use vstd::prelude::*;

use crate::snapshot::copy_paths;
use crate::snapshot::seq_diff;

verus! {

/// One batch of observed changes, stamped with the time it was recorded.
#[derive(Debug, Clone)]
pub enum Event {
    /// Paths present in the new snapshot but absent from the previous one.
    Add { paths: Vec<String>, stamp: u64 },
    /// Paths present in the previous snapshot but absent from the new one.
    Remove { paths: Vec<String>, stamp: u64 },
}

/// The mathematical reading of an `Event`.
pub enum EventView {
    Add { paths: Seq<Seq<char>>, stamp: u64 },
    Remove { paths: Seq<Seq<char>>, stamp: u64 },
}

impl View for Event {
    type V = EventView;

    open spec fn view(&self) -> EventView {
        match self {
            Event::Add { paths, stamp } => EventView::Add {
                paths: paths.deep_view(),
                stamp: *stamp,
            },
            Event::Remove { paths, stamp } => EventView::Remove {
                paths: paths.deep_view(),
                stamp: *stamp,
            },
        }
    }
}

impl DeepView for Event {
    type V = EventView;

    open spec fn deep_view(&self) -> EventView {
        self.view()
    }
}

/// The time at which an event was recorded.
pub open spec fn stamp_of(e: EventView) -> u64 {
    match e {
        EventView::Add { stamp, .. } => stamp,
        EventView::Remove { stamp, .. } => stamp,
    }
}

/// The paths an event carries.
pub open spec fn paths_of(e: EventView) -> Seq<Seq<char>> {
    match e {
        EventView::Add { paths, .. } => paths,
        EventView::Remove { paths, .. } => paths,
    }
}

/// A well-formed event log: every batch is non-empty, recording times never
/// decrease along the log, and none lies past the watcher's clock bound.
pub open spec fn log_wf(log: Seq<EventView>, bound: u64) -> bool {
    &&& forall|i: int, j: int|
        #![trigger stamp_of(log[i]), stamp_of(log[j])]
        0 <= i <= j < log.len() ==> stamp_of(log[i]) <= stamp_of(log[j])
    &&& forall|i: int| 0 <= i < log.len() ==> #[trigger] stamp_of(log[i]) <= bound
    &&& forall|i: int| 0 <= i < log.len() ==> #[trigger] paths_of(log[i]).len() > 0
}

/// The events one poll appends, given the previous snapshot, the new
/// snapshot, and the recording time: the removals, then the additions, each
/// batch only when it is non-empty.
pub open spec fn diff_events(prev: Seq<Seq<char>>, cur: Seq<Seq<char>>, t: u64) -> Seq<EventView> {
    let removed = seq_diff(prev, cur);
    let added = seq_diff(cur, prev);
    (if removed.len() > 0 {
        seq![EventView::Remove { paths: removed, stamp: t }]
    } else {
        Seq::empty()
    }) + (if added.len() > 0 {
        seq![EventView::Add { paths: added, stamp: t }]
    } else {
        Seq::empty()
    })
}

/// Appending batches that all carry the new clock bound keeps a log well
/// formed.
pub(crate) proof fn lemma_log_extend(
    base: Seq<EventView>,
    tail: Seq<EventView>,
    old_bound: u64,
    bound: u64,
)
    requires
        log_wf(base, old_bound),
        old_bound <= bound,
        forall|i: int| 0 <= i < tail.len() ==> #[trigger] stamp_of(tail[i]) == bound,
        forall|i: int| 0 <= i < tail.len() ==> #[trigger] paths_of(tail[i]).len() > 0,
    ensures
        log_wf(base + tail, bound),
{
    let whole = base + tail;
    assert forall|i: int, j: int|
        #![trigger stamp_of(whole[i]), stamp_of(whole[j])]
        0 <= i <= j < whole.len() implies stamp_of(whole[i]) <= stamp_of(whole[j]) by {
        if i < base.len() {
            assert(whole[i] == base[i]);
        } else {
            assert(whole[i] == tail[i - base.len()]);
        }
        if j < base.len() {
            assert(whole[j] == base[j]);
        } else {
            assert(whole[j] == tail[j - base.len()]);
        }
    }
    assert forall|i: int| 0 <= i < whole.len() implies #[trigger] stamp_of(whole[i])
        <= bound by {
        if i < base.len() {
            assert(whole[i] == base[i]);
        } else {
            assert(whole[i] == tail[i - base.len()]);
        }
    }
    assert forall|i: int| 0 <= i < whole.len() implies #[trigger] paths_of(whole[i]).len()
        > 0 by {
        if i < base.len() {
            assert(whole[i] == base[i]);
        } else {
            assert(whole[i] == tail[i - base.len()]);
        }
    }
}

impl Event {
    /// A fresh copy of the event.
    pub fn duplicate(&self) -> (r: Event)
        ensures
            r@ == self@,
    {
        match self {
            Event::Add { paths, stamp } => Event::Add { paths: copy_paths(paths), stamp: *stamp },
            Event::Remove { paths, stamp } => Event::Remove {
                paths: copy_paths(paths),
                stamp: *stamp,
            },
        }
    }
}

} // verus!
