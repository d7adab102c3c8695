//! The watcher and its control state machine.
//!
//! A `DirWatcher` owns one validated target, the current snapshot, the event
//! log, and the control state of at most one background polling loop.  The
//! watcher itself only decides; a host program runs the loop, asking
//! `loop_command` what to do next, so every decision the loop takes is made by
//! verified code.

use vstd::prelude::*;
use vstd::string::StringExecFns;

use crate::error::InitTargetError;
use crate::error::WatchingError;
use crate::event::Event;
use crate::event::EventView;
use crate::event::diff_events;
use crate::event::lemma_log_extend;
use crate::event::log_wf;
use crate::event::paths_of;
use crate::event::stamp_of;
use crate::order::sorted_distinct;
use crate::snapshot::copy_paths;
use crate::snapshot::diff;
use crate::snapshot::normalize;
use crate::snapshot::seq_diff;
use crate::target::_Target;
use crate::target::spec_is_absolute;

verus! {

/// The idle interval used when none, or zero, was asked for: the background
/// loop must never poll without sleeping first.
pub const DEFAULT_SYNC_IDLE: u64 = 1;

/// The control state of the background polling loop.
#[derive(Clone, Copy, Debug, PartialEq, Eq, Structural)]
pub enum LoopState {
    /// No background task exists.
    Idle,
    /// A task exists and polls.
    Running,
    /// A task exists and is parked.
    Paused,
}

/// What the background task should do next.
#[derive(Clone, Copy, Debug, PartialEq, Eq, Structural)]
pub enum LoopCommand {
    /// No loop exists any more: the task ends.
    Exit,
    /// The watcher is paused: block until woken, without polling.
    Park,
    /// Sleep for this many nanoseconds, then poll once.
    Poll(u64),
}

/// The idle interval the loop will use for a requested one.
pub open spec fn spec_effective_idle(idle_ns: Option<u64>) -> u64 {
    match idle_ns {
        Some(n) => if n == 0 {
            DEFAULT_SYNC_IDLE
        } else {
            n
        },
        None => DEFAULT_SYNC_IDLE,
    }
}

fn effective_idle(idle_ns: Option<u64>) -> (r: u64)
    ensures
        r == spec_effective_idle(idle_ns),
{
    match idle_ns {
        Some(n) => if n == 0 {
            DEFAULT_SYNC_IDLE
        } else {
            n
        },
        None => DEFAULT_SYNC_IDLE,
    }
}

/// Lists the paths currently matching one root-joined pattern.
///
/// Relies on `glob::glob`: it yields the currently existing matches of the
/// pattern in alphabetical order, silently omitting entries that could not be
/// read; a pattern that matches nothing yields nothing.  An invalid pattern is
/// treated here as matching nothing.  The answer depends on the state of the
/// disk, so nothing is promised of it.
#[verifier::external_body]
fn glob_list(pattern: &str) -> (r: Vec<String>) {
    match glob::glob(pattern) {
        Ok(paths) => paths.filter_map(|entry| entry.ok()).map(
            |path| path.to_string_lossy().into_owned(),
        ).collect(),
        Err(_) => Vec::new(),
    }
}

/// The wall clock, in nanoseconds since the Unix epoch.
///
/// Relies on `std::time::SystemTime::now`; the result follows the machine's
/// clock, so nothing is promised of it.  The watcher clamps the stamps it
/// records to keep the event log monotone whatever this returns.
#[verifier::external_body]
fn now_nanos() -> (t: u64) {
    match std::time::SystemTime::now().duration_since(std::time::UNIX_EPOCH) {
        Ok(elapsed) => elapsed.as_nanos() as u64,
        Err(_) => 0,
    }
}

/// The string the glob collaborator is asked to match: the root, the
/// separator, then one pattern.
fn join_under(root: &String, pat: &String) -> (r: String)
    ensures
        r@ == root@ + "/"@ + pat@,
{
    let mut joined = root.clone();
    joined.append("/");
    joined.append(pat.as_str());
    joined
}

/// One listing of a target: every pattern's matches merged, then normalized
/// into a sorted, duplicate-free snapshot.
fn list_target(target: &_Target) -> (r: Vec<String>)
    ensures
        sorted_distinct(r.deep_view()),
{
    let mut merged: Vec<String> = Vec::new();
    let mut i: usize = 0;
    while i < target.pattern.len()
        invariant
            i <= target.pattern@.len(),
        decreases target.pattern@.len() - i,
    {
        let joined = join_under(&target.location, &target.pattern[i]);
        let mut part = glob_list(joined.as_str());
        merged.append(&mut part);
        i = i + 1;
    }
    normalize(&merged)
}

/// A directory watcher: one validated target, the current snapshot of the
/// paths matching it, the event log since construction, and the control state
/// of at most one background polling loop.
#[derive(Debug)]
pub struct DirWatcher {
    target: _Target,
    snapshot: Vec<String>,
    events: Vec<Event>,
    state: LoopState,
    idle_ns: u64,
    last_stamp: u64,
}

impl DirWatcher {
    /// The paths of the current snapshot.
    pub closed spec fn snap(&self) -> Seq<Seq<char>> {
        self.snapshot.deep_view()
    }

    /// The event log so far.
    pub closed spec fn log(&self) -> Seq<EventView> {
        self.events.deep_view()
    }

    /// The control state of the background polling loop.
    pub closed spec fn loop_state(&self) -> LoopState {
        self.state
    }

    /// The idle interval of the loop, in nanoseconds.
    pub closed spec fn idle(&self) -> u64 {
        self.idle_ns
    }

    /// An upper bound on every recorded stamp; it never decreases.
    pub closed spec fn stamp_bound(&self) -> u64 {
        self.last_stamp
    }

    /// The root path of the target.
    pub closed spec fn root(&self) -> Seq<char> {
        self.target.root()
    }

    /// The target's pattern set, sorted and duplicate-free.
    pub closed spec fn pats(&self) -> Seq<Seq<char>> {
        self.target.patterns()
    }

    /// The target is well formed.
    pub closed spec fn target_wf(&self) -> bool {
        self.target.wf()
    }

    /// A well-formed watcher: a valid target, a sorted duplicate-free
    /// snapshot, and a well-formed event log.
    pub open spec fn wf(&self) -> bool {
        &&& self.target_wf()
        &&& sorted_distinct(self.snap())
        &&& log_wf(self.log(), self.stamp_bound())
    }

    /// Build a watcher over `(location, pattern)`.  Construction fails
    /// exactly as target validation does; on success the snapshot already
    /// holds the first listing, the event log is empty, and no background
    /// loop exists.
    pub fn new(location: &str, pattern: &Vec<String>) -> (r: Result<DirWatcher, InitTargetError>)
        ensures
            (r matches Err(e) && e is NonAbsPath) <==> !spec_is_absolute(location@),
            r matches Ok(w) ==> w.wf() && w.loop_state() is Idle && w.log() == Seq::<
                EventView,
            >::empty() && w.root() == location@ && w.pats().to_set()
                == pattern.deep_view().to_set() && w.stamp_bound() == 0,
    {
        let target = match _Target::new(location, pattern) {
            Ok(target) => target,
            Err(e) => {
                return Err(e);
            },
        };
        let first = list_target(&target);
        let events: Vec<Event> = Vec::new();
        proof {
            assert(events.deep_view() =~= Seq::<EventView>::empty());
        }
        Ok(
            DirWatcher {
                target,
                snapshot: first,
                events,
                state: LoopState::Idle,
                idle_ns: DEFAULT_SYNC_IDLE,
                last_stamp: 0,
            },
        )
    }

    /// Replace the snapshot by the normalized `listing` and append the
    /// changes this reveals, recorded at `stamp` (clamped so the log stays
    /// monotone).  Afterwards the snapshot reflects exactly this listing,
    /// whatever the history was, and the log has grown by exactly the
    /// difference: the removals first, then the additions, each batch only
    /// when non-empty.
    pub fn apply_listing(&mut self, listing: Vec<String>, stamp: u64)
        requires
            old(self).wf(),
        ensures
            final(self).wf(),
            final(self).root() == old(self).root(),
            final(self).pats() == old(self).pats(),
            final(self).loop_state() == old(self).loop_state(),
            final(self).idle() == old(self).idle(),
            sorted_distinct(final(self).snap()),
            final(self).snap().to_set() == listing.deep_view().to_set(),
            final(self).stamp_bound() == (if stamp > old(self).stamp_bound() {
                stamp
            } else {
                old(self).stamp_bound()
            }),
            final(self).log() == old(self).log() + diff_events(
                old(self).snap(),
                final(self).snap(),
                final(self).stamp_bound(),
            ),
    {
        let current = normalize(&listing);
        let (added, removed) = diff(&self.snapshot, &current);
        let ghost prev = self.snapshot.deep_view();
        let ghost cur = current.deep_view();
        let ghost rem_view = removed.deep_view();
        let ghost add_view = added.deep_view();
        let ghost base = self.events.deep_view();
        self.snapshot = current;
        let t = if stamp > self.last_stamp {
            stamp
        } else {
            self.last_stamp
        };
        self.last_stamp = t;
        if removed.len() > 0 {
            let ghost before = self.events.deep_view();
            self.events.push(Event::Remove { paths: removed, stamp: t });
            proof {
                assert(self.events.deep_view() =~= before.push(
                    EventView::Remove { paths: rem_view, stamp: t },
                ));
            }
        }
        if added.len() > 0 {
            let ghost before = self.events.deep_view();
            self.events.push(Event::Add { paths: added, stamp: t });
            proof {
                assert(self.events.deep_view() =~= before.push(
                    EventView::Add { paths: add_view, stamp: t },
                ));
            }
        }
        proof {
            let tail = diff_events(prev, cur, t);
            assert(rem_view == seq_diff(prev, cur));
            assert(add_view == seq_diff(cur, prev));
            assert(self.events.deep_view() =~= base + tail);
            assert forall|i: int| 0 <= i < tail.len() implies #[trigger] stamp_of(tail[i]) == t
                && paths_of(tail[i]).len() > 0 by {
                if rem_view.len() > 0 && add_view.len() > 0 {
                    assert(tail[0] == (EventView::Remove { paths: rem_view, stamp: t }));
                    assert(tail[1] == (EventView::Add { paths: add_view, stamp: t }));
                } else if rem_view.len() > 0 {
                    assert(tail[0] == (EventView::Remove { paths: rem_view, stamp: t }));
                } else if add_view.len() > 0 {
                    assert(tail[0] == (EventView::Add { paths: add_view, stamp: t }));
                }
            }
            lemma_log_extend(base, tail, old(self).stamp_bound(), t);
        }
    }

    /// One manual poll of the target ("refresh"): list it, replace the
    /// snapshot, and record the changes.  What the new snapshot holds depends
    /// on the disk; whatever came back, the events appended are exactly the
    /// difference between the old and the new snapshot, recorded at one
    /// clamped reading of the clock.
    pub fn refresh(&mut self)
        requires
            old(self).wf(),
        ensures
            final(self).wf(),
            final(self).root() == old(self).root(),
            final(self).pats() == old(self).pats(),
            final(self).loop_state() == old(self).loop_state(),
            final(self).idle() == old(self).idle(),
            sorted_distinct(final(self).snap()),
            old(self).stamp_bound() <= final(self).stamp_bound(),
            final(self).log() == old(self).log() + diff_events(
                old(self).snap(),
                final(self).snap(),
                final(self).stamp_bound(),
            ),
    {
        let listing = list_target(&self.target);
        let stamp = now_nanos();
        self.apply_listing(listing, stamp);
    }

    /// Create the background polling loop, in the `Running` state, with the
    /// given idle interval (zero or absent falls back to the default).  Fails
    /// with `DuplicateLoop` when a loop already exists, running or paused,
    /// and then changes nothing.  The watcher only records the decision; the
    /// host program runs the loop that `loop_command` directs.
    pub fn watch_on_idle(&mut self, idle_ns: Option<u64>) -> (r: Result<(), WatchingError>)
        ensures
            r is Ok <==> old(self).loop_state() is Idle,
            r matches Err(e) ==> e is DuplicateLoop && *final(self) == *old(self),
            r is Ok ==> final(self).loop_state() is Running && final(self).idle()
                == spec_effective_idle(idle_ns),
            final(self).snap() == old(self).snap(),
            final(self).log() == old(self).log(),
            final(self).root() == old(self).root(),
            final(self).pats() == old(self).pats(),
            final(self).stamp_bound() == old(self).stamp_bound(),
            final(self).wf() == old(self).wf(),
    {
        match self.state {
            LoopState::Idle => {
                self.state = LoopState::Running;
                self.idle_ns = effective_idle(idle_ns);
                Ok(())
            },
            _ => Err(WatchingError::DuplicateLoop),
        }
    }

    /// Pause the watching.  Pausing an already paused watcher succeeds and
    /// leaves it paused; pausing with no loop at all fails with
    /// `NoRunningLoop` and changes nothing.
    pub fn pause(&mut self) -> (r: Result<(), WatchingError>)
        ensures
            r is Ok <==> !(old(self).loop_state() is Idle),
            r matches Err(e) ==> e is NoRunningLoop && *final(self) == *old(self),
            r is Ok ==> final(self).loop_state() is Paused,
            final(self).snap() == old(self).snap(),
            final(self).log() == old(self).log(),
            final(self).root() == old(self).root(),
            final(self).pats() == old(self).pats(),
            final(self).idle() == old(self).idle(),
            final(self).stamp_bound() == old(self).stamp_bound(),
            final(self).wf() == old(self).wf(),
    {
        match self.state {
            LoopState::Idle => Err(WatchingError::NoRunningLoop),
            _ => {
                self.state = LoopState::Paused;
                Ok(())
            },
        }
    }

    /// Resume the watching.  Resuming a watcher that is already running
    /// succeeds and leaves it running; resuming with no loop at all fails
    /// with `NoRunningLoop` and changes nothing.
    pub fn resume(&mut self) -> (r: Result<(), WatchingError>)
        ensures
            r is Ok <==> !(old(self).loop_state() is Idle),
            r matches Err(e) ==> e is NoRunningLoop && *final(self) == *old(self),
            r is Ok ==> final(self).loop_state() is Running,
            final(self).snap() == old(self).snap(),
            final(self).log() == old(self).log(),
            final(self).root() == old(self).root(),
            final(self).pats() == old(self).pats(),
            final(self).idle() == old(self).idle(),
            final(self).stamp_bound() == old(self).stamp_bound(),
            final(self).wf() == old(self).wf(),
    {
        match self.state {
            LoopState::Idle => Err(WatchingError::NoRunningLoop),
            _ => {
                self.state = LoopState::Running;
                Ok(())
            },
        }
    }

    /// End the watching: tear the loop down, back to `Idle`.  Fails with
    /// `NoRunningLoop` when no loop exists, and then changes nothing.  Once
    /// this returns, `loop_command` answers `Exit`, so the host's task takes
    /// no further poll.
    pub fn end_watching(&mut self) -> (r: Result<(), WatchingError>)
        ensures
            r is Ok <==> !(old(self).loop_state() is Idle),
            r matches Err(e) ==> e is NoRunningLoop && *final(self) == *old(self),
            r is Ok ==> final(self).loop_state() is Idle,
            final(self).snap() == old(self).snap(),
            final(self).log() == old(self).log(),
            final(self).root() == old(self).root(),
            final(self).pats() == old(self).pats(),
            final(self).idle() == old(self).idle(),
            final(self).stamp_bound() == old(self).stamp_bound(),
            final(self).wf() == old(self).wf(),
    {
        match self.state {
            LoopState::Idle => Err(WatchingError::NoRunningLoop),
            _ => {
                self.state = LoopState::Idle;
                Ok(())
            },
        }
    }

    /// True exactly while a loop exists and is not paused.
    pub fn is_watching(&self) -> (r: bool)
        ensures
            r == (self.loop_state() is Running),
    {
        match self.state {
            LoopState::Running => true,
            _ => false,
        }
    }

    /// What the background task should do next: poll after sleeping the idle
    /// interval while running, block while paused, end once no loop exists.
    pub fn loop_command(&self) -> (r: LoopCommand)
        ensures
            self.loop_state() is Running ==> r == LoopCommand::Poll(self.idle()),
            self.loop_state() is Paused ==> r == LoopCommand::Park,
            self.loop_state() is Idle ==> r == LoopCommand::Exit,
    {
        match self.state {
            LoopState::Running => LoopCommand::Poll(self.idle_ns),
            LoopState::Paused => LoopCommand::Park,
            LoopState::Idle => LoopCommand::Exit,
        }
    }

    /// A point-in-time copy of the current snapshot.
    pub fn current(&self) -> (r: Vec<String>)
        ensures
            r.deep_view() == self.snap(),
    {
        copy_paths(&self.snapshot)
    }

    /// A point-in-time copy of the full event history since construction.
    pub fn get_events(&self) -> (r: Vec<Event>)
        ensures
            r.deep_view() == self.log(),
    {
        let mut out: Vec<Event> = Vec::new();
        let mut i: usize = 0;
        proof {
            assert(out.deep_view() =~= self.events.deep_view().take(0));
        }
        while i < self.events.len()
            invariant
                i <= self.events@.len(),
                out.deep_view() == self.events.deep_view().take(i as int),
            decreases self.events@.len() - i,
        {
            let ghost prior = out.deep_view();
            out.push(self.events[i].duplicate());
            proof {
                assert(out.deep_view() =~= prior.push(self.events.deep_view()[i as int]));
                assert(self.events.deep_view().take(i + 1) =~= prior.push(
                    self.events.deep_view()[i as int],
                ));
            }
            i = i + 1;
        }
        proof {
            assert(self.events.deep_view().take(self.events@.len() as int)
                =~= self.events.deep_view());
        }
        out
    }

    /// The watched root and the normalized pattern set.
    pub fn get_target(&self) -> (r: (String, Vec<String>))
        ensures
            r.0@ == self.root(),
            r.1.deep_view() == self.pats(),
    {
        (self.target.root_string(), self.target.patterns_vec())
    }
}

} // verus!
