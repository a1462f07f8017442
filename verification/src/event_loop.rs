//! Deterministic event loop: tasks, microtasks, timers and animation frames
//! on virtual time.
//!
//! The loop never sleeps. Jobs carry a callback of the host's choosing; the
//! host runs a popped job and hands it back through `complete_job`.

use crate::keyed::{id_map, ids_sorted};
use crate::security::{clone_strings, string_views};
use std::collections::VecDeque;
use vstd::prelude::*;

verus! {

/// Monotonic task id.
#[derive(Debug, Clone, Copy, PartialEq, Eq, PartialOrd, Ord, Hash)]
pub struct TaskId(pub u64);

/// Timer id returned by `setTimeout` / `setInterval`.
#[derive(Debug, Clone, Copy, PartialEq, Eq, PartialOrd, Ord, Hash)]
pub struct TimerId(pub u64);

/// `requestAnimationFrame` id.
#[derive(Debug, Clone, Copy, PartialEq, Eq, PartialOrd, Ord, Hash)]
pub struct RafId(pub u64);

/// Longest timer delay honoured: one day.
pub open spec fn max_timer_delay() -> u64 {
    86400000
}

/// Event-loop runtime configuration.
#[derive(Debug, Clone, Copy, PartialEq, Eq, Structural)]
pub struct EventLoopConfig {
    /// Maximum jobs executed in one drain.
    pub max_jobs_per_run: u64,
    /// Maximum timer auto-advance iterations.
    pub max_timer_advances: u64,
    /// Auto-advance virtual time to the next timer when queues are empty.
    pub auto_advance_time: bool,
}

impl Default for EventLoopConfig {
    fn default() -> (c: Self)
        ensures
            c.max_jobs_per_run == 10000,
            c.max_timer_advances == 10000,
            c.auto_advance_time,
    {
        Self { max_jobs_per_run: 10000, max_timer_advances: 10000, auto_advance_time: true }
    }
}

/// Event-loop counters.
#[derive(Debug, Clone, Copy, PartialEq, Eq, Structural)]
pub struct EventLoopMetrics {
    pub tasks_scheduled: u64,
    pub tasks_executed: u64,
    pub microtasks_scheduled: u64,
    pub microtasks_executed: u64,
    pub timers_scheduled: u64,
    pub timers_fired: u64,
    pub timers_cancelled: u64,
    pub intervals_rescheduled: u64,
    pub animation_frames_scheduled: u64,
    pub animation_frames_fired: u64,
    pub promise_reactions_scheduled: u64,
    pub promise_reactions_executed: u64,
}

/// All counters at zero.
pub open spec fn zero_loop_metrics() -> EventLoopMetrics {
    EventLoopMetrics {
        tasks_scheduled: 0,
        tasks_executed: 0,
        microtasks_scheduled: 0,
        microtasks_executed: 0,
        timers_scheduled: 0,
        timers_fired: 0,
        timers_cancelled: 0,
        intervals_rescheduled: 0,
        animation_frames_scheduled: 0,
        animation_frames_fired: 0,
        promise_reactions_scheduled: 0,
        promise_reactions_executed: 0,
    }
}

impl Default for EventLoopMetrics {
    fn default() -> (m: Self)
        ensures
            m == zero_loop_metrics(),
    {
        EventLoopMetrics {
            tasks_scheduled: 0,
            tasks_executed: 0,
            microtasks_scheduled: 0,
            microtasks_executed: 0,
            timers_scheduled: 0,
            timers_fired: 0,
            timers_cancelled: 0,
            intervals_rescheduled: 0,
            animation_frames_scheduled: 0,
            animation_frames_fired: 0,
            promise_reactions_scheduled: 0,
            promise_reactions_executed: 0,
        }
    }
}

/// Summary of one drain of the loop.
#[derive(Debug, Clone, PartialEq, Eq)]
pub struct EventLoopRunSummary {
    /// Jobs executed by this drain.
    pub jobs_executed: u64,
    /// The drain stopped at a limit.
    pub hit_limit: bool,
    /// Virtual time at the end, in milliseconds.
    pub virtual_time_ms: u64,
    /// Event-loop counters.
    pub event_loop: EventLoopMetrics,
    /// Captured console lines.
    pub console: Vec<String>,
}

impl Default for EventLoopRunSummary {
    fn default() -> (s: Self)
        ensures
            s.jobs_executed == 0,
            !s.hit_limit,
            s.virtual_time_ms == 0,
            s.event_loop == zero_loop_metrics(),
            s.console@.len() == 0,
    {
        Self {
            jobs_executed: 0,
            hit_limit: false,
            virtual_time_ms: 0,
            event_loop: EventLoopMetrics::default(),
            console: Vec::new(),
        }
    }
}

/// Model of a drain summary: console lines as character sequences.
pub struct SummaryView {
    pub jobs_executed: u64,
    pub hit_limit: bool,
    pub virtual_time_ms: u64,
    pub event_loop: EventLoopMetrics,
    pub console: Seq<Seq<char>>,
}

impl View for EventLoopRunSummary {
    type V = SummaryView;

    open spec fn view(&self) -> SummaryView {
        SummaryView {
            jobs_executed: self.jobs_executed,
            hit_limit: self.hit_limit,
            virtual_time_ms: self.virtual_time_ms,
            event_loop: self.event_loop,
            console: string_views(self.console@),
        }
    }
}

/// A copy of a drain summary.
pub fn copy_summary(s: &EventLoopRunSummary) -> (c: EventLoopRunSummary)
    ensures
        c@ == s@,
        c.console@ == s.console@,
{
    EventLoopRunSummary {
        jobs_executed: s.jobs_executed,
        hit_limit: s.hit_limit,
        virtual_time_ms: s.virtual_time_ms,
        event_loop: s.event_loop,
        console: clone_strings(&s.console),
    }
}

/// Queued job kind.
#[derive(Debug, Clone, Copy, PartialEq, Eq, Structural)]
pub enum QueuedJobKind {
    Task,
    Microtask,
    Timer,
    Interval,
    AnimationFrame,
    PromiseReaction,
}

/// A queued callback.
#[derive(Debug, Clone)]
pub struct QueuedJob<C> {
    /// Job id.
    pub id: TaskId,
    /// Job kind.
    pub kind: QueuedJobKind,
    /// Callback.
    pub callback: C,
    /// Callback arguments.
    pub args: Vec<C>,
    /// Timer of a timer or interval job.
    pub timer_id: Option<TimerId>,
    /// Repeat delay of an interval job.
    pub repeat_delay_ms: Option<u64>,
    /// Frame timestamp (virtual time) of an animation-frame job.
    pub frame_time_ms: Option<u64>,
}

/// Model of a job.
pub struct JobView<C> {
    pub id: u64,
    pub kind: QueuedJobKind,
    pub callback: C,
    pub args: Seq<C>,
    pub timer_id: Option<u64>,
    pub repeat_delay_ms: Option<u64>,
    pub frame_time_ms: Option<u64>,
}

impl<C> View for QueuedJob<C> {
    type V = JobView<C>;

    open spec fn view(&self) -> JobView<C> {
        JobView {
            id: self.id.0,
            kind: self.kind,
            callback: self.callback,
            args: self.args@,
            timer_id: match self.timer_id {
                Some(t) => Some(t.0),
                None => None,
            },
            repeat_delay_ms: self.repeat_delay_ms,
            frame_time_ms: self.frame_time_ms,
        }
    }
}

/// A pending timeout or interval.
#[derive(Debug, Clone)]
pub struct TimerEntry<C> {
    pub timer_id: TimerId,
    pub due_ms: u64,
    pub delay_ms: u64,
    pub repeat: bool,
    pub callback: C,
    pub args: Vec<C>,
}

/// Model of a timer.
pub struct TimerView<C> {
    pub timer_id: u64,
    pub due_ms: u64,
    pub delay_ms: u64,
    pub repeat: bool,
    pub callback: C,
    pub args: Seq<C>,
}

impl<C> View for TimerEntry<C> {
    type V = TimerView<C>;

    open spec fn view(&self) -> TimerView<C> {
        TimerView {
            timer_id: self.timer_id.0,
            due_ms: self.due_ms,
            delay_ms: self.delay_ms,
            repeat: self.repeat,
            callback: self.callback,
            args: self.args@,
        }
    }
}

/// Views of a timer table.
pub open spec fn timer_views<C>(s: Seq<(u64, TimerEntry<C>)>) -> Seq<(u64, TimerView<C>)> {
    s.map_values(|p: (u64, TimerEntry<C>)| (p.0, p.1@))
}

/// Views of a job queue.
pub open spec fn job_views<C>(s: Seq<QueuedJob<C>>) -> Seq<JobView<C>> {
    s.map_values(|j: QueuedJob<C>| j@)
}

/// Model of the whole loop.
pub struct LoopModel<C> {
    pub time: u64,
    pub next_task: u64,
    pub next_timer: u64,
    pub next_raf: u64,
    pub tasks: Seq<JobView<C>>,
    pub microtasks: Seq<JobView<C>>,
    pub timers: Seq<(u64, TimerView<C>)>,
    pub cancelled: Set<u64>,
    pub rafs: Seq<(u64, C)>,
    pub metrics: EventLoopMetrics,
}

/// Saturating increment.
pub open spec fn sat_inc(x: u64) -> u64 {
    if x < u64::MAX {
        (x + 1) as u64
    } else {
        x
    }
}

/// `x` after `n` saturating increments.
pub open spec fn sat_add_n(x: u64, n: nat) -> u64 {
    if x + n > u64::MAX {
        u64::MAX
    } else {
        (x + n) as u64
    }
}

/// A job with no timer or frame attached.
pub open spec fn plain_job<C>(id: u64, kind: QueuedJobKind, callback: C, args: Seq<C>) -> JobView<C> {
    JobView { id, kind, callback, args, timer_id: None, repeat_delay_ms: None, frame_time_ms: None }
}

/// The job a fired timer becomes.
pub open spec fn timer_job<C>(t: TimerView<C>, id: u64) -> JobView<C> {
    JobView {
        id,
        kind: if t.repeat {
            QueuedJobKind::Interval
        } else {
            QueuedJobKind::Timer
        },
        callback: t.callback,
        args: t.args,
        timer_id: Some(t.timer_id),
        repeat_delay_ms: if t.repeat {
            Some(t.delay_ms)
        } else {
            None
        },
        frame_time_ms: None,
    }
}

/// A timer fires at `time`: it is due and not cancelled.
pub open spec fn fires<C>(t: TimerView<C>, time: u64, cancelled: Set<u64>) -> bool {
    t.due_ms <= time && !cancelled.contains(t.timer_id)
}

/// Jobs for the due, uncancelled timers, in timer-id order, numbered from `next`.
pub open spec fn due_jobs<C>(ts: Seq<(u64, TimerView<C>)>, time: u64, cancelled: Set<u64>, next: u64) -> Seq<JobView<C>>
    decreases ts.len(),
{
    if ts.len() == 0 {
        Seq::empty()
    } else {
        let prev = due_jobs(ts.drop_last(), time, cancelled, next);
        if fires(ts.last().1, time, cancelled) {
            prev.push(timer_job(ts.last().1, sat_add_n(next, prev.len())))
        } else {
            prev
        }
    }
}

/// Timers not yet due.
pub open spec fn pending_timers<C>(ts: Seq<(u64, TimerView<C>)>, time: u64) -> Seq<(u64, TimerView<C>)>
    decreases ts.len(),
{
    if ts.len() == 0 {
        Seq::empty()
    } else {
        let prev = pending_timers(ts.drop_last(), time);
        if ts.last().1.due_ms > time {
            prev.push(ts.last())
        } else {
            prev
        }
    }
}

/// Due timers leave the table; those not cancelled become tasks.
pub open spec fn promote_model<C>(m: LoopModel<C>) -> LoopModel<C> {
    let jobs = due_jobs(m.timers, m.time, m.cancelled, m.next_task);
    LoopModel {
        tasks: m.tasks + jobs,
        next_task: sat_add_n(m.next_task, jobs.len()),
        timers: pending_timers(m.timers, m.time),
        ..m
    }
}

/// Animation-frame jobs for the pending callbacks, in id order.
pub open spec fn raf_jobs<C>(rafs: Seq<(u64, C)>, time: u64, next: u64) -> Seq<JobView<C>> {
    Seq::new(
        rafs.len(),
        |i: int|
            JobView {
                id: sat_add_n(next, i as nat),
                kind: QueuedJobKind::AnimationFrame,
                callback: rafs[i].1,
                args: Seq::empty(),
                timer_id: None,
                repeat_delay_ms: None,
                frame_time_ms: Some(time),
            },
    )
}

/// Pending animation-frame callbacks move to the task queue.
pub open spec fn tick_model<C>(m: LoopModel<C>) -> LoopModel<C> {
    let jobs = raf_jobs(m.rafs, m.time, m.next_task);
    LoopModel {
        tasks: m.tasks + jobs,
        next_task: sat_add_n(m.next_task, jobs.len()),
        rafs: Seq::empty(),
        ..m
    }
}

/// Earliest due time among timers.
pub open spec fn min_due<C>(ts: Seq<(u64, TimerView<C>)>) -> u64
    decreases ts.len(),
{
    if ts.len() == 0 {
        0
    } else if ts.len() == 1 {
        ts[0].1.due_ms
    } else {
        let rest = min_due(ts.drop_last());
        if ts.last().1.due_ms < rest {
            ts.last().1.due_ms
        } else {
            rest
        }
    }
}

/// Pops a microtask, else a task.
pub open spec fn pop_queues<C>(m: LoopModel<C>) -> (LoopModel<C>, Option<JobView<C>>) {
    if m.microtasks.len() > 0 {
        (LoopModel { microtasks: m.microtasks.drop_first(), ..m }, Some(m.microtasks[0]))
    } else if m.tasks.len() > 0 {
        (LoopModel { tasks: m.tasks.drop_first(), ..m }, Some(m.tasks[0]))
    } else {
        (m, None)
    }
}

/// The next ready job: promote due timers; a microtask first, then a task;
/// else animation frames; else (when auto-advancing) jump to the earliest
/// timer, promote, and take a microtask or task.
pub open spec fn pop_model<C>(m: LoopModel<C>, auto_advance: bool) -> (LoopModel<C>, Option<JobView<C>>) {
    let p = promote_model(m);
    if p.microtasks.len() > 0 || p.tasks.len() > 0 {
        pop_queues(p)
    } else if p.rafs.len() > 0 {
        pop_queues(tick_model(p))
    } else if auto_advance && p.timers.len() > 0 {
        let due = min_due(p.timers);
        let advanced = LoopModel { time: if due > p.time { due } else { p.time }, ..p };
        pop_queues(promote_model(advanced))
    } else {
        (p, None)
    }
}


/// Jobs' metrics after a completed job of the given kind.
pub open spec fn completed_metrics(m: EventLoopMetrics, kind: QueuedJobKind) -> EventLoopMetrics {
    match kind {
        QueuedJobKind::Task => EventLoopMetrics { tasks_executed: sat_inc(m.tasks_executed), ..m },
        QueuedJobKind::Microtask => EventLoopMetrics { microtasks_executed: sat_inc(m.microtasks_executed), ..m },
        QueuedJobKind::PromiseReaction => EventLoopMetrics {
            promise_reactions_executed: sat_inc(m.promise_reactions_executed),
            ..m
        },
        QueuedJobKind::Timer => EventLoopMetrics { timers_fired: sat_inc(m.timers_fired), ..m },
        QueuedJobKind::Interval => EventLoopMetrics { timers_fired: sat_inc(m.timers_fired), ..m },
        QueuedJobKind::AnimationFrame => EventLoopMetrics {
            animation_frames_fired: sat_inc(m.animation_frames_fired),
            ..m
        },
    }
}

/// A completed interval job whose timer was not cleared is scheduled again.
pub open spec fn reschedules<C>(m: LoopModel<C>, job: JobView<C>) -> bool {
    job.kind == QueuedJobKind::Interval && job.timer_id is Some && job.repeat_delay_ms is Some
        && !m.cancelled.contains(job.timer_id->Some_0)
}

/// Pending timers, cleared timer ids and animation-frame callbacks, each
/// in increasing id order.
struct Schedules<C> {
    timers: Vec<(u64, TimerEntry<C>)>,
    cancelled: Vec<(u64, ())>,
    rafs: Vec<(u64, C)>,
}

/// Timer table well-formed: ids increase and each entry carries its own id.
pub open spec fn timers_wf<C>(ts: Seq<(u64, TimerView<C>)>) -> bool {
    &&& ids_sorted(ts)
    &&& forall|i: int| 0 <= i < ts.len() ==> (#[trigger] ts[i]).1.timer_id == ts[i].0
}

impl<C> Schedules<C> {
    #[verifier::type_invariant]
    closed spec fn wf(self) -> bool {
        &&& timers_wf(timer_views(self.timers@))
        &&& ids_sorted(self.cancelled@)
        &&& ids_sorted(self.rafs@)
    }

    closed spec fn timer_seq(self) -> Seq<(u64, TimerView<C>)> {
        timer_views(self.timers@)
    }

    closed spec fn cancelled_set(self) -> Set<u64> {
        id_map(self.cancelled@).dom()
    }

    closed spec fn raf_seq(self) -> Seq<(u64, C)> {
        self.rafs@
    }

    fn new() -> (s: Self)
        ensures
            s.timer_seq() == Seq::<(u64, TimerView<C>)>::empty(),
            s.cancelled_set() == Set::<u64>::empty(),
            s.raf_seq() == Seq::<(u64, C)>::empty(),
    {
        let cancelled: Vec<(u64, ())> = Vec::new();
        proof {
            crate::keyed::lemma_id_empty(cancelled@);
        }
        let s = Self { timers: Vec::new(), cancelled, rafs: Vec::new() };
        assert(s.timer_seq() =~= Seq::<(u64, TimerView<C>)>::empty());
        assert(s.cancelled_set() =~= Set::<u64>::empty());
        s
    }
}

proof fn lemma_timer_views<C>(s: Seq<(u64, TimerEntry<C>)>)
    ensures
        ids_sorted(timer_views(s)) == ids_sorted(s),
        ids_sorted(s) ==> id_map(timer_views(s)) == id_map(s).map_values(|e: TimerEntry<C>| e@),
        timer_views(s).len() == s.len(),
{
    let v = timer_views(s);
    assert forall|k: u64| #[trigger] id_map(v).dom().contains(k) == id_map(s).dom().contains(k) by {
        if id_map(v).dom().contains(k) {
            let i = crate::keyed::id_pos(v, k);
            assert(s[i].0 == k);
        }
        if id_map(s).dom().contains(k) {
            let i = crate::keyed::id_pos(s, k);
            assert(v[i].0 == k);
        }
    }
    if ids_sorted(s) {
        assert(ids_sorted(v)) by {
            assert forall|a: int, b: int| 0 <= a < b < v.len() implies #[trigger] v[a].0 < #[trigger] v[b].0 by {
                assert(s[a].0 < s[b].0);
            }
        }
        assert forall|k: u64| #[trigger] id_map(v).dom().contains(k) implies id_map(v)[k] == id_map(s)[k]@ by {
            let i = crate::keyed::id_pos(v, k);
            crate::keyed::lemma_id_entry(v, i);
            crate::keyed::lemma_id_entry(s, i);
        }
    }
    if ids_sorted(v) {
        assert(ids_sorted(s)) by {
            assert forall|a: int, b: int| 0 <= a < b < s.len() implies #[trigger] s[a].0 < #[trigger] s[b].0 by {
                assert(v[a].0 < v[b].0);
            }
        }
    }
    if ids_sorted(s) {
        assert(id_map(v) =~= id_map(s).map_values(|e: TimerEntry<C>| e@));
    }
}

impl<C> Schedules<C> {
    fn insert_timer(&mut self, e: TimerEntry<C>)
        ensures
            timers_wf(final(self).timer_seq()),
            id_map(final(self).timer_seq()) == id_map(old(self).timer_seq()).insert(e.timer_id.0, e@),
            final(self).cancelled_set() == old(self).cancelled_set(),
            final(self).raf_seq() == old(self).raf_seq(),
    {
        proof {
            use_type_invariant(&*self);
            lemma_timer_views(self.timers@);
        }
        let key = e.timer_id.0;
        let ghost ev = e@;
        let ghost s0 = self.timers@;
        let mut timers: Vec<(u64, TimerEntry<C>)> = Vec::new();
        std::mem::swap(&mut timers, &mut self.timers);
        crate::keyed::id_insert(&mut timers, key, e);
        proof {
            lemma_timer_views(timers@);
            assert forall|i: int| 0 <= i < timers@.len() implies (#[trigger] timers@[i]).1.timer_id.0 == timers@[i].0 by {
                crate::keyed::lemma_id_entry(timers@, i);
                if timers@[i].0 != key {
                    let j = crate::keyed::id_pos(s0, timers@[i].0);
                    crate::keyed::lemma_id_entry(s0, j);
                    assert(timer_views(s0)[j].1.timer_id == timer_views(s0)[j].0);
                }
            }
            assert forall|i: int| 0 <= i < timer_views(timers@).len() implies (#[trigger] timer_views(timers@)[i]).1.timer_id
                == timer_views(timers@)[i].0 by {
                assert(timers@[i].1.timer_id.0 == timers@[i].0);
            }
            assert(id_map(timers@).map_values(|x: TimerEntry<C>| x@) =~= id_map(s0).map_values(
                |x: TimerEntry<C>| x@,
            ).insert(key, ev));
        }
        self.timers = timers;
    }

    fn remove_timer(&mut self, id: u64) -> (r: bool)
        ensures
            r == id_map(old(self).timer_seq()).dom().contains(id),
            timers_wf(final(self).timer_seq()),
            id_map(final(self).timer_seq()) == id_map(old(self).timer_seq()).remove(id),
            final(self).cancelled_set() == old(self).cancelled_set(),
            final(self).raf_seq() == old(self).raf_seq(),
    {
        proof {
            use_type_invariant(&*self);
            lemma_timer_views(self.timers@);
        }
        let ghost s0 = self.timers@;
        let mut timers: Vec<(u64, TimerEntry<C>)> = Vec::new();
        std::mem::swap(&mut timers, &mut self.timers);
        let r = crate::keyed::id_remove(&mut timers, id).is_some();
        proof {
            lemma_timer_views(timers@);
            assert forall|i: int| 0 <= i < timers@.len() implies (#[trigger] timers@[i]).1.timer_id.0 == timers@[i].0 by {
                crate::keyed::lemma_id_entry(timers@, i);
                let j = crate::keyed::id_pos(s0, timers@[i].0);
                crate::keyed::lemma_id_entry(s0, j);
                assert(timer_views(s0)[j].1.timer_id == timer_views(s0)[j].0);
            }
            assert forall|i: int| 0 <= i < timer_views(timers@).len() implies (#[trigger] timer_views(timers@)[i]).1.timer_id
                == timer_views(timers@)[i].0 by {
                assert(timers@[i].1.timer_id.0 == timers@[i].0);
            }
            assert(id_map(timers@).map_values(|x: TimerEntry<C>| x@) =~= id_map(s0).map_values(
                |x: TimerEntry<C>| x@,
            ).remove(id));
        }
        self.timers = timers;
        r
    }

    fn take_timers(&mut self) -> (v: Vec<(u64, TimerEntry<C>)>)
        ensures
            timer_views(v@) == old(self).timer_seq(),
            timers_wf(old(self).timer_seq()),
            ids_sorted(v@),
            final(self).timer_seq().len() == 0,
            final(self).cancelled_set() == old(self).cancelled_set(),
            final(self).raf_seq() == old(self).raf_seq(),
    {
        proof {
            use_type_invariant(&*self);
            lemma_timer_views(self.timers@);
        }
        let mut timers: Vec<(u64, TimerEntry<C>)> = Vec::new();
        std::mem::swap(&mut timers, &mut self.timers);
        timers
    }

    fn put_timers(&mut self, v: Vec<(u64, TimerEntry<C>)>)
        requires
            timers_wf(timer_views(v@)),
        ensures
            final(self).timer_seq() == timer_views(v@),
            final(self).cancelled_set() == old(self).cancelled_set(),
            final(self).raf_seq() == old(self).raf_seq(),
    {
        proof {
            use_type_invariant(&*self);
        }
        self.timers = v;
    }

    fn is_cancelled(&self, id: u64) -> (r: bool)
        ensures
            r == self.cancelled_set().contains(id),
    {
        proof {
            use_type_invariant(self);
        }
        match crate::keyed::id_find(&self.cancelled, id) {
            Ok(i) => {
                proof {
                    crate::keyed::lemma_id_entry(self.cancelled@, i as int);
                }
                true
            },
            Err(_) => false,
        }
    }

    fn set_cancelled(&mut self, id: u64, cancelled: bool)
        ensures
            final(self).cancelled_set() == (if cancelled {
                old(self).cancelled_set().insert(id)
            } else {
                old(self).cancelled_set().remove(id)
            }),
            final(self).timer_seq() == old(self).timer_seq(),
            final(self).raf_seq() == old(self).raf_seq(),
    {
        proof {
            use_type_invariant(&*self);
        }
        let mut c: Vec<(u64, ())> = Vec::new();
        std::mem::swap(&mut c, &mut self.cancelled);
        let ghost s0 = c@;
        if cancelled {
            crate::keyed::id_insert(&mut c, id, ());
            assert(id_map(c@).dom() =~= id_map(s0).dom().insert(id));
        } else {
            let _ = crate::keyed::id_remove(&mut c, id);
            assert(id_map(c@).dom() =~= id_map(s0).dom().remove(id));
        }
        self.cancelled = c;
    }

    fn insert_raf(&mut self, id: u64, callback: C)
        ensures
            ids_sorted(final(self).raf_seq()),
            id_map(final(self).raf_seq()) == id_map(old(self).raf_seq()).insert(id, callback),
            final(self).timer_seq() == old(self).timer_seq(),
            final(self).cancelled_set() == old(self).cancelled_set(),
    {
        proof {
            use_type_invariant(&*self);
        }
        let mut r: Vec<(u64, C)> = Vec::new();
        std::mem::swap(&mut r, &mut self.rafs);
        crate::keyed::id_insert(&mut r, id, callback);
        self.rafs = r;
    }

    fn remove_raf(&mut self, id: u64) -> (r: bool)
        ensures
            r == id_map(old(self).raf_seq()).dom().contains(id),
            ids_sorted(final(self).raf_seq()),
            id_map(final(self).raf_seq()) == id_map(old(self).raf_seq()).remove(id),
            final(self).timer_seq() == old(self).timer_seq(),
            final(self).cancelled_set() == old(self).cancelled_set(),
    {
        proof {
            use_type_invariant(&*self);
        }
        let mut rv: Vec<(u64, C)> = Vec::new();
        std::mem::swap(&mut rv, &mut self.rafs);
        let r = crate::keyed::id_remove(&mut rv, id).is_some();
        self.rafs = rv;
        r
    }

    fn take_rafs(&mut self) -> (v: Vec<(u64, C)>)
        ensures
            v@ == old(self).raf_seq(),
            final(self).raf_seq().len() == 0,
            final(self).timer_seq() == old(self).timer_seq(),
            final(self).cancelled_set() == old(self).cancelled_set(),
    {
        proof {
            use_type_invariant(&*self);
        }
        let mut rv: Vec<(u64, C)> = Vec::new();
        std::mem::swap(&mut rv, &mut self.rafs);
        rv
    }

    fn earliest_due(&self) -> (d: u64)
        ensures
            d == min_due(self.timer_seq()),
    {
        let ghost ts = self.timer_seq();
        let n = self.timers.len();
        if n == 0 {
            return 0;
        }
        let mut best = self.timers[0].1.due_ms;
        let mut i: usize = 1;
        assert(ts.take(1).drop_last() =~= Seq::<(u64, TimerView<C>)>::empty());
        while i < n
            invariant
                1 <= i <= n,
                n == self.timers@.len(),
                ts == self.timer_seq(),
                best == min_due(ts.take(i as int)),
            decreases n - i,
        {
            assert(ts.take(i + 1).drop_last() =~= ts.take(i as int));
            assert(ts.take(i + 1).last() == ts[i as int]);
            let d = self.timers[i].1.due_ms;
            if d < best {
                best = d;
            }
            i = i + 1;
        }
        assert(ts.take(n as int) =~= ts);
        best
    }
}

/// Deterministic event loop over callbacks of type `C`.
pub struct JsEventLoop<C> {
    virtual_time_ms: u64,
    next_task_id: u64,
    next_timer_id: u64,
    next_raf_id: u64,
    tasks: VecDeque<QueuedJob<C>>,
    microtasks: VecDeque<QueuedJob<C>>,
    sched: Schedules<C>,
    metrics: EventLoopMetrics,
}

impl<C> View for JsEventLoop<C> {
    type V = LoopModel<C>;

    closed spec fn view(&self) -> LoopModel<C> {
        LoopModel {
            time: self.virtual_time_ms,
            next_task: self.next_task_id,
            next_timer: self.next_timer_id,
            next_raf: self.next_raf_id,
            tasks: job_views(self.tasks@),
            microtasks: job_views(self.microtasks@),
            timers: self.sched.timer_seq(),
            cancelled: self.sched.cancelled_set(),
            rafs: self.sched.raf_seq(),
            metrics: self.metrics,
        }
    }
}

impl<C> JsEventLoop<C> {
    /// Empty loop at time zero; ids start at 1.
    pub fn new() -> (l: Self)
        ensures
            l@ == (LoopModel::<C> {
                time: 0,
                next_task: 1,
                next_timer: 1,
                next_raf: 1,
                tasks: Seq::empty(),
                microtasks: Seq::empty(),
                timers: Seq::empty(),
                cancelled: Set::empty(),
                rafs: Seq::empty(),
                metrics: zero_loop_metrics(),
            }),
    {
        let l = Self {
            virtual_time_ms: 0,
            next_task_id: 1,
            next_timer_id: 1,
            next_raf_id: 1,
            tasks: VecDeque::new(),
            microtasks: VecDeque::new(),
            sched: Schedules::new(),
            metrics: EventLoopMetrics::default(),
        };
        assert(l@.tasks =~= Seq::<JobView<C>>::empty());
        assert(l@.microtasks =~= Seq::<JobView<C>>::empty());
        l
    }

    /// Current virtual time in milliseconds.
    pub fn virtual_time_ms(&self) -> (t: u64)
        ensures
            t == self@.time,
    {
        self.virtual_time_ms
    }

    /// Counter snapshot.
    pub fn metrics(&self) -> (m: EventLoopMetrics)
        ensures
            m == self@.metrics,
    {
        self.metrics
    }

    fn take_task_id(&mut self) -> (id: TaskId)
        ensures
            id.0 == old(self)@.next_task,
            final(self)@ == (LoopModel { next_task: sat_inc(old(self)@.next_task), ..old(self)@ }),
    {
        let id = TaskId(self.next_task_id);
        self.next_task_id = self.next_task_id.saturating_add(1);
        id
    }

    /// Queues a macrotask. Its id is the next task id; until that counter
    /// saturates, every id handed out is below the next one.
    pub fn queue_task(&mut self, callback: C, args: Vec<C>) -> (id: TaskId)
        ensures
            id.0 == old(self)@.next_task,
            old(self)@.next_task < u64::MAX ==> id.0 < final(self)@.next_task,
            final(self)@ == (LoopModel {
                next_task: sat_inc(old(self)@.next_task),
                tasks: old(self)@.tasks.push(plain_job(id.0, QueuedJobKind::Task, callback, args@)),
                metrics: EventLoopMetrics {
                    tasks_scheduled: sat_inc(old(self)@.metrics.tasks_scheduled),
                    ..old(self)@.metrics
                },
                ..old(self)@
            }),
    {
        let id = self.take_task_id();
        let job = QueuedJob {
            id,
            kind: QueuedJobKind::Task,
            callback,
            args,
            timer_id: None,
            repeat_delay_ms: None,
            frame_time_ms: None,
        };
        let ghost jv = job@;
        self.tasks.push_back(job);
        self.metrics.tasks_scheduled = self.metrics.tasks_scheduled.saturating_add(1);
        assert(self@.tasks =~= old(self)@.tasks.push(jv));
        id
    }

    /// Queues a microtask.
    pub fn queue_microtask(&mut self, callback: C, args: Vec<C>) -> (id: TaskId)
        ensures
            id.0 == old(self)@.next_task,
            old(self)@.next_task < u64::MAX ==> id.0 < final(self)@.next_task,
            final(self)@ == (LoopModel {
                next_task: sat_inc(old(self)@.next_task),
                microtasks: old(self)@.microtasks.push(plain_job(id.0, QueuedJobKind::Microtask, callback, args@)),
                metrics: EventLoopMetrics {
                    microtasks_scheduled: sat_inc(old(self)@.metrics.microtasks_scheduled),
                    ..old(self)@.metrics
                },
                ..old(self)@
            }),
    {
        let id = self.take_task_id();
        let job = QueuedJob {
            id,
            kind: QueuedJobKind::Microtask,
            callback,
            args,
            timer_id: None,
            repeat_delay_ms: None,
            frame_time_ms: None,
        };
        let ghost jv = job@;
        self.microtasks.push_back(job);
        self.metrics.microtasks_scheduled = self.metrics.microtasks_scheduled.saturating_add(1);
        assert(self@.microtasks =~= old(self)@.microtasks.push(jv));
        id
    }

    /// Queues a Promise reaction microtask.
    pub fn queue_promise_reaction(&mut self, callback: C, args: Vec<C>) -> (id: TaskId)
        ensures
            id.0 == old(self)@.next_task,
            old(self)@.next_task < u64::MAX ==> id.0 < final(self)@.next_task,
            final(self)@ == (LoopModel {
                next_task: sat_inc(old(self)@.next_task),
                microtasks: old(self)@.microtasks.push(
                    plain_job(id.0, QueuedJobKind::PromiseReaction, callback, args@),
                ),
                metrics: EventLoopMetrics {
                    promise_reactions_scheduled: sat_inc(old(self)@.metrics.promise_reactions_scheduled),
                    ..old(self)@.metrics
                },
                ..old(self)@
            }),
    {
        let id = self.take_task_id();
        let job = QueuedJob {
            id,
            kind: QueuedJobKind::PromiseReaction,
            callback,
            args,
            timer_id: None,
            repeat_delay_ms: None,
            frame_time_ms: None,
        };
        let ghost jv = job@;
        self.microtasks.push_back(job);
        self.metrics.promise_reactions_scheduled = self.metrics.promise_reactions_scheduled.saturating_add(1);
        assert(self@.microtasks =~= old(self)@.microtasks.push(jv));
        id
    }

    /// Returns true when work is pending: queued jobs, timers or frames.
    pub fn has_pending_work(&self) -> (r: bool)
        ensures
            r == (self@.microtasks.len() > 0 || self@.tasks.len() > 0 || self@.timers.len() > 0
                || self@.rafs.len() > 0),
    {
        self.microtasks.len() > 0 || self.tasks.len() > 0 || self.sched.timers.len() > 0
            || self.sched.rafs.len() > 0
    }
}


/// A new timer's entry: due after the delay (capped at one day), saturating.
pub open spec fn new_timer<C>(id: u64, time: u64, delay_ms: u64, repeat: bool, callback: C, args: Seq<C>) -> TimerView<C> {
    let delay = if delay_ms < max_timer_delay() {
        delay_ms
    } else {
        max_timer_delay()
    };
    TimerView {
        timer_id: id,
        due_ms: if time + delay > u64::MAX {
            u64::MAX
        } else {
            (time + delay) as u64
        },
        delay_ms: delay,
        repeat,
        callback,
        args,
    }
}

impl<C> JsEventLoop<C> {
    fn set_timer(&mut self, callback: C, delay_ms: u64, args: Vec<C>, repeat: bool) -> (id: TimerId)
        ensures
            id.0 == old(self)@.next_timer,
            timers_wf(final(self)@.timers),
            id_map(final(self)@.timers) == id_map(old(self)@.timers).insert(
                id.0,
                new_timer(id.0, old(self)@.time, delay_ms, repeat, callback, args@),
            ),
            final(self)@ == (LoopModel {
                next_timer: sat_inc(old(self)@.next_timer),
                cancelled: old(self)@.cancelled.remove(id.0),
                timers: final(self)@.timers,
                metrics: EventLoopMetrics {
                    timers_scheduled: sat_inc(old(self)@.metrics.timers_scheduled),
                    ..old(self)@.metrics
                },
                ..old(self)@
            }),
    {
        let id = TimerId(self.next_timer_id);
        self.next_timer_id = self.next_timer_id.saturating_add(1);
        self.sched.set_cancelled(id.0, false);
        let delay = if delay_ms < 86400000 { delay_ms } else { 86400000 };
        let entry = TimerEntry {
            timer_id: id,
            due_ms: self.virtual_time_ms.saturating_add(delay),
            delay_ms: delay,
            repeat,
            callback,
            args,
        };
        self.sched.insert_timer(entry);
        self.metrics.timers_scheduled = self.metrics.timers_scheduled.saturating_add(1);
        id
    }

    /// Registers a timeout.
    pub fn set_timeout(&mut self, callback: C, delay_ms: u64, args: Vec<C>) -> (id: TimerId)
        ensures
            id.0 == old(self)@.next_timer,
            timers_wf(final(self)@.timers),
            id_map(final(self)@.timers) == id_map(old(self)@.timers).insert(
                id.0,
                new_timer(id.0, old(self)@.time, delay_ms, false, callback, args@),
            ),
            final(self)@ == (LoopModel {
                next_timer: sat_inc(old(self)@.next_timer),
                cancelled: old(self)@.cancelled.remove(id.0),
                timers: final(self)@.timers,
                metrics: EventLoopMetrics {
                    timers_scheduled: sat_inc(old(self)@.metrics.timers_scheduled),
                    ..old(self)@.metrics
                },
                ..old(self)@
            }),
    {
        self.set_timer(callback, delay_ms, args, false)
    }

    /// Registers an interval.
    pub fn set_interval(&mut self, callback: C, delay_ms: u64, args: Vec<C>) -> (id: TimerId)
        ensures
            id.0 == old(self)@.next_timer,
            timers_wf(final(self)@.timers),
            id_map(final(self)@.timers) == id_map(old(self)@.timers).insert(
                id.0,
                new_timer(id.0, old(self)@.time, delay_ms, true, callback, args@),
            ),
            final(self)@ == (LoopModel {
                next_timer: sat_inc(old(self)@.next_timer),
                cancelled: old(self)@.cancelled.remove(id.0),
                timers: final(self)@.timers,
                metrics: EventLoopMetrics {
                    timers_scheduled: sat_inc(old(self)@.metrics.timers_scheduled),
                    ..old(self)@.metrics
                },
                ..old(self)@
            }),
    {
        self.set_timer(callback, delay_ms, args, true)
    }

    /// Clears a timeout or interval; true when it was pending. The id stays
    /// cleared until a new timer takes it.
    pub fn clear_timer(&mut self, id: TimerId) -> (r: bool)
        ensures
            r == id_map(old(self)@.timers).dom().contains(id.0),
            timers_wf(final(self)@.timers),
            id_map(final(self)@.timers) == id_map(old(self)@.timers).remove(id.0),
            final(self)@ == (LoopModel {
                cancelled: old(self)@.cancelled.insert(id.0),
                timers: final(self)@.timers,
                metrics: EventLoopMetrics {
                    timers_cancelled: if r {
                        sat_inc(old(self)@.metrics.timers_cancelled)
                    } else {
                        old(self)@.metrics.timers_cancelled
                    },
                    ..old(self)@.metrics
                },
                ..old(self)@
            }),
    {
        let existed = self.sched.remove_timer(id.0);
        self.sched.set_cancelled(id.0, true);
        if existed {
            self.metrics.timers_cancelled = self.metrics.timers_cancelled.saturating_add(1);
        }
        existed
    }

    /// Registers an animation-frame callback.
    pub fn request_animation_frame(&mut self, callback: C) -> (id: RafId)
        ensures
            id.0 == old(self)@.next_raf,
            ids_sorted(final(self)@.rafs),
            id_map(final(self)@.rafs) == id_map(old(self)@.rafs).insert(id.0, callback),
            final(self)@ == (LoopModel {
                next_raf: sat_inc(old(self)@.next_raf),
                rafs: final(self)@.rafs,
                metrics: EventLoopMetrics {
                    animation_frames_scheduled: sat_inc(old(self)@.metrics.animation_frames_scheduled),
                    ..old(self)@.metrics
                },
                ..old(self)@
            }),
    {
        let id = RafId(self.next_raf_id);
        self.next_raf_id = self.next_raf_id.saturating_add(1);
        self.sched.insert_raf(id.0, callback);
        self.metrics.animation_frames_scheduled = self.metrics.animation_frames_scheduled.saturating_add(1);
        id
    }

    /// Cancels an animation-frame callback; true when it was pending.
    pub fn cancel_animation_frame(&mut self, id: RafId) -> (r: bool)
        ensures
            r == id_map(old(self)@.rafs).dom().contains(id.0),
            ids_sorted(final(self)@.rafs),
            id_map(final(self)@.rafs) == id_map(old(self)@.rafs).remove(id.0),
            final(self)@ == (LoopModel { rafs: final(self)@.rafs, ..old(self)@ }),
    {
        self.sched.remove_raf(id.0)
    }

    /// Moves pending animation-frame callbacks, in id order, to the task queue.
    pub fn tick_animation_frame(&mut self)
        ensures
            final(self)@ == tick_model(old(self)@),
    {
        let ghost m0 = self@;
        let mut rafs = self.sched.take_rafs();
        let ghost rs = rafs@;
        let ghost next0 = self.next_task_id;
        let time = self.virtual_time_ms;
        let mut k: usize = 0;
        let n = rafs.len();
        assert(rs.take(0) =~= Seq::<(u64, C)>::empty());
        assert(job_views(self.tasks@) =~= m0.tasks + raf_jobs(rs.take(0), time, next0));
        while k < n
            invariant
                n == rs.len(),
                k <= n,
                rafs@ == rs.skip(k as int),
                time == self.virtual_time_ms,
                time == m0.time,
                self.next_task_id == sat_add_n(next0, k as nat),
                job_views(self.tasks@) == m0.tasks + raf_jobs(rs.take(k as int), time, next0),
                self.sched.raf_seq().len() == 0,
                self.sched.timer_seq() == m0.timers,
                self.sched.cancelled_set() == m0.cancelled,
                job_views(self.microtasks@) == m0.microtasks,
                self.metrics == m0.metrics,
                self.next_timer_id == m0.next_timer,
                self.next_raf_id == m0.next_raf,
            decreases n - k,
        {
            let (_, callback) = rafs.remove(0);
            assert(rs.skip(k as int)[0] == rs[k as int]);
            assert(rs.skip(k as int).skip(1) =~= rs.skip(k + 1));
            let id = TaskId(self.next_task_id);
            self.next_task_id = self.next_task_id.saturating_add(1);
            let job = QueuedJob {
                id,
                kind: QueuedJobKind::AnimationFrame,
                callback,
                args: Vec::new(),
                timer_id: None,
                repeat_delay_ms: None,
                frame_time_ms: Some(time),
            };
            let ghost before = job_views(self.tasks@);
            let ghost jv = job@;
            self.tasks.push_back(job);
            proof {
                assert(jv.args =~= Seq::<C>::empty());
                assert(raf_jobs(rs.take(k + 1), time, next0) =~= raf_jobs(rs.take(k as int), time, next0).push(jv));
                assert(job_views(self.tasks@) =~= before.push(jv));
            }
            k = k + 1;
        }
        assert(rs.take(n as int) =~= rs);
        assert(self@.rafs =~= Seq::<(u64, C)>::empty());
    }

    /// Moves due timers to the task queue (in timer-id order), dropping cleared ones.
    fn promote_due_timers(&mut self)
        ensures
            final(self)@ == promote_model(old(self)@),
            timers_wf(final(self)@.timers),
    {
        let ghost m0 = self@;
        let mut timers = self.sched.take_timers();
        let ghost ts = m0.timers;
        let time = self.virtual_time_ms;
        let ghost next0 = self.next_task_id;
        let ghost cancelled = m0.cancelled;
        let mut kept: Vec<(u64, TimerEntry<C>)> = Vec::new();
        let mut k: usize = 0;
        let n = timers.len();
        assert(ts.take(0) =~= Seq::<(u64, TimerView<C>)>::empty());
        assert(job_views(self.tasks@) =~= m0.tasks + due_jobs(ts.take(0), time, cancelled, next0));
        while k < n
            invariant
                n == ts.len(),
                k <= n,
                timers_wf(ts),
                timer_views(timers@) == ts.skip(k as int),
                timer_views(kept@) == pending_timers(ts.take(k as int), time),
                forall|a: int, b: int| 0 <= a < kept@.len() && 0 <= b < timers@.len() ==> #[trigger] kept@[a].0
                    < #[trigger] timers@[b].0,
                timers_wf(timer_views(kept@)),
                time == self.virtual_time_ms,
                time == m0.time,
                cancelled == self.sched.cancelled_set(),
                self.next_task_id == sat_add_n(next0, due_jobs(ts.take(k as int), time, cancelled, next0).len()),
                job_views(self.tasks@) == m0.tasks + due_jobs(ts.take(k as int), time, cancelled, next0),
                self.sched.timer_seq().len() == 0,
                self.sched.raf_seq() == m0.rafs,
                job_views(self.microtasks@) == m0.microtasks,
                self.metrics == m0.metrics,
                self.next_timer_id == m0.next_timer,
                self.next_raf_id == m0.next_raf,
                next0 == m0.next_task,
            decreases n - k,
        {
            let ghost tv = timers@;
            proof {
                lemma_timer_views(tv);
                assert(tv.len() == n - k);
            }
            let (key, t) = timers.remove(0);
            proof {
                lemma_timer_views(timers@);
                assert(timers@ == tv.remove(0));
                assert forall|j: int| 0 <= j < timers@.len() implies #[trigger] timer_views(timers@)[j] == ts.skip(
                    k + 1,
                )[j] by {
                    assert(timers@[j] == tv[j + 1]);
                    assert(timer_views(tv)[j + 1] == ts.skip(k as int)[j + 1]);
                }
                assert(ts.skip(k as int)[0] == ts[k as int]);
                assert(timer_views(tv)[0] == ts[k as int]);
                assert(timer_views(timers@) =~= ts.skip(k + 1));
                assert(ts.take(k + 1).drop_last() =~= ts.take(k as int));
                assert(ts.take(k + 1).last() == ts[k as int]);
            }
            let ghost prev = due_jobs(ts.take(k as int), time, cancelled, next0);
            if t.due_ms <= time {
                if !self.sched.is_cancelled(t.timer_id.0) {
                    let id = TaskId(self.next_task_id);
                    self.next_task_id = self.next_task_id.saturating_add(1);
                    let repeat = t.repeat;
                    let job = QueuedJob {
                        id,
                        kind: if repeat {
                            QueuedJobKind::Interval
                        } else {
                            QueuedJobKind::Timer
                        },
                        callback: t.callback,
                        args: t.args,
                        timer_id: Some(t.timer_id),
                        repeat_delay_ms: if repeat {
                            Some(t.delay_ms)
                        } else {
                            None
                        },
                        frame_time_ms: None,
                    };
                    let ghost jv = job@;
                    let ghost before = job_views(self.tasks@);
                    self.tasks.push_back(job);
                    proof {
                        assert(jv == timer_job(ts[k as int].1, sat_add_n(next0, prev.len())));
                        assert(job_views(self.tasks@) =~= before.push(jv));
                    }
                }
                assert(timer_views(kept@) == pending_timers(ts.take(k + 1), time));
            } else {
                let ghost kv = kept@;
                kept.push((key, t));
                proof {
                    assert(timer_views(kept@) =~= timer_views(kv).push(ts[k as int]));
                    assert forall|a: int, b: int| 0 <= a < kept@.len() && 0 <= b < timers@.len() implies #[trigger] kept@[a].0
                        < #[trigger] timers@[b].0 by {
                        assert(timers@[b] == tv[b + 1]);
                        assert(ts[k as int].0 < ts[k + 1 + b].0);
                        if a < kv.len() {
                            assert(kv[a].0 < tv[b + 1].0);
                        }
                    }
                    assert(timers_wf(timer_views(kept@))) by {
                        assert forall|a: int, b: int| 0 <= a < b < timer_views(kept@).len() implies #[trigger] timer_views(
                            kept@,
                        )[a].0 < #[trigger] timer_views(kept@)[b].0 by {
                            if b == kv.len() {
                                assert(kv[a].0 < tv[0].0);
                            } else {
                                assert(timer_views(kv)[a].0 < timer_views(kv)[b].0);
                            }
                        }
                        assert forall|i: int| 0 <= i < timer_views(kept@).len() implies (#[trigger] timer_views(
                            kept@,
                        )[i]).1.timer_id == timer_views(kept@)[i].0 by {
                            if i < kv.len() {
                                assert(timer_views(kv)[i].1.timer_id == timer_views(kv)[i].0);
                            }
                        }
                    }
                }
            }
            k = k + 1;
        }
        assert(ts.take(n as int) =~= ts);
        self.sched.put_timers(kept);
    }
}


/// View of an optional job.
pub open spec fn opt_job<C>(j: Option<QueuedJob<C>>) -> Option<JobView<C>> {
    match j {
        Some(x) => Some(x@),
        None => None,
    }
}

/// The timer an interval job is scheduled again as.
pub open spec fn rescheduled_timer<C>(time: u64, job: JobView<C>) -> TimerView<C> {
    let delay = job.repeat_delay_ms->Some_0;
    TimerView {
        timer_id: job.timer_id->Some_0,
        due_ms: if time + delay > u64::MAX {
            u64::MAX
        } else {
            (time + delay) as u64
        },
        delay_ms: delay,
        repeat: true,
        callback: job.callback,
        args: job.args,
    }
}

impl<C> JsEventLoop<C> {
    /// Advances virtual time (saturating) and promotes the timers then due.
    pub fn advance_time(&mut self, delta_ms: u64)
        ensures
            final(self)@ == promote_model(
                LoopModel { time: if old(self)@.time + delta_ms > u64::MAX {
                    u64::MAX
                } else {
                    (old(self)@.time + delta_ms) as u64
                }, ..old(self)@ },
            ),
    {
        self.virtual_time_ms = self.virtual_time_ms.saturating_add(delta_ms);
        self.promote_due_timers();
    }

    fn pop_front_job(q: &mut VecDeque<QueuedJob<C>>) -> (r: Option<QueuedJob<C>>)
        ensures
            match r {
                Some(j) => job_views(old(q)@).len() > 0 && j@ == job_views(old(q)@)[0] && job_views(final(q)@)
                    == job_views(old(q)@).drop_first(),
                None => job_views(old(q)@).len() == 0 && final(q)@ == old(q)@,
            },
    {
        let r = q.pop_front();
        proof {
            if r is Some {
                assert forall|i: int| 0 <= i < q@.len() implies #[trigger] job_views(q@)[i] == job_views(
                    old(q)@,
                ).drop_first()[i] by {
                    assert(q@[i] == old(q)@[i + 1]);
                }
                assert(job_views(q@) =~= job_views(old(q)@).drop_first());
            }
        }
        r
    }

    /// Pops the next ready job. Microtasks always run before tasks.
    pub fn pop_ready_job(&mut self, config: &EventLoopConfig) -> (r: Option<QueuedJob<C>>)
        ensures
            final(self)@ == pop_model(old(self)@, config.auto_advance_time).0,
            opt_job(r) == pop_model(old(self)@, config.auto_advance_time).1,
    {
        self.promote_due_timers();
        let ghost p = self@;
        match Self::pop_front_job(&mut self.microtasks) {
            Some(job) => {
                assert(self@ =~= pop_queues(p).0);
                return Some(job);
            },
            None => {},
        }
        match Self::pop_front_job(&mut self.tasks) {
            Some(job) => {
                assert(self@ =~= pop_queues(p).0);
                return Some(job);
            },
            None => {},
        }
        if self.sched.rafs.len() > 0 {
            self.tick_animation_frame();
            let ghost t = self@;
            assert(t.tasks.len() > 0);
            match Self::pop_front_job(&mut self.tasks) {
                Some(job) => {
                    assert(self@ =~= pop_queues(t).0);
                    return Some(job);
                },
                None => {},
            }
        }
        if config.auto_advance_time && self.sched.timers.len() > 0 {
            let next_due = self.sched.earliest_due();
            if next_due > self.virtual_time_ms {
                self.virtual_time_ms = next_due;
            }
            self.promote_due_timers();
            let ghost q = self@;
            match Self::pop_front_job(&mut self.microtasks) {
                Some(job) => {
                    assert(self@ =~= pop_queues(q).0);
                    return Some(job);
                },
                None => {},
            }
            let r = Self::pop_front_job(&mut self.tasks);
            assert(self@ =~= pop_queues(q).0);
            return r;
        }
        None
    }

    /// Records a job the host has run; an interval whose timer was not
    /// cleared is scheduled again, due after its delay.
    pub fn complete_job(&mut self, job: QueuedJob<C>)
        ensures
            reschedules(old(self)@, job@) ==> {
                &&& timers_wf(final(self)@.timers)
                &&& id_map(final(self)@.timers) == id_map(old(self)@.timers).insert(
                    job@.timer_id->Some_0,
                    rescheduled_timer(old(self)@.time, job@),
                )
                &&& final(self)@ == (LoopModel {
                    timers: final(self)@.timers,
                    metrics: EventLoopMetrics {
                        intervals_rescheduled: sat_inc(old(self)@.metrics.intervals_rescheduled),
                        ..completed_metrics(old(self)@.metrics, job@.kind)
                    },
                    ..old(self)@
                })
            },
            !reschedules(old(self)@, job@) ==> final(self)@ == (LoopModel {
                metrics: completed_metrics(old(self)@.metrics, job@.kind),
                ..old(self)@
            }),
    {
        match job.kind {
            QueuedJobKind::Task => {
                self.metrics.tasks_executed = self.metrics.tasks_executed.saturating_add(1);
            },
            QueuedJobKind::Microtask => {
                self.metrics.microtasks_executed = self.metrics.microtasks_executed.saturating_add(1);
            },
            QueuedJobKind::PromiseReaction => {
                self.metrics.promise_reactions_executed = self.metrics.promise_reactions_executed.saturating_add(1);
            },
            QueuedJobKind::Timer => {
                self.metrics.timers_fired = self.metrics.timers_fired.saturating_add(1);
            },
            QueuedJobKind::Interval => {
                self.metrics.timers_fired = self.metrics.timers_fired.saturating_add(1);
                match (job.timer_id, job.repeat_delay_ms) {
                    (Some(timer_id), Some(delay)) => {
                        if !self.sched.is_cancelled(timer_id.0) {
                            let entry = TimerEntry {
                                timer_id,
                                due_ms: self.virtual_time_ms.saturating_add(delay),
                                delay_ms: delay,
                                repeat: true,
                                callback: job.callback,
                                args: job.args,
                            };
                            self.sched.insert_timer(entry);
                            self.metrics.intervals_rescheduled = self.metrics.intervals_rescheduled.saturating_add(1);
                        }
                    },
                    _ => {},
                }
            },
            QueuedJobKind::AnimationFrame => {
                self.metrics.animation_frames_fired = self.metrics.animation_frames_fired.saturating_add(1);
            },
        }
    }
}

impl<C> Default for JsEventLoop<C> {
    fn default() -> (l: Self)
        ensures
            l@ == (LoopModel::<C> {
                time: 0,
                next_task: 1,
                next_timer: 1,
                next_raf: 1,
                tasks: Seq::empty(),
                microtasks: Seq::empty(),
                timers: Seq::empty(),
                cancelled: Set::empty(),
                rafs: Seq::empty(),
                metrics: zero_loop_metrics(),
            }),
    {
        Self::new()
    }
}


// ---------------------------------------------------------------------------
// Laws
// ---------------------------------------------------------------------------

/// Microtasks run first: whenever one is queued, the next job popped is the
/// oldest microtask.
pub proof fn lemma_microtasks_first<C>(m: LoopModel<C>, auto_advance: bool)
    requires
        m.microtasks.len() > 0,
    ensures
        pop_model(m, auto_advance).1 == Some(m.microtasks[0]),
        pop_model(m, auto_advance).0.microtasks == m.microtasks.drop_first(),
{
}

/// Tasks run in queue order: with no microtask queued, the next job popped is
/// the oldest task.
pub proof fn lemma_tasks_in_order<C>(m: LoopModel<C>, auto_advance: bool)
    requires
        m.microtasks.len() == 0,
        m.tasks.len() > 0,
    ensures
        pop_model(m, auto_advance).1 == Some(m.tasks[0]),
{
    assert(promote_model(m).tasks[0] == m.tasks[0]);
}

/// A cleared timer never fires: promoting timers creates no job for it.
pub proof fn lemma_cleared_timer_never_fires<C>(ts: Seq<(u64, TimerView<C>)>, time: u64, cancelled: Set<u64>, next: u64, id: u64)
    requires
        cancelled.contains(id),
    ensures
        forall|i: int| 0 <= i < due_jobs(ts, time, cancelled, next).len() ==> #[trigger] due_jobs(
            ts,
            time,
            cancelled,
            next,
        )[i].timer_id != Some(id),
    decreases ts.len(),
{
    if ts.len() > 0 {
        lemma_cleared_timer_never_fires(ts.drop_last(), time, cancelled, next, id);
    }
}

/// Promoted jobs are numbered consecutively from the task counter (saturating).
pub proof fn lemma_due_job_ids<C>(ts: Seq<(u64, TimerView<C>)>, time: u64, cancelled: Set<u64>, next: u64)
    ensures
        forall|i: int| 0 <= i < due_jobs(ts, time, cancelled, next).len() ==> #[trigger] due_jobs(
            ts,
            time,
            cancelled,
            next,
        )[i].id == sat_add_n(next, i as nat),
        due_jobs(ts, time, cancelled, next).len() <= ts.len(),
    decreases ts.len(),
{
    if ts.len() > 0 {
        lemma_due_job_ids(ts.drop_last(), time, cancelled, next);
    }
}

/// Virtual time never goes backwards when a job is popped.
pub proof fn lemma_time_monotone<C>(m: LoopModel<C>, auto_advance: bool)
    ensures
        pop_model(m, auto_advance).0.time >= m.time,
{
}

/// No timer in a promoted table is due any more.
pub proof fn lemma_pending_not_due<C>(ts: Seq<(u64, TimerView<C>)>, time: u64)
    ensures
        forall|i: int| 0 <= i < pending_timers(ts, time).len() ==> #[trigger] pending_timers(ts, time)[i].1.due_ms > time,
    decreases ts.len(),
{
    if ts.len() > 0 {
        lemma_pending_not_due(ts.drop_last(), time);
        let p = pending_timers(ts.drop_last(), time);
        if ts.last().1.due_ms > time {
            assert forall|i: int| 0 <= i < p.len() + 1 implies #[trigger] p.push(ts.last())[i].1.due_ms > time by {
                if i < p.len() {
                    assert(p.push(ts.last())[i] == p[i]);
                }
            }
        }
    }
}


// ---------------------------------------------------------------------------
// Draining
// ---------------------------------------------------------------------------

/// Progress of one drain of the loop.
#[derive(Debug, Clone, Copy, PartialEq, Eq, Structural)]
pub struct DrainProgress {
    /// Jobs the host has run in this drain.
    pub jobs_executed: u64,
    /// Times a popped job moved virtual time forward.
    pub timer_advances: u64,
}

/// What the host does next while draining.
#[derive(Debug)]
pub enum DrainStep<C> {
    /// Run this job, then hand it to `complete_job` and `DrainProgress::job_finished`.
    Run(QueuedJob<C>),
    /// The drain is over; `hit_limit` says whether a limit stopped it.
    Done { hit_limit: bool },
}

impl DrainProgress {
    /// A fresh drain.
    pub fn new() -> (p: Self)
        ensures
            p.jobs_executed == 0 && p.timer_advances == 0,
    {
        DrainProgress { jobs_executed: 0, timer_advances: 0 }
    }

    /// Counts a job the host has run.
    pub fn job_finished(&mut self)
        ensures
            final(self).jobs_executed == sat_inc(old(self).jobs_executed),
            final(self).timer_advances == old(self).timer_advances,
    {
        self.jobs_executed = self.jobs_executed.saturating_add(1);
    }
}

impl<C> JsEventLoop<C> {
    /// One decision of a drain: stop when idle or at the job limit; else pop
    /// the next ready job, counting a time advance (and stopping, dropping the
    /// job, past the advance limit).
    pub fn drain_step(&mut self, config: &EventLoopConfig, progress: &mut DrainProgress) -> (step: DrainStep<C>)
        ensures
            ({
                let m = old(self)@;
                let pending = m.microtasks.len() > 0 || m.tasks.len() > 0 || m.timers.len() > 0 || m.rafs.len() > 0;
                let popped = pop_model(m, config.auto_advance_time);
                let advanced = popped.0.time > m.time;
                let advances = if advanced {
                    sat_inc(old(progress).timer_advances)
                } else {
                    old(progress).timer_advances
                };
                if !pending {
                    step matches DrainStep::Done { hit_limit } && !hit_limit && final(self)@ == m && *final(progress)
                        == *old(progress)
                } else if old(progress).jobs_executed >= config.max_jobs_per_run {
                    step matches DrainStep::Done { hit_limit } && hit_limit && final(self)@ == m && *final(progress)
                        == *old(progress)
                } else {
                    &&& final(self)@ == popped.0
                    &&& final(progress).jobs_executed == old(progress).jobs_executed
                    &&& final(progress).timer_advances == (if popped.1 is Some {
                        advances
                    } else {
                        old(progress).timer_advances
                    })
                    &&& match popped.1 {
                        None => step matches DrainStep::Done { hit_limit } && !hit_limit,
                        Some(j) => if advanced && advances > config.max_timer_advances {
                            step matches DrainStep::Done { hit_limit } && hit_limit
                        } else {
                            step matches DrainStep::Run(job) && job@ == j
                        },
                    }
                }
            }),
    {
        if !self.has_pending_work() {
            return DrainStep::Done { hit_limit: false };
        }
        if progress.jobs_executed >= config.max_jobs_per_run {
            return DrainStep::Done { hit_limit: true };
        }
        let before = self.virtual_time_ms;
        let job = match self.pop_ready_job(config) {
            Some(job) => job,
            None => {
                return DrainStep::Done { hit_limit: false };
            },
        };
        if self.virtual_time_ms > before {
            progress.timer_advances = progress.timer_advances.saturating_add(1);
            if progress.timer_advances > config.max_timer_advances {
                return DrainStep::Done { hit_limit: true };
            }
        }
        DrainStep::Run(job)
    }

    /// Summary of a drain.
    pub fn run_summary(&self, progress: &DrainProgress, hit_limit: bool, console: Vec<String>) -> (s: EventLoopRunSummary)
        ensures
            s.jobs_executed == progress.jobs_executed,
            s.hit_limit == hit_limit,
            s.virtual_time_ms == self@.time,
            s.event_loop == self@.metrics,
            s.console@ == console@,
    {
        EventLoopRunSummary {
            jobs_executed: progress.jobs_executed,
            hit_limit,
            virtual_time_ms: self.virtual_time_ms,
            event_loop: self.metrics,
            console,
        }
    }
}

/// The jobs that `n` successive pops hand out.
pub open spec fn drain_jobs<C>(m: LoopModel<C>, auto_advance: bool, n: nat) -> Seq<Option<JobView<C>>>
    decreases n,
{
    if n == 0 {
        Seq::empty()
    } else {
        seq![pop_model(m, auto_advance).1] + drain_jobs(pop_model(m, auto_advance).0, auto_advance, (n - 1) as nat)
    }
}

/// Queued microtasks come out in the order they were queued, before any
/// task, timer or animation-frame job: the first `n` pops hand out the
/// first `n` microtasks.
pub proof fn lemma_microtasks_drain_in_order<C>(m: LoopModel<C>, auto_advance: bool, n: nat)
    requires
        n <= m.microtasks.len(),
    ensures
        drain_jobs(m, auto_advance, n) == m.microtasks.take(n as int).map_values(|j: JobView<C>| Some(j)),
    decreases n,
{
    if n > 0 {
        lemma_microtasks_first(m, auto_advance);
        let m1 = pop_model(m, auto_advance).0;
        lemma_microtasks_drain_in_order(m1, auto_advance, (n - 1) as nat);
        assert(m1.microtasks.take(n - 1) =~= m.microtasks.take(n as int).drop_first());
        assert(drain_jobs(m, auto_advance, n) =~= m.microtasks.take(n as int).map_values(|j: JobView<C>| Some(j)));
    } else {
        assert(drain_jobs(m, auto_advance, n) =~= m.microtasks.take(n as int).map_values(|j: JobView<C>| Some(j)));
    }
}

/// A microtask queued behind `k` others is the job handed out by the
/// `k + 1`-th pop, whatever tasks wait.
pub proof fn lemma_queued_microtask_runs_after_earlier_ones<C>(m: LoopModel<C>, auto_advance: bool, job: JobView<C>)
    ensures
        drain_jobs(
            LoopModel { microtasks: m.microtasks.push(job), ..m },
            auto_advance,
            (m.microtasks.len() + 1) as nat,
        ).last() == Some(job),
{
    let m2 = LoopModel { microtasks: m.microtasks.push(job), ..m };
    lemma_microtasks_drain_in_order(m2, auto_advance, (m.microtasks.len() + 1) as nat);
    assert(m2.microtasks.take(m.microtasks.len() + 1int) =~= m2.microtasks);
}

} // verus!
