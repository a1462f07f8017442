use syljs::event_loop::{
    DrainProgress, DrainStep, EventLoopConfig, JsEventLoop, QueuedJobKind, TimerId,
};

#[test]
fn microtasks_run_before_tasks() {
    let mut l: JsEventLoop<&str> = JsEventLoop::new();
    let t = l.queue_task("task", vec![]);
    let m = l.queue_microtask("micro", vec!["arg"]);
    assert_eq!(t.0, 1);
    assert_eq!(m.0, 2);
    let config = EventLoopConfig::default();
    let first = l.pop_ready_job(&config).unwrap();
    assert_eq!(first.callback, "micro");
    assert_eq!(first.args, vec!["arg"]);
    assert_eq!(first.kind, QueuedJobKind::Microtask);
    let second = l.pop_ready_job(&config).unwrap();
    assert_eq!(second.callback, "task");
    assert!(l.pop_ready_job(&config).is_none());
    assert!(!l.has_pending_work());
}

#[test]
fn timers_fire_in_due_order_and_cleared_ones_never() {
    let mut l: JsEventLoop<u32> = JsEventLoop::new();
    let a = l.set_timeout(1, 50, vec![]);
    let b = l.set_timeout(2, 10, vec![]);
    let c = l.set_timeout(3, 20, vec![]);
    assert!(l.clear_timer(c));
    assert!(!l.clear_timer(TimerId(99)));
    l.advance_time(5);
    let config = EventLoopConfig { auto_advance_time: false, ..EventLoopConfig::default() };
    assert!(l.pop_ready_job(&config).is_none());
    l.advance_time(100);
    let j1 = l.pop_ready_job(&config).unwrap();
    let j2 = l.pop_ready_job(&config).unwrap();
    assert_eq!(j1.timer_id, Some(a));
    assert_eq!(j2.timer_id, Some(b));
    assert!(l.pop_ready_job(&config).is_none());
    assert_eq!(l.metrics().timers_cancelled, 1);
    assert_eq!(l.virtual_time_ms(), 105);
}

#[test]
fn auto_advance_jumps_to_next_timer() {
    let mut l: JsEventLoop<u32> = JsEventLoop::new();
    l.set_timeout(7, 1000, vec![]);
    let job = l.pop_ready_job(&EventLoopConfig::default()).unwrap();
    assert_eq!(job.kind, QueuedJobKind::Timer);
    assert_eq!(l.virtual_time_ms(), 1000);
}

#[test]
fn timer_delay_is_capped_at_one_day() {
    let mut l: JsEventLoop<u32> = JsEventLoop::new();
    l.set_timeout(1, u64::MAX, vec![]);
    l.pop_ready_job(&EventLoopConfig::default()).unwrap();
    assert_eq!(l.virtual_time_ms(), 86_400_000);
}

#[test]
fn intervals_reschedule_until_cleared() {
    let mut l: JsEventLoop<u32> = JsEventLoop::new();
    let id = l.set_interval(9, 100, vec![1]);
    let config = EventLoopConfig::default();
    let job = l.pop_ready_job(&config).unwrap();
    assert_eq!(job.kind, QueuedJobKind::Interval);
    assert_eq!(job.repeat_delay_ms, Some(100));
    l.complete_job(job);
    assert_eq!(l.metrics().intervals_rescheduled, 1);
    let job = l.pop_ready_job(&config).unwrap();
    assert_eq!(l.virtual_time_ms(), 200);
    l.clear_timer(id);
    l.complete_job(job);
    assert_eq!(l.metrics().intervals_rescheduled, 1);
    assert_eq!(l.metrics().timers_fired, 2);
    assert!(!l.has_pending_work());
}

#[test]
fn animation_frames_carry_the_frame_time() {
    let mut l: JsEventLoop<&str> = JsEventLoop::new();
    l.advance_time(16);
    let a = l.request_animation_frame("a");
    let b = l.request_animation_frame("b");
    assert!(l.cancel_animation_frame(a));
    assert!(!l.cancel_animation_frame(a));
    let job = l.pop_ready_job(&EventLoopConfig::default()).unwrap();
    assert_eq!(job.callback, "b");
    assert_eq!(job.kind, QueuedJobKind::AnimationFrame);
    assert_eq!(job.frame_time_ms, Some(16));
    assert_eq!(b.0, 2);
    l.complete_job(job);
    assert_eq!(l.metrics().animation_frames_fired, 1);
}

#[test]
fn drain_runs_everything_and_reports() {
    let mut l: JsEventLoop<u32> = JsEventLoop::new();
    l.queue_task(1, vec![]);
    l.queue_promise_reaction(2, vec![]);
    l.set_timeout(3, 30, vec![]);
    let config = EventLoopConfig::default();
    let mut progress = DrainProgress::new();
    let mut order = Vec::new();
    let hit = loop {
        match l.drain_step(&config, &mut progress) {
            DrainStep::Run(job) => {
                order.push(job.callback);
                l.complete_job(job);
                progress.job_finished();
            }
            DrainStep::Done { hit_limit } => break hit_limit,
        }
    };
    assert!(!hit);
    assert_eq!(order, vec![2, 1, 3]);
    let summary = l.run_summary(&progress, hit, vec![]);
    assert_eq!(summary.jobs_executed, 3);
    assert_eq!(summary.virtual_time_ms, 30);
    assert_eq!(summary.event_loop.promise_reactions_executed, 1);
    assert_eq!(progress.timer_advances, 1);
}

#[test]
fn drain_stops_at_job_limit() {
    let mut l: JsEventLoop<u32> = JsEventLoop::new();
    l.queue_task(1, vec![]);
    l.queue_task(2, vec![]);
    let config = EventLoopConfig { max_jobs_per_run: 1, ..EventLoopConfig::default() };
    let mut progress = DrainProgress::new();
    match l.drain_step(&config, &mut progress) {
        DrainStep::Run(job) => {
            l.complete_job(job);
            progress.job_finished();
        }
        DrainStep::Done { .. } => panic!("expected a job"),
    }
    assert!(matches!(l.drain_step(&config, &mut progress), DrainStep::Done { hit_limit: true }));
}
