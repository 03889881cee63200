use wmacro::playback::PlaybackTimeline;

/// A fixed reading of the monotonic clock, in nanoseconds.
const NOW: u64 = 100_000_000_000_000;
const MS: u64 = 1_000_000;

/// The deadline the player waits for before a recorded gap of `delay_us`
/// at normal speed: re-anchor when lagging, extend the schedule, then
/// anchor the schedule to the timeline's origin.
fn scheduled_deadline(tl: &mut PlaybackTimeline, now: u64, delay_us: u64) -> u64 {
    let behind = tl.schedule_us * 1000;
    tl.reanchor_if_lagging(now, behind);
    let schedule = tl.add_scheduled(delay_us);
    let start = tl.ensure_started(now);
    start + schedule * 1000
}

/// The deadline of a manual delay: the full delay from now.
fn exact_deadline(tl: &mut PlaybackTimeline, now: u64, delay_us: u64) -> u64 {
    tl.add_scheduled(delay_us);
    tl.ensure_started(now);
    now + delay_us * 1000
}

/// A timeline anchored far in the past, as if a long scan had run.
fn lagging_timeline(secs: u64) -> PlaybackTimeline {
    let mut tl = PlaybackTimeline::new();
    tl.ensure_started(NOW);
    tl.start = Some(NOW - secs * 1000 * MS);
    tl
}

#[test]
fn past_deadline_does_not_wait() {
    let mut tl = lagging_timeline(60);
    let deadline = scheduled_deadline(&mut tl, NOW, 0);
    assert!(deadline.saturating_sub(NOW) < 100 * MS);
}

#[test]
fn lagging_timeline_waits_gap_in_full() {
    let mut tl = lagging_timeline(60);
    let deadline = scheduled_deadline(&mut tl, NOW, 20_000);
    assert!(deadline - NOW >= 16 * MS);
}

#[test]
fn small_lag_stays_absorbed() {
    let mut tl = PlaybackTimeline::new();
    tl.start = Some(NOW - 5 * MS);
    let deadline = scheduled_deadline(&mut tl, NOW, 20_000);
    assert!(deadline - NOW < 20 * MS);
    assert_eq!(deadline - NOW, 15 * MS);
}

#[test]
fn fresh_timeline_waits_scheduled_gap() {
    let mut tl = PlaybackTimeline::new();
    let deadline = scheduled_deadline(&mut tl, NOW, 20_000);
    assert!(deadline - NOW >= 16 * MS);
}

#[test]
fn consecutive_gaps_share_one_timeline() {
    let mut tl = PlaybackTimeline::new();
    let first = scheduled_deadline(&mut tl, NOW, 20_000);
    let second = scheduled_deadline(&mut tl, first, 20_000);
    assert!(second - NOW >= 32 * MS);
    assert_eq!(second - NOW, 40 * MS);
}

#[test]
fn exact_delay_waits_in_full_when_schedule_is_due() {
    let mut tl = PlaybackTimeline::new();
    tl.shift(60_000 * MS);
    let deadline = exact_deadline(&mut tl, NOW, 20_000);
    assert!(deadline - NOW >= 16 * MS);
    assert_eq!(tl.schedule_us, 20_000);
}
