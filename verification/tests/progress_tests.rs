//! The throttler and the progress hooks of the context.

use dua::models::ProgressSnapshot;
use dua::services::traverse::legacy::TraversalContext;
use dua::services::traverse::progress::{
    compute_throughput, ProgressThrottler, DEFAULT_BYTE_TRIGGER, MIN_BYTE_TRIGGER,
    MIN_INTERVAL_NS,
};
use dua::{ScanOptions, SizeBasis};

const MS: u64 = 1_000_000;

#[test]
fn first_call_arms_and_emits_nothing() {
    let mut throttler = ProgressThrottler::new();
    assert!(throttler.consider(0, 10_000_000, 5, 0).is_none());
    assert!(throttler.consider(5_000 * MS, 10_000_000, 5, 0).is_some());
}

#[test]
fn emits_when_the_interval_has_passed() {
    let mut throttler = ProgressThrottler::with_interval_and_trigger(200 * MS, u64::MAX);
    assert!(throttler.consider(1_000 * MS, 0, 0, 0).is_none());
    assert!(throttler.consider(1_199 * MS, 1 << 40, 1, 199).is_none());
    let snapshot = throttler
        .consider(1_200 * MS, 1 << 40, 2, 200)
        .expect("interval passed");
    assert_eq!(snapshot.timestamp_ms, 200);
    assert_eq!(snapshot.processed_entries, 2);
    assert_eq!(snapshot.processed_bytes, 1 << 40);
    assert_eq!(snapshot.estimated_completion_percent, None);
    assert_eq!(
        snapshot.recent_throughput_bytes_per_sec,
        Some(((1u128 << 40) * 1_000_000_000 / (200 * MS as u128)) as u64)
    );
    assert!(throttler.consider(1_399 * MS, 1 << 41, 3, 399).is_none());
    assert!(throttler.consider(1_400 * MS, 1 << 41, 3, 400).is_some());
}

#[test]
fn byte_trigger_needs_half_the_interval() {
    let mut throttler = ProgressThrottler::with_interval_and_trigger(1_000 * MS, 1_000_000);
    assert!(throttler.consider(0, 0, 0, 0).is_none());
    assert!(throttler.consider(499 * MS, 5_000_000, 1, 0).is_none());
    assert!(throttler.consider(500 * MS, 999_999, 1, 0).is_none());
    let snapshot = throttler.consider(500 * MS, 1_000_000, 1, 500).expect("bytes and half time");
    assert_eq!(snapshot.recent_throughput_bytes_per_sec, Some(2_000_000));
    assert!(throttler.consider(999 * MS, 1_999_999, 2, 0).is_none());
    assert!(throttler.consider(1_000 * MS, 2_000_000, 2, 0).is_some());
}

#[test]
fn disabled_byte_trigger_waits_for_the_interval() {
    let mut throttler = ProgressThrottler::with_interval_and_trigger(1_000 * MS, u64::MAX);
    assert!(throttler.consider(0, 0, 0, 0).is_none());
    assert!(throttler.consider(999 * MS, u64::MAX, 1, 0).is_none());
    assert!(throttler.consider(1_000 * MS, u64::MAX, 1, 0).is_some());
}

#[test]
fn parameters_respect_their_floors() {
    let mut throttler = ProgressThrottler::with_interval_and_trigger(1, 1);
    assert!(throttler.consider(0, 0, 0, 0).is_none());
    assert!(throttler.consider(MIN_INTERVAL_NS / 2 - 1, MIN_BYTE_TRIGGER, 1, 0).is_none());
    assert!(throttler.consider(MIN_INTERVAL_NS / 2, MIN_BYTE_TRIGGER - 1, 1, 0).is_none());
    assert!(throttler.consider(MIN_INTERVAL_NS / 2, MIN_BYTE_TRIGGER, 1, 0).is_some());
    assert!(throttler.consider(MIN_INTERVAL_NS / 2 + MIN_INTERVAL_NS - 1, 0, 1, 0).is_none());
    assert!(throttler.consider(MIN_INTERVAL_NS / 2 + MIN_INTERVAL_NS, 0, 1, 0).is_some());
    assert_eq!(MIN_INTERVAL_NS, 100 * MS);
    assert_eq!(MIN_BYTE_TRIGGER, 64 * 1024);
    assert_eq!(DEFAULT_BYTE_TRIGGER, 1_000_000);
}

#[test]
fn set_interval_keeps_the_emission_state() {
    let mut throttler = ProgressThrottler::with_interval(2_000 * MS);
    assert!(throttler.consider(0, 0, 0, 0).is_none());
    throttler.set_interval(300 * MS, u64::MAX);
    assert!(throttler.consider(299 * MS, 0, 1, 0).is_none());
    assert!(throttler.consider(300 * MS, 0, 1, 0).is_some());
    throttler.set_interval(0, 0);
    assert!(throttler.consider(399 * MS, 0, 1, 0).is_none());
    assert!(throttler.consider(400 * MS, 0, 1, 0).is_some());
}

#[test]
fn a_clock_that_goes_back_emits_nothing() {
    let mut throttler = ProgressThrottler::with_interval_and_trigger(200 * MS, MIN_BYTE_TRIGGER);
    assert!(throttler.consider(10_000 * MS, 500, 0, 0).is_none());
    assert!(throttler.consider(1, 1 << 30, 1, 0).is_none());
    assert!(throttler.consider(10_200 * MS, 0, 1, 0).is_some());
}

#[test]
fn force_emit_always_marks_completion() {
    let mut throttler = ProgressThrottler::default();
    let snapshot = throttler.force_emit(7 * MS, 123, 4, 7).expect("always");
    assert_eq!(
        (
            snapshot.timestamp_ms,
            snapshot.processed_entries,
            snapshot.processed_bytes,
            snapshot.estimated_completion_percent,
            snapshot.recent_throughput_bytes_per_sec
        ),
        (7, 4, 123, Some(100), None)
    );
    let snapshot = throttler.force_emit(1_007 * MS, 1_123, 5, 1_007).expect("always");
    assert_eq!(snapshot.recent_throughput_bytes_per_sec, Some(1_000));
    assert_eq!(snapshot.estimated_completion_percent, Some(100));
    let snapshot = throttler.force_emit(1_007 * MS, 2_000, 5, 1_007).expect("always");
    assert_eq!(snapshot.recent_throughput_bytes_per_sec, None);
    assert_eq!(throttler.estimate_throughput(2_007 * MS, 5_000), Some(3_000));
}

#[test]
fn throughput_is_bytes_per_second() {
    assert_eq!(compute_throughput(0, 0), None);
    assert_eq!(compute_throughput(100, 0), None);
    assert_eq!(compute_throughput(0, 5), Some(0));
    assert_eq!(compute_throughput(1_000, 1_000_000_000), Some(1_000));
    assert_eq!(compute_throughput(1, 3), Some(333_333_333));
    assert_eq!(compute_throughput(1_500, 2_000_000_000), Some(750));
    assert_eq!(compute_throughput(u64::MAX, 1_000_000_000), Some(u64::MAX));
    assert_eq!(compute_throughput(u64::MAX, 999_999_999), Some(u64::MAX));
    assert_eq!(compute_throughput(u64::MAX, u64::MAX), Some(1_000_000_000));
    assert_eq!(compute_throughput(7, u64::MAX), Some(0));
}

fn context(interval_ms: u64, trigger: u64) -> TraversalContext<dua::services::sink::memory::MemorySink> {
    let opts = ScanOptions {
        basis: SizeBasis::Logical,
        progress_interval_ns: interval_ms * MS,
        progress_byte_trigger: trigger,
        ..ScanOptions::default()
    };
    TraversalContext::new(opts, None)
}

fn trace(context: TraversalContext<dua::services::sink::memory::MemorySink>) -> Vec<ProgressSnapshot> {
    let (_, progress, _) = context.into_parts().expect("parts");
    progress
}

#[test]
fn cadence_follows_the_interval_on_a_steady_clock() {
    let mut context = context(200, u64::MAX);
    let mut now = 0u64;
    for _ in 0..64 {
        now += 50 * MS;
        context.register_file_progress_at(256 * 1024, now);
    }
    context.register_directory_progress_at(now + 10 * MS);
    context.finalize_progress_at(now + 20 * MS);
    let progress = trace(context);

    assert!(progress.len() >= 2, "at least one snapshot before the last");
    let times: Vec<u64> = progress.iter().map(|s| s.timestamp_ms).collect();
    assert_eq!(times[0], 250);
    for window in progress[..progress.len() - 1].windows(2) {
        assert_eq!(window[1].timestamp_ms - window[0].timestamp_ms, 200);
        assert!(window[1].processed_entries > window[0].processed_entries);
        assert!(window[1].processed_bytes >= window[0].processed_bytes);
    }
    for window in progress.windows(2) {
        assert!(window[1].timestamp_ms - window[0].timestamp_ms <= 200);
        assert!(window[1].processed_entries >= window[0].processed_entries);
        assert!(window[1].processed_bytes >= window[0].processed_bytes);
    }
    let last = progress.last().unwrap();
    assert_eq!(last.estimated_completion_percent, Some(100));
    assert_eq!(last.processed_entries, 65);
    assert_eq!(last.processed_bytes, 64 * 256 * 1024);
    assert!(last.processed_bytes > 10 * 1024 * 1024);
    assert_eq!(last.timestamp_ms, 3_220);
    assert_eq!(
        progress.iter().filter(|s| s.estimated_completion_percent.is_some()).count(),
        1
    );
    let first = &progress[0];
    assert_eq!(first.processed_entries, 5);
    assert_eq!(first.processed_bytes, 5 * 256 * 1024);
    assert_eq!(
        first.recent_throughput_bytes_per_sec,
        Some(4 * 256 * 1024 * 1_000_000_000 / (200 * MS))
    );
}

#[test]
fn byte_trigger_speeds_the_cadence_up() {
    let mut context = context(1_000, 1_000_000);
    let mut now = 0u64;
    for _ in 0..40 {
        now += 100 * MS;
        context.register_file_progress_at(400_000, now);
    }
    context.finalize_progress_at(now);
    let progress = trace(context);
    let times: Vec<u64> = progress.iter().map(|s| s.timestamp_ms).collect();
    assert_eq!(times, vec![600, 1100, 1600, 2100, 2600, 3100, 3600, 4000]);
}

#[test]
fn finalizing_an_idle_scan_gives_one_complete_snapshot() {
    let mut context = context(200, u64::MAX);
    context.finalize_progress();
    let progress = trace(context);
    assert_eq!(progress.len(), 1);
    assert_eq!(progress[0].estimated_completion_percent, Some(100));
    assert_eq!(progress[0].processed_entries, 0);
    assert_eq!(progress[0].processed_bytes, 0);
    assert_eq!(progress[0].recent_throughput_bytes_per_sec, None);
}

#[test]
fn update_progress_interval_reaches_the_throttler() {
    let mut context = context(5_000, u64::MAX);
    context.register_directory_progress_at(0);
    context.update_progress_interval(100 * MS);
    context.register_directory_progress_at(99 * MS);
    context.register_directory_progress_at(100 * MS);
    let progress = trace(context);
    assert_eq!(progress.len(), 1);
    assert_eq!(progress[0].timestamp_ms, 100);
    assert_eq!(progress[0].processed_entries, 3);
}

#[test]
fn hooks_read_the_clock_themselves() {
    let mut context = context(100, u64::MAX);
    context.register_file_progress(10);
    context.register_directory_progress();
    context.finalize_progress();
    let elapsed = context.elapsed_ns();
    let progress = trace(context);
    let last = progress.last().unwrap();
    assert_eq!(last.processed_entries, 2);
    assert_eq!(last.processed_bytes, 10);
    assert!(last.timestamp_ms <= elapsed / MS);
}
