use kapt::buffer::RollingBuffer;
use kapt::chunk::FfmpegRecording;

fn timed(audio_start: u128, early_end: u128) -> FfmpegRecording {
    FfmpegRecording {
        video_path: format!("v{}", audio_start),
        video_start_time: audio_start,
        audio_path: format!("a{}", audio_start),
        audio_start_time: audio_start,
        early_end_time: early_end,
    }
}

#[test]
fn sort_and_clamp_orders_and_bounds_end_times() {
    let mut b = RollingBuffer::new();
    for (a, e) in [(30000, 61000), (0, 31000), (45000, 76000), (15000, 46000), (60000, 90000)] {
        b.push(timed(a, e));
    }
    b.sort_and_clamp();
    let starts: Vec<u128> = b.chunks.iter().map(|c| c.audio_start_time).collect();
    assert_eq!(starts, vec![0, 15000, 30000, 45000, 60000]);
    let ends: Vec<u128> = b.chunks.iter().map(|c| c.early_end_time).collect();
    assert_eq!(ends, vec![29999, 44999, 59999, 76000, 90000]);
    for i in 0..b.chunks.len() - 2 {
        assert!(b.chunks[i].early_end_time <= b.chunks[i + 2].audio_start_time);
    }
    assert_eq!(b.chunks[0].video_path, "v0");
}

#[test]
fn clamp_keeps_end_times_that_already_fit() {
    let mut b = RollingBuffer::new();
    b.push(timed(0, 100));
    b.push(timed(50, 150));
    b.push(timed(200, 300));
    b.sort_and_clamp();
    let ends: Vec<u128> = b.chunks.iter().map(|c| c.early_end_time).collect();
    assert_eq!(ends, vec![100, 150, 300]);
}

#[test]
fn clamp_against_zero_start_stays_at_zero() {
    let mut b = RollingBuffer::new();
    b.push(timed(0, 10));
    b.push(timed(0, 10));
    b.push(timed(0, 10));
    b.sort_and_clamp();
    assert_eq!(b.chunks[0].early_end_time, 0);
    assert_eq!(b.chunks[2].early_end_time, 10);
}

#[test]
fn sort_is_stable_for_equal_starts() {
    let mut b = RollingBuffer::new();
    let mut first = timed(5, 10);
    first.video_path = "first".to_string();
    let mut second = timed(5, 10);
    second.video_path = "second".to_string();
    b.push(timed(9, 10));
    b.push(first);
    b.push(second);
    b.sort_by_audio_start();
    assert_eq!(b.chunks[0].video_path, "first");
    assert_eq!(b.chunks[1].video_path, "second");
    assert_eq!(b.chunks[2].audio_start_time, 9);
}

#[test]
fn evict_removes_exactly_the_over_budget_prefix() {
    let mut b = RollingBuffer::new();
    for e in [1000, 2000, 9000, 3000] {
        b.push(timed(0, e));
    }
    let evicted = b.evict_expired(10000, 7500);
    let gone: Vec<u128> = evicted.iter().map(|c| c.early_end_time).collect();
    assert_eq!(gone, vec![1000, 2000]);
    let kept: Vec<u128> = b.chunks.iter().map(|c| c.early_end_time).collect();
    assert_eq!(kept, vec![9000, 3000]);
}

#[test]
fn evict_leaves_only_fresh_chunks_when_ordered() {
    let mut b = RollingBuffer::new();
    for e in [1000, 2000, 3000, 9000] {
        b.push(timed(0, e));
    }
    assert_eq!(b.evict_expired(10000, 7500).len(), 2);
    assert_eq!(b.len(), 2);
    assert!(b.chunks.iter().all(|c| 10000 - c.early_end_time <= 7500));
}

#[test]
fn evict_keeps_chunks_ending_after_now() {
    let mut b = RollingBuffer::new();
    b.push(timed(0, 20000));
    assert!(b.evict_expired(10000, 0).is_empty());
    assert_eq!(b.len(), 1);
}

#[test]
fn evict_at_exact_budget_keeps_chunk() {
    let mut b = RollingBuffer::new();
    b.push(timed(0, 2500));
    assert!(b.evict_expired(10000, 7500).is_empty());
    assert_eq!(b.evict_expired(10001, 7500).len(), 1);
}

#[test]
fn clear_hands_back_all_chunks() {
    let mut b = RollingBuffer::new();
    b.push(timed(1, 2));
    b.push(timed(3, 4));
    let out = b.clear();
    assert_eq!(out.len(), 2);
    assert_eq!(b.len(), 0);
}
