use kapt::buffer::RollingBuffer;
use kapt::chunk::{FfmpegRecording, KaptureError};
use kapt::kapture::{anchor_index, last_started_index, video_chunks, VideoChunk};

fn chunk(video_start: u128, audio_start: u128, early_end: u128) -> FfmpegRecording {
    FfmpegRecording {
        video_path: format!("/tmp/v{}.mp4", audio_start),
        video_start_time: video_start,
        audio_path: format!("/tmp/a{}.wav", audio_start),
        audio_start_time: audio_start,
        early_end_time: early_end,
    }
}

fn vc(i: usize, vo: u128, ao: u128, len: u128) -> VideoChunk {
    VideoChunk { chunk_index: i, video_offset: vo, audio_offset: ao, video_time: len, audio_time: len }
}

fn total_video(v: &[VideoChunk]) -> u128 {
    v.iter().map(|c| c.video_time).sum()
}

fn grid_buffer() -> RollingBuffer {
    let mut b = RollingBuffer::new();
    b.push(chunk(45000, 45000, 75000));
    b.push(chunk(0, 0, 30000));
    b.push(chunk(30000, 30000, 60000));
    b.push(chunk(15000, 15000, 45000));
    b
}

#[test]
fn main_chunk_boundary_anchors_at_main_chunk() {
    let chunks = vec![
        chunk(0, 0, 15000),
        chunk(7500, 7500, 22500),
        chunk(15000, 15000, 30000),
        chunk(22500, 22500, 37500),
    ];
    let i = last_started_index(&chunks, 22500).unwrap();
    assert_eq!(i, 3);
    // T = 22500 does not pass chunk 2's guaranteed end, so the walk anchors there
    let j = anchor_index(&chunks, i, 22500);
    assert_eq!(j, 2);
    let plan = video_chunks(&chunks, j, 22500, 15000);
    assert_eq!(plan, vec![vc(2, 0, 0, 15000)]);
    assert_eq!(total_video(&plan), 15000);
}

#[test]
fn main_chunk_boundary_through_buffer() {
    let mut b = RollingBuffer::new();
    b.push(chunk(22500, 22500, 37500));
    b.push(chunk(0, 0, 15000));
    b.push(chunk(15000, 15000, 30000));
    b.push(chunk(7500, 7500, 22500));
    let plan = b.plan_kapture(22500, 15000).unwrap();
    assert_eq!(plan, vec![vc(2, 0, 0, 15000)]);
    assert_eq!(total_video(&plan), 15000);
}

#[test]
fn insufficient_history_gives_shorter_clip() {
    let mut b = RollingBuffer::new();
    b.push(chunk(0, 0, 5000));
    let plan = b.plan_kapture(5000, 15000).unwrap();
    assert_eq!(plan, vec![vc(0, 0, 0, 5000)]);
}

#[test]
fn discrepancy_compensation_aligns_streams() {
    let mut b = RollingBuffer::new();
    b.push(chunk(1000, 1200, 16000));
    let plan = b.plan_kapture(16000, 15000).unwrap();
    assert_eq!(plan.len(), 1);
    assert_eq!(plan[0].video_offset, 200);
    assert_eq!(plan[0].audio_offset, 0);
    assert_eq!(1000 + plan[0].video_offset, 1200 + plan[0].audio_offset);
    assert_eq!(plan[0].video_time, 14800);
    assert_eq!(plan[0].audio_time, 14800);
}

#[test]
fn audio_early_chunk_shifts_audio_offset() {
    let chunks = vec![chunk(1300, 1000, 20000)];
    let plan = video_chunks(&chunks, 0, 20000, 30000);
    assert_eq!(plan, vec![vc(0, 0, 300, 18700)]);
}

#[test]
fn duration_is_exact_with_enough_history() {
    let mut b = grid_buffer();
    let plan = b.plan_kapture(70000, 20000).unwrap();
    assert_eq!(plan, vec![vc(2, 20000, 20000, 10000), vc(3, 15000, 15000, 10000)]);
    assert_eq!(total_video(&plan), 20000);
}

#[test]
fn duration_is_exact_across_secondary_chunks() {
    let mut b = grid_buffer();
    let plan = b.plan_kapture(70000, 50000).unwrap();
    assert_eq!(
        plan,
        vec![
            vc(0, 20000, 20000, 9999),
            vc(1, 14999, 14999, 1),
            vc(2, 0, 0, 30000),
            vc(3, 15000, 15000, 10000),
        ]
    );
    assert_eq!(total_video(&plan), 50000);
}

#[test]
fn zero_duration_gives_empty_clip() {
    let mut b = grid_buffer();
    let plan = b.plan_kapture(70000, 0).unwrap();
    assert_eq!(total_video(&plan), 0);
    assert_eq!(plan.len(), 1);
}

#[test]
fn timestamp_before_first_chunk_is_out_of_range() {
    let mut b = grid_buffer();
    let mut late = RollingBuffer::new();
    late.push(chunk(5000, 5000, 20000));
    assert_eq!(late.plan_kapture(4999, 1000), Err(KaptureError::OutOfRange));
    assert!(b.plan_kapture(0, 1000).is_ok());
}

#[test]
fn empty_buffer_is_out_of_range() {
    let mut b = RollingBuffer::new();
    assert_eq!(b.plan_kapture(1000, 1000), Err(KaptureError::OutOfRange));
}

#[test]
fn anchor_moves_to_secondary_past_main_end() {
    let mut b = grid_buffer();
    // chunk 3 starts at 45000; T = 61000 lies past chunk 2's end (60000)
    let plan = b.plan_kapture(61000, 1000).unwrap();
    assert_eq!(plan, vec![vc(3, 15000, 15000, 1000)]);
}
