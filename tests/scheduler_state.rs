use kapt::chunk::{FfmpegRecording, KaptureError};
use kapt::state::{finish_chunk, next_slot, FfmpegActiveRecording, KaptState};

fn slot(tag: &str) -> FfmpegActiveRecording {
    FfmpegActiveRecording { video_path: format!("{}.mp4", tag), audio_path: format!("{}.wav", tag) }
}

fn ended(early_end: u128) -> FfmpegRecording {
    FfmpegRecording {
        video_path: "v".to_string(),
        video_start_time: 0,
        audio_path: "a".to_string(),
        audio_start_time: 0,
        early_end_time: early_end,
    }
}

#[test]
fn new_state_is_idle() {
    let s = KaptState::new();
    assert!(!s.is_active());
    assert!(!s.is_recording());
    assert_eq!(s.recordings.len(), 0);
    assert_eq!(s.audio_source, 0);
}

#[test]
fn activate_starts_a_session_with_a_fresh_id() {
    let mut s = KaptState::new();
    let id = s.activate().unwrap();
    assert_eq!(id.chars().count(), 21);
    assert!(id.chars().all(|c| c.is_ascii_alphanumeric() || c == '_' || c == '-'));
    assert!(s.is_active());
    assert!(s.is_current_session(&id));
    assert!(!s.is_current_session(&"stale".to_string()));
}

#[test]
fn activate_while_active_is_a_no_op() {
    let mut s = KaptState::new();
    let id = s.activate().unwrap();
    s.recordings.push(ended(5));
    s.occupy(0, slot("zero"));
    assert!(s.activate().is_none());
    assert!(s.is_current_session(&id));
    assert_eq!(s.recordings.len(), 1);
    assert!(s.is_recording());
}

#[test]
fn deactivate_while_inactive_is_a_no_op() {
    let mut s = KaptState::new();
    s.recordings.push(ended(5));
    assert!(s.deactivate().is_none());
    assert_eq!(s.recordings.len(), 1);
    assert!(!s.is_active());
}

#[test]
fn deactivate_stops_slots_and_releases_buffer() {
    let mut s = KaptState::new();
    let id = s.activate().unwrap();
    s.occupy(0, slot("zero"));
    s.occupy(1, slot("one"));
    s.recordings.push(ended(5));
    s.recordings.push(ended(6));
    let d = s.deactivate().unwrap();
    assert_eq!(d.stopped.len(), 2);
    assert_eq!(d.stopped[0].video_path, "zero.mp4");
    assert_eq!(d.released.len(), 2);
    assert!(!s.is_active());
    assert!(!s.is_recording());
    assert_eq!(s.recordings.len(), 0);
    assert!(!s.is_current_session(&id));
}

#[test]
fn slots_alternate() {
    assert_eq!(next_slot(0), 1);
    assert_eq!(next_slot(1), 0);
}

#[test]
fn take_slot_empties_only_that_slot() {
    let mut s = KaptState::new();
    s.occupy(1, slot("one"));
    s.occupy(0, slot("zero"));
    let taken = s.take_slot(1).unwrap();
    assert_eq!(taken.audio_path, "one.wav");
    assert!(s.take_slot(1).is_none());
    assert!(s.is_recording());
    assert_eq!(s.take_all_slots().len(), 1);
    assert!(!s.is_recording());
}

#[test]
fn finished_chunk_keeps_paths_and_times() {
    let c = finish_chunk(slot("c"), Some(1000), Some(1200), 31000).unwrap();
    assert_eq!(c.video_path, "c.mp4");
    assert_eq!(c.audio_path, "c.wav");
    assert_eq!(c.video_start_time, 1000);
    assert_eq!(c.audio_start_time, 1200);
    assert_eq!(c.early_end_time, 31000);
}

#[test]
fn missing_start_time_discards_chunk() {
    assert_eq!(finish_chunk(slot("c"), None, Some(1), 2).err(), Some(KaptureError::MissingStartTime));
    assert_eq!(finish_chunk(slot("c"), Some(1), None, 2).err(), Some(KaptureError::MissingStartTime));
}

#[test]
fn state_eviction_uses_seconds_budget() {
    let mut s = KaptState::new();
    s.max_seconds_cached = 5;
    s.recordings.push(ended(1000));
    s.recordings.push(ended(6000));
    let gone = s.evict_expired(7000);
    assert_eq!(gone.len(), 1);
    assert_eq!(gone[0].early_end_time, 1000);
    assert_eq!(s.recordings.len(), 1);
}

#[test]
fn restart_session_clears_buffer_under_new_id() {
    let mut s = KaptState::new();
    let first = s.activate().unwrap();
    s.recordings.push(ended(1));
    let (released, second) = s.restart_session();
    assert_eq!(released.len(), 1);
    assert_eq!(s.recordings.len(), 0);
    assert!(s.is_current_session(&second));
    assert_ne!(first, second);
}

#[test]
fn tick_of_live_session_moves_to_other_slot() {
    let mut s = KaptState::new();
    let id = s.activate().unwrap();
    assert_eq!(s.on_tick(&id, 0), Some(1));
    assert_eq!(s.on_tick(&id, 1), Some(0));
    assert_eq!(s.on_tick(&"someone else".to_string(), 0), None);
    s.end_session();
    assert_eq!(s.on_tick(&id, 0), None);
}

#[test]
fn failed_kapture_keeps_buffer() {
    let mut s = KaptState::new();
    s.activate().unwrap();
    s.recordings.push(ended(3));
    let (released, id) = s.complete_kapture(false);
    assert!(released.is_empty());
    assert_eq!(s.recordings.len(), 1);
    assert!(s.is_current_session(&id));
}

#[test]
fn successful_kapture_releases_buffer() {
    let mut s = KaptState::new();
    s.activate().unwrap();
    s.recordings.push(ended(3));
    let (released, id) = s.complete_kapture(true);
    assert_eq!(released.len(), 1);
    assert_eq!(s.recordings.len(), 0);
    assert!(s.is_current_session(&id));
}
