use vstd::prelude::*;

use crate::buffer::{over_budget, RollingBuffer};
use crate::chunk::{FfmpegRecording, KaptureError};

verus! {

/// One of the symbols that nanoid's URL-safe alphabet is made of.
pub open spec fn is_safe_symbol(c: char) -> bool {
    c == '_' || c == '-' || ('0' <= c && c <= '9') || ('a' <= c && c <= 'z') || ('A' <= c && c <= 'Z')
}

/// The files that an in-progress capture writes to; the processes that write
/// them belong to whoever drives the capture.
pub struct FfmpegActiveRecording {
    pub video_path: String,
    pub audio_path: String,
}

/// Everything a deactivation hands back for release: the captures to stop,
/// and the buffered chunks whose files are to be deleted.
pub struct Deactivation {
    pub stopped: Vec<FfmpegActiveRecording>,
    pub released: Vec<FfmpegRecording>,
}

/// The state of the capture core: two alternating capture slots, the current
/// session, the rolling buffer and its configuration.
pub struct KaptState {
    pub active_recordings: [Option<FfmpegActiveRecording>; 2],
    /// The live session; a scheduled continuation that carries another id does nothing.
    pub recording_session_id: Option<String>,
    pub recordings: RollingBuffer,
    /// The currently selected audio source.
    pub audio_source: usize,
    /// How long (in seconds) a chunk stays in the buffer after its guaranteed end.
    pub max_seconds_cached: u32,
    /// Where finished kaptures are written.
    pub video_folder: Option<String>,
}

/// Relies on nanoid::format, called as nanoid's `nanoid!()` calls it (the
/// default random source, the SAFE alphabet, 21 symbols): it returns a string
/// of 21 symbols of that alphabet. It panics only where the operating system
/// gives no randomness.
#[verifier::external_body]
fn new_session_id() -> (r: String)
    ensures
        r@.len() == 21,
        forall|i: int| 0 <= i < r@.len() ==> is_safe_symbol(#[trigger] r@[i]),
{
    nanoid::format(nanoid::rngs::default, &nanoid::alphabet::SAFE, 21)
}

/// The other capture slot.
pub fn next_slot(index: usize) -> (r: usize)
    requires
        index < 2,
    ensures
        r == 1 - index,
{
    1 - index
}

/// Turns a stopped capture into a buffered chunk, given the start instants
/// its two streams reported (if any) and the instant at which both were
/// confirmed stopped. A stream that never reported its start makes the chunk
/// unusable.
pub fn finish_chunk(
    slot: FfmpegActiveRecording,
    video_start_time: Option<u128>,
    audio_start_time: Option<u128>,
    early_end_time: u128,
) -> (r: Result<FfmpegRecording, KaptureError>)
    ensures
        r is Err <==> (video_start_time is None || audio_start_time is None),
        r is Err ==> r == Err::<FfmpegRecording, KaptureError>(KaptureError::MissingStartTime),
        r is Ok ==> r->Ok_0 == (FfmpegRecording {
            video_path: slot.video_path,
            video_start_time: video_start_time->Some_0,
            audio_path: slot.audio_path,
            audio_start_time: audio_start_time->Some_0,
            early_end_time,
        }),
{
    match (video_start_time, audio_start_time) {
        (Some(v), Some(a)) => Ok(
            FfmpegRecording {
                video_path: slot.video_path,
                video_start_time: v,
                audio_path: slot.audio_path,
                audio_start_time: a,
                early_end_time,
            },
        ),
        _ => Err(KaptureError::MissingStartTime),
    }
}

impl KaptState {
    pub open spec fn active(&self) -> bool {
        self.recording_session_id is Some
    }

    pub fn new() -> (r: KaptState)
        ensures
            r.active_recordings[0] is None,
            r.active_recordings[1] is None,
            r.recording_session_id is None,
            r.recordings@ == Seq::<FfmpegRecording>::empty(),
            r.audio_source == 0,
            r.max_seconds_cached == 0,
            r.video_folder is None,
    {
        KaptState {
            active_recordings: [None, None],
            recording_session_id: None,
            recordings: RollingBuffer::new(),
            audio_source: 0,
            max_seconds_cached: 0,
            video_folder: None,
        }
    }

    /// A capture is in progress in either slot.
    pub fn is_recording(&self) -> (r: bool)
        ensures
            r == (self.active_recordings[0] is Some || self.active_recordings[1] is Some),
    {
        self.active_recordings[0].is_some() || self.active_recordings[1].is_some()
    }

    /// A capture session is live.
    pub fn is_active(&self) -> (r: bool)
        ensures
            r == self.active(),
    {
        self.recording_session_id.is_some()
    }

    /// `id` names the live session.
    pub fn is_current_session(&self, id: &String) -> (r: bool)
        ensures
            r == (self.recording_session_id is Some && self.recording_session_id->Some_0@ == id@),
    {
        match &self.recording_session_id {
            Some(current) => String::eq(current, id),
            None => false,
        }
    }

    /// Starts a session under a fresh id, which is returned; a no-op that
    /// returns `None` when a session is already live. Capture then starts in
    /// slot 0 and alternates slots every chunk interval while the id stays live.
    pub fn activate(&mut self) -> (r: Option<String>)
        ensures
            old(self).active() ==> r is None && *final(self) == *old(self),
            !old(self).active() ==> r is Some && final(self).recording_session_id == r && r->Some_0@.len()
                == 21 && final(self).recordings == old(self).recordings
                && final(self).active_recordings == old(self).active_recordings
                && final(self).audio_source == old(self).audio_source
                && final(self).max_seconds_cached == old(self).max_seconds_cached
                && final(self).video_folder == old(self).video_folder,
    {
        if self.is_active() {
            return None;
        }
        let id = new_session_id();
        self.recording_session_id = Some(id.clone());
        Some(id)
    }

    /// Ends the live session: hands back both captures to stop and every
    /// buffered chunk to release. A no-op that returns `None` when no session
    /// is live.
    pub fn deactivate(&mut self) -> (r: Option<Deactivation>)
        ensures
            !old(self).active() ==> r is None && *final(self) == *old(self),
            old(self).active() ==> r is Some && final(self).recording_session_id is None
                && final(self).active_recordings[0] is None && final(self).active_recordings[1] is None
                && final(self).recordings@ == Seq::<FfmpegRecording>::empty()
                && r->Some_0.released@ == old(self).recordings@
                && final(self).audio_source == old(self).audio_source
                && final(self).max_seconds_cached == old(self).max_seconds_cached
                && final(self).video_folder == old(self).video_folder,
    {
        if !self.is_active() {
            return None;
        }
        self.recording_session_id = None;
        let stopped = self.take_all_slots();
        let released = self.recordings.clear();
        Some(Deactivation { stopped, released })
    }

    /// Empties both slots and hands back the captures that occupied them, slot 0 first.
    pub fn take_all_slots(&mut self) -> (r: Vec<FfmpegActiveRecording>)
        ensures
            final(self).active_recordings[0] is None,
            final(self).active_recordings[1] is None,
            r@.len() == (if old(self).active_recordings[0] is Some { 1int } else { 0 }) + (if old(
                self,
            ).active_recordings[1] is Some {
                1int
            } else {
                0
            }),
            final(self).recording_session_id == old(self).recording_session_id,
            final(self).recordings == old(self).recordings,
            final(self).audio_source == old(self).audio_source,
            final(self).max_seconds_cached == old(self).max_seconds_cached,
            final(self).video_folder == old(self).video_folder,
    {
        let mut out: Vec<FfmpegActiveRecording> = Vec::new();
        if let Some(s) = self.take_slot(0) {
            out.push(s);
        }
        if let Some(s) = self.take_slot(1) {
            out.push(s);
        }
        out
    }

    /// Empties slot `index` and hands back the capture that occupied it.
    pub fn take_slot(&mut self, index: usize) -> (r: Option<FfmpegActiveRecording>)
        requires
            index < 2,
        ensures
            r == old(self).active_recordings[index as int],
            final(self).active_recordings[index as int] is None,
            final(self).active_recordings[1 - index] == old(self).active_recordings[1 - index],
            final(self).recording_session_id == old(self).recording_session_id,
            final(self).recordings == old(self).recordings,
            final(self).audio_source == old(self).audio_source,
            final(self).max_seconds_cached == old(self).max_seconds_cached,
            final(self).video_folder == old(self).video_folder,
    {
        let mut taken: Option<FfmpegActiveRecording> = None;
        core::mem::swap(&mut taken, &mut self.active_recordings[index]);
        taken
    }

    /// Records that a new capture occupies the empty slot `index`.
    pub fn occupy(&mut self, index: usize, slot: FfmpegActiveRecording)
        requires
            index < 2,
            old(self).active_recordings[index as int] is None,
        ensures
            final(self).active_recordings[index as int] == Some(slot),
            final(self).active_recordings[1 - index] == old(self).active_recordings[1 - index],
            final(self).recording_session_id == old(self).recording_session_id,
            final(self).recordings == old(self).recordings,
            final(self).audio_source == old(self).audio_source,
            final(self).max_seconds_cached == old(self).max_seconds_cached,
            final(self).video_folder == old(self).video_folder,
    {
        self.active_recordings[index] = Some(slot);
    }

    /// Drops the oldest chunks that are past the cache budget at `now` (ms),
    /// and hands them back for release.
    pub fn evict_expired(&mut self, now: u128) -> (r: Vec<FfmpegRecording>)
        ensures
            r@.len() <= old(self).recordings@.len(),
            r@ == old(self).recordings@.take(r@.len() as int),
            final(self).recordings@ == old(self).recordings@.skip(r@.len() as int),
            forall|i: int|
                0 <= i < r@.len() ==> over_budget(
                    #[trigger] old(self).recordings@[i],
                    now,
                    old(self).max_seconds_cached * 1000,
                ),
            r@.len() < old(self).recordings@.len() ==> !over_budget(
                old(self).recordings@[r@.len() as int],
                now,
                old(self).max_seconds_cached * 1000,
            ),
            final(self).active_recordings == old(self).active_recordings,
            final(self).recording_session_id == old(self).recording_session_id,
            final(self).audio_source == old(self).audio_source,
            final(self).max_seconds_cached == old(self).max_seconds_cached,
            final(self).video_folder == old(self).video_folder,
    {
        let budget: u128 = self.max_seconds_cached as u128 * 1000;
        self.recordings.evict_expired(now, budget)
    }

    /// What a scheduled continuation of session `id`, whose last capture went
    /// to slot `index`, does when it wakes: while `id` is still the live
    /// session, start the next capture in the other slot; otherwise nothing.
    pub fn on_tick(&self, id: &String, index: usize) -> (r: Option<usize>)
        requires
            index < 2,
        ensures
            r == (if self.recording_session_id is Some && self.recording_session_id->Some_0@ == id@ {
                Some((1 - index) as usize)
            } else {
                None::<usize>
            }),
    {
        if self.is_current_session(id) {
            Some(next_slot(index))
        } else {
            None
        }
    }

    /// Ends a kapture and resumes capture under a fresh session, whose id is
    /// returned. After a successful kapture the buffer is emptied and its
    /// chunks handed back for release; after a failed one it stays as it was,
    /// so that the kapture can be retried.
    pub fn complete_kapture(&mut self, succeeded: bool) -> (r: (Vec<FfmpegRecording>, String))
        ensures
            succeeded ==> r.0@ == old(self).recordings@ && final(self).recordings@ == Seq::<
                FfmpegRecording,
            >::empty(),
            !succeeded ==> r.0@ == Seq::<FfmpegRecording>::empty() && final(self).recordings
                == old(self).recordings,
            final(self).recording_session_id == Some(r.1),
            r.1@.len() == 21,
            final(self).active_recordings == old(self).active_recordings,
            final(self).audio_source == old(self).audio_source,
            final(self).max_seconds_cached == old(self).max_seconds_cached,
            final(self).video_folder == old(self).video_folder,
    {
        if succeeded {
            self.restart_session()
        } else {
            let id = new_session_id();
            self.recording_session_id = Some(id.clone());
            (Vec::new(), id)
        }
    }

    /// Ends the live session without touching the slots or the buffer, so that
    /// no scheduled continuation starts another capture.
    pub fn end_session(&mut self)
        ensures
            final(self).recording_session_id is None,
            final(self).active_recordings == old(self).active_recordings,
            final(self).recordings == old(self).recordings,
            final(self).audio_source == old(self).audio_source,
            final(self).max_seconds_cached == old(self).max_seconds_cached,
            final(self).video_folder == old(self).video_folder,
    {
        self.recording_session_id = None;
    }

    /// After a finished kapture: empties the buffer (handing its chunks back for
    /// release) and starts a fresh session, whose id is returned, so that capture
    /// resumes.
    pub fn restart_session(&mut self) -> (r: (Vec<FfmpegRecording>, String))
        ensures
            r.0@ == old(self).recordings@,
            final(self).recordings@ == Seq::<FfmpegRecording>::empty(),
            final(self).recording_session_id == Some(r.1),
            r.1@.len() == 21,
            final(self).active_recordings == old(self).active_recordings,
            final(self).audio_source == old(self).audio_source,
            final(self).max_seconds_cached == old(self).max_seconds_cached,
            final(self).video_folder == old(self).video_folder,
    {
        let released = self.recordings.clear();
        let id = new_session_id();
        self.recording_session_id = Some(id.clone());
        (released, id)
    }
}

} // verus!
