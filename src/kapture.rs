use vstd::prelude::*;

use crate::buffer::{end_times_clamped, sorted_by_audio_start, RollingBuffer};
use crate::chunk::{FfmpegRecording, KaptureError};

verus! {

/// The part of one buffered chunk that goes into a kapture: where to seek in
/// each of its two files, and for how long to read (all in ms).
#[derive(Debug, Clone, Copy, PartialEq, Eq, Structural)]
pub struct VideoChunk {
    pub chunk_index: usize,
    pub video_offset: u128,
    pub audio_offset: u128,
    pub video_time: u128,
    pub audio_time: u128,
}

pub open spec fn later(a: u128, b: u128) -> u128 {
    if a >= b {
        a
    } else {
        b
    }
}

/// The wall-clock instant at which chunk `k`'s contribution begins. A main
/// (even) chunk begins once both of its streams run; a secondary (odd) chunk
/// takes over where the main chunk before it is no longer guaranteed.
pub open spec fn seg_start(s: Seq<FfmpegRecording>, k: int) -> u128 {
    let own = later(s[k].audio_start_time, s[k].video_start_time);
    if k % 2 == 0 {
        own
    } else {
        later(s[k - 1].early_end_time, own)
    }
}

/// The wall-clock instant at which chunk `k`'s contribution ends, for a walk
/// anchored at chunk `j` with requested end instant `t`: a main chunk runs to
/// its guaranteed end; a secondary one up to `t` when it is the anchor, else up
/// to where the next main chunk's contribution begins.
pub open spec fn seg_end(s: Seq<FfmpegRecording>, j: int, t: u128, k: int) -> u128 {
    if k % 2 == 0 {
        s[k].early_end_time
    } else if k == j {
        t
    } else {
        later(s[k + 1].audio_start_time, s[k + 1].video_start_time)
    }
}

pub open spec fn seg_len(s: Seq<FfmpegRecording>, j: int, t: u128, k: int) -> int {
    if seg_end(s, j, t, k) > seg_start(s, k) {
        seg_end(s, j, t, k) - seg_start(s, k)
    } else {
        0
    }
}

/// The untrimmed contribution of chunk `k`: both streams are cut so that they
/// begin at the same wall-clock instant and last equally long.
pub open spec fn full_seg(s: Seq<FfmpegRecording>, j: int, t: u128, k: int) -> VideoChunk {
    VideoChunk {
        chunk_index: k as usize,
        video_offset: (seg_start(s, k) - s[k].video_start_time) as u128,
        audio_offset: (seg_start(s, k) - s[k].audio_start_time) as u128,
        video_time: seg_len(s, j, t, k) as u128,
        audio_time: seg_len(s, j, t, k) as u128,
    }
}

/// `c` with `x` ms cut from its beginning.
pub open spec fn trim_front(c: VideoChunk, x: int) -> VideoChunk {
    VideoChunk {
        chunk_index: c.chunk_index,
        video_offset: (c.video_offset + x) as u128,
        audio_offset: (c.audio_offset + x) as u128,
        video_time: (c.video_time - x) as u128,
        audio_time: (c.audio_time - x) as u128,
    }
}

/// The summed length of the contributions of chunks `lo ..= j`.
pub open spec fn span_total(s: Seq<FfmpegRecording>, j: int, t: u128, lo: int) -> int
    decreases j + 1 - lo,
{
    if lo > j {
        0
    } else {
        seg_len(s, j, t, lo) + span_total(s, j, t, lo + 1)
    }
}

/// The oldest chunk that the backward walk from `j` reaches: the first `lo`
/// (going down) at which chunks `lo ..= j` cover `d`, or chunk 0.
pub open spec fn first_lo(s: Seq<FfmpegRecording>, j: int, t: u128, d: u128, lo: int) -> int
    decreases lo,
{
    if lo <= 0 || span_total(s, j, t, lo) >= d {
        lo
    } else {
        first_lo(s, j, t, d, lo - 1)
    }
}

/// The contributions, oldest first, that make a clip of length `d` ending in
/// the walk anchored at chunk `j`: the walk goes back from `j` until `d` is
/// covered, and the oldest contribution is cut at its front by what exceeds `d`.
pub open spec fn planned(s: Seq<FfmpegRecording>, j: int, t: u128, d: u128) -> Seq<VideoChunk> {
    let lo = first_lo(s, j, t, d, j);
    let total = span_total(s, j, t, lo);
    let excess = if total >= d {
        total - d
    } else {
        0
    };
    Seq::new(
        (j - lo + 1) as nat,
        |p: int|
            if p == 0 {
                trim_front(full_seg(s, j, t, lo), excess)
            } else {
                full_seg(s, j, t, lo + p)
            },
    )
}

/// The summed video length of a list of contributions.
pub open spec fn total_video_time(v: Seq<VideoChunk>) -> int
    decreases v.len(),
{
    if v.len() == 0 {
        0
    } else {
        v[0].video_time + total_video_time(v.drop_first())
    }
}

/// Chunk `i` is the last one whose audio started by instant `t`.
pub open spec fn last_started_by(s: Seq<FfmpegRecording>, t: u128, i: int) -> bool {
    &&& 0 <= i < s.len()
    &&& s[i].audio_start_time <= t
    &&& forall|k: int| i < k < s.len() ==> #[trigger] s[k].audio_start_time > t
}

/// No chunk's audio started by instant `t`.
pub open spec fn none_started_by(s: Seq<FfmpegRecording>, t: u128) -> bool {
    forall|k: int| 0 <= k < s.len() ==> #[trigger] s[k].audio_start_time > t
}

/// The chunk that the backward walk starts from: the last chunk started by `t`
/// when it is a main one, or when `t` lies past the guaranteed end of the main
/// chunk before it; otherwise that main chunk.
pub open spec fn anchor(s: Seq<FfmpegRecording>, i: int, t: u128) -> int {
    if i % 2 == 0 {
        i
    } else if t > s[i - 1].early_end_time {
        i
    } else {
        i - 1
    }
}

fn latest(a: u128, b: u128) -> (r: u128)
    ensures
        r == later(a, b),
{
    if a >= b {
        a
    } else {
        b
    }
}

/// The untrimmed contribution of chunk `k` in the walk anchored at `j`.
fn contribution(chunks: &Vec<FfmpegRecording>, j: usize, t: u128, k: usize) -> (r: VideoChunk)
    requires
        k <= j < chunks@.len(),
    ensures
        r == full_seg(chunks@, j as int, t, k as int),
        r.video_time == seg_len(chunks@, j as int, t, k as int),
{
    let c = &chunks[k];
    let own = latest(c.audio_start_time, c.video_start_time);
    let start = if k % 2 == 0 {
        own
    } else {
        latest(chunks[k - 1].early_end_time, own)
    };
    let end = if k % 2 == 0 {
        c.early_end_time
    } else if k == j {
        t
    } else {
        latest(chunks[k + 1].audio_start_time, chunks[k + 1].video_start_time)
    };
    let len = if end > start {
        end - start
    } else {
        0
    };
    VideoChunk {
        chunk_index: k,
        video_offset: start - c.video_start_time,
        audio_offset: start - c.audio_start_time,
        video_time: len,
        audio_time: len,
    }
}

/// Walks back from chunk `end_index` and lists, oldest first, the
/// contributions that make a clip of `duration` ms ending at `timestamp`; when
/// the chunks do not reach back far enough, the list covers all of them.
pub fn video_chunks(
    chunks: &Vec<FfmpegRecording>,
    end_index: usize,
    timestamp: u128,
    duration: u128,
) -> (r: Vec<VideoChunk>)
    requires
        end_index < chunks@.len(),
    ensures
        r@ == planned(chunks@, end_index as int, timestamp, duration),
{
    let ghost s = chunks@;
    let ghost j = end_index as int;
    let mut out: Vec<VideoChunk> = Vec::new();
    let mut total: u128 = 0;
    let mut k: usize = end_index;
    loop
        invariant
            k <= end_index < chunks@.len(),
            s == chunks@,
            j == end_index,
            total == span_total(s, j, timestamp, k + 1),
            total <= duration,
            k < j ==> span_total(s, j, timestamp, k + 1) < duration,
            first_lo(s, j, timestamp, duration, j) == first_lo(s, j, timestamp, duration, k as int),
            out@ =~= Seq::new((j - k) as nat, |p: int| full_seg(s, j, timestamp, k + 1 + p)),
        decreases k,
    {
        let c = contribution(chunks, end_index, timestamp, k);
        let len = c.video_time;
        assert(span_total(s, j, timestamp, k as int) == len + total);
        if len >= duration - total {
            let excess = len - (duration - total);
            out.insert(
                0,
                VideoChunk {
                    chunk_index: c.chunk_index,
                    video_offset: c.video_offset + excess,
                    audio_offset: c.audio_offset + excess,
                    video_time: c.video_time - excess,
                    audio_time: c.audio_time - excess,
                },
            );
            assert(first_lo(s, j, timestamp, duration, k as int) == k);
            assert(out@ =~= planned(s, j, timestamp, duration));
            return out;
        }
        total = total + len;
        out.insert(0, c);
        if k == 0 {
            assert(first_lo(s, j, timestamp, duration, k as int) == k);
            assert(out@ =~= planned(s, j, timestamp, duration));
            return out;
        }
        k = k - 1;
    }
}

/// The index of the last chunk whose audio started by `timestamp`, or
/// `OutOfRange` when there is none.
pub fn last_started_index(chunks: &Vec<FfmpegRecording>, timestamp: u128) -> (r: Result<
    usize,
    KaptureError,
>)
    ensures
        match r {
            Ok(i) => last_started_by(chunks@, timestamp, i as int),
            Err(e) => e == KaptureError::OutOfRange && none_started_by(chunks@, timestamp),
        },
{
    let mut i: usize = chunks.len();
    while i > 0
        invariant
            i <= chunks@.len(),
            forall|k: int| i <= k < chunks@.len() ==> #[trigger] chunks@[k].audio_start_time > timestamp,
        decreases i,
    {
        if chunks[i - 1].audio_start_time <= timestamp {
            return Ok(i - 1);
        }
        i = i - 1;
    }
    Err(KaptureError::OutOfRange)
}

/// The chunk that the backward walk starts from, given the last chunk `i`
/// started by `timestamp`.
pub fn anchor_index(chunks: &Vec<FfmpegRecording>, i: usize, timestamp: u128) -> (r: usize)
    requires
        i < chunks@.len(),
    ensures
        r == anchor(chunks@, i as int, timestamp),
        r <= i,
{
    if i % 2 == 0 {
        i
    } else if timestamp > chunks[i - 1].early_end_time {
        i
    } else {
        i - 1
    }
}

impl RollingBuffer {
    /// Orders and clamps the buffer, then plans a clip of `duration` ms ending
    /// at `timestamp`. Fails with `OutOfRange` exactly when no chunk's audio
    /// started by `timestamp` (an empty buffer included).
    pub fn plan_kapture(&mut self, timestamp: u128, duration: u128) -> (r: Result<
        Vec<VideoChunk>,
        KaptureError,
    >)
        ensures
            sorted_by_audio_start(final(self)@),
            end_times_clamped(final(self)@),
            final(self)@.len() == old(self)@.len(),
            exists|s: Seq<FfmpegRecording>|
                s.to_multiset() == old(self)@.to_multiset() && sorted_by_audio_start(s)
                    && final(self)@ == crate::buffer::clamped(s),
            r is Err <==> none_started_by(final(self)@, timestamp),
            match r {
                Ok(v) => exists|i: int|
                    last_started_by(final(self)@, timestamp, i) && v@ == planned(
                        final(self)@,
                        anchor(final(self)@, i, timestamp),
                        timestamp,
                        duration,
                    ),
                Err(e) => e == KaptureError::OutOfRange,
            },
    {
        self.sort_and_clamp();
        match last_started_index(&self.chunks, timestamp) {
            Ok(i) => {
                let j = anchor_index(&self.chunks, i, timestamp);
                Ok(video_chunks(&self.chunks, j, timestamp, duration))
            },
            Err(e) => Err(e),
        }
    }
}

proof fn lemma_full_sum(s: Seq<FfmpegRecording>, j: int, t: u128, lo: int)
    requires
        0 <= lo <= j + 1,
        j < s.len(),
    ensures
        total_video_time(Seq::new((j - lo + 1) as nat, |p: int| full_seg(s, j, t, lo + p)))
            == span_total(s, j, t, lo),
    decreases j + 1 - lo,
{
    let v = Seq::new((j - lo + 1) as nat, |p: int| full_seg(s, j, t, lo + p));
    if lo <= j {
        lemma_full_sum(s, j, t, lo + 1);
        assert(v.drop_first() =~= Seq::new((j - (lo + 1) + 1) as nat, |p: int| full_seg(s, j, t, lo + 1 + p)));
        lemma_seg_len_fits(s, j, t, lo);
    }
}

proof fn lemma_seg_len_fits(s: Seq<FfmpegRecording>, j: int, t: u128, k: int)
    ensures
        0 <= seg_len(s, j, t, k) <= u128::MAX,
{
}

proof fn lemma_span_total_nonneg(s: Seq<FfmpegRecording>, j: int, t: u128, lo: int)
    ensures
        span_total(s, j, t, lo) >= 0,
    decreases j + 1 - lo,
{
    if lo <= j {
        lemma_span_total_nonneg(s, j, t, lo + 1);
    }
}

proof fn lemma_span_total_monotone(s: Seq<FfmpegRecording>, j: int, t: u128, lo: int, hi: int)
    requires
        lo <= hi,
    ensures
        span_total(s, j, t, lo) >= span_total(s, j, t, hi),
    decreases hi - lo,
{
    if lo < hi {
        lemma_span_total_monotone(s, j, t, lo + 1, hi);
        if lo <= j {
            lemma_span_total_nonneg(s, j, t, lo + 1);
        }
    }
}

proof fn lemma_first_lo(s: Seq<FfmpegRecording>, j: int, t: u128, d: u128, lo: int)
    requires
        0 <= lo,
    ensures
        0 <= first_lo(s, j, t, d, lo) <= lo,
        first_lo(s, j, t, d, lo) == 0 || span_total(s, j, t, first_lo(s, j, t, d, lo)) >= d,
        first_lo(s, j, t, d, lo) < lo ==> span_total(s, j, t, first_lo(s, j, t, d, lo) + 1) < d,
    decreases lo,
{
    if lo > 0 && span_total(s, j, t, lo) < d {
        lemma_first_lo(s, j, t, d, lo - 1);
    }
}

/// A planned clip is exactly as long as requested when the chunks from the
/// anchor back to the first one cover the request, and otherwise as long as
/// all of them together.
pub proof fn lemma_planned_duration_exact(s: Seq<FfmpegRecording>, j: int, t: u128, d: u128)
    requires
        0 <= j < s.len(),
    ensures
        span_total(s, j, t, 0) >= d ==> total_video_time(planned(s, j, t, d)) == d,
        span_total(s, j, t, 0) < d ==> total_video_time(planned(s, j, t, d)) == span_total(s, j, t, 0),
{
    let lo = first_lo(s, j, t, d, j);
    lemma_first_lo(s, j, t, d, j);
    let total = span_total(s, j, t, lo);
    let excess = if total >= d {
        total - d
    } else {
        0
    };
    let v = planned(s, j, t, d);
    lemma_full_sum(s, j, t, lo + 1);
    lemma_seg_len_fits(s, j, t, lo);
    lemma_span_total_monotone(s, j, t, 0, lo);
    lemma_span_total_nonneg(s, j, t, lo + 1);
    if lo == j {
        assert(span_total(s, j, t, lo + 1) == 0);
    }
    assert(v.drop_first() =~= Seq::new((j - (lo + 1) + 1) as nat, |p: int| full_seg(s, j, t, lo + 1 + p)));
    assert(total_video_time(v) == v[0].video_time + total_video_time(v.drop_first()));
}

/// A kapture whose end instant precedes the first chunk of an ordered buffer
/// is out of range.
pub proof fn lemma_early_timestamp_out_of_range(s: Seq<FfmpegRecording>, t: u128)
    requires
        sorted_by_audio_start(s),
        s.len() > 0,
        t < s[0].audio_start_time,
    ensures
        none_started_by(s, t),
{
    assert forall|k: int| 0 <= k < s.len() implies #[trigger] s[k].audio_start_time > t by {
        assert(s[0].audio_start_time <= s[k].audio_start_time);
    }
}

/// Every planned contribution starts both of its streams at the same
/// wall-clock instant, and reads both for equally long.
pub proof fn lemma_planned_streams_aligned(s: Seq<FfmpegRecording>, j: int, t: u128, d: u128)
    requires
        0 <= j < s.len(),
        s.len() <= usize::MAX,
    ensures
        forall|p: int|
            0 <= p < planned(s, j, t, d).len() ==> {
                let c = #[trigger] planned(s, j, t, d)[p];
                let k = c.chunk_index as int;
                &&& s[k].video_start_time + c.video_offset == s[k].audio_start_time + c.audio_offset
                &&& c.video_time == c.audio_time
            },
{
    let lo = first_lo(s, j, t, d, j);
    lemma_first_lo(s, j, t, d, j);
    let total = span_total(s, j, t, lo);
    lemma_span_total_nonneg(s, j, t, lo + 1);
    if lo == j {
        assert(span_total(s, j, t, lo + 1) == 0);
    }
    lemma_seg_len_fits(s, j, t, lo);
    assert forall|p: int| 0 <= p < planned(s, j, t, d).len() implies {
        let c = #[trigger] planned(s, j, t, d)[p];
        let k = c.chunk_index as int;
        &&& s[k].video_start_time + c.video_offset == s[k].audio_start_time + c.audio_offset
        &&& c.video_time == c.audio_time
    } by {
        assert(0 <= lo + p <= j);
        let k = lo + p;
        if p == 0 {
            let excess = if total >= d {
                total - d
            } else {
                0
            };
            assert(0 <= excess <= seg_len(s, j, t, lo));
            assert(seg_start(s, lo) + seg_len(s, j, t, lo) <= u128::MAX);
        }
    }
}

} // verus!
