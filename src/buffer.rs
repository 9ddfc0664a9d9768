use vstd::prelude::*;

use crate::chunk::FfmpegRecording;

verus! {

broadcast use vstd::seq_lib::group_to_multiset_ensures;

/// The audio start instants never decrease along `s`.
pub open spec fn sorted_by_audio_start(s: Seq<FfmpegRecording>) -> bool {
    forall|i: int, j: int|
        0 <= i <= j < s.len() ==> #[trigger] s[i].audio_start_time <= #[trigger] s[j].audio_start_time
}

/// The guaranteed end instants never decrease along `s`.
pub open spec fn sorted_by_early_end(s: Seq<FfmpegRecording>) -> bool {
    forall|i: int, j: int|
        0 <= i <= j < s.len() ==> #[trigger] s[i].early_end_time <= #[trigger] s[j].early_end_time
}

/// No chunk's guaranteed end passes the start of the chunk two places later
/// (the next chunk recorded in the same slot).
pub open spec fn end_times_clamped(s: Seq<FfmpegRecording>) -> bool {
    forall|i: int| 0 <= i && i + 2 < s.len() ==> #[trigger] s[i].early_end_time <= s[i + 2].audio_start_time
}

/// The end instant `e` pulled back to just before `next_start` when it reaches it.
pub open spec fn clamp_end(e: u128, next_start: u128) -> u128 {
    if e < next_start {
        e
    } else if next_start == 0 {
        0
    } else {
        (next_start - 1) as u128
    }
}

/// `c` with its guaranteed end replaced by `e`.
pub open spec fn with_end(c: FfmpegRecording, e: u128) -> FfmpegRecording {
    FfmpegRecording { early_end_time: e, ..c }
}

/// `s` with every end instant clamped against the chunk two places later.
pub open spec fn clamped(s: Seq<FfmpegRecording>) -> Seq<FfmpegRecording> {
    Seq::new(
        s.len(),
        |i: int|
            if i + 2 < s.len() {
                with_end(s[i], clamp_end(s[i].early_end_time, s[i + 2].audio_start_time))
            } else {
                s[i]
            },
    )
}

/// At instant `now`, chunk `c` is older than the cache budget (in ms).
pub open spec fn over_budget(c: FfmpegRecording, now: u128, budget: int) -> bool {
    now - c.early_end_time > budget
}

/// The ordered collection of completed chunks that a kapture is cut from.
pub struct RollingBuffer {
    pub chunks: Vec<FfmpegRecording>,
}

impl View for RollingBuffer {
    type V = Seq<FfmpegRecording>;

    open spec fn view(&self) -> Seq<FfmpegRecording> {
        self.chunks@
    }
}

impl RollingBuffer {
    pub fn new() -> (r: RollingBuffer)
        ensures
            r@ == Seq::<FfmpegRecording>::empty(),
    {
        RollingBuffer { chunks: Vec::new() }
    }

    pub fn len(&self) -> (r: usize)
        ensures
            r == self@.len(),
    {
        self.chunks.len()
    }

    /// Adds a completed chunk at the back; the order is restored by `sort_and_clamp`.
    pub fn push(&mut self, chunk: FfmpegRecording)
        ensures
            final(self)@ == old(self)@.push(chunk),
    {
        self.chunks.push(chunk);
    }

    /// Removes every chunk and hands them back, so that their files can be released.
    pub fn clear(&mut self) -> (r: Vec<FfmpegRecording>)
        ensures
            r@ == old(self)@,
            final(self)@ == Seq::<FfmpegRecording>::empty(),
    {
        let mut out: Vec<FfmpegRecording> = Vec::new();
        core::mem::swap(&mut out, &mut self.chunks);
        out
    }

    /// Stable sort by audio start instant.
    pub fn sort_by_audio_start(&mut self)
        ensures
            final(self)@.to_multiset() == old(self)@.to_multiset(),
            sorted_by_audio_start(final(self)@),
    {
        let mut rest: Vec<FfmpegRecording> = Vec::new();
        core::mem::swap(&mut rest, &mut self.chunks);
        let ghost orig = rest@;
        let mut out: Vec<FfmpegRecording> = Vec::new();
        while rest.len() > 0
            invariant
                out@.to_multiset().add(rest@.to_multiset()) == orig.to_multiset(),
                sorted_by_audio_start(out@),
                forall|i: int, j: int|
                    0 <= i < out@.len() && 0 <= j < rest@.len() ==> #[trigger] out@[i].audio_start_time
                        <= #[trigger] rest@[j].audio_start_time,
            decreases rest@.len(),
        {
            let mut m: usize = 0;
            let mut k: usize = 1;
            while k < rest.len()
                invariant
                    0 <= m < k <= rest@.len(),
                    forall|j: int| 0 <= j < k ==> rest@[m as int].audio_start_time <= #[trigger] rest@[j].audio_start_time,
                decreases rest@.len() - k,
            {
                if rest[k].audio_start_time < rest[m].audio_start_time {
                    m = k;
                }
                k = k + 1;
            }
            let ghost before = rest@;
            let c = rest.remove(m);
            assert(before.remove(m as int).to_multiset() == before.to_multiset().remove(c));
            assert forall|j: int| 0 <= j < rest@.len() implies c.audio_start_time
                <= #[trigger] rest@[j].audio_start_time by {
                if j < m {
                    assert(rest@[j] == before[j]);
                } else {
                    assert(rest@[j] == before[j + 1]);
                }
            }
            assert forall|i: int, j: int|
                0 <= i < out@.len() && 0 <= j < rest@.len() implies #[trigger] out@[i].audio_start_time
                <= #[trigger] rest@[j].audio_start_time by {
                if j < m {
                    assert(rest@[j] == before[j]);
                } else {
                    assert(rest@[j] == before[j + 1]);
                }
            }
            let ghost prev = out@;
            out.push(c);
            assert(out@.to_multiset() == prev.to_multiset().insert(c));
        }
        self.chunks = out;
    }

    /// Pulls each chunk's guaranteed end back to just before the start of the
    /// chunk two places later, wherever it reaches that start.
    pub fn clamp_end_times(&mut self)
        ensures
            final(self)@ == clamped(old(self)@),
    {
        let n = self.chunks.len();
        if n > 2 {
            let mut i: usize = 0;
            while i < n - 2
                invariant
                    n == old(self)@.len() == self@.len(),
                    n > 2,
                    i <= n - 2,
                    forall|k: int| 0 <= k < i ==> #[trigger] self@[k] == clamped(old(self)@)[k],
                    forall|k: int| i <= k < n ==> #[trigger] self@[k] == old(self)@[k],
                decreases n - 2 - i,
            {
                let next_start = self.chunks[i + 2].audio_start_time;
                if self.chunks[i].early_end_time >= next_start {
                    let mut c = self.chunks.remove(i);
                    c.early_end_time = if next_start == 0 {
                        0
                    } else {
                        next_start - 1
                    };
                    self.chunks.insert(i, c);
                }
                assert(self@[i as int] == clamped(old(self)@)[i as int]);
                i = i + 1;
            }
        }
        assert(self@ =~= clamped(old(self)@));
    }

    /// Sorts the chunks by audio start instant, then clamps the end instants.
    pub fn sort_and_clamp(&mut self)
        ensures
            exists|s: Seq<FfmpegRecording>|
                s.to_multiset() == old(self)@.to_multiset() && sorted_by_audio_start(s) && final(self)@
                    == clamped(s),
            sorted_by_audio_start(final(self)@),
            end_times_clamped(final(self)@),
            final(self)@.len() == old(self)@.len(),
    {
        self.sort_by_audio_start();
        let ghost s = self@;
        self.clamp_end_times();
        proof {
            lemma_clamped_keeps_starts(s);
            lemma_clamped_bounds_ends(s);
            assert(s.to_multiset().len() == s.len());
            assert(old(self)@.to_multiset().len() == old(self)@.len());
        }
    }

    /// Drops, from the front, every chunk that is over the budget (in ms) at
    /// `now`, up to the first one that is not; returns them in order.
    pub fn evict_expired(&mut self, now: u128, budget: u128) -> (r: Vec<FfmpegRecording>)
        ensures
            r@.len() <= old(self)@.len(),
            r@ == old(self)@.take(r@.len() as int),
            final(self)@ == old(self)@.skip(r@.len() as int),
            forall|i: int| 0 <= i < r@.len() ==> over_budget(#[trigger] old(self)@[i], now, budget as int),
            r@.len() < old(self)@.len() ==> !over_budget(old(self)@[r@.len() as int], now, budget as int),
    {
        let mut out: Vec<FfmpegRecording> = Vec::new();
        while self.chunks.len() > 0 && now >= self.chunks[0].early_end_time
            && now - self.chunks[0].early_end_time > budget
            invariant
                out@.len() <= old(self)@.len(),
                out@ == old(self)@.take(out@.len() as int),
                self@ == old(self)@.skip(out@.len() as int),
                forall|i: int| 0 <= i < out@.len() ==> over_budget(#[trigger] old(self)@[i], now, budget as int),
            decreases self@.len(),
        {
            let c = self.chunks.remove(0);
            out.push(c);
            assert(self@ =~= old(self)@.skip(out@.len() as int));
            assert(out@ =~= old(self)@.take(out@.len() as int));
        }
        proof {
            if out@.len() < old(self)@.len() {
                assert(self@[0] == old(self)@[out@.len() as int]);
            }
        }
        out
    }
}

proof fn lemma_clamped_keeps_starts(s: Seq<FfmpegRecording>)
    requires
        sorted_by_audio_start(s),
    ensures
        sorted_by_audio_start(clamped(s)),
        clamped(s).len() == s.len(),
{
    assert forall|i: int, j: int| 0 <= i <= j < s.len() implies #[trigger] clamped(s)[i].audio_start_time
        <= #[trigger] clamped(s)[j].audio_start_time by {
        assert(s[i].audio_start_time <= s[j].audio_start_time);
    }
}

proof fn lemma_clamped_bounds_ends(s: Seq<FfmpegRecording>)
    ensures
        end_times_clamped(clamped(s)),
{
}

/// After eviction, the chunks kept are all within budget when the guaranteed
/// end instants never decrease along the buffer: eviction stops at the first
/// chunk within budget, and every later one ends no earlier.
pub proof fn lemma_evict_keeps_only_fresh(
    s: Seq<FfmpegRecording>,
    k: int,
    now: u128,
    budget: int,
)
    requires
        sorted_by_early_end(s),
        0 <= k <= s.len(),
        k < s.len() ==> !over_budget(s[k], now, budget),
    ensures
        forall|i: int| 0 <= i < s.skip(k).len() ==> !over_budget(#[trigger] s.skip(k)[i], now, budget),
{
    assert forall|i: int| 0 <= i < s.skip(k).len() implies !over_budget(#[trigger] s.skip(k)[i], now, budget) by {
        assert(s.skip(k)[i] == s[k + i]);
        assert(s[k].early_end_time <= s[k + i].early_end_time);
    }
}

} // verus!
