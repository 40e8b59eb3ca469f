//! Audio output: what is played when the device asks for samples, and the clock it keeps.

use std::collections::VecDeque;
use vstd::prelude::*;

verus! {

use crate::media_time::{clamp_micros, clamped};

/// The clock that the audio output keeps: where its first sample stands in the video, and how
/// many samples have been played since.
#[derive(Clone, Copy, Debug, PartialEq, Eq, Structural)]
pub struct AudioClock {
    pub base_pts: i64,
    pub samples_consumed: u64,
    pub active: bool,
    pub latency: i64,
    pub channels: u16,
    pub sample_rate: u32,
}

impl AudioClock {
    /// The clock has samples to count by.
    pub open spec fn wf(&self) -> bool {
        self.channels > 0 && self.sample_rate > 0
    }

    /// The time that the samples played so far take.
    pub open spec fn played(&self) -> int {
        (self.samples_consumed as int * 1_000_000) / (self.channels as int
            * self.sample_rate as int)
    }

    /// What the clock shows once it is running.
    pub open spec fn reading(&self) -> Option<int> {
        if self.active {
            Some(clamped(self.base_pts + self.played() - self.latency))
        } else {
            None
        }
    }

    /// A clock that is not running.
    pub fn new(channels: u16, sample_rate: u32) -> (r: AudioClock)
        ensures
            r.base_pts == 0,
            r.samples_consumed == 0,
            !r.active,
            r.latency == 0,
            r.channels == channels,
            r.sample_rate == sample_rate,
    {
        AudioClock {
            base_pts: 0,
            samples_consumed: 0,
            active: false,
            latency: 0,
            channels,
            sample_rate,
        }
    }

    /// Starts the clock at `pts`.
    pub fn set_base(&mut self, pts: i64)
        ensures
            *final(self) == (AudioClock {
                base_pts: pts,
                samples_consumed: 0,
                active: true,
                ..*old(self)
            }),
    {
        self.base_pts = pts;
        self.samples_consumed = 0;
        self.active = true;
    }

    /// Counts samples that have been played.
    pub fn advance(&mut self, count: u64)
        ensures
            *final(self) == (AudioClock {
                samples_consumed: old(self).samples_consumed.wrapping_add(count),
                ..*old(self)
            }),
    {
        self.samples_consumed = self.samples_consumed.wrapping_add(count);
    }

    /// Sets how far what is heard lags behind what was handed to the device.
    pub fn set_latency(&mut self, latency: i64)
        ensures
            *final(self) == (AudioClock { latency, ..*old(self) }),
    {
        self.latency = latency;
    }

    /// What the clock shows, if it is running.
    pub fn get(&self) -> (r: Option<i64>)
        requires
            self.wf(),
        ensures
            match r {
                Some(t) => self.reading() == Some(t as int),
                None => self.reading() is None,
            },
    {
        if !self.active {
            return None;
        }
        proof {
            let c = self.channels as int;
            let r = self.sample_rate as int;
            assert(0 < c * r <= 0xffff * 0xffff_ffff) by (nonlinear_arith)
                requires
                    0 < c <= 0xffff,
                    0 < r <= 0xffff_ffff,
            ;
        }
        let rate: u128 = self.channels as u128 * self.sample_rate as u128;
        let played: u128 = (self.samples_consumed as u128 * 1_000_000) / rate;
        proof {
            let total = self.samples_consumed as int * 1_000_000;
            assert(total / (rate as int) <= total) by (nonlinear_arith)
                requires
                    rate >= 1,
                    total >= 0,
            ;
        }
        Some(clamp_micros(self.base_pts as i128 + played as i128 - self.latency as i128))
    }
}

/// The lag of a device that is handed `len` samples at a time: twice the time that they take.
pub open spec fn device_lag(len: int, channels: int, sample_rate: int) -> int {
    clamped((len / channels) * 2_000_000 / sample_rate)
}

/// The lag of a device that is handed `buffer_len` samples at a time.
pub fn buffer_latency(buffer_len: usize, channels: u16, sample_rate: u32) -> (r: i64)
    requires
        channels > 0,
        sample_rate > 0,
    ensures
        r == device_lag(buffer_len as int, channels as int, sample_rate as int),
{
    let frames: u128 = buffer_len as u128 / channels as u128;
    proof {
        let n = buffer_len as int;
        let c = channels as int;
        assert(n / c <= n) by (nonlinear_arith)
            requires
                c >= 1,
                n >= 0,
        ;
    }
    let lag: u128 = (frames * 2_000_000) / sample_rate as u128;
    proof {
        let total = frames as int * 2_000_000;
        assert(0 <= total / (sample_rate as int) <= total) by (nonlinear_arith)
            requires
                sample_rate >= 1,
                total >= 0,
        ;
    }
    clamp_micros(lag as i128)
}

/// Samples that are played one after the other, and the time of the first of them.
pub struct AudioChunk<T> {
    pub samples: Vec<T>,
    pub pts: i64,
}

/// The chunks that have been decoded and not been taken, and whether there will be no more.
pub struct ChunkFeed<T> {
    pub chunks: VecDeque<AudioChunk<T>>,
    pub disconnected: bool,
}

/// The samples of all chunks, one after the other.
pub open spec fn joined<T>(chunks: Seq<AudioChunk<T>>) -> Seq<T>
    decreases chunks.len(),
{
    if chunks.len() == 0 {
        Seq::empty()
    } else {
        chunks[0].samples@ + joined(chunks.drop_first())
    }
}

/// No chunk is empty.
pub open spec fn all_filled<T>(chunks: Seq<AudioChunk<T>>) -> bool {
    forall|i: int| 0 <= i < chunks.len() ==> (#[trigger] chunks[i]).samples@.len() > 0
}

/// The sample that is heard at place `i` of a buffer of which `played` samples are filled.
pub open spec fn heard<T>(upcoming: Seq<T>, played: nat, i: int) -> Option<T> {
    if i < played {
        Some(upcoming[i])
    } else {
        None
    }
}

/// The clock after `played` samples more. `first` is the time of the first sample, where it is the
/// first one of all; `lag` is the lag of the device, where it has just been found out. The clock
/// stops when the samples have run out for good.
pub open spec fn counted(
    clock: AudioClock,
    first: Option<i64>,
    played: nat,
    ran_out: bool,
    lag: Option<i64>,
) -> AudioClock {
    AudioClock {
        base_pts: match first {
            Some(pts) => pts,
            None => clock.base_pts,
        },
        samples_consumed: match first {
            Some(_) => played as u64,
            None => clock.samples_consumed.wrapping_add(played as u64),
        },
        active: (clock.active || first is Some) && !ran_out,
        latency: match lag {
            Some(l) => l,
            None => clock.latency,
        },
        ..clock
    }
}

/// The chunk that is being played, and how far.
pub struct AudioSink<T> {
    pub buffer: Vec<T>,
    pub buf_pos: usize,
    /// Whether a chunk has ever been taken, and the clock set by it.
    pub base_set: bool,
    /// Whether the clock has been told the lag of the device.
    pub latency_set: bool,
}

impl<T: Copy> AudioSink<T> {
    /// The sink has played a part of its chunk, and none as long as it has taken none.
    pub open spec fn wf(&self) -> bool {
        &&& self.buf_pos <= self.buffer@.len()
        &&& !self.base_set ==> self.buf_pos == self.buffer@.len()
    }

    /// The samples that are there to be played, in order.
    pub open spec fn upcoming(&self, chunks: Seq<AudioChunk<T>>) -> Seq<T> {
        self.buffer@.skip(self.buf_pos as int) + joined(chunks)
    }

    /// A sink that has played nothing.
    pub fn new() -> (r: AudioSink<T>)
        ensures
            r.wf(),
            r.upcoming(Seq::empty()) == Seq::<T>::empty(),
            !r.base_set,
            !r.latency_set,
    {
        let r = AudioSink { buffer: Vec::new(), buf_pos: 0, base_set: false, latency_set: false };
        assert(r.upcoming(Seq::empty()) =~= Seq::<T>::empty());
        r
    }

    /// The next sample, if there is one; there is none where the feed holds no chunk.
    fn next_sample(&mut self, feed: &mut ChunkFeed<T>, clock: &mut AudioClock) -> (r: Option<T>)
        requires
            old(self).wf(),
            all_filled(old(feed).chunks@),
        ensures
            final(self).wf(),
            all_filled(final(feed).chunks@),
            final(feed).disconnected == old(feed).disconnected,
            final(self).latency_set == old(self).latency_set,
            ({
                let before = old(self).upcoming(old(feed).chunks@);
                let after = final(self).upcoming(final(feed).chunks@);
                match r {
                    Some(sample) => {
                        &&& before.len() > 0
                        &&& sample == before[0]
                        &&& after == before.skip(1)
                        &&& final(self).base_set
                        &&& *final(clock) == if old(self).base_set {
                            AudioClock {
                                samples_consumed: old(clock).samples_consumed.wrapping_add(1),
                                ..*old(clock)
                            }
                        } else {
                            AudioClock {
                                base_pts: old(feed).chunks@[0].pts,
                                samples_consumed: 1,
                                active: true,
                                ..*old(clock)
                            }
                        }
                    },
                    None => {
                        &&& before.len() == 0
                        &&& *final(self) == *old(self)
                        &&& final(feed).chunks@ == old(feed).chunks@
                        &&& *final(clock) == AudioClock {
                            active: old(clock).active && !old(feed).disconnected,
                            ..*old(clock)
                        }
                    },
                }
            }),
    {
        let ghost before = self.upcoming(feed.chunks@);
        let ghost chunks = feed.chunks@;
        if self.buf_pos >= self.buffer.len() {
            match feed.chunks.pop_front() {
                Some(chunk) => {
                    proof {
                        assert(feed.chunks@ =~= chunks.drop_first());
                        assert(chunk.samples@ == chunks[0].samples@);
                        assert(before =~= chunk.samples@ + joined(feed.chunks@));
                    }
                    if !self.base_set {
                        clock.set_base(chunk.pts);
                        self.base_set = true;
                    }
                    self.buffer = chunk.samples;
                    self.buf_pos = 0;
                    assert(self.upcoming(feed.chunks@) =~= before);
                },
                None => {
                    assert(before =~= Seq::empty());
                    if feed.disconnected {
                        clock.active = false;
                    }
                    return None;
                },
            }
        }
        let sample: T = self.buffer[self.buf_pos];
        self.buf_pos = self.buf_pos + 1;
        clock.advance(1);
        assert(self.upcoming(feed.chunks@) =~= before.skip(1));
        Some(sample)
    }

    /// How many samples of `upcoming` fill a buffer of `len`.
    pub open spec fn played_count(upcoming: Seq<T>, len: nat) -> nat {
        if upcoming.len() < len {
            upcoming.len()
        } else {
            len
        }
    }

    /// How many samples of `upcoming` are played into a buffer of `len`: none while paused.
    pub open spec fn fill_count(upcoming: Seq<T>, len: nat, paused: bool) -> nat {
        if paused {
            0
        } else {
            Self::played_count(upcoming, len)
        }
    }

    /// Fills a buffer of `len` samples, with silence (`None`) once the samples that are there run
    /// out, and nothing but silence while paused. The clock counts the samples, from the time of
    /// the first chunk on, and stops when they have run out for good.
    pub fn fill(
        &mut self,
        len: usize,
        paused: bool,
        feed: &mut ChunkFeed<T>,
        clock: &mut AudioClock,
    ) -> (out: Vec<Option<T>>)
        requires
            old(self).wf(),
            old(clock).wf(),
            all_filled(old(feed).chunks@),
        ensures
            final(self).wf(),
            final(clock).wf(),
            all_filled(final(feed).chunks@),
            final(self).latency_set,
            final(feed).disconnected == old(feed).disconnected,
            out@.len() == len,
            ({
                let upcoming = old(self).upcoming(old(feed).chunks@);
                let played = Self::fill_count(upcoming, len as nat, paused);
                let ran_out = !paused && played < len && old(feed).disconnected;
                let starts = played > 0 && !old(self).base_set;
                &&& forall|i: int|
                    0 <= i < len ==> #[trigger] out@[i] == heard(upcoming, played, i)
                &&& final(self).upcoming(final(feed).chunks@) == upcoming.skip(played as int)
                &&& final(self).base_set == (old(self).base_set || played > 0)
                &&& *final(clock) == counted(
                    *old(clock),
                    if starts {
                        Some(old(feed).chunks@[0].pts)
                    } else {
                        None
                    },
                    played,
                    ran_out,
                    if old(self).latency_set {
                        None
                    } else {
                        Some(
                            device_lag(
                                len as int,
                                old(clock).channels as int,
                                old(clock).sample_rate as int,
                            ) as i64,
                        )
                    },
                )
            }),
    {
        if !self.latency_set {
            let latency: i64 = buffer_latency(len, clock.channels, clock.sample_rate);
            clock.set_latency(latency);
            self.latency_set = true;
        }
        let ghost upcoming = self.upcoming(feed.chunks@);
        let ghost clock0 = *clock;
        let mut out: Vec<Option<T>> = Vec::new();
        let mut i: usize = 0;
        assert(upcoming =~= upcoming.skip(0));
        while i < len
            invariant
                i <= len,
                self.wf(),
                self.latency_set,
                all_filled(feed.chunks@),
                feed.disconnected == old(feed).disconnected,
                out@.len() == i,
                upcoming == old(self).upcoming(old(feed).chunks@),
                ({
                    let played = if paused {
                        0
                    } else {
                        Self::played_count(upcoming, i as nat)
                    };
                    let ran_out = !paused && played < i && old(feed).disconnected;
                    let starts = played > 0 && !old(self).base_set;
                    &&& forall|j: int| 0 <= j < i ==> #[trigger] out@[j] == if j < played {
                        Some(upcoming[j])
                    } else {
                        None
                    }
                    &&& self.upcoming(feed.chunks@) == upcoming.skip(played as int)
                    &&& self.base_set == (old(self).base_set || played > 0)
                    &&& played == 0 ==> feed.chunks@ == old(feed).chunks@
                    &&& *clock == AudioClock {
                        base_pts: if starts {
                            old(feed).chunks@[0].pts
                        } else {
                            clock0.base_pts
                        },
                        samples_consumed: if starts {
                            played as u64
                        } else {
                            clock0.samples_consumed.wrapping_add(played as u64)
                        },
                        active: (clock0.active || starts) && !ran_out,
                        ..clock0
                    }
                }),
            decreases len - i,
        {
            if paused {
                out.push(None);
            } else {
                let sample: Option<T> = self.next_sample(feed, clock);
                proof {
                    let n = Self::played_count(upcoming, i as nat) as int;
                    assert(upcoming.skip(n).len() == upcoming.len() - n);
                    if upcoming.len() > n {
                        assert(upcoming.skip(n)[0] == upcoming[n]);
                        assert(upcoming.skip(n).skip(1) =~= upcoming.skip(n + 1));
                    }
                }
                out.push(sample);
            }
            i = i + 1;
        }
        out
    }
}

/// Filling a buffer of `a` samples and then one of `b` plays what one of `a + b` would.
pub proof fn lemma_fills_join<T: Copy>(upcoming: Seq<T>, a: nat, b: nat)
    ensures
        ({
            let first = AudioSink::<T>::played_count(upcoming, a);
            let second = AudioSink::<T>::played_count(upcoming.skip(first as int), b);
            &&& first + second == AudioSink::<T>::played_count(upcoming, a + b)
            &&& upcoming.skip(first as int).skip(second as int) == upcoming.skip(
                (first + second) as int,
            )
        }),
{
    let first = AudioSink::<T>::played_count(upcoming, a);
    let second = AudioSink::<T>::played_count(upcoming.skip(first as int), b);
    assert(upcoming.skip(first as int).skip(second as int) =~= upcoming.skip(
        (first + second) as int,
    ));
}

} // verus!
