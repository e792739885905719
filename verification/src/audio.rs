//! Audio sources a host can share, chunks of captured samples, and the
//! channel layout of the stream.

pub mod capture;

use vstd::prelude::*;
use std::collections::VecDeque;

verus! {

/// Something a host can capture: the whole system's output, an
/// application, a window or an input device.
#[derive(Debug, Clone)]
pub struct AudioSource {
    pub id: String,
    pub kind: String,
    pub title: String,
    pub subtitle: String,
}

impl View for AudioSource {
    type V = (Seq<char>, Seq<char>, Seq<char>, Seq<char>);

    /// The id, kind, title and subtitle.
    open spec fn view(&self) -> Self::V {
        (self.id@, self.kind@, self.title@, self.subtitle@)
    }
}

/// A chunk of interleaved 16-bit samples as captured.
#[derive(Debug, Clone)]
pub struct PcmChunk {
    pub samples: Vec<i16>,
    pub sample_rate: u32,
    pub channels: u16,
}

/// Every sample played on both channels.
pub open spec fn upmixed(samples: Seq<i16>) -> Seq<i16>
    decreases samples.len(),
{
    if samples.len() == 0 {
        seq![]
    } else {
        seq![samples[0], samples[0]] + upmixed(samples.drop_first())
    }
}

/// The first two samples of every frame of `n` samples; a frame with a
/// single sample (the last one may be short) is played on both channels.
pub open spec fn downmixed(samples: Seq<i16>, n: int) -> Seq<i16>
    decreases samples.len(),
{
    if samples.len() == 0 || n <= 0 {
        seq![]
    } else {
        let len = if samples.len() < n {
            samples.len() as int
        } else {
            n
        };
        let left = samples[0];
        let right = if len > 1 {
            samples[1]
        } else {
            samples[0]
        };
        seq![left, right] + downmixed(samples.skip(len), n)
    }
}

/// Interleaved samples with `channels` channels, as stereo: mono (or an
/// unknown layout) is played on both sides, stereo is kept, and more
/// channels are reduced to their first two.
pub open spec fn stereo(samples: Seq<i16>, channels: u16) -> Seq<i16> {
    if channels <= 1 {
        upmixed(samples)
    } else if channels == 2 {
        samples
    } else {
        downmixed(samples, channels as int)
    }
}

/// Converts interleaved samples to stereo.
pub fn to_stereo(samples: &[i16], channels: u16) -> (r: Vec<i16>)
    requires
        samples@.len() <= usize::MAX / 2,
    ensures
        r@ == stereo(samples@, channels),
{
    let len = samples.len();
    let mut out: Vec<i16> = Vec::new();
    if channels <= 1 {
        let mut i: usize = 0;
        assert(samples@.skip(0) =~= samples@);
        assert(out@ + upmixed(samples@) =~= upmixed(samples@));
        while i < len
            invariant
                len == samples@.len(),
                i <= len,
                upmixed(samples@) == out@ + upmixed(samples@.skip(i as int)),
            decreases len - i,
        {
            let ghost rest = samples@.skip(i as int);
            assert(rest.drop_first() =~= samples@.skip(i + 1));
            out.push(samples[i]);
            out.push(samples[i]);
            i = i + 1;
        }
        assert(samples@.skip(len as int) =~= Seq::<i16>::empty());
        assert(out@ + Seq::<i16>::empty() =~= out@);
        out
    } else if channels == 2 {
        let mut i: usize = 0;
        while i < len
            invariant
                len == samples@.len(),
                i <= len,
                out@ == samples@.take(i as int),
            decreases len - i,
        {
            out.push(samples[i]);
            assert(samples@.take(i + 1) =~= samples@.take(i as int).push(samples@[i as int]));
            i = i + 1;
        }
        assert(samples@.take(len as int) =~= samples@);
        out
    } else {
        let n = channels as usize;
        let mut i: usize = 0;
        assert(samples@.skip(0) =~= samples@);
        assert(out@ + downmixed(samples@, n as int) =~= downmixed(samples@, n as int));
        while i < len
            invariant
                len == samples@.len(),
                n == channels as usize,
                n >= 3,
                i <= len,
                downmixed(samples@, n as int) == out@ + downmixed(samples@.skip(i as int), n as int),
            decreases len - i,
        {
            let ghost rest = samples@.skip(i as int);
            let frame = if len - i < n {
                len - i
            } else {
                n
            };
            let left = samples[i];
            let right = if frame > 1 {
                samples[i + 1]
            } else {
                samples[i]
            };
            out.push(left);
            out.push(right);
            assert(rest.skip(frame as int) =~= samples@.skip(i + frame));
            i = i + frame;
        }
        assert(samples@.skip(i as int) =~= Seq::<i16>::empty());
        assert(out@ + Seq::<i16>::empty() =~= out@);
        out
    }
}

/// Most samples the playback queue holds: two seconds of 48 kHz stereo.
pub const MAX_QUEUED_SAMPLES: usize = 48_000 * 2 * 2;

/// The last `n` elements of `s` (all of them when there are fewer).
pub open spec fn newest<T>(s: Seq<T>, n: nat) -> Seq<T> {
    if s.len() > n {
        s.skip(s.len() - n)
    } else {
        s
    }
}

proof fn lemma_newest_push<T>(s: Seq<T>, x: T, n: nat)
    ensures
        newest(newest(s, n).push(x), n) == newest(s.push(x), n),
{
    assert(newest(newest(s, n).push(x), n) =~= newest(s.push(x), n));
}

fn drop_oldest<T>(queue: &mut VecDeque<T>, max: usize)
    ensures
        final(queue)@ == newest(old(queue)@, max as nat),
{
    broadcast use vstd::std_specs::vecdeque::axiom_spec_len;
    let ghost d: int = 0;
    while queue.len() > max
        invariant
            0 <= d <= old(queue)@.len(),
            queue@ == old(queue)@.skip(d),
            old(queue)@.len() > max ==> queue@.len() >= max,
            old(queue)@.len() <= max ==> d == 0,
        decreases queue@.len(),
    {
        let _ = queue.pop_front();
        proof {
            d = d + 1;
        }
        assert(queue@ =~= old(queue)@.skip(d));
    }
    assert(queue@ =~= newest(old(queue)@, max as nat));
}

/// Appends samples to the playback queue; beyond `MAX_QUEUED_SAMPLES` the
/// oldest are dropped, so the queue keeps the newest samples.
pub fn enqueue_samples<T: Copy>(queue: &mut VecDeque<T>, samples: &[T])
    ensures
        final(queue)@ == newest(old(queue)@ + samples@, MAX_QUEUED_SAMPLES as nat),
{
    drop_oldest(queue, MAX_QUEUED_SAMPLES);
    let ghost start = old(queue)@;
    let mut i: usize = 0;
    assert(start + samples@.take(0) =~= start);
    while i < samples.len()
        invariant
            i <= samples@.len(),
            start == old(queue)@,
            queue@ == newest(start + samples@.take(i as int), MAX_QUEUED_SAMPLES as nat),
        decreases samples@.len() - i,
    {
        let ghost before = queue@;
        queue.push_back(samples[i]);
        drop_oldest(queue, MAX_QUEUED_SAMPLES);
        proof {
            lemma_newest_push(start + samples@.take(i as int), samples@[i as int], MAX_QUEUED_SAMPLES as nat);
            assert(start + samples@.take(i + 1) =~= (start + samples@.take(i as int)).push(
                samples@[i as int],
            ));
        }
        i = i + 1;
    }
    assert(samples@.take(samples@.len() as int) =~= samples@);
}

} // verus!
