//! Frame accounting for decoding and analysis: which waveform bucket an
//! audio frame (or an FFT window ending at it) feeds, when the playback
//! position is due to advance, and how many whole frames are buffered.

use vstd::prelude::*;

verus! {

/// Frames in one FFT window of the analysis.
pub const FFT_SIZE: usize = 2048;

/// Bucket width used when the length of the file is unknown.
pub const UNKNOWN_LENGTH_BUCKET_FRAMES: usize = 1024;

/// Frames per waveform bucket: the file's frames spread evenly over
/// `num_buckets` (at least one each), or 0 when the length is unknown.
pub open spec fn spec_frames_per_bucket(total_frames: nat, num_buckets: nat) -> nat {
    if total_frames > 0 {
        if total_frames / num_buckets >= 1 {
            total_frames / num_buckets
        } else {
            1
        }
    } else {
        0
    }
}

/// The bucket that frame `frame` feeds: buckets `frames_per_bucket` wide
/// (or of the fixed width when that is 0), with every frame past the last
/// bucket counted in the last one.
pub open spec fn bucket_of(frame: nat, frames_per_bucket: nat, num_buckets: nat) -> nat {
    let width = if frames_per_bucket > 0 {
        frames_per_bucket
    } else {
        UNKNOWN_LENGTH_BUCKET_FRAMES as nat
    };
    let b = frame / width;
    if b + 1 <= num_buckets {
        b
    } else {
        (num_buckets - 1) as nat
    }
}

pub fn frames_per_bucket(total_frames: usize, num_buckets: usize) -> (r: usize)
    requires
        total_frames > 0 ==> num_buckets > 0,
    ensures
        r == spec_frames_per_bucket(total_frames as nat, num_buckets as nat),
{
    if total_frames > 0 {
        let q = total_frames / num_buckets;
        if q >= 1 {
            q
        } else {
            1
        }
    } else {
        0
    }
}

/// The bucket that frame `frame` feeds.
pub fn bucket_for_frame(frame: usize, frames_per_bucket: usize, num_buckets: usize) -> (r: usize)
    requires
        num_buckets > 0,
    ensures
        r == bucket_of(frame as nat, frames_per_bucket as nat, num_buckets as nat),
        r < num_buckets,
{
    let width = if frames_per_bucket > 0 {
        frames_per_bucket
    } else {
        UNKNOWN_LENGTH_BUCKET_FRAMES
    };
    let b = frame / width;
    if b < num_buckets {
        b
    } else {
        num_buckets - 1
    }
}

/// The bucket that an FFT window completed at frame `frame` feeds: the
/// bucket of the window's center, half a window back (or frame 0).
pub fn bucket_for_window(frame: usize, frames_per_bucket: usize, num_buckets: usize) -> (r: usize)
    requires
        num_buckets > 0,
    ensures
        r == bucket_of(
            if frame >= FFT_SIZE / 2 {
                (frame - FFT_SIZE / 2) as nat
            } else {
                0nat
            },
            frames_per_bucket as nat,
            num_buckets as nat,
        ),
        r < num_buckets,
{
    let center = if frame >= FFT_SIZE / 2 {
        frame - FFT_SIZE / 2
    } else {
        0
    };
    bucket_for_frame(center, frames_per_bucket, num_buckets)
}

/// Every frame feeds a bucket that exists.
pub proof fn lemma_bucket_in_range(frame: nat, frames_per_bucket: nat, num_buckets: nat)
    requires
        num_buckets > 0,
    ensures
        bucket_of(frame, frames_per_bucket, num_buckets) < num_buckets,
{
}

/// Later frames never feed earlier buckets.
pub proof fn lemma_bucket_monotone(f1: nat, f2: nat, frames_per_bucket: nat, num_buckets: nat)
    requires
        f1 <= f2,
        num_buckets > 0,
    ensures
        bucket_of(f1, frames_per_bucket, num_buckets) <= bucket_of(f2, frames_per_bucket, num_buckets),
{
    let width = if frames_per_bucket > 0 {
        frames_per_bucket
    } else {
        UNKNOWN_LENGTH_BUCKET_FRAMES as nat
    };
    vstd::arithmetic::div_mod::lemma_div_is_ordered(f1 as int, f2 as int, width as int);
}

/// Each bucket but the last takes exactly one run of `frames_per_bucket`
/// consecutive frames.
pub proof fn lemma_bucket_span(frame: nat, frames_per_bucket: nat, num_buckets: nat, k: nat)
    requires
        frames_per_bucket > 0,
        k + 1 < num_buckets,
    ensures
        bucket_of(frame, frames_per_bucket, num_buckets) == k <==> k * frames_per_bucket <= frame
            < (k + 1) * frames_per_bucket,
{
    let w = frames_per_bucket as int;
    let f = frame as int;
    vstd::arithmetic::div_mod::lemma_fundamental_div_mod(f, w);
    let q = f / w;
    let r = f % w;
    assert((k + 1) * w == k * w + w) by (nonlinear_arith);
    if k * w <= f < (k + 1) * w {
        vstd::arithmetic::div_mod::lemma_fundamental_div_mod_converse(f, w, k as int, f - k * w);
    }
    if q == k {
        assert(k * w <= f < (k + 1) * w) by (nonlinear_arith)
            requires
                f == w * q + r,
                0 <= r < w,
                q == k,
        ;
    }
    if q + 1 > num_buckets && k == num_buckets - 1 {
        assert(false);
    }
}

/// With a known length, the frames of the file fill every bucket in turn:
/// frame `k * frames_per_bucket` starts bucket `k`.
pub proof fn lemma_bucket_starts(total_frames: nat, num_buckets: nat, k: nat)
    requires
        total_frames > 0,
        num_buckets > 0,
        k < num_buckets,
    ensures
        ({
            let fpb = spec_frames_per_bucket(total_frames, num_buckets);
            bucket_of(k * fpb, fpb, num_buckets) == k
        }),
{
    let fpb = spec_frames_per_bucket(total_frames, num_buckets);
    assert(fpb > 0);
    assert((k * fpb) / fpb == k) by (nonlinear_arith)
        requires
            fpb > 0,
    ;
}

// ── Playback position ticks ─────────────────────────────────────────────────

/// After one more sample: the samples counted since the last position tick,
/// and whether a tick is due now (once `samples_per_tick` frames of
/// `channels` samples each have passed; the count then restarts).
pub open spec fn tick_after_sample(since: nat, samples_per_tick: nat, channels: nat) -> (nat, bool) {
    if since + 1 >= samples_per_tick * channels {
        (0, true)
    } else {
        (since + 1, false)
    }
}

pub fn count_sample(since: u64, samples_per_tick: u64, channels: u64) -> (r: (u64, bool))
    requires
        since < u64::MAX,
        samples_per_tick * channels <= u64::MAX,
    ensures
        (r.0 as nat, r.1) == tick_after_sample(since as nat, samples_per_tick as nat, channels as nat),
{
    let n = since + 1;
    if n >= samples_per_tick * channels {
        (0, true)
    } else {
        (n, false)
    }
}

/// The sample count after `k` samples from a fresh start, when ticks come
/// every `period` samples.
pub open spec fn count_after(k: nat, period: nat) -> nat
    decreases k,
{
    if k == 0 {
        0
    } else {
        tick_after_sample(count_after((k - 1) as nat, period), period, 1).0
    }
}

/// Starting from a fresh count, a tick is due exactly at every
/// `period`-th sample: the count is the number of samples since the last
/// multiple of the period.
pub proof fn lemma_ticks_are_periodic(k: nat, period: nat)
    requires
        period > 0,
    ensures
        count_after(k, period) == k % period,
    decreases k,
{
    if k > 0 {
        lemma_ticks_are_periodic((k - 1) as nat, period);
        let prev = ((k - 1) as nat) % period;
        vstd::arithmetic::div_mod::lemma_fundamental_div_mod((k - 1) as int, period as int);
        vstd::arithmetic::div_mod::lemma_fundamental_div_mod(k as int, period as int);
        let q = ((k - 1) as int) / (period as int);
        assert((q + 1) * period == period * q + period) by (nonlinear_arith);
        assert(q * period == period * q) by (nonlinear_arith);
        assert(count_after(k, period) == tick_after_sample(prev, period, 1).0);
        assert(period * 1 == period);
        if prev + 1 >= period {
            vstd::arithmetic::div_mod::lemma_fundamental_div_mod_converse(k as int, period as int, q + 1, 0);
            assert(count_after(k, period) == 0);
            assert(k % period == (k as int) % (period as int));
        } else {
            vstd::arithmetic::div_mod::lemma_fundamental_div_mod_converse(
                k as int,
                period as int,
                q,
                prev + 1int,
            );
            assert(count_after(k, period) == prev + 1);
            assert(k % period == (k as int) % (period as int));
        }
    } else {
        vstd::arithmetic::div_mod::lemma_small_mod(0, period);
    }
}

// ── Buffered frames ─────────────────────────────────────────────────────────

/// Whole frames left in a decoded buffer of `len` samples read up to `pos`,
/// or `None` when it is used up.
pub fn buffered_frames(len: usize, pos: usize, channels: usize) -> (r: Option<usize>)
    requires
        channels > 0,
    ensures
        r == (if pos >= len {
            None
        } else {
            Some(((len - pos) / (channels as int)) as usize)
        }),
{
    let remaining = if len > pos {
        len - pos
    } else {
        0
    };
    if remaining == 0 {
        None
    } else {
        Some(remaining / channels)
    }
}

} // verus!
