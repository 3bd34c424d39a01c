//! Moving audio samples between the host's buffers: holding each input
//! sample for `factor` upsampled frames, taking every `factor`-th frame
//! back, and copying one frame between the per-channel buffers and the
//! plugin's channel buffer.
use vstd::prelude::*;

verus! {

/// `row` after each of the first `n` samples of `input` was held for `factor`
/// frames, from frame 0 on.
pub open spec fn held<T>(row: Seq<T>, input: Seq<T>, n: int, factor: int) -> Seq<T> {
    Seq::new(
        row.len(),
        |k: int|
            if k < n * factor {
                input[k / factor]
            } else {
                row[k]
            },
    )
}

/// Writes the first `n_frames` samples of `input` into `row`, each held for
/// `factor` consecutive frames; the rest of `row` is unchanged (all of it,
/// for a factor of 0).
pub fn upsample_row<T: Copy>(row: &mut Vec<T>, input: &[T], n_frames: usize, factor: usize)
    requires
        n_frames <= input@.len(),
        n_frames * factor <= old(row)@.len(),
    ensures
        final(row)@ == held(old(row)@, input@, n_frames as int, factor as int),
{
    let ghost start = row@;
    if factor == 0 {
        assert(row@ =~= held(start, input@, n_frames as int, factor as int));
        return;
    }
    let mut i: usize = 0;
    while i < n_frames
        invariant
            factor > 0,
            i <= n_frames <= input@.len(),
            n_frames * factor <= start.len(),
            row@.len() == start.len(),
            forall|k: int|
                0 <= k < row@.len() ==> #[trigger] row@[k] == if k < i * factor {
                    input@[k / factor as int]
                } else {
                    start[k]
                },
        decreases n_frames - i,
    {
        proof {
            assert((i + 1) * factor <= n_frames * factor) by (nonlinear_arith)
                requires
                    i + 1 <= n_frames,
            ;
        }
        let mut j: usize = 0;
        while j < factor
            invariant
                factor > 0,
                i < n_frames <= input@.len(),
                (i + 1) * factor <= start.len(),
                j <= factor,
                row@.len() == start.len(),
                forall|k: int|
                    0 <= k < row@.len() ==> #[trigger] row@[k] == if k < i * factor + j {
                        input@[k / factor as int]
                    } else {
                        start[k]
                    },
            decreases factor - j,
        {
            let row_len = row.len();
            proof {
                assert(i * factor + j < (i + 1) * factor) by (nonlinear_arith)
                    requires
                        j < factor,
                ;
            }
            let pos = i * factor + j;
            proof {
                assert(pos as int / factor as int == i) by (nonlinear_arith)
                    requires
                        pos == i * factor + j,
                        j < factor,
                        factor > 0,
                ;
            }
            row.set(pos, input[i]);
            j = j + 1;
        }
        proof {
            assert((i + 1) * factor == i * factor + factor) by (nonlinear_arith);
        }
        i = i + 1;
    }
    assert(row@ =~= held(start, input@, n_frames as int, factor as int));
}

/// Every `factor`-th sample of `row`, `n_frames` of them.
pub fn downsample_row<T: Copy>(row: &Vec<T>, n_frames: usize, factor: usize) -> (out: Vec<T>)
    requires
        n_frames == 0 || (n_frames - 1) * factor < row@.len(),
    ensures
        out@.len() == n_frames,
        forall|i: int| 0 <= i < n_frames ==> #[trigger] out@[i] == row@[i * factor as int],
{
    let mut out: Vec<T> = Vec::new();
    let mut i: usize = 0;
    while i < n_frames
        invariant
            i <= n_frames,
            n_frames == 0 || (n_frames - 1) * factor < row@.len(),
            out@.len() == i,
            forall|k: int| 0 <= k < i ==> #[trigger] out@[k] == row@[k * factor as int],
        decreases n_frames - i,
    {
        proof {
            let last: int = n_frames - 1;
            assert(i * factor <= last * factor) by (nonlinear_arith)
                requires
                    i <= last,
            ;
            assert(i * factor < row@.len());
        }
        let row_len = row.len();
        assert(i * factor < row_len);
        out.push(row[i * factor]);
        i = i + 1;
    }
    out
}

/// Holding each sample for `factor` frames and then taking every `factor`-th
/// frame gives back the samples.
pub proof fn law_downsample_upsample<T>(row: Seq<T>, input: Seq<T>, n: int, factor: int)
    requires
        factor > 0,
        0 <= n <= input.len(),
        n * factor <= row.len(),
    ensures
        forall|i: int| 0 <= i < n ==> #[trigger] held(row, input, n, factor)[i * factor] == input[i],
{
    assert forall|i: int| 0 <= i < n implies #[trigger] held(row, input, n, factor)[i * factor]
        == input[i] by {
        assert(i * factor < n * factor && (i * factor) / factor == i && 0 <= i * factor)
            by (nonlinear_arith)
            requires
                0 <= i < n,
                factor > 0,
        ;
    }
}

/// Copies frame `frame` of the first `n` channel buffers into the plugin's channel buffer.
pub fn gather_frame<T: Copy>(samples: &Vec<Vec<T>>, buf: &mut [T; 32], n: usize, frame: usize)
    requires
        n <= 32,
        n <= samples@.len(),
        forall|j: int| 0 <= j < n ==> frame < (#[trigger] samples@[j])@.len(),
    ensures
        forall|j: int| 0 <= j < 32 ==> #[trigger] final(buf)@[j] == if j < n {
            samples@[j]@[frame as int]
        } else {
            old(buf)@[j]
        },
{
    let ghost start = buf@;
    let mut j: usize = 0;
    while j < n
        invariant
            j <= n <= 32,
            n <= samples@.len(),
            forall|k: int| 0 <= k < n ==> frame < (#[trigger] samples@[k])@.len(),
            forall|k: int| 0 <= k < 32 ==> #[trigger] buf@[k] == if k < j {
                samples@[k]@[frame as int]
            } else {
                start[k]
            },
        decreases n - j,
    {
        buf[j] = samples[j][frame];
        j = j + 1;
    }
}

/// Copies the first `n` samples of the plugin's channel buffer into frame
/// `frame` of the channel buffers.
pub fn scatter_frame<T: Copy>(samples: &mut Vec<Vec<T>>, buf: &[T; 32], n: usize, frame: usize)
    requires
        n <= 32,
        n <= old(samples)@.len(),
        forall|j: int| 0 <= j < n ==> frame < (#[trigger] old(samples)@[j])@.len(),
    ensures
        final(samples)@.len() == old(samples)@.len(),
        forall|j: int|
            0 <= j < final(samples)@.len() ==> #[trigger] final(samples)@[j]@ == if j < n {
                old(samples)@[j]@.update(frame as int, buf@[j])
            } else {
                old(samples)@[j]@
            },
{
    let ghost start = samples@;
    let mut j: usize = 0;
    while j < n
        invariant
            j <= n <= 32,
            n <= start.len(),
            samples@.len() == start.len(),
            forall|k: int| 0 <= k < n ==> frame < (#[trigger] start[k])@.len(),
            forall|k: int|
                0 <= k < samples@.len() ==> #[trigger] samples@[k]@ == if k < j {
                    start[k]@.update(frame as int, buf@[k])
                } else {
                    start[k]@
                },
        decreases n - j,
    {
        let mut row: Vec<T> = Vec::new();
        std::mem::swap(&mut row, &mut samples[j]);
        row.set(frame, buf[j]);
        samples.set(j, row);
        j = j + 1;
    }
}


/// `channels` buffers of `frames` samples, all `zero`.
pub fn channel_buffers<T: Copy>(zero: T, channels: usize, frames: usize) -> (b: Vec<Vec<T>>)
    ensures
        b@.len() == channels,
        forall|c: int| 0 <= c < channels ==> (#[trigger] b@[c])@ == Seq::new(frames as nat, |i: int| zero),
{
    let mut row: Vec<T> = Vec::new();
    let mut i: usize = 0;
    while i < frames
        invariant
            i <= frames,
            row@ == Seq::new(i as nat, |k: int| zero),
        decreases frames - i,
    {
        row.push(zero);
        i = i + 1;
        assert(row@ =~= Seq::new(i as nat, |k: int| zero));
    }
    let mut b: Vec<Vec<T>> = Vec::new();
    let mut c: usize = 0;
    while c < channels
        invariant
            c <= channels,
            row@ == Seq::new(frames as nat, |k: int| zero),
            b@.len() == c,
            forall|j: int| 0 <= j < c ==> (#[trigger] b@[j])@ == Seq::new(frames as nat, |k: int| zero),
        decreases channels - c,
    {
        let mut copy: Vec<T> = Vec::new();
        let mut k: usize = 0;
        while k < row.len()
            invariant
                k <= row.len(),
                copy@ == row@.take(k as int),
            decreases row.len() - k,
        {
            copy.push(row[k]);
            k = k + 1;
            assert(copy@ =~= row@.take(k as int));
        }
        assert(row@.take(k as int) =~= row@);
        b.push(copy);
        c = c + 1;
    }
    b
}

/// Writes the first `frames` samples of the first `channels` buffers into the
/// interleaved buffer `spin`: frame `i` of channel `c` goes to `i * channels + c`.
/// The rest of `spin` is unchanged.
pub fn interleave_into<T: Copy>(spin: &mut Vec<T>, samples: &Vec<Vec<T>>, channels: usize, frames: usize)
    requires
        channels <= samples@.len(),
        forall|c: int| 0 <= c < channels ==> frames <= (#[trigger] samples@[c])@.len(),
        frames * channels <= old(spin)@.len(),
    ensures
        final(spin)@.len() == old(spin)@.len(),
        forall|k: int|
            0 <= k < final(spin)@.len() ==> #[trigger] final(spin)@[k] == if k < frames * channels {
                samples@[k % channels as int]@[k / channels as int]
            } else {
                old(spin)@[k]
            },
{
    if channels == 0 {
        return;
    }
    let ghost start = spin@;
    let spin_len = spin.len();
    let mut i: usize = 0;
    let mut pos: usize = 0;
    while i < frames
        invariant
            channels > 0,
            channels <= samples@.len(),
            forall|c: int| 0 <= c < channels ==> frames <= (#[trigger] samples@[c])@.len(),
            frames * channels <= start.len(),
            spin_len == start.len(),
            i <= frames,
            pos == i * channels,
            spin@.len() == start.len(),
            forall|k: int|
                0 <= k < spin@.len() ==> #[trigger] spin@[k] == if k < pos {
                    samples@[k % channels as int]@[k / channels as int]
                } else {
                    start[k]
                },
        decreases frames - i,
    {
        proof {
            assert((i + 1) * channels <= frames * channels) by (nonlinear_arith)
                requires
                    i + 1 <= frames,
            ;
            assert((i + 1) * channels == i * channels + channels) by (nonlinear_arith);
        }
        let mut c: usize = 0;
        while c < channels
            invariant
                channels > 0,
                channels <= samples@.len(),
                forall|j: int| 0 <= j < channels ==> frames <= (#[trigger] samples@[j])@.len(),
                i < frames,
                (i + 1) * channels <= start.len(),
                spin_len == start.len(),
                (i + 1) * channels == i * channels + channels,
                c <= channels,
                pos == i * channels + c,
                spin@.len() == start.len(),
                forall|k: int|
                    0 <= k < spin@.len() ==> #[trigger] spin@[k] == if k < pos {
                        samples@[k % channels as int]@[k / channels as int]
                    } else {
                        start[k]
                    },
            decreases channels - c,
        {
            proof {
                assert(pos as int % channels as int == c && pos as int / channels as int == i)
                    by (nonlinear_arith)
                    requires
                        pos == i * channels + c,
                        c < channels,
                        channels > 0,
                ;
            }
            let x = samples[c][i];
            spin.set(pos, x);
            pos = pos + 1;
            c = c + 1;
        }
        i = i + 1;
    }
}

/// Reads frame `pos` of the first `channels` channels of the interleaved
/// buffer `spout` into the plugin's channel buffer; the rest of it is unchanged.
pub fn read_frame<T: Copy>(spout: &Vec<T>, pos: usize, channels: usize, out: &mut [T; 32])
    requires
        channels <= 32,
        (pos + 1) * channels <= spout@.len(),
    ensures
        forall|c: int| 0 <= c < 32 ==> #[trigger] final(out)@[c] == if c < channels {
            spout@[pos * channels + c]
        } else {
            old(out)@[c]
        },
{
    let ghost start = out@;
    let len = spout.len();
    proof {
        assert((pos + 1) * channels == pos * channels + channels) by (nonlinear_arith);
    }
    let base = pos * channels;
    let mut c: usize = 0;
    while c < channels
        invariant
            channels <= 32,
            base == pos * channels,
            base + channels <= len,
            len == spout@.len(),
            c <= channels,
            forall|k: int| 0 <= k < 32 ==> #[trigger] out@[k] == if k < c {
                spout@[pos * channels + k]
            } else {
                start[k]
            },
        decreases channels - c,
    {
        out[c] = spout[base + c];
        c = c + 1;
    }
}

/// Whether the engine computes its next block at sample `t`: every `ksmps` samples.
pub fn perform_due(t: u64, ksmps: u64) -> (b: bool)
    requires
        ksmps > 0,
    ensures
        b == (t % ksmps == 0),
{
    t % ksmps == 0
}

/// The position of sample `t` in the engine's output buffer of
/// `buffer_size * factor` frames.
pub fn buffer_position(t: u64, buffer_size: u32, factor: u32) -> (p: u64)
    requires
        buffer_size * factor > 0,
        buffer_size * factor <= u32::MAX,
    ensures
        p == t % ((buffer_size * factor) as u64),
        p < buffer_size * factor,
{
    t % ((buffer_size * factor) as u64)
}


/// Whether the host copies input channel `ch` into the channel buffers: the
/// channels up to and including the number of output channels.
pub fn reads_input_channel(ch: usize, num_out_channels: u32) -> (b: bool)
    ensures
        b == (ch <= num_out_channels),
{
    ch <= num_out_channels as usize
}

} // verus!
