//! Taking captured audio apart.

use vstd::prelude::*;

verus! {

/// The samples of one channel of an interleaved block.
pub open spec fn column<T>(interleaved: Seq<T>, channels: nat, frames: nat, ch: int) -> Seq<T> {
    Seq::new(frames, |k: int| interleaved[k * channels + ch])
}

proof fn lemma_in_block(k: int, frames: int, channels: int, ch: int)
    requires
        0 <= k < frames,
        0 <= ch < channels,
    ensures
        0 <= k * channels + ch < frames * channels,
{
    assert(k * channels + ch < frames * channels) by (nonlinear_arith)
        requires
            0 <= k < frames,
            0 <= ch < channels,
    ;
    assert(0 <= k * channels) by (nonlinear_arith)
        requires
            0 <= k,
            0 <= channels,
    ;
}

/// The channels of an interleaved block, one after the other.
pub fn deinterleave<T: Copy>(interleaved: &Vec<T>, channels: usize, frames: usize) -> (r: Vec<Vec<T>>)
    requires
        frames * channels <= interleaved@.len(),
    ensures
        r@.len() == channels,
        forall|ch: int|
            0 <= ch < channels ==> (#[trigger] r@[ch])@ == column(
                interleaved@,
                channels as nat,
                frames as nat,
                ch,
            ),
{
    let mut out: Vec<Vec<T>> = Vec::new();
    let total: usize = interleaved.len();
    for ch in 0..channels
        invariant
            frames * channels <= total,
            total == interleaved@.len(),
            out@.len() == ch,
            forall|c: int|
                0 <= c < ch ==> (#[trigger] out@[c])@ == column(
                    interleaved@,
                    channels as nat,
                    frames as nat,
                    c,
                ),
    {
        let mut samples: Vec<T> = Vec::new();
        for k in 0..frames
            invariant
                ch < channels,
                frames * channels <= total,
                total == interleaved@.len(),
                samples@.len() == k,
                forall|j: int|
                    0 <= j < k ==> #[trigger] samples@[j] == interleaved@[j * channels + ch],
        {
            proof {
                lemma_in_block(k as int, frames as int, channels as int, ch as int);
            }
            samples.push(interleaved[k * channels + ch]);
        }
        assert(samples@ =~= column(interleaved@, channels as nat, frames as nat, ch as int));
        out.push(samples);
    }
    out
}

/// The samples of a captured channel; silence where the device does not have the channel.
pub open spec fn picked<T>(planar: Seq<Vec<T>>, ch: u8, frames: nat, silence: T) -> Seq<T> {
    if ch < planar.len() {
        planar[ch as int]@
    } else {
        Seq::new(frames, |k: int| silence)
    }
}

/// The channels of a Sink, by its map of channels of the device.
pub fn pick_channels<T: Copy>(planar: &Vec<Vec<T>>, map: &Vec<u8>, frames: usize, silence: T) -> (r:
    Vec<Vec<T>>)
    ensures
        r@.len() == map@.len(),
        forall|i: int|
            0 <= i < r@.len() ==> (#[trigger] r@[i])@ == picked(
                planar@,
                map@[i],
                frames as nat,
                silence,
            ),
{
    let mut out: Vec<Vec<T>> = Vec::new();
    for i in 0..map.len()
        invariant
            out@.len() == i,
            forall|k: int|
                0 <= k < i ==> (#[trigger] out@[k])@ == picked(
                    planar@,
                    map@[k],
                    frames as nat,
                    silence,
                ),
    {
        let ch: usize = map[i] as usize;
        let mut samples: Vec<T> = Vec::new();
        if ch < planar.len() {
            let n: usize = planar[ch].len();
            for k in 0..n
                invariant
                    ch < planar@.len(),
                    n == planar@[ch as int]@.len(),
                    samples@ == planar@[ch as int]@.take(k as int),
            {
                samples.push(planar[ch][k]);
                assert(samples@ =~= planar@[ch as int]@.take(k + 1));
            }
            assert(samples@ =~= planar@[ch as int]@);
        } else {
            for k in 0..frames
                invariant
                    samples@ == Seq::new(k as nat, |j: int| silence),
            {
                samples.push(silence);
                assert(samples@ =~= Seq::new((k + 1) as nat, |j: int| silence));
            }
        }
        out.push(samples);
    }
    out
}

} // verus!
