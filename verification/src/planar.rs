//! Sample buffers kept per channel ("planar") and interleaved, frame by frame.
use vstd::prelude::*;
use vstd::arithmetic::div_mod::{lemma_fundamental_div_mod, lemma_fundamental_div_mod_converse};

verus! {

/// The contents of the buffers.
pub open spec fn buffers<T>(v: Seq<Vec<T>>) -> Seq<Seq<T>> {
    v.map_values(|b: Vec<T>| b@)
}

/// Buffers that are all `frames` samples long.
pub open spec fn rectangular<T>(p: Seq<Seq<T>>, frames: nat) -> bool {
    forall|c: int| 0 <= c < p.len() ==> (#[trigger] p[c]).len() == frames
}

/// Per-channel buffers `frames` long, interleaved: frame by frame, one sample
/// of each channel in channel order.
pub open spec fn interleaved<T>(p: Seq<Seq<T>>, frames: nat) -> Seq<T> {
    Seq::new(frames * p.len(), |k: int| p[k % (p.len() as int)][k / (p.len() as int)])
}

/// The per-channel buffers of an interleaved buffer of `channels` channels.
pub open spec fn deinterleaved<T>(s: Seq<T>, channels: nat) -> Seq<Seq<T>> {
    Seq::new(
        channels,
        |c: int| Seq::new(s.len() / channels, |i: int| s[i * (channels as int) + c]),
    )
}

/// Sample `c` of frame `i` sits at `i * channels + c`.
pub proof fn lemma_frame_index(i: int, c: int, channels: int)
    requires
        0 <= i,
        0 <= c < channels,
    ensures
        (i * channels + c) / channels == i,
        (i * channels + c) % channels == c,
{
    lemma_fundamental_div_mod_converse(i * channels + c, channels, i, c);
}

/// The samples of frames before `frames` lie before `frames * channels`.
proof fn lemma_frame_bound(i: int, c: int, channels: int, frames: int)
    requires
        0 <= i < frames,
        0 <= c < channels,
    ensures
        0 <= i * channels + c < frames * channels,
        0 <= i * channels,
{
    assert(0 <= i * channels + c < frames * channels) by (nonlinear_arith)
        requires
            0 <= i < frames,
            0 <= c < channels,
    ;
    assert(0 <= i * channels) by (nonlinear_arith)
        requires
            0 <= i,
            0 <= channels,
    ;
}

/// A whole number of frames: the length is the number of frames times the
/// number of channels.
proof fn lemma_whole_frames(len: int, channels: int)
    requires
        channels > 0,
        len >= 0,
        len % channels == 0,
    ensures
        len == (len / channels) * channels,
{
    lemma_fundamental_div_mod(len, channels);
    assert(channels * (len / channels) == (len / channels) * channels) by (nonlinear_arith);
}

/// Interleaves per-channel buffers: frame by frame, one sample of each
/// channel in channel order. `None` where there is no channel, `channels` is
/// not the number of buffers, or the buffers differ in length.
pub fn interleave_planar<T: Copy>(input: &Vec<Vec<T>>, channels: usize) -> (r: Option<Vec<T>>)
    ensures
        r is Some <==> input@.len() > 0 && input@.len() == channels && rectangular(
            buffers(input@),
            input@[0]@.len(),
        ),
        r matches Some(out) ==> out@ == interleaved(buffers(input@), input@[0]@.len()),
{
    if input.len() == 0 {
        return None;
    }
    if input.len() != channels {
        return None;
    }
    let frames = input[0].len();
    let ghost p = buffers(input@);
    let mut c: usize = 1;
    while c < channels
        invariant
            1 <= c <= channels,
            channels == input@.len(),
            p == buffers(input@),
            frames == input@[0]@.len(),
            forall|j: int| 0 <= j < c ==> (#[trigger] p[j]).len() == frames,
        decreases channels - c,
    {
        if input[c].len() != frames {
            assert(p[c as int].len() != frames);
            return None;
        }
        c += 1;
    }
    assert(rectangular(p, frames as nat));
    let mut out: Vec<T> = Vec::new();
    let mut i: usize = 0;
    while i < frames
        invariant
            i <= frames,
            channels == input@.len(),
            channels > 0,
            p == buffers(input@),
            frames == input@[0]@.len(),
            rectangular(p, frames as nat),
            out@.len() == i * channels,
            forall|k: int|
                0 <= k < out@.len() ==> #[trigger] out@[k] == p[k % (channels as int)][k / (
                channels as int)],
        decreases frames - i,
    {
        let mut c: usize = 0;
        while c < channels
            invariant
                i < frames,
                c <= channels,
                channels == input@.len(),
                channels > 0,
                p == buffers(input@),
                frames == input@[0]@.len(),
                rectangular(p, frames as nat),
                out@.len() == i * channels + c,
                forall|k: int|
                    0 <= k < out@.len() ==> #[trigger] out@[k] == p[k % (channels as int)][k / (
                    channels as int)],
            decreases channels - c,
        {
            proof {
                lemma_frame_index(i as int, c as int, channels as int);
                assert(p[c as int].len() == frames);
                assert(p[c as int] == input@[c as int]@);
            }
            let x: T = input[c][i];
            out.push(x);
            c += 1;
        }
        assert(out@.len() == (i + 1) * channels) by (nonlinear_arith)
            requires
                out@.len() == i * channels + channels,
        ;
        i += 1;
    }
    assert(out@ =~= interleaved(p, frames as nat));
    Some(out)
}

/// Splits an interleaved buffer of `channels` channels into one buffer per
/// channel. `None` where there is no channel or the buffer does not hold a
/// whole number of frames.
pub fn deinterleave_to_planar<T: Copy>(input: &Vec<T>, channels: usize) -> (r: Option<Vec<Vec<T>>>)
    ensures
        r is Some <==> channels > 0 && input@.len() % (channels as nat) == 0,
        r matches Some(p) ==> buffers(p@) == deinterleaved(input@, channels as nat),
{
    if channels == 0 {
        return None;
    }
    if input.len() % channels != 0 {
        return None;
    }
    let frames = input.len() / channels;
    proof {
        lemma_whole_frames(input@.len() as int, channels as int);
    }
    assert(input@.len() == frames * channels);
    let n = input.len();
    let ghost d = deinterleaved(input@, channels as nat);
    let mut planar: Vec<Vec<T>> = Vec::new();
    let mut c: usize = 0;
    while c < channels
        invariant
            c <= channels,
            input@.len() == frames * channels,
            n == input@.len(),
            frames == input@.len() / (channels as nat),
            d == deinterleaved(input@, channels as nat),
            planar@.len() == c,
            forall|j: int| 0 <= j < c ==> (#[trigger] planar@[j])@ == d[j],
        decreases channels - c,
    {
        let mut buf: Vec<T> = Vec::new();
        let mut i: usize = 0;
        while i < frames
            invariant
                c < channels,
                i <= frames,
                input@.len() == frames * channels,
                buf@.len() == i,
                n == input@.len(),
                forall|m: int|
                    0 <= m < i ==> #[trigger] buf@[m] == input@[m * (channels as int) + c],
            decreases frames - i,
        {
            proof {
                lemma_frame_bound(i as int, c as int, channels as int, frames as int);
            }
            let x: T = input[i * channels + c];
            buf.push(x);
            i += 1;
        }
        assert(buf@ =~= d[c as int]);
        planar.push(buf);
        c += 1;
    }
    assert(buffers(planar@) =~= d);
    Some(planar)
}

/// Splitting what interleaving gives gives back the buffers.
pub proof fn lemma_deinterleave_interleaved<T>(p: Seq<Seq<T>>, frames: nat)
    requires
        p.len() > 0,
        rectangular(p, frames),
    ensures
        deinterleaved(interleaved(p, frames), p.len()) == p,
{
    let ch = p.len() as int;
    let s = interleaved(p, frames);
    assert(s.len() == frames * ch);
    lemma_fundamental_div_mod_converse(s.len() as int, ch, frames as int, 0);
    let d = deinterleaved(s, p.len());
    assert forall|c: int| 0 <= c < ch implies #[trigger] d[c] =~= p[c] by {
        assert(d[c].len() == frames);
        assert forall|i: int| 0 <= i < frames implies d[c][i] == p[c][i] by {
            lemma_frame_bound(i, c, ch, frames as int);
            lemma_frame_index(i, c, ch);
        }
    }
    assert(d =~= p);
}

/// Interleaving what splitting gives gives back the buffer.
pub proof fn lemma_interleave_deinterleaved<T>(s: Seq<T>, channels: nat)
    requires
        channels > 0,
        s.len() % channels == 0,
    ensures
        interleaved(deinterleaved(s, channels), s.len() / channels) == s,
{
    let ch = channels as int;
    let frames = s.len() / channels;
    lemma_whole_frames(s.len() as int, ch);
    let d = deinterleaved(s, channels);
    let t = interleaved(d, frames);
    assert(t.len() == s.len());
    assert forall|k: int| 0 <= k < s.len() implies t[k] == s[k] by {
        let i = k / ch;
        let c = k % ch;
        assert(k == i * ch + c) by {
            lemma_fundamental_div_mod(k, ch);
            assert(ch * i == i * ch) by (nonlinear_arith);
        }
        assert(0 <= c < ch);
        assert(0 <= i);
        assert(i < frames) by (nonlinear_arith)
            requires
                k == i * ch + c,
                0 <= c,
                k < frames * ch,
                ch > 0,
        ;
    }
    assert(t =~= s);
}

} // verus!
