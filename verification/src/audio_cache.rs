//! The file format of the rendered-audio cache: a magic tag, a version, the
//! sample rate, the channel count and the sample count, then the samples as
//! 32-bit floats, all little-endian. Samples are handled as the bit patterns
//! of their floats.
use vstd::prelude::*;
use crate::text::{int_text, push_int, push_str, string_of};

verus! {

/// The name of the cache file of the music rendered at the speed whose
/// float has the bits `speed_bits`, with or without its pitch kept.
pub open spec fn variant_file_name(speed_bits: u64, fix_pitch: bool) -> Seq<char> {
    "music_speed"@ + int_text(speed_bits as int) + "_fix"@ + (if fix_pitch {
        "1"@
    } else {
        "0"@
    }) + ".bin"@
}

/// The file name under which the cache keeps a rendered variant of the
/// music: `music_speed{bits}_fix{1|0}.bin`.
pub fn variant_cache_file_name(speed_bits: u64, fix_pitch: bool) -> (r: String)
    ensures
        r@ == variant_file_name(speed_bits, fix_pitch),
{
    let mut out: Vec<char> = Vec::new();
    push_str(&mut out, "music_speed");
    push_int(&mut out, speed_bits as i128);
    push_str(&mut out, "_fix");
    if fix_pitch {
        push_str(&mut out, "1");
    } else {
        push_str(&mut out, "0");
    }
    push_str(&mut out, ".bin");
    string_of(&out)
}

/// The powers of 256.
pub open spec fn pow256(n: nat) -> nat
    decreases n,
{
    if n == 0 {
        1
    } else {
        256 * pow256((n - 1) as nat)
    }
}

/// The `n` little-endian bytes of `x` (of `x` modulo `256^n`).
pub open spec fn le_bytes(x: nat, n: nat) -> Seq<u8>
    decreases n,
{
    if n == 0 {
        seq![]
    } else {
        seq![(x % 256) as u8] + le_bytes(x / 256, (n - 1) as nat)
    }
}

/// The number that little-endian bytes write.
pub open spec fn le_value(b: Seq<u8>) -> nat
    decreases b.len(),
{
    if b.len() == 0 {
        0
    } else {
        b[0] as nat + 256 * le_value(b.drop_first())
    }
}

pub proof fn lemma_le_bytes_len(x: nat, n: nat)
    ensures
        le_bytes(x, n).len() == n,
    decreases n,
{
    if n > 0 {
        lemma_le_bytes_len(x / 256, (n - 1) as nat);
    }
}

/// Reading the little-endian bytes of a number that fits gives it back.
pub proof fn lemma_le_roundtrip(x: nat, n: nat)
    requires
        x < pow256(n),
    ensures
        le_value(le_bytes(x, n)) == x,
    decreases n,
{
    if n > 0 {
        let p = pow256((n - 1) as nat);
        assert(x / 256 < p) by (nonlinear_arith)
            requires
                x < 256 * p,
        ;
        lemma_le_roundtrip(x / 256, (n - 1) as nat);
        let b = le_bytes(x, n);
        assert(b.drop_first() =~= le_bytes(x / 256, (n - 1) as nat));
    }
}

/// What `n` bytes write is below `256^n`.
pub proof fn lemma_le_value_bound(b: Seq<u8>)
    ensures
        le_value(b) < pow256(b.len()),
    decreases b.len(),
{
    if b.len() > 0 {
        lemma_le_value_bound(b.drop_first());
        let v = le_value(b.drop_first());
        let p = pow256((b.len() - 1) as nat);
        assert(b[0] as nat + 256 * v < 256 * p) by (nonlinear_arith)
            requires
                v < p,
                b[0] < 256,
        ;
    }
}

proof fn lemma_pow256_values()
    ensures
        pow256(4) == 0x1_0000_0000,
        pow256(8) == 0x1_0000_0000_0000_0000,
{
    reveal_with_fuel(pow256, 9);
}

/// The tag that starts a cache file: `OEAU`.
pub open spec fn cache_magic() -> Seq<u8> {
    seq![0x4Fu8, 0x45u8, 0x41u8, 0x55u8]
}

/// The version of the format.
pub const CACHE_VERSION: u32 = 1;

/// The bytes of the samples, four each.
pub open spec fn samples_bytes(samples: Seq<u32>) -> Seq<u8>
    decreases samples.len(),
{
    if samples.len() == 0 {
        seq![]
    } else {
        samples_bytes(samples.drop_last()) + le_bytes(samples.last() as nat, 4)
    }
}

/// A cache file: magic, version, sample rate, channels and sample count, then
/// the samples.
pub open spec fn cache_bytes(sample_rate: u32, channels: u32, samples: Seq<u32>) -> Seq<u8> {
    cache_magic() + le_bytes(CACHE_VERSION as nat, 4) + le_bytes(sample_rate as nat, 4) + le_bytes(
        channels as nat,
        4,
    ) + le_bytes(samples.len(), 8) + samples_bytes(samples)
}

/// Rendered audio as the cache holds it.
#[derive(Clone, Debug, PartialEq)]
pub struct CachedAudio {
    pub sample_rate: u32,
    pub channels: usize,
    /// The bits of the interleaved 32-bit float samples.
    pub samples: Vec<u32>,
}

fn push_le(out: &mut Vec<u8>, x: u64, n: usize)
    requires
        n <= 8,
    ensures
        final(out)@ == old(out)@ + le_bytes(x as nat, n as nat),
{
    let ghost start = out@;
    let mut v = x;
    let mut i: usize = 0;
    while i < n
        invariant
            i <= n,
            n <= 8,
            out@ + le_bytes(v as nat, (n - i) as nat) == start + le_bytes(x as nat, n as nat),
        decreases n - i,
    {
        let ghost before = out@;
        assert(le_bytes(v as nat, (n - i) as nat) =~= seq![(v % 256) as u8] + le_bytes(
            (v / 256) as nat,
            (n - i - 1) as nat,
        ));
        out.push((v % 256) as u8);
        assert(before + le_bytes(v as nat, (n - i) as nat) =~= out@ + le_bytes(
            (v / 256) as nat,
            (n - i - 1) as nat,
        ));
        v = v / 256;
        i += 1;
    }
    assert(le_bytes(v as nat, 0) =~= Seq::<u8>::empty());
    assert(out@ =~= start + le_bytes(x as nat, n as nat));
}

/// Writes rendered audio in the cache format. The channel count is written as
/// a `u32` (truncated).
pub fn encode_cached_audio(audio: &CachedAudio) -> (r: Vec<u8>)
    ensures
        r@ == cache_bytes(audio.sample_rate, audio.channels as u32, audio.samples@),
{
    let mut out: Vec<u8> = Vec::new();
    out.push(0x4F);
    out.push(0x45);
    out.push(0x41);
    out.push(0x55);
    assert(out@ =~= cache_magic());
    push_le(&mut out, CACHE_VERSION as u64, 4);
    push_le(&mut out, audio.sample_rate as u64, 4);
    push_le(&mut out, (audio.channels as u32) as u64, 4);
    push_le(&mut out, audio.samples.len() as u64, 8);
    let ghost head = out@;
    let mut i: usize = 0;
    while i < audio.samples.len()
        invariant
            i <= audio.samples.len(),
            out@ == head + samples_bytes(audio.samples@.take(i as int)),
        decreases audio.samples.len() - i,
    {
        let ghost before = out@;
        push_le(&mut out, audio.samples[i] as u64, 4);
        assert(audio.samples@.take(i + 1).drop_last() =~= audio.samples@.take(i as int));
        assert(out@ =~= head + samples_bytes(audio.samples@.take(i + 1)));
        i += 1;
    }
    assert(audio.samples@.take(i as int) =~= audio.samples@);
    assert(out@ =~= cache_bytes(audio.sample_rate, audio.channels as u32, audio.samples@));
    out
}

fn read_le(b: &Vec<u8>, at: usize, n: usize) -> (r: u64)
    requires
        n <= 8,
        at + n <= b.len(),
    ensures
        r as nat == le_value(b@.subrange(at as int, at + n)),
{
    let ghost s = b@.subrange(at as int, at + n);
    let mut v: u64 = 0;
    let mut k = n;
    proof {
        lemma_pow256_values();
    }
    while k > 0
        invariant
            k <= n,
            n <= 8,
            at + n <= b.len(),
            s == b@.subrange(at as int, at + n),
            v as nat == le_value(s.skip(k as int)),
            pow256(8) == 0x1_0000_0000_0000_0000,
        decreases k,
    {
        let ghost rest = s.skip(k as int);
        let ghost longer = s.skip(k - 1);
        assert(longer.drop_first() =~= rest);
        assert(longer[0] == b@[at + k - 1]);
        proof {
            lemma_le_value_bound(longer);
            lemma_pow_mono(longer.len(), 8);
        }
        v = v * 256 + b[at + k - 1] as u64;
        k -= 1;
    }
    assert(s.skip(0) =~= s);
    v
}

proof fn lemma_pow_mono(a: nat, b: nat)
    requires
        a <= b,
    ensures
        pow256(a) <= pow256(b),
    decreases b,
{
    if a < b {
        lemma_pow_mono(a, (b - 1) as nat);
    }
}

/// The value of the little-endian field of `n` bytes at `at`.
pub open spec fn field_at(b: Seq<u8>, at: int, n: int) -> nat {
    le_value(b.subrange(at, at + n))
}

/// A cache file is accepted: its header is whole, its tag and version are
/// right, its channel count is not zero, and it holds all its samples.
pub open spec fn cache_accepted(b: Seq<u8>) -> bool {
    &&& b.len() >= 24
    &&& b.subrange(0, 4) == cache_magic()
    &&& field_at(b, 4, 4) == CACHE_VERSION
    &&& field_at(b, 12, 4) != 0
    &&& b.len() >= 24 + 4 * field_at(b, 16, 8)
}

/// Reads a cache file; `None` where it is not accepted.
pub fn decode_cached_audio(bytes: &Vec<u8>) -> (r: Option<CachedAudio>)
    ensures
        r is Some <==> cache_accepted(bytes@),
        r matches Some(a) ==> {
            &&& a.sample_rate == field_at(bytes@, 8, 4)
            &&& a.channels == field_at(bytes@, 12, 4)
            &&& a.samples.len() == field_at(bytes@, 16, 8)
            &&& forall|i: int|
                0 <= i < a.samples.len() ==> #[trigger] a.samples@[i] == field_at(
                    bytes@,
                    24 + 4 * i,
                    4,
                )
        },
{
    if bytes.len() < 24 {
        return None;
    }
    if !(bytes[0] == 0x4F && bytes[1] == 0x45 && bytes[2] == 0x41 && bytes[3] == 0x55) {
        proof {
            if bytes@.subrange(0, 4) == cache_magic() {
                assert(bytes@.subrange(0, 4)[0] == bytes@[0]);
                assert(bytes@.subrange(0, 4)[1] == bytes@[1]);
                assert(bytes@.subrange(0, 4)[2] == bytes@[2]);
                assert(bytes@.subrange(0, 4)[3] == bytes@[3]);
            }
        }
        return None;
    }
    assert(bytes@.subrange(0, 4) =~= cache_magic());
    let version = read_le(bytes, 4, 4);
    if version != CACHE_VERSION as u64 {
        return None;
    }
    proof {
        lemma_le_value_bound(bytes@.subrange(8, 12));
        lemma_le_value_bound(bytes@.subrange(12, 16));
        lemma_pow256_values();
    }
    let sample_rate = read_le(bytes, 8, 4) as u32;
    let channels = read_le(bytes, 12, 4);
    let samples_len = read_le(bytes, 16, 8);
    if channels == 0 {
        return None;
    }
    let available = (bytes.len() - 24) / 4;
    if samples_len > available as u64 {
        return None;
    }
    let n = samples_len as usize;
    let mut samples: Vec<u32> = Vec::new();
    let mut i: usize = 0;
    while i < n
        invariant
            i <= n,
            n == field_at(bytes@, 16, 8),
            24 + 4 * n <= bytes.len(),
            samples.len() == i,
            pow256(4) == 0x1_0000_0000,
            forall|k: int| 0 <= k < i ==> #[trigger] samples@[k] == field_at(bytes@, 24 + 4 * k, 4),
        decreases n - i,
    {
        let at = 24 + 4 * i;
        proof {
            lemma_le_value_bound(bytes@.subrange(at as int, at + 4));
        }
        let s = read_le(bytes, at, 4) as u32;
        samples.push(s);
        i += 1;
    }
    Some(CachedAudio { sample_rate, channels: channels as usize, samples })
}

/// The samples' bytes are four per sample, in order.
proof fn lemma_samples_bytes(samples: Seq<u32>)
    ensures
        samples_bytes(samples).len() == 4 * samples.len(),
        forall|i: int|
            0 <= i < samples.len() ==> #[trigger] samples_bytes(samples).subrange(4 * i, 4 * i + 4)
                == le_bytes(samples[i] as nat, 4),
    decreases samples.len(),
{
    if samples.len() > 0 {
        let init = samples.drop_last();
        lemma_samples_bytes(init);
        lemma_le_bytes_len(samples.last() as nat, 4);
        let all = samples_bytes(samples);
        assert forall|i: int| 0 <= i < samples.len() implies #[trigger] all.subrange(
            4 * i,
            4 * i + 4,
        ) == le_bytes(samples[i] as nat, 4) by {
            if i < init.len() {
                assert(all.subrange(4 * i, 4 * i + 4) =~= samples_bytes(init).subrange(
                    4 * i,
                    4 * i + 4,
                ));
                assert(init[i] == samples[i]);
            } else {
                assert(all.subrange(4 * i, 4 * i + 4) =~= le_bytes(samples.last() as nat, 4));
            }
        }
    }
}

/// Reading a cache file gives back the audio it was written from, where the
/// audio has at least one channel and its channel count fits a `u32`.
pub proof fn lemma_cache_roundtrip(sample_rate: u32, channels: u32, samples: Seq<u32>)
    requires
        channels != 0,
        samples.len() < pow256(8),
    ensures
        ({
            let b = cache_bytes(sample_rate, channels, samples);
            &&& cache_accepted(b)
            &&& field_at(b, 8, 4) == sample_rate
            &&& field_at(b, 12, 4) == channels
            &&& field_at(b, 16, 8) == samples.len()
            &&& forall|i: int|
                0 <= i < samples.len() ==> #[trigger] field_at(b, 24 + 4 * i, 4) == samples[i]
        }),
{
    let b = cache_bytes(sample_rate, channels, samples);
    lemma_pow256_values();
    lemma_le_bytes_len(CACHE_VERSION as nat, 4);
    lemma_le_bytes_len(sample_rate as nat, 4);
    lemma_le_bytes_len(channels as nat, 4);
    lemma_le_bytes_len(samples.len(), 8);
    lemma_samples_bytes(samples);
    lemma_le_roundtrip(CACHE_VERSION as nat, 4);
    lemma_le_roundtrip(sample_rate as nat, 4);
    lemma_le_roundtrip(channels as nat, 4);
    lemma_le_roundtrip(samples.len(), 8);
    assert(b.subrange(0, 4) =~= cache_magic());
    assert(b.subrange(4, 8) =~= le_bytes(CACHE_VERSION as nat, 4));
    assert(b.subrange(8, 12) =~= le_bytes(sample_rate as nat, 4));
    assert(b.subrange(12, 16) =~= le_bytes(channels as nat, 4));
    assert(b.subrange(16, 24) =~= le_bytes(samples.len(), 8));
    let body = samples_bytes(samples);
    assert forall|i: int| 0 <= i < samples.len() implies #[trigger] field_at(b, 24 + 4 * i, 4)
        == samples[i] by {
        assert(b.subrange(24 + 4 * i, 24 + 4 * i + 4) =~= body.subrange(4 * i, 4 * i + 4));
        lemma_le_roundtrip(samples[i] as nat, 4);
    }
}

} // verus!
