//! The integer side of the audio engine's clock and music queue: how many
//! frames to keep queued, how far playback has got between two callbacks of
//! the output device, and which block of the song to queue next.
use vstd::prelude::*;

verus! {

/// How the audio engine is set up.
#[derive(Clone, Copy, Debug)]
pub struct AudioEngineConfig {
    /// How much audio to keep queued, in milliseconds.
    pub queue_ms: u32,
    /// Preferred callback buffer size (frames).
    pub preferred_buffer_frames: u32,
    /// Whether to keep the pitch when the playback rate changes.
    pub fix_pitch: bool,
}

impl Default for AudioEngineConfig {
    fn default() -> (r: Self)
        ensures
            r.queue_ms == 60,
            r.preferred_buffer_frames == 128,
            !r.fix_pitch,
    {
        AudioEngineConfig { queue_ms: 60, preferred_buffer_frames: 128, fix_pitch: false }
    }
}

/// The frames that `queue_ms` milliseconds hold at `sample_rate`, and at
/// least 256.
pub open spec fn queue_frames_of(sample_rate: u32, queue_ms: u32) -> int {
    let f = (sample_rate as int) * (queue_ms as int) / 1000;
    if f < 256 {
        256
    } else {
        f
    }
}

/// The depth of the music queue, in frames.
pub fn queue_frames(sample_rate: u32, queue_ms: u32) -> (r: u64)
    ensures
        r == queue_frames_of(sample_rate, queue_ms),
        r >= 256,
{
    assert((sample_rate as u64) * (queue_ms as u64) <= 0xffff_ffff * 0xffff_ffff) by (nonlinear_arith);
    let product = (sample_rate as u64) * (queue_ms as u64);
    let f = product / 1000;
    if f < 256 {
        256
    } else {
        f
    }
}

/// A duration in nanoseconds, as a `u64`: `u64::MAX` where it is larger.
pub open spec fn clamped_nanos(n: u128) -> u64 {
    if n > u64::MAX as u128 {
        u64::MAX
    } else {
        n as u64
    }
}

/// Clamps a nanosecond count to `u64`.
pub fn clamp_nanos(n: u128) -> (r: u64)
    ensures
        r == clamped_nanos(n),
{
    if n > u64::MAX as u128 {
        u64::MAX
    } else {
        n as u64
    }
}

#[verifier::external_type_specification]
#[verifier::external_body]
pub struct ExInstant(std::time::Instant);

/// `Instant::elapsed`: the time since `start`. It depends on the clock, so
/// nothing is stated of it.
#[verifier::external_body]
fn instant_elapsed(start: &std::time::Instant) -> std::time::Duration {
    start.elapsed()
}

/// `Duration::as_nanos`: the whole nanoseconds of a duration. A `Duration` is
/// opaque here, so nothing is stated of the count.
#[verifier::external_body]
fn duration_nanos(d: &std::time::Duration) -> u128 {
    d.as_nanos()
}

/// The nanoseconds since `start_instant`, clamped to `u64` by `clamp_nanos`.
/// The count is the clock's, so nothing is stated of the result.
pub fn now_ns(start_instant: &std::time::Instant) -> (r: u64) {
    let elapsed = instant_elapsed(start_instant);
    let n = duration_nanos(&elapsed);
    clamp_nanos(n)
}

/// `a * b`, or `u64::MAX` where that does not fit.
pub open spec fn mul_sat(a: u64, b: u64) -> u64 {
    if a * b > u64::MAX {
        u64::MAX
    } else {
        (a * b) as u64
    }
}

/// `a + b`, or `u64::MAX` where that does not fit.
pub open spec fn add_sat(a: u64, b: u64) -> u64 {
    if a + b > u64::MAX {
        u64::MAX
    } else {
        (a + b) as u64
    }
}

/// The played frame count, moved on by the time since the last device
/// callback: where the clock has not gone back since that callback, the
/// frames the callback had played plus those the elapsed nanoseconds hold at
/// `sample_rate` (saturating), or the reported count where that is larger.
pub open spec fn interpolated_frames(
    played: u64,
    running: bool,
    last_callback_frames: u64,
    last_callback_ns: u64,
    now_ns: u64,
    sample_rate: u32,
) -> u64 {
    if running && now_ns >= last_callback_ns {
        let dt = (now_ns - last_callback_ns) as u64;
        let moved = add_sat(last_callback_frames, mul_sat(dt, sample_rate as u64) / 1_000_000_000);
        if moved > played {
            moved
        } else {
            played
        }
    } else {
        played
    }
}

/// The frame that playback has reached, between two device callbacks.
/// `running` is whether the engine plays and the device callback has started.
pub fn interpolate_played_frames(
    played: u64,
    running: bool,
    last_callback_frames: u64,
    last_callback_ns: u64,
    now_ns: u64,
    sample_rate: u32,
) -> (r: u64)
    ensures
        r == interpolated_frames(
            played,
            running,
            last_callback_frames,
            last_callback_ns,
            now_ns,
            sample_rate,
        ),
        r >= played,
{
    let mut played_interp = played;
    if running && now_ns >= last_callback_ns {
        let dt_ns = now_ns - last_callback_ns;
        let sr = sample_rate as u64;
        let scaled = match dt_ns.checked_mul(sr) {
            Some(p) => p,
            None => u64::MAX,
        };
        let add_frames = scaled / 1_000_000_000u64;
        let moved = last_callback_frames.saturating_add(add_frames);
        if moved > played_interp {
            played_interp = moved;
        }
    }
    played_interp
}

/// The frames of the song played since the frame where map time 0 lies: the
/// difference, or 0 before that frame.
pub fn frames_since_origin(played: u64, origin: u64) -> (r: u64)
    ensures
        r == (if played >= origin {
            played - origin
        } else {
            0
        }),
{
    played.saturating_sub(origin)
}

/// The next block of the song to queue: where it starts in the song and how
/// many frames it has. `None` where the queue is full or the song is over.
/// The queue holds `occupied` frames of `target`; the device has played up to
/// frame `played_abs`, and map time 0 lies at frame `origin_abs`; the song has
/// `song_frames` frames. A block has at most 1024 frames.
pub open spec fn next_block(
    occupied: nat,
    target: nat,
    played_abs: nat,
    origin_abs: nat,
    song_frames: nat,
) -> Option<(nat, nat)> {
    let cursor = played_abs + occupied;
    let rel: nat = if cursor >= origin_abs {
        (cursor - origin_abs) as nat
    } else {
        0
    };
    let available: nat = if song_frames >= rel {
        (song_frames - rel) as nat
    } else {
        0
    };
    if occupied >= target || available == 0 {
        None
    } else {
        let want = (target - occupied) as nat;
        let n = if want < 1024 {
            want
        } else {
            1024
        };
        Some((rel, if n < available { n } else { available }))
    }
}

/// Picks the next block of the song to queue (see `next_block`).
pub fn music_block(
    occupied: usize,
    target: usize,
    played_abs: u64,
    origin_abs: u64,
    song_frames: usize,
) -> (r: Option<(usize, usize)>)
    requires
        played_abs + occupied <= u64::MAX,
    ensures
        r matches Some((start, len)) ==> next_block(
            occupied as nat,
            target as nat,
            played_abs as nat,
            origin_abs as nat,
            song_frames as nat,
        ) == Some((start as nat, len as nat)),
        r is None ==> next_block(
            occupied as nat,
            target as nat,
            played_abs as nat,
            origin_abs as nat,
            song_frames as nat,
        ) is None,
        r matches Some((start, len)) ==> 0 < len <= 1024 && start + len <= song_frames,
{
    if occupied >= target {
        return None;
    }
    let cursor = played_abs + occupied as u64;
    let rel64 = cursor.saturating_sub(origin_abs);
    if rel64 >= song_frames as u64 {
        return None;
    }
    let rel = rel64 as usize;
    let available = song_frames - rel;
    let want = target - occupied;
    let mut n = if want < 1024 {
        want
    } else {
        1024
    };
    if available < n {
        n = available;
    }
    Some((rel, n))
}

/// How a hitsound voice plays into a block of `block_frames` frames that
/// starts at output frame `block_start`: the voice starts at output frame
/// `voice_start`, has played `frame_pos` of its `voice_frames` frames, and
/// catches up to where the block starts where it is behind. The result is the
/// voice's position after catching up, and, where it has frames to play in
/// this block, the frame of the block it starts at and how many it plays.
pub open spec fn voice_span(
    block_start: u64,
    block_frames: usize,
    voice_start: u64,
    frame_pos: usize,
    voice_frames: usize,
) -> (usize, Option<(usize, usize)>) {
    let behind = (if block_start >= voice_start {
        (block_start - voice_start) as u64
    } else {
        0u64
    }) as usize;
    let pos = if behind > frame_pos {
        behind
    } else {
        frame_pos
    };
    let offset = (if voice_start > block_start {
        (voice_start - block_start) as u64
    } else {
        0u64
    }) as usize;
    if offset >= block_frames {
        (pos, None)
    } else {
        let room = (block_frames - offset) as usize;
        let left = (if voice_frames >= pos {
            voice_frames - pos
        } else {
            0
        }) as usize;
        let n = if room < left {
            room
        } else {
            left
        };
        if n == 0 {
            (pos, None)
        } else {
            (pos, Some((offset, n)))
        }
    }
}

/// Where a hitsound voice plays into a block (see `voice_span`).
pub fn voice_block(
    block_start: u64,
    block_frames: usize,
    voice_start: u64,
    frame_pos: usize,
    voice_frames: usize,
) -> (r: (usize, Option<(usize, usize)>))
    ensures
        r == voice_span(block_start, block_frames, voice_start, frame_pos, voice_frames),
        r.1 matches Some((offset, n)) ==> 0 < n && offset + n <= block_frames && r.0 + n
            <= voice_frames,
{
    let behind = block_start.saturating_sub(voice_start) as usize;
    let pos = if behind > frame_pos {
        behind
    } else {
        frame_pos
    };
    let offset = if voice_start > block_start {
        (voice_start - block_start) as usize
    } else {
        0
    };
    if offset >= block_frames {
        return (pos, None);
    }
    let room = block_frames - offset;
    let left = voice_frames.saturating_sub(pos);
    let n = if room < left {
        room
    } else {
        left
    };
    if n == 0 {
        (pos, None)
    } else {
        (pos, Some((offset, n)))
    }
}

/// The sample format of an output configuration, as far as the choice of a
/// configuration tells formats apart.
#[derive(Clone, Copy, Debug, PartialEq, Eq, Structural)]
pub enum OutputFormat {
    F32,
    I16,
    U16,
    Other,
}

/// A range of output configurations that the device supports.
#[derive(Clone, Copy, Debug)]
pub struct ConfigRange {
    pub min_sample_rate: u32,
    pub max_sample_rate: u32,
    pub channels: u16,
    pub format: OutputFormat,
    /// The range of callback buffer sizes in frames, where the backend gives one.
    pub buffer_frames: Option<(u32, u32)>,
}

/// Formats ranked, lower first: `f32`, then `i16`, then `u16`, then the rest.
pub open spec fn format_score(f: OutputFormat) -> int {
    match f {
        OutputFormat::F32 => 0,
        OutputFormat::I16 => 1,
        OutputFormat::U16 => 2,
        OutputFormat::Other => 3,
    }
}

/// The range takes the preferred sample rate.
pub open spec fn takes_rate(r: ConfigRange, rate: u32) -> bool {
    r.min_sample_rate <= rate <= r.max_sample_rate
}

/// `a` ranks before `b`: it takes the preferred rate where `b` does not, or
/// else has two channels where `b` has not, or else a better format; lower
/// scores first, compared in that order.
pub open spec fn ranks_before(a: ConfigRange, b: ConfigRange, rate: u32) -> bool {
    let ra = if takes_rate(a, rate) { 0int } else { 1 };
    let rb = if takes_rate(b, rate) { 0int } else { 1 };
    let ca = if a.channels == 2 { 0int } else { 1 };
    let cb = if b.channels == 2 { 0int } else { 1 };
    ||| ra < rb
    ||| ra == rb && ca < cb
    ||| ra == rb && ca == cb && format_score(a.format) < format_score(b.format)
}

/// Range `i` is the first of the best: every range before it ranks after it,
/// and none after it ranks before it.
pub open spec fn first_best(ranges: Seq<ConfigRange>, rate: u32, i: int) -> bool {
    &&& 0 <= i < ranges.len()
    &&& forall|j: int| 0 <= j < i ==> ranks_before(ranges[i], #[trigger] ranges[j], rate)
    &&& forall|j: int| i < j < ranges.len() ==> !ranks_before(#[trigger] ranges[j], ranges[i], rate)
}

fn format_rank(f: OutputFormat) -> (r: u8)
    ensures
        r == format_score(f),
{
    match f {
        OutputFormat::F32 => 0,
        OutputFormat::I16 => 1,
        OutputFormat::U16 => 2,
        OutputFormat::Other => 3,
    }
}

fn range_ranks_before(a: &ConfigRange, b: &ConfigRange, rate: u32) -> (r: bool)
    ensures
        r == ranks_before(*a, *b, rate),
{
    let ra: u8 = if a.min_sample_rate <= rate && rate <= a.max_sample_rate { 0 } else { 1 };
    let rb: u8 = if b.min_sample_rate <= rate && rate <= b.max_sample_rate { 0 } else { 1 };
    let ca: u8 = if a.channels == 2 { 0 } else { 1 };
    let cb: u8 = if b.channels == 2 { 0 } else { 1 };
    ra < rb || (ra == rb && ca < cb) || (ra == rb && ca == cb && format_rank(a.format) < format_rank(
        b.format,
    ))
}

/// Chooses the output configuration: the first of the best-ranked ranges
/// (see `ranks_before`), with the preferred sample rate where it takes it and
/// its highest rate otherwise. `None` where the device offers none.
pub fn choose_stream_range(ranges: &Vec<ConfigRange>, preferred_sample_rate: u32) -> (r: Option<(usize, u32)>)
    ensures
        r is None <==> ranges.len() == 0,
        r matches Some((i, rate)) ==> first_best(ranges@, preferred_sample_rate, i as int) && rate == (
        if takes_rate(ranges@[i as int], preferred_sample_rate) {
            preferred_sample_rate
        } else {
            ranges@[i as int].max_sample_rate
        }),
{
    if ranges.len() == 0 {
        return None;
    }
    let mut best: usize = 0;
    let mut k: usize = 1;
    while k < ranges.len()
        invariant
            0 <= best < k <= ranges.len(),
            forall|j: int| 0 <= j < best ==> ranks_before(
                ranges@[best as int],
                #[trigger] ranges@[j],
                preferred_sample_rate,
            ),
            forall|j: int| best < j < k ==> !ranks_before(
                #[trigger] ranges@[j],
                ranges@[best as int],
                preferred_sample_rate,
            ),
        decreases ranges.len() - k,
    {
        if range_ranks_before(&ranges[k], &ranges[best], preferred_sample_rate) {
            proof {
                assert forall|j: int| 0 <= j < k implies ranks_before(
                    ranges@[k as int],
                    #[trigger] ranges@[j],
                    preferred_sample_rate,
                ) by {
                    if j != best {
                        assert(j < best ==> ranks_before(ranges@[best as int], ranges@[j], preferred_sample_rate));
                        assert(j > best ==> !ranks_before(ranges@[j], ranges@[best as int], preferred_sample_rate));
                    }
                }
            }
            best = k;
        }
        k += 1;
    }
    let r = &ranges[best];
    let rate = if r.min_sample_rate <= preferred_sample_rate && preferred_sample_rate <= r.max_sample_rate {
        preferred_sample_rate
    } else {
        r.max_sample_rate
    };
    Some((best, rate))
}

/// The callback buffer size to ask for: the preferred size clamped into the
/// range's buffer sizes, where the backend gives a range (`u32::clamp`, which
/// panics where the range is empty, so `requires` leaves that out).
pub fn buffer_frames_for(range: &ConfigRange, preferred: u32) -> (r: Option<u32>)
    requires
        range.buffer_frames matches Some((lo, hi)) ==> lo <= hi,
    ensures
        r == (match range.buffer_frames {
            Some((lo, hi)) => Some(
                if preferred < lo {
                    lo
                } else if preferred > hi {
                    hi
                } else {
                    preferred
                },
            ),
            None => None,
        }),
{
    match range.buffer_frames {
        Some((lo, hi)) => {
            if preferred < lo {
                Some(lo)
            } else if preferred > hi {
                Some(hi)
            } else {
                Some(preferred)
            }
        },
        None => None,
    }
}

} // verus!
