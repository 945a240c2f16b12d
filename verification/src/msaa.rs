//! The multisample count of the renderer: a requested count rounded to one the
//! renderer knows, and the largest of those the adapter supports.
use vstd::prelude::*;

verus! {

/// The sample counts the renderer works with.
pub open spec fn known_sample_count(n: u32) -> bool {
    n == 1 || n == 2 || n == 4 || n == 8
}

/// A requested count rounded up to a known one, capped at eight.
pub open spec fn normalized_samples(samples: u32) -> u32 {
    if samples <= 1 {
        1
    } else if samples == 2 {
        2
    } else if samples <= 4 {
        4
    } else {
        8
    }
}

/// Rounds a requested sample count to 1, 2, 4 or 8.
pub fn normalize_msaa_samples(samples: u32) -> (r: u32)
    ensures
        r == normalized_samples(samples),
        known_sample_count(r),
        samples <= 8 ==> samples <= r,
{
    match samples {
        0 | 1 => 1,
        2 => 2,
        3 | 4 => 4,
        _ => 8,
    }
}

/// Rounding a known count gives it back, so rounding twice is rounding once.
pub proof fn lemma_normalize_idempotent(samples: u32)
    ensures
        normalized_samples(normalized_samples(samples)) == normalized_samples(samples),
        known_sample_count(samples) ==> normalized_samples(samples) == samples,
{
}

/// Whether an adapter with the given multisample support runs `n` samples:
/// one sample always, two, four and eight where the adapter says so.
pub open spec fn supported_count(n: u32, x2: bool, x4: bool, x8: bool) -> bool {
    n == 1 || (n == 2 && x2) || (n == 4 && x4) || (n == 8 && x8)
}

/// The largest supported count that is at most the normalized request.
pub open spec fn selected_samples(requested: u32, x2: bool, x4: bool, x8: bool) -> u32 {
    let r = normalized_samples(requested);
    if r >= 8 && x8 {
        8
    } else if r >= 4 && x4 {
        4
    } else if r >= 2 && x2 {
        2
    } else {
        1
    }
}

/// The sample count to render with: the request normalized, then lowered to
/// the largest count the adapter supports (`x2`, `x4`, `x8` are the adapter's
/// multisample flags for the surface format).
pub fn select_supported_msaa_samples(requested: u32, x2: bool, x4: bool, x8: bool) -> (r: u32)
    ensures
        r == selected_samples(requested, x2, x4, x8),
        supported_count(r, x2, x4, x8),
        r <= normalized_samples(requested),
        forall|n: u32|
            supported_count(n, x2, x4, x8) && n <= normalized_samples(requested) ==> n <= r,
{
    let old_requested = requested;
    let requested = normalize_msaa_samples(requested);
    let mut supported: Vec<u32> = Vec::new();
    supported.push(1);
    if x2 {
        supported.push(2);
    }
    if x4 {
        supported.push(4);
    }
    if x8 {
        supported.push(8);
    }
    assert(forall|n: u32|
        supported_count(n, x2, x4, x8) ==> exists|k: int|
            0 <= k < supported.len() && #[trigger] supported@[k] == n) by {
        assert forall|n: u32| supported_count(n, x2, x4, x8) implies exists|k: int|
            0 <= k < supported.len() && #[trigger] supported@[k] == n by {
            let i2: int = if x2 { 1 } else { 0 };
            let i4: int = if x4 { 1 } else { 0 };
            if n == 1 {
                assert(supported@[0] == n);
            } else if n == 2 {
                assert(supported@[1] == n);
            } else if n == 4 {
                assert(supported@[1 + i2] == n);
            } else {
                assert(supported@[1 + i2 + i4] == n);
            }
        }
    }
    let mut best: u32 = 1;
    let mut i: usize = 0;
    while i < supported.len()
        invariant
            i <= supported.len(),
            requested == normalized_samples(old_requested),
            forall|k: int|
                0 <= k < supported.len() ==> supported_count(#[trigger] supported@[k], x2, x4, x8),
            forall|n: u32|
                supported_count(n, x2, x4, x8) ==> exists|k: int|
                    0 <= k < supported.len() && #[trigger] supported@[k] == n,
            supported_count(best, x2, x4, x8),
            best <= requested,
            forall|k: int| 0 <= k < i && supported@[k] <= requested ==> supported@[k] <= best,
        decreases supported.len() - i,
    {
        if supported[i] <= requested && supported[i] > best {
            best = supported[i];
        }
        i += 1;
    }
    proof {
        assert forall|n: u32| supported_count(n, x2, x4, x8) && n <= requested implies n <= best by {
            let k = choose|k: int| 0 <= k < supported.len() && #[trigger] supported@[k] == n;
        }
        assert(supported_count(8, x2, x4, x8) <==> x8);
        assert(supported_count(4, x2, x4, x8) <==> x4);
        assert(supported_count(2, x2, x4, x8) <==> x2);
    }
    best
}

} // verus!
