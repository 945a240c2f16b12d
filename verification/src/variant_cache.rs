//! The in-memory cache of rendered variants of the music: one entry per
//! playback speed (by the bits of its float) and pitch mode, holding the
//! rendered audio or `None` where rendering it failed.
use vstd::prelude::*;
use std::collections::HashMap;

verus! {

/// Rendered variants by speed bits, one map for each pitch mode.
pub struct VariantCache<T> {
    pitch_kept: HashMap<u64, Option<T>>,
    pitch_changed: HashMap<u64, Option<T>>,
}

impl<T> VariantCache<T> {
    /// The map of one pitch mode.
    pub closed spec fn part(&self, fix_pitch: bool) -> Map<u64, Option<T>> {
        if fix_pitch {
            self.pitch_kept@
        } else {
            self.pitch_changed@
        }
    }
}

impl<T> View for VariantCache<T> {
    type V = Map<(u64, bool), Option<T>>;

    /// The entries, by speed bits and pitch mode.
    closed spec fn view(&self) -> Map<(u64, bool), Option<T>> {
        Map::new(
            |k: (u64, bool)| self.part(k.1).contains_key(k.0),
            |k: (u64, bool)| self.part(k.1)[k.0],
        )
    }
}

impl<T> VariantCache<T> {
    /// An empty cache.
    pub fn new() -> (r: Self)
        ensures
            r@ == Map::<(u64, bool), Option<T>>::empty(),
    {
        let r = VariantCache { pitch_kept: HashMap::new(), pitch_changed: HashMap::new() };
        assert(r@ =~= Map::<(u64, bool), Option<T>>::empty());
        r
    }

    /// The entry of a variant, where there is one.
    pub fn get(&self, speed_bits: u64, fix_pitch: bool) -> (r: Option<&Option<T>>)
        ensures
            r is Some <==> self@.contains_key((speed_bits, fix_pitch)),
            r matches Some(v) ==> *v == self@[(speed_bits, fix_pitch)],
    {
        if fix_pitch {
            self.pitch_kept.get(&speed_bits)
        } else {
            self.pitch_changed.get(&speed_bits)
        }
    }

    /// Sets the entry of a variant.
    pub fn insert(&mut self, speed_bits: u64, fix_pitch: bool, v: Option<T>)
        ensures
            final(self)@ == old(self)@.insert((speed_bits, fix_pitch), v),
    {
        if fix_pitch {
            self.pitch_kept.insert(speed_bits, v);
        } else {
            self.pitch_changed.insert(speed_bits, v);
        }
        assert(final(self)@ =~= old(self)@.insert((speed_bits, fix_pitch), v));
    }

    /// Drops every entry.
    pub fn clear(&mut self)
        ensures
            final(self)@ == Map::<(u64, bool), Option<T>>::empty(),
    {
        self.pitch_kept.clear();
        self.pitch_changed.clear();
        assert(final(self)@ =~= Map::<(u64, bool), Option<T>>::empty());
    }
}

/// A variant read after it was set is what was set; setting one leaves the
/// others as they were.
pub proof fn lemma_cache_read_after_write<T>(
    before: VariantCache<T>,
    after: VariantCache<T>,
    speed_bits: u64,
    fix_pitch: bool,
    v: Option<T>,
    other: (u64, bool),
)
    requires
        after@ == before@.insert((speed_bits, fix_pitch), v),
    ensures
        after@.contains_key((speed_bits, fix_pitch)),
        after@[(speed_bits, fix_pitch)] == v,
        other != (speed_bits, fix_pitch) ==> (after@.contains_key(other) == before@.contains_key(
            other,
        ) && (before@.contains_key(other) ==> after@[other] == before@[other])),
{
}

} // verus!
