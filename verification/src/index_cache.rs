//! The index cache: deduplicated, time-expiring resolution of a channel's
//! stream index. At most one resolution per (lower-cased) channel is ever
//! in flight: the first caller starts it and publishes the entry before any
//! awaiting happens, so every later caller joins it. A successful result
//! stays until its deadline, a failed one is dropped at once.

use vstd::prelude::*;

use crate::types::{Channel, StreamIndex, StreamIndexV};

verus! {

/// Why a resolution failed: the channel does not exist, or something else
/// went wrong upstream, described for diagnostics.
#[derive(Debug)]
pub enum IndexError {
    NotFound,
    Unexpected(Vec<u8>),
}

/// The mathematical form of an `IndexError`.
pub enum IndexErrorV {
    NotFound,
    Unexpected(Seq<u8>),
}

impl View for IndexError {
    type V = IndexErrorV;

    open spec fn view(&self) -> IndexErrorV {
        match self {
            IndexError::NotFound => IndexErrorV::NotFound,
            IndexError::Unexpected(d) => IndexErrorV::Unexpected(d@),
        }
    }
}

impl IndexError {
    pub fn duplicate(&self) -> (r: IndexError)
        ensures
            r@ == self@,
    {
        match self {
            IndexError::NotFound => IndexError::NotFound,
            IndexError::Unexpected(d) => IndexError::Unexpected(
                crate::text::copy_bytes(d.as_slice()),
            ),
        }
    }
}

/// One cache entry's state: a resolution still in flight, or a resolved
/// index due for removal at its deadline.
pub enum CacheEntry {
    InFlight,
    Resolved(StreamIndex, u64),
}

/// The mathematical form of a cache entry's state.
pub enum CacheEntryV {
    InFlight,
    Resolved(StreamIndexV, u64),
}

impl View for CacheEntry {
    type V = CacheEntryV;

    open spec fn view(&self) -> CacheEntryV {
        match self {
            CacheEntry::InFlight => CacheEntryV::InFlight,
            CacheEntry::Resolved(ix, deadline) => CacheEntryV::Resolved(ix@, *deadline),
        }
    }
}

/// What a lookup finds for a channel.
pub open spec fn cache_lookup(entries: Seq<(Seq<u8>, CacheEntryV)>, ch: Seq<u8>) -> Option<
    CacheEntryV,
>
    decreases entries.len(),
{
    if entries.len() == 0 {
        None
    } else if entries.last().0 == ch {
        Some(entries.last().1)
    } else {
        cache_lookup(entries.drop_last(), ch)
    }
}

/// What one `get` does to the registry: an existing entry is joined
/// untouched; a missing one is published as in-flight before anything
/// awaits, which is what closes the race between check and create.
pub open spec fn spec_cache_get(entries: Seq<(Seq<u8>, CacheEntryV)>, ch: Seq<u8>) -> (
    Seq<(Seq<u8>, CacheEntryV)>,
    bool,
) {
    if cache_lookup(entries, ch) is Some {
        (entries, false)
    } else {
        (entries.push((ch, CacheEntryV::InFlight)), true)
    }
}

/// Single-flight: once any caller's `get` has run for a channel, the entry
/// is there, and every later `get` for that channel joins it without
/// starting a second resolution — whatever state the registry began in.
pub proof fn lemma_single_flight(entries: Seq<(Seq<u8>, CacheEntryV)>, ch: Seq<u8>)
    ensures
        ({
            let (e1, started1) = spec_cache_get(entries, ch);
            let (e2, started2) = spec_cache_get(e1, ch);
            &&& started1 == (cache_lookup(entries, ch) is None)
            &&& !started2
            &&& e2 == e1
        }),
{
    let (e1, started1) = spec_cache_get(entries, ch);
    if cache_lookup(entries, ch) is None {
        assert(e1.last() == (ch, CacheEntryV::InFlight));
        assert(cache_lookup(e1, ch) is Some);
    }
}

/// The outcome of asking the cache for a channel.
pub enum GetOutcome {
    /// A resolved index was found; the caller gets its own copy.
    Hit(StreamIndex),
    /// A resolution is in flight; the caller awaits the shared result.
    Join,
    /// Nothing was cached; the entry is now published and the caller must
    /// run the resolution.
    Start,
}

/// The deduplicating registry of per-channel stream-index resolutions.
pub struct IndexCache {
    pub index_cache_timeout_ms: u64,
    pub entries: Vec<(Vec<u8>, CacheEntry)>,
}

impl IndexCache {
    /// The registry's entries as views.
    pub open spec fn entries_view(&self) -> Seq<(Seq<u8>, CacheEntryV)> {
        self.entries@.map_values(|p: (Vec<u8>, CacheEntry)| (p.0@, p.1@))
    }

    /// An empty cache that expires successful entries after the given
    /// timeout.
    pub fn new(index_cache_timeout_ms: u64) -> (r: IndexCache)
        ensures
            r.entries_view() =~= Seq::<(Seq<u8>, CacheEntryV)>::empty(),
            r.index_cache_timeout_ms == index_cache_timeout_ms,
    {
        IndexCache { index_cache_timeout_ms, entries: Vec::new() }
    }

    /// Looks the channel up; called with the registry lock held, so the
    /// check and the publish are one step.
    pub fn get(&mut self, channel: &Channel) -> (r: GetOutcome)
        ensures
            final(self).index_cache_timeout_ms == old(self).index_cache_timeout_ms,
            match r {
                GetOutcome::Hit(ix) => {
                    &&& final(self).entries_view() == old(self).entries_view()
                    &&& match cache_lookup(old(self).entries_view(), channel@) {
                        Some(CacheEntryV::Resolved(stored, deadline)) => stored == ix@,
                        _ => false,
                    }
                },
                GetOutcome::Join => {
                    &&& final(self).entries_view() == old(self).entries_view()
                    &&& cache_lookup(old(self).entries_view(), channel@) == Some(
                        CacheEntryV::InFlight,
                    )
                },
                GetOutcome::Start => {
                    &&& cache_lookup(old(self).entries_view(), channel@) is None
                    &&& (final(self).entries_view(), true) == spec_cache_get(
                        old(self).entries_view(),
                        channel@,
                    )
                },
            },
    {
        let mut i: usize = self.entries.len();
        proof {
            assert(self.entries_view().take(self.entries@.len() as int) =~= self.entries_view());
        }
        while i > 0
            invariant
                i <= self.entries@.len(),
                cache_lookup(self.entries_view(), channel@) == cache_lookup(
                    self.entries_view().take(i as int),
                    channel@,
                ),
            decreases i,
        {
            i = i - 1;
            if crate::text::bytes_eq(self.entries[i].0.as_slice(), channel.name().as_slice()) {
                proof {
                    assert(self.entries_view().take(i + 1).last() == (self.entries@[i as int].0@,
                    self.entries@[i as int].1@));
                }
                match &self.entries[i].1 {
                    CacheEntry::InFlight => {
                        return GetOutcome::Join;
                    },
                    CacheEntry::Resolved(ix, deadline) => {
                        let copy = ix.duplicate();
                        proof {
                            assert(self.entries@[i as int].1@ == CacheEntryV::Resolved(
                                ix@,
                                *deadline,
                            ));
                            assert(cache_lookup(self.entries_view(), channel@) == Some(
                                CacheEntryV::Resolved(copy@, *deadline),
                            ));
                        }
                        return GetOutcome::Hit(copy);
                    },
                }
            }
            proof {
                assert(self.entries_view().take(i + 1).drop_last() =~= self.entries_view().take(
                    i as int,
                ));
                assert(self.entries_view().take(i + 1).last().0 == self.entries@[i as int].0@);
            }
        }
        proof {
            assert(self.entries_view().take(0) =~= Seq::<(Seq<u8>, CacheEntryV)>::empty());
        }
        let name = crate::text::copy_bytes(channel.name().as_slice());
        self.entries.push((name, CacheEntry::InFlight));
        proof {
            assert(final(self).entries_view() =~= old(self).entries_view().push(
                (channel@, CacheEntryV::InFlight),
            ));
        }
        GetOutcome::Start
    }

    /// Publishes a successful resolution: the entry stays until exactly
    /// `index_cache_timeout` past now.
    pub fn resolve_ok(&mut self, channel: &Channel, index: StreamIndex, now_ms: u64) -> (deadline:
        u64)
        requires
            now_ms + old(self).index_cache_timeout_ms <= u64::MAX,
        ensures
            deadline == now_ms + old(self).index_cache_timeout_ms,
            final(self).index_cache_timeout_ms == old(self).index_cache_timeout_ms,
            final(self).entries_view() == spec_cache_set(
                old(self).entries_view(),
                channel@,
                CacheEntryV::Resolved(index@, deadline),
            ),
    {
        let deadline = now_ms + self.index_cache_timeout_ms;
        self.set_entry(channel, CacheEntry::Resolved(index, deadline));
        deadline
    }

    /// Drops a failed resolution at once: the next `get` starts afresh.
    pub fn resolve_err(&mut self, channel: &Channel)
        ensures
            final(self).index_cache_timeout_ms == old(self).index_cache_timeout_ms,
            final(self).entries_view() == spec_cache_remove(old(self).entries_view(), channel@),
            cache_lookup(final(self).entries_view(), channel@) is None,
    {
        self.remove_entry(channel);
    }

    /// Drops a channel's entry when its expiry timer fires; the timer was
    /// armed for the entry's deadline, so it never fires early.
    pub fn expire(&mut self, channel: &Channel, now_ms: u64)
        requires
            match cache_lookup(old(self).entries_view(), channel@) {
                Some(CacheEntryV::Resolved(ix, deadline)) => now_ms >= deadline,
                _ => true,
            },
        ensures
            final(self).index_cache_timeout_ms == old(self).index_cache_timeout_ms,
            final(self).entries_view() == spec_cache_remove(old(self).entries_view(), channel@),
            cache_lookup(final(self).entries_view(), channel@) is None,
    {
        self.remove_entry(channel);
    }

    /// Replaces or adds the channel's entry.
    fn set_entry(&mut self, channel: &Channel, entry: CacheEntry)
        ensures
            final(self).index_cache_timeout_ms == old(self).index_cache_timeout_ms,
            final(self).entries_view() == spec_cache_set(
                old(self).entries_view(),
                channel@,
                entry@,
            ),
    {
        self.remove_entry(channel);
        let name = crate::text::copy_bytes(channel.name().as_slice());
        let ghost before = self.entries_view();
        self.entries.push((name, entry));
        proof {
            assert(final(self).entries_view() =~= before.push((channel@, entry@)));
        }
    }

    /// Removes the channel's entry, wherever it stands.
    fn remove_entry(&mut self, channel: &Channel)
        ensures
            final(self).index_cache_timeout_ms == old(self).index_cache_timeout_ms,
            final(self).entries_view() == spec_cache_remove(old(self).entries_view(), channel@),
            cache_lookup(final(self).entries_view(), channel@) is None,
    {
        let mut kept: Vec<(Vec<u8>, CacheEntry)> = Vec::new();
        let ghost orig = self.entries_view();
        proof {
            assert(kept@.map_values(|p: (Vec<u8>, CacheEntry)| (p.0@, p.1@)) =~= Seq::<
                (Seq<u8>, CacheEntryV),
            >::empty());
            assert(spec_cache_remove(orig, channel@).take(0) =~= Seq::<
                (Seq<u8>, CacheEntryV),
            >::empty());
        }
        let mut i: usize = 0;
        while i < self.entries.len()
            invariant
                i <= self.entries@.len(),
                self.entries_view() == orig,
                kept@.map_values(|p: (Vec<u8>, CacheEntry)| (p.0@, p.1@)) == spec_cache_remove(
                    orig.take(i as int),
                    channel@,
                ),
            decreases self.entries@.len() - i,
        {
            let keep = !crate::text::bytes_eq(
                self.entries[i].0.as_slice(),
                channel.name().as_slice(),
            );
            if keep {
                let name = crate::text::copy_bytes(self.entries[i].0.as_slice());
                let entry = duplicate_entry(&self.entries[i].1);
                kept.push((name, entry));
            }
            proof {
                assert(orig.take(i + 1).drop_last() =~= orig.take(i as int));
                assert(orig.take(i + 1).last() == (self.entries@[i as int].0@, self.entries@[
                i as int].1@));
                lemma_cache_remove_snoc(orig.take(i as int), orig[i as int], channel@);
                if keep {
                    assert(kept@.map_values(|p: (Vec<u8>, CacheEntry)| (p.0@, p.1@))
                        =~= kept@.drop_last().map_values(
                        |p: (Vec<u8>, CacheEntry)| (p.0@, p.1@),
                    ).push((self.entries@[i as int].0@, self.entries@[i as int].1@)));
                }
            }
            i = i + 1;
        }
        proof {
            assert(orig.take(orig.len() as int) =~= orig);
        }
        self.entries = kept;
        proof {
            lemma_cache_remove_absent(orig, channel@);
        }
    }
}

/// Copies a cache entry.
fn duplicate_entry(e: &CacheEntry) -> (r: CacheEntry)
    ensures
        r@ == e@,
{
    match e {
        CacheEntry::InFlight => CacheEntry::InFlight,
        CacheEntry::Resolved(ix, deadline) => CacheEntry::Resolved(ix.duplicate(), *deadline),
    }
}

/// The registry without any entry for `ch`.
pub open spec fn spec_cache_remove(entries: Seq<(Seq<u8>, CacheEntryV)>, ch: Seq<u8>) -> Seq<
    (Seq<u8>, CacheEntryV),
>
    decreases entries.len(),
{
    if entries.len() == 0 {
        Seq::empty()
    } else {
        let rest = spec_cache_remove(entries.drop_last(), ch);
        if entries.last().0 == ch {
            rest
        } else {
            rest.push(entries.last())
        }
    }
}

/// The registry with `ch` bound to `entry` and nothing else changed.
pub open spec fn spec_cache_set(
    entries: Seq<(Seq<u8>, CacheEntryV)>,
    ch: Seq<u8>,
    entry: CacheEntryV,
) -> Seq<(Seq<u8>, CacheEntryV)> {
    spec_cache_remove(entries, ch).push((ch, entry))
}

/// Removal commutes with appending one entry.
proof fn lemma_cache_remove_snoc(
    entries: Seq<(Seq<u8>, CacheEntryV)>,
    e: (Seq<u8>, CacheEntryV),
    ch: Seq<u8>,
)
    ensures
        spec_cache_remove(entries.push(e), ch) == (if e.0 == ch {
            spec_cache_remove(entries, ch)
        } else {
            spec_cache_remove(entries, ch).push(e)
        }),
{
    assert(entries.push(e).drop_last() =~= entries);
    assert(entries.push(e).last() == e);
}

/// After removal, the channel is absent.
proof fn lemma_cache_remove_absent(entries: Seq<(Seq<u8>, CacheEntryV)>, ch: Seq<u8>)
    ensures
        cache_lookup(spec_cache_remove(entries, ch), ch) is None,
    decreases entries.len(),
{
    if entries.len() > 0 {
        lemma_cache_remove_absent(entries.drop_last(), ch);
        if entries.last().0 != ch {
            let rest = spec_cache_remove(entries.drop_last(), ch);
            assert(rest.push(entries.last()).drop_last() =~= rest);
        }
    }
}

/// A set entry is found, with exactly what was stored.
pub proof fn lemma_cache_set_lookup(
    entries: Seq<(Seq<u8>, CacheEntryV)>,
    ch: Seq<u8>,
    entry: CacheEntryV,
)
    ensures
        cache_lookup(spec_cache_set(entries, ch, entry), ch) == Some(entry),
{
    let s = spec_cache_set(entries, ch, entry);
    assert(s.last() == (ch, entry));
}

/// Cache expiry: a successful resolution published at `t` stands under its
/// channel, due for removal exactly `index_cache_timeout` later; its timer
/// cannot fire before that deadline, and once it has fired the entry is
/// gone.
pub proof fn lemma_cache_expiry(
    entries: Seq<(Seq<u8>, CacheEntryV)>,
    ch: Seq<u8>,
    ix: StreamIndexV,
    t: u64,
    timeout: u64,
)
    requires
        t + timeout <= u64::MAX,
    ensures
        ({
            let resolved = spec_cache_set(
                entries,
                ch,
                CacheEntryV::Resolved(ix, (t + timeout) as u64),
            );
            &&& cache_lookup(resolved, ch) == Some(
                CacheEntryV::Resolved(ix, (t + timeout) as u64),
            )
            &&& cache_lookup(spec_cache_remove(resolved, ch), ch) is None
        }),
{
    lemma_cache_set_lookup(entries, ch, CacheEntryV::Resolved(ix, (t + timeout) as u64));
    let resolved = spec_cache_set(entries, ch, CacheEntryV::Resolved(ix, (t + timeout) as u64));
    lemma_cache_remove_absent(resolved, ch);
}

} // verus!
