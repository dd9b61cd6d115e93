//! The player pool: the keyed registry of active stream players. At most
//! one player — hence one upstream fetch loop — exists per stream key; the
//! lookup and the insert happen in one step under the registry lock, and
//! the entry is removed exactly once, when its loop ends.

use vstd::prelude::*;

use crate::player::{meta_lookup, MetaKey, PlayerSink, StreamPlayer};
use crate::types::{QualityV, StreamKey};

verus! {

/// The stream keys present in the registry, newest last.
pub open spec fn pool_keys(players: Seq<(StreamKey, StreamPlayer)>) -> Seq<(Seq<u8>, QualityV)> {
    players.map_values(|p: (StreamKey, StreamPlayer)| p.0@)
}

/// Whether a key is present.
pub open spec fn pool_contains(keys: Seq<(Seq<u8>, QualityV)>, key: (Seq<u8>, QualityV)) -> bool {
    exists|i: int| 0 <= i < keys.len() && keys[i] == key
}

/// Every entry under its own key: the registry's invariant.
pub open spec fn distinct_keys(players: Seq<(StreamKey, StreamPlayer)>) -> bool {
    forall|i: int, j: int|
        0 <= i < j < players.len() ==> (#[trigger] players[i].0@) != (#[trigger] players[j].0@)
}

/// What one `play` does to the key set: an existing key is joined, a
/// missing one gains its player — under the same lock acquisition that
/// checked for it, which closes the race between check and create.
pub open spec fn spec_pool_play(keys: Seq<(Seq<u8>, QualityV)>, key: (Seq<u8>, QualityV)) -> (
    Seq<(Seq<u8>, QualityV)>,
    bool,
) {
    if pool_contains(keys, key) {
        (keys, false)
    } else {
        (keys.push(key), true)
    }
}

/// Pool single-ownership: once any caller's `play` has run for a stream
/// key, the key is present, and every later `play` for it attaches to the
/// existing player instead of creating a second fetch loop.
pub proof fn lemma_pool_single_ownership(keys: Seq<(Seq<u8>, QualityV)>, key: (Seq<u8>, QualityV))
    ensures
        ({
            let (k1, created1) = spec_pool_play(keys, key);
            let (k2, created2) = spec_pool_play(k1, key);
            &&& created1 == !pool_contains(keys, key)
            &&& !created2
            &&& k2 == k1
        }),
{
    let (k1, created1) = spec_pool_play(keys, key);
    if !pool_contains(keys, key) {
        assert(k1[k1.len() - 1] == key);
        assert(pool_contains(k1, key));
    }
}

/// The registry without any entry for `key`, order kept.
pub open spec fn spec_pool_remove(players: Seq<(StreamKey, StreamPlayer)>, key: (Seq<u8>, QualityV)) -> Seq<
    (StreamKey, StreamPlayer),
>
    decreases players.len(),
{
    if players.len() == 0 {
        Seq::empty()
    } else {
        let rest = spec_pool_remove(players.drop_last(), key);
        if players.last().0@ == key {
            rest
        } else {
            rest.push(players.last())
        }
    }
}

/// Removal commutes with appending one entry.
proof fn lemma_pool_remove_snoc(
    players: Seq<(StreamKey, StreamPlayer)>,
    e: (StreamKey, StreamPlayer),
    key: (Seq<u8>, QualityV),
)
    ensures
        spec_pool_remove(players.push(e), key) == (if e.0@ == key {
            spec_pool_remove(players, key)
        } else {
            spec_pool_remove(players, key).push(e)
        }),
{
    assert(players.push(e).drop_last() =~= players);
    assert(players.push(e).last() == e);
}

/// What removal leaves: entries for other keys only, every one an entry of
/// the old registry, and still one per key if the old registry was.
pub proof fn lemma_pool_remove_props(
    players: Seq<(StreamKey, StreamPlayer)>,
    key: (Seq<u8>, QualityV),
)
    ensures
        ({
            let res = spec_pool_remove(players, key);
            &&& forall|j: int| 0 <= j < res.len() ==> (#[trigger] res[j]).0@ != key
            &&& forall|j: int|
                0 <= j < res.len() ==> exists|i: int|
                    0 <= i < players.len() && (#[trigger] res[j]) == (#[trigger] players[i])
            &&& (distinct_keys(players) ==> distinct_keys(res))
        }),
    decreases players.len(),
{
    if players.len() > 0 {
        lemma_pool_remove_props(players.drop_last(), key);
        let rest = spec_pool_remove(players.drop_last(), key);
        let res = spec_pool_remove(players, key);
        let last = players.last();
        assert(forall|i: int|
            0 <= i < players.drop_last().len() ==> players.drop_last()[i] == #[trigger] players[
                i]);
        if last.0@ != key {
            assert(res == rest.push(last));
            assert(res[res.len() - 1] == players[players.len() - 1]);
            assert forall|j: int| 0 <= j < res.len() implies exists|i: int|
                0 <= i < players.len() && (#[trigger] res[j]) == (#[trigger] players[i]) by {
                if j < rest.len() {
                    let i0 = choose|i: int|
                        0 <= i < players.drop_last().len() && rest[j] == #[trigger] players.drop_last()[i];
                    assert(res[j] == players[i0]);
                } else {
                    assert(res[j] == players[players.len() - 1]);
                }
            }
            if distinct_keys(players) {
                assert(distinct_keys(players.drop_last()));
                assert forall|i: int, j: int|
                    0 <= i < j < res.len() implies (#[trigger] res[i].0@) != (
                #[trigger] res[j].0@) by {
                    if j < rest.len() {
                        assert(rest[i].0@ != rest[j].0@);
                    } else {
                        let i0 = choose|i1: int|
                            0 <= i1 < players.drop_last().len() && rest[i]
                                == #[trigger] players.drop_last()[i1];
                        assert(res[i] == players[i0]);
                        assert(players[i0].0@ != players[players.len() - 1].0@);
                    }
                }
            }
        } else {
            assert(res == rest);
            assert forall|j: int| 0 <= j < res.len() implies exists|i: int|
                0 <= i < players.len() && (#[trigger] res[j]) == (#[trigger] players[i]) by {
                let i0 = choose|i: int|
                    0 <= i < players.drop_last().len() && rest[j] == #[trigger] players.drop_last()[i];
                assert(res[j] == players[i0]);
            }
        }
    }
}

/// Undoing a provisional registration: removing a key that was absent
/// before one entry for it was appended gives back exactly the old
/// registry — a failed resolution leaves the pool as it found it.
pub proof fn lemma_pool_remove_undoes_insert(
    players: Seq<(StreamKey, StreamPlayer)>,
    e: (StreamKey, StreamPlayer),
    key: (Seq<u8>, QualityV),
)
    requires
        e.0@ == key,
        !pool_contains(pool_keys(players), key),
    ensures
        spec_pool_remove(players.push(e), key) == players,
    decreases players.len(),
{
    lemma_pool_remove_snoc(players, e, key);
    lemma_pool_remove_identity(players, key);
}

/// Removing a key that no entry carries changes nothing.
proof fn lemma_pool_remove_identity(
    players: Seq<(StreamKey, StreamPlayer)>,
    key: (Seq<u8>, QualityV),
)
    requires
        !pool_contains(pool_keys(players), key),
    ensures
        spec_pool_remove(players, key) == players,
    decreases players.len(),
{
    if players.len() > 0 {
        assert(pool_keys(players)[players.len() - 1] == players.last().0@);
        assert(forall|i: int|
            0 <= i < players.drop_last().len() ==> #[trigger] pool_keys(players.drop_last())[i]
                == pool_keys(players)[i]);
        lemma_pool_remove_identity(players.drop_last(), key);
        assert(spec_pool_remove(players, key) =~= players.drop_last().push(players.last()));
        assert(players.drop_last().push(players.last()) =~= players);
    }
}

/// The registry of active stream players.
pub struct PlayerPool {
    pub opts: crate::options::Options,
    pub players: Vec<(StreamKey, StreamPlayer)>,
}

impl PlayerPool {
    /// The registry's key set.
    pub open spec fn keys(&self) -> Seq<(Seq<u8>, QualityV)> {
        pool_keys(self.players@)
    }

    /// At most one entry per stream key.
    pub open spec fn wf(&self) -> bool {
        distinct_keys(self.players@)
    }

    /// An empty pool holding the configuration every new player starts
    /// from.
    pub fn new(opts: crate::options::Options) -> (r: PlayerPool)
        ensures
            r.opts == opts,
            r.players@.len() == 0,
            r.wf(),
    {
        PlayerPool { opts, players: Vec::new() }
    }

    /// The index of a key's player.
    fn find(&self, key: &StreamKey) -> (r: Option<usize>)
        ensures
            match r {
                Some(i) => i < self.players@.len() && self.keys()[i as int] == key@,
                None => !pool_contains(self.keys(), key@),
            },
    {
        let mut i: usize = 0;
        while i < self.players.len()
            invariant
                i <= self.players@.len(),
                forall|j: int| 0 <= j < i ==> (#[trigger] pool_keys(self.players@)[j]) != key@,
            decreases self.players@.len() - i,
        {
            if self.players[i].0.same_as(key) {
                proof {
                    assert(pool_keys(self.players@)[i as int] == self.players@[i as int].0@);
                }
                return Some(i);
            }
            proof {
                assert(pool_keys(self.players@)[i as int] == self.players@[i as int].0@);
            }
            i = i + 1;
        }
        None
    }

    /// Attaches a sink for a stream key. An existing player for the key
    /// takes the sink into its waiting queue and nothing else moves; a key
    /// without a player gains a fresh one, started on the pool's
    /// configuration, holding exactly this sink — and the caller must then
    /// start the new player's fetch loop.
    pub fn play(&mut self, key: &StreamKey, sink: PlayerSink, meta_key: MetaKey, now_ms: u64) -> (created:
        bool)
        requires
            old(self).wf(),
        ensures
            final(self).wf(),
            final(self).opts == old(self).opts,
            created == !pool_contains(old(self).keys(), key@),
            (final(self).keys(), created) == spec_pool_play(old(self).keys(), key@),
            created ==> {
                &&& final(self).players@.len() == old(self).players@.len() + 1
                &&& final(self).players@.take(old(self).players@.len() as int) == old(
                    self,
                ).players@
                &&& final(self).players@.last().0@ == key@
                &&& final(self).players@.last().1.sink_queue@ == seq![(meta_key, sink)]
                &&& final(self).players@.last().1.senders@.len() == 0
                &&& final(self).players@.last().1.meta_view() == Seq::<
                    (Seq<u8>, Seq<u8>),
                >::empty()
                &&& final(self).players@.last().1.picker.prev_view() is None
                &&& final(self).players@.last().1.last_active_ms == now_ms
                &&& final(self).players@.last().1.opts.player_inactive_timeout_ms == old(
                    self,
                ).opts.player_inactive_timeout_ms
                &&& final(self).players@.last().1.opts.player_video_chunks_size == old(
                    self,
                ).opts.player_video_chunks_size
                &&& final(self).players@.last().1.opts.player_max_sink_buffer_size == old(
                    self,
                ).opts.player_max_sink_buffer_size
            },
            !created ==> exists|i: int|
                {
                    &&& 0 <= i < old(self).players@.len()
                    &&& (#[trigger] old(self).players@[i]).0@ == key@
                    &&& final(self).players@.len() == old(self).players@.len()
                    &&& (forall|j: int|
                        0 <= j < old(self).players@.len() && j != i
                            ==> #[trigger] final(self).players@[j] == old(self).players@[j])
                    &&& final(self).players@[i].0 == old(self).players@[i].0
                    &&& final(self).players@[i].1.sink_queue@ == old(
                        self,
                    ).players@[i].1.sink_queue@.push((meta_key, sink))
                    &&& final(self).players@[i].1.senders@ == old(self).players@[i].1.senders@
                    &&& final(self).players@[i].1.meta_view() == old(
                        self,
                    ).players@[i].1.meta_view()
                    &&& final(self).players@[i].1.picker == old(self).players@[i].1.picker
                    &&& final(self).players@[i].1.last_active_ms == old(
                        self,
                    ).players@[i].1.last_active_ms
                    &&& final(self).players@[i].1.opts == old(self).players@[i].1.opts
                },
    {
        match self.find(key) {
            Some(i) => {
                let mut entry = self.players.remove(i);
                entry.1.queue_sink(sink, meta_key);
                self.players.insert(i, entry);
                proof {
                    assert(self.players@ =~= old(self).players@.update(
                        i as int,
                        self.players@[i as int],
                    ));
                    assert(self.keys() =~= old(self).keys());
                    assert(old(self).players@[i as int].0@ == key@);
                    assert(self.keys()[i as int] == key@);
                }
                false
            },
            None => {
                let player = StreamPlayer::new(self.opts.duplicate(), now_ms);
                let mut player = player;
                player.queue_sink(sink, meta_key);
                self.players.push((key.duplicate(), player));
                proof {
                    let n = old(self).players@.len() as int;
                    assert(self.players@.take(n) =~= old(self).players@);
                    assert(self.keys() =~= old(self).keys().push(key@));
                    assert(self.keys()[self.keys().len() - 1] == key@);
                    assert(self.players@.last().1.sink_queue@ =~= seq![(meta_key, sink)]);
                    assert forall|i: int| 0 <= i < n implies (#[trigger] old(
                        self,
                    ).players@[i].0@) != key@ by {
                        assert(old(self).keys()[i] == old(self).players@[i].0@);
                        if old(self).players@[i].0@ == key@ {
                            assert(pool_contains(old(self).keys(), key@));
                        }
                    }
                    assert forall|i: int, j: int|
                        0 <= i < j < self.players@.len() implies (#[trigger] self.players@[i].0@)
                        != (#[trigger] self.players@[j].0@) by {
                        assert(self.players@[i] == old(self).players@[i]);
                        if j < n {
                            assert(self.players@[j] == old(self).players@[j]);
                        } else {
                            assert(self.players@[j].0@ == key@);
                        }
                    }
                }
                true
            },
        }
    }

    /// The metadata recorded under `meta_key` by the key's player: exactly
    /// what that player's records hold, and nothing when the key has no
    /// player or its player recorded nothing under the key.
    pub fn get_metadata(&self, key: &StreamKey, meta_key: &[u8]) -> (r: Option<
        crate::mpeg_ts::SegmentMetadata,
    >)
        requires
            self.wf(),
        ensures
            !pool_contains(self.keys(), key@) ==> r is None,
            match r {
                Some(m) => exists|i: int|
                    0 <= i < self.players@.len() && (#[trigger] self.players@[i]).0@ == key@
                        && meta_lookup(self.players@[i].1.meta_view(), meta_key@) == Some(m@),
                None => forall|i: int|
                    0 <= i < self.players@.len() && (#[trigger] self.players@[i]).0@ == key@
                        ==> meta_lookup(self.players@[i].1.meta_view(), meta_key@) is None,
            },
    {
        match self.find(key) {
            Some(i) => {
                let r = self.players[i].1.get_metadata(meta_key);
                proof {
                    assert(self.players@[i as int].0@ == key@);
                    assert(forall|j: int|
                        0 <= j < self.players@.len() && (#[trigger] self.players@[j]).0@ == key@
                            ==> j == i as int);
                }
                match r {
                    Some(m) => Some(m),
                    None => None,
                }
            },
            None => {
                proof {
                    assert(forall|i: int|
                        0 <= i < self.players@.len() ==> (#[trigger] self.players@[i]).0@
                            == pool_keys(self.players@)[i]);
                }
                None
            },
        }
    }

    /// Removes a key's entry when its fetch loop has ended, however it
    /// ended: exactly that key's entries leave, every other entry stays in
    /// place, and the next `play` for the key starts a fresh player.
    pub fn remove(&mut self, key: &StreamKey)
        ensures
            final(self).players@ == spec_pool_remove(old(self).players@, key@),
            !pool_contains(final(self).keys(), key@),
            final(self).opts == old(self).opts,
            old(self).wf() ==> final(self).wf(),
    {
        let ghost orig = self.players@;
        let mut out: Vec<(StreamKey, StreamPlayer)> = Vec::new();
        let ghost mut p: int = 0;
        proof {
            assert(self.players@ =~= orig.skip(0));
            assert(orig.take(0) =~= Seq::<(StreamKey, StreamPlayer)>::empty());
            assert(out@ =~= spec_pool_remove(orig.take(0), key@));
        }
        while self.players.len() > 0
            invariant
                0 <= p <= orig.len(),
                self.opts == old(self).opts,
                self.players@ == orig.skip(p),
                out@ == spec_pool_remove(orig.take(p), key@),
            decreases self.players@.len(),
        {
            let entry = self.players.remove(0);
            proof {
                assert(orig.skip(p)[0] == orig[p]);
                assert(orig.skip(p).skip(1) =~= orig.skip(p + 1));
                assert(orig.take(p + 1).drop_last() =~= orig.take(p));
                assert(orig.take(p + 1).last() == orig[p]);
                lemma_pool_remove_snoc(orig.take(p), orig[p], key@);
            }
            let matches_key = entry.0.same_as(key);
            if !matches_key {
                out.push(entry);
            }
            proof {
                p = p + 1;
            }
        }
        proof {
            assert(orig.take(orig.len() as int) =~= orig);
        }
        self.players = out;
        proof {
            lemma_pool_remove_props(orig, key@);
            assert(forall|j: int|
                0 <= j < self.players@.len() ==> #[trigger] pool_keys(self.players@)[j]
                    == self.players@[j].0@);
        }
    }
}

} // verus!
