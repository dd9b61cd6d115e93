//! The stream player's decision core: which segment to download next, how
//! chunks fan out to the attached sinks, the per-sink backlog policy, and
//! the inactivity clock. The application shell performs the fetches and
//! timer waits and feeds their outcomes back in.

use vstd::prelude::*;

use crate::text::copy_bytes;
use vstd::string::StringSliceAdditionalSpecFns;
use crate::types::{Playlist, Segment};

verus! {

/// What the continuation rule picks from a playlist, knowing which segment
/// was downloaded last: with no history, the most recent segment; after a
/// downloaded segment still listed, the one right after it (nothing when it
/// is still the newest); after a segment that scrolled off, the most recent
/// one again.
pub open spec fn spec_pick(prev: Option<Seq<u8>>, segs: Seq<Seq<u8>>) -> Option<Seq<u8>> {
    if segs.len() == 0 {
        None
    } else {
        match prev {
            None => Some(segs.last()),
            Some(p) => {
                if exists|i: int| 0 <= i < segs.len() && segs[i] == p {
                    let i = choose|i: int|
                        0 <= i < segs.len() && segs[i] == p && forall|j: int|
                            0 <= j < i ==> segs[j] != p;
                    if i + 1 < segs.len() {
                        Some(segs[i + 1])
                    } else {
                        None
                    }
                } else {
                    Some(segs.last())
                }
            },
        }
    }
}

/// The first occurrence of `p` in `segs`, as the picker searches for it.
pub open spec fn is_first_occurrence(segs: Seq<Seq<u8>>, p: Seq<u8>, i: int) -> bool {
    0 <= i < segs.len() && segs[i] == p && forall|j: int| 0 <= j < i ==> segs[j] != p
}

/// The segment-continuation state: the last segment handed out for
/// download, if any.
pub struct SegmentPicker {
    pub previous_segment: Option<Segment>,
}

impl SegmentPicker {
    /// The picker's history as a location, if any.
    pub open spec fn prev_view(&self) -> Option<Seq<u8>> {
        match self.previous_segment {
            None => None,
            Some(s) => Some(s@),
        }
    }

    /// A fresh picker, with nothing downloaded yet.
    pub fn new() -> (r: SegmentPicker)
        ensures
            r.prev_view() is None,
    {
        SegmentPicker { previous_segment: None }
    }

    /// Picks the next segment to download from a freshly fetched playlist
    /// and remembers it; a tick that has nothing new to download leaves the
    /// history unchanged.
    pub fn pick(&mut self, playlist: &Playlist) -> (r: Option<Segment>)
        ensures
            match r {
                Some(seg) => spec_pick(old(self).prev_view(), playlist@.segments) == Some(seg@)
                    && final(self).prev_view() == Some(seg@),
                None => spec_pick(old(self).prev_view(), playlist@.segments) is None
                    && final(self).prev_view() == old(self).prev_view(),
            },
    {
        let segs = &playlist.segments;
        let n = segs.len();
        if n == 0 {
            return None;
        }
        let picked: Option<Segment> = match &self.previous_segment {
            None => {
                let s = segs[n - 1].duplicate();
                proof {
                    assert(old(self).prev_view() is None);
                    assert(s@ == playlist@.segments.last());
                    assert(spec_pick(old(self).prev_view(), playlist@.segments) == Some(s@));
                }
                Some(s)
            },
            Some(prev) => {
                let mut idx: usize = 0;
                let mut found: Option<usize> = None;
                while idx < n && found.is_none()
                    invariant
                        idx <= n,
                        n == segs@.len(),
                        segs@ == playlist.segments@,
                        self.previous_segment == old(self).previous_segment,
                        self.previous_segment is Some,
                        (self.previous_segment == Some(*prev)),
                        found is None ==> forall|j: int|
                            0 <= j < idx ==> (#[trigger] playlist@.segments[j]) != prev@,
                        match found {
                            Some(f) => is_first_occurrence(playlist@.segments, prev@, f as int)
                                && idx == f,
                            None => true,
                        },
                    decreases n - idx, (match found {
                        Some(_) => 0int,
                        None => 1int,
                    }),
                {
                    if segs[idx].same_as(prev) {
                        proof {
                            assert(playlist@.segments[idx as int] == segs@[idx as int]@);
                        }
                        found = Some(idx);
                    } else {
                        proof {
                            assert(playlist@.segments[idx as int] == segs@[idx as int]@);
                        }
                        idx = idx + 1;
                    }
                }
                match found {
                    Some(f) => {
                        proof {
                            let p = prev@;
                            let ss = playlist@.segments;
                            assert(0 <= f < ss.len() && ss[f as int] == p);
                            let c = choose|k: int|
                                0 <= k < ss.len() && ss[k] == p && forall|j: int|
                                    0 <= j < k ==> ss[j] != p;
                            if c < f {
                                assert(ss[c] != p);
                            }
                            if f < c {
                                assert(ss[f as int] != p);
                            }
                            assert(c == f);
                        }
                        if f + 1 < n {
                            let s = segs[f + 1].duplicate();
                            proof {
                                assert(s@ == playlist@.segments[f + 1]);
                            }
                            proof {
                                assert(spec_pick(old(self).prev_view(), playlist@.segments)
                                    == Some(s@));
                            }
                            Some(s)
                        } else {
                            None
                        }
                    },
                    None => {
                        let s = segs[n - 1].duplicate();
                        proof {
                            assert(forall|j: int|
                                0 <= j < playlist@.segments.len() ==> (
                                #[trigger] playlist@.segments[j]) != prev@);
                            assert(s@ == playlist@.segments.last());
                            assert(spec_pick(old(self).prev_view(), playlist@.segments) == Some(
                                s@,
                            ));
                        }
                        Some(s)
                    },
                }
            },
        };
        proof {
            assert(playlist@.segments.last() == playlist.segments@[n - 1]@);
        }
        match picked {
            Some(seg) => {
                let remembered = seg.duplicate();
                self.previous_segment = Some(remembered);
                Some(seg)
            },
            None => None,
        }
    }
}

/// Segment continuation: when yesterday's newest segment is still listed
/// and a newer one follows it, the picker hands out exactly the follower —
/// it never re-downloads what it already handed out and never skips past
/// the next segment.
pub proof fn lemma_segment_continuation(segs1: Seq<Seq<u8>>, segs2: Seq<Seq<u8>>, i: int)
    requires
        segs1.len() > 0,
        is_first_occurrence(segs2, segs1.last(), i),
        i + 1 < segs2.len(),
    ensures
        spec_pick(None, segs1) == Some(segs1.last()),
        spec_pick(Some(segs1.last()), segs2) == Some(segs2[i + 1]),
{
    let p = segs1.last();
    assert(exists|k: int| 0 <= k < segs2.len() && segs2[k] == p);
    let c = choose|k: int|
        0 <= k < segs2.len() && segs2[k] == p && forall|j: int| 0 <= j < k ==> segs2[j] != p;
    if c < i {
        assert(segs2[c] != p);
    }
    if i < c {
        assert(segs2[i] != p);
    }
    assert(c == i);
}

/// Segment fallback: when the previously downloaded segment has scrolled
/// off the playlist, the picker hands out the playlist's most recent
/// segment rather than failing.
pub proof fn lemma_segment_fallback(prev: Seq<u8>, segs: Seq<Seq<u8>>)
    requires
        segs.len() > 0,
        forall|i: int| 0 <= i < segs.len() ==> (#[trigger] segs[i]) != prev,
    ensures
        spec_pick(Some(prev), segs) == Some(segs.last()),
{
}

} // verus!

verus! {

/// The mpsc sender through which a promoted sink receives its video
/// chunks.
#[verifier::external_type_specification]
#[verifier::external_body]
#[verifier::reject_recursive_types(T)]
pub struct ExMpscSender<T>(futures::channel::mpsc::Sender<T>);

/// The mpsc receiver a promoted sink's drain task reads from.
#[verifier::external_type_specification]
#[verifier::external_body]
#[verifier::reject_recursive_types(T)]
pub struct ExMpscReceiver<T>(futures::channel::mpsc::Receiver<T>);

/// The response-body channel one downstream client's bytes go out on.
#[verifier::external_type_specification]
#[verifier::external_body]
pub struct ExBodySender(hyper::body::Sender);

/// The chunks a sender's channel has accepted from it so far, oldest
/// first: the contents a successful send appends to.
pub uninterp spec fn sent_history(s: futures::channel::mpsc::Sender<Vec<u8>>) -> Seq<Seq<u8>>;

/// Relies on futures::channel::mpsc::Sender::try_send. Whether the message
/// is accepted depends on the channel's momentary state, so no success is
/// promised; what holds of every outcome is that an accepted message — and
/// only an accepted one — enters the channel.
#[verifier::external_body]
fn sender_try_send(s: &mut futures::channel::mpsc::Sender<Vec<u8>>, data: Vec<u8>) -> (r: bool)
    ensures
        r ==> sent_history(*final(s)) == sent_history(*old(s)).push(data@),
        !r ==> sent_history(*final(s)) == sent_history(*old(s)),
{
    s.try_send(data).is_ok()
}

/// Relies on futures::channel::mpsc::channel: makes the bounded channel
/// that carries chunks from the fetch loop to one sink's drain task. The
/// constructor refuses buffers at or above a quarter of the address space,
/// so such a request is left out.
#[verifier::external_body]
fn video_channel(buffer: usize) -> (r: (
    futures::channel::mpsc::Sender<Vec<u8>>,
    futures::channel::mpsc::Receiver<Vec<u8>>,
))
    requires
        buffer < usize::MAX / 4,
    ensures
        sent_history(r.0) == Seq::<Seq<u8>>::empty(),
{
    futures::channel::mpsc::channel(buffer)
}

/// The positions whose flag in `keep` is set, in order: the sinks that
/// survive one fan-out pass.
pub open spec fn kept_indices(keep: Seq<bool>) -> Seq<int>
    decreases keep.len(),
{
    if keep.len() == 0 {
        Seq::empty()
    } else {
        let rest = kept_indices(keep.skip(1)).map_values(|i: int| i + 1);
        if keep[0] {
            seq![0int] + rest
        } else {
            rest
        }
    }
}

/// Appending one flag appends its position or nothing.
pub proof fn lemma_kept_indices_snoc(keep: Seq<bool>, b: bool)
    ensures
        kept_indices(keep.push(b)) == kept_indices(keep) + (if b {
            seq![keep.len() as int]
        } else {
            Seq::<int>::empty()
        }),
    decreases keep.len(),
{
    if keep.len() == 0 {
        reveal_with_fuel(kept_indices, 3);
        assert(keep.push(b)[0] == b);
        assert(keep.push(b).skip(1) =~= Seq::<bool>::empty());
        assert(kept_indices(Seq::<bool>::empty()).map_values(|i: int| i + 1) =~= Seq::<
            int,
        >::empty());
        if b {
            assert(kept_indices(keep.push(b)) =~= seq![0int]);
            assert(kept_indices(keep) + seq![0int] =~= seq![0int]);
        } else {
            assert(kept_indices(keep.push(b)) =~= Seq::<int>::empty());
            assert(kept_indices(keep) + Seq::<int>::empty() =~= Seq::<int>::empty());
        }
    } else {
        assert(keep.push(b).skip(1) =~= keep.skip(1).push(b));
        lemma_kept_indices_snoc(keep.skip(1), b);
        assert(keep.push(b)[0] == keep[0]);
        let tail = kept_indices(keep.skip(1));
        let shifted = |i: int| i + 1;
        assert((tail + (if b {
            seq![keep.len() - 1]
        } else {
            Seq::<int>::empty()
        })).map_values(shifted) =~= tail.map_values(shifted) + (if b {
            seq![keep.len() as int]
        } else {
            Seq::<int>::empty()
        }));
        if keep[0] {
            assert(kept_indices(keep.push(b)) =~= seq![0int] + (tail.map_values(shifted) + (if b {
                seq![keep.len() as int]
            } else {
                Seq::<int>::empty()
            })));
            assert((seq![0int] + tail.map_values(shifted)) + (if b {
                seq![keep.len() as int]
            } else {
                Seq::<int>::empty()
            }) =~= seq![0int] + (tail.map_values(shifted) + (if b {
                seq![keep.len() as int]
            } else {
                Seq::<int>::empty()
            })));
        }
    }
}

/// Fan-out isolation: whether a sink survives the pass is decided by its
/// own delivery flag alone — position `j` is among the survivors exactly
/// when its own send was accepted, whatever the other flags say.
pub proof fn lemma_fanout_isolation(keep: Seq<bool>, j: int)
    requires
        0 <= j < keep.len(),
    ensures
        keep[j] <==> kept_indices(keep).contains(j),
    decreases keep.len(),
{
    let rest = kept_indices(keep.skip(1)).map_values(|i: int| i + 1);
    if j == 0 {
        if keep[0] {
            assert(kept_indices(keep)[0] == 0);
            assert(kept_indices(keep).contains(0));
        } else {
            if kept_indices(keep).contains(0) {
                let k = choose|k: int|
                    0 <= k < kept_indices(keep).len() && kept_indices(keep)[k] == 0;
                assert(rest[k] == kept_indices(keep.skip(1))[k] + 1);
                lemma_kept_indices_nonneg(keep.skip(1), k);
            }
        }
    } else {
        lemma_fanout_isolation(keep.skip(1), j - 1);
        if keep[j] {
            assert(keep.skip(1)[j - 1]);
            let k = choose|k: int|
                0 <= k < kept_indices(keep.skip(1)).len() && kept_indices(keep.skip(1))[k] == j
                    - 1;
            assert(rest[k] == j);
            if keep[0] {
                assert(kept_indices(keep)[k + 1] == j);
            } else {
                assert(kept_indices(keep)[k] == j);
            }
            assert(kept_indices(keep).contains(j));
        } else {
            if kept_indices(keep).contains(j) {
                let k = choose|k: int|
                    0 <= k < kept_indices(keep).len() && kept_indices(keep)[k] == j;
                if keep[0] {
                    if k == 0 {
                        assert(kept_indices(keep)[0] == 0);
                    } else {
                        assert(kept_indices(keep)[k] == rest[k - 1]);
                        assert(kept_indices(keep.skip(1)).contains(j - 1));
                    }
                } else {
                    assert(kept_indices(keep)[k] == rest[k]);
                    assert(kept_indices(keep.skip(1)).contains(j - 1));
                }
            }
        }
    }
}

/// Every surviving position is a real one.
pub proof fn lemma_kept_indices_nonneg(keep: Seq<bool>, k: int)
    requires
        0 <= k < kept_indices(keep).len(),
    ensures
        0 <= kept_indices(keep)[k] < keep.len(),
    decreases keep.len(),
{
    if keep.len() > 0 {
        let rest = kept_indices(keep.skip(1)).map_values(|i: int| i + 1);
        if keep[0] {
            if k > 0 {
                lemma_kept_indices_nonneg(keep.skip(1), k - 1);
                assert(kept_indices(keep)[k] == rest[k - 1]);
            }
        } else {
            lemma_kept_indices_nonneg(keep.skip(1), k);
            assert(kept_indices(keep)[k] == rest[k]);
        }
    }
}

/// Fans one chunk out to every attached sink and drops, without blocking,
/// exactly those whose channel would not accept it. Each sink is offered
/// the chunk exactly once — all but the last a copy, the last the chunk
/// itself. The survivors are the senders at the kept positions of the
/// pass's delivery flags, in their old order, and each of them accepted
/// exactly this chunk.
pub fn fanout_and_filter(
    senders: &mut Vec<futures::channel::mpsc::Sender<Vec<u8>>>,
    data: Vec<u8>,
)
    ensures
        exists|keep: Seq<bool>|
            {
                &&& keep.len() == old(senders)@.len()
                &&& final(senders)@.len() == kept_indices(keep).len()
                &&& forall|k: int|
                    0 <= k < final(senders)@.len() ==> 0 <= kept_indices(keep)[k] < keep.len()
                        && sent_history(#[trigger] final(senders)@[k]) == sent_history(
                        old(senders)@[kept_indices(keep)[k]],
                    ).push(data@)
            },
{
    let ghost orig = senders@;
    if senders.len() == 0 {
        proof {
            let keep = Seq::<bool>::empty();
            assert(keep.len() == orig.len() && senders@.len() == kept_indices(keep).len());
        }
        return ;
    }
    let mut i: usize = 0;
    let ghost mut keep: Seq<bool> = Seq::empty();
    let ghost mut processed: int = 0;
    proof {
        assert(senders@.skip(0) =~= orig.skip(0));
    }
    while i < senders.len() - 1
        invariant
            0 <= processed < orig.len(),
            keep.len() == processed,
            i == kept_indices(keep).len(),
            senders@.len() == i + (orig.len() - processed),
            senders@.skip(i as int) == orig.skip(processed),
            forall|k: int| 0 <= k < i ==> 0 <= #[trigger] kept_indices(keep)[k] < processed,
            forall|k: int|
                0 <= k < i ==> sent_history(#[trigger] senders@[k]) == sent_history(
                    orig[kept_indices(keep)[k]],
                ).push(data@),
        decreases orig.len() - processed,
    {
        proof {
            assert(senders@.skip(i as int)[0] == orig.skip(processed)[0]);
            assert(senders@[i as int] == orig[processed]);
        }
        let payload = copy_bytes(data.as_slice());
        let ghost pre = senders@;
        let ok = sender_try_send(&mut senders[i], payload);
        proof {
            lemma_kept_indices_snoc(keep, ok);
            assert(forall|k: int| 0 <= k < pre.len() && k != i ==> senders@[k] == pre[k]);
        }
        if ok {
            proof {
                assert(sent_history(senders@[i as int]) == sent_history(orig[processed]).push(
                    data@,
                ));
            }
            i = i + 1;
            proof {
                let keep_prev = keep;
                keep = keep.push(true);
                processed = processed + 1;
                assert(kept_indices(keep) == kept_indices(keep_prev) + seq![processed - 1]);
                assert(kept_indices(keep)[i - 1] == processed - 1);
                assert(forall|k: int|
                    0 <= k < i - 1 ==> #[trigger] kept_indices(keep)[k] == kept_indices(
                        keep_prev,
                    )[k]);
                assert(senders@.skip(i as int) =~= pre.skip(i as int));
                assert(pre.skip(i - 1).skip(1) =~= pre.skip(i as int));
                assert(orig.skip(processed - 1).skip(1) =~= orig.skip(processed));
                assert(senders@.skip(i as int) =~= orig.skip(processed));
            }
        } else {
            let _ = senders.remove(i);
            proof {
                let keep_prev = keep;
                keep = keep.push(false);
                processed = processed + 1;
                assert(kept_indices(keep) =~= kept_indices(keep_prev));
                assert(senders@.skip(i as int) =~= pre.skip(i as int).skip(1));
                assert(orig.skip(processed - 1).skip(1) =~= orig.skip(processed));
                assert(senders@.skip(i as int) =~= orig.skip(processed));
            }
        }
    }
    proof {
        assert(orig.len() - processed == 1);
        assert(senders@.skip(i as int)[0] == orig.skip(processed)[0]);
        assert(senders@[i as int] == orig[processed]);
    }
    let ghost pre = senders@;
    let ok = sender_try_send(&mut senders[i], data);
    proof {
        lemma_kept_indices_snoc(keep, ok);
        assert(forall|k: int| 0 <= k < pre.len() && k != i ==> senders@[k] == pre[k]);
    }
    if !ok {
        let _ = senders.remove(i);
    }
    proof {
        let keep_prev = keep;
        keep = keep.push(ok);
        processed = processed + 1;
        assert(processed == orig.len());
        if ok {
            assert(kept_indices(keep) == kept_indices(keep_prev) + seq![processed - 1]);
            assert(kept_indices(keep)[i as int] == processed - 1);
            assert(sent_history(senders@[i as int]) == sent_history(orig[processed - 1]).push(
                data@,
            ));
            assert(forall|k: int|
                0 <= k < i ==> #[trigger] kept_indices(keep)[k] == kept_indices(keep_prev)[k]);
        } else {
            assert(kept_indices(keep) =~= kept_indices(keep_prev));
        }
        assert(keep.len() == orig.len());
        assert(senders@.len() == kept_indices(keep).len());
        assert(forall|k: int|
            0 <= k < senders@.len() ==> 0 <= kept_indices(keep)[k] < keep.len()
                && sent_history(#[trigger] senders@[k]) == sent_history(
                orig[kept_indices(keep)[k]],
            ).push(data@));
    }
}

} // verus!

verus! {

/// The key under which one client's segment metadata is recorded.
pub type MetaKey = Vec<u8>;

/// One downstream client's open response body.
pub type PlayerSink = hyper::body::Sender;

/// How many chunks a promoted sink's channel buffers.
pub const SINK_CHANNEL_BUFFER: usize = 16;

/// The value recorded under `key`, the last recording winning.
pub open spec fn meta_lookup(pairs: Seq<(Seq<u8>, Seq<u8>)>, key: Seq<u8>) -> Option<Seq<u8>>
    decreases pairs.len(),
{
    if pairs.len() == 0 {
        None
    } else if pairs.last().0 == key {
        Some(pairs.last().1)
    } else {
        meta_lookup(pairs.drop_last(), key)
    }
}

/// One stream player's bookkeeping: the sinks waiting for their first
/// chunk, the channels of the promoted sinks, the metadata records, the
/// segment-continuation state and the inactivity clock. The fetch loop
/// around it is driven from outside; every decision it takes stands here.
pub struct StreamPlayer {
    pub opts: crate::options::Options,
    pub sink_queue: Vec<(MetaKey, PlayerSink)>,
    pub senders: Vec<futures::channel::mpsc::Sender<Vec<u8>>>,
    pub indexed_metadata: Vec<(MetaKey, crate::mpeg_ts::SegmentMetadata)>,
    pub picker: SegmentPicker,
    pub last_active_ms: u64,
}

impl StreamPlayer {
    /// The metadata records as key/value views.
    pub open spec fn meta_view(&self) -> Seq<(Seq<u8>, Seq<u8>)> {
        self.indexed_metadata@.map_values(
            |p: (MetaKey, crate::mpeg_ts::SegmentMetadata)| (p.0@, p.1@),
        )
    }

    /// The queued metadata keys, in attach order.
    pub open spec fn queue_keys(&self) -> Seq<Seq<u8>> {
        self.sink_queue@.map_values(|p: (MetaKey, PlayerSink)| p.0@)
    }

    /// A fresh player with no sinks, no metadata and an activity clock
    /// started now.
    pub fn new(opts: crate::options::Options, now_ms: u64) -> (r: StreamPlayer)
        ensures
            r.opts == opts,
            r.sink_queue@.len() == 0,
            r.senders@.len() == 0,
            r.meta_view() =~= Seq::<(Seq<u8>, Seq<u8>)>::empty(),
            r.picker.prev_view() is None,
            r.last_active_ms == now_ms,
    {
        StreamPlayer {
            opts,
            sink_queue: Vec::new(),
            senders: Vec::new(),
            indexed_metadata: Vec::new(),
            picker: SegmentPicker::new(),
            last_active_ms: now_ms,
        }
    }

    /// Parks a sink until the next segment head arrives, remembering the
    /// key its metadata will be recorded under.
    pub fn queue_sink(&mut self, sink: PlayerSink, meta_key: MetaKey)
        ensures
            final(self).sink_queue@ == old(self).sink_queue@.push((meta_key, sink)),
            final(self).senders@ == old(self).senders@,
            final(self).meta_view() == old(self).meta_view(),
            final(self).picker == old(self).picker,
            final(self).last_active_ms == old(self).last_active_ms,
            final(self).opts == old(self).opts,
    {
        self.sink_queue.push((meta_key, sink));
    }

    /// The metadata recorded under `key`, if any.
    pub fn get_metadata(&self, key: &[u8]) -> (r: Option<crate::mpeg_ts::SegmentMetadata>)
        ensures
            match r {
                Some(m) => meta_lookup(self.meta_view(), key@) == Some(m@),
                None => meta_lookup(self.meta_view(), key@) is None,
            },
    {
        let mut i: usize = self.indexed_metadata.len();
        proof {
            assert(self.meta_view().take(self.indexed_metadata@.len() as int)
                =~= self.meta_view());
        }
        while i > 0
            invariant
                i <= self.indexed_metadata@.len(),
                meta_lookup(self.meta_view(), key@) == meta_lookup(
                    self.meta_view().take(i as int),
                    key@,
                ),
            decreases i,
        {
            i = i - 1;
            if crate::text::bytes_eq(self.indexed_metadata[i].0.as_slice(), key) {
                let m = self.indexed_metadata[i].1.duplicate();
                proof {
                    assert(self.meta_view().take(i + 1).last() == (self.indexed_metadata@[
                    i as int].0@, self.indexed_metadata@[i as int].1@));
                }
                return Some(m);
            }
            proof {
                assert(self.meta_view().take(i + 1).drop_last() =~= self.meta_view().take(
                    i as int,
                ));
                assert(self.meta_view().take(i + 1).last().0 == self.indexed_metadata@[
                i as int].0@);
            }
        }
        proof {
            assert(self.meta_view().take(0) =~= Seq::<(Seq<u8>, Seq<u8>)>::empty());
        }
        None
    }

    /// Promotes every parked sink into the fan-out set, now that a segment
    /// head has arrived: the head's metadata record, when one is present, is
    /// recorded under each parked key; each parked sink gains a bounded
    /// chunk channel whose sender joins the fan-out set, and is handed back
    /// with its receiver for its drain task.
    pub fn promote_queued(&mut self, head: &[u8]) -> (r: Vec<
        (PlayerSink, futures::channel::mpsc::Receiver<Vec<u8>>),
    >)
        ensures
            final(self).sink_queue@.len() == 0,
            final(self).senders@.len() == old(self).senders@.len() + old(
                self,
            ).sink_queue@.len(),
            r@.len() == old(self).sink_queue@.len(),
            forall|i: int| 0 <= i < r@.len() ==> (#[trigger] r@[i]).0 == old(self).sink_queue@[
                i].1,
            final(self).picker == old(self).picker,
            final(self).last_active_ms == old(self).last_active_ms,
            final(self).opts == old(self).opts,
            match crate::mpeg_ts::spec_metadata_slice(head@) {
                Some(json) => (if crate::mpeg_ts::is_metadata_json(json) && old(
                    self,
                ).sink_queue@.len() > 0 {
                    final(self).meta_view() == old(self).meta_view() + old(
                        self,
                    ).queue_keys().map_values(|k: Seq<u8>| (k, json))
                } else {
                    final(self).meta_view() == old(self).meta_view()
                }),
                None => final(self).meta_view() == old(self).meta_view(),
            },
    {
        let mut out: Vec<(PlayerSink, futures::channel::mpsc::Receiver<Vec<u8>>)> = Vec::new();
        if self.sink_queue.len() == 0 {
            return out;
        }
        let opt_metadata = crate::mpeg_ts::extract_metadata(head);
        let ghost queue0 = old(self).sink_queue@;
        let ghost meta0 = old(self).meta_view();
        let ghost n = queue0.len();
        proof {
            assert(self.sink_queue@ =~= queue0.skip(0));
        }
        while self.sink_queue.len() > 0
            invariant
                out@.len() + self.sink_queue@.len() == n,
                n == queue0.len(),
                self.sink_queue@ == queue0.skip(out@.len() as int),
                self.opts == old(self).opts,
                self.picker == old(self).picker,
                self.last_active_ms == old(self).last_active_ms,
                self.senders@.len() == old(self).senders@.len() + out@.len(),
                forall|i: int| 0 <= i < out@.len() ==> (#[trigger] out@[i]).0 == queue0[i].1,
                match opt_metadata {
                    Some(m) => m.wf() && crate::mpeg_ts::spec_metadata_slice(head@) == Some(m@)
                        && self.meta_view() == meta0 + queue0.map_values(
                        |p: (MetaKey, PlayerSink)| (p.0@, m@),
                    ).take(out@.len() as int),
                    None => self.meta_view() == meta0,
                },
            decreases self.sink_queue@.len(),
        {
            let ghost qi = out@.len() as int;
            let (key, sink) = self.sink_queue.remove(0);
            proof {
                assert(queue0.skip(qi)[0] == queue0[qi]);
                assert(queue0.skip(qi).skip(1) =~= queue0.skip(qi + 1));
            }
            match &opt_metadata {
                Some(m) => {
                    let record = m.duplicate();
                    self.indexed_metadata.push((key, record));
                    proof {
                        assert(self.meta_view() =~= self.meta_view().drop_last().push(
                            (queue0[qi].0@, m@),
                        ));
                        assert(meta0 + queue0.map_values(
                            |p: (MetaKey, PlayerSink)| (p.0@, m@),
                        ).take(qi + 1) =~= (meta0 + queue0.map_values(
                            |p: (MetaKey, PlayerSink)| (p.0@, m@),
                        ).take(qi)).push((queue0[qi].0@, m@)));
                    }
                },
                None => {},
            }
            let (tx, rx) = video_channel(SINK_CHANNEL_BUFFER);
            self.senders.push(tx);
            out.push((sink, rx));
        }
        proof {
            match opt_metadata {
                Some(m) => {
                    assert(queue0.map_values(|p: (MetaKey, PlayerSink)| (p.0@, m@)).take(
                        n as int,
                    ) =~= queue0.map_values(|p: (MetaKey, PlayerSink)| (p.0@, m@)));
                    assert(queue0.map_values(|p: (MetaKey, PlayerSink)| (p.0@, m@))
                        =~= old(self).queue_keys().map_values(|k: Seq<u8>| (k, m@)));
                },
                None => {},
            }
        }
        out
    }

    /// Advances the inactivity clock for one tick: any attached sink counts
    /// as activity; tells whether the player has now been inactive longer
    /// than its configured timeout and must terminate.
    pub fn check_activity(&mut self, now_ms: u64) -> (timed_out: bool)
        requires
            now_ms >= old(self).last_active_ms,
        ensures
            final(self).last_active_ms == next_last_active(
                old(self).last_active_ms,
                old(self).senders@.len(),
                now_ms,
            ),
            timed_out == tick_times_out(
                old(self).last_active_ms,
                old(self).senders@.len(),
                now_ms,
                old(self).opts.player_inactive_timeout_ms,
            ),
            final(self).senders@ == old(self).senders@,
            final(self).sink_queue@ == old(self).sink_queue@,
            final(self).meta_view() == old(self).meta_view(),
            final(self).picker == old(self).picker,
            final(self).opts == old(self).opts,
    {
        if self.senders.len() > 0 {
            self.last_active_ms = now_ms;
        }
        now_ms - self.last_active_ms > self.opts.player_inactive_timeout_ms
    }
}

/// Where the activity clock stands after a tick: any attached sink counts
/// as activity.
pub open spec fn next_last_active(last_active_ms: u64, n_senders: nat, now_ms: u64) -> u64 {
    if n_senders > 0 {
        now_ms
    } else {
        last_active_ms
    }
}

/// Whether a tick finds the player inactive past its timeout.
pub open spec fn tick_times_out(
    last_active_ms: u64,
    n_senders: nat,
    now_ms: u64,
    timeout_ms: u64,
) -> bool {
    now_ms - next_last_active(last_active_ms, n_senders, now_ms) > timeout_ms
}

/// Inactivity timeout: a player with no attached sinks never refreshes its
/// activity clock, so once more than the configured timeout has passed
/// since it was last active, its tick reports that it must terminate.
pub proof fn lemma_inactivity_timeout(
    last_active_ms: u64,
    now_ms: u64,
    timeout_ms: u64,
    n_senders: nat,
)
    requires
        n_senders == 0,
        now_ms >= last_active_ms,
        now_ms - last_active_ms > timeout_ms,
    ensures
        next_last_active(last_active_ms, n_senders, now_ms) == last_active_ms,
        tick_times_out(last_active_ms, n_senders, now_ms, timeout_ms),
{
}

} // verus!

verus! {

/// What a sink's drain task sends for one incoming chunk: the backlog, if
/// any, with the chunk appended; the backlog is emptied.
pub fn drain_payload(sink_buffer: &mut Vec<u8>, data: Vec<u8>) -> (out: Vec<u8>)
    ensures
        out@ == old(sink_buffer)@ + data@,
        final(sink_buffer)@ == Seq::<u8>::empty(),
{
    if sink_buffer.len() == 0 {
        proof {
            assert(sink_buffer@ + data@ =~= data@);
            assert(sink_buffer@ =~= Seq::<u8>::empty());
        }
        data
    } else {
        let mut out = copy_bytes(sink_buffer.as_slice());
        let mut i: usize = 0;
        while i < data.len()
            invariant
                i <= data@.len(),
                out@ == old(sink_buffer)@ + data@.take(i as int),
                sink_buffer@ == old(sink_buffer)@,
            decreases data@.len() - i,
        {
            out.push(data[i]);
            i = i + 1;
            proof {
                assert(old(sink_buffer)@ + data@.take(i as int) =~= (old(sink_buffer)@
                    + data@.take(i - 1)).push(data@[i - 1]));
            }
        }
        self_clear(sink_buffer);
        proof {
            assert(data@.take(data@.len() as int) =~= data@);
        }
        out
    }
}

/// Empties a buffer.
fn self_clear(buffer: &mut Vec<u8>)
    ensures
        final(buffer)@ == Seq::<u8>::empty(),
{
    let empty: Vec<u8> = Vec::new();
    proof {
        assert(empty@ =~= Seq::<u8>::empty());
    }
    *buffer = empty;
}

/// What a sink's drain task does when its channel bounced a payload back:
/// the payload joins the backlog, and the sink is abandoned as a slow
/// consumer exactly when the backlog has now outgrown the configured
/// bound.
pub fn drain_requeue(sink_buffer: &mut Vec<u8>, data_back: &[u8], max_buffer_size: usize) -> (abandon:
    bool)
    requires
        old(sink_buffer)@.len() + data_back@.len() <= usize::MAX,
    ensures
        final(sink_buffer)@ == old(sink_buffer)@ + data_back@,
        abandon == (final(sink_buffer)@.len() > max_buffer_size),
{
    let mut i: usize = 0;
    while i < data_back.len()
        invariant
            i <= data_back@.len(),
            old(sink_buffer)@.len() + data_back@.len() <= usize::MAX,
            sink_buffer@ == old(sink_buffer)@ + data_back@.take(i as int),
        decreases data_back@.len() - i,
    {
        sink_buffer.push(data_back[i]);
        i = i + 1;
        proof {
            assert(old(sink_buffer)@ + data_back@.take(i as int) =~= (old(sink_buffer)@
                + data_back@.take(i - 1)).push(data_back@[i - 1]));
        }
    }
    proof {
        assert(data_back@.take(data_back@.len() as int) =~= data_back@);
    }
    sink_buffer.len() > max_buffer_size
}

/// What the shell observed while driving one poll tick of a player's
/// fetch loop.
pub enum FetchEvent {
    /// The media playlist could not be fetched or parsed.
    PlaylistFailed(crate::api::ApiError),
    /// A video segment's fetch failed.
    SegmentFailed(crate::api::HttpError),
    /// A fetch ran past the configured fetch deadline.
    FetchTimedOut,
    /// A chosen segment's stream ended before its first chunk.
    SegmentEmpty,
    /// The tick ran to completion, with or without a new segment.
    Completed,
}

/// How the fetch loop ends after one tick, if it does: a failed fetch, an
/// overrun deadline or an empty segment is fatal; a completed tick ends
/// the loop only when the inactivity clock has run out. The loop's shell
/// reports exactly this outcome.
pub fn loop_outcome(event: FetchEvent, inactive_too_long: bool) -> (r: Option<StreamPlayerError>)
    ensures
        r == (match event {
            FetchEvent::PlaylistFailed(e) => Some(StreamPlayerError::FetchPlaylistFail(e)),
            FetchEvent::SegmentFailed(e) => Some(StreamPlayerError::FetchSegmentFail(e)),
            FetchEvent::FetchTimedOut => Some(StreamPlayerError::TooLongToFetch),
            FetchEvent::SegmentEmpty => Some(StreamPlayerError::EmptySegment),
            FetchEvent::Completed => (if inactive_too_long {
                Some(StreamPlayerError::InactiveTooLong)
            } else {
                None::<StreamPlayerError>
            }),
        }),
{
    match event {
        FetchEvent::PlaylistFailed(e) => Some(StreamPlayerError::FetchPlaylistFail(e)),
        FetchEvent::SegmentFailed(e) => Some(StreamPlayerError::FetchSegmentFail(e)),
        FetchEvent::FetchTimedOut => Some(StreamPlayerError::TooLongToFetch),
        FetchEvent::SegmentEmpty => Some(StreamPlayerError::EmptySegment),
        FetchEvent::Completed => {
            if inactive_too_long {
                Some(StreamPlayerError::InactiveTooLong)
            } else {
                None
            }
        },
    }
}

/// How the player's fetch loop can end: every run terminates with one of
/// these or runs on.
#[derive(Debug)]
pub enum StreamPlayerError {
    /// Fetching or parsing the media playlist failed.
    FetchPlaylistFail(crate::api::ApiError),
    /// Fetching a video segment failed.
    FetchSegmentFail(crate::api::HttpError),
    /// Nobody was attached for longer than the inactivity timeout.
    InactiveTooLong,
    /// A fetch ran past the fetch deadline.
    TooLongToFetch,
    /// A segment stream ended before its first chunk.
    EmptySegment,
}

} // verus!

verus! {

/// One chunk of a segment's byte stream: the head, on which metadata
/// extraction and sink promotion happen, or a tail chunk.
pub enum SegmentChunk {
    Head(Vec<u8>),
    Tail(Vec<u8>),
}

impl SegmentChunk {
    /// The chunk's bytes, head or tail alike.
    pub fn into_data(self) -> (r: Vec<u8>)
        ensures
            r@ == (match self {
                SegmentChunk::Head(d) => d@,
                SegmentChunk::Tail(d) => d@,
            }),
    {
        match self {
            SegmentChunk::Head(d) => d,
            SegmentChunk::Tail(d) => d,
        }
    }
}

} // verus!

verus! {

/// Everything before the last slash of a playlist address: the origin
/// segment locations are resolved against.
pub open spec fn spec_origin_of(url: Seq<u8>) -> Option<Seq<u8>> {
    if exists|i: int| 0 <= i < url.len() && url[i] == crate::text::SLASH {
        let last = choose|i: int|
            0 <= i < url.len() && url[i] == crate::text::SLASH && forall|j: int|
                i < j < url.len() ==> url[j] != crate::text::SLASH;
        Some(url.take(last))
    } else {
        None
    }
}

/// The address a segment is fetched from: an absolute location stands as
/// it is; a relative one is joined to the playlist's origin. A playlist
/// address without any slash has no origin to join to.
pub open spec fn spec_segment_url(playlist_url: Seq<u8>, location: Seq<u8>) -> Option<Seq<u8>> {
    if crate::text::has_prefix(location, "http://".spec_bytes()) {
        Some(location)
    } else {
        match spec_origin_of(playlist_url) {
            Some(origin) => Some(origin + seq![crate::text::SLASH] + location),
            None => None,
        }
    }
}

/// Resolves a segment's address against its playlist's.
pub fn segment_url(playlist_url: &[u8], location: &[u8]) -> (r: Option<Vec<u8>>)
    ensures
        match r {
            Some(u) => spec_segment_url(playlist_url@, location@) == Some(u@),
            None => spec_segment_url(playlist_url@, location@) is None,
        },
{
    if crate::text::starts_with(location, "http://".as_bytes()) {
        return Some(copy_bytes(location));
    }
    let mut i: usize = playlist_url.len();
    while i > 0
        invariant
            i <= playlist_url@.len(),
            !crate::text::has_prefix(location@, "http://".spec_bytes()),
            forall|j: int|
                i <= j < playlist_url@.len() ==> (#[trigger] playlist_url@[j])
                    != crate::text::SLASH,
        decreases i,
    {
        i = i - 1;
        if playlist_url[i] == crate::text::SLASH {
            let mut out = crate::text::sub_bytes(playlist_url, 0, i);
            out.push(crate::text::SLASH);
            crate::api::append_bytes(&mut out, location);
            proof {
                let url = playlist_url@;
                assert(url[i as int] == crate::text::SLASH);
                assert(forall|j: int|
                    i < j < url.len() ==> #[trigger] url[j] != crate::text::SLASH);
                assert(exists|k: int| 0 <= k < url.len() && url[k] == crate::text::SLASH);
                let last = choose|k: int|
                    0 <= k < url.len() && url[k] == crate::text::SLASH && forall|j: int|
                        k < j < url.len() ==> url[j] != crate::text::SLASH;
                if last < i {
                    assert(url[i as int] != crate::text::SLASH);
                }
                if i < last {
                    assert(url[last] != crate::text::SLASH);
                }
                assert(last == i);
                assert(spec_origin_of(url) == Some(url.take(i as int)));
                assert(out@ =~= url.take(i as int) + seq![crate::text::SLASH] + location@);
                assert(!crate::text::has_prefix(location@, "http://".spec_bytes()));
                assert(spec_segment_url(playlist_url@, location@) == Some(out@));
            }
            return Some(out);
        }
    }
    proof {
        assert(forall|j: int|
            0 <= j < playlist_url@.len() ==> (#[trigger] playlist_url@[j]) != crate::text::SLASH);
    }
    None
}

} // verus!
