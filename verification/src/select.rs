//! Quality selection: resolving a requested `Quality` against the variants of
//! a stream index, by exact (case-insensitive) name or by bandwidth.

use vstd::prelude::*;

use crate::text::{bytes_eq, lower_bytes, to_lower};
use crate::types::{ApproxQuality, PlaylistInfo, PlaylistInfoV, Quality, StreamIndex};

verus! {

/// Whether `i` is the first variant whose lower-cased name equals `q`.
pub open spec fn is_first_exact(infos: Seq<PlaylistInfoV>, q: Seq<u8>, i: int) -> bool {
    &&& 0 <= i < infos.len()
    &&& lower_bytes(infos[i].media_info.name) == q
    &&& forall|j: int| 0 <= j < i ==> lower_bytes(#[trigger] infos[j].media_info.name) != q
}

/// Whether some variant's lower-cased name equals `q`.
pub open spec fn has_exact(infos: Seq<PlaylistInfoV>, q: Seq<u8>) -> bool {
    exists|i: int|
        0 <= i < infos.len() && lower_bytes(#[trigger] infos[i].media_info.name) == q
}

/// Whether `i` is the highest-bandwidth variant, taking the last on ties.
pub open spec fn is_best_idx(infos: Seq<PlaylistInfoV>, i: int) -> bool {
    &&& 0 <= i < infos.len()
    &&& forall|j: int|
        0 <= j < infos.len() ==> (#[trigger] infos[j].stream_info.bandwidth)
            <= infos[i].stream_info.bandwidth
    &&& forall|j: int|
        i < j < infos.len() ==> (#[trigger] infos[j].stream_info.bandwidth)
            < infos[i].stream_info.bandwidth
}

/// Whether `i` is the lowest-bandwidth variant, taking the first on ties.
pub open spec fn is_worst_idx(infos: Seq<PlaylistInfoV>, i: int) -> bool {
    &&& 0 <= i < infos.len()
    &&& forall|j: int|
        0 <= j < infos.len() ==> (#[trigger] infos[j].stream_info.bandwidth)
            >= infos[i].stream_info.bandwidth
    &&& forall|j: int|
        0 <= j < i ==> (#[trigger] infos[j].stream_info.bandwidth)
            > infos[i].stream_info.bandwidth
}

/// What a requested quality resolves to among `infos`: the first exact name
/// match for an exact quality, the extreme bandwidth for an approximate one,
/// and the first variant when an exact name matches nothing.
pub open spec fn resolves_to(infos: Seq<PlaylistInfoV>, q: crate::types::QualityV, p: PlaylistInfoV) -> bool {
    match q {
        crate::types::QualityV::Exact(name) => (if has_exact(infos, name) {
            exists|i: int| is_first_exact(infos, name, i) && p == #[trigger] infos[i]
        } else {
            infos.len() > 0 && p == infos[0]
        }),
        crate::types::QualityV::Approx(ApproxQuality::Best) => exists|i: int|
            is_best_idx(infos, i) && p == #[trigger] infos[i],
        crate::types::QualityV::Approx(ApproxQuality::Worst) => exists|i: int|
            is_worst_idx(infos, i) && p == #[trigger] infos[i],
    }
}

/// Picks the variant a requested quality resolves to. An index without
/// variants resolves to nothing.
#[verifier::rlimit(50)]
pub fn find_playlist(index: &StreamIndex, quality: &Quality) -> (r: Option<PlaylistInfo>)
    ensures
        match r {
            Some(p) => resolves_to(index@.playlist_infos, quality@, p@),
            None => index@.playlist_infos.len() == 0,
        },
{
    let infos = &index.playlist_infos;
    let n = infos.len();
    if n == 0 {
        return None;
    }
    match quality {
        Quality::Exact(q) => {
            let mut i: usize = 0;
            while i < n
                invariant
                    n == infos@.len(),
                    infos@ == index.playlist_infos@,
                    quality@ == crate::types::QualityV::Exact(q@),
                    i <= n,
                    forall|j: int|
                        0 <= j < i ==> lower_bytes(
                            #[trigger] index@.playlist_infos[j].media_info.name,
                        ) != q@,
                decreases n - i,
            {
                let lowered = to_lower(infos[i].media_info.name.as_slice());
                if bytes_eq(lowered.as_slice(), q.as_slice()) {
                    let p = infos[i].duplicate();
                    proof {
                        assert(index@.playlist_infos[i as int] == infos@[i as int]@);
                        assert(is_first_exact(index@.playlist_infos, q@, i as int));
                        assert(p@ == index@.playlist_infos[i as int]);
                        assert(has_exact(index@.playlist_infos, q@));
                        assert(quality@ == crate::types::QualityV::Exact(q@));
                        assert(resolves_to(index@.playlist_infos, quality@, p@));
                    }
                    return Some(p);
                }
                i = i + 1;
            }
            let p = infos[0].duplicate();
            proof {
                assert(!has_exact(index@.playlist_infos, q@));
                assert(p@ == index@.playlist_infos[0]);
            }
            Some(p)
        },
        Quality::Approx(a) => {
            let take_best = match a {
                ApproxQuality::Best => true,
                ApproxQuality::Worst => false,
            };
            let mut pick: usize = 0;
            let mut i: usize = 1;
            while i < n
                invariant
                    n == infos@.len(),
                    infos@ == index.playlist_infos@,
                    0 < n,
                    pick < i <= n,
                    take_best ==> forall|j: int|
                        0 <= j < i ==> (#[trigger] index@.playlist_infos[j].stream_info.bandwidth)
                            <= index@.playlist_infos[pick as int].stream_info.bandwidth,
                    take_best ==> forall|j: int|
                        pick < j < i ==> (#[trigger] index@.playlist_infos[j].stream_info.bandwidth)
                            < index@.playlist_infos[pick as int].stream_info.bandwidth,
                    !take_best ==> forall|j: int|
                        0 <= j < i ==> (#[trigger] index@.playlist_infos[j].stream_info.bandwidth)
                            >= index@.playlist_infos[pick as int].stream_info.bandwidth,
                    !take_best ==> forall|j: int|
                        0 <= j < pick ==> (#[trigger] index@.playlist_infos[j].stream_info.bandwidth)
                            > index@.playlist_infos[pick as int].stream_info.bandwidth,
                decreases n - i,
            {
                proof {
                    assert(index@.playlist_infos[i as int] == infos@[i as int]@);
                    assert(index@.playlist_infos[pick as int] == infos@[pick as int]@);
                }
                if take_best {
                    if infos[i].stream_info.bandwidth >= infos[pick].stream_info.bandwidth {
                        pick = i;
                    }
                } else {
                    if infos[i].stream_info.bandwidth < infos[pick].stream_info.bandwidth {
                        pick = i;
                    }
                }
                i = i + 1;
            }
            proof {
                if take_best {
                    assert(is_best_idx(index@.playlist_infos, pick as int));
                } else {
                    assert(is_worst_idx(index@.playlist_infos, pick as int));
                }
            }
            let p = infos[pick].duplicate();
            proof {
                assert(p@ == index@.playlist_infos[pick as int]);
            }
            Some(p)
        },
    }
}

} // verus!
