//! The daemon's configuration values and the parsers for their textual
//! forms: durations such as `60s` or `1500ms`, byte sizes such as `128K`,
//! and the runtime threading strategy.

use vstd::prelude::*;

use crate::text::{
    dec_value, is_digit, lower_bytes, sub_bytes, to_lower, DIGIT_9, SLASH,
};
use vstd::string::StringSliceAdditionalSpecFns;

verus! {

/// How the runtime schedules the daemon's tasks.
#[derive(Clone, Copy, PartialEq, Eq, Structural, Debug)]
pub enum RuntimeStrategy {
    Single,
    Multi,
}

/// Reads a runtime strategy, case-insensitively; anything but `single` or
/// `multi` is refused.
pub fn parse_runtime_strategy(src: &[u8]) -> (r: Option<RuntimeStrategy>)
    ensures
        r == (if lower_bytes(src@) == "single".spec_bytes() {
            Some(RuntimeStrategy::Single)
        } else if lower_bytes(src@) == "multi".spec_bytes() {
            Some(RuntimeStrategy::Multi)
        } else {
            None::<RuntimeStrategy>
        }),
{
    let lowered = to_lower(src);
    if crate::text::bytes_eq(lowered.as_slice(), "single".as_bytes()) {
        Some(RuntimeStrategy::Single)
    } else if crate::text::bytes_eq(lowered.as_slice(), "multi".as_bytes()) {
        Some(RuntimeStrategy::Multi)
    } else {
        None
    }
}

/// A duration numeral: one or more digits, then `s` or `ms` in any case.
/// Text after the unit is ignored.
pub open spec fn spec_duration_ms(src: Seq<u8>) -> Option<nat> {
    let digits = digits_prefix(src);
    if digits.len() == 0 {
        None
    } else {
        let rest = src.skip(digits.len() as int);
        if rest.len() >= 1 && lower_bytes(rest.take(1)) == "s".spec_bytes() {
            Some(dec_value(digits) * 1000)
        } else if rest.len() >= 2 && lower_bytes(rest.take(2)) == "ms".spec_bytes() {
            Some(dec_value(digits))
        } else {
            None
        }
    }
}

/// The longest run of digits at the front of `s`.
pub open spec fn digits_prefix(s: Seq<u8>) -> Seq<u8>
    decreases s.len(),
{
    if s.len() == 0 || !is_digit(s[0]) {
        Seq::empty()
    } else {
        seq![s[0]] + digits_prefix(s.skip(1))
    }
}

/// Reads a duration into milliseconds. A duration whose millisecond count
/// does not fit a machine word is refused.
pub fn parse_duration(src: &[u8]) -> (r: Option<u64>)
    ensures
        match r {
            Some(ms) => spec_duration_ms(src@) == Some(ms as nat),
            None => spec_duration_ms(src@) is None || spec_duration_ms(src@).unwrap()
                > u64::MAX,
        },
{
    let mut i: usize = 0;
    proof {
        assert(src@.skip(0) =~= src@);
        assert(src@.take(0) + digits_prefix(src@) =~= digits_prefix(src@));
    }
    while i < src.len() && src[i] >= crate::text::DIGIT_0 && src[i] <= DIGIT_9
        invariant
            i <= src@.len(),
            forall|j: int| 0 <= j < i ==> is_digit(#[trigger] src@[j]),
            digits_prefix(src@) == src@.take(i as int) + digits_prefix(src@.skip(i as int)),
        decreases src@.len() - i,
    {
        proof {
            lemma_digits_prefix_step(src@, i as int);
        }
        i = i + 1;
    }
    proof {
        if i < src@.len() {
            assert(digits_prefix(src@.skip(i as int)) =~= Seq::<u8>::empty());
        } else {
            assert(digits_prefix(src@.skip(i as int)) =~= Seq::<u8>::empty());
        }
        assert(digits_prefix(src@) =~= src@.take(i as int));
    }
    if i == 0 {
        return None;
    }
    let digits = sub_bytes(src, 0, i);
    proof {
        assert(digits@ =~= src@.take(i as int));
    }
    let value = match crate::text::parse_u64(digits.as_slice()) {
        Some(v) => v,
        None => {
            proof {
                crate::text::lemma_dec_digits_plain(digits@);
            }
            return None;
        },
    };
    proof {
        crate::text::lemma_dec_digits_plain(digits@);
    }
    let rest = sub_bytes(src, i, src.len());
    proof {
        assert(rest@ =~= src@.skip(i as int));
    }
    if rest.len() >= 1 {
        let unit1 = to_lower(sub_bytes(rest.as_slice(), 0, 1).as_slice());
        proof {
            assert(rest@.take(1) =~= rest@.subrange(0, 1));
        }
        if crate::text::bytes_eq(unit1.as_slice(), "s".as_bytes()) {
            if value > u64::MAX / 1000 {
                return None;
            }
            return Some(value * 1000);
        }
    }
    if rest.len() >= 2 {
        let unit2 = to_lower(sub_bytes(rest.as_slice(), 0, 2).as_slice());
        proof {
            assert(rest@.take(2) =~= rest@.subrange(0, 2));
        }
        if crate::text::bytes_eq(unit2.as_slice(), "ms".as_bytes()) {
            return Some(value);
        }
    }
    None
}

/// Unfolding one digit off the front of the digit prefix.
proof fn lemma_digits_prefix_step(s: Seq<u8>, i: int)
    requires
        0 <= i < s.len(),
        is_digit(s[i]),
        digits_prefix(s) == s.take(i) + digits_prefix(s.skip(i)),
    ensures
        digits_prefix(s) == s.take(i + 1) + digits_prefix(s.skip(i + 1)),
{
    assert(s.skip(i)[0] == s[i]);
    assert(s.skip(i).skip(1) =~= s.skip(i + 1));
    assert(digits_prefix(s.skip(i)) == seq![s[i]] + digits_prefix(s.skip(i + 1)));
    assert(s.take(i) + (seq![s[i]] + digits_prefix(s.skip(i + 1))) =~= s.take(i + 1)
        + digits_prefix(s.skip(i + 1)));
}

/// A byte-size numeral: one or more digits, then at most one of `b`, `k`
/// or `m` in any case, consuming the whole of `src`.
pub open spec fn spec_byte_size(src: Seq<u8>) -> Option<nat> {
    let digits = digits_prefix(src);
    if digits.len() == 0 {
        None
    } else {
        let rest = src.skip(digits.len() as int);
        if rest.len() == 0 {
            Some(dec_value(digits))
        } else if rest.len() == 1 && lower_bytes(rest) == "b".spec_bytes() {
            Some(dec_value(digits))
        } else if rest.len() == 1 && lower_bytes(rest) == "k".spec_bytes() {
            Some(dec_value(digits) * 1000)
        } else if rest.len() == 1 && lower_bytes(rest) == "m".spec_bytes() {
            Some(dec_value(digits) * 1000000)
        } else {
            None
        }
    }
}

/// Reads a byte size. A size that does not fit a machine word is refused.
pub fn parse_byte_size(src: &[u8]) -> (r: Option<usize>)
    ensures
        match r {
            Some(n) => spec_byte_size(src@) == Some(n as nat),
            None => spec_byte_size(src@) is None || spec_byte_size(src@).unwrap() > usize::MAX,
        },
{
    let mut i: usize = 0;
    proof {
        assert(src@.skip(0) =~= src@);
        assert(src@.take(0) + digits_prefix(src@) =~= digits_prefix(src@));
    }
    while i < src.len() && src[i] >= crate::text::DIGIT_0 && src[i] <= DIGIT_9
        invariant
            i <= src@.len(),
            forall|j: int| 0 <= j < i ==> is_digit(#[trigger] src@[j]),
            digits_prefix(src@) == src@.take(i as int) + digits_prefix(src@.skip(i as int)),
        decreases src@.len() - i,
    {
        proof {
            lemma_digits_prefix_step(src@, i as int);
        }
        i = i + 1;
    }
    proof {
        assert(digits_prefix(src@.skip(i as int)) =~= Seq::<u8>::empty());
        assert(digits_prefix(src@) =~= src@.take(i as int));
    }
    if i == 0 {
        return None;
    }
    let digits = sub_bytes(src, 0, i);
    proof {
        assert(digits@ =~= src@.take(i as int));
    }
    let value64 = match crate::text::parse_u64(digits.as_slice()) {
        Some(v) => v,
        None => {
            proof {
                crate::text::lemma_dec_digits_plain(digits@);
            }
            return None;
        },
    };
    proof {
        crate::text::lemma_dec_digits_plain(digits@);
    }
    if value64 > usize::MAX as u64 {
        return None;
    }
    let value = value64 as usize;
    let rest = sub_bytes(src, i, src.len());
    proof {
        assert(rest@ =~= src@.skip(i as int));
    }
    if rest.len() == 0 {
        return Some(value);
    }
    if rest.len() != 1 {
        return None;
    }
    let unit = to_lower(rest.as_slice());
    if crate::text::bytes_eq(unit.as_slice(), "b".as_bytes()) {
        Some(value)
    } else if crate::text::bytes_eq(unit.as_slice(), "k".as_bytes()) {
        if value > usize::MAX / 1000 {
            return None;
        }
        Some(value * 1000)
    } else if crate::text::bytes_eq(unit.as_slice(), "m".as_bytes()) {
        if value > usize::MAX / 1000000 {
            return None;
        }
        Some(value * 1000000)
    } else {
        None
    }
}

/// Strips the protocol prefix from a channel argument and any trailing
/// slashes it carried.
pub open spec fn spec_parse_channel(src: Seq<u8>) -> Seq<u8> {
    if crate::text::has_prefix(src, "twitch-player://".spec_bytes()) {
        drop_trailing_slashes(src.skip("twitch-player://".spec_bytes().len() as int))
    } else {
        src
    }
}

/// `s` without its trailing slashes.
pub open spec fn drop_trailing_slashes(s: Seq<u8>) -> Seq<u8>
    decreases s.len(),
{
    if s.len() > 0 && s.last() == SLASH {
        drop_trailing_slashes(s.drop_last())
    } else {
        s
    }
}

/// Reads a channel argument: a bare channel name, or a protocol address
/// such as `twitch-player://somechannel/`.
pub fn parse_channel(src: &[u8]) -> (r: Vec<u8>)
    ensures
        r@ == spec_parse_channel(src@),
{
    let prefix = "twitch-player://".as_bytes();
    if crate::text::starts_with(src, prefix) {
        let mut end = src.len();
        proof {
            assert(src@.skip(prefix@.len() as int).take(end - prefix@.len() as int)
                =~= src@.skip(prefix@.len() as int));
            assert(drop_trailing_slashes(src@.skip(prefix@.len() as int))
                == drop_trailing_slashes(src@.skip(prefix@.len() as int).take(
                end - prefix@.len() as int,
            )));
        }
        while end > prefix.len() && src[end - 1] == SLASH
            invariant
                prefix@.len() <= end <= src@.len(),
                crate::text::has_prefix(src@, prefix@),
                drop_trailing_slashes(src@.skip(prefix@.len() as int)) == drop_trailing_slashes(
                    src@.skip(prefix@.len() as int).take(end - prefix@.len() as int),
                ),
            decreases end,
        {
            proof {
                let tail = src@.skip(prefix@.len() as int).take(end - prefix@.len() as int);
                assert(tail.last() == src@[end - 1]);
                assert(tail.drop_last() =~= src@.skip(prefix@.len() as int).take(
                    end - 1 - prefix@.len() as int,
                ));
            }
            end = end - 1;
        }
        let r = sub_bytes(src, prefix.len(), end);
        proof {
            let tail = src@.skip(prefix@.len() as int).take(end - prefix@.len() as int);
            assert(r@ =~= tail);
            if end > prefix@.len() {
                assert(tail.last() == src@[end - 1]);
            }
            assert(drop_trailing_slashes(tail) == tail);
        }
        r
    } else {
        crate::text::copy_bytes(src)
    }
}

/// Everything the daemon is configured with, as plain values: durations in
/// milliseconds, sizes in bytes.
pub struct Options {
    pub host: Vec<u8>,
    pub port: u16,
    pub client_id: Vec<u8>,
    pub index_cache_timeout_ms: u64,
    pub player_playlist_fetch_interval_ms: u64,
    pub player_inactive_timeout_ms: u64,
    pub player_fetch_timeout_ms: u64,
    pub player_video_chunks_size: usize,
    pub player_max_sink_buffer_size: usize,
    pub runtime_strategy: RuntimeStrategy,
}

impl Options {
    /// A configuration the player can run with: chunks have a size.
    pub open spec fn wf(&self) -> bool {
        self.player_video_chunks_size > 0
    }

    pub fn duplicate(&self) -> (r: Options)
        ensures
            r.host@ == self.host@,
            r.port == self.port,
            r.client_id@ == self.client_id@,
            r.index_cache_timeout_ms == self.index_cache_timeout_ms,
            r.player_playlist_fetch_interval_ms == self.player_playlist_fetch_interval_ms,
            r.player_inactive_timeout_ms == self.player_inactive_timeout_ms,
            r.player_fetch_timeout_ms == self.player_fetch_timeout_ms,
            r.player_video_chunks_size == self.player_video_chunks_size,
            r.player_max_sink_buffer_size == self.player_max_sink_buffer_size,
            r.runtime_strategy == self.runtime_strategy,
    {
        Options {
            host: crate::text::copy_bytes(self.host.as_slice()),
            port: self.port,
            client_id: crate::text::copy_bytes(self.client_id.as_slice()),
            index_cache_timeout_ms: self.index_cache_timeout_ms,
            player_playlist_fetch_interval_ms: self.player_playlist_fetch_interval_ms,
            player_inactive_timeout_ms: self.player_inactive_timeout_ms,
            player_fetch_timeout_ms: self.player_fetch_timeout_ms,
            player_video_chunks_size: self.player_video_chunks_size,
            player_max_sink_buffer_size: self.player_max_sink_buffer_size,
            runtime_strategy: self.runtime_strategy,
        }
    }
}

} // verus!
