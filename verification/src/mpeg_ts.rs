//! The MPEG-TS metadata extractor: locates the JSON record Twitch embeds in
//! the PES payload of the fourth 188-byte transport packet of a segment's
//! first chunk, spilling into the fifth packet when the record does not fit.
//! Absence of metadata is never an error, only `None`.

use vstd::prelude::*;

use crate::text::{sub_bytes, BRACE_CLOSE, BRACE_OPEN, PAD_BYTE};

verus! {

/// One transport packet is 188 bytes; the metadata packet is the fourth.
pub const TS_PACKET_LEN: usize = 188;

/// Where the fourth packet begins.
pub const FIRST_PES_OFFSET: usize = 564;

/// Where the fifth packet begins.
pub const SECOND_PES_OFFSET: usize = 752;

/// Where the fifth packet ends.
pub const SECOND_PES_END: usize = 940;

/// Whether the bytes parse as one JSON object, exactly as the JSON parser
/// linked into the daemon decides it; a function of the bytes alone.
pub uninterp spec fn is_metadata_json(s: Seq<u8>) -> bool;

/// Relies on serde_json::from_slice::<serde_json::Value>: whether a byte
/// slice parses as a JSON document, and on serde_json::Value's variants to
/// tell an object from any other document. The result depends on the bytes
/// alone.
#[verifier::external_body]
fn json_object_check(b: &[u8]) -> (r: bool)
    ensures
        r == is_metadata_json(b@),
{
    match serde_json::from_slice::<serde_json::Value>(b) {
        Ok(serde_json::Value::Object(_)) => true,
        _ => false,
    }
}

/// A per-segment metadata record: the raw JSON object found in the
/// transport stream, relayed to clients without interpretation.
pub struct SegmentMetadata {
    pub raw: Vec<u8>,
}

impl View for SegmentMetadata {
    type V = Seq<u8>;

    open spec fn view(&self) -> Seq<u8> {
        self.raw@
    }
}

impl SegmentMetadata {
    /// Whether the record holds what the extractor promises: a JSON object.
    pub open spec fn wf(&self) -> bool {
        is_metadata_json(self.raw@)
    }

    pub fn duplicate(&self) -> (r: SegmentMetadata)
        ensures
            r@ == self@,
    {
        SegmentMetadata { raw: crate::text::copy_bytes(self.raw.as_slice()) }
    }
}

/// The first index in `[from, to)` holding `needle`.
pub open spec fn first_in_range(s: Seq<u8>, from: int, to: int, needle: u8) -> Option<int>
    decreases to - from,
{
    if from < 0 || from >= to || to > s.len() {
        None
    } else if s[from] == needle {
        Some(from)
    } else {
        first_in_range(s, from + 1, to, needle)
    }
}

/// The last index in `[from, end)` holding `needle`.
pub open spec fn last_in_range(s: Seq<u8>, from: int, end: int, needle: u8) -> Option<int>
    decreases end - from,
{
    if from < 0 || from >= end || end > s.len() {
        None
    } else if s[end - 1] == needle {
        Some(end - 1)
    } else {
        last_in_range(s, from, end - 1, needle)
    }
}

/// Searches `[from, to)` of `s` for the first occurrence of `needle`.
fn find_in_range(s: &[u8], from: usize, to: usize, needle: u8) -> (r: Option<usize>)
    requires
        to <= s@.len(),
    ensures
        match r {
            Some(idx) => from <= idx < to && first_in_range(s@, from as int, to as int, needle)
                == Some(idx as int),
            None => first_in_range(s@, from as int, to as int, needle) is None,
        },
{
    let mut i: usize = from;
    if from >= to {
        return None;
    }
    while i < to
        invariant
            from <= i <= to <= s@.len(),
            first_in_range(s@, from as int, to as int, needle) == first_in_range(
                s@,
                i as int,
                to as int,
                needle,
            ),
        decreases to - i,
    {
        if s[i] == needle {
            return Some(i);
        }
        i = i + 1;
    }
    None
}

/// Searches `[from, end)` of `s` backward for the last occurrence of
/// `needle`.
fn rfind_in_range(s: &[u8], from: usize, end: usize, needle: u8) -> (r: Option<usize>)
    requires
        end <= s@.len(),
    ensures
        match r {
            Some(idx) => from <= idx < end && last_in_range(s@, from as int, end as int, needle)
                == Some(idx as int),
            None => last_in_range(s@, from as int, end as int, needle) is None,
        },
{
    if from >= end {
        return None;
    }
    let mut i: usize = end;
    while i > from
        invariant
            from <= i <= end <= s@.len(),
            last_in_range(s@, from as int, end as int, needle) == last_in_range(
                s@,
                from as int,
                i as int,
                needle,
            ),
        decreases i,
    {
        i = i - 1;
        if s[i] == needle {
            return Some(i);
        }
    }
    None
}

/// The JSON candidate the fixed-offset rule selects in `data`: the bytes
/// from the first `{` of the fourth packet to the matching `}` in the same
/// packet, or, when no `}` follows there, the rest of the fourth packet
/// joined with the fifth packet's tail from past its last padding byte
/// before its first `}`. `None` when the structure is absent or the buffer
/// too short.
pub open spec fn spec_metadata_slice(data: Seq<u8>) -> Option<Seq<u8>> {
    if data.len() < SECOND_PES_OFFSET {
        None
    } else {
        match first_in_range(data, FIRST_PES_OFFSET as int, SECOND_PES_OFFSET as int, BRACE_OPEN) {
            None => None,
            Some(start) => match first_in_range(
                data,
                start,
                SECOND_PES_OFFSET as int,
                BRACE_CLOSE,
            ) {
                Some(close) => Some(data.subrange(start, close + 1)),
                None => {
                    if data.len() < SECOND_PES_END {
                        None
                    } else {
                        match first_in_range(
                            data,
                            SECOND_PES_OFFSET as int,
                            SECOND_PES_END as int,
                            BRACE_CLOSE,
                        ) {
                            None => None,
                            Some(close2) => match last_in_range(
                                data,
                                SECOND_PES_OFFSET as int,
                                close2,
                                PAD_BYTE,
                            ) {
                                None => None,
                                Some(pad) => Some(
                                    data.subrange(start, SECOND_PES_OFFSET as int)
                                        + data.subrange(pad + 1, close2 + 1),
                                ),
                            },
                        }
                    }
                },
            },
        }
    }
}

/// Extracts the embedded metadata record from the first chunk of a
/// segment's transport stream: the candidate the fixed-offset rule selects,
/// if it is a JSON object. A short buffer or a candidate that is not JSON
/// yields `None`, never an error.
pub fn extract_metadata(data: &[u8]) -> (r: Option<SegmentMetadata>)
    ensures
        match r {
            Some(m) => spec_metadata_slice(data@) == Some(m@) && m.wf(),
            None => match spec_metadata_slice(data@) {
                None => true,
                Some(s) => !is_metadata_json(s),
            },
        },
{
    if data.len() < SECOND_PES_OFFSET {
        return None;
    }
    let start = match find_in_range(data, FIRST_PES_OFFSET, SECOND_PES_OFFSET, BRACE_OPEN) {
        Some(i) => i,
        None => {
            return None;
        },
    };
    match find_in_range(data, start, SECOND_PES_OFFSET, BRACE_CLOSE) {
        Some(close) => {
            let candidate = sub_bytes(data, start, close + 1);
            proof {
                assert(data@.len() >= SECOND_PES_OFFSET);
                assert(first_in_range(
                    data@,
                    FIRST_PES_OFFSET as int,
                    SECOND_PES_OFFSET as int,
                    BRACE_OPEN,
                ) == Some(start as int));
                assert(first_in_range(data@, start as int, SECOND_PES_OFFSET as int, BRACE_CLOSE)
                    == Some(close as int));
                assert(spec_metadata_slice(data@) == Some(data@.subrange(
                    start as int,
                    close + 1,
                )));
            }
            if json_object_check(candidate.as_slice()) {
                Some(SegmentMetadata { raw: candidate })
            } else {
                None
            }
        },
        None => {
            if data.len() < SECOND_PES_END {
                return None;
            }
            let close2 = match find_in_range(data, SECOND_PES_OFFSET, SECOND_PES_END, BRACE_CLOSE)
                {
                Some(i) => i,
                None => {
                    return None;
                },
            };
            let pad = match rfind_in_range(data, SECOND_PES_OFFSET, close2, PAD_BYTE) {
                Some(i) => i,
                None => {
                    return None;
                },
            };
            let mut candidate = sub_bytes(data, start, SECOND_PES_OFFSET);
            let continuation = sub_bytes(data, pad + 1, close2 + 1);
            let mut continuation = continuation;
            let ghost head = candidate@;
            let ghost tail = continuation@;
            let mut ci: usize = 0;
            while ci < continuation.len()
                invariant
                    ci <= continuation@.len(),
                    continuation@ == tail,
                    candidate@ == head + tail.take(ci as int),
                decreases continuation@.len() - ci,
            {
                let b = continuation[ci];
                candidate.push(b);
                ci = ci + 1;
                proof {
                    assert(head + tail.take(ci as int) =~= (head + tail.take(ci - 1)).push(
                        tail[ci - 1],
                    ));
                }
            }
            proof {
                assert(tail.take(tail.len() as int) =~= tail);
                assert(candidate@ =~= head + tail);
                assert(spec_metadata_slice(data@) == Some(head + tail));
            }
            if json_object_check(candidate.as_slice()) {
                Some(SegmentMetadata { raw: candidate })
            } else {
                None
            }
        },
    }
}

} // verus!
