//! The M3U8 parser for the two Twitch-flavored playlist formats: the stream
//! index (quality variants) and the media playlist (segment list). The
//! grammar is line-oriented: tagged header lines carry comma-separated
//! `KEY=value` attribute lists whose values may be quoted; segment and
//! variant blocks follow. Every parsing function is specified against a
//! functional description of the grammar over byte sequences.

use vstd::prelude::*;

use crate::text::{
    all_digits, bytes_eq, copy_bytes, dec_digits, dec_value, find_byte, first_index_from,
    has_prefix, is_digit, is_dec_numeral, lower_bytes, parse_u32, parse_u64, starts_with,
    sub_bytes, to_lower, COMMA, DIGIT_9, DOT, EQUALS, LOWER_E, LOWER_X, MINUS, NEWLINE, PLUS,
    QUOTE, UPPER_E,
};
use vstd::string::StringSliceAdditionalSpecFns;

verus! {

/// A structured parse failure: the rule that failed and what it saw.
#[derive(Debug)]
pub enum ParseError {
    /// A required tag line is absent or malformed.
    MissingTag(Vec<u8>),
    /// A required attribute key is absent from its attribute list.
    MissingKey(Vec<u8>),
    /// An attribute or header value does not have its required form; carries
    /// the key or tag and the offending raw value.
    BadValue(Vec<u8>, Vec<u8>),
    /// An attribute list is not a well-formed `KEY=value` list.
    BadAttributes,
}

/// The mathematical form of a `ParseError`.
pub enum ParseErrorV {
    MissingTag(Seq<u8>),
    MissingKey(Seq<u8>),
    BadValue(Seq<u8>, Seq<u8>),
    BadAttributes,
}

impl View for ParseError {
    type V = ParseErrorV;

    open spec fn view(&self) -> ParseErrorV {
        match self {
            ParseError::MissingTag(t) => ParseErrorV::MissingTag(t@),
            ParseError::MissingKey(k) => ParseErrorV::MissingKey(k@),
            ParseError::BadValue(k, v) => ParseErrorV::BadValue(k@, v@),
            ParseError::BadAttributes => ParseErrorV::BadAttributes,
        }
    }
}

/// The newline-terminated lines of `s`, without their terminators; an
/// unterminated tail is not a line.
pub open spec fn spec_lines(s: Seq<u8>) -> Seq<Seq<u8>>
    decreases s.len(),
{
    match first_index_from(s, 0, NEWLINE) {
        None => Seq::empty(),
        Some(k) => {
            if 0 <= k < s.len() {
                seq![s.take(k)] + spec_lines(s.skip(k + 1))
            } else {
                Seq::empty()
            }
        },
    }
}

/// The view of a vector of byte lines.
pub open spec fn lines_view(lines: Seq<Vec<u8>>) -> Seq<Seq<u8>> {
    lines.map_values(|l: Vec<u8>| l@)
}

/// Splits `data` into its newline-terminated lines.
pub fn split_lines(data: &[u8]) -> (r: Vec<Vec<u8>>)
    ensures
        lines_view(r@) == spec_lines(data@),
{
    let mut out: Vec<Vec<u8>> = Vec::new();
    let mut pos: usize = 0;
    proof {
        assert(data@.skip(0) =~= data@);
        assert(lines_view(out@) + spec_lines(data@) =~= spec_lines(data@));
    }
    while pos < data.len()
        invariant
            pos <= data@.len(),
            spec_lines(data@) == lines_view(out@) + spec_lines(data@.skip(pos as int)),
        decreases data@.len() - pos,
    {
        match find_byte(data, pos, NEWLINE) {
            None => {
                proof {
                    lemma_first_index_offset(data@, pos as int, NEWLINE);
                    assert(spec_lines(data@.skip(pos as int)) =~= Seq::<Seq<u8>>::empty());
                    assert(lines_view(out@) + Seq::<Seq<u8>>::empty() =~= lines_view(out@));
                }
                return out;
            },
            Some(k) => {
                let line = sub_bytes(data, pos, k);
                out.push(line);
                proof {
                    lemma_first_index_offset(data@, pos as int, NEWLINE);
                    let rest = data@.skip(pos as int);
                    assert(first_index_from(rest, 0, NEWLINE) == Some(k - pos as int));
                    assert(rest.take(k - pos as int) =~= data@.subrange(pos as int, k as int));
                    assert(rest.skip(k - pos as int + 1) =~= data@.skip(k + 1));
                    assert(lines_view(out@) =~= lines_view(out@.drop_last()) + seq![
                        data@.subrange(pos as int, k as int),
                    ]);
                    assert(lines_view(out@) + spec_lines(data@.skip(k + 1)) =~= lines_view(
                        out@.drop_last(),
                    ) + (seq![rest.take(k - pos as int)] + spec_lines(rest.skip(
                        k - pos as int + 1,
                    ))));
                }
                pos = k + 1;
            },
        }
    }
    proof {
        assert(spec_lines(data@.skip(pos as int)) =~= Seq::<Seq<u8>>::empty());
        assert(lines_view(out@) + Seq::<Seq<u8>>::empty() =~= lines_view(out@));
    }
    out
}

/// Restarting a search in a suffix shifts indexes by the offset.
proof fn lemma_first_index_offset(s: Seq<u8>, from: int, needle: u8)
    requires
        0 <= from <= s.len(),
    ensures
        first_index_from(s, from, needle) == match first_index_from(s.skip(from), 0, needle) {
            None => None::<int>,
            Some(i) => Some(i + from),
        },
    decreases s.len() - from,
{
    let rest = s.skip(from);
    if from < s.len() {
        assert(rest[0] == s[from]);
        if s[from] != needle {
            lemma_first_index_offset(s, from + 1, needle);
            assert(s.skip(from + 1) =~= rest.skip(1));
            lemma_first_index_offset(rest, 1, needle);
        }
    }
}

/// One `KEY=value` attribute parsed from the front of `s`: the key, the
/// value, and the index where the remainder starts. A value is either
/// quoted — ending at the next quote — or bare, ending at the next comma or
/// at the end of the line.
pub open spec fn spec_pair(s: Seq<u8>) -> Option<(Seq<u8>, Seq<u8>, int)> {
    match first_index_from(s, 0, EQUALS) {
        None => None,
        Some(eq) => {
            let vstart = eq + 1;
            if vstart < s.len() && s[vstart] == QUOTE && first_index_from(s, vstart + 1, QUOTE)
                is Some {
                match first_index_from(s, vstart + 1, QUOTE) {
                    Some(q) => Some((s.take(eq), s.subrange(vstart + 1, q), q + 1)),
                    None => None,
                }
            } else {
                let vend = match first_index_from(s, vstart, COMMA) {
                    Some(c) => c,
                    None => s.len() as int,
                };
                Some((s.take(eq), s.subrange(vstart, vend), vend))
            }
        },
    }
}

/// A nonempty `KEY=value` list: attributes separated by commas, consuming
/// the whole of `s`.
pub open spec fn spec_kv_pairs(s: Seq<u8>) -> Option<Seq<(Seq<u8>, Seq<u8>)>>
    decreases s.len(),
{
    match spec_pair(s) {
        None => None,
        Some((k, v, rest)) => {
            if rest == s.len() {
                Some(seq![(k, v)])
            } else if 0 <= rest < s.len() && s[rest] == COMMA {
                match spec_kv_pairs(s.skip(rest + 1)) {
                    None => None,
                    Some(ps) => Some(seq![(k, v)] + ps),
                }
            } else {
                None
            }
        },
    }
}

/// An attribute list: empty, or a nonempty `KEY=value` list.
pub open spec fn spec_kv(s: Seq<u8>) -> Option<Seq<(Seq<u8>, Seq<u8>)>> {
    if s.len() == 0 {
        Some(Seq::empty())
    } else {
        spec_kv_pairs(s)
    }
}

/// The view of a parsed attribute vector.
pub open spec fn kv_view(v: Seq<(Vec<u8>, Vec<u8>)>) -> Seq<(Seq<u8>, Seq<u8>)> {
    v.map_values(|p: (Vec<u8>, Vec<u8>)| (p.0@, p.1@))
}

/// Parses one attribute from the front of `s`.
fn parse_pair(s: &[u8]) -> (r: Option<(Vec<u8>, Vec<u8>, usize)>)
    ensures
        match r {
            Some((k, v, rest)) => {
                &&& spec_pair(s@) == Some((k@, v@, rest as int))
                &&& 1 <= rest <= s@.len()
            },
            None => spec_pair(s@) is None,
        },
{
    match find_byte(s, 0, EQUALS) {
        None => None,
        Some(eq) => {
            let n = s.len();
            proof {
                assert(eq < n);
            }
            let vstart = eq + 1;
            let mut closing: Option<usize> = None;
            if vstart < s.len() && s[vstart] == QUOTE {
                closing = find_byte(s, vstart + 1, QUOTE);
            }
            match closing {
                Some(q) => {
                    let key = sub_bytes(s, 0, eq);
                    let value = sub_bytes(s, vstart + 1, q);
                    proof {
                        assert(s@.take(eq as int) =~= s@.subrange(0, eq as int));
                    }
                    Some((key, value, q + 1))
                },
                None => {
                    let vend = match find_byte(s, vstart, COMMA) {
                        Some(c) => c,
                        None => s.len(),
                    };
                    let key = sub_bytes(s, 0, eq);
                    let value = sub_bytes(s, vstart, vend);
                    proof {
                        assert(s@.take(eq as int) =~= s@.subrange(0, eq as int));
                    }
                    Some((key, value, vend))
                },
            }
        },
    }
}

/// Parses a nonempty attribute list covering all of `s`.
fn parse_kv_pairs(s: &[u8]) -> (r: Option<Vec<(Vec<u8>, Vec<u8>)>>)
    ensures
        match r {
            Some(ps) => spec_kv_pairs(s@) == Some(kv_view(ps@)),
            None => spec_kv_pairs(s@) is None,
        },
    decreases s@.len(),
{
    match parse_pair(s) {
        None => None,
        Some((k, v, rest)) => {
            if rest == s.len() {
                let mut out: Vec<(Vec<u8>, Vec<u8>)> = Vec::new();
                out.push((k, v));
                proof {
                    assert(kv_view(out@) =~= seq![(k@, v@)]);
                }
                Some(out)
            } else if s[rest] == COMMA {
                let tail = sub_bytes(s, rest + 1, s.len());
                proof {
                    assert(tail@ =~= s@.skip(rest + 1));
                }
                match parse_kv_pairs(tail.as_slice()) {
                    None => None,
                    Some(ps) => {
                        let mut out: Vec<(Vec<u8>, Vec<u8>)> = Vec::new();
                        out.push((k, v));
                        let mut i: usize = 0;
                        let ghost ps0 = ps@;
                        let mut ps = ps;
                        while ps.len() > 0
                            invariant
                                out@.len() >= 1,
                                ps0 == out@.skip(1) + ps@,
                                out@[0] == (k, v),
                            decreases ps@.len(),
                        {
                            let p = ps.remove(0);
                            out.push(p);
                            proof {
                                assert(out@.skip(1) + ps@ =~= out@.drop_last().skip(1) + (seq![
                                    out@.last(),
                                ] + ps@));
                            }
                        }
                        proof {
                            assert(out@.skip(1) =~= ps0);
                            assert(kv_view(out@) =~= seq![(k@, v@)] + kv_view(ps0));
                        }
                        Some(out)
                    },
                }
            } else {
                None
            }
        },
    }
}

/// Parses an attribute list, which may be empty.
pub fn parse_kv(s: &[u8]) -> (r: Option<Vec<(Vec<u8>, Vec<u8>)>>)
    ensures
        match r {
            Some(ps) => spec_kv(s@) == Some(kv_view(ps@)),
            None => spec_kv(s@) is None,
        },
{
    if s.len() == 0 {
        let out: Vec<(Vec<u8>, Vec<u8>)> = Vec::new();
        proof {
            assert(kv_view(out@) =~= Seq::<(Seq<u8>, Seq<u8>)>::empty());
        }
        Some(out)
    } else {
        parse_kv_pairs(s)
    }
}

/// The value of `key` in an attribute list, the last occurrence winning.
pub open spec fn spec_lookup(pairs: Seq<(Seq<u8>, Seq<u8>)>, key: Seq<u8>) -> Option<Seq<u8>>
    decreases pairs.len(),
{
    if pairs.len() == 0 {
        None
    } else if pairs.last().0 == key {
        Some(pairs.last().1)
    } else {
        spec_lookup(pairs.drop_last(), key)
    }
}

/// Looks `key` up in a parsed attribute list; later duplicates shadow
/// earlier ones, as map collection would have it.
pub fn lookup(pairs: &Vec<(Vec<u8>, Vec<u8>)>, key: &[u8]) -> (r: Option<Vec<u8>>)
    ensures
        match r {
            Some(v) => spec_lookup(kv_view(pairs@), key@) == Some(v@),
            None => spec_lookup(kv_view(pairs@), key@) is None,
        },
{
    let mut i: usize = pairs.len();
    proof {
        assert(kv_view(pairs@).take(pairs@.len() as int) =~= kv_view(pairs@));
    }
    while i > 0
        invariant
            i <= pairs@.len(),
            spec_lookup(kv_view(pairs@), key@) == spec_lookup(
                kv_view(pairs@).take(i as int),
                key@,
            ),
        decreases i,
    {
        i = i - 1;
        if bytes_eq(pairs[i].0.as_slice(), key) {
            let v = copy_bytes(pairs[i].1.as_slice());
            proof {
                assert(kv_view(pairs@).take(i + 1).last() == (pairs@[i as int].0@, pairs@[
                    i as int].1@));
            }
            return Some(v);
        }
        proof {
            assert(kv_view(pairs@).take(i + 1).drop_last() =~= kv_view(pairs@).take(i as int));
            assert(kv_view(pairs@).take(i + 1).last().0 == pairs@[i as int].0@);
        }
    }
    proof {
        assert(kv_view(pairs@).take(0) =~= Seq::<(Seq<u8>, Seq<u8>)>::empty());
    }
    None
}

/// Boolean-like attribute values: `true`/`yes` and `false`/`no`, in any
/// case.
pub open spec fn spec_bool_like(v: Seq<u8>) -> Option<bool> {
    if lower_bytes(v) == "true".spec_bytes() || lower_bytes(v) == "yes".spec_bytes() {
        Some(true)
    } else if lower_bytes(v) == "false".spec_bytes() || lower_bytes(v) == "no".spec_bytes() {
        Some(false)
    } else {
        None
    }
}

/// Reads a boolean-like attribute value.
pub fn parse_bool_like(v: &[u8]) -> (r: Option<bool>)
    ensures
        r == spec_bool_like(v@),
{
    let lowered = to_lower(v);
    if bytes_eq(lowered.as_slice(), "true".as_bytes()) || bytes_eq(
        lowered.as_slice(),
        "yes".as_bytes(),
    ) {
        Some(true)
    } else if bytes_eq(lowered.as_slice(), "false".as_bytes()) || bytes_eq(
        lowered.as_slice(),
        "no".as_bytes(),
    ) {
        Some(false)
    } else {
        None
    }
}

/// Strips one leading sign, if present.
pub open spec fn strip_sign(s: Seq<u8>) -> Seq<u8> {
    if s.len() > 0 && (s[0] == PLUS || s[0] == MINUS) {
        s.skip(1)
    } else {
        s
    }
}

/// Whether `b` may appear in a mantissa.
pub open spec fn is_dot_or_digit(b: u8) -> bool {
    b == DOT || is_digit(b)
}

/// A mantissa: digits with at most one decimal point and at least one
/// digit.
pub open spec fn is_mantissa(m: Seq<u8>) -> bool {
    &&& m.len() > 0
    &&& forall|i: int| 0 <= i < m.len() ==> is_dot_or_digit(#[trigger] m[i])
    &&& exists|i: int| 0 <= i < m.len() && is_digit(#[trigger] m[i])
    &&& forall|i: int, j: int|
        0 <= i < j < m.len() && #[trigger] m[i] == DOT ==> #[trigger] m[j] != DOT
}

/// The first index of an exponent marker (`e` or `E`) at or after `from`.
pub open spec fn first_exp_idx(s: Seq<u8>, from: int) -> Option<int>
    decreases s.len() - from,
{
    if from < 0 || from >= s.len() {
        None
    } else if s[from] == LOWER_E || s[from] == UPPER_E {
        Some(from)
    } else {
        first_exp_idx(s, from + 1)
    }
}

/// A floating-point numeral, per the standard grammar: an optional sign,
/// then a mantissa with an optional signed decimal exponent, or one of the
/// special words `inf`, `infinity` and `nan`, in any case.
pub open spec fn is_float_numeral(s: Seq<u8>) -> bool {
    let t = strip_sign(s);
    if lower_bytes(t) == "inf".spec_bytes() || lower_bytes(t) == "infinity".spec_bytes()
        || lower_bytes(t) == "nan".spec_bytes() {
        true
    } else {
        match first_exp_idx(t, 0) {
            None => is_mantissa(t),
            Some(k) => {
                &&& is_mantissa(t.take(k))
                &&& strip_sign(t.skip(k + 1)).len() > 0
                &&& all_digits(strip_sign(t.skip(k + 1)))
            },
        }
    }
}

/// Checks a mantissa.
fn mantissa_ok(m: &[u8]) -> (r: bool)
    ensures
        r == is_mantissa(m@),
{
    if m.len() == 0 {
        return false;
    }
    let mut seen_digit = false;
    let mut seen_dot = false;
    let mut i: usize = 0;
    while i < m.len()
        invariant
            i <= m@.len(),
            forall|j: int| 0 <= j < i ==> is_dot_or_digit(#[trigger] m@[j]),
            seen_digit == exists|j: int| 0 <= j < i && is_digit(#[trigger] m@[j]),
            seen_dot == exists|j: int| 0 <= j < i && m@[j] == DOT,
            forall|p: int, q: int|
                0 <= p < q < i && #[trigger] m@[p] == DOT ==> #[trigger] m@[q] != DOT,
        decreases m@.len() - i,
    {
        let b = m[i];
        if b == DOT {
            if seen_dot {
                return false;
            }
            seen_dot = true;
        } else if b >= crate::text::DIGIT_0 && b <= DIGIT_9 {
            seen_digit = true;
        } else {
            return false;
        }
        i = i + 1;
    }
    seen_digit
}

/// Checks a signed digit run, as an exponent requires.
fn signed_digits_ok(s: &[u8]) -> (r: bool)
    ensures
        r == (strip_sign(s@).len() > 0 && all_digits(strip_sign(s@))),
{
    let start: usize = if s.len() > 0 && (s[0] == PLUS || s[0] == MINUS) {
        1
    } else {
        0
    };
    if s.len() == start {
        return false;
    }
    let mut i: usize = start;
    while i < s.len()
        invariant
            start <= i <= s@.len(),
            start == (if s@.len() > 0 && (s@[0] == PLUS || s@[0] == MINUS) {
                1int
            } else {
                0int
            }),
            forall|j: int| start <= j < i ==> is_digit(#[trigger] s@[j]),
        decreases s@.len() - i,
    {
        let b = s[i];
        if b < crate::text::DIGIT_0 || b > DIGIT_9 {
            proof {
                assert(strip_sign(s@)[i - start] == s@[i as int]);
            }
            return false;
        }
        i = i + 1;
    }
    proof {
        assert(forall|j: int|
            0 <= j < strip_sign(s@).len() ==> is_digit(#[trigger] strip_sign(s@)[j]));
    }
    true
}

/// Checks a floating-point numeral.
pub fn float_ok(s: &[u8]) -> (r: bool)
    ensures
        r == is_float_numeral(s@),
{
    let start: usize = if s.len() > 0 && (s[0] == PLUS || s[0] == MINUS) {
        1
    } else {
        0
    };
    let t = sub_bytes(s, start, s.len());
    proof {
        assert(t@ =~= strip_sign(s@));
    }
    let lowered = to_lower(t.as_slice());
    if bytes_eq(lowered.as_slice(), "inf".as_bytes()) || bytes_eq(
        lowered.as_slice(),
        "infinity".as_bytes(),
    ) || bytes_eq(lowered.as_slice(), "nan".as_bytes()) {
        return true;
    }
    let mut k: usize = 0;
    let mut found = false;
    while k < t.len() && !found
        invariant
            k <= t@.len(),
            !found ==> first_exp_idx(t@, 0) == first_exp_idx(t@, k as int),
            found ==> first_exp_idx(t@, 0) == Some(k as int) && k < t@.len(),
        decreases t@.len() - k, (if found { 0int } else { 1int }),
    {
        let b = t[k];
        if b == LOWER_E || b == UPPER_E {
            found = true;
        } else {
            k = k + 1;
        }
    }
    if found {
        let mant = sub_bytes(t.as_slice(), 0, k);
        let exp = sub_bytes(t.as_slice(), k + 1, t.len());
        proof {
            assert(mant@ =~= t@.take(k as int));
            assert(exp@ =~= t@.skip(k + 1));
        }
        mantissa_ok(mant.as_slice()) && signed_digits_ok(exp.as_slice())
    } else {
        mantissa_ok(t.as_slice())
    }
}

} // verus!

verus! {

/// A required raw attribute: present or a missing-key error.
pub open spec fn spec_req(pairs: Seq<(Seq<u8>, Seq<u8>)>, key: Seq<u8>) -> Result<
    Seq<u8>,
    ParseErrorV,
> {
    match spec_lookup(pairs, key) {
        None => Err(ParseErrorV::MissingKey(key)),
        Some(v) => Ok(v),
    }
}

/// A required boolean-like attribute.
pub open spec fn spec_req_bool(pairs: Seq<(Seq<u8>, Seq<u8>)>, key: Seq<u8>) -> Result<
    bool,
    ParseErrorV,
> {
    match spec_lookup(pairs, key) {
        None => Err(ParseErrorV::MissingKey(key)),
        Some(v) => match spec_bool_like(v) {
            None => Err(ParseErrorV::BadValue(key, v)),
            Some(b) => Ok(b),
        },
    }
}

/// A required floating-point attribute, kept as its raw numeral.
pub open spec fn spec_req_float(pairs: Seq<(Seq<u8>, Seq<u8>)>, key: Seq<u8>) -> Result<
    Seq<u8>,
    ParseErrorV,
> {
    match spec_lookup(pairs, key) {
        None => Err(ParseErrorV::MissingKey(key)),
        Some(v) => if is_float_numeral(v) {
            Ok(v)
        } else {
            Err(ParseErrorV::BadValue(key, v))
        },
    }
}

/// A required `u64` attribute.
pub open spec fn spec_req_u64(pairs: Seq<(Seq<u8>, Seq<u8>)>, key: Seq<u8>) -> Result<
    u64,
    ParseErrorV,
> {
    match spec_lookup(pairs, key) {
        None => Err(ParseErrorV::MissingKey(key)),
        Some(v) => if is_dec_numeral(v) && dec_value(dec_digits(v)) <= u64::MAX {
            Ok(dec_value(dec_digits(v)) as u64)
        } else {
            Err(ParseErrorV::BadValue(key, v))
        },
    }
}

/// A `WIDTHxHEIGHT` resolution value.
pub open spec fn spec_resolution(v: Seq<u8>) -> Option<crate::types::Resolution> {
    match first_index_from(v, 0, LOWER_X) {
        None => None,
        Some(x) => {
            let c0 = v.take(x);
            let c1 = match first_index_from(v, x + 1, LOWER_X) {
                Some(y) => v.subrange(x + 1, y),
                None => v.skip(x + 1),
            };
            if is_dec_numeral(c0) && dec_value(dec_digits(c0)) <= u32::MAX && is_dec_numeral(c1)
                && dec_value(dec_digits(c1)) <= u32::MAX {
                Some(
                    crate::types::Resolution {
                        width: dec_value(dec_digits(c0)) as u32,
                        height: dec_value(dec_digits(c1)) as u32,
                    },
                )
            } else {
                None
            }
        },
    }
}

/// A required resolution attribute.
pub open spec fn spec_req_resolution(pairs: Seq<(Seq<u8>, Seq<u8>)>, key: Seq<u8>) -> Result<
    crate::types::Resolution,
    ParseErrorV,
> {
    match spec_lookup(pairs, key) {
        None => Err(ParseErrorV::MissingKey(key)),
        Some(v) => match spec_resolution(v) {
            None => Err(ParseErrorV::BadValue(key, v)),
            Some(res) => Ok(res),
        },
    }
}

/// A required media-type attribute; only `video` is known.
pub open spec fn spec_req_media_type(pairs: Seq<(Seq<u8>, Seq<u8>)>, key: Seq<u8>) -> Result<
    crate::types::MediaType,
    ParseErrorV,
> {
    match spec_lookup(pairs, key) {
        None => Err(ParseErrorV::MissingKey(key)),
        Some(v) => if lower_bytes(v) == "video".spec_bytes() {
            Ok(crate::types::MediaType::Video)
        } else {
            Err(ParseErrorV::BadValue(key, v))
        },
    }
}

/// An optional `u32` attribute: absent is fine, present-but-malformed is an
/// error.
pub open spec fn spec_opt_u32(pairs: Seq<(Seq<u8>, Seq<u8>)>, key: Seq<u8>) -> Result<
    Option<u32>,
    ParseErrorV,
> {
    match spec_lookup(pairs, key) {
        None => Ok(None),
        Some(v) => if is_dec_numeral(v) && dec_value(dec_digits(v)) <= u32::MAX {
            Ok(Some(dec_value(dec_digits(v)) as u32))
        } else {
            Err(ParseErrorV::BadValue(key, v))
        },
    }
}

/// The `#EXT-X-TWITCH-INFO:` record, fields read in declaration order.
pub open spec fn spec_twitch_info(pairs: Seq<(Seq<u8>, Seq<u8>)>) -> Result<
    crate::types::TwitchInfoV,
    ParseErrorV,
> {
    let node = spec_req(pairs, "NODE".spec_bytes());
    let manifest_node = spec_req(pairs, "MANIFEST-NODE".spec_bytes());
    let manifest_node_type = spec_req(pairs, "MANIFEST-NODE-TYPE".spec_bytes());
    let cluster = spec_req(pairs, "CLUSTER".spec_bytes());
    let manifest_cluster = spec_req(pairs, "MANIFEST-CLUSTER".spec_bytes());
    let suppress = spec_req_bool(pairs, "SUPPRESS".spec_bytes());
    let server_time = spec_req_float(pairs, "SERVER-TIME".spec_bytes());
    let transcode_stack = spec_req(pairs, "TRANSCODESTACK".spec_bytes());
    let user_ip = spec_req(pairs, "USER-IP".spec_bytes());
    let serving_id = spec_req(pairs, "SERVING-ID".spec_bytes());
    let abs = spec_req_bool(pairs, "ABS".spec_bytes());
    let broadcast_id = spec_req(pairs, "BROADCAST-ID".spec_bytes());
    let stream_time = spec_req_float(pairs, "STREAM-TIME".spec_bytes());
    if node is Err {
        Err(node->Err_0)
    } else if manifest_node is Err {
        Err(manifest_node->Err_0)
    } else if manifest_node_type is Err {
        Err(manifest_node_type->Err_0)
    } else if cluster is Err {
        Err(cluster->Err_0)
    } else if manifest_cluster is Err {
        Err(manifest_cluster->Err_0)
    } else if suppress is Err {
        Err(suppress->Err_0)
    } else if server_time is Err {
        Err(server_time->Err_0)
    } else if transcode_stack is Err {
        Err(transcode_stack->Err_0)
    } else if user_ip is Err {
        Err(user_ip->Err_0)
    } else if serving_id is Err {
        Err(serving_id->Err_0)
    } else if abs is Err {
        Err(abs->Err_0)
    } else if broadcast_id is Err {
        Err(broadcast_id->Err_0)
    } else if stream_time is Err {
        Err(stream_time->Err_0)
    } else {
        Ok(
            crate::types::TwitchInfoV {
                node: node->Ok_0,
                manifest_node: manifest_node->Ok_0,
                manifest_node_type: manifest_node_type->Ok_0,
                cluster: cluster->Ok_0,
                manifest_cluster: manifest_cluster->Ok_0,
                suppress: suppress->Ok_0,
                server_time: server_time->Ok_0,
                transcode_stack: transcode_stack->Ok_0,
                user_ip: user_ip->Ok_0,
                serving_id: serving_id->Ok_0,
                abs: abs->Ok_0,
                broadcast_id: broadcast_id->Ok_0,
                stream_time: stream_time->Ok_0,
            },
        )
    }
}

/// The `#EXT-X-MEDIA:` record, fields read in declaration order.
pub open spec fn spec_media_info(pairs: Seq<(Seq<u8>, Seq<u8>)>) -> Result<
    crate::types::MediaInfoV,
    ParseErrorV,
> {
    let type_ = spec_req_media_type(pairs, "TYPE".spec_bytes());
    let group_id = spec_req(pairs, "GROUP-ID".spec_bytes());
    let name = spec_req(pairs, "NAME".spec_bytes());
    let autoselect = spec_req_bool(pairs, "AUTOSELECT".spec_bytes());
    let default = spec_req_bool(pairs, "DEFAULT".spec_bytes());
    if type_ is Err {
        Err(type_->Err_0)
    } else if group_id is Err {
        Err(group_id->Err_0)
    } else if name is Err {
        Err(name->Err_0)
    } else if autoselect is Err {
        Err(autoselect->Err_0)
    } else if default is Err {
        Err(default->Err_0)
    } else {
        Ok(
            crate::types::MediaInfoV {
                type_: type_->Ok_0,
                group_id: group_id->Ok_0,
                name: name->Ok_0,
                autoselect: autoselect->Ok_0,
                default: default->Ok_0,
            },
        )
    }
}

/// The `#EXT-X-STREAM-INF:` record: an optional program id, then the
/// remaining fields in declaration order.
pub open spec fn spec_stream_info(pairs: Seq<(Seq<u8>, Seq<u8>)>) -> Result<
    crate::types::StreamInfoV,
    ParseErrorV,
> {
    let program_id = spec_opt_u32(pairs, "PROGRAM-ID".spec_bytes());
    let bandwidth = spec_req_u64(pairs, "BANDWIDTH".spec_bytes());
    let resolution = spec_req_resolution(pairs, "RESOLUTION".spec_bytes());
    let codecs = spec_req(pairs, "CODECS".spec_bytes());
    let video = spec_req(pairs, "VIDEO".spec_bytes());
    if program_id is Err {
        Err(program_id->Err_0)
    } else if bandwidth is Err {
        Err(bandwidth->Err_0)
    } else if resolution is Err {
        Err(resolution->Err_0)
    } else if codecs is Err {
        Err(codecs->Err_0)
    } else if video is Err {
        Err(video->Err_0)
    } else {
        Ok(
            crate::types::StreamInfoV {
                program_id: program_id->Ok_0,
                bandwidth: bandwidth->Ok_0,
                resolution: resolution->Ok_0,
                codecs: codecs->Ok_0,
                video: video->Ok_0,
            },
        )
    }
}

/// The `#EXT-X-TWITCH-RESTRICTED:` record.
pub open spec fn spec_restricted_info(pairs: Seq<(Seq<u8>, Seq<u8>)>) -> Result<
    crate::types::RestrictedPlaylistInfoV,
    ParseErrorV,
> {
    let group_id = spec_req(pairs, "GROUP-ID".spec_bytes());
    let name = spec_req(pairs, "NAME".spec_bytes());
    let restriction = spec_req(pairs, "RESTRICTION".spec_bytes());
    if group_id is Err {
        Err(group_id->Err_0)
    } else if name is Err {
        Err(name->Err_0)
    } else if restriction is Err {
        Err(restriction->Err_0)
    } else {
        Ok(
            crate::types::RestrictedPlaylistInfoV {
                group_id: group_id->Ok_0,
                name: name->Ok_0,
                restriction: restriction->Ok_0,
            },
        )
    }
}

} // verus!

verus! {

/// Reads a required raw attribute.
fn req_raw(pairs: &Vec<(Vec<u8>, Vec<u8>)>, key: &str) -> (r: Result<Vec<u8>, ParseError>)
    ensures
        match r {
            Ok(v) => spec_req(kv_view(pairs@), key.spec_bytes()) == Ok::<_, ParseErrorV>(v@),
            Err(e) => spec_req(kv_view(pairs@), key.spec_bytes()) == Err::<Seq<u8>, _>(e@),
        },
{
    match lookup(pairs, key.as_bytes()) {
        Some(v) => Ok(v),
        None => Err(ParseError::MissingKey(copy_bytes(key.as_bytes()))),
    }
}

/// Reads a required boolean-like attribute.
fn req_bool(pairs: &Vec<(Vec<u8>, Vec<u8>)>, key: &str) -> (r: Result<bool, ParseError>)
    ensures
        match r {
            Ok(b) => spec_req_bool(kv_view(pairs@), key.spec_bytes()) == Ok::<_, ParseErrorV>(b),
            Err(e) => spec_req_bool(kv_view(pairs@), key.spec_bytes()) == Err::<bool, _>(e@),
        },
{
    match lookup(pairs, key.as_bytes()) {
        Some(v) => match parse_bool_like(v.as_slice()) {
            Some(b) => Ok(b),
            None => Err(ParseError::BadValue(copy_bytes(key.as_bytes()), v)),
        },
        None => Err(ParseError::MissingKey(copy_bytes(key.as_bytes()))),
    }
}

/// Reads a required floating-point attribute, keeping the raw numeral.
fn req_float(pairs: &Vec<(Vec<u8>, Vec<u8>)>, key: &str) -> (r: Result<Vec<u8>, ParseError>)
    ensures
        match r {
            Ok(v) => spec_req_float(kv_view(pairs@), key.spec_bytes()) == Ok::<_, ParseErrorV>(v@),
            Err(e) => spec_req_float(kv_view(pairs@), key.spec_bytes()) == Err::<Seq<u8>, _>(e@),
        },
{
    match lookup(pairs, key.as_bytes()) {
        Some(v) => {
            if float_ok(v.as_slice()) {
                Ok(v)
            } else {
                Err(ParseError::BadValue(copy_bytes(key.as_bytes()), v))
            }
        },
        None => Err(ParseError::MissingKey(copy_bytes(key.as_bytes()))),
    }
}

/// Reads a required `u64` attribute.
fn req_u64(pairs: &Vec<(Vec<u8>, Vec<u8>)>, key: &str) -> (r: Result<u64, ParseError>)
    ensures
        match r {
            Ok(v) => spec_req_u64(kv_view(pairs@), key.spec_bytes()) == Ok::<_, ParseErrorV>(v),
            Err(e) => spec_req_u64(kv_view(pairs@), key.spec_bytes()) == Err::<u64, _>(e@),
        },
{
    match lookup(pairs, key.as_bytes()) {
        Some(v) => match parse_u64(v.as_slice()) {
            Some(n) => Ok(n),
            None => Err(ParseError::BadValue(copy_bytes(key.as_bytes()), v)),
        },
        None => Err(ParseError::MissingKey(copy_bytes(key.as_bytes()))),
    }
}

/// Reads a required resolution attribute.
fn req_resolution(pairs: &Vec<(Vec<u8>, Vec<u8>)>, key: &str) -> (r: Result<
    crate::types::Resolution,
    ParseError,
>)
    ensures
        match r {
            Ok(v) => spec_req_resolution(kv_view(pairs@), key.spec_bytes()) == Ok::<
                _,
                ParseErrorV,
            >(v),
            Err(e) => spec_req_resolution(kv_view(pairs@), key.spec_bytes()) == Err::<
                crate::types::Resolution,
                _,
            >(e@),
        },
{
    match lookup(pairs, key.as_bytes()) {
        Some(v) => {
            let parsed = parse_resolution(v.as_slice());
            match parsed {
                Some(res) => Ok(res),
                None => Err(ParseError::BadValue(copy_bytes(key.as_bytes()), v)),
            }
        },
        None => Err(ParseError::MissingKey(copy_bytes(key.as_bytes()))),
    }
}

/// Reads a `WIDTHxHEIGHT` value.
fn parse_resolution(v: &[u8]) -> (r: Option<crate::types::Resolution>)
    ensures
        r == spec_resolution(v@),
{
    match find_byte(v, 0, LOWER_X) {
        None => None,
        Some(x) => {
            let n = v.len();
            proof {
                assert(x < n);
            }
            let c0 = sub_bytes(v, 0, x);
            let c1 = match find_byte(v, x + 1, LOWER_X) {
                Some(y) => sub_bytes(v, x + 1, y),
                None => sub_bytes(v, x + 1, v.len()),
            };
            proof {
                assert(c0@ =~= v@.take(x as int));
            }
            match (parse_u32(c0.as_slice()), parse_u32(c1.as_slice())) {
                (Some(w), Some(h)) => Some(crate::types::Resolution { width: w, height: h }),
                _ => None,
            }
        },
    }
}

/// Reads a required media-type attribute.
fn req_media_type(pairs: &Vec<(Vec<u8>, Vec<u8>)>, key: &str) -> (r: Result<
    crate::types::MediaType,
    ParseError,
>)
    ensures
        match r {
            Ok(v) => spec_req_media_type(kv_view(pairs@), key.spec_bytes()) == Ok::<
                _,
                ParseErrorV,
            >(v),
            Err(e) => spec_req_media_type(kv_view(pairs@), key.spec_bytes()) == Err::<
                crate::types::MediaType,
                _,
            >(e@),
        },
{
    match lookup(pairs, key.as_bytes()) {
        Some(v) => {
            let lowered = to_lower(v.as_slice());
            if bytes_eq(lowered.as_slice(), "video".as_bytes()) {
                Ok(crate::types::MediaType::Video)
            } else {
                Err(ParseError::BadValue(copy_bytes(key.as_bytes()), v))
            }
        },
        None => Err(ParseError::MissingKey(copy_bytes(key.as_bytes()))),
    }
}

/// Reads an optional `u32` attribute.
fn opt_u32(pairs: &Vec<(Vec<u8>, Vec<u8>)>, key: &str) -> (r: Result<Option<u32>, ParseError>)
    ensures
        match r {
            Ok(v) => spec_opt_u32(kv_view(pairs@), key.spec_bytes()) == Ok::<_, ParseErrorV>(v),
            Err(e) => spec_opt_u32(kv_view(pairs@), key.spec_bytes()) == Err::<Option<u32>, _>(
                e@,
            ),
        },
{
    match lookup(pairs, key.as_bytes()) {
        Some(v) => match parse_u32(v.as_slice()) {
            Some(n) => Ok(Some(n)),
            None => Err(ParseError::BadValue(copy_bytes(key.as_bytes()), v)),
        },
        None => Ok(None),
    }
}

/// Extracts the `#EXT-X-TWITCH-INFO:` record from its attribute list.
fn extract_twitch_info(pairs: &Vec<(Vec<u8>, Vec<u8>)>) -> (r: Result<
    crate::types::TwitchInfo,
    ParseError,
>)
    ensures
        match r {
            Ok(v) => spec_twitch_info(kv_view(pairs@)) == Ok::<_, ParseErrorV>(v@),
            Err(e) => spec_twitch_info(kv_view(pairs@)) == Err::<crate::types::TwitchInfoV, _>(
                e@,
            ),
        },
{
    let node = match req_raw(pairs, "NODE") {
        Ok(v) => v,
        Err(e) => {
            return Err(e);
        },
    };
    let manifest_node = match req_raw(pairs, "MANIFEST-NODE") {
        Ok(v) => v,
        Err(e) => {
            return Err(e);
        },
    };
    let manifest_node_type = match req_raw(pairs, "MANIFEST-NODE-TYPE") {
        Ok(v) => v,
        Err(e) => {
            return Err(e);
        },
    };
    let cluster = match req_raw(pairs, "CLUSTER") {
        Ok(v) => v,
        Err(e) => {
            return Err(e);
        },
    };
    let manifest_cluster = match req_raw(pairs, "MANIFEST-CLUSTER") {
        Ok(v) => v,
        Err(e) => {
            return Err(e);
        },
    };
    let suppress = match req_bool(pairs, "SUPPRESS") {
        Ok(v) => v,
        Err(e) => {
            return Err(e);
        },
    };
    let server_time = match req_float(pairs, "SERVER-TIME") {
        Ok(v) => v,
        Err(e) => {
            return Err(e);
        },
    };
    let transcode_stack = match req_raw(pairs, "TRANSCODESTACK") {
        Ok(v) => v,
        Err(e) => {
            return Err(e);
        },
    };
    let user_ip = match req_raw(pairs, "USER-IP") {
        Ok(v) => v,
        Err(e) => {
            return Err(e);
        },
    };
    let serving_id = match req_raw(pairs, "SERVING-ID") {
        Ok(v) => v,
        Err(e) => {
            return Err(e);
        },
    };
    let abs = match req_bool(pairs, "ABS") {
        Ok(v) => v,
        Err(e) => {
            return Err(e);
        },
    };
    let broadcast_id = match req_raw(pairs, "BROADCAST-ID") {
        Ok(v) => v,
        Err(e) => {
            return Err(e);
        },
    };
    let stream_time = match req_float(pairs, "STREAM-TIME") {
        Ok(v) => v,
        Err(e) => {
            return Err(e);
        },
    };
    Ok(
        crate::types::TwitchInfo {
            node,
            manifest_node,
            manifest_node_type,
            cluster,
            manifest_cluster,
            suppress,
            server_time,
            transcode_stack,
            user_ip,
            serving_id,
            abs,
            broadcast_id,
            stream_time,
        },
    )
}

/// Extracts the `#EXT-X-MEDIA:` record from its attribute list.
fn extract_media_info(pairs: &Vec<(Vec<u8>, Vec<u8>)>) -> (r: Result<
    crate::types::MediaInfo,
    ParseError,
>)
    ensures
        match r {
            Ok(v) => spec_media_info(kv_view(pairs@)) == Ok::<_, ParseErrorV>(v@),
            Err(e) => spec_media_info(kv_view(pairs@)) == Err::<crate::types::MediaInfoV, _>(e@),
        },
{
    let type_ = match req_media_type(pairs, "TYPE") {
        Ok(v) => v,
        Err(e) => {
            return Err(e);
        },
    };
    let group_id = match req_raw(pairs, "GROUP-ID") {
        Ok(v) => v,
        Err(e) => {
            return Err(e);
        },
    };
    let name = match req_raw(pairs, "NAME") {
        Ok(v) => v,
        Err(e) => {
            return Err(e);
        },
    };
    let autoselect = match req_bool(pairs, "AUTOSELECT") {
        Ok(v) => v,
        Err(e) => {
            return Err(e);
        },
    };
    let default = match req_bool(pairs, "DEFAULT") {
        Ok(v) => v,
        Err(e) => {
            return Err(e);
        },
    };
    Ok(crate::types::MediaInfo { type_, group_id, name, autoselect, default })
}

/// Extracts the `#EXT-X-STREAM-INF:` record from its attribute list.
fn extract_stream_info(pairs: &Vec<(Vec<u8>, Vec<u8>)>) -> (r: Result<
    crate::types::StreamInfo,
    ParseError,
>)
    ensures
        match r {
            Ok(v) => spec_stream_info(kv_view(pairs@)) == Ok::<_, ParseErrorV>(v@),
            Err(e) => spec_stream_info(kv_view(pairs@)) == Err::<crate::types::StreamInfoV, _>(
                e@,
            ),
        },
{
    let program_id = match opt_u32(pairs, "PROGRAM-ID") {
        Ok(v) => v,
        Err(e) => {
            return Err(e);
        },
    };
    let bandwidth = match req_u64(pairs, "BANDWIDTH") {
        Ok(v) => v,
        Err(e) => {
            return Err(e);
        },
    };
    let resolution = match req_resolution(pairs, "RESOLUTION") {
        Ok(v) => v,
        Err(e) => {
            return Err(e);
        },
    };
    let codecs = match req_raw(pairs, "CODECS") {
        Ok(v) => v,
        Err(e) => {
            return Err(e);
        },
    };
    let video = match req_raw(pairs, "VIDEO") {
        Ok(v) => v,
        Err(e) => {
            return Err(e);
        },
    };
    Ok(crate::types::StreamInfo { program_id, bandwidth, resolution, codecs, video })
}

/// Extracts the `#EXT-X-TWITCH-RESTRICTED:` record from its attribute list.
fn extract_restricted_info(pairs: &Vec<(Vec<u8>, Vec<u8>)>) -> (r: Result<
    crate::types::RestrictedPlaylistInfo,
    ParseError,
>)
    ensures
        match r {
            Ok(v) => spec_restricted_info(kv_view(pairs@)) == Ok::<_, ParseErrorV>(v@),
            Err(e) => spec_restricted_info(kv_view(pairs@)) == Err::<
                crate::types::RestrictedPlaylistInfoV,
                _,
            >(e@),
        },
{
    let group_id = match req_raw(pairs, "GROUP-ID") {
        Ok(v) => v,
        Err(e) => {
            return Err(e);
        },
    };
    let name = match req_raw(pairs, "NAME") {
        Ok(v) => v,
        Err(e) => {
            return Err(e);
        },
    };
    let restriction = match req_raw(pairs, "RESTRICTION") {
        Ok(v) => v,
        Err(e) => {
            return Err(e);
        },
    };
    Ok(crate::types::RestrictedPlaylistInfo { group_id, name, restriction })
}

} // verus!

verus! {

/// A header line: the tag, then a `u32` value filling the rest of the line.
pub open spec fn spec_header_u32(lines: Seq<Seq<u8>>, idx: int, tag: Seq<u8>) -> Result<
    u32,
    ParseErrorV,
> {
    if idx >= lines.len() || !has_prefix(lines[idx], tag) {
        Err(ParseErrorV::MissingTag(tag))
    } else {
        let v = lines[idx].skip(tag.len() as int);
        if is_dec_numeral(v) && dec_value(dec_digits(v)) <= u32::MAX {
            Ok(dec_value(dec_digits(v)) as u32)
        } else {
            Err(ParseErrorV::BadValue(tag, v))
        }
    }
}

/// A header line: the tag, then a floating-point numeral kept raw.
pub open spec fn spec_header_float(lines: Seq<Seq<u8>>, idx: int, tag: Seq<u8>) -> Result<
    Seq<u8>,
    ParseErrorV,
> {
    if idx >= lines.len() || !has_prefix(lines[idx], tag) {
        Err(ParseErrorV::MissingTag(tag))
    } else {
        let v = lines[idx].skip(tag.len() as int);
        if is_float_numeral(v) {
            Ok(v)
        } else {
            Err(ParseErrorV::BadValue(tag, v))
        }
    }
}

/// The segment locations readable from line `i` on: an optional program-date
/// line precedes either an `#EXTINF:` line followed by a location line, or a
/// prefetch line carrying its location; anything else ends the list.
pub open spec fn spec_segments(lines: Seq<Seq<u8>>, i: int) -> Seq<Seq<u8>>
    decreases lines.len() - i,
{
    if i < 0 || i >= lines.len() {
        Seq::empty()
    } else {
        let j = if has_prefix(lines[i], "#EXT-X-PROGRAM-DATE-TIME:".spec_bytes()) {
            i + 1
        } else {
            i
        };
        if j < lines.len() && has_prefix(lines[j], "#EXTINF:".spec_bytes()) && j + 1
            < lines.len() {
            seq![lines[j + 1]] + spec_segments(lines, j + 2)
        } else if j < lines.len() && has_prefix(
            lines[j],
            "#EXT-X-TWITCH-PREFETCH:".spec_bytes(),
        ) {
            seq![lines[j].skip("#EXT-X-TWITCH-PREFETCH:".spec_bytes().len() as int)]
                + spec_segments(lines, j + 1)
        } else {
            Seq::empty()
        }
    }
}

/// A media playlist: the `#EXTM3U` marker, five typed header lines, an
/// optional map line, an optional stitched-ads block, then one or more
/// segments.
pub open spec fn spec_playlist(lines: Seq<Seq<u8>>) -> Result<
    crate::types::PlaylistV,
    ParseErrorV,
> {
    if lines.len() == 0 || lines[0] != "#EXTM3U".spec_bytes() {
        Err(ParseErrorV::MissingTag("#EXTM3U".spec_bytes()))
    } else {
        let version = spec_header_u32(lines, 1, "#EXT-X-VERSION:".spec_bytes());
        let target_duration = spec_header_u32(lines, 2, "#EXT-X-TARGETDURATION:".spec_bytes());
        let media_sequence = spec_header_u32(lines, 3, "#EXT-X-MEDIA-SEQUENCE:".spec_bytes());
        let elapsed = spec_header_float(lines, 4, "#EXT-X-TWITCH-ELAPSED-SECS:".spec_bytes());
        let total = spec_header_float(lines, 5, "#EXT-X-TWITCH-TOTAL-SECS:".spec_bytes());
        if version is Err {
            Err(version->Err_0)
        } else if target_duration is Err {
            Err(target_duration->Err_0)
        } else if media_sequence is Err {
            Err(media_sequence->Err_0)
        } else if elapsed is Err {
            Err(elapsed->Err_0)
        } else if total is Err {
            Err(total->Err_0)
        } else {
            let k0 = 6int;
            let k1 = if k0 < lines.len() && has_prefix(lines[k0], "#EXT-X-MAP:".spec_bytes()) {
                k0 + 1
            } else {
                k0
            };
            let k2 = if k1 + 2 < lines.len() && has_prefix(
                lines[k1],
                "#EXT-X-DATERANGE:".spec_bytes(),
            ) && has_prefix(lines[k1 + 1], "#EXT-X-DISCONTINUITY".spec_bytes()) && has_prefix(
                lines[k1 + 2],
                "#EXT-X-SCTE35-OUT:".spec_bytes(),
            ) {
                k1 + 3
            } else {
                k1
            };
            let segs = spec_segments(lines, k2);
            if segs.len() == 0 {
                Err(ParseErrorV::MissingTag("#EXTINF:".spec_bytes()))
            } else {
                Ok(
                    crate::types::PlaylistV {
                        version: version->Ok_0,
                        target_duration: target_duration->Ok_0,
                        media_sequence: media_sequence->Ok_0,
                        twitch_elapsed_secs: elapsed->Ok_0,
                        twitch_total_secs: total->Ok_0,
                        segments: segs,
                    },
                )
            }
        }
    }
}

/// What parsing a media playlist from raw bytes yields.
pub open spec fn spec_parse_playlist(data: Seq<u8>) -> Result<
    crate::types::PlaylistV,
    ParseErrorV,
> {
    spec_playlist(spec_lines(data))
}

/// Reads a `u32` header line.
fn header_u32(lines: &Vec<Vec<u8>>, idx: usize, tag: &str) -> (r: Result<u32, ParseError>)
    ensures
        match r {
            Ok(v) => spec_header_u32(lines_view(lines@), idx as int, tag.spec_bytes()) == Ok::<
                _,
                ParseErrorV,
            >(v),
            Err(e) => spec_header_u32(lines_view(lines@), idx as int, tag.spec_bytes()) == Err::<
                u32,
                _,
            >(e@),
        },
{
    let tag_bytes = tag.as_bytes();
    if idx >= lines.len() || !starts_with(lines[idx].as_slice(), tag_bytes) {
        return Err(ParseError::MissingTag(copy_bytes(tag_bytes)));
    }
    let line = &lines[idx];
    let v = sub_bytes(line.as_slice(), tag_bytes.len(), line.len());
    proof {
        assert(v@ =~= lines_view(lines@)[idx as int].skip(tag.spec_bytes().len() as int));
    }
    match parse_u32(v.as_slice()) {
        Some(n) => Ok(n),
        None => Err(ParseError::BadValue(copy_bytes(tag_bytes), v)),
    }
}

/// Reads a floating-point header line, keeping the raw numeral.
fn header_float(lines: &Vec<Vec<u8>>, idx: usize, tag: &str) -> (r: Result<Vec<u8>, ParseError>)
    ensures
        match r {
            Ok(v) => spec_header_float(lines_view(lines@), idx as int, tag.spec_bytes()) == Ok::<
                _,
                ParseErrorV,
            >(v@),
            Err(e) => spec_header_float(lines_view(lines@), idx as int, tag.spec_bytes())
                == Err::<Seq<u8>, _>(e@),
        },
{
    let tag_bytes = tag.as_bytes();
    if idx >= lines.len() || !starts_with(lines[idx].as_slice(), tag_bytes) {
        return Err(ParseError::MissingTag(copy_bytes(tag_bytes)));
    }
    let line = &lines[idx];
    let v = sub_bytes(line.as_slice(), tag_bytes.len(), line.len());
    proof {
        assert(v@ =~= lines_view(lines@)[idx as int].skip(tag.spec_bytes().len() as int));
    }
    if float_ok(v.as_slice()) {
        Ok(v)
    } else {
        Err(ParseError::BadValue(copy_bytes(tag_bytes), v))
    }
}

/// The views of a segment vector.
pub open spec fn segments_view(v: Seq<crate::types::Segment>) -> Seq<Seq<u8>> {
    v.map_values(|s: crate::types::Segment| s@)
}

/// Collects segments from line `i` on.
fn segments_from(lines: &Vec<Vec<u8>>, i: usize) -> (r: Vec<crate::types::Segment>)
    requires
        i <= lines@.len(),
    ensures
        segments_view(r@) == spec_segments(lines_view(lines@), i as int),
    decreases lines@.len() - i,
{
    let ghost lv = lines_view(lines@);
    if i >= lines.len() {
        let out: Vec<crate::types::Segment> = Vec::new();
        proof {
            assert(segments_view(out@) =~= spec_segments(lv, i as int));
        }
        return out;
    }
    let j = if starts_with(lines[i].as_slice(), "#EXT-X-PROGRAM-DATE-TIME:".as_bytes()) {
        i + 1
    } else {
        i
    };
    if j < lines.len() && starts_with(lines[j].as_slice(), "#EXTINF:".as_bytes()) && j + 1
        < lines.len() {
        let location = copy_bytes(lines[j + 1].as_slice());
        let seg = crate::types::Segment { location };
        let rest = segments_from(lines, j + 2);
        let mut out: Vec<crate::types::Segment> = Vec::new();
        out.push(seg);
        let mut rest = rest;
        let ghost rest0 = rest@;
        while rest.len() > 0
            invariant
                out@.len() >= 1,
                rest0 == out@.skip(1) + rest@,
                segments_view(out@.take(1)) == seq![lv[j + 1]],
            decreases rest@.len(),
        {
            let p = rest.remove(0);
            out.push(p);
            proof {
                assert(out@.skip(1) + rest@ =~= out@.drop_last().skip(1) + (seq![out@.last()]
                    + rest@));
                assert(out@.take(1) =~= out@.drop_last().take(1));
            }
        }
        proof {
            assert(out@.skip(1) =~= rest0);
            assert(segments_view(out@) =~= seq![lv[j + 1]] + segments_view(rest0));
        }
        out
    } else if j < lines.len() && starts_with(
        lines[j].as_slice(),
        "#EXT-X-TWITCH-PREFETCH:".as_bytes(),
    ) {
        let tag_len = "#EXT-X-TWITCH-PREFETCH:".as_bytes().len();
        let line = &lines[j];
        let location = sub_bytes(line.as_slice(), tag_len, line.len());
        proof {
            assert(location@ =~= lv[j as int].skip(
                "#EXT-X-TWITCH-PREFETCH:".spec_bytes().len() as int,
            ));
        }
        let seg = crate::types::Segment { location };
        let rest = segments_from(lines, j + 1);
        let mut out: Vec<crate::types::Segment> = Vec::new();
        out.push(seg);
        let mut rest = rest;
        let ghost rest0 = rest@;
        let ghost first = seg@;
        while rest.len() > 0
            invariant
                out@.len() >= 1,
                rest0 == out@.skip(1) + rest@,
                out@[0]@ == first,
            decreases rest@.len(),
        {
            let p = rest.remove(0);
            out.push(p);
            proof {
                assert(out@.skip(1) + rest@ =~= out@.drop_last().skip(1) + (seq![out@.last()]
                    + rest@));
            }
        }
        proof {
            assert(out@.skip(1) =~= rest0);
            assert(segments_view(out@) =~= seq![first] + segments_view(rest0));
        }
        out
    } else {
        let out: Vec<crate::types::Segment> = Vec::new();
        proof {
            assert(segments_view(out@) =~= spec_segments(lv, i as int));
        }
        out
    }
}

/// Parses a media playlist from raw bytes, yielding exactly what the
/// line-level grammar describes, or the structured error for the rule that
/// failed.
pub fn parse_playlist(data: &[u8]) -> (r: Result<crate::types::Playlist, ParseError>)
    ensures
        match r {
            Ok(p) => spec_parse_playlist(data@) == Ok::<_, ParseErrorV>(p@),
            Err(e) => spec_parse_playlist(data@) == Err::<crate::types::PlaylistV, _>(e@),
        },
{
    let lines = split_lines(data);
    let ghost lv = lines_view(lines@);
    if lines.len() == 0 || !bytes_eq(lines[0].as_slice(), "#EXTM3U".as_bytes()) {
        return Err(ParseError::MissingTag(copy_bytes("#EXTM3U".as_bytes())));
    }
    let version = match header_u32(&lines, 1, "#EXT-X-VERSION:") {
        Ok(v) => v,
        Err(e) => {
            return Err(e);
        },
    };
    let target_duration = match header_u32(&lines, 2, "#EXT-X-TARGETDURATION:") {
        Ok(v) => v,
        Err(e) => {
            return Err(e);
        },
    };
    let media_sequence = match header_u32(&lines, 3, "#EXT-X-MEDIA-SEQUENCE:") {
        Ok(v) => v,
        Err(e) => {
            return Err(e);
        },
    };
    let twitch_elapsed_secs = match header_float(&lines, 4, "#EXT-X-TWITCH-ELAPSED-SECS:") {
        Ok(v) => v,
        Err(e) => {
            return Err(e);
        },
    };
    let twitch_total_secs = match header_float(&lines, 5, "#EXT-X-TWITCH-TOTAL-SECS:") {
        Ok(v) => v,
        Err(e) => {
            return Err(e);
        },
    };
    let mut k: usize = 6;
    if k < lines.len() && starts_with(lines[k].as_slice(), "#EXT-X-MAP:".as_bytes()) {
        k = k + 1;
    }
    if k + 2 < lines.len() && starts_with(lines[k].as_slice(), "#EXT-X-DATERANGE:".as_bytes())
        && starts_with(lines[k + 1].as_slice(), "#EXT-X-DISCONTINUITY".as_bytes())
        && starts_with(lines[k + 2].as_slice(), "#EXT-X-SCTE35-OUT:".as_bytes()) {
        k = k + 3;
    }
    let segments = segments_from(&lines, k);
    if segments.len() == 0 {
        return Err(ParseError::MissingTag(copy_bytes("#EXTINF:".as_bytes())));
    }
    Ok(
        crate::types::Playlist {
            version,
            target_duration,
            media_sequence,
            twitch_elapsed_secs,
            twitch_total_secs,
            segments,
        },
    )
}

} // verus!

verus! {

/// The restricted-variant lines readable from line `i` on, and the index of
/// the first line after them. A restricted line that fails to extract is a
/// fatal error.
pub open spec fn spec_restricted_list(lines: Seq<Seq<u8>>, i: int) -> Result<
    (Seq<crate::types::RestrictedPlaylistInfoV>, int),
    ParseErrorV,
>
    decreases lines.len() - i,
{
    if 0 <= i < lines.len() && has_prefix(lines[i], "#EXT-X-TWITCH-RESTRICTED:".spec_bytes()) {
        match spec_kv(lines[i].skip("#EXT-X-TWITCH-RESTRICTED:".spec_bytes().len() as int)) {
            None => Err(ParseErrorV::BadAttributes),
            Some(pairs) => match spec_restricted_info(pairs) {
                Err(e) => Err(e),
                Ok(ri) => match spec_restricted_list(lines, i + 1) {
                    Err(e) => Err(e),
                    Ok((rest, ni)) => Ok((seq![ri] + rest, ni)),
                },
            },
        }
    } else {
        Ok((Seq::empty(), i))
    }
}

/// One variant block at line `i`: a media line, a stream-info line and a
/// location line; yields the variant and the index after the block.
pub open spec fn spec_block(lines: Seq<Seq<u8>>, i: int) -> Result<
    (crate::types::PlaylistInfoV, int),
    ParseErrorV,
> {
    if !(0 <= i < lines.len() && has_prefix(lines[i], "#EXT-X-MEDIA:".spec_bytes())) {
        Err(ParseErrorV::MissingTag("#EXT-X-MEDIA:".spec_bytes()))
    } else {
        match spec_kv(lines[i].skip("#EXT-X-MEDIA:".spec_bytes().len() as int)) {
            None => Err(ParseErrorV::BadAttributes),
            Some(mpairs) => match spec_media_info(mpairs) {
                Err(e) => Err(e),
                Ok(media) => {
                    if !(i + 1 < lines.len() && has_prefix(
                        lines[i + 1],
                        "#EXT-X-STREAM-INF:".spec_bytes(),
                    )) {
                        Err(ParseErrorV::MissingTag("#EXT-X-STREAM-INF:".spec_bytes()))
                    } else {
                        match spec_kv(
                            lines[i + 1].skip("#EXT-X-STREAM-INF:".spec_bytes().len() as int),
                        ) {
                            None => Err(ParseErrorV::BadAttributes),
                            Some(spairs) => match spec_stream_info(spairs) {
                                Err(e) => Err(e),
                                Ok(stream) => {
                                    if i + 2 >= lines.len() {
                                        Err(ParseErrorV::MissingTag("URL".spec_bytes()))
                                    } else {
                                        Ok(
                                            (
                                                crate::types::PlaylistInfoV {
                                                    media_info: media,
                                                    stream_info: stream,
                                                    url: lines[i + 2],
                                                },
                                                i + 3,
                                            ),
                                        )
                                    }
                                },
                            },
                        }
                    }
                },
            },
        }
    }
}

/// The variant blocks after the first: reading stops at the first block
/// that does not parse, whose lines are left unread.
pub open spec fn spec_blocks_rest(lines: Seq<Seq<u8>>, i: int) -> Seq<crate::types::PlaylistInfoV>
    decreases lines.len() - i,
{
    match spec_block(lines, i) {
        Err(_) => Seq::empty(),
        Ok((b, ni)) => {
            if i < ni <= lines.len() {
                seq![b] + spec_blocks_rest(lines, ni)
            } else {
                seq![b]
            }
        },
    }
}

/// A stream index: the `#EXTM3U` marker, the Twitch info line, any
/// restricted-variant lines, then one or more variant blocks.
pub open spec fn spec_stream_index(lines: Seq<Seq<u8>>) -> Result<
    crate::types::StreamIndexV,
    ParseErrorV,
> {
    if lines.len() == 0 || lines[0] != "#EXTM3U".spec_bytes() {
        Err(ParseErrorV::MissingTag("#EXTM3U".spec_bytes()))
    } else if !(1 < lines.len() && has_prefix(lines[1], "#EXT-X-TWITCH-INFO:".spec_bytes())) {
        Err(ParseErrorV::MissingTag("#EXT-X-TWITCH-INFO:".spec_bytes()))
    } else {
        match spec_kv(lines[1].skip("#EXT-X-TWITCH-INFO:".spec_bytes().len() as int)) {
            None => Err(ParseErrorV::BadAttributes),
            Some(pairs) => match spec_twitch_info(pairs) {
                Err(e) => Err(e),
                Ok(ti) => match spec_restricted_list(lines, 2) {
                    Err(e) => Err(e),
                    Ok((restricted, i)) => match spec_block(lines, i) {
                        Err(e) => Err(e),
                        Ok((b0, ni)) => Ok(
                            crate::types::StreamIndexV {
                                twitch_info: ti,
                                playlist_infos: seq![b0] + spec_blocks_rest(lines, ni),
                                restricted_playlists_infos: restricted,
                            },
                        ),
                    },
                },
            },
        }
    }
}

/// What parsing a stream index from raw bytes yields.
pub open spec fn spec_parse_stream_index(data: Seq<u8>) -> Result<
    crate::types::StreamIndexV,
    ParseErrorV,
> {
    spec_stream_index(spec_lines(data))
}

/// Parses the attribute list after `tag` on `line`.
fn line_attributes(line: &Vec<u8>, tag: &str) -> (r: Option<Vec<(Vec<u8>, Vec<u8>)>>)
    requires
        has_prefix(line@, tag.spec_bytes()),
    ensures
        match r {
            Some(ps) => spec_kv(line@.skip(tag.spec_bytes().len() as int)) == Some(kv_view(ps@)),
            None => spec_kv(line@.skip(tag.spec_bytes().len() as int)) is None,
        },
{
    let tag_bytes = tag.as_bytes();
    let rest = sub_bytes(line.as_slice(), tag_bytes.len(), line.len());
    proof {
        assert(rest@ =~= line@.skip(tag.spec_bytes().len() as int));
    }
    parse_kv(rest.as_slice())
}

/// The views of a restricted-variant vector.
pub open spec fn restricted_view(v: Seq<crate::types::RestrictedPlaylistInfo>) -> Seq<
    crate::types::RestrictedPlaylistInfoV,
> {
    v.map_values(|r: crate::types::RestrictedPlaylistInfo| r@)
}

/// Collects restricted-variant lines from line `i` on.
fn restricted_from(lines: &Vec<Vec<u8>>, i: usize) -> (r: Result<
    (Vec<crate::types::RestrictedPlaylistInfo>, usize),
    ParseError,
>)
    requires
        i <= lines@.len(),
    ensures
        match r {
            Ok((rs, ni)) => {
                &&& spec_restricted_list(lines_view(lines@), i as int) == Ok::<_, ParseErrorV>(
                    (restricted_view(rs@), ni as int),
                )
                &&& i <= ni <= lines@.len()
            },
            Err(e) => spec_restricted_list(lines_view(lines@), i as int) == Err::<
                (Seq<crate::types::RestrictedPlaylistInfoV>, int),
                _,
            >(e@),
        },
    decreases lines@.len() - i,
{
    let ghost lv = lines_view(lines@);
    if i < lines.len() && starts_with(
        lines[i].as_slice(),
        "#EXT-X-TWITCH-RESTRICTED:".as_bytes(),
    ) {
        let pairs = match line_attributes(&lines[i], "#EXT-X-TWITCH-RESTRICTED:") {
            Some(ps) => ps,
            None => {
                return Err(ParseError::BadAttributes);
            },
        };
        let ri = match extract_restricted_info(&pairs) {
            Ok(v) => v,
            Err(e) => {
                return Err(e);
            },
        };
        match restricted_from(lines, i + 1) {
            Ok((rest, ni)) => {
                let mut out: Vec<crate::types::RestrictedPlaylistInfo> = Vec::new();
                out.push(ri);
                let mut rest = rest;
                let ghost rest0 = rest@;
                let ghost first = out@[0]@;
                while rest.len() > 0
                    invariant
                        out@.len() >= 1,
                        rest0 == out@.skip(1) + rest@,
                        out@[0]@ == first,
                    decreases rest@.len(),
                {
                    let p = rest.remove(0);
                    out.push(p);
                    proof {
                        assert(out@.skip(1) + rest@ =~= out@.drop_last().skip(1) + (seq![
                            out@.last(),
                        ] + rest@));
                    }
                }
                proof {
                    assert(out@.skip(1) =~= rest0);
                    assert(restricted_view(out@) =~= seq![first] + restricted_view(rest0));
                }
                Ok((out, ni))
            },
            Err(e) => Err(e),
        }
    } else {
        let out: Vec<crate::types::RestrictedPlaylistInfo> = Vec::new();
        proof {
            assert(restricted_view(out@) =~= Seq::<
                crate::types::RestrictedPlaylistInfoV,
            >::empty());
        }
        Ok((out, i))
    }
}

/// Reads one variant block at line `i`.
fn block_at(lines: &Vec<Vec<u8>>, i: usize) -> (r: Result<
    (crate::types::PlaylistInfo, usize),
    ParseError,
>)
    ensures
        match r {
            Ok((b, ni)) => {
                &&& spec_block(lines_view(lines@), i as int) == Ok::<_, ParseErrorV>(
                    (b@, ni as int),
                )
                &&& i < ni <= lines@.len()
            },
            Err(e) => spec_block(lines_view(lines@), i as int) == Err::<
                (crate::types::PlaylistInfoV, int),
                _,
            >(e@),
        },
{
    if !(i < lines.len() && starts_with(lines[i].as_slice(), "#EXT-X-MEDIA:".as_bytes())) {
        return Err(ParseError::MissingTag(copy_bytes("#EXT-X-MEDIA:".as_bytes())));
    }
    let mpairs = match line_attributes(&lines[i], "#EXT-X-MEDIA:") {
        Some(ps) => ps,
        None => {
            return Err(ParseError::BadAttributes);
        },
    };
    let media_info = match extract_media_info(&mpairs) {
        Ok(v) => v,
        Err(e) => {
            return Err(e);
        },
    };
    if !(i + 1 < lines.len() && starts_with(
        lines[i + 1].as_slice(),
        "#EXT-X-STREAM-INF:".as_bytes(),
    )) {
        return Err(ParseError::MissingTag(copy_bytes("#EXT-X-STREAM-INF:".as_bytes())));
    }
    let spairs = match line_attributes(&lines[i + 1], "#EXT-X-STREAM-INF:") {
        Some(ps) => ps,
        None => {
            return Err(ParseError::BadAttributes);
        },
    };
    let stream_info = match extract_stream_info(&spairs) {
        Ok(v) => v,
        Err(e) => {
            return Err(e);
        },
    };
    if i + 2 >= lines.len() {
        return Err(ParseError::MissingTag(copy_bytes("URL".as_bytes())));
    }
    let url = copy_bytes(lines[i + 2].as_slice());
    Ok((crate::types::PlaylistInfo { media_info, stream_info, url }, i + 3))
}

/// The views of a variant vector.
pub open spec fn playlist_infos_view(v: Seq<crate::types::PlaylistInfo>) -> Seq<
    crate::types::PlaylistInfoV,
> {
    v.map_values(|p: crate::types::PlaylistInfo| p@)
}

/// Collects the variant blocks after the first, stopping at the first one
/// that does not parse.
fn blocks_from(lines: &Vec<Vec<u8>>, i: usize) -> (r: Vec<crate::types::PlaylistInfo>)
    requires
        i <= lines@.len(),
    ensures
        playlist_infos_view(r@) == spec_blocks_rest(lines_view(lines@), i as int),
    decreases lines@.len() - i,
{
    let ghost lv = lines_view(lines@);
    match block_at(lines, i) {
        Err(_) => {
            let out: Vec<crate::types::PlaylistInfo> = Vec::new();
            proof {
                assert(playlist_infos_view(out@) =~= Seq::<crate::types::PlaylistInfoV>::empty());
            }
            out
        },
        Ok((b, ni)) => {
            let rest = blocks_from(lines, ni);
            let mut out: Vec<crate::types::PlaylistInfo> = Vec::new();
            let ghost first = b@;
            out.push(b);
            let mut rest = rest;
            let ghost rest0 = rest@;
            while rest.len() > 0
                invariant
                    out@.len() >= 1,
                    rest0 == out@.skip(1) + rest@,
                    out@[0]@ == first,
                decreases rest@.len(),
            {
                let p = rest.remove(0);
                out.push(p);
                proof {
                    assert(out@.skip(1) + rest@ =~= out@.drop_last().skip(1) + (seq![out@.last()]
                        + rest@));
                }
            }
            proof {
                assert(out@.skip(1) =~= rest0);
                assert(playlist_infos_view(out@) =~= seq![first] + playlist_infos_view(rest0));
            }
            out
        },
    }
}

/// Parses a stream index from raw bytes, yielding exactly what the
/// line-level grammar describes, or the structured error for the rule that
/// failed.
pub fn parse_stream_index(data: &[u8]) -> (r: Result<crate::types::StreamIndex, ParseError>)
    ensures
        match r {
            Ok(ix) => spec_parse_stream_index(data@) == Ok::<_, ParseErrorV>(ix@),
            Err(e) => spec_parse_stream_index(data@) == Err::<crate::types::StreamIndexV, _>(e@),
        },
{
    let lines = split_lines(data);
    let ghost lv = lines_view(lines@);
    if lines.len() == 0 || !bytes_eq(lines[0].as_slice(), "#EXTM3U".as_bytes()) {
        return Err(ParseError::MissingTag(copy_bytes("#EXTM3U".as_bytes())));
    }
    if !(1 < lines.len() && starts_with(lines[1].as_slice(), "#EXT-X-TWITCH-INFO:".as_bytes())) {
        return Err(ParseError::MissingTag(copy_bytes("#EXT-X-TWITCH-INFO:".as_bytes())));
    }
    let pairs = match line_attributes(&lines[1], "#EXT-X-TWITCH-INFO:") {
        Some(ps) => ps,
        None => {
            return Err(ParseError::BadAttributes);
        },
    };
    let twitch_info = match extract_twitch_info(&pairs) {
        Ok(v) => v,
        Err(e) => {
            return Err(e);
        },
    };
    let (restricted_playlists_infos, after_restricted) = match restricted_from(&lines, 2) {
        Ok(v) => v,
        Err(e) => {
            return Err(e);
        },
    };
    let (b0, ni) = match block_at(&lines, after_restricted) {
        Ok(v) => v,
        Err(e) => {
            return Err(e);
        },
    };
    let rest = blocks_from(&lines, ni);
    let mut playlist_infos: Vec<crate::types::PlaylistInfo> = Vec::new();
    let ghost first = b0@;
    playlist_infos.push(b0);
    let mut rest = rest;
    let ghost rest0 = rest@;
    while rest.len() > 0
        invariant
            playlist_infos@.len() >= 1,
            rest0 == playlist_infos@.skip(1) + rest@,
            playlist_infos@[0]@ == first,
        decreases rest@.len(),
    {
        let p = rest.remove(0);
        playlist_infos.push(p);
        proof {
            assert(playlist_infos@.skip(1) + rest@ =~= playlist_infos@.drop_last().skip(1) + (
            seq![playlist_infos@.last()] + rest@));
        }
    }
    proof {
        assert(playlist_infos@.skip(1) =~= rest0);
        assert(playlist_infos_view(playlist_infos@) =~= seq![first] + playlist_infos_view(rest0));
    }
    let index = crate::types::StreamIndex {
        twitch_info,
        playlist_infos,
        restricted_playlists_infos,
    };
    Ok(index)
}

} // verus!

verus! {

/// The lines a playlist renders to: the marker, the five header lines,
/// then for each segment an `#EXTINF:` line and its location line. Useful
/// to tests and to the round-trip law, which check that parsing what was
/// rendered preserves the playlist.
pub open spec fn spec_render_lines(p: crate::types::PlaylistV) -> Seq<Seq<u8>> {
    seq![
        "#EXTM3U".spec_bytes(),
        "#EXT-X-VERSION:".spec_bytes() + crate::api::spec_dec_of(p.version as nat),
        "#EXT-X-TARGETDURATION:".spec_bytes() + crate::api::spec_dec_of(
            p.target_duration as nat,
        ),
        "#EXT-X-MEDIA-SEQUENCE:".spec_bytes() + crate::api::spec_dec_of(
            p.media_sequence as nat,
        ),
        "#EXT-X-TWITCH-ELAPSED-SECS:".spec_bytes() + p.twitch_elapsed_secs,
        "#EXT-X-TWITCH-TOTAL-SECS:".spec_bytes() + p.twitch_total_secs,
    ] + spec_render_segment_lines(p.segments)
}

/// The segment lines of a rendered playlist.
pub open spec fn spec_render_segment_lines(segments: Seq<Seq<u8>>) -> Seq<Seq<u8>>
    decreases segments.len(),
{
    if segments.len() == 0 {
        Seq::empty()
    } else {
        seq!["#EXTINF:2.000,".spec_bytes(), segments[0]] + spec_render_segment_lines(
            segments.skip(1),
        )
    }
}

/// Lines joined back into one byte string, each with its terminator.
pub open spec fn join_lines(lines: Seq<Seq<u8>>) -> Seq<u8>
    decreases lines.len(),
{
    if lines.len() == 0 {
        Seq::empty()
    } else {
        lines[0] + seq![NEWLINE] + join_lines(lines.skip(1))
    }
}

/// Joining distributes over appending one line.
proof fn lemma_join_lines_push(lines: Seq<Seq<u8>>, l: Seq<u8>)
    ensures
        join_lines(lines.push(l)) == join_lines(lines) + l + seq![NEWLINE],
    decreases lines.len(),
{
    if lines.len() == 0 {
        assert(lines.push(l)[0] == l);
        assert(lines.push(l).skip(1) =~= Seq::<Seq<u8>>::empty());
        assert(join_lines(Seq::<Seq<u8>>::empty()) =~= Seq::<u8>::empty());
        assert(join_lines(lines.push(l)) =~= l + seq![NEWLINE]);
        assert(join_lines(lines) + l + seq![NEWLINE] =~= l + seq![NEWLINE]);
    } else {
        assert(lines.push(l).skip(1) =~= lines.skip(1).push(l));
        lemma_join_lines_push(lines.skip(1), l);
        assert(lines.push(l)[0] == lines[0]);
        assert(lines[0] + seq![NEWLINE] + (join_lines(lines.skip(1)) + l + seq![NEWLINE]) =~= (
        lines[0] + seq![NEWLINE] + join_lines(lines.skip(1))) + l + seq![NEWLINE]);
    }
}

/// What a playlist renders to.
pub open spec fn spec_render_playlist(p: crate::types::PlaylistV) -> Seq<u8> {
    join_lines(spec_render_lines(p))
}

/// Appends one rendered line and its terminator.
fn push_line(out: &mut Vec<u8>, line: &[u8])
    ensures
        final(out)@ == old(out)@ + line@ + seq![NEWLINE],
{
    crate::api::append_bytes(out, line);
    out.push(NEWLINE);
    proof {
        assert(final(out)@ =~= old(out)@ + line@ + seq![NEWLINE]);
    }
}

/// Renders a playlist back to bytes.
pub fn render_playlist(p: &crate::types::Playlist) -> (r: Vec<u8>)
    ensures
        r@ == spec_render_playlist(p@),
{
    let ghost all = spec_render_lines(p@);
    let mut out: Vec<u8> = Vec::new();
    proof {
        assert(out@ =~= join_lines(all.take(0)));
    }
    push_line(&mut out, "#EXTM3U".as_bytes());
    proof {
        lemma_join_lines_push(all.take(0), all[0]);
        assert(all.take(1) =~= all.take(0).push(all[0]));
        assert(out@ == join_lines(all.take(1)));
    }
    let mut line = copy_bytes("#EXT-X-VERSION:".as_bytes());
    let v = crate::api::dec_of(p.version as u64);
    crate::api::append_bytes(&mut line, v.as_slice());
    push_line(&mut out, line.as_slice());
    proof {
        lemma_join_lines_push(all.take(1), all[1]);
        assert(all.take(2) =~= all.take(1).push(all[1]));
        assert(out@ == join_lines(all.take(2)));
    }
    let mut line = copy_bytes("#EXT-X-TARGETDURATION:".as_bytes());
    let td = crate::api::dec_of(p.target_duration as u64);
    crate::api::append_bytes(&mut line, td.as_slice());
    push_line(&mut out, line.as_slice());
    proof {
        lemma_join_lines_push(all.take(2), all[2]);
        assert(all.take(3) =~= all.take(2).push(all[2]));
        assert(out@ == join_lines(all.take(3)));
    }
    let mut line = copy_bytes("#EXT-X-MEDIA-SEQUENCE:".as_bytes());
    let ms = crate::api::dec_of(p.media_sequence as u64);
    crate::api::append_bytes(&mut line, ms.as_slice());
    push_line(&mut out, line.as_slice());
    proof {
        lemma_join_lines_push(all.take(3), all[3]);
        assert(all.take(4) =~= all.take(3).push(all[3]));
        assert(out@ == join_lines(all.take(4)));
    }
    let mut line = copy_bytes("#EXT-X-TWITCH-ELAPSED-SECS:".as_bytes());
    crate::api::append_bytes(&mut line, p.twitch_elapsed_secs.as_slice());
    push_line(&mut out, line.as_slice());
    proof {
        lemma_join_lines_push(all.take(4), all[4]);
        assert(all.take(5) =~= all.take(4).push(all[4]));
        assert(out@ == join_lines(all.take(5)));
    }
    let mut line = copy_bytes("#EXT-X-TWITCH-TOTAL-SECS:".as_bytes());
    crate::api::append_bytes(&mut line, p.twitch_total_secs.as_slice());
    push_line(&mut out, line.as_slice());
    proof {
        lemma_join_lines_push(all.take(5), all[5]);
        assert(all.take(6) =~= all.take(5).push(all[5]));
        assert(out@ == join_lines(all.take(6)));
    }
    let mut i: usize = 0;
    proof {
        lemma_render_segment_lines_len(p@.segments);
    }
    while i < p.segments.len()
        invariant
            i <= p.segments@.len(),
            all == spec_render_lines(p@),
            p@.segments.len() == p.segments@.len(),
            all.len() == 6 + 2 * p@.segments.len(),
            out@ == join_lines(all.take(6 + 2 * i)),
        decreases p.segments@.len() - i,
    {
        proof {
            lemma_render_segment_lines_at(p@.segments, i as int);
            assert(p@.segments[i as int] == p.segments@[i as int]@);
        }
        push_line(&mut out, "#EXTINF:2.000,".as_bytes());
        proof {
            lemma_join_lines_push(all.take(6 + 2 * i), all[6 + 2 * i]);
            assert(all.take(6 + 2 * i + 1) =~= all.take(6 + 2 * i).push(all[6 + 2 * i]));
            assert(out@ == join_lines(all.take(6 + 2 * i + 1)));
        }
        push_line(&mut out, p.segments[i].location.as_slice());
        proof {
            lemma_join_lines_push(all.take(6 + 2 * i + 1), all[6 + 2 * i + 1]);
            assert(all.take(6 + 2 * i + 2) =~= all.take(6 + 2 * i + 1).push(all[6 + 2 * i
                + 1]));
            assert(out@ == join_lines(all.take(6 + 2 * i + 2)));
        }
        i = i + 1;
    }
    proof {
        assert(all.take(all.len() as int) =~= all);
    }
    out
}

/// Where each segment's two lines stand among the rendered lines.
proof fn lemma_render_segment_lines_at(segments: Seq<Seq<u8>>, i: int)
    requires
        0 <= i < segments.len(),
    ensures
        spec_render_segment_lines(segments).len() == 2 * segments.len(),
        spec_render_segment_lines(segments)[2 * i] == "#EXTINF:2.000,".spec_bytes(),
        spec_render_segment_lines(segments)[2 * i + 1] == segments[i],
    decreases i,
{
    lemma_render_segment_lines_len(segments);
    if i > 0 {
        lemma_render_segment_lines_at(segments.skip(1), i - 1);
        lemma_render_segment_lines_len(segments.skip(1));
        assert(spec_render_segment_lines(segments)[2 * i] == spec_render_segment_lines(
            segments.skip(1),
        )[2 * (i - 1)]);
        assert(spec_render_segment_lines(segments)[2 * i + 1] == spec_render_segment_lines(
            segments.skip(1),
        )[2 * (i - 1) + 1]);
        assert(segments.skip(1)[i - 1] == segments[i]);
    }
}

/// Two lines per segment.
proof fn lemma_render_segment_lines_len(segments: Seq<Seq<u8>>)
    ensures
        spec_render_segment_lines(segments).len() == 2 * segments.len(),
    decreases segments.len(),
{
    if segments.len() > 0 {
        lemma_render_segment_lines_len(segments.skip(1));
    }
}

} // verus!

verus! {

/// A line that can be joined and split back: it carries no terminator of
/// its own.
pub open spec fn line_free(l: Seq<u8>) -> bool {
    forall|i: int| 0 <= i < l.len() ==> #[trigger] l[i] != NEWLINE
}

/// The first occurrence is where the first witness stands.
proof fn lemma_first_index_at(s: Seq<u8>, from: int, needle: u8, k: int)
    requires
        0 <= from <= k < s.len(),
        s[k] == needle,
        forall|j: int| from <= j < k ==> #[trigger] s[j] != needle,
    ensures
        crate::text::first_index_from(s, from, needle) == Some(k),
    decreases k - from,
{
    if from < k {
        lemma_first_index_at(s, from + 1, needle, k);
    }
}

/// Splitting undoes joining: newline-free lines joined with terminators
/// read back as exactly those lines.
pub proof fn lemma_split_join(lines: Seq<Seq<u8>>)
    requires
        forall|k: int| 0 <= k < lines.len() ==> line_free(#[trigger] lines[k]),
    ensures
        spec_lines(join_lines(lines)) == lines,
    decreases lines.len(),
{
    if lines.len() == 0 {
        assert(join_lines(lines) =~= Seq::<u8>::empty());
        assert(spec_lines(Seq::<u8>::empty()) =~= Seq::<Seq<u8>>::empty());
        assert(spec_lines(join_lines(lines)) =~= lines);
    } else {
        let l0 = lines[0];
        let rest = join_lines(lines.skip(1));
        let bytes = join_lines(lines);
        assert(bytes == l0 + seq![NEWLINE] + rest);
        assert(bytes.len() == l0.len() + 1 + rest.len());
        assert(bytes[l0.len() as int] == NEWLINE);
        assert(forall|j: int| 0 <= j < l0.len() ==> #[trigger] bytes[j] == l0[j]);
        lemma_first_index_at(bytes, 0, NEWLINE, l0.len() as int);
        assert(bytes.take(l0.len() as int) =~= l0);
        assert(bytes.skip(l0.len() as int + 1) =~= rest);
        assert(forall|k: int|
            0 <= k < lines.skip(1).len() ==> line_free(#[trigger] lines.skip(1)[k]));
        lemma_split_join(lines.skip(1));
        assert(spec_lines(bytes) =~= seq![l0] + spec_lines(rest));
        assert(seq![l0] + lines.skip(1) =~= lines);
    }
}

} // verus!

verus! {

/// The concrete shapes of the rendered tag lines: none carries a line
/// terminator, a rendered segment line is no header of the optional
/// blocks, and it does carry its own tag.
proof fn lemma_render_literal_facts()
    ensures
        line_free("#EXTM3U".spec_bytes()),
        line_free("#EXT-X-VERSION:".spec_bytes()),
        line_free("#EXT-X-TARGETDURATION:".spec_bytes()),
        line_free("#EXT-X-MEDIA-SEQUENCE:".spec_bytes()),
        line_free("#EXT-X-TWITCH-ELAPSED-SECS:".spec_bytes()),
        line_free("#EXT-X-TWITCH-TOTAL-SECS:".spec_bytes()),
        line_free("#EXTINF:2.000,".spec_bytes()),
        !has_prefix("#EXTINF:2.000,".spec_bytes(), "#EXT-X-MAP:".spec_bytes()),
        !has_prefix("#EXTINF:2.000,".spec_bytes(), "#EXT-X-DATERANGE:".spec_bytes()),
        !has_prefix("#EXTINF:2.000,".spec_bytes(), "#EXT-X-PROGRAM-DATE-TIME:".spec_bytes()),
        has_prefix("#EXTINF:2.000,".spec_bytes(), "#EXTINF:".spec_bytes()),
{
    reveal_strlit("#EXTM3U");
    reveal_strlit("#EXT-X-VERSION:");
    reveal_strlit("#EXT-X-TARGETDURATION:");
    reveal_strlit("#EXT-X-MEDIA-SEQUENCE:");
    reveal_strlit("#EXT-X-TWITCH-ELAPSED-SECS:");
    reveal_strlit("#EXT-X-TWITCH-TOTAL-SECS:");
    reveal_strlit("#EXTINF:2.000,");
    reveal_strlit("#EXTINF:");
    reveal_strlit("#EXT-X-MAP:");
    reveal_strlit("#EXT-X-DATERANGE:");
    reveal_strlit("#EXT-X-PROGRAM-DATE-TIME:");
    assert(vstd::string::is_ascii("#EXTM3U"));
    vstd::string::is_ascii_spec_bytes("#EXTM3U");
    assert(vstd::string::is_ascii("#EXT-X-VERSION:"));
    vstd::string::is_ascii_spec_bytes("#EXT-X-VERSION:");
    assert(vstd::string::is_ascii("#EXT-X-TARGETDURATION:"));
    vstd::string::is_ascii_spec_bytes("#EXT-X-TARGETDURATION:");
    assert(vstd::string::is_ascii("#EXT-X-MEDIA-SEQUENCE:"));
    vstd::string::is_ascii_spec_bytes("#EXT-X-MEDIA-SEQUENCE:");
    assert(vstd::string::is_ascii("#EXT-X-TWITCH-ELAPSED-SECS:"));
    vstd::string::is_ascii_spec_bytes("#EXT-X-TWITCH-ELAPSED-SECS:");
    assert(vstd::string::is_ascii("#EXT-X-TWITCH-TOTAL-SECS:"));
    vstd::string::is_ascii_spec_bytes("#EXT-X-TWITCH-TOTAL-SECS:");
    assert(vstd::string::is_ascii("#EXTINF:2.000,"));
    vstd::string::is_ascii_spec_bytes("#EXTINF:2.000,");
    assert(vstd::string::is_ascii("#EXTINF:"));
    vstd::string::is_ascii_spec_bytes("#EXTINF:");
    assert(vstd::string::is_ascii("#EXT-X-MAP:"));
    vstd::string::is_ascii_spec_bytes("#EXT-X-MAP:");
    assert(vstd::string::is_ascii("#EXT-X-DATERANGE:"));
    vstd::string::is_ascii_spec_bytes("#EXT-X-DATERANGE:");
    assert(vstd::string::is_ascii("#EXT-X-PROGRAM-DATE-TIME:"));
    vstd::string::is_ascii_spec_bytes("#EXT-X-PROGRAM-DATE-TIME:");
    let e = "#EXTINF:2.000,".spec_bytes();
    assert(e.len() == 14);
    assert(e[4] == 'I' as u8);
    assert("#EXT-X-MAP:".spec_bytes()[4] == '-' as u8);
    assert(!has_prefix(e, "#EXT-X-MAP:".spec_bytes())) by {
        if has_prefix(e, "#EXT-X-MAP:".spec_bytes()) {
            assert(e.take(11)[4] == "#EXT-X-MAP:".spec_bytes()[4]);
        }
    }
    assert("#EXT-X-DATERANGE:".spec_bytes().len() == 17);
    assert("#EXT-X-PROGRAM-DATE-TIME:".spec_bytes().len() == 25);
    assert(e.take(8) =~= "#EXTINF:".spec_bytes());
}

/// Where the exponent marker stands, it is an exponent marker.
proof fn lemma_first_exp_char(s: Seq<u8>, from: int)
    ensures
        match first_exp_idx(s, from) {
            Some(k) => from <= k < s.len() && (s[k] == LOWER_E || s[k] == UPPER_E),
            None => true,
        },
    decreases s.len() - from,
{
    if 0 <= from < s.len() {
        if s[from] != LOWER_E && s[from] != UPPER_E {
            lemma_first_exp_char(s, from + 1);
        }
    }
}

/// A floating-point numeral never carries a line terminator.
pub proof fn lemma_float_line_free(s: Seq<u8>)
    requires
        is_float_numeral(s),
    ensures
        line_free(s),
{
    let t = strip_sign(s);
    if lower_bytes(t) == "inf".spec_bytes() || lower_bytes(t) == "infinity".spec_bytes()
        || lower_bytes(t) == "nan".spec_bytes() {
        reveal_strlit("inf");
        reveal_strlit("infinity");
        reveal_strlit("nan");
        assert(vstd::string::is_ascii("inf"));
        vstd::string::is_ascii_spec_bytes("inf");
        assert(vstd::string::is_ascii("infinity"));
        vstd::string::is_ascii_spec_bytes("infinity");
        assert(vstd::string::is_ascii("nan"));
        vstd::string::is_ascii_spec_bytes("nan");
        assert forall|i: int| 0 <= i < t.len() implies #[trigger] t[i] != NEWLINE by {
            assert(lower_bytes(t)[i] == crate::text::lower_byte(t[i]));
            if t[i] == NEWLINE {
                assert(lower_bytes(t)[i] == NEWLINE);
            }
        }
    } else {
        lemma_first_exp_char(t, 0);
        assert forall|i: int| 0 <= i < t.len() implies #[trigger] t[i] != NEWLINE by {
            match first_exp_idx(t, 0) {
                None => {
                    assert(is_dot_or_digit(t[i]));
                },
                Some(k) => {
                    if i < k {
                        assert(is_dot_or_digit(t.take(k)[i]));
                    } else if i == k {
                    } else {
                        let u = t.skip(k + 1);
                        let d = strip_sign(u);
                        assert(u[i - k - 1] == t[i]);
                        if u.len() > 0 && (u[0] == PLUS || u[0] == MINUS) {
                            if i - k - 1 > 0 {
                                assert(crate::text::is_digit(d[i - k - 2]));
                                assert(d[i - k - 2] == u[i - k - 1]);
                            }
                        } else {
                            assert(crate::text::is_digit(d[i - k - 1]));
                        }
                    }
                },
            }
        }
    }
    assert forall|i: int| 0 <= i < s.len() implies #[trigger] s[i] != NEWLINE by {
        if s.len() > 0 && (s[0] == PLUS || s[0] == MINUS) {
            if i > 0 {
                assert(s[i] == t[i - 1]);
            }
        } else {
            assert(s[i] == t[i]);
        }
    }
}

/// A digit run never carries a line terminator.
proof fn lemma_digits_line_free(s: Seq<u8>)
    requires
        crate::text::all_digits(s),
    ensures
        line_free(s),
{
}

/// A rendered `u32` header line reads back as its value.
proof fn lemma_header_u32_round(lines: Seq<Seq<u8>>, idx: int, tag: Seq<u8>, v: u32)
    requires
        0 <= idx < lines.len(),
        lines[idx] == tag + crate::api::spec_dec_of(v as nat),
    ensures
        spec_header_u32(lines, idx, tag) == Ok::<u32, ParseErrorV>(v),
{
    crate::api::lemma_dec_of_value(v as nat);
    assert(lines[idx].take(tag.len() as int) =~= tag);
    assert(lines[idx].skip(tag.len() as int) =~= crate::api::spec_dec_of(v as nat));
}

/// A rendered floating-point header line reads back as its raw numeral.
proof fn lemma_header_float_round(lines: Seq<Seq<u8>>, idx: int, tag: Seq<u8>, raw: Seq<u8>)
    requires
        0 <= idx < lines.len(),
        lines[idx] == tag + raw,
        is_float_numeral(raw),
    ensures
        spec_header_float(lines, idx, tag) == Ok::<Seq<u8>, ParseErrorV>(raw),
{
    assert(lines[idx].take(tag.len() as int) =~= tag);
    assert(lines[idx].skip(tag.len() as int) =~= raw);
}

/// Rendered segment lines read back as exactly their segments.
proof fn lemma_segments_round(lines: Seq<Seq<u8>>, i: int, segs: Seq<Seq<u8>>)
    requires
        0 <= i <= lines.len(),
        lines.skip(i) == spec_render_segment_lines(segs),
    ensures
        spec_segments(lines, i) == segs,
    decreases segs.len(),
{
    lemma_render_segment_lines_len(segs);
    lemma_render_literal_facts();
    if segs.len() == 0 {
        assert(lines.skip(i).len() == 0);
        assert(spec_segments(lines, i) =~= segs);
    } else {
        assert(lines[i] == lines.skip(i)[0]);
        assert(lines[i] == "#EXTINF:2.000,".spec_bytes());
        assert(lines[i + 1] == lines.skip(i)[1]);
        assert(lines[i + 1] == segs[0]);
        assert(!has_prefix(lines[i], "#EXT-X-PROGRAM-DATE-TIME:".spec_bytes()));
        assert(has_prefix(lines[i], "#EXTINF:".spec_bytes()));
        assert(lines.skip(i + 2) =~= lines.skip(i).skip(2));
        assert(spec_render_segment_lines(segs).skip(2) =~= spec_render_segment_lines(
            segs.skip(1),
        ));
        lemma_segments_round(lines, i + 2, segs.skip(1));
        assert(spec_segments(lines, i) =~= seq![segs[0]] + segs.skip(1));
        assert(seq![segs[0]] + segs.skip(1) =~= segs);
    }
}

/// The round trip: a playlist rendered and parsed again comes back whole —
/// version, target duration, media sequence, both time numerals and the
/// segments, complete and in order. It holds for every value with the
/// shape the parser itself produces: at least one segment, valid time
/// numerals, and locations free of line terminators.
pub proof fn lemma_playlist_round_trip(p: crate::types::PlaylistV)
    requires
        p.segments.len() > 0,
        is_float_numeral(p.twitch_elapsed_secs),
        is_float_numeral(p.twitch_total_secs),
        forall|i: int| 0 <= i < p.segments.len() ==> line_free(#[trigger] p.segments[i]),
    ensures
        spec_parse_playlist(spec_render_playlist(p)) == Ok::<crate::types::PlaylistV, ParseErrorV>(
            p,
        ),
{
    let lines = spec_render_lines(p);
    let segl = spec_render_segment_lines(p.segments);
    lemma_render_literal_facts();
    lemma_render_segment_lines_len(p.segments);
    crate::api::lemma_dec_of_value(p.version as nat);
    crate::api::lemma_dec_of_value(p.target_duration as nat);
    crate::api::lemma_dec_of_value(p.media_sequence as nat);
    lemma_float_line_free(p.twitch_elapsed_secs);
    lemma_float_line_free(p.twitch_total_secs);
    assert(lines.len() == 6 + 2 * p.segments.len());
    assert(forall|j: int| 0 <= j < segl.len() ==> #[trigger] lines[6 + j] == segl[j]);
    assert forall|k: int| 0 <= k < lines.len() implies line_free(#[trigger] lines[k]) by {
        if k >= 6 {
            let j = k - 6;
            lemma_render_segment_lines_at(p.segments, j / 2);
            if j % 2 == 0 {
                assert(lines[k] == segl[2 * (j / 2)]);
            } else {
                assert(lines[k] == segl[2 * (j / 2) + 1]);
                assert(lines[k] == p.segments[j / 2]);
            }
        } else if k == 1 {
            lemma_digits_line_free(crate::api::spec_dec_of(p.version as nat));
        } else if k == 2 {
            lemma_digits_line_free(crate::api::spec_dec_of(p.target_duration as nat));
        } else if k == 3 {
            lemma_digits_line_free(crate::api::spec_dec_of(p.media_sequence as nat));
        }
    }
    lemma_split_join(lines);
    assert(spec_lines(spec_render_playlist(p)) == lines);
    lemma_header_u32_round(lines, 1, "#EXT-X-VERSION:".spec_bytes(), p.version);
    lemma_header_u32_round(lines, 2, "#EXT-X-TARGETDURATION:".spec_bytes(), p.target_duration);
    lemma_header_u32_round(lines, 3, "#EXT-X-MEDIA-SEQUENCE:".spec_bytes(), p.media_sequence);
    lemma_header_float_round(
        lines,
        4,
        "#EXT-X-TWITCH-ELAPSED-SECS:".spec_bytes(),
        p.twitch_elapsed_secs,
    );
    lemma_header_float_round(
        lines,
        5,
        "#EXT-X-TWITCH-TOTAL-SECS:".spec_bytes(),
        p.twitch_total_secs,
    );
    assert(lines[6] == segl[0]);
    lemma_render_segment_lines_at(p.segments, 0);
    assert(lines[6] == "#EXTINF:2.000,".spec_bytes());
    assert(!has_prefix(lines[6], "#EXT-X-MAP:".spec_bytes()));
    assert(!has_prefix(lines[6], "#EXT-X-DATERANGE:".spec_bytes()));
    assert(lines.skip(6) =~= segl);
    lemma_segments_round(lines, 6, p.segments);
    assert(spec_playlist(lines) == Ok::<crate::types::PlaylistV, ParseErrorV>(p));
}

} // verus!
