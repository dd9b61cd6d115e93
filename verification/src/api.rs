//! The Twitch API boundary as the daemon models it: the layered error
//! hierarchy, the access-token and manifest addresses, the query-string
//! grammar, and the HTTP routing table. The shell performs the requests;
//! everything that can be decided from plain values is decided here.

use vstd::prelude::*;

use crate::index_cache::{IndexError, IndexErrorV};
use crate::m3u8::{ParseError, ParseErrorV};
use crate::text::{copy_bytes, lower_bytes, sub_bytes, to_lower};
use vstd::string::StringSliceAdditionalSpecFns;

verus! {

/// A transport-level failure: the network broke, or the upstream answered
/// with a status other than 200.
#[derive(Debug)]
pub enum HttpError {
    NetworkError(Vec<u8>),
    BadStatus(u16),
}

/// The mathematical form of an `HttpError`.
pub enum HttpErrorV {
    NetworkError(Seq<u8>),
    BadStatus(u16),
}

impl View for HttpError {
    type V = HttpErrorV;

    open spec fn view(&self) -> HttpErrorV {
        match self {
            HttpError::NetworkError(d) => HttpErrorV::NetworkError(d@),
            HttpError::BadStatus(s) => HttpErrorV::BadStatus(*s),
        }
    }
}

/// A failure of one Twitch API call: transport, manifest syntax, or the
/// access-token record.
#[derive(Debug)]
pub enum ApiError {
    Http(HttpError),
    M3U8(ParseError),
    AccessToken(Vec<u8>),
}

/// The mathematical form of an `ApiError`.
pub enum ApiErrorV {
    Http(HttpErrorV),
    M3U8(ParseErrorV),
    AccessToken(Seq<u8>),
}

impl View for ApiError {
    type V = ApiErrorV;

    open spec fn view(&self) -> ApiErrorV {
        match self {
            ApiError::Http(e) => ApiErrorV::Http(e@),
            ApiError::M3U8(e) => ApiErrorV::M3U8(e@),
            ApiError::AccessToken(d) => ApiErrorV::AccessToken(d@),
        }
    }
}

/// The decimal numeral of `n`.
pub open spec fn spec_dec_of(n: nat) -> Seq<u8>
    decreases n,
{
    if n < 10 {
        seq![(48 + n) as u8]
    } else {
        spec_dec_of(n / 10) + seq![(48 + n % 10) as u8]
    }
}

/// Renders a number in decimal.
pub fn dec_of(n: u64) -> (r: Vec<u8>)
    ensures
        r@ == spec_dec_of(n as nat),
    decreases n,
{
    if n < 10 {
        let mut out: Vec<u8> = Vec::new();
        out.push(48 + (n as u8));
        proof {
            assert(out@ =~= seq![(48 + n) as u8]);
        }
        out
    } else {
        let mut out = dec_of(n / 10);
        out.push(48 + ((n % 10) as u8));
        proof {
            assert(out@ =~= spec_dec_of((n / 10) as nat) + seq![(48 + n % 10) as u8]);
        }
        out
    }
}

/// A rendered numeral reads back as its number: digits only, nonempty,
/// and worth exactly `n`.
pub proof fn lemma_dec_of_value(n: nat)
    ensures
        spec_dec_of(n).len() > 0,
        crate::text::all_digits(spec_dec_of(n)),
        crate::text::dec_digits(spec_dec_of(n)) == spec_dec_of(n),
        crate::text::dec_value(spec_dec_of(n)) == n,
    decreases n,
{
    if n < 10 {
        assert(spec_dec_of(n) =~= seq![(48 + n) as u8]);
        assert(spec_dec_of(n).drop_last() =~= Seq::<u8>::empty());
        assert(crate::text::dec_value(Seq::<u8>::empty()) == 0);
        assert(crate::text::dec_value(spec_dec_of(n)) == 0 * 10 + ((48 + n) as u8 - 48) as nat);
    } else {
        lemma_dec_of_value(n / 10);
        assert(spec_dec_of(n).drop_last() =~= spec_dec_of(n / 10));
        assert(spec_dec_of(n).last() == (48 + n % 10) as u8);
        assert(crate::text::dec_value(spec_dec_of(n)) == crate::text::dec_value(spec_dec_of(n / 10))
            * 10 + (n % 10));
        assert(forall|i: int|
            0 <= i < spec_dec_of(n).len() ==> crate::text::is_digit(#[trigger] spec_dec_of(n)[i]))
            by {
            assert(forall|i: int|
                0 <= i < spec_dec_of(n / 10).len() ==> #[trigger] spec_dec_of(n)[i] == spec_dec_of(
                    n / 10,
                )[i]);
        }
    }
    assert(spec_dec_of(n)[0] != crate::text::PLUS);
}

/// The human-readable cause of a transport failure.
pub open spec fn spec_http_error_text(e: HttpErrorV) -> Seq<u8> {
    match e {
        HttpErrorV::NetworkError(d) => "network error: ".spec_bytes() + d,
        HttpErrorV::BadStatus(s) => "unexpected HTTP status: ".spec_bytes() + spec_dec_of(
            s as nat,
        ),
    }
}

/// The human-readable cause of a parse failure.
pub open spec fn spec_parse_error_text(e: ParseErrorV) -> Seq<u8> {
    match e {
        ParseErrorV::MissingTag(t) => "missing tag: ".spec_bytes() + t,
        ParseErrorV::MissingKey(k) => "missing key: ".spec_bytes() + k,
        ParseErrorV::BadValue(k, v) => "bad value for ".spec_bytes() + k + ": ".spec_bytes()
            + v,
        ParseErrorV::BadAttributes => "malformed attribute list".spec_bytes(),
    }
}

/// The human-readable cause of an API failure.
pub open spec fn spec_api_error_text(e: ApiErrorV) -> Seq<u8> {
    match e {
        ApiErrorV::Http(h) => "HTTP error: ".spec_bytes() + spec_http_error_text(h),
        ApiErrorV::M3U8(p) => "failed to parse M3U8: ".spec_bytes() + spec_parse_error_text(p),
        ApiErrorV::AccessToken(d) => "failed to decode access token: ".spec_bytes() + d,
    }
}

/// Appends a byte slice to a builder.
pub fn append_bytes(out: &mut Vec<u8>, s: &[u8])
    ensures
        final(out)@ == old(out)@ + s@,
{
    let mut i: usize = 0;
    while i < s.len()
        invariant
            i <= s@.len(),
            out@ == old(out)@ + s@.take(i as int),
        decreases s@.len() - i,
    {
        out.push(s[i]);
        i = i + 1;
        proof {
            assert(old(out)@ + s@.take(i as int) =~= (old(out)@ + s@.take(i - 1)).push(s@[i
                - 1]));
        }
    }
    proof {
        assert(s@.take(s@.len() as int) =~= s@);
        assert(old(out)@ + s@ == out@);
    }
}

impl HttpError {
    pub fn duplicate(&self) -> (r: HttpError)
        ensures
            r@ == self@,
    {
        match self {
            HttpError::NetworkError(d) => HttpError::NetworkError(copy_bytes(d.as_slice())),
            HttpError::BadStatus(s) => HttpError::BadStatus(*s),
        }
    }

    /// Renders the cause.
    pub fn describe(&self) -> (r: Vec<u8>)
        ensures
            r@ == spec_http_error_text(self@),
    {
        match self {
            HttpError::NetworkError(d) => {
                let mut out = copy_bytes("network error: ".as_bytes());
                append_bytes(&mut out, d.as_slice());
                out
            },
            HttpError::BadStatus(s) => {
                let mut out = copy_bytes("unexpected HTTP status: ".as_bytes());
                let num = dec_of(*s as u64);
                append_bytes(&mut out, num.as_slice());
                out
            },
        }
    }
}

impl ApiError {
    /// Renders the cause, layer by layer.
    pub fn describe(&self) -> (r: Vec<u8>)
        ensures
            r@ == spec_api_error_text(self@),
    {
        match self {
            ApiError::Http(h) => {
                let mut out = copy_bytes("HTTP error: ".as_bytes());
                let inner = h.describe();
                append_bytes(&mut out, inner.as_slice());
                out
            },
            ApiError::M3U8(p) => {
                let mut out = copy_bytes("failed to parse M3U8: ".as_bytes());
                let inner = describe_parse_error(p);
                append_bytes(&mut out, inner.as_slice());
                out
            },
            ApiError::AccessToken(d) => {
                let mut out = copy_bytes("failed to decode access token: ".as_bytes());
                append_bytes(&mut out, d.as_slice());
                out
            },
        }
    }

    /// Maps an API failure to the cache's error: a 404 from the token or
    /// manifest fetch means the channel does not exist; anything else is
    /// unexpected and keeps its cause.
    pub fn to_index_error(&self) -> (r: IndexError)
        ensures
            r@ == (if self@ == ApiErrorV::Http(HttpErrorV::BadStatus(404)) {
                IndexErrorV::NotFound
            } else {
                IndexErrorV::Unexpected(spec_api_error_text(self@))
            }),
    {
        match self {
            ApiError::Http(HttpError::BadStatus(s)) => {
                if *s == 404 {
                    IndexError::NotFound
                } else {
                    IndexError::Unexpected(self.describe())
                }
            },
            _ => IndexError::Unexpected(self.describe()),
        }
    }
}

/// Renders a parse failure's cause.
pub fn describe_parse_error(e: &ParseError) -> (r: Vec<u8>)
    ensures
        r@ == spec_parse_error_text(e@),
{
    match e {
        ParseError::MissingTag(t) => {
            let mut out = copy_bytes("missing tag: ".as_bytes());
            append_bytes(&mut out, t.as_slice());
            out
        },
        ParseError::MissingKey(k) => {
            let mut out = copy_bytes("missing key: ".as_bytes());
            append_bytes(&mut out, k.as_slice());
            out
        },
        ParseError::BadValue(k, v) => {
            let mut out = copy_bytes("bad value for ".as_bytes());
            append_bytes(&mut out, k.as_slice());
            append_bytes(&mut out, ": ".as_bytes());
            append_bytes(&mut out, v.as_slice());
            out
        },
        ParseError::BadAttributes => copy_bytes("malformed attribute list".as_bytes()),
    }
}

} // verus!

verus! {

/// Whether `b` is a hexadecimal digit.
pub open spec fn is_hex(b: u8) -> bool {
    (48 <= b && b <= 57) || (65 <= b && b <= 70) || (97 <= b && b <= 102)
}

/// The value of a hexadecimal digit.
pub open spec fn hex_val(b: u8) -> u8 {
    if 48 <= b && b <= 57 {
        (b - 48) as u8
    } else if 65 <= b && b <= 70 {
        (b - 55) as u8
    } else if 97 <= b && b <= 102 {
        (b - 87) as u8
    } else {
        0
    }
}

/// Percent-decoding as a query string uses it: `+` is a space, a `%`
/// followed by two hexadecimal digits is a byte, anything else stands for
/// itself.
pub open spec fn pct_decode(s: Seq<u8>) -> Seq<u8>
    decreases s.len(),
{
    if s.len() == 0 {
        Seq::empty()
    } else if s[0] == crate::text::PLUS {
        seq![32u8] + pct_decode(s.skip(1))
    } else if s[0] == crate::text::PERCENT && s.len() >= 3 && is_hex(s[1]) && is_hex(s[2]) {
        seq![(hex_val(s[1]) * 16 + hex_val(s[2])) as u8] + pct_decode(s.skip(3))
    } else {
        seq![s[0]] + pct_decode(s.skip(1))
    }
}

/// One `key=value` piece of a query string, both sides decoded; a piece
/// without `=` is a key with an empty value.
pub open spec fn pair_of_piece(p: Seq<u8>) -> (Seq<u8>, Seq<u8>) {
    match crate::text::first_index_from(p, 0, crate::text::EQUALS) {
        Some(eq) => (pct_decode(p.take(eq)), pct_decode(p.skip(eq + 1))),
        None => (pct_decode(p), Seq::empty()),
    }
}

/// The pairs of a query string: pieces split on `&`, empty pieces skipped.
pub open spec fn query_pairs(s: Seq<u8>) -> Seq<(Seq<u8>, Seq<u8>)>
    decreases s.len(),
{
    match crate::text::first_index_from(s, 0, crate::text::AMPERSAND) {
        None => if s.len() == 0 {
            Seq::empty()
        } else {
            seq![pair_of_piece(s)]
        },
        Some(a) => {
            if 0 <= a < s.len() {
                (if a > 0 {
                    seq![pair_of_piece(s.take(a))]
                } else {
                    Seq::empty()
                }) + query_pairs(s.skip(a + 1))
            } else {
                Seq::empty()
            }
        },
    }
}

/// Percent-decodes one piece.
fn pct_decode_exec(s: &[u8]) -> (r: Vec<u8>)
    ensures
        r@ == pct_decode(s@),
    decreases s@.len(),
{
    let mut out: Vec<u8> = Vec::new();
    let mut i: usize = 0;
    proof {
        assert(s@.skip(0) =~= s@);
        assert(out@ + pct_decode(s@) =~= pct_decode(s@));
    }
    while i < s.len()
        invariant
            i <= s@.len(),
            out@ + pct_decode(s@.skip(i as int)) == pct_decode(s@),
        decreases s@.len() - i,
    {
        let b = s[i];
        let ghost rest = s@.skip(i as int);
        if b == crate::text::PLUS {
            out.push(32);
            proof {
                assert(rest.skip(1) =~= s@.skip(i + 1));
                assert((out@.drop_last() + (seq![32u8] + pct_decode(s@.skip(i + 1)))) =~= (
                out@ + pct_decode(s@.skip(i + 1))));
            }
            i = i + 1;
        } else if b == crate::text::PERCENT && s.len() - i > 2 && hex_ok(s[i + 1]) && hex_ok(
            s[i + 2],
        ) {
            let v = hex_of(s[i + 1]) * 16 + hex_of(s[i + 2]);
            out.push(v);
            proof {
                assert(rest.len() >= 3);
                assert(rest[1] == s@[i + 1] && rest[2] == s@[i + 2]);
                assert(rest.skip(3) =~= s@.skip(i + 3));
                assert((out@.drop_last() + (seq![v] + pct_decode(s@.skip(i + 3)))) =~= (out@
                    + pct_decode(s@.skip(i + 3))));
            }
            i = i + 3;
        } else {
            out.push(b);
            proof {
                if b == crate::text::PERCENT {
                    assert(!(rest.len() >= 3 && is_hex(rest[1]) && is_hex(rest[2])));
                }
                assert(rest.skip(1) =~= s@.skip(i + 1));
                assert((out@.drop_last() + (seq![b] + pct_decode(s@.skip(i + 1)))) =~= (out@
                    + pct_decode(s@.skip(i + 1))));
            }
            i = i + 1;
        }
    }
    proof {
        assert(pct_decode(s@.skip(i as int)) =~= Seq::<u8>::empty());
        assert(out@ + Seq::<u8>::empty() =~= out@);
    }
    out
}

/// Hexadecimal digit test.
fn hex_ok(b: u8) -> (r: bool)
    ensures
        r == is_hex(b),
{
    (48 <= b && b <= 57) || (65 <= b && b <= 70) || (97 <= b && b <= 102)
}

/// Hexadecimal digit value.
fn hex_of(b: u8) -> (r: u8)
    ensures
        r == hex_val(b),
{
    if 48 <= b && b <= 57 {
        b - 48
    } else if 65 <= b && b <= 70 {
        b - 55
    } else if 97 <= b && b <= 102 {
        b - 87
    } else {
        0
    }
}

/// Splits one piece into its decoded pair.
fn piece_pair(p: &[u8]) -> (r: (Vec<u8>, Vec<u8>))
    ensures
        (r.0@, r.1@) == pair_of_piece(p@),
{
    match crate::text::find_byte(p, 0, crate::text::EQUALS) {
        Some(eq) => {
            let n = p.len();
            proof {
                assert(eq < n);
            }
            let k = pct_decode_exec(sub_bytes(p, 0, eq).as_slice());
            let v = pct_decode_exec(sub_bytes(p, eq + 1, n).as_slice());
            proof {
                assert(p@.subrange(0, eq as int) =~= p@.take(eq as int));
                assert(p@.subrange(eq + 1, p@.len() as int) =~= p@.skip(eq + 1));
            }
            (k, v)
        },
        None => {
            let k = pct_decode_exec(p);
            let v: Vec<u8> = Vec::new();
            proof {
                assert(v@ =~= Seq::<u8>::empty());
            }
            (k, v)
        },
    }
}

/// Parses a query string into its decoded key/value pairs, in order.
pub fn parse_query_params(query: &[u8]) -> (r: Vec<(Vec<u8>, Vec<u8>)>)
    ensures
        crate::m3u8::kv_view(r@) == query_pairs(query@),
    decreases query@.len(),
{
    match crate::text::find_byte(query, 0, crate::text::AMPERSAND) {
        None => {
            let mut out: Vec<(Vec<u8>, Vec<u8>)> = Vec::new();
            if query.len() == 0 {
                proof {
                    assert(crate::m3u8::kv_view(out@) =~= Seq::<(Seq<u8>, Seq<u8>)>::empty());
                }
                return out;
            }
            let (k, v) = piece_pair(query);
            out.push((k, v));
            proof {
                assert(crate::m3u8::kv_view(out@) =~= seq![pair_of_piece(query@)]);
            }
            out
        },
        Some(a) => {
            let n = query.len();
            proof {
                assert(a < n);
            }
            let rest = parse_query_params(sub_bytes(query, a + 1, n).as_slice());
            proof {
                assert(query@.subrange(a + 1, query@.len() as int) =~= query@.skip(a + 1));
            }
            if a == 0 {
                proof {
                    assert(Seq::<(Seq<u8>, Seq<u8>)>::empty() + query_pairs(query@.skip(a + 1))
                        =~= query_pairs(query@.skip(a + 1)));
                }
                return rest;
            }
            let piece = sub_bytes(query, 0, a);
            proof {
                assert(piece@ =~= query@.take(a as int));
            }
            let (k, v) = piece_pair(piece.as_slice());
            let mut out: Vec<(Vec<u8>, Vec<u8>)> = Vec::new();
            out.push((k, v));
            let mut rest = rest;
            let ghost rest0 = rest@;
            let ghost first = (out@[0].0@, out@[0].1@);
            while rest.len() > 0
                invariant
                    out@.len() >= 1,
                    rest0 == out@.skip(1) + rest@,
                    (out@[0].0@, out@[0].1@) == first,
                decreases rest@.len(),
            {
                let p = rest.remove(0);
                out.push(p);
                proof {
                    assert(out@.skip(1) + rest@ =~= out@.drop_last().skip(1) + (seq![
                        out@.last(),
                    ] + rest@));
                }
            }
            proof {
                assert(out@.skip(1) =~= rest0);
                assert(crate::m3u8::kv_view(out@) =~= seq![first] + crate::m3u8::kv_view(rest0));
            }
            out
        },
    }
}

} // verus!

verus! {

/// Whether a byte passes through form-encoding unchanged.
pub open spec fn is_unreserved(b: u8) -> bool {
    (48 <= b && b <= 57) || (65 <= b && b <= 90) || (97 <= b && b <= 122) || b == 42 || b == 45
        || b == 46 || b == 95
}

/// An uppercase hexadecimal digit.
pub open spec fn hex_upper(n: u8) -> u8 {
    if n < 10 {
        (48 + n) as u8
    } else {
        (55 + n) as u8
    }
}

/// One byte's form-encoding: unreserved bytes stand for themselves, a
/// space becomes `+`, everything else `%XX`.
pub open spec fn form_byte(b: u8) -> Seq<u8> {
    if is_unreserved(b) {
        seq![b]
    } else if b == 32 {
        seq![crate::text::PLUS]
    } else {
        seq![crate::text::PERCENT, hex_upper(b / 16), hex_upper(b % 16)]
    }
}

/// A byte string's form-encoding.
pub open spec fn form_encoded(s: Seq<u8>) -> Seq<u8>
    decreases s.len(),
{
    if s.len() == 0 {
        Seq::empty()
    } else {
        form_byte(s[0]) + form_encoded(s.skip(1))
    }
}

/// A query string extended by one encoded pair, `&`-separated from what
/// stands before it.
pub open spec fn spec_append_pair(q: Seq<u8>, k: Seq<u8>, v: Seq<u8>) -> Seq<u8> {
    q + (if q.len() > 0 {
        seq![crate::text::AMPERSAND]
    } else {
        Seq::<u8>::empty()
    }) + form_encoded(k) + seq![crate::text::EQUALS] + form_encoded(v)
}

/// Form-encodes `s` onto the end of a builder.
fn form_encode_into(out: &mut Vec<u8>, s: &[u8])
    ensures
        final(out)@ == old(out)@ + form_encoded(s@),
{
    let mut i: usize = 0;
    proof {
        assert(s@.skip(0) =~= s@);
    }
    while i < s.len()
        invariant
            i <= s@.len(),
            old(out)@ + form_encoded(s@) == out@ + form_encoded(s@.skip(i as int)),
        decreases s@.len() - i,
    {
        let b = s[i];
        let ghost rest = s@.skip(i as int);
        proof {
            assert(rest[0] == s@[i as int]);
            assert(rest.skip(1) =~= s@.skip(i + 1));
        }
        if (48 <= b && b <= 57) || (65 <= b && b <= 90) || (97 <= b && b <= 122) || b == 42 || b
            == 45 || b == 46 || b == 95 {
            out.push(b);
            proof {
                assert(out@ + form_encoded(s@.skip(i + 1)) =~= out@.drop_last() + (seq![b]
                    + form_encoded(s@.skip(i + 1))));
            }
        } else if b == 32 {
            out.push(crate::text::PLUS);
            proof {
                assert(out@ + form_encoded(s@.skip(i + 1)) =~= out@.drop_last() + (seq![
                    crate::text::PLUS,
                ] + form_encoded(s@.skip(i + 1))));
            }
        } else {
            out.push(crate::text::PERCENT);
            let hi = b / 16;
            let lo = b % 16;
            out.push(if hi < 10 {
                48 + hi
            } else {
                55 + hi
            });
            out.push(if lo < 10 {
                48 + lo
            } else {
                55 + lo
            });
            proof {
                assert(out@ + form_encoded(s@.skip(i + 1)) =~= out@.subrange(
                    0,
                    out@.len() - 3,
                ) + (seq![crate::text::PERCENT, hex_upper(b / 16), hex_upper(b % 16)]
                    + form_encoded(s@.skip(i + 1))));
            }
        }
        i = i + 1;
    }
    proof {
        assert(form_encoded(s@.skip(i as int)) =~= Seq::<u8>::empty());
        assert(out@ + Seq::<u8>::empty() =~= out@);
    }
}

/// Appends one `key=value` pair to a query string under construction.
pub fn append_pair(out: &mut Vec<u8>, k: &[u8], v: &[u8])
    ensures
        final(out)@ == spec_append_pair(old(out)@, k@, v@),
{
    if out.len() > 0 {
        out.push(crate::text::AMPERSAND);
    }
    form_encode_into(out, k);
    out.push(crate::text::EQUALS);
    form_encode_into(out, v);
    proof {
        assert(final(out)@ =~= spec_append_pair(old(out)@, k@, v@));
    }
}

/// The access-token address for a channel: the channel lower-cased in the
/// path, the player identification in the query, and the viewer's OAuth
/// token when one was given.
pub open spec fn spec_access_token_url(channel: Seq<u8>, oauth: Option<Seq<u8>>) -> Seq<u8> {
    let q0 = spec_append_pair(Seq::empty(), "platform".spec_bytes(), "_".spec_bytes());
    let q1 = spec_append_pair(q0, "player_backend".spec_bytes(), "mediaplayer".spec_bytes());
    let q2 = spec_append_pair(q1, "player_type".spec_bytes(), "site".spec_bytes());
    let q = match oauth {
        Some(token) => spec_append_pair(q2, "oauth_token".spec_bytes(), token),
        None => q2,
    };
    "https://api.twitch.tv/api/channels/".spec_bytes() + lower_bytes(channel)
        + "/access_token?".spec_bytes() + q
}

/// Builds the access-token address.
pub fn access_token_url(channel: &[u8], oauth: Option<&Vec<u8>>) -> (r: Vec<u8>)
    ensures
        r@ == spec_access_token_url(
            channel@,
            match oauth {
                Some(t) => Some(t@),
                None => None,
            },
        ),
{
    let mut q: Vec<u8> = Vec::new();
    proof {
        assert(q@ =~= Seq::<u8>::empty());
    }
    append_pair(&mut q, "platform".as_bytes(), "_".as_bytes());
    append_pair(&mut q, "player_backend".as_bytes(), "mediaplayer".as_bytes());
    append_pair(&mut q, "player_type".as_bytes(), "site".as_bytes());
    match oauth {
        Some(token) => append_pair(&mut q, "oauth_token".as_bytes(), token.as_slice()),
        None => {},
    }
    let mut out = copy_bytes("https://api.twitch.tv/api/channels/".as_bytes());
    let lowered = to_lower(channel);
    append_bytes(&mut out, lowered.as_slice());
    append_bytes(&mut out, "/access_token?".as_bytes());
    append_bytes(&mut out, q.as_slice());
    proof {
        assert(out@ =~= spec_access_token_url(
            channel@,
            match oauth {
                Some(t) => Some(t@),
                None => None,
            },
        ));
    }
    out
}

/// The manifest address for a channel: the channel lower-cased in the
/// path and the unlock token, signature and player parameters in the
/// query.
pub open spec fn spec_stream_index_url(channel: Seq<u8>, token: Seq<u8>, sig: Seq<u8>) -> Seq<
    u8,
> {
    let q0 = spec_append_pair(Seq::empty(), "token".spec_bytes(), token);
    let q1 = spec_append_pair(q0, "sig".spec_bytes(), sig);
    let q2 = spec_append_pair(q1, "allow_source".spec_bytes(), "true".spec_bytes());
    let q3 = spec_append_pair(q2, "fast_bread".spec_bytes(), "true".spec_bytes());
    let q4 = spec_append_pair(q3, "baking_bread".spec_bytes(), "true".spec_bytes());
    let q5 = spec_append_pair(q4, "baking_brownies".spec_bytes(), "true".spec_bytes());
    let q6 = spec_append_pair(q5, "baking_brownies_timeout".spec_bytes(), "1050".spec_bytes());
    let q7 = spec_append_pair(q6, "playlist_include_framerate".spec_bytes(), "true".spec_bytes());
    let q8 = spec_append_pair(q7, "cdm".spec_bytes(), "wv".spec_bytes());
    let q9 = spec_append_pair(q8, "player_backend".spec_bytes(), "mediaplayer".spec_bytes());
    let q10 = spec_append_pair(q9, "rtqos".spec_bytes(), "control".spec_bytes());
    let q11 = spec_append_pair(q10, "preferred_codecs".spec_bytes(), "avc1".spec_bytes());
    "http://usher.twitch.tv/api/channel/hls/".spec_bytes() + lower_bytes(channel)
        + ".m3u8?".spec_bytes() + q11
}

/// Builds the manifest address.
pub fn stream_index_url(channel: &[u8], token: &crate::types::AccessToken) -> (r: Vec<u8>)
    ensures
        r@ == spec_stream_index_url(channel@, token.token@, token.signature@),
{
    let mut q: Vec<u8> = Vec::new();
    proof {
        assert(q@ =~= Seq::<u8>::empty());
    }
    append_pair(&mut q, "token".as_bytes(), token.token.as_slice());
    append_pair(&mut q, "sig".as_bytes(), token.signature.as_slice());
    append_pair(&mut q, "allow_source".as_bytes(), "true".as_bytes());
    append_pair(&mut q, "fast_bread".as_bytes(), "true".as_bytes());
    append_pair(&mut q, "baking_bread".as_bytes(), "true".as_bytes());
    append_pair(&mut q, "baking_brownies".as_bytes(), "true".as_bytes());
    append_pair(&mut q, "baking_brownies_timeout".as_bytes(), "1050".as_bytes());
    append_pair(&mut q, "playlist_include_framerate".as_bytes(), "true".as_bytes());
    append_pair(&mut q, "cdm".as_bytes(), "wv".as_bytes());
    append_pair(&mut q, "player_backend".as_bytes(), "mediaplayer".as_bytes());
    append_pair(&mut q, "rtqos".as_bytes(), "control".as_bytes());
    append_pair(&mut q, "preferred_codecs".as_bytes(), "avc1".as_bytes());
    let mut out = copy_bytes("http://usher.twitch.tv/api/channel/hls/".as_bytes());
    let lowered = to_lower(channel);
    append_bytes(&mut out, lowered.as_slice());
    append_bytes(&mut out, ".m3u8?".as_bytes());
    append_bytes(&mut out, q.as_slice());
    proof {
        assert(out@ =~= spec_stream_index_url(channel@, token.token@, token.signature@));
    }
    out
}

} // verus!

verus! {

/// The daemon's version, as `/version` reports it.
pub fn version_text() -> (r: Vec<u8>)
    ensures
        r@ == "1.5.0".spec_bytes(),
{
    copy_bytes("1.5.0".as_bytes())
}

/// The daemon's routes.
#[derive(Clone, Copy, PartialEq, Eq, Structural, Debug)]
pub enum Route {
    StreamIndex,
    Play,
    Meta,
    Version,
    Quit,
    NotFound,
}

/// The routing table: the daemon's five endpoints; anything else is not
/// found.
pub open spec fn spec_route(method: Seq<u8>, path: Seq<u8>) -> Route {
    if method == "GET".spec_bytes() && path == "/stream_index".spec_bytes() {
        Route::StreamIndex
    } else if method == "GET".spec_bytes() && path == "/play".spec_bytes() {
        Route::Play
    } else if method == "GET".spec_bytes() && path == "/meta".spec_bytes() {
        Route::Meta
    } else if method == "GET".spec_bytes() && path == "/version".spec_bytes() {
        Route::Version
    } else if method == "POST".spec_bytes() && path == "/quit".spec_bytes() {
        Route::Quit
    } else {
        Route::NotFound
    }
}

/// Dispatches one request line.
pub fn route(method: &[u8], path: &[u8]) -> (r: Route)
    ensures
        r == spec_route(method@, path@),
{
    let is_get = crate::text::bytes_eq(method, "GET".as_bytes());
    let is_post = crate::text::bytes_eq(method, "POST".as_bytes());
    if is_get && crate::text::bytes_eq(path, "/stream_index".as_bytes()) {
        Route::StreamIndex
    } else if is_get && crate::text::bytes_eq(path, "/play".as_bytes()) {
        Route::Play
    } else if is_get && crate::text::bytes_eq(path, "/meta".as_bytes()) {
        Route::Meta
    } else if is_get && crate::text::bytes_eq(path, "/version".as_bytes()) {
        Route::Version
    } else if is_post && crate::text::bytes_eq(path, "/quit".as_bytes()) {
        Route::Quit
    } else {
        Route::NotFound
    }
}

/// A request's failure as the API surface reports it.
#[derive(Debug)]
pub enum ServiceError {
    /// The channel, player or metadata record does not exist.
    NotFound,
    /// The index resolution failed.
    Index(IndexError),
    /// A required query parameter is missing; carries its name.
    BadRequest(Vec<u8>),
}

/// The mathematical form of a `ServiceError`.
pub enum ServiceErrorV {
    NotFound,
    Index(IndexErrorV),
    BadRequest(Seq<u8>),
}

impl View for ServiceError {
    type V = ServiceErrorV;

    open spec fn view(&self) -> ServiceErrorV {
        match self {
            ServiceError::NotFound => ServiceErrorV::NotFound,
            ServiceError::Index(e) => ServiceErrorV::Index(e@),
            ServiceError::BadRequest(k) => ServiceErrorV::BadRequest(k@),
        }
    }
}

/// The HTTP status each failure maps to: missing things are 404, a bad
/// request is 400, an unexpected upstream failure is 500.
pub open spec fn spec_status_of(e: ServiceErrorV) -> u16 {
    match e {
        ServiceErrorV::NotFound => 404,
        ServiceErrorV::Index(IndexErrorV::NotFound) => 404,
        ServiceErrorV::Index(IndexErrorV::Unexpected(_)) => 500,
        ServiceErrorV::BadRequest(_) => 400,
    }
}

/// Maps a failure to its response status.
pub fn status_of(e: &ServiceError) -> (r: u16)
    ensures
        r == spec_status_of(e@),
{
    match e {
        ServiceError::NotFound => 404,
        ServiceError::Index(IndexError::NotFound) => 404,
        ServiceError::Index(IndexError::Unexpected(_)) => 500,
        ServiceError::BadRequest(_) => 400,
    }
}

/// One request's decoded query parameters.
pub struct ApiParams {
    pub params: Vec<(Vec<u8>, Vec<u8>)>,
}

impl ApiParams {
    /// The parameters as key/value views.
    pub open spec fn params_view(&self) -> Seq<(Seq<u8>, Seq<u8>)> {
        crate::m3u8::kv_view(self.params@)
    }

    /// Decodes a request's query string.
    pub fn from_query(query: &[u8]) -> (r: ApiParams)
        ensures
            r.params_view() == query_pairs(query@),
    {
        ApiParams { params: parse_query_params(query) }
    }

    /// An optional parameter; a repeated key keeps its last value.
    pub fn get_opt(&self, key: &[u8]) -> (r: Option<Vec<u8>>)
        ensures
            match r {
                Some(v) => crate::m3u8::spec_lookup(self.params_view(), key@) == Some(v@),
                None => crate::m3u8::spec_lookup(self.params_view(), key@) is None,
            },
    {
        crate::m3u8::lookup(&self.params, key)
    }

    /// A required parameter: absence is a bad request naming the key.
    pub fn get(&self, key: &[u8]) -> (r: Result<Vec<u8>, ServiceError>)
        ensures
            match r {
                Ok(v) => crate::m3u8::spec_lookup(self.params_view(), key@) == Some(v@),
                Err(e) => crate::m3u8::spec_lookup(self.params_view(), key@) is None && e@
                    == ServiceErrorV::BadRequest(key@),
            },
    {
        match crate::m3u8::lookup(&self.params, key) {
            Some(v) => Ok(v),
            None => Err(ServiceError::BadRequest(copy_bytes(key))),
        }
    }

    /// The request's channel, lower-cased; required.
    pub fn get_channel(&self) -> (r: Result<crate::types::Channel, ServiceError>)
        ensures
            match r {
                Ok(c) => match crate::m3u8::spec_lookup(self.params_view(), "channel".spec_bytes()) {
                    Some(v) => c@ == lower_bytes(v),
                    None => false,
                },
                Err(e) => crate::m3u8::spec_lookup(self.params_view(), "channel".spec_bytes())
                    is None && e@ == ServiceErrorV::BadRequest("channel".spec_bytes()),
            },
    {
        match self.get("channel".as_bytes()) {
            Ok(v) => Ok(crate::types::Channel::new(v.as_slice())),
            Err(e) => Err(e),
        }
    }

    /// The request's stream key: its channel, and its quality, read from
    /// the `quality` parameter or defaulting to the best variant.
    pub fn get_stream(&self) -> (r: Result<crate::types::StreamKey, ServiceError>)
        ensures
            match r {
                Ok(k) => match crate::m3u8::spec_lookup(self.params_view(), "channel".spec_bytes()) {
                    Some(v) => k@.0 == lower_bytes(v) && k@.1 == (match crate::m3u8::spec_lookup(
                        self.params_view(),
                        "quality".spec_bytes(),
                    ) {
                        Some(q) => crate::types::quality_of_label(q),
                        None => crate::types::QualityV::Approx(crate::types::ApproxQuality::Best),
                    }),
                    None => false,
                },
                Err(e) => crate::m3u8::spec_lookup(self.params_view(), "channel".spec_bytes())
                    is None && e@ == ServiceErrorV::BadRequest("channel".spec_bytes()),
            },
    {
        let channel = match self.get_channel() {
            Ok(c) => c,
            Err(e) => {
                return Err(e);
            },
        };
        let quality = match self.get_opt("quality".as_bytes()) {
            Some(q) => crate::types::Quality::from_label(q.as_slice()),
            None => crate::types::Quality::Approx(crate::types::ApproxQuality::Best),
        };
        Ok(crate::types::StreamKey { channel, quality })
    }
}

/// Everything the daemon's request handlers share: the index cache, the
/// player pool, and the one-shot shutdown signal.
pub struct State {
    pub index_cache: crate::index_cache::IndexCache,
    pub player_pool: crate::player_pool::PlayerPool,
    pub shutdown: bool,
}

impl State {
    /// A fresh daemon state: empty registries, shutdown not yet signalled.
    pub fn new(opts: crate::options::Options) -> (r: State)
        ensures
            r.index_cache.entries_view() =~= Seq::<
                (Seq<u8>, crate::index_cache::CacheEntryV),
            >::empty(),
            r.player_pool.keys() =~= Seq::<(Seq<u8>, crate::types::QualityV)>::empty(),
            !r.shutdown,
            r.index_cache.index_cache_timeout_ms == opts.index_cache_timeout_ms,
    {
        let timeout = opts.index_cache_timeout_ms;
        State {
            index_cache: crate::index_cache::IndexCache::new(timeout),
            player_pool: crate::player_pool::PlayerPool::new(opts),
            shutdown: false,
        }
    }

    /// Takes the shutdown signal: the first call wins it, every later call
    /// is a no-op.
    pub fn post_quit(&mut self) -> (signal: bool)
        ensures
            signal == !old(self).shutdown,
            final(self).shutdown,
            final(self).index_cache == old(self).index_cache,
            final(self).player_pool == old(self).player_pool,
    {
        let was = self.shutdown;
        self.shutdown = true;
        !was
    }
}

/// The daemon's request handler: it owns the shared state and decides,
/// per route, what the registries are asked and what is answered.
pub struct TwitchdApi {
    pub state: State,
}

impl TwitchdApi {
    pub fn new(state: State) -> (r: TwitchdApi)
        ensures
            r.state == state,
    {
        TwitchdApi { state }
    }
}

} // verus!
