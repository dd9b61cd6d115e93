//! Byte-level text helpers shared by the parsers: searching, case folding,
//! prefix handling and decimal parsing, all specified over `Seq<u8>`.

use vstd::prelude::*;

verus! {

/// Byte values the parsers compare against, named because Verus does not
/// accept byte literals.
pub const NEWLINE: u8 = 10;
pub const QUOTE: u8 = 34;
pub const PERCENT: u8 = 37;
pub const AMPERSAND: u8 = 38;
pub const PLUS: u8 = 43;
pub const COMMA: u8 = 44;
pub const MINUS: u8 = 45;
pub const DOT: u8 = 46;
pub const SLASH: u8 = 47;
pub const DIGIT_0: u8 = 48;
pub const DIGIT_9: u8 = 57;
pub const COLON: u8 = 58;
pub const EQUALS: u8 = 61;
pub const UPPER_A: u8 = 65;
pub const UPPER_E: u8 = 69;
pub const UPPER_Z: u8 = 90;
pub const LOWER_E: u8 = 101;
pub const LOWER_X: u8 = 120;
pub const BRACE_OPEN: u8 = 123;
pub const BRACE_CLOSE: u8 = 125;
pub const PAD_BYTE: u8 = 255;

/// ASCII lower-casing of a single byte.
pub open spec fn lower_byte(b: u8) -> u8 {
    if UPPER_A <= b && b <= UPPER_Z {
        (b + 32) as u8
    } else {
        b
    }
}

/// ASCII lower-casing of a byte sequence.
pub open spec fn lower_bytes(s: Seq<u8>) -> Seq<u8> {
    s.map_values(|b: u8| lower_byte(b))
}

/// Lower-cases a byte vector, ASCII-wise.
pub fn to_lower(s: &[u8]) -> (r: Vec<u8>)
    ensures
        r@ == lower_bytes(s@),
{
    let mut out: Vec<u8> = Vec::new();
    let mut i: usize = 0;
    while i < s.len()
        invariant
            i <= s@.len(),
            out@ == lower_bytes(s@.take(i as int)),
        decreases s@.len() - i,
    {
        let b = s[i];
        if UPPER_A <= b && b <= UPPER_Z {
            out.push(b + 32);
        } else {
            out.push(b);
        }
        i = i + 1;
        proof {
            assert(s@.take(i as int).map_values(|b: u8| lower_byte(b))
                =~= s@.take(i - 1).map_values(|b: u8| lower_byte(b)).push(lower_byte(s@[i - 1])));
        }
    }
    proof {
        assert(s@.take(s@.len() as int) =~= s@);
    }
    out
}

/// The first index at or after `from` where `needle` occurs in `s`, if any.
pub open spec fn first_index_from(s: Seq<u8>, from: int, needle: u8) -> Option<int>
    decreases s.len() - from,
{
    if from < 0 || from >= s.len() {
        None
    } else if s[from] == needle {
        Some(from)
    } else {
        first_index_from(s, from + 1, needle)
    }
}

/// Searches `s` for the first occurrence of `needle` at or after `from`.
pub fn find_byte(s: &[u8], from: usize, needle: u8) -> (r: Option<usize>)
    requires
        from <= s@.len(),
    ensures
        match r {
            Some(i) => from <= i < s@.len() && Some(i as int) == first_index_from(
                s@,
                from as int,
                needle,
            ),
            None => first_index_from(s@, from as int, needle) is None,
        },
{
    let mut i: usize = from;
    while i < s.len()
        invariant
            from <= i <= s@.len(),
            first_index_from(s@, from as int, needle) == first_index_from(s@, i as int, needle),
        decreases s@.len() - i,
    {
        if s[i] == needle {
            return Some(i);
        }
        i = i + 1;
    }
    None
}

/// Whether `s` starts with `prefix`.
pub open spec fn has_prefix(s: Seq<u8>, prefix: Seq<u8>) -> bool {
    prefix.len() <= s.len() && s.take(prefix.len() as int) == prefix
}

/// Prefix test on byte slices.
pub fn starts_with(s: &[u8], prefix: &[u8]) -> (r: bool)
    ensures
        r == has_prefix(s@, prefix@),
{
    if prefix.len() > s.len() {
        proof {
            assert(!has_prefix(s@, prefix@));
        }
        return false;
    }
    let mut i: usize = 0;
    while i < prefix.len()
        invariant
            i <= prefix@.len() <= s@.len(),
            forall|j: int| 0 <= j < i ==> s@[j] == prefix@[j],
        decreases prefix@.len() - i,
    {
        if s[i] != prefix[i] {
            proof {
                assert(s@.take(prefix@.len() as int)[i as int] != prefix@[i as int]);
            }
            return false;
        }
        i = i + 1;
    }
    proof {
        assert(s@.take(prefix@.len() as int) =~= prefix@);
    }
    true
}

/// Whole-slice equality on bytes.
pub fn bytes_eq(a: &[u8], b: &[u8]) -> (r: bool)
    ensures
        r == (a@ == b@),
{
    if a.len() != b.len() {
        proof {
            assert(a@.len() != b@.len());
        }
        return false;
    }
    let mut i: usize = 0;
    while i < a.len()
        invariant
            i <= a@.len(),
            a@.len() == b@.len(),
            forall|j: int| 0 <= j < i ==> a@[j] == b@[j],
        decreases a@.len() - i,
    {
        if a[i] != b[i] {
            return false;
        }
        i = i + 1;
    }
    proof {
        assert(a@ =~= b@);
    }
    true
}

/// Copies the byte range `[from, to)` of `s` into a fresh vector.
pub fn sub_bytes(s: &[u8], from: usize, to: usize) -> (r: Vec<u8>)
    requires
        from <= to <= s@.len(),
    ensures
        r@ == s@.subrange(from as int, to as int),
{
    let mut out: Vec<u8> = Vec::new();
    let mut i: usize = from;
    while i < to
        invariant
            from <= i <= to <= s@.len(),
            out@ == s@.subrange(from as int, i as int),
        decreases to - i,
    {
        out.push(s[i]);
        i = i + 1;
        proof {
            assert(s@.subrange(from as int, i as int) =~= s@.subrange(from as int, i - 1).push(
                s@[i - 1],
            ));
        }
    }
    out
}


/// Copies a byte slice into a fresh vector.
pub fn copy_bytes(s: &[u8]) -> (r: Vec<u8>)
    ensures
        r@ == s@,
{
    let r = sub_bytes(s, 0, s.len());
    proof {
        assert(s@.subrange(0, s@.len() as int) =~= s@);
    }
    r
}

/// Whether `b` is an ASCII decimal digit.
pub open spec fn is_digit(b: u8) -> bool {
    DIGIT_0 <= b && b <= DIGIT_9
}

/// Whether `s` is one or more decimal digits.
pub open spec fn all_digits(s: Seq<u8>) -> bool {
    forall|i: int| 0 <= i < s.len() ==> is_digit(#[trigger] s[i])
}

/// The value of a digit string, most significant digit first.
pub open spec fn dec_value(s: Seq<u8>) -> nat
    decreases s.len(),
{
    if s.len() == 0 {
        0
    } else {
        dec_value(s.drop_last()) * 10 + (s.last() - DIGIT_0) as nat
    }
}

/// The digit sequence a decimal parse consumes: an optional leading `+`
/// stripped, per the standard library's unsigned integer grammar.
pub open spec fn dec_digits(s: Seq<u8>) -> Seq<u8> {
    if s.len() > 0 && s[0] == PLUS {
        s.skip(1)
    } else {
        s
    }
}

/// Whether `s` is a well-formed unsigned decimal numeral (optional `+`,
/// then one or more digits).
pub open spec fn is_dec_numeral(s: Seq<u8>) -> bool {
    dec_digits(s).len() > 0 && all_digits(dec_digits(s))
}


/// A plain digit run is its own numeral: no sign to strip.
pub proof fn lemma_dec_digits_plain(s: Seq<u8>)
    requires
        s.len() > 0,
        all_digits(s),
    ensures
        dec_digits(s) == s,
        is_dec_numeral(s),
{
    assert(is_digit(s[0]));
}

/// Parses `s` as a `u64`, accepting exactly the numerals whose value fits.
pub fn parse_u64(s: &[u8]) -> (r: Option<u64>)
    ensures
        match r {
            Some(v) => is_dec_numeral(s@) && v == dec_value(dec_digits(s@)) && dec_value(
                dec_digits(s@),
            ) <= u64::MAX,
            None => !is_dec_numeral(s@) || dec_value(dec_digits(s@)) > u64::MAX,
        },
{
    let start: usize = if s.len() > 0 && s[0] == PLUS {
        1
    } else {
        0
    };
    if s.len() == start {
        return None;
    }
    let ghost digits = dec_digits(s@);
    let mut acc: u64 = 0;
    let mut i: usize = start;
    while i < s.len()
        invariant
            start <= i <= s@.len(),
            start == (if s@.len() > 0 && s@[0] == PLUS {
                1int
            } else {
                0int
            }),
            digits == dec_digits(s@),
            digits == s@.skip(start as int),
            all_digits(digits.take(i - start)),
            acc == dec_value(digits.take(i - start)),
        decreases s@.len() - i,
    {
        let b = s[i];
        if b < DIGIT_0 || b > DIGIT_9 {
            proof {
                assert(digits[i - start] == s@[i as int]);
                assert(!is_digit(digits[i - start]));
            }
            return None;
        }
        let d = (b - DIGIT_0) as u64;
        if acc > (u64::MAX - d) / 10 {
            proof {
                assert(digits[i - start] == s@[i as int]);
                assert(digits.take(i - start + 1).drop_last() =~= digits.take(i - start));
                assert(digits.take(i - start + 1).last() == digits[i - start]);
                assert(10 * ((u64::MAX - d) / 10) + 9 >= u64::MAX - d) by (nonlinear_arith)
                    requires
                        d <= 9,
                ;
                assert(dec_value(digits.take(i - start + 1)) > u64::MAX);
                lemma_dec_value_mono(digits, i - start + 1);
            }
            return None;
        }
        acc = acc * 10 + d;
        i = i + 1;
        proof {
            assert(digits.take(i - start).drop_last() =~= digits.take(i - start - 1));
            assert(digits.take(i - start).last() == digits[i - start - 1]);
            assert(digits[i - start - 1] == s@[i - 1]);
        }
    }
    proof {
        assert(digits.take(s@.len() - start) =~= digits);
    }
    Some(acc)
}

/// The value of a digit-string prefix never exceeds the whole string's value.
proof fn lemma_dec_value_mono(s: Seq<u8>, k: int)
    requires
        0 <= k <= s.len(),
    ensures
        dec_value(s.take(k)) <= dec_value(s),
    decreases s.len(),
{
    if k < s.len() {
        assert(s.drop_last().take(k) =~= s.take(k));
        lemma_dec_value_mono(s.drop_last(), k);
        assert(dec_value(s.drop_last()) * 10 >= dec_value(s.drop_last()) * 1);
    } else {
        assert(s.take(k) =~= s);
    }
}

/// Parses `s` as a `u32`.
pub fn parse_u32(s: &[u8]) -> (r: Option<u32>)
    ensures
        match r {
            Some(v) => is_dec_numeral(s@) && v == dec_value(dec_digits(s@)) && dec_value(
                dec_digits(s@),
            ) <= u32::MAX,
            None => !is_dec_numeral(s@) || dec_value(dec_digits(s@)) > u32::MAX,
        },
{
    match parse_u64(s) {
        Some(v) => {
            if v <= u32::MAX as u64 {
                Some(v as u32)
            } else {
                None
            }
        },
        None => None,
    }
}

} // verus!
