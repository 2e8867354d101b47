//! The flexible timestamp grammar: eleven candidate formats tried in a
//! fixed priority order, from the most specific (RFC-3339-style with
//! seconds and an explicit offset) down to a bare compact date.
//!
//! Each format is a fixed shape over the characters of the input; a format
//! matches when the shape fits the whole string and the field values form a
//! real calendar date and time.  The first matching format wins.
//!
//! The shapes are deliberately strict, following the formats' canonical
//! spellings: every numeric field is zero-padded to its full width, years
//! carry no sign, no whitespace may stand inside a field, and an offset is
//! written `±HH:MM` or `±HHMM` exactly.  A string that spells a format
//! loosely is not a match.

use vstd::prelude::*;

use crate::calendar::spec_valid_md;

verus! {

/// The civil fields a candidate format extracts from its input.
#[derive(Clone, Copy, Debug, PartialEq, Eq, Structural)]
pub struct CivilParts {
    pub year: u32,
    pub month: u32,
    pub day: u32,
    pub hour: u32,
    pub minute: u32,
    pub second: u32,
}

/// What a successful candidate match means: either an instant pinned to an
/// explicit UTC offset, or a naive time still to be interpreted in the
/// local timezone.
#[derive(Clone, Copy, Debug, PartialEq, Eq, Structural)]
pub enum ParsedStamp {
    /// The fields together with the offset, in seconds east of UTC, that
    /// the input spelled out (zero for a literal `Z`).
    Offset { parts: CivilParts, offset_secs: i32 },
    /// The fields of a timezone-less reading.
    Naive { parts: CivilParts },
}

/// The civil fields of either variant.
pub open spec fn stamp_parts(ps: ParsedStamp) -> CivilParts {
    match ps {
        ParsedStamp::Offset { parts, .. } => parts,
        ParsedStamp::Naive { parts } => parts,
    }
}

/// Well-formedness of extracted fields: a real date, an hour below 24, a
/// minute and second below 60, and an offset below one day in magnitude.
pub open spec fn stamp_wf(ps: ParsedStamp) -> bool {
    let p = stamp_parts(ps);
    &&& spec_valid_md(p.year as int, p.month as int, p.day as int)
    &&& p.hour < 24
    &&& p.minute < 60
    &&& p.second < 60
    &&& p.year <= 9999
    &&& (ps matches ParsedStamp::Offset { offset_secs, .. } ==> -86400 < offset_secs < 86400)
}

/// Whether `c` is a decimal digit.
pub open spec fn is_dig(c: char) -> bool {
    '0' <= c && c <= '9'
}

/// The value of the decimal digit `c`.
pub open spec fn dv(c: char) -> int {
    (c as int) - ('0' as int)
}

/// Whether the `k` characters of `s` starting at `i` are all digits.
pub open spec fn digs(s: Seq<char>, i: int, k: int) -> bool {
    forall|j: int| i <= j < i + k ==> is_dig(#[trigger] s[j])
}

/// The value of the `k`-digit decimal number at position `i` of `s`.
pub open spec fn num_at(s: Seq<char>, i: int, k: int) -> int
    decreases k,
{
    if k <= 0 {
        0
    } else {
        num_at(s, i, k - 1) * 10 + dv(s[i + k - 1])
    }
}

/// A second field clamped to 59: the grammar tolerates a leap second 60,
/// which minute-resolution output cannot distinguish from 59.
pub open spec fn clamp59(x: int) -> int {
    if x > 59 {
        59
    } else {
        x
    }
}

/// Whether `c` introduces a signed offset: `+`, `-`, or the typographic
/// minus sign.
pub open spec fn sign_char(c: char) -> bool {
    c == '+' || c == '-' || c == '\u{2212}'
}

/// `+1` for `+`, `-1` for either minus form.
pub open spec fn sign_of(c: char) -> int {
    if c == '+' {
        1
    } else {
        -1
    }
}

/// A hyphenated date `YYYY-MM-DD` fills the first ten characters of `s`.
pub open spec fn date_hyphen_shape(s: Seq<char>) -> bool {
    &&& s.len() >= 10
    &&& digs(s, 0, 4)
    &&& s[4] == '-'
    &&& digs(s, 5, 2)
    &&& s[7] == '-'
    &&& digs(s, 8, 2)
}

/// A compact date `YYYYMMDD` fills the first eight characters of `s`.
pub open spec fn date_compact_shape(s: Seq<char>) -> bool {
    s.len() >= 8 && digs(s, 0, 8)
}

/// A colon-separated time `HH:MM` sits at position `i` of `s`.
pub open spec fn time_colon_shape(s: Seq<char>, i: int) -> bool {
    &&& i + 5 <= s.len()
    &&& digs(s, i, 2)
    &&& s[i + 2] == ':'
    &&& digs(s, i + 3, 2)
}

/// An unseparated time `HHMM` sits at position `i` of `s`.
pub open spec fn time_compact_shape(s: Seq<char>, i: int) -> bool {
    i + 4 <= s.len() && digs(s, i, 4)
}

/// A numeric offset `±HHMM` or `±HH:MM` fills `s` from `i` to the end.
pub open spec fn z_offset_shape(s: Seq<char>, i: int) -> bool {
    &&& i + 5 <= s.len()
    &&& sign_char(s[i])
    &&& ((s.len() == i + 5 && digs(s, i + 1, 4)) || (s.len() == i + 6 && digs(s, i + 1, 2) && s[i
        + 3] == ':' && digs(s, i + 4, 2)))
}

/// The hour field of the numeric offset at `i`.
pub open spec fn z_offset_hh(s: Seq<char>, i: int) -> int {
    num_at(s, i + 1, 2)
}

/// The minute field of the numeric offset at `i`.
pub open spec fn z_offset_mm(s: Seq<char>, i: int) -> int {
    if s.len() == i + 5 {
        num_at(s, i + 3, 2)
    } else {
        num_at(s, i + 4, 2)
    }
}

/// The numeric offset at `i` spells a real offset: at most 23 hours and 59
/// minutes from UTC.
pub open spec fn z_offset_ok(s: Seq<char>, i: int) -> bool {
    z_offset_shape(s, i) && z_offset_hh(s, i) <= 23 && z_offset_mm(s, i) <= 59
}

/// The seconds east of UTC the numeric offset at `i` denotes.
pub open spec fn z_offset_val(s: Seq<char>, i: int) -> int {
    sign_of(s[i]) * (z_offset_hh(s, i) * 3600 + z_offset_mm(s, i) * 60)
}

/// An RFC-3339-style offset fills `s` from `i` to the end: a literal `Z`
/// or `z`, or `±HH:MM` with the colon required.
pub open spec fn r_offset_shape(s: Seq<char>, i: int) -> bool {
    (s.len() == i + 1 && (s[i] == 'Z' || s[i] == 'z')) || (s.len() == i + 6 && sign_char(s[i])
        && digs(s, i + 1, 2) && s[i + 3] == ':' && digs(s, i + 4, 2))
}

/// The RFC-3339-style offset at `i` spells a real offset.
pub open spec fn r_offset_ok(s: Seq<char>, i: int) -> bool {
    r_offset_shape(s, i) && (s.len() == i + 6 ==> num_at(s, i + 1, 2) <= 23 && num_at(s, i + 4, 2)
        <= 59)
}

/// The seconds east of UTC the RFC-3339-style offset at `i` denotes.
pub open spec fn r_offset_val(s: Seq<char>, i: int) -> int {
    if s.len() == i + 1 {
        0
    } else {
        sign_of(s[i]) * (num_at(s, i + 1, 2) * 3600 + num_at(s, i + 4, 2) * 60)
    }
}

/// The first position at or after `i` that does not hold a digit.
pub open spec fn frac_end(s: Seq<char>, i: int) -> int
    decreases s.len() - i,
{
    if i < 0 || i >= s.len() || !is_dig(s[i]) {
        i
    } else {
        frac_end(s, i + 1)
    }
}

/// Where the offset of the full RFC-3339-style format starts: right after
/// the seconds, or after the dot-introduced fraction digits.
pub open spec fn fmt1_off_pos(s: Seq<char>) -> int {
    if s.len() > 19 && s[19] == '.' {
        frac_end(s, 20)
    } else {
        19
    }
}

/// Format 1, `2025-06-30T22:42:05Z` and kin: hyphenated date, `T`, `t` or
/// space, seconds, an optional fraction, and an explicit `Z` or `±HH:MM`.
pub open spec fn fmt1_ok(s: Seq<char>) -> bool {
    &&& s.len() >= 20
    &&& date_hyphen_shape(s)
    &&& (s[10] == 'T' || s[10] == 't' || s[10] == ' ')
    &&& time_colon_shape(s, 11)
    &&& s[16] == ':'
    &&& digs(s, 17, 2)
    &&& (s.len() > 19 && s[19] == '.' ==> frac_end(s, 20) > 20)
    &&& r_offset_ok(s, fmt1_off_pos(s))
    &&& spec_valid_md(num_at(s, 0, 4), num_at(s, 5, 2), num_at(s, 8, 2))
    &&& num_at(s, 11, 2) <= 23
    &&& num_at(s, 14, 2) <= 59
    &&& num_at(s, 17, 2) <= 60
}

/// The instant format 1 extracts.
pub open spec fn fmt1_val(s: Seq<char>) -> ParsedStamp {
    ParsedStamp::Offset {
        parts: CivilParts {
            year: num_at(s, 0, 4) as u32,
            month: num_at(s, 5, 2) as u32,
            day: num_at(s, 8, 2) as u32,
            hour: num_at(s, 11, 2) as u32,
            minute: num_at(s, 14, 2) as u32,
            second: clamp59(num_at(s, 17, 2)) as u32,
        },
        offset_secs: r_offset_val(s, fmt1_off_pos(s)) as i32,
    }
}

/// Format 2, `2025-06-28T20:28+02:00`: hyphenated date, `T`, `HH:MM`, and
/// a signed numeric offset, no seconds.
pub open spec fn fmt2_ok(s: Seq<char>) -> bool {
    &&& date_hyphen_shape(s)
    &&& s.len() >= 16
    &&& s[10] == 'T'
    &&& time_colon_shape(s, 11)
    &&& z_offset_ok(s, 16)
    &&& spec_valid_md(num_at(s, 0, 4), num_at(s, 5, 2), num_at(s, 8, 2))
    &&& num_at(s, 11, 2) <= 23
    &&& num_at(s, 14, 2) <= 59
}

/// The instant format 2 extracts.
pub open spec fn fmt2_val(s: Seq<char>) -> ParsedStamp {
    ParsedStamp::Offset {
        parts: CivilParts {
            year: num_at(s, 0, 4) as u32,
            month: num_at(s, 5, 2) as u32,
            day: num_at(s, 8, 2) as u32,
            hour: num_at(s, 11, 2) as u32,
            minute: num_at(s, 14, 2) as u32,
            second: 0,
        },
        offset_secs: z_offset_val(s, 16) as i32,
    }
}

/// Format 3, `20250628T20:28+02:00`: compact date, `T`, `HH:MM`, and a
/// signed numeric offset.
pub open spec fn fmt3_ok(s: Seq<char>) -> bool {
    &&& date_compact_shape(s)
    &&& s.len() >= 14
    &&& s[8] == 'T'
    &&& time_colon_shape(s, 9)
    &&& z_offset_ok(s, 14)
    &&& spec_valid_md(num_at(s, 0, 4), num_at(s, 4, 2), num_at(s, 6, 2))
    &&& num_at(s, 9, 2) <= 23
    &&& num_at(s, 12, 2) <= 59
}

/// The instant format 3 extracts.
pub open spec fn fmt3_val(s: Seq<char>) -> ParsedStamp {
    ParsedStamp::Offset {
        parts: CivilParts {
            year: num_at(s, 0, 4) as u32,
            month: num_at(s, 4, 2) as u32,
            day: num_at(s, 6, 2) as u32,
            hour: num_at(s, 9, 2) as u32,
            minute: num_at(s, 12, 2) as u32,
            second: 0,
        },
        offset_secs: z_offset_val(s, 14) as i32,
    }
}

/// Format 4, `20250630T224205Z`: compact date, `T`, `HHMMSS`, and a
/// literal uppercase `Z` denoting UTC.
pub open spec fn fmt4_ok(s: Seq<char>) -> bool {
    &&& s.len() == 16
    &&& date_compact_shape(s)
    &&& s[8] == 'T'
    &&& digs(s, 9, 6)
    &&& s[15] == 'Z'
    &&& spec_valid_md(num_at(s, 0, 4), num_at(s, 4, 2), num_at(s, 6, 2))
    &&& num_at(s, 9, 2) <= 23
    &&& num_at(s, 11, 2) <= 59
    &&& num_at(s, 13, 2) <= 60
}

/// The instant format 4 extracts.
pub open spec fn fmt4_val(s: Seq<char>) -> ParsedStamp {
    ParsedStamp::Offset {
        parts: CivilParts {
            year: num_at(s, 0, 4) as u32,
            month: num_at(s, 4, 2) as u32,
            day: num_at(s, 6, 2) as u32,
            hour: num_at(s, 9, 2) as u32,
            minute: num_at(s, 11, 2) as u32,
            second: clamp59(num_at(s, 13, 2)) as u32,
        },
        offset_secs: 0,
    }
}

/// Format 5, `2025-06-30T22:42:05`: naive hyphenated date-time with
/// seconds.
pub open spec fn fmt5_ok(s: Seq<char>) -> bool {
    &&& s.len() == 19
    &&& date_hyphen_shape(s)
    &&& s[10] == 'T'
    &&& time_colon_shape(s, 11)
    &&& s[16] == ':'
    &&& digs(s, 17, 2)
    &&& spec_valid_md(num_at(s, 0, 4), num_at(s, 5, 2), num_at(s, 8, 2))
    &&& num_at(s, 11, 2) <= 23
    &&& num_at(s, 14, 2) <= 59
    &&& num_at(s, 17, 2) <= 60
}

/// The naive reading format 5 extracts.
pub open spec fn fmt5_val(s: Seq<char>) -> ParsedStamp {
    ParsedStamp::Naive {
        parts: CivilParts {
            year: num_at(s, 0, 4) as u32,
            month: num_at(s, 5, 2) as u32,
            day: num_at(s, 8, 2) as u32,
            hour: num_at(s, 11, 2) as u32,
            minute: num_at(s, 14, 2) as u32,
            second: clamp59(num_at(s, 17, 2)) as u32,
        },
    }
}

/// Format 6, `2025-06-30T22:42`: naive hyphenated date-time, no seconds.
pub open spec fn fmt6_ok(s: Seq<char>) -> bool {
    &&& s.len() == 16
    &&& date_hyphen_shape(s)
    &&& s[10] == 'T'
    &&& time_colon_shape(s, 11)
    &&& spec_valid_md(num_at(s, 0, 4), num_at(s, 5, 2), num_at(s, 8, 2))
    &&& num_at(s, 11, 2) <= 23
    &&& num_at(s, 14, 2) <= 59
}

/// The naive reading format 6 extracts.
pub open spec fn fmt6_val(s: Seq<char>) -> ParsedStamp {
    ParsedStamp::Naive {
        parts: CivilParts {
            year: num_at(s, 0, 4) as u32,
            month: num_at(s, 5, 2) as u32,
            day: num_at(s, 8, 2) as u32,
            hour: num_at(s, 11, 2) as u32,
            minute: num_at(s, 14, 2) as u32,
            second: 0,
        },
    }
}

/// Format 7, `2025-06-30T2242`: naive hyphenated date, unseparated time.
pub open spec fn fmt7_ok(s: Seq<char>) -> bool {
    &&& s.len() == 15
    &&& date_hyphen_shape(s)
    &&& s[10] == 'T'
    &&& time_compact_shape(s, 11)
    &&& spec_valid_md(num_at(s, 0, 4), num_at(s, 5, 2), num_at(s, 8, 2))
    &&& num_at(s, 11, 2) <= 23
    &&& num_at(s, 13, 2) <= 59
}

/// The naive reading format 7 extracts.
pub open spec fn fmt7_val(s: Seq<char>) -> ParsedStamp {
    ParsedStamp::Naive {
        parts: CivilParts {
            year: num_at(s, 0, 4) as u32,
            month: num_at(s, 5, 2) as u32,
            day: num_at(s, 8, 2) as u32,
            hour: num_at(s, 11, 2) as u32,
            minute: num_at(s, 13, 2) as u32,
            second: 0,
        },
    }
}

/// Format 8, `20250630T22:42`: compact date, colon-separated time.
pub open spec fn fmt8_ok(s: Seq<char>) -> bool {
    &&& s.len() == 14
    &&& date_compact_shape(s)
    &&& s[8] == 'T'
    &&& time_colon_shape(s, 9)
    &&& spec_valid_md(num_at(s, 0, 4), num_at(s, 4, 2), num_at(s, 6, 2))
    &&& num_at(s, 9, 2) <= 23
    &&& num_at(s, 12, 2) <= 59
}

/// The naive reading format 8 extracts.
pub open spec fn fmt8_val(s: Seq<char>) -> ParsedStamp {
    ParsedStamp::Naive {
        parts: CivilParts {
            year: num_at(s, 0, 4) as u32,
            month: num_at(s, 4, 2) as u32,
            day: num_at(s, 6, 2) as u32,
            hour: num_at(s, 9, 2) as u32,
            minute: num_at(s, 12, 2) as u32,
            second: 0,
        },
    }
}

/// Format 9, `20250630T2242`: compact date, unseparated time.
pub open spec fn fmt9_ok(s: Seq<char>) -> bool {
    &&& s.len() == 13
    &&& date_compact_shape(s)
    &&& s[8] == 'T'
    &&& time_compact_shape(s, 9)
    &&& spec_valid_md(num_at(s, 0, 4), num_at(s, 4, 2), num_at(s, 6, 2))
    &&& num_at(s, 9, 2) <= 23
    &&& num_at(s, 11, 2) <= 59
}

/// The naive reading format 9 extracts.
pub open spec fn fmt9_val(s: Seq<char>) -> ParsedStamp {
    ParsedStamp::Naive {
        parts: CivilParts {
            year: num_at(s, 0, 4) as u32,
            month: num_at(s, 4, 2) as u32,
            day: num_at(s, 6, 2) as u32,
            hour: num_at(s, 9, 2) as u32,
            minute: num_at(s, 11, 2) as u32,
            second: 0,
        },
    }
}

/// Format 10, `2025-06-30`: hyphenated date only; midnight.
pub open spec fn fmt10_ok(s: Seq<char>) -> bool {
    &&& s.len() == 10
    &&& date_hyphen_shape(s)
    &&& spec_valid_md(num_at(s, 0, 4), num_at(s, 5, 2), num_at(s, 8, 2))
}

/// The naive midnight reading format 10 extracts.
pub open spec fn fmt10_val(s: Seq<char>) -> ParsedStamp {
    ParsedStamp::Naive {
        parts: CivilParts {
            year: num_at(s, 0, 4) as u32,
            month: num_at(s, 5, 2) as u32,
            day: num_at(s, 8, 2) as u32,
            hour: 0,
            minute: 0,
            second: 0,
        },
    }
}

/// Format 11, `20250630`: compact date only; midnight.
pub open spec fn fmt11_ok(s: Seq<char>) -> bool {
    &&& s.len() == 8
    &&& date_compact_shape(s)
    &&& spec_valid_md(num_at(s, 0, 4), num_at(s, 4, 2), num_at(s, 6, 2))
}

/// The naive midnight reading format 11 extracts.
pub open spec fn fmt11_val(s: Seq<char>) -> ParsedStamp {
    ParsedStamp::Naive {
        parts: CivilParts {
            year: num_at(s, 0, 4) as u32,
            month: num_at(s, 4, 2) as u32,
            day: num_at(s, 6, 2) as u32,
            hour: 0,
            minute: 0,
            second: 0,
        },
    }
}

/// Whether format number `k` (1 to 11) matches `s`.
pub open spec fn fmt_ok(k: int, s: Seq<char>) -> bool {
    if k == 1 {
        fmt1_ok(s)
    } else if k == 2 {
        fmt2_ok(s)
    } else if k == 3 {
        fmt3_ok(s)
    } else if k == 4 {
        fmt4_ok(s)
    } else if k == 5 {
        fmt5_ok(s)
    } else if k == 6 {
        fmt6_ok(s)
    } else if k == 7 {
        fmt7_ok(s)
    } else if k == 8 {
        fmt8_ok(s)
    } else if k == 9 {
        fmt9_ok(s)
    } else if k == 10 {
        fmt10_ok(s)
    } else if k == 11 {
        fmt11_ok(s)
    } else {
        false
    }
}

/// What format number `k` extracts from `s`.
pub open spec fn fmt_val(k: int, s: Seq<char>) -> ParsedStamp {
    if k == 1 {
        fmt1_val(s)
    } else if k == 2 {
        fmt2_val(s)
    } else if k == 3 {
        fmt3_val(s)
    } else if k == 4 {
        fmt4_val(s)
    } else if k == 5 {
        fmt5_val(s)
    } else if k == 6 {
        fmt6_val(s)
    } else if k == 7 {
        fmt7_val(s)
    } else if k == 8 {
        fmt8_val(s)
    } else if k == 9 {
        fmt9_val(s)
    } else if k == 10 {
        fmt10_val(s)
    } else {
        fmt11_val(s)
    }
}

/// The number of the earliest format that matches `s`, or 0 when none
/// does.
pub open spec fn first_fmt(s: Seq<char>) -> int {
    if fmt1_ok(s) {
        1
    } else if fmt2_ok(s) {
        2
    } else if fmt3_ok(s) {
        3
    } else if fmt4_ok(s) {
        4
    } else if fmt5_ok(s) {
        5
    } else if fmt6_ok(s) {
        6
    } else if fmt7_ok(s) {
        7
    } else if fmt8_ok(s) {
        8
    } else if fmt9_ok(s) {
        9
    } else if fmt10_ok(s) {
        10
    } else if fmt11_ok(s) {
        11
    } else {
        0
    }
}

/// The candidate reading of `s`: the value of the earliest matching
/// format, or nothing when no format matches.
pub open spec fn spec_parse(s: Seq<char>) -> Option<ParsedStamp> {
    if first_fmt(s) == 0 {
        None
    } else {
        Some(fmt_val(first_fmt(s), s))
    }
}

/// A string matching several candidate formats resolves through the
/// earliest-listed one: whenever format `k` matches, the reading of the
/// string is the value of some format no later than `k`, and of none
/// earlier than that one.
pub proof fn lemma_format_priority(s: Seq<char>, k: int)
    requires
        1 <= k <= 11,
        fmt_ok(k, s),
    ensures
        1 <= first_fmt(s) <= k,
        fmt_ok(first_fmt(s), s),
        forall|j: int| 1 <= j < first_fmt(s) ==> !fmt_ok(j, s),
        spec_parse(s) == Some(fmt_val(first_fmt(s), s)),
{
    let f = first_fmt(s);
    assert forall|j: int| 1 <= j < f implies !fmt_ok(j, s) by {}
}


/// Ten to the `k`-th power.
pub open spec fn pow10(k: nat) -> int
    decreases k,
{
    if k == 0 {
        1
    } else {
        10 * pow10((k - 1) as nat)
    }
}

/// A `k`-digit number is non-negative and below ten to the `k`.
pub(crate) proof fn lemma_num_at_bound(s: Seq<char>, i: int, k: int)
    requires
        0 <= k,
        digs(s, i, k),
        i + k <= s.len(),
        0 <= i,
    ensures
        0 <= num_at(s, i, k) < pow10(k as nat),
    decreases k,
{
    if k > 0 {
        assert(digs(s, i, k - 1));
        lemma_num_at_bound(s, i, k - 1);
        assert(is_dig(s[i + k - 1]));
        assert(0 <= dv(s[i + k - 1]) <= 9);
        assert(pow10(k as nat) == 10 * pow10((k - 1) as nat));
        assert(num_at(s, i, k - 1) * 10 + 9 < pow10(k as nat)) by (nonlinear_arith)
            requires
                num_at(s, i, k - 1) < pow10((k - 1) as nat),
                0 <= num_at(s, i, k - 1),
                pow10(k as nat) == 10 * pow10((k - 1) as nat),
        ;
    }
}

/// Returns whether the `k` characters at `i` are all decimal digits.
pub(crate) fn all_digits(s: &str, i: usize, k: usize) -> (b: bool)
    requires
        i + k <= s@.len(),
    ensures
        b == digs(s@, i as int, k as int),
{
    let l = s.unicode_len();
    proof {
        assert(i + k <= l);
    }
    let mut j: usize = 0;
    while j < k
        invariant
            i + k <= s@.len(),
            s@.len() <= usize::MAX,
            j <= k,
            forall|t: int| i <= t < i + j ==> is_dig(#[trigger] s@[t]),
        decreases k - j,
    {
        let c = s.get_char(i + j);
        if !('0' <= c && c <= '9') {
            assert(!is_dig(s@[i + j]));
            return false;
        }
        j = j + 1;
    }
    true
}

/// Reads the `k`-digit decimal number at `i`; at most four digits.
pub(crate) fn read_num(s: &str, i: usize, k: usize) -> (v: u32)
    requires
        i + k <= s@.len(),
        digs(s@, i as int, k as int),
        k <= 4,
    ensures
        v == num_at(s@, i as int, k as int),
        v <= 9999,
{
    proof {
        assert(pow10(0) == 1);
        assert(pow10(1) == 10);
        assert(pow10(2) == 100);
        assert(pow10(3) == 1000);
        assert(pow10(4) == 10000);
    }
    let l = s.unicode_len();
    proof {
        assert(i + k <= l);
    }
    let mut v: u32 = 0;
    let mut j: usize = 0;
    while j < k
        invariant
            i + k <= s@.len(),
            s@.len() <= usize::MAX,
            digs(s@, i as int, k as int),
            j <= k <= 4,
            v == num_at(s@, i as int, j as int),
            v < pow10(j as nat),
            pow10(0) == 1 && pow10(1) == 10 && pow10(2) == 100 && pow10(3) == 1000 && pow10(4)
                == 10000,
        decreases k - j,
    {
        proof {
            lemma_num_at_bound(s@, i as int, j as int);
            assert(is_dig(s@[i + j]));
        }
        let c = s.get_char(i + j);
        let d: u32 = (c as u32) - ('0' as u32);
        v = v * 10 + d;
        j = j + 1;
    }
    proof {
        lemma_num_at_bound(s@, i as int, k as int);
    }
    v
}

/// Reads the signed numeric offset `±HHMM` / `±HH:MM` that must fill `s`
/// from `i` to the end, returning its seconds east of UTC.
fn read_z_offset(s: &str, i: usize) -> (r: Option<i32>)
    requires
        i <= s@.len(),
    ensures
        r is Some <==> z_offset_ok(s@, i as int),
        r matches Some(off) ==> off == z_offset_val(s@, i as int) && -86400 < off < 86400,
{
    let len = s.unicode_len();
    let rem = len - i;
    if !(rem == 5 || rem == 6) {
        return None;
    }
    let sc = s.get_char(i);
    if !(sc == '+' || sc == '-' || sc == '\u{2212}') {
        return None;
    }
    let (hh, mm): (u32, u32) = if len == i + 5 {
        if !all_digits(s, i + 1, 4) {
            return None;
        }
        proof {
            assert(digs(s@, i as int + 1, 2));
            assert(digs(s@, i as int + 3, 2));
        }
        (read_num(s, i + 1, 2), read_num(s, i + 3, 2))
    } else {
        if !(all_digits(s, i + 1, 2) && s.get_char(i + 3) == ':' && all_digits(s, i + 4, 2)) {
            return None;
        }
        (read_num(s, i + 1, 2), read_num(s, i + 4, 2))
    };
    if hh > 23 || mm > 59 {
        return None;
    }
    let secs: i32 = (hh * 3600 + mm * 60) as i32;
    if sc == '+' {
        Some(secs)
    } else {
        Some(-secs)
    }
}

/// Reads the RFC-3339-style offset (`Z`, `z`, or `±HH:MM`) that must fill
/// `s` from `i` to the end, returning its seconds east of UTC.
fn read_r_offset(s: &str, i: usize) -> (r: Option<i32>)
    requires
        i <= s@.len(),
    ensures
        r is Some <==> r_offset_ok(s@, i as int),
        r matches Some(off) ==> off == r_offset_val(s@, i as int) && -86400 < off < 86400,
{
    let len = s.unicode_len();
    let rem = len - i;
    if rem == 1 {
        let c = s.get_char(i);
        if c == 'Z' || c == 'z' {
            return Some(0);
        }
        return None;
    }
    if rem != 6 {
        return None;
    }
    let sc = s.get_char(i);
    if !(sc == '+' || sc == '-' || sc == '\u{2212}') {
        return None;
    }
    if !(all_digits(s, i + 1, 2) && s.get_char(i + 3) == ':' && all_digits(s, i + 4, 2)) {
        return None;
    }
    let hh = read_num(s, i + 1, 2);
    let mm = read_num(s, i + 4, 2);
    if hh > 23 || mm > 59 {
        return None;
    }
    let secs: i32 = (hh * 3600 + mm * 60) as i32;
    if sc == '+' {
        Some(secs)
    } else {
        Some(-secs)
    }
}

/// Reads the hyphenated date `YYYY-MM-DD` at the front of `s`, accepting
/// only a real calendar date.
fn read_date_hyphen(s: &str) -> (r: Option<(u32, u32, u32)>)
    ensures
        r is Some <==> date_hyphen_shape(s@) && spec_valid_md(
            num_at(s@, 0, 4),
            num_at(s@, 5, 2),
            num_at(s@, 8, 2),
        ),
        r matches Some((y, mo, d)) ==> y == num_at(s@, 0, 4) && mo == num_at(s@, 5, 2) && d
            == num_at(s@, 8, 2) && spec_valid_md(y as int, mo as int, d as int) && y <= 9999,
{
    let len = s.unicode_len();
    if len < 10 {
        return None;
    }
    if !(all_digits(s, 0, 4) && s.get_char(4) == '-' && all_digits(s, 5, 2) && s.get_char(7)
        == '-' && all_digits(s, 8, 2)) {
        return None;
    }
    let y = read_num(s, 0, 4);
    let mo = read_num(s, 5, 2);
    let d = read_num(s, 8, 2);
    if mo < 1 || mo > 12 {
        return None;
    }
    if d < 1 || d > crate::calendar::days_in_month(y as i32, mo) {
        return None;
    }
    Some((y, mo, d))
}

/// Reads the compact date `YYYYMMDD` at the front of `s`, accepting only a
/// real calendar date.
fn read_date_compact(s: &str) -> (r: Option<(u32, u32, u32)>)
    ensures
        r is Some <==> date_compact_shape(s@) && spec_valid_md(
            num_at(s@, 0, 4),
            num_at(s@, 4, 2),
            num_at(s@, 6, 2),
        ),
        r matches Some((y, mo, d)) ==> y == num_at(s@, 0, 4) && mo == num_at(s@, 4, 2) && d
            == num_at(s@, 6, 2) && spec_valid_md(y as int, mo as int, d as int) && y <= 9999,
{
    let len = s.unicode_len();
    if len < 8 {
        return None;
    }
    if !all_digits(s, 0, 8) {
        return None;
    }
    proof {
        assert(digs(s@, 0, 4));
        assert(digs(s@, 4, 2));
        assert(digs(s@, 6, 2));
    }
    let y = read_num(s, 0, 4);
    let mo = read_num(s, 4, 2);
    let d = read_num(s, 6, 2);
    if mo < 1 || mo > 12 {
        return None;
    }
    if d < 1 || d > crate::calendar::days_in_month(y as i32, mo) {
        return None;
    }
    Some((y, mo, d))
}

/// Reads the colon-separated time `HH:MM` at `i`, accepting only a real
/// hour and minute.
fn read_time_colon(s: &str, i: usize) -> (r: Option<(u32, u32)>)
    requires
        i <= s@.len(),
    ensures
        r is Some <==> time_colon_shape(s@, i as int) && num_at(s@, i as int, 2) <= 23 && num_at(
            s@,
            i as int + 3,
            2,
        ) <= 59,
        r matches Some((h, mi)) ==> h == num_at(s@, i as int, 2) && mi == num_at(
            s@,
            i as int + 3,
            2,
        ) && h <= 23 && mi <= 59,
{
    let len = s.unicode_len();
    if len - i < 5 {
        return None;
    }
    if !(all_digits(s, i, 2) && s.get_char(i + 2) == ':' && all_digits(s, i + 3, 2)) {
        return None;
    }
    let h = read_num(s, i, 2);
    let mi = read_num(s, i + 3, 2);
    if h > 23 || mi > 59 {
        return None;
    }
    Some((h, mi))
}

/// Reads the unseparated time `HHMM` at `i`, accepting only a real hour
/// and minute.
fn read_time_compact(s: &str, i: usize) -> (r: Option<(u32, u32)>)
    requires
        i <= s@.len(),
    ensures
        r is Some <==> time_compact_shape(s@, i as int) && num_at(s@, i as int, 2) <= 23 && num_at(
            s@,
            i as int + 2,
            2,
        ) <= 59,
        r matches Some((h, mi)) ==> h == num_at(s@, i as int, 2) && mi == num_at(
            s@,
            i as int + 2,
            2,
        ) && h <= 23 && mi <= 59,
{
    let len = s.unicode_len();
    if len - i < 4 {
        return None;
    }
    if !all_digits(s, i, 4) {
        return None;
    }
    proof {
        assert(digs(s@, i as int, 2));
        assert(digs(s@, i as int + 2, 2));
    }
    let h = read_num(s, i, 2);
    let mi = read_num(s, i + 2, 2);
    if h > 23 || mi > 59 {
        return None;
    }
    Some((h, mi))
}

/// Reads the two-digit seconds field at `i`, accepting 00 to 60 and
/// clamping a leap second 60 down to 59.
fn read_sec(s: &str, i: usize) -> (r: Option<u32>)
    requires
        i <= s@.len(),
    ensures
        r is Some <==> i + 2 <= s@.len() && digs(s@, i as int, 2) && num_at(s@, i as int, 2) <= 60,
        r matches Some(sec) ==> sec == clamp59(num_at(s@, i as int, 2)) && sec <= 59,
{
    let len = s.unicode_len();
    if len - i < 2 {
        return None;
    }
    if !all_digits(s, i, 2) {
        return None;
    }
    let v = read_num(s, i, 2);
    if v > 60 {
        return None;
    }
    if v == 60 {
        Some(59)
    } else {
        Some(v)
    }
}


/// A scan that stopped at the first non-digit pins down `frac_end`.
proof fn lemma_frac_end_at(s: Seq<char>, i: int, q: int)
    requires
        0 <= i <= q <= s.len(),
        forall|j: int| i <= j < q ==> is_dig(#[trigger] s[j]),
        q == s.len() || !is_dig(s[q]),
    ensures
        frac_end(s, i) == q,
    decreases q - i,
{
    if i < q {
        lemma_frac_end_at(s, i + 1, q);
    }
}

/// Tries format 1: RFC-3339-style with seconds, optional fraction, and an
/// explicit `Z` or colon-separated numeric offset.
fn try_fmt1(s: &str) -> (r: Option<ParsedStamp>)
    ensures
        r is Some <==> fmt1_ok(s@),
        r matches Some(ps) ==> ps == fmt1_val(s@) && stamp_wf(ps),
{
    let len = s.unicode_len();
    if len < 20 {
        return None;
    }
    let (y, mo, d) = match read_date_hyphen(s) {
        Some(t) => t,
        None => { return None },
    };
    let c10 = s.get_char(10);
    if !(c10 == 'T' || c10 == 't' || c10 == ' ') {
        return None;
    }
    let (h, mi) = match read_time_colon(s, 11) {
        Some(t) => t,
        None => { return None },
    };
    if s.get_char(16) != ':' {
        return None;
    }
    let sec = match read_sec(s, 17) {
        Some(t) => t,
        None => { return None },
    };
    let mut p: usize = 19;
    if s.get_char(19) == '.' {
        let mut q: usize = 20;
        loop
            invariant
                20 <= q <= len,
                len == s@.len(),
                forall|j: int| 20 <= j < q ==> is_dig(#[trigger] s@[j]),
            ensures
                20 <= q <= len,
                forall|j: int| 20 <= j < q ==> is_dig(#[trigger] s@[j]),
                q == len || !is_dig(s@[q as int]),
            decreases len - q,
        {
            if q == len {
                break;
            }
            let c = s.get_char(q);
            if !('0' <= c && c <= '9') {
                break;
            }
            q = q + 1;
        }
        proof {
            lemma_frac_end_at(s@, 20, q as int);
        }
        if q == 20 {
            return None;
        }
        p = q;
    }
    proof {
        assert(p as int == fmt1_off_pos(s@));
    }
    let off = match read_r_offset(s, p) {
        Some(o) => o,
        None => { return None },
    };
    Some(
        ParsedStamp::Offset {
            parts: CivilParts { year: y, month: mo, day: d, hour: h, minute: mi, second: sec },
            offset_secs: off,
        },
    )
}

/// Tries format 2: hyphenated date, `HH:MM`, signed numeric offset.
fn try_fmt2(s: &str) -> (r: Option<ParsedStamp>)
    ensures
        r is Some <==> fmt2_ok(s@),
        r matches Some(ps) ==> ps == fmt2_val(s@) && stamp_wf(ps),
{
    let len = s.unicode_len();
    if len < 16 {
        return None;
    }
    let (y, mo, d) = match read_date_hyphen(s) {
        Some(t) => t,
        None => { return None },
    };
    if s.get_char(10) != 'T' {
        return None;
    }
    let (h, mi) = match read_time_colon(s, 11) {
        Some(t) => t,
        None => { return None },
    };
    let off = match read_z_offset(s, 16) {
        Some(o) => o,
        None => { return None },
    };
    Some(
        ParsedStamp::Offset {
            parts: CivilParts { year: y, month: mo, day: d, hour: h, minute: mi, second: 0 },
            offset_secs: off,
        },
    )
}

/// Tries format 3: compact date, `HH:MM`, signed numeric offset.
fn try_fmt3(s: &str) -> (r: Option<ParsedStamp>)
    ensures
        r is Some <==> fmt3_ok(s@),
        r matches Some(ps) ==> ps == fmt3_val(s@) && stamp_wf(ps),
{
    let len = s.unicode_len();
    if len < 14 {
        return None;
    }
    let (y, mo, d) = match read_date_compact(s) {
        Some(t) => t,
        None => { return None },
    };
    if s.get_char(8) != 'T' {
        return None;
    }
    let (h, mi) = match read_time_colon(s, 9) {
        Some(t) => t,
        None => { return None },
    };
    let off = match read_z_offset(s, 14) {
        Some(o) => o,
        None => { return None },
    };
    Some(
        ParsedStamp::Offset {
            parts: CivilParts { year: y, month: mo, day: d, hour: h, minute: mi, second: 0 },
            offset_secs: off,
        },
    )
}

/// Tries format 4: compact date and `HHMMSS` with a literal `Z`.
fn try_fmt4(s: &str) -> (r: Option<ParsedStamp>)
    ensures
        r is Some <==> fmt4_ok(s@),
        r matches Some(ps) ==> ps == fmt4_val(s@) && stamp_wf(ps),
{
    let len = s.unicode_len();
    if len != 16 {
        return None;
    }
    let (y, mo, d) = match read_date_compact(s) {
        Some(t) => t,
        None => { return None },
    };
    if s.get_char(8) != 'T' {
        return None;
    }
    if !all_digits(s, 9, 6) {
        return None;
    }
    if s.get_char(15) != 'Z' {
        return None;
    }
    proof {
        assert(digs(s@, 9, 2));
        assert(digs(s@, 11, 2));
        assert(digs(s@, 13, 2));
    }
    let h = read_num(s, 9, 2);
    let mi = read_num(s, 11, 2);
    if h > 23 || mi > 59 {
        return None;
    }
    let sec = match read_sec(s, 13) {
        Some(t) => t,
        None => { return None },
    };
    Some(
        ParsedStamp::Offset {
            parts: CivilParts { year: y, month: mo, day: d, hour: h, minute: mi, second: sec },
            offset_secs: 0,
        },
    )
}

/// Tries format 5: naive hyphenated date-time with seconds.
fn try_fmt5(s: &str) -> (r: Option<ParsedStamp>)
    ensures
        r is Some <==> fmt5_ok(s@),
        r matches Some(ps) ==> ps == fmt5_val(s@) && stamp_wf(ps),
{
    let len = s.unicode_len();
    if len != 19 {
        return None;
    }
    let (y, mo, d) = match read_date_hyphen(s) {
        Some(t) => t,
        None => { return None },
    };
    if s.get_char(10) != 'T' {
        return None;
    }
    let (h, mi) = match read_time_colon(s, 11) {
        Some(t) => t,
        None => { return None },
    };
    if s.get_char(16) != ':' {
        return None;
    }
    let sec = match read_sec(s, 17) {
        Some(t) => t,
        None => { return None },
    };
    Some(
        ParsedStamp::Naive {
            parts: CivilParts { year: y, month: mo, day: d, hour: h, minute: mi, second: sec },
        },
    )
}

/// Tries format 6: naive hyphenated date-time without seconds.
fn try_fmt6(s: &str) -> (r: Option<ParsedStamp>)
    ensures
        r is Some <==> fmt6_ok(s@),
        r matches Some(ps) ==> ps == fmt6_val(s@) && stamp_wf(ps),
{
    let len = s.unicode_len();
    if len != 16 {
        return None;
    }
    let (y, mo, d) = match read_date_hyphen(s) {
        Some(t) => t,
        None => { return None },
    };
    if s.get_char(10) != 'T' {
        return None;
    }
    let (h, mi) = match read_time_colon(s, 11) {
        Some(t) => t,
        None => { return None },
    };
    Some(
        ParsedStamp::Naive {
            parts: CivilParts { year: y, month: mo, day: d, hour: h, minute: mi, second: 0 },
        },
    )
}

/// Tries format 7: naive hyphenated date with unseparated time.
fn try_fmt7(s: &str) -> (r: Option<ParsedStamp>)
    ensures
        r is Some <==> fmt7_ok(s@),
        r matches Some(ps) ==> ps == fmt7_val(s@) && stamp_wf(ps),
{
    let len = s.unicode_len();
    if len != 15 {
        return None;
    }
    let (y, mo, d) = match read_date_hyphen(s) {
        Some(t) => t,
        None => { return None },
    };
    if s.get_char(10) != 'T' {
        return None;
    }
    let (h, mi) = match read_time_compact(s, 11) {
        Some(t) => t,
        None => { return None },
    };
    Some(
        ParsedStamp::Naive {
            parts: CivilParts { year: y, month: mo, day: d, hour: h, minute: mi, second: 0 },
        },
    )
}

/// Tries format 8: compact date with colon-separated time.
fn try_fmt8(s: &str) -> (r: Option<ParsedStamp>)
    ensures
        r is Some <==> fmt8_ok(s@),
        r matches Some(ps) ==> ps == fmt8_val(s@) && stamp_wf(ps),
{
    let len = s.unicode_len();
    if len != 14 {
        return None;
    }
    let (y, mo, d) = match read_date_compact(s) {
        Some(t) => t,
        None => { return None },
    };
    if s.get_char(8) != 'T' {
        return None;
    }
    let (h, mi) = match read_time_colon(s, 9) {
        Some(t) => t,
        None => { return None },
    };
    Some(
        ParsedStamp::Naive {
            parts: CivilParts { year: y, month: mo, day: d, hour: h, minute: mi, second: 0 },
        },
    )
}

/// Tries format 9: compact date with unseparated time.
fn try_fmt9(s: &str) -> (r: Option<ParsedStamp>)
    ensures
        r is Some <==> fmt9_ok(s@),
        r matches Some(ps) ==> ps == fmt9_val(s@) && stamp_wf(ps),
{
    let len = s.unicode_len();
    if len != 13 {
        return None;
    }
    let (y, mo, d) = match read_date_compact(s) {
        Some(t) => t,
        None => { return None },
    };
    if s.get_char(8) != 'T' {
        return None;
    }
    let (h, mi) = match read_time_compact(s, 9) {
        Some(t) => t,
        None => { return None },
    };
    Some(
        ParsedStamp::Naive {
            parts: CivilParts { year: y, month: mo, day: d, hour: h, minute: mi, second: 0 },
        },
    )
}

/// Tries format 10: hyphenated date only; the time defaults to midnight.
fn try_fmt10(s: &str) -> (r: Option<ParsedStamp>)
    ensures
        r is Some <==> fmt10_ok(s@),
        r matches Some(ps) ==> ps == fmt10_val(s@) && stamp_wf(ps),
{
    let len = s.unicode_len();
    if len != 10 {
        return None;
    }
    let (y, mo, d) = match read_date_hyphen(s) {
        Some(t) => t,
        None => { return None },
    };
    Some(
        ParsedStamp::Naive {
            parts: CivilParts { year: y, month: mo, day: d, hour: 0, minute: 0, second: 0 },
        },
    )
}

/// Tries format 11: compact date only; the time defaults to midnight.
fn try_fmt11(s: &str) -> (r: Option<ParsedStamp>)
    ensures
        r is Some <==> fmt11_ok(s@),
        r matches Some(ps) ==> ps == fmt11_val(s@) && stamp_wf(ps),
{
    let len = s.unicode_len();
    if len != 8 {
        return None;
    }
    let (y, mo, d) = match read_date_compact(s) {
        Some(t) => t,
        None => { return None },
    };
    Some(
        ParsedStamp::Naive {
            parts: CivilParts { year: y, month: mo, day: d, hour: 0, minute: 0, second: 0 },
        },
    )
}

/// Tries the eleven candidate formats in priority order and returns the
/// reading of the first that matches, or nothing when none does.
pub fn parse_candidate(s: &str) -> (r: Option<ParsedStamp>)
    ensures
        r == spec_parse(s@),
        r matches Some(ps) ==> stamp_wf(ps),
{
    if let Some(ps) = try_fmt1(s) {
        return Some(ps);
    }
    if let Some(ps) = try_fmt2(s) {
        return Some(ps);
    }
    if let Some(ps) = try_fmt3(s) {
        return Some(ps);
    }
    if let Some(ps) = try_fmt4(s) {
        return Some(ps);
    }
    if let Some(ps) = try_fmt5(s) {
        return Some(ps);
    }
    if let Some(ps) = try_fmt6(s) {
        return Some(ps);
    }
    if let Some(ps) = try_fmt7(s) {
        return Some(ps);
    }
    if let Some(ps) = try_fmt8(s) {
        return Some(ps);
    }
    if let Some(ps) = try_fmt9(s) {
        return Some(ps);
    }
    if let Some(ps) = try_fmt10(s) {
        return Some(ps);
    }
    if let Some(ps) = try_fmt11(s) {
        return Some(ps);
    }
    None
}

} // verus!


