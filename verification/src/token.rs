//! The compact token itself: building `YY-DOY-BASEMIN` from a local point
//! in time, finding such a token inside arbitrary text, and expanding it
//! back into a rendered date/time.

use vstd::prelude::*;

use crate::Base;
use crate::ExpandArgs;
use crate::GenerateArgs;
use crate::TsError;
use crate::calendar::spec_day_of_year;
use crate::calendar::spec_days_in_year;
use crate::calendar::spec_epoch_of;
use crate::calendar::spec_month_day_of_doy;
use crate::calendar::spec_valid_md;
use crate::codec::digit_char;
use crate::codec::digit_val;
use crate::codec::from_base_n;
use crate::codec::pad3;
use crate::codec::push_char;
use crate::codec::spec_encoded;
use crate::codec::spec_from_base;
use crate::codec::spec_pad3;
use crate::codec::to_base_n;
use crate::codec::valid_digits;
use crate::fmt_check::spec_has_sub_minute;
use crate::fmt_check::validate_format_string;
use crate::parse::ParsedStamp;
use crate::parse::digs;
use crate::parse::is_dig;
use crate::parse::dv;
use crate::parse::num_at;
use crate::parse::parse_candidate;
use crate::parse::spec_parse;
use crate::tz::LocalStamp;
use crate::tz::now_local;
use crate::tz::offset_to_local;
use crate::tz::render_local;
use crate::tz::resolve_local;
use crate::tz::spec_rendered;

verus! {

/// The last two decimal digits of year `y` (non-negative even for years
/// before the common era, as Euclidean remainders are).
pub open spec fn spec_yy(y: int) -> int {
    y % 100
}

/// The two decimal digits of `v` (0 to 99).
pub open spec fn spec_two_digits(v: int) -> Seq<char> {
    seq![digit_char(v / 10), digit_char(v % 10)]
}

/// The three decimal digits of `v` (0 to 999).
pub open spec fn spec_three_digits(v: int) -> Seq<char> {
    seq![digit_char(v / 100), digit_char((v / 10) % 10), digit_char(v % 10)]
}

/// The compact token text: two year digits, a hyphen, three day-of-year
/// digits, a hyphen, and the minutes encoded in `base` and zero-padded to
/// three characters.
pub open spec fn spec_token(yy: int, doy: int, minutes: int, base: Base) -> Seq<char> {
    spec_two_digits(yy) + seq!['-'] + spec_three_digits(doy) + seq!['-'] + spec_pad3(
        spec_encoded(minutes as nat, base.spec_radix() as nat),
    )
}

/// Whether `c` may stand in the minutes field of a token in `base`: a
/// digit of the base's alphabet, letters case-insensitively — `A`/`B` or
/// `a`/`b` for base 12, any ASCII letter for base 36.
pub open spec fn token_char(c: char, base: Base) -> bool {
    match base {
        Base::B12 => is_dig(c) || c == 'A' || c == 'B' || c == 'a' || c == 'b',
        Base::B36 => is_dig(c) || ('A' <= c && c <= 'Z') || ('a' <= c && c <= 'z'),
    }
}

/// Whether a compact token in `base` sits at position `i` of `s`: two
/// digits, a hyphen, three digits, a hyphen, three base digits.
pub open spec fn token_at(s: Seq<char>, i: int, base: Base) -> bool {
    &&& 0 <= i
    &&& i + 10 <= s.len()
    &&& digs(s, i, 2)
    &&& s[i + 2] == '-'
    &&& digs(s, i + 3, 3)
    &&& s[i + 6] == '-'
    &&& token_char(s[i + 7], base)
    &&& token_char(s[i + 8], base)
    &&& token_char(s[i + 9], base)
}

/// The position of the first token at or after `i`, if any.
pub open spec fn find_token_from(s: Seq<char>, i: int, base: Base) -> Option<int>
    decreases s.len() - i,
{
    if i < 0 || i + 10 > s.len() {
        None
    } else if token_at(s, i, base) {
        Some(i)
    } else {
        find_token_from(s, i + 1, base)
    }
}

/// The position of the leftmost token of `s`, if any.
pub open spec fn spec_find_token(s: Seq<char>, base: Base) -> Option<int> {
    find_token_from(s, 0, base)
}

/// What the leftmost-token position means: a token sits there and at no
/// earlier position; and where none is reported, no position holds one.
pub proof fn lemma_find_token_props(s: Seq<char>, base: Base)
    ensures
        spec_find_token(s, base) matches Some(i) ==> token_at(s, i, base) && forall|j: int|
            0 <= j < i ==> !token_at(s, j, base),
        spec_find_token(s, base) is None ==> forall|j: int| !token_at(s, j, base),
{
    lemma_find_token_from_props(s, 0, base);
    if spec_find_token(s, base) is None {
        assert forall|j: int| !token_at(s, j, base) by {
            if 0 <= j {
                lemma_find_token_from_props(s, 0, base);
            }
        }
    }
}

/// The walk from `i` reports the first token position at or after `i`.
proof fn lemma_find_token_from_props(s: Seq<char>, i: int, base: Base)
    requires
        0 <= i,
    ensures
        find_token_from(s, i, base) matches Some(p) ==> i <= p && token_at(s, p, base) && forall|
            j: int,
        | i <= j < p ==> !token_at(s, j, base),
        find_token_from(s, i, base) is None ==> forall|j: int| j >= i ==> !token_at(s, j, base),
    decreases s.len() - i,
{
    if i + 10 > s.len() {
        assert forall|j: int| j >= i implies !token_at(s, j, base) by {}
    } else if token_at(s, i, base) {
    } else {
        lemma_find_token_from_props(s, i + 1, base);
    }
}

/// Returns whether a compact token in `base` sits at position `i`.
fn token_at_exec(s: &str, i: usize, base: Base) -> (b: bool)
    requires
        i + 10 <= s@.len(),
    ensures
        b == token_at(s@, i as int, base),
{
    let l = s.unicode_len();
    proof {
        assert(i + 10 <= l);
    }
    if !crate::parse::all_digits(s, i, 2) {
        return false;
    }
    if s.get_char(i + 2) != '-' {
        return false;
    }
    if !crate::parse::all_digits(s, i + 3, 3) {
        return false;
    }
    if s.get_char(i + 6) != '-' {
        return false;
    }
    let mut k: usize = 7;
    while k < 10
        invariant
            i + 10 <= s@.len(),
            s@.len() <= usize::MAX,
            7 <= k <= 10,
            forall|t: int| i + 7 <= t < i + k ==> token_char(#[trigger] s@[t], base),
        decreases 10 - k,
    {
        let c = s.get_char(i + k);
        let ok = match base {
            Base::B12 => ('0' <= c && c <= '9') || c == 'A' || c == 'B' || c == 'a' || c == 'b',
            Base::B36 => ('0' <= c && c <= '9') || ('A' <= c && c <= 'Z') || ('a' <= c && c
                <= 'z'),
        };
        if !ok {
            assert(!token_char(s@[i + k], base));
            return false;
        }
        k = k + 1;
    }
    true
}

/// Searches `s` left to right for the first compact token in `base`.
pub fn find_token(s: &str, base: Base) -> (r: Option<usize>)
    ensures
        r matches Some(i) ==> Some(i as int) == spec_find_token(s@, base),
        r is None ==> spec_find_token(s@, base) is None,
{
    let len = s.unicode_len();
    if len < 10 {
        proof {
            lemma_find_token_from_none(s@, 0, base);
        }
        return None;
    }
    let mut i: usize = 0;
    while i <= len - 10
        invariant
            len == s@.len(),
            10 <= len,
            i <= len,
            find_token_from(s@, 0, base) == find_token_from(s@, i as int, base),
        decreases len - i,
    {
        if token_at_exec(s, i, base) {
            return Some(i);
        }
        i = i + 1;
    }
    proof {
        lemma_find_token_from_none(s@, i as int, base);
    }
    None
}

/// Past the last position a token could start at, the walk finds nothing.
proof fn lemma_find_token_from_none(s: Seq<char>, i: int, base: Base)
    requires
        i + 10 > s.len(),
    ensures
        find_token_from(s, i, base) is None,
{
}


/// A token character is a digit of the token's base.
proof fn lemma_token_char_digit(c: char, base: Base)
    requires
        token_char(c, base),
    ensures
        digit_val(c) < base.spec_radix(),
{
}

/// The value of a three-character digit string is below its base cubed.
proof fn lemma_from_base3_bound(s: Seq<char>, base: int)
    requires
        2 <= base <= 36,
        s.len() == 3,
        forall|i: int| 0 <= i < 3 ==> digit_val(#[trigger] s[i]) < base,
    ensures
        0 <= spec_from_base(s, base) < base * base * base,
{
    let v0 = digit_val(s[0]);
    let v1 = digit_val(s[1]);
    let v2 = digit_val(s[2]);
    let p1 = s.take(1);
    let p2 = s.take(2);
    assert(p1.drop_last() =~= Seq::<char>::empty());
    assert(p1.last() == s[0]);
    assert(spec_from_base(Seq::<char>::empty(), base) == 0);
    assert(spec_from_base(p1, base) == v0);
    assert(p2.drop_last() =~= p1);
    assert(p2.last() == s[1]);
    assert(spec_from_base(p2, base) == v0 * base + v1);
    assert(s.drop_last() =~= p2);
    assert(s.last() == s[2]);
    assert(spec_from_base(s, base) == (v0 * base + v1) * base + v2);
    assert(0 <= (v0 * base + v1) * base + v2 < base * base * base) by (nonlinear_arith)
        requires
            0 <= v0 < base,
            0 <= v1 < base,
            0 <= v2 < base,
            2 <= base,
    ;
}

/// Builds the compact token of a local point in time: the last two year
/// digits, the day-of-year, and the minutes since midnight encoded in
/// `base` and zero-padded to three characters, separated by hyphens.
pub fn generate_token(st: &LocalStamp, base: Base) -> (r: String)
    requires
        st.wf(),
    ensures
        r@ == spec_token(
            spec_yy(st.year as int),
            spec_day_of_year(st.year as int, st.month as int, st.day as int),
            st.hour * 60 + st.minute,
            base,
        ),
{
    let yy: u32 = match st.year.checked_rem_euclid(100) {
        Some(v) => v as u32,
        None => {
            proof {
                assert(false);
            }
            0
        },
    };
    proof {
        vstd::arithmetic::div_mod::lemma_mod_bound(st.year as int, 100);
    }
    let doy: u32 = crate::calendar::day_of_year(st.year, st.month, st.day);
    let minutes: u32 = st.hour * 60 + st.minute;
    let enc = to_base_n(minutes, base.radix());
    let padded = pad3(enc.as_str());
    let mut r = String::new();
    push_char(&mut r, crate::codec::digit_char_of(yy / 10));
    push_char(&mut r, crate::codec::digit_char_of(yy % 10));
    push_char(&mut r, '-');
    push_char(&mut r, crate::codec::digit_char_of(doy / 100));
    push_char(&mut r, crate::codec::digit_char_of((doy / 10) % 10));
    push_char(&mut r, crate::codec::digit_char_of(doy % 10));
    push_char(&mut r, '-');
    r.append(padded.as_str());
    proof {
        assert(r@ =~= spec_token(
            spec_yy(st.year as int),
            spec_day_of_year(st.year as int, st.month as int, st.day as int),
            st.hour * 60 + st.minute,
            base,
        ));
    }
    r
}

/// Interprets a free-form string as a local point in time: the eleven
/// candidate formats are tried in priority order; an offset-bearing match
/// is converted to the local timezone keeping its instant, a naive match
/// is resolved against the local timezone rules and fails as ambiguous
/// when the zone maps it to no unique instant.
pub fn parse_flexible_timestamp(s: &str) -> (r: Result<LocalStamp, TsError>)
    ensures
        spec_parse(s@) is None <==> r == Result::<LocalStamp, TsError>::Err(TsError::ParseFailure),
        spec_parse(s@) matches Some(ParsedStamp::Offset { parts, offset_secs }) ==> (r matches Ok(
            st,
        ) && st.wf() && st.epoch() == spec_epoch_of(
            parts.year as int,
            parts.month as int,
            parts.day as int,
            parts.hour as int,
            parts.minute as int,
            parts.second as int,
            offset_secs as int,
        )),
        spec_parse(s@) matches Some(ParsedStamp::Naive { parts }) ==> (match r {
            Ok(st) => st.wf() && st.year as int == parts.year as int && st.month as int
                == parts.month as int && st.day as int == parts.day as int && st.hour as int
                == parts.hour as int && st.minute as int == parts.minute as int && st.second as int
                == parts.second as int,
            Err(e) => e == TsError::AmbiguousLocalTime,
        }),
{
    match parse_candidate(s) {
        None => Err(TsError::ParseFailure),
        Some(ParsedStamp::Offset { parts, offset_secs }) => {
            let st = offset_to_local(
                parts.year as i32,
                parts.month,
                parts.day,
                parts.hour,
                parts.minute,
                parts.second,
                offset_secs,
            );
            Ok(st)
        },
        Some(ParsedStamp::Naive { parts }) => {
            match resolve_local(
                parts.year as i32,
                parts.month,
                parts.day,
                parts.hour,
                parts.minute,
                parts.second,
            ) {
                Some(off) => Ok(
                    LocalStamp {
                        year: parts.year as i32,
                        month: parts.month,
                        day: parts.day,
                        hour: parts.hour,
                        minute: parts.minute,
                        second: parts.second,
                        offset_secs: off,
                    },
                ),
                None => Err(TsError::AmbiguousLocalTime),
            }
        },
    }
}

/// Decodes the first compact token found in `input`: the two year digits
/// become a year of the 2000s, the three-digit day-of-year picks the
/// calendar date, and the base-encoded minutes give the time of day; each
/// validation failure reports its own error.
pub fn expand_to_stamp(input: &str, base: Base) -> (r: Result<LocalStamp, TsError>)
    ensures
        spec_find_token(input@, base) is None <==> r == Result::<LocalStamp, TsError>::Err(
            TsError::NoTokenFound,
        ),
        spec_find_token(input@, base) matches Some(i) ==> ({
            let yy = num_at(input@, i, 2);
            let doy = num_at(input@, i + 3, 3);
            let mv = spec_from_base(input@.subrange(i + 7, i + 10), base.spec_radix() as int);
            &&& (mv >= 1440 ==> r == Result::<LocalStamp, TsError>::Err(
                TsError::InvalidMinutes(mv as u32),
            ))
            &&& (mv < 1440 && !(1 <= doy <= spec_days_in_year(2000 + yy)) ==> r == Result::<
                LocalStamp,
                TsError,
            >::Err(TsError::InvalidDayOfYear(doy as u32)))
            &&& (mv < 1440 && 1 <= doy <= spec_days_in_year(2000 + yy) ==> (match r {
                Ok(st) => st.wf() && st.year == 2000 + yy && 2000 <= st.year <= 2099 && (
                st.month as int,
                st.day as int,
                ) == spec_month_day_of_doy(2000 + yy, doy) && st.hour == mv / 60 && st.minute
                    == mv % 60 && st.second == 0,
                Err(e) => e == TsError::AmbiguousLocalTime,
            }))
        }),
{
    let len = input.unicode_len();
    let i = match find_token(input, base) {
        Some(i) => i,
        None => { return Err(TsError::NoTokenFound) },
    };
    proof {
        lemma_find_token_props(input@, base);
        assert(i + 10 <= len);
    }
    let yy = crate::parse::read_num(input, i, 2);
    let doy = crate::parse::read_num(input, i + 3, 3);
    proof {
        crate::parse::lemma_num_at_bound(input@, i as int, 2);
        crate::parse::lemma_num_at_bound(input@, i as int + 3, 3);
        assert(crate::parse::pow10(0) == 1);
        assert(crate::parse::pow10(1) == 10);
        assert(crate::parse::pow10(2) == 100);
        assert(crate::parse::pow10(3) == 1000);
    }
    let mut mstr = String::new();
    push_char(&mut mstr, input.get_char(i + 7));
    push_char(&mut mstr, input.get_char(i + 8));
    push_char(&mut mstr, input.get_char(i + 9));
    proof {
        assert(mstr@ =~= input@.subrange(i as int + 7, i as int + 10));
        lemma_token_char_digit(input@[i as int + 7], base);
        lemma_token_char_digit(input@[i as int + 8], base);
        lemma_token_char_digit(input@[i as int + 9], base);
        assert(valid_digits(mstr@, base.spec_radix() as int));
        lemma_from_base3_bound(mstr@, base.spec_radix() as int);
    }
    let mv = match from_base_n(mstr.as_str(), base.radix()) {
        Ok(v) => v,
        Err(_) => {
            proof {
                assert(false);
            }
            return Err(TsError::InvalidDigit);
        },
    };
    if mv >= 1440 {
        return Err(TsError::InvalidMinutes(mv));
    }
    let year: i32 = 2000 + yy as i32;
    let dy = crate::calendar::days_in_year(year);
    if doy < 1 || doy > dy {
        return Err(TsError::InvalidDayOfYear(doy));
    }
    let (mo, d) = crate::calendar::month_day_of_doy(year, doy);
    let h = mv / 60;
    let mi = mv % 60;
    match resolve_local(year, mo, d, h, mi, 0) {
        Some(off) => Ok(
            LocalStamp {
                year,
                month: mo,
                day: d,
                hour: h,
                minute: mi,
                second: 0,
                offset_secs: off,
            },
        ),
        None => Err(TsError::AmbiguousLocalTime),
    }
}

/// Produces the compact token: from the current local time, or from the
/// `from` string interpreted by the flexible parser.  A parse failure or
/// an ambiguous local reading is propagated; every successfully resolved
/// point in time yields its token.
pub fn generate_command(args: &GenerateArgs) -> (r: Result<String, TsError>)
    ensures
        args.from is None ==> (r matches Ok(tok) && (exists|st: LocalStamp|
            st.wf() && tok@ == #[trigger] spec_token(
                spec_yy(st.year as int),
                spec_day_of_year(st.year as int, st.month as int, st.day as int),
                st.hour * 60 + st.minute,
                args.base,
            ))),
        args.from matches Some(f) ==> (spec_parse(f@) is None ==> r == Result::<
            String,
            TsError,
        >::Err(TsError::ParseFailure)),
        args.from matches Some(f) ==> (spec_parse(f@) matches Some(ParsedStamp::Naive { parts })
            ==> match r {
            Ok(tok) => tok@ == spec_token(
                spec_yy(parts.year as int),
                spec_day_of_year(parts.year as int, parts.month as int, parts.day as int),
                parts.hour * 60 + parts.minute,
                args.base,
            ),
            Err(e) => e == TsError::AmbiguousLocalTime,
        }),
        args.from matches Some(f) ==> (spec_parse(f@) matches Some(
            ParsedStamp::Offset { parts, offset_secs },
        ) ==> r matches Ok(tok) && (exists|st: LocalStamp|
            st.wf() && st.epoch() == spec_epoch_of(
                parts.year as int,
                parts.month as int,
                parts.day as int,
                parts.hour as int,
                parts.minute as int,
                parts.second as int,
                offset_secs as int,
            ) && tok@ == #[trigger] spec_token(
                spec_yy(st.year as int),
                spec_day_of_year(st.year as int, st.month as int, st.day as int),
                st.hour * 60 + st.minute,
                args.base,
            ))),
{
    let st = match &args.from {
        Some(f) => {
            match parse_flexible_timestamp(f.as_str()) {
                Ok(st) => st,
                Err(e) => { return Err(e) },
            }
        },
        None => now_local(),
    };
    let tok = generate_token(&st, args.base);
    proof {
        assert(st.wf() && tok@ == spec_token(
            spec_yy(st.year as int),
            spec_day_of_year(st.year as int, st.month as int, st.day as int),
            st.hour * 60 + st.minute,
            args.base,
        ));
    }
    Ok(tok)
}

/// Expands the first compact token found in the input and renders it with
/// the format template: the template is validated first, then the token
/// is located, decoded and checked, and the resolved local time is
/// rendered.  Each failure reports the error of the step that refused.
pub fn expand_command(args: &ExpandArgs) -> (r: Result<String, TsError>)
    ensures
        spec_has_sub_minute(args.format@) ==> r == Result::<String, TsError>::Err(
            TsError::InvalidFormatTemplate,
        ),
        !spec_has_sub_minute(args.format@) ==> (spec_find_token(args.input_string@, args.base)
            is None <==> r == Result::<String, TsError>::Err(TsError::NoTokenFound)),
        spec_find_token(args.input_string@, args.base) matches Some(i) ==> (!spec_has_sub_minute(
            args.format@,
        ) ==> ({
            let yy = num_at(args.input_string@, i, 2);
            let doy = num_at(args.input_string@, i + 3, 3);
            let mv = spec_from_base(
                args.input_string@.subrange(i + 7, i + 10),
                args.base.spec_radix() as int,
            );
            let md = spec_month_day_of_doy(2000 + yy, doy);
            &&& (mv >= 1440 ==> r == Result::<String, TsError>::Err(
                TsError::InvalidMinutes(mv as u32),
            ))
            &&& (mv < 1440 && !(1 <= doy <= spec_days_in_year(2000 + yy)) ==> r == Result::<
                String,
                TsError,
            >::Err(TsError::InvalidDayOfYear(doy as u32)))
            &&& (mv < 1440 && 1 <= doy <= spec_days_in_year(2000 + yy) ==> (match r {
                Ok(out) => exists|off: int|
                    -86400 < off < 86400 && Some(out@) == #[trigger] spec_rendered(
                        args.format@,
                        2000 + yy,
                        md.0,
                        md.1,
                        mv / 60,
                        mv % 60,
                        off,
                    ),
                Err(e) => e == TsError::AmbiguousLocalTime || (e
                    == TsError::InvalidFormatTemplate && exists|off: int|
                    -86400 < off < 86400 && (#[trigger] spec_rendered(
                        args.format@,
                        2000 + yy,
                        md.0,
                        md.1,
                        mv / 60,
                        mv % 60,
                        off,
                    )) is None),
            }))
        })),
{
    match validate_format_string(args.format.as_str()) {
        Ok(()) => (),
        Err(e) => { return Err(e) },
    }
    let st = match expand_to_stamp(args.input_string.as_str(), args.base) {
        Ok(st) => st,
        Err(e) => { return Err(e) },
    };
    match render_local(
        args.format.as_str(),
        st.year,
        st.month,
        st.day,
        st.hour,
        st.minute,
        st.offset_secs,
    ) {
        Some(out) => {
            proof {
                let s = args.input_string@;
                let b = args.base;
                if let Some(i) = spec_find_token(s, b) {
                    let yy = num_at(s, i, 2);
                    let doy = num_at(s, i + 3, 3);
                    let mv = spec_from_base(s.subrange(i + 7, i + 10), b.spec_radix() as int);
                    let md = spec_month_day_of_doy(2000 + yy, doy);
                    if mv < 1440 && 1 <= doy <= spec_days_in_year(2000 + yy) {
                        assert(Some(out@) == spec_rendered(
                            args.format@,
                            2000 + yy,
                            md.0,
                            md.1,
                            mv / 60,
                            mv % 60,
                            st.offset_secs as int,
                        ));
                    }
                }
            }
            Ok(out)
        },
        None => {
            proof {
                let s = args.input_string@;
                let b = args.base;
                if let Some(i) = spec_find_token(s, b) {
                    let yy = num_at(s, i, 2);
                    let doy = num_at(s, i + 3, 3);
                    let mv = spec_from_base(s.subrange(i + 7, i + 10), b.spec_radix() as int);
                    let md = spec_month_day_of_doy(2000 + yy, doy);
                    if mv < 1440 && 1 <= doy <= spec_days_in_year(2000 + yy) {
                        assert(spec_rendered(
                            args.format@,
                            2000 + yy,
                            md.0,
                            md.1,
                            mv / 60,
                            mv % 60,
                            st.offset_secs as int,
                        ) is None);
                    }
                }
            }
            Err(TsError::InvalidFormatTemplate)
        },
    }
}


/// The round trip: expanding the token generated from a local point in
/// time of the years 2000 to 2099 recovers that point to the minute, in
/// either supported base.  The generated token is itself the leftmost
/// token of its own text, its year and day-of-year digits read back as
/// the stamp's year and day-of-year, its minutes field decodes below
/// 1440, and the recovered date and time equal the stamp's.
pub proof fn lemma_generate_expand_round_trip(st: LocalStamp, base: Base)
    requires
        st.wf(),
        2000 <= st.year <= 2099,
    ensures
        ({
            let yy = spec_yy(st.year as int);
            let doy = spec_day_of_year(st.year as int, st.month as int, st.day as int);
            let mv = st.hour * 60 + st.minute;
            let tok = spec_token(yy, doy, mv, base);
            &&& spec_find_token(tok, base) == Some(0int)
            &&& num_at(tok, 0, 2) == st.year - 2000
            &&& num_at(tok, 3, 3) == doy
            &&& spec_from_base(tok.subrange(7, 10), base.spec_radix() as int) == mv
            &&& 0 <= mv < 1440
            &&& 1 <= doy <= spec_days_in_year(2000 + num_at(tok, 0, 2))
            &&& spec_month_day_of_doy(2000 + num_at(tok, 0, 2), num_at(tok, 3, 3)) == (
                st.month as int,
                st.day as int,
            )
            &&& mv / 60 == st.hour
            &&& mv % 60 == st.minute
        }),
{
    let y = st.year as int;
    let yy = spec_yy(y);
    let doy = spec_day_of_year(y, st.month as int, st.day as int);
    let mv: int = st.hour * 60 + st.minute;
    let radix = base.spec_radix() as int;
    let tok = spec_token(yy, doy, mv, base);
    assert(yy == y - 2000) by (nonlinear_arith)
        requires
            2000 <= y <= 2099,
            yy == y % 100,
    ;
    crate::calendar::lemma_day_of_year_in_range(y, st.month as int, st.day as int);
    crate::calendar::lemma_doy_round_trip(y, st.month as int, st.day as int);
    assert(mv < 1440);
    crate::codec::lemma_encoded_len(mv as u32, base.spec_radix());
    crate::codec::lemma_decode_encode(mv as u32, base.spec_radix());
    crate::codec::lemma_encoded_shape(mv as nat, base.spec_radix() as nat);
    let enc = spec_encoded(mv as nat, base.spec_radix() as nat);
    crate::codec::lemma_pad3_value(enc, radix);
    let pad = spec_pad3(enc);
    assert(pad.len() == 3);
    assert(tok.len() == 10);
    assert(tok[0] == digit_char(yy / 10));
    assert(tok[1] == digit_char(yy % 10));
    assert(tok[2] == '-');
    assert(tok[3] == digit_char(doy / 100));
    assert(tok[4] == digit_char((doy / 10) % 10));
    assert(tok[5] == digit_char(doy % 10));
    assert(tok[6] == '-');
    assert(tok[7] == pad[0] && tok[8] == pad[1] && tok[9] == pad[2]);
    assert(tok.subrange(7, 10) =~= pad);
    assert(0 <= yy / 10 <= 9 && 0 <= yy % 10 <= 9);
    assert(0 <= doy / 100 <= 9 && 0 <= (doy / 10) % 10 <= 9 && 0 <= doy % 10 <= 9);
    assert forall|j: int| 0 <= j < pad.len() implies token_char(#[trigger] pad[j], base) by {
        if enc.len() < 3 && j < 3 - enc.len() {
            assert(pad[j] == '0');
        } else {
            let k = if enc.len() < 3 {
                j - (3 - enc.len())
            } else {
                j
            };
            assert(pad[j] == enc[k]);
            assert(digit_val(enc[k]) < radix);
            assert(('0' <= enc[k] && enc[k] <= '9') || ('A' <= enc[k] && enc[k] <= 'Z'));
        }
    }
    assert(digs(tok, 0, 2));
    assert(digs(tok, 3, 3));
    assert(token_at(tok, 0, base));
    assert(spec_find_token(tok, base) == Some(0int));
    assert(num_at(tok, 0, 0) == 0);
    assert(num_at(tok, 0, 1) == dv(tok[0]));
    assert(num_at(tok, 0, 2) == dv(tok[0]) * 10 + dv(tok[1]));
    assert(dv(tok[0]) == yy / 10 && dv(tok[1]) == yy % 10);
    assert((yy / 10) * 10 + yy % 10 == yy) by (nonlinear_arith)
        requires
            0 <= yy <= 99,
    ;
    assert(num_at(tok, 3, 0) == 0);
    assert(num_at(tok, 3, 1) == dv(tok[3]));
    assert(num_at(tok, 3, 2) == dv(tok[3]) * 10 + dv(tok[4]));
    assert(num_at(tok, 3, 3) == (dv(tok[3]) * 10 + dv(tok[4])) * 10 + dv(tok[5]));
    assert(((doy / 100) * 10 + (doy / 10) % 10) * 10 + doy % 10 == doy) by (nonlinear_arith)
        requires
            0 <= doy <= 999,
    ;
    assert(spec_from_base(tok.subrange(7, 10), radix) == mv);
    assert(mv / 60 == st.hour && mv % 60 == st.minute) by (nonlinear_arith)
        requires
            mv == st.hour * 60 + st.minute,
            0 <= st.hour < 24,
            0 <= st.minute < 60,
    ;
}

} // verus!



