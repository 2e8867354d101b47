//! Validation of output format templates: a compact token only carries
//! minute resolution, so a template must not ask for seconds or finer.
//!
//! The strftime placeholders that render second- or sub-second-level
//! output are `%S` (seconds), `%s` (epoch seconds), `%f` (nanoseconds),
//! the composites `%T`, `%X`, `%c`, `%r` and `%+` (each expands to a form
//! with seconds), the pad-modified `%-S`, `%0S`, `%_S` and their `s`/`f`
//! counterparts, and the fraction forms `%.f`, `%3f`, `%6f`, `%9f`,
//! `%.3f`, `%.6f` and `%.9f`.  A template holding any of these character
//! sequences is rejected.

use vstd::prelude::*;

use crate::TsError;

verus! {

/// Whether `c` alone after `%` asks for second or sub-second output:
/// seconds, epoch seconds, nanoseconds, or a composite that expands to a
/// form with seconds.
pub open spec fn is_second_spec(c: char) -> bool {
    c == 'S' || c == 's' || c == 'f' || c == 'T' || c == 'X' || c == 'c' || c == 'r' || c == '+'
}

/// Whether `c` is a padding modifier, which may precede a numeric
/// placeholder such as seconds.
pub open spec fn is_pad_modifier(c: char) -> bool {
    c == '-' || c == '0' || c == '_'
}

/// Whether `c` names a numeric second-level placeholder a padding
/// modifier can apply to.
pub open spec fn is_second_numeric(c: char) -> bool {
    c == 'S' || c == 's' || c == 'f'
}

/// Whether `c` is a fraction width digit (`%3f`, `%.6f` and kin).
pub open spec fn is_frac_width(c: char) -> bool {
    c == '3' || c == '6' || c == '9'
}

/// Whether a second- or sub-second placeholder starts at position `i` of
/// `s`.
pub open spec fn sub_minute_at(s: Seq<char>, i: int) -> bool {
    &&& 0 <= i < s.len()
    &&& s[i] == '%'
    &&& ({
        ||| (i + 1 < s.len() && is_second_spec(s[i + 1]))
        ||| (i + 2 < s.len() && is_pad_modifier(s[i + 1]) && is_second_numeric(s[i + 2]))
        ||| (i + 2 < s.len() && s[i + 1] == '.' && s[i + 2] == 'f')
        ||| (i + 2 < s.len() && is_frac_width(s[i + 1]) && s[i + 2] == 'f')
        ||| (i + 3 < s.len() && s[i + 1] == '.' && is_frac_width(s[i + 2]) && s[i + 3] == 'f')
    })
}

/// Whether `s` requests second or sub-second precision anywhere.
pub open spec fn spec_has_sub_minute(s: Seq<char>) -> bool {
    exists|i: int| #[trigger] sub_minute_at(s, i)
}

/// Returns whether `c` alone after `%` asks for second-level output.
fn is_second_spec_char(c: char) -> (b: bool)
    ensures
        b == is_second_spec(c),
{
    c == 'S' || c == 's' || c == 'f' || c == 'T' || c == 'X' || c == 'c' || c == 'r' || c == '+'
}

/// Checks that the format template does not request second or sub-second
/// precision; such a template earns `InvalidFormatTemplate`, every other
/// string is accepted.
pub fn validate_format_string(format: &str) -> (r: Result<(), TsError>)
    ensures
        r is Ok <==> !spec_has_sub_minute(format@),
        r is Err ==> r == Result::<(), TsError>::Err(TsError::InvalidFormatTemplate),
{
    let len = format.unicode_len();
    let mut i: usize = 0;
    while i < len
        invariant
            len == format@.len(),
            i <= len,
            forall|j: int| j < i ==> !sub_minute_at(format@, j),
        decreases len - i,
    {
        if format.get_char(i) == '%' && i + 1 < len {
            let c1 = format.get_char(i + 1);
            if is_second_spec_char(c1) {
                proof {
                    assert(sub_minute_at(format@, i as int));
                }
                return Err(TsError::InvalidFormatTemplate);
            }
            if i + 2 < len {
                let c2 = format.get_char(i + 2);
                if (c1 == '-' || c1 == '0' || c1 == '_') && (c2 == 'S' || c2 == 's' || c2 == 'f') {
                    proof {
                        assert(sub_minute_at(format@, i as int));
                    }
                    return Err(TsError::InvalidFormatTemplate);
                }
                if c1 == '.' && c2 == 'f' {
                    proof {
                        assert(sub_minute_at(format@, i as int));
                    }
                    return Err(TsError::InvalidFormatTemplate);
                }
                if (c1 == '3' || c1 == '6' || c1 == '9') && c2 == 'f' {
                    proof {
                        assert(sub_minute_at(format@, i as int));
                    }
                    return Err(TsError::InvalidFormatTemplate);
                }
                if i + 3 < len && c1 == '.' && (c2 == '3' || c2 == '6' || c2 == '9')
                    && format.get_char(i + 3) == 'f' {
                    proof {
                        assert(sub_minute_at(format@, i as int));
                    }
                    return Err(TsError::InvalidFormatTemplate);
                }
            }
        }
        proof {
            assert(!sub_minute_at(format@, i as int));
        }
        i = i + 1;
    }
    Ok(())
}

/// A template in which every `%` is immediately followed by a year,
/// month, day, weekday, hour or minute placeholder is accepted: none of
/// those characters starts a second-level placeholder, a padding
/// modifier, or a fraction form.
pub proof fn lemma_plain_template_accepted(s: Seq<char>)
    requires
        forall|i: int|
            0 <= i < s.len() && #[trigger] s[i] == '%' ==> (i + 1 < s.len() && (s[i + 1] == 'Y'
                || s[i + 1] == 'y' || s[i + 1] == 'm' || s[i + 1] == 'B' || s[i + 1] == 'b' || s[i
                + 1] == 'd' || s[i + 1] == 'e' || s[i + 1] == 'j' || s[i + 1] == 'A' || s[i + 1]
                == 'a' || s[i + 1] == 'H' || s[i + 1] == 'M')),
    ensures
        !spec_has_sub_minute(s),
{
    assert forall|i: int| !sub_minute_at(s, i) by {
        if 0 <= i < s.len() && s[i] == '%' {
            assert(!is_second_spec(s[i + 1]));
            assert(!is_pad_modifier(s[i + 1]));
            assert(!is_frac_width(s[i + 1]));
        }
    }
}

} // verus!
