//! Compact timestamp library.
//!
//! A compact timestamp is a 9-to-10 character token `YY-DOY-BASEMIN`: a
//! two-digit year, a three-digit day-of-year, and the minutes elapsed since
//! local midnight encoded in a configurable numeric base and zero-padded to
//! three characters.  The library generates such tokens from a point in time
//! and expands tokens found inside arbitrary text back into a rendered
//! date/time string.

use vstd::prelude::*;

pub mod calendar;
pub mod codec;
pub mod fmt_check;
pub mod parse;
pub mod token;
pub mod tz;

verus! {

/// The closed set of numeric bases the compact token supports.
#[derive(Clone, Copy, Debug, PartialEq, Eq, Structural)]
pub enum Base {
    /// Base 12: digits `0-9`, `A`, `B`; values up to 1439 fit in 3 digits.
    B12,
    /// Base 36: digits `0-9`, `A-Z`; values up to 1439 fit in 3 digits.
    B36,
}

impl Base {
    /// The radix of this base as an integer.
    pub open spec fn spec_radix(self) -> u32 {
        match self {
            Base::B12 => 12,
            Base::B36 => 36,
        }
    }

    /// Returns the radix, 12 or 36.
    pub fn radix(self) -> (r: u32)
        ensures
            r == self.spec_radix(),
            2 <= r <= 36,
    {
        match self {
            Base::B12 => 12,
            Base::B36 => 36,
        }
    }
}

/// Everything that can go wrong while generating or expanding a token.
///
/// Every operation surfaces failure as one of these values; verified code
/// never panics.
#[derive(Clone, Copy, Debug, PartialEq, Eq, Structural)]
pub enum TsError {
    /// No candidate format matched the timestamp string.
    ParseFailure,
    /// A naive local time falls in a fold or gap of the local timezone.
    AmbiguousLocalTime,
    /// A character outside the base's alphabet appeared where a digit was
    /// expected.
    InvalidDigit,
    /// The expand input contains no substring shaped like a compact token.
    NoTokenFound,
    /// The decoded minutes value (carried here) is 1440 or more.
    InvalidMinutes(u32),
    /// The day-of-year (carried here) has no calendar date in its year.
    InvalidDayOfYear(u32),
    /// The output format template asks for second or sub-second precision,
    /// or cannot be rendered.
    InvalidFormatTemplate,
}

/// Arguments of the generate operation: the numeric base, and optionally
/// an explicit timestamp string to convert instead of the current time.
#[derive(Clone, Debug)]
pub struct GenerateArgs {
    /// The numerical base to use for encoding the minutes since midnight.
    pub base: Base,
    /// A timestamp string to convert instead of using the current time.
    pub from: Option<String>,
}

/// Arguments of the expand operation: the text to search, the numeric base
/// to assume, and the output format template.
#[derive(Clone, Debug)]
pub struct ExpandArgs {
    /// The string containing the compact timestamp to expand.
    pub input_string: String,
    /// The numerical base to assume for the minutes component.
    pub base: Base,
    /// The output format for the expanded timestamp, in strftime
    /// placeholders.
    pub format: String,
}

} // verus!
