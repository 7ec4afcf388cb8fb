//! Volume resolution: absolute targets and clamped `+`/`-` deltas.
use vstd::prelude::*;

use crate::Error;
use crate::text::parse_signed;
use crate::text::parse_signed_str;

verus! {

/// A string's value as a signed 8-bit integer, the way `str::parse` reads
/// it: optional sign, digits, value within `i8` range.
pub open spec fn parse_i8_val(s: Seq<char>) -> Option<int> {
    match parse_signed(s) {
        Some(v) => if -128 <= v <= 127 {
            Some(v)
        } else {
            None
        },
        None => None,
    }
}

/// The volume a command string asks for, given the current volume:
/// `+d` adds with the sum capped at 100, `-d` subtracts with the
/// difference floored at 0 (an 8-bit overflow of the subtraction falls
/// back to 100), and anything else is an absolute target, read as 0 when
/// it does not parse. `None` when a `+`/`-` delta does not parse.
pub open spec fn volume_target(current: i8, s: Seq<char>) -> Option<int> {
    if s.len() > 0 && s[0] == '+' {
        match parse_i8_val(s.subrange(1, s.len() as int)) {
            Some(d) => Some(
                if current + d > 100 {
                    100
                } else {
                    current + d
                },
            ),
            None => None,
        }
    } else if s.len() > 0 && s[0] == '-' {
        match parse_i8_val(s.subrange(1, s.len() as int)) {
            Some(d) => Some(
                if current - d > 127 {
                    100
                } else if current - d < 0 {
                    0
                } else {
                    current - d
                },
            ),
            None => None,
        }
    } else {
        match parse_i8_val(s) {
            Some(v) => Some(v),
            None => Some(0),
        }
    }
}

/// Reads the tail of `input` (after its sign character) as an `i8` delta.
fn parse_delta(input: &str) -> (r: Option<i8>)
    requires
        input@.len() >= 1,
    ensures
        match r {
            Some(d) => parse_i8_val(input@.subrange(1, input@.len() as int)) == Some(d as int),
            None => parse_i8_val(input@.subrange(1, input@.len() as int)) is None,
        },
{
    let n = input.unicode_len();
    let rest = input.substring_char(1, n);
    let parsed = parse_signed_str(rest);
    match parsed {
        Some(v) => {
            if -128 <= v && v <= 127 {
                Some(v as i8)
            } else {
                None
            }
        },
        None => None,
    }
}

/// Resolves a volume command string against the current volume, yielding
/// the target the daemon should be set to; a `+`/`-` delta that does not
/// parse as a signed 8-bit integer is rejected.
pub fn resolve_volume(current: i8, input: &str) -> (r: Result<i8, Error>)
    requires
        0 <= current <= 100,
    ensures
        match r {
            Ok(v) => volume_target(current, input@) == Some(v as int),
            Err(e) => {
                &&& volume_target(current, input@) is None
                &&& e is InvalidVolumeDelta
            },
        },
{
    let n = input.unicode_len();
    if n == 0 {
        return Ok(0);
    }
    let first = input.get_char(0);
    if first == '+' {
        match parse_delta(input) {
            Some(d) => {
                let sum: i16 = current as i16 + d as i16;
                if sum > 100 {
                    Ok(100)
                } else {
                    Ok(sum as i8)
                }
            },
            None => Err(Error::InvalidVolumeDelta),
        }
    } else if first == '-' {
        match parse_delta(input) {
            Some(d) => {
                let diff: i16 = current as i16 - d as i16;
                if diff > 127 {
                    Ok(100)
                } else if diff < 0 {
                    Ok(0)
                } else {
                    Ok(diff as i8)
                }
            },
            None => Err(Error::InvalidVolumeDelta),
        }
    } else {
        let parsed = parse_signed_str(input);
        match parsed {
            Some(v) => {
                if -128 <= v && v <= 127 {
                    Ok(v as i8)
                } else {
                    Ok(0)
                }
            },
            None => Ok(0),
        }
    }
}

} // verus!
