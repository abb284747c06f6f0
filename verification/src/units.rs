//! Length units.
//!
//! `Meters` is the library's length type: a fixed-point count of
//! millimeters. Elevation strings are decimal meters, or decimal feet when
//! they carry a `ft` suffix (surrounding whitespace allowed before the
//! suffix), converted at 1 ft = 304.8 mm with truncation toward zero.

use vstd::prelude::*;
use crate::Error;
use crate::parse::{
    body_of, mag_shape, mag_val, parse_scaled, scaled_of, sign_of,
};

verus! {

/// A length in millimeters (fixed-point meters).
#[derive(Debug, Clone, Copy, PartialEq, Eq, Structural)]
pub struct Meters(pub i64);

/// A length displayed as feet.
#[derive(Debug, Clone, Copy)]
pub struct Feet(pub Meters);

/// A length displayed as miles.
#[derive(Debug, Clone, Copy)]
pub struct Miles(pub Meters);

/// A length displayed as kilometers.
#[derive(Debug, Clone, Copy)]
pub struct Kilometers(pub Meters);

/// A length tagged with the unit it should be displayed in.
#[derive(Debug, Clone, Copy)]
pub enum Unit {
    Meters(Meters),
    Kilometers(Kilometers),
    Feet(Feet),
    Miles(Miles),
}

/// `c` is ASCII whitespace.
pub open spec fn is_space(c: char) -> bool {
    c == ' ' || c == '\t' || c == '\n' || c == '\r' || c as u32 == 11 || c as u32 == 12
}

/// `s` with leading whitespace removed.
pub open spec fn lstrip(s: Seq<char>) -> Seq<char>
    decreases s.len(),
{
    if s.len() > 0 && is_space(s[0]) {
        lstrip(s.skip(1))
    } else {
        s
    }
}

/// `s` with trailing whitespace removed.
pub open spec fn rstrip(s: Seq<char>) -> Seq<char>
    decreases s.len(),
{
    if s.len() > 0 && is_space(s.last()) {
        rstrip(s.drop_last())
    } else {
        s
    }
}

/// `s` with surrounding whitespace removed.
pub open spec fn trimmed(s: Seq<char>) -> Seq<char> {
    rstrip(lstrip(s))
}

/// The string ends in `ft`.
pub open spec fn has_ft_suffix(s: Seq<char>) -> bool {
    s.len() >= 2 && s[s.len() - 2] == 'f' && s[s.len() - 1] == 't'
}

/// Millimeters denoted by the elevation string `s`, or `None` when `s` is
/// not a decimal length or its magnitude falls outside the fixed-point
/// range (meters: magnitude at scale 3 up to `i64::MAX` millimeters; feet:
/// magnitude at scale 4 up to `u64::MAX` before conversion).
pub open spec fn meters_of(s: Seq<char>) -> Option<int> {
    if has_ft_suffix(s) {
        let b = trimmed(s.take(s.len() - 2));
        if mag_shape(body_of(b)) && mag_val(body_of(b), 4) <= u64::MAX {
            let mm = mag_val(body_of(b), 4) * 3048 / 100000;
            Some(
                if sign_of(b) {
                    -mm
                } else {
                    mm
                },
            )
        } else {
            None
        }
    } else {
        match scaled_of(s, 3) {
            Some(v) => if -(i64::MAX as int) <= v <= i64::MAX as int {
                Some(v)
            } else {
                None
            },
            None => None,
        }
    }
}

/// `c` is ASCII whitespace (runtime check mirroring `is_space`).
fn space_at(s: &str, i: usize) -> (b: bool)
    requires
        i < s@.len(),
    ensures
        b == is_space(s@[i as int]),
{
    let c = s.get_char(i);
    c == ' ' || c == '\t' || c == '\n' || c == '\r' || (c as u32) == 11 || (c as u32) == 12
}

/// Removes surrounding whitespace.
fn trim_str<'a>(s: &'a str) -> (r: &'a str)
    ensures
        r@ == trimmed(s@),
{
    let len = s.unicode_len();
    let mut i: usize = 0;
    proof {
        assert(s@.skip(0) =~= s@);
    }
    while i < len && space_at(s, i)
        invariant
            0 <= i <= len,
            len == s@.len(),
            lstrip(s@) == lstrip(s@.skip(i as int)),
        decreases len - i,
    {
        proof {
            assert(s@.skip(i as int).skip(1) =~= s@.skip(i + 1));
            assert(s@.skip(i as int)[0] == s@[i as int]);
        }
        i = i + 1;
    }
    proof {
        if i == len {
            assert(s@.skip(i as int) =~= Seq::<char>::empty());
        }
        assert(lstrip(s@) == s@.skip(i as int));
    }
    let mut j: usize = len;
    while j > i && space_at(s, j - 1)
        invariant
            i <= j <= len,
            len == s@.len(),
            lstrip(s@) == s@.skip(i as int),
            rstrip(s@.skip(i as int)) == rstrip(s@.subrange(i as int, j as int)),
        decreases j,
    {
        proof {
            assert(s@.subrange(i as int, j as int).drop_last() =~= s@.subrange(
                i as int,
                j - 1,
            ));
            assert(s@.subrange(i as int, j as int).last() == s@[j - 1]);
        }
        j = j - 1;
    }
    proof {
        if j == i {
            assert(s@.subrange(i as int, j as int) =~= Seq::<char>::empty());
        } else {
            assert(s@.subrange(i as int, j as int).last() == s@[j - 1]);
        }
        assert(rstrip(s@.subrange(i as int, j as int)) == s@.subrange(i as int, j as int));
    }
    let r = s.substring_char(i, j);
    proof {
        assert(s@.skip(i as int) =~= s@.subrange(i as int, len as int));
    }
    r
}

impl Meters {
    /// Reads an elevation string: decimal meters, or decimal feet with a
    /// `ft` suffix, truncated to whole millimeters.
    pub fn from_str(s: &str) -> (r: Result<Meters, Error>)
        ensures
            match meters_of(s@) {
                Some(v) => r == Ok::<Meters, Error>(Meters(v as i64)),
                None => r == Err::<Meters, Error>(Error::InvalidElevation),
            },
    {
        let len = s.unicode_len();
        if len >= 2 && s.get_char(len - 2) == 'f' && s.get_char(len - 1) == 't' {
            let stripped = s.substring_char(0, len - 2);
            proof {
                assert(stripped@ =~= s@.take(s@.len() - 2));
            }
            let body = trim_str(stripped);
            match parse_scaled(body, 4) {
                Some((neg, mag)) => {
                    let mm_wide: u128 = (mag as u128) * 3048 / 100000;
                    proof {
                        assert(mm_wide <= u64::MAX as u128 * 3048 / 100000);
                        assert(mm_wide <= i64::MAX as u128);
                    }
                    let mm = mm_wide as i64;
                    if neg {
                        Ok(Meters(-mm))
                    } else {
                        Ok(Meters(mm))
                    }
                }
                None => Err(Error::InvalidElevation),
            }
        } else {
            match parse_scaled(s, 3) {
                Some((neg, mag)) => {
                    if mag <= i64::MAX as u64 {
                        if neg {
                            Ok(Meters(-(mag as i64)))
                        } else {
                            Ok(Meters(mag as i64))
                        }
                    } else {
                        Err(Error::InvalidElevation)
                    }
                }
                None => Err(Error::InvalidElevation),
            }
        }
    }
}

} // verus!
