//! Parsing of free-text GSM timestamps into the calendar-time record that
//! the RTC collaborator consumes.

use vstd::prelude::*;
use vstd::string::StringSliceAdditionalSpecFns;

verus! {

/// Calendar-time record exchanged with the GSM network and the RTC:
/// two-digit year, month, day, hour, minute, second.
#[derive(Clone, Copy, Debug, PartialEq, Eq, Structural)]
pub struct GsmTime {
    pub year: u8,
    pub month: u8,
    pub day: u8,
    pub hour: u8,
    pub minute: u8,
    pub second: u8,
}

/// ASCII decimal digit.
pub open spec fn spec_is_digit(b: u8) -> bool {
    48 <= b <= 57
}

pub open spec fn spec_all_digits(s: Seq<u8>) -> bool {
    forall|i: int| 0 <= i < s.len() ==> spec_is_digit(#[trigger] s[i])
}

/// Numeric value of a digit string, most significant digit first.
pub open spec fn spec_decimal_value(s: Seq<u8>) -> int
    decreases s.len(),
{
    if s.len() == 0 {
        0
    } else {
        spec_decimal_value(s.drop_last()) * 10 + (s.last() - 48)
    }
}

/// What `parse_u8` yields: the value of an all-digit string that fits in
/// a byte, and nothing else.
pub open spec fn spec_u8_of(s: Seq<u8>) -> Option<u8> {
    if spec_all_digits(s) && spec_decimal_value(s) <= 255 {
        Some(spec_decimal_value(s) as u8)
    } else {
        None
    }
}

/// What `parse_u16_to_u8_year` yields: the value of an all-digit string
/// that fits in sixteen bits, reduced to its last two decimal digits.
pub open spec fn spec_year_of(s: Seq<u8>) -> Option<u8> {
    if spec_all_digits(s) && spec_decimal_value(s) <= 65535 {
        Some((spec_decimal_value(s) % 100) as u8)
    } else {
        None
    }
}

/// The value of a digit string is never negative.
proof fn lemma_decimal_value_nonneg(s: Seq<u8>)
    requires
        spec_all_digits(s),
    ensures
        spec_decimal_value(s) >= 0,
    decreases s.len(),
{
    if s.len() > 0 {
        assert(spec_all_digits(s.drop_last()));
        lemma_decimal_value_nonneg(s.drop_last());
    }
}

/// The value of a prefix of a digit string never exceeds the whole value.
proof fn lemma_decimal_prefix_le(s: Seq<u8>, i: int)
    requires
        spec_all_digits(s),
        0 <= i <= s.len(),
    ensures
        0 <= spec_decimal_value(s.take(i)) <= spec_decimal_value(s),
    decreases s.len() - i,
{
    assert(spec_all_digits(s.take(i)));
    lemma_decimal_value_nonneg(s.take(i));
    if i < s.len() {
        lemma_decimal_prefix_le(s, i + 1);
        assert(s.take(i + 1).drop_last() =~= s.take(i));
        assert(s.take(i + 1).last() == s[i]);
        lemma_decimal_value_nonneg(s.take(i + 1));
    } else {
        assert(s.take(i) =~= s);
    }
}

impl GsmTime {
    /// Decimal parse of a byte string into a `u8`; fails on any non-digit
    /// byte and on any value that does not fit.  The empty string parses
    /// to zero.
    pub fn parse_u8(s: &[u8]) -> (r: Option<u8>)
        ensures
            r == spec_u8_of(s@),
    {
        let n = s.len();
        let mut result: u8 = 0;
        let mut i: usize = 0;
        while i < n
            invariant
                n == s@.len(),
                i <= n,
                spec_all_digits(s@.take(i as int)),
                result == spec_decimal_value(s@.take(i as int)),
            decreases n - i,
        {
            let byte = s[i];
            if byte < 48 || byte > 57 {
                return None;
            }
            let digit = byte - 48;
            proof {
                assert(s@.take(i + 1).drop_last() =~= s@.take(i as int));
                assert(s@.take(i + 1).last() == s@[i as int]);
            }
            if result > 25 {
                proof {
                    if spec_all_digits(s@) {
                        lemma_decimal_prefix_le(s@, i + 1);
                    }
                    assert(s@.take(n as int) =~= s@);
                }
                return None;
            }
            let shifted = result * 10;
            if 255 - shifted < digit {
                proof {
                    if spec_all_digits(s@) {
                        lemma_decimal_prefix_le(s@, i + 1);
                    }
                    assert(s@.take(n as int) =~= s@);
                }
                return None;
            }
            result = shifted + digit;
            i = i + 1;
        }
        proof {
            assert(s@.take(n as int) =~= s@);
        }
        Some(result)
    }

    /// Decimal parse into sixteen bits, reduced modulo 100: a four-digit
    /// year collapses to its two-digit form.
    pub fn parse_u16_to_u8_year(s: &[u8]) -> (r: Option<u8>)
        ensures
            r == spec_year_of(s@),
    {
        let n = s.len();
        let mut result: u16 = 0;
        let mut i: usize = 0;
        while i < n
            invariant
                n == s@.len(),
                i <= n,
                spec_all_digits(s@.take(i as int)),
                result == spec_decimal_value(s@.take(i as int)),
            decreases n - i,
        {
            let byte = s[i];
            if byte < 48 || byte > 57 {
                return None;
            }
            let digit = (byte - 48) as u16;
            proof {
                assert(s@.take(i + 1).drop_last() =~= s@.take(i as int));
                assert(s@.take(i + 1).last() == s@[i as int]);
            }
            if result > 6553 {
                proof {
                    if spec_all_digits(s@) {
                        lemma_decimal_prefix_le(s@, i + 1);
                    }
                    assert(s@.take(n as int) =~= s@);
                }
                return None;
            }
            let shifted = result * 10;
            if 65535 - shifted < digit {
                proof {
                    if spec_all_digits(s@) {
                        lemma_decimal_prefix_le(s@, i + 1);
                    }
                    assert(s@.take(n as int) =~= s@);
                }
                return None;
            }
            result = shifted + digit;
            i = i + 1;
        }
        proof {
            assert(s@.take(n as int) =~= s@);
        }
        Some((result % 100) as u8)
    }
}

/// A byte as normalization leaves it: digits pass through, anything else
/// becomes a comma.
pub open spec fn spec_norm_byte(b: u8) -> u8 {
    if spec_is_digit(b) {
        b
    } else {
        44u8
    }
}

/// The normalized form of a timestamp: at most 31 bytes, digits kept,
/// every other byte replaced by a comma.
pub open spec fn spec_normalized(s: Seq<u8>) -> Seq<u8> {
    Seq::new(
        if s.len() <= 31 {
            s.len()
        } else {
            31nat
        },
        |i: int| spec_norm_byte(s[i]),
    )
}

/// One step of splitting at commas: a comma closes the current run (if
/// non-empty), any other byte extends it.
pub open spec fn spec_split_step(acc: (Seq<Seq<u8>>, Seq<u8>), b: u8) -> (Seq<Seq<u8>>, Seq<u8>) {
    if b == 44 {
        if acc.1.len() == 0 {
            acc
        } else {
            (acc.0.push(acc.1), Seq::empty())
        }
    } else {
        (acc.0, acc.1.push(b))
    }
}

/// The completed runs and the still-open run after scanning `s`.
pub open spec fn spec_split_state(s: Seq<u8>) -> (Seq<Seq<u8>>, Seq<u8>)
    decreases s.len(),
{
    if s.len() == 0 {
        (Seq::empty(), Seq::empty())
    } else {
        spec_split_step(spec_split_state(s.drop_last()), s.last())
    }
}

/// The non-empty comma-separated parts of `s`, in order.
pub open spec fn spec_parts(s: Seq<u8>) -> Seq<Seq<u8>> {
    let st = spec_split_state(s);
    if st.1.len() == 0 {
        st.0
    } else {
        st.0.push(st.1)
    }
}

/// What parsing a timestamp yields: normalize, split at non-digits, take
/// exactly six fields, parse each, and range-check the calendar values.
pub open spec fn spec_parse_gsm_time(bytes: Seq<u8>) -> Option<GsmTime> {
    let parts = spec_parts(spec_normalized(bytes));
    if parts.len() != 6 {
        None
    } else {
        let year_opt = if parts[0].len() > 2 {
            spec_year_of(parts[0])
        } else {
            spec_u8_of(parts[0])
        };
        match (year_opt, spec_u8_of(parts[1]), spec_u8_of(parts[2]), spec_u8_of(parts[3]),
            spec_u8_of(parts[4]), spec_u8_of(parts[5])) {
            (Some(year), Some(month), Some(day), Some(hour), Some(minute), Some(second)) => {
                if month < 1 || month > 12 || day < 1 || day > 31 || hour > 23 || minute > 59
                    || second > 59 {
                    None
                } else {
                    Some(GsmTime { year, month, day, hour, minute, second })
                }
            },
            _ => None,
        }
    }
}

impl GsmTime {
    /// Parse a free-text GSM timestamp such as `24/01/01,12:00:00+00`:
    /// digit runs become the six calendar fields, in order, and any other
    /// byte merely separates them.  Fails unless exactly six runs appear
    /// (within the first 31 bytes) and every field is in range.
    pub fn parse_gsm_time(&self, date: &str) -> (r: Option<GsmTime>)
        ensures
            r == spec_parse_gsm_time(date.spec_bytes()),
    {
        let bytes = date.as_bytes();
        let n = bytes.len();
        let ghost src = bytes@;

        // Normalization: keep digits, turn anything else into a comma,
        // stop after 31 bytes.
        let mut norm: Vec<u8> = Vec::new();
        let mut idx: usize = 0;
        while idx < n && idx < 31
            invariant
                n == src.len(),
                bytes@ == src,
                idx <= n,
                idx <= 31,
                norm@ =~= spec_normalized(src).take(idx as int),
            decreases n - idx,
        {
            let b = bytes[idx];
            if b >= 48 && b <= 57 {
                norm.push(b);
            } else {
                norm.push(44u8);
            }
            idx = idx + 1;
        }
        proof {
            assert(norm@ =~= spec_normalized(src));
        }

        // Split the normalized bytes at commas into non-empty runs.
        let mut parts: Vec<Vec<u8>> = Vec::new();
        let mut current: Vec<u8> = Vec::new();
        let mut i: usize = 0;
        while i < norm.len()
            invariant
                i <= norm@.len(),
                parts.deep_view() =~~= spec_split_state(norm@.take(i as int)).0,
                current@ =~= spec_split_state(norm@.take(i as int)).1,
            decreases norm@.len() - i,
        {
            proof {
                assert(norm@.take(i + 1).drop_last() =~= norm@.take(i as int));
                assert(norm@.take(i + 1).last() == norm@[i as int]);
            }
            let b = norm[i];
            if b == 44 {
                if current.len() > 0 {
                    let ghost pdv = parts.deep_view();
                    let ghost cur = current@;
                    parts.push(current);
                    current = Vec::new();
                    proof {
                        assert(parts.deep_view() =~~= pdv.push(cur));
                    }
                }
            } else {
                current.push(b);
            }
            i = i + 1;
        }
        proof {
            assert(norm@.take(norm@.len() as int) =~= norm@);
        }
        if current.len() > 0 {
            let ghost pdv = parts.deep_view();
            let ghost cur = current@;
            parts.push(current);
            proof {
                assert(parts.deep_view() =~~= pdv.push(cur));
            }
        }
        proof {
            assert(parts.deep_view() =~~= spec_parts(spec_normalized(src)));
        }

        // Exactly six fields, parsed and range-checked.
        if parts.len() != 6 {
            return None;
        }
        proof {
            assert forall|k: int| 0 <= k < 6 implies #[trigger] parts.deep_view()[k]
                =~= parts@[k]@ by {
            }
        }
        let year_opt = if parts[0].len() > 2 {
            Self::parse_u16_to_u8_year(parts[0].as_slice())
        } else {
            Self::parse_u8(parts[0].as_slice())
        };
        let year = match year_opt {
            Some(v) => v,
            None => {
                return None;
            },
        };
        let month = match Self::parse_u8(parts[1].as_slice()) {
            Some(v) => v,
            None => {
                return None;
            },
        };
        let day = match Self::parse_u8(parts[2].as_slice()) {
            Some(v) => v,
            None => {
                return None;
            },
        };
        let hour = match Self::parse_u8(parts[3].as_slice()) {
            Some(v) => v,
            None => {
                return None;
            },
        };
        let minute = match Self::parse_u8(parts[4].as_slice()) {
            Some(v) => v,
            None => {
                return None;
            },
        };
        let second = match Self::parse_u8(parts[5].as_slice()) {
            Some(v) => v,
            None => {
                return None;
            },
        };

        if month < 1 || month > 12 || day < 1 || day > 31 || hour > 23 || minute > 59 || second
            > 59 {
            return None;
        }

        Some(GsmTime { year, month, day, hour, minute, second })
    }
}

} // verus!
