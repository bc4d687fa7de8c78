//! Configuration tokens: `start:end:timeout_ms` key-range entries and the
//! prefixed device filters (`s:` starts-with, `e:` ends-with, `c:` contains,
//! no prefix: equals).

use vstd::prelude::*;

use crate::strings::{contains_seq, str_contains, str_ends_with, str_eq, str_starts_with};

verus! {

/// An inclusive range of key codes and the debounce window, in milliseconds,
/// assigned to each code in it.
#[derive(Debug, Clone, Copy, PartialEq, Eq, Structural)]
pub struct KeyRangeTimeout {
    pub start: u16,
    pub end: u16,
    pub timeout_ms: u16,
}

/// Why a `start:end:timeout_ms` token was rejected.
#[derive(Debug, Clone, Copy, PartialEq, Eq, Structural)]
pub enum KeyRangeParseError {
    /// Fewer than three `:`-separated fields.
    WrongFieldCount,
    /// A field is not an unsigned decimal number in range (a fourth `:`
    /// ends up inside the third field and lands here too).
    InvalidNumber,
    /// `start` exceeds `end`: the range holds no key code.
    EmptyRange,
    /// A timeout of zero would filter nothing and is rejected.
    ZeroTimeout,
}

/// A device-metadata filter, matched against a name, path or physical path.
#[derive(Debug, Clone)]
pub enum StringFilter {
    StartsWith(String),
    Equals(String),
    Contains(String),
    EndsWith(String),
}

/// What it means for a filter to accept the string `s`.
pub open spec fn filter_matches(f: StringFilter, s: Seq<char>) -> bool {
    match f {
        StringFilter::StartsWith(p) => p@.is_prefix_of(s),
        StringFilter::Equals(p) => p@ == s,
        StringFilter::Contains(p) => contains_seq(s, p@),
        StringFilter::EndsWith(p) => p@.is_suffix_of(s),
    }
}

impl StringFilter {
    /// Whether this filter accepts `raw`.
    pub fn matches(&self, raw: &str) -> (r: bool)
        ensures
            r == filter_matches(*self, raw@),
    {
        match self {
            StringFilter::StartsWith(filter) => str_starts_with(raw, filter.as_str()),
            StringFilter::Equals(filter) => str_eq(raw, filter.as_str()),
            StringFilter::Contains(filter) => str_contains(raw, filter.as_str()),
            StringFilter::EndsWith(filter) => str_ends_with(raw, filter.as_str()),
        }
    }
}

/// A decimal digit.
pub open spec fn is_digit(c: char) -> bool {
    48 <= c as int <= 57
}

/// The numeric value of a digit.
pub open spec fn digit_value(c: char) -> int {
    c as int - 48
}

/// Every character of `s` is a decimal digit.
pub open spec fn all_digits(s: Seq<char>) -> bool {
    forall|i: int| 0 <= i < s.len() ==> is_digit(#[trigger] s[i])
}

/// The value of a digit string read in base ten.
pub open spec fn dec_value(s: Seq<char>) -> int
    decreases s.len(),
{
    if s.len() == 0 {
        0
    } else {
        dec_value(s.drop_last()) * 10 + digit_value(s.last())
    }
}

/// The value a non-empty, in-range digit string denotes; `None` otherwise.
pub open spec fn parse_digits_spec(digits: Seq<char>) -> Option<u16> {
    if digits.len() > 0 && all_digits(digits) && dec_value(digits) <= u16::MAX {
        Some(dec_value(digits) as u16)
    } else {
        None
    }
}

/// The value `str::parse::<u16>` accepts for `s`: an optional leading `+`,
/// then at least one digit, with the value within `u16` range.
pub open spec fn parse_u16_spec(s: Seq<char>) -> Option<u16> {
    parse_digits_spec(
        if s.len() > 0 && s[0] == '+' {
            s.drop_first()
        } else {
            s
        },
    )
}

/// The position of the first `:` at or after `from`, or the length when
/// there is none.
pub open spec fn find_colon(s: Seq<char>, from: int) -> int
    recommends
        0 <= from <= s.len(),
    decreases s.len() - from,
{
    if from >= s.len() {
        s.len() as int
    } else if s[from] == ':' {
        from
    } else {
        find_colon(s, from + 1)
    }
}

/// The outcome the token grammar assigns to `s`: split at the first two
/// colons (everything after the second colon is the third field), read the
/// three fields as `u16`, reject an inverted range and a zero timeout.
pub open spec fn parse_key_range_spec(s: Seq<char>) -> Result<KeyRangeTimeout, KeyRangeParseError> {
    let i = find_colon(s, 0);
    let j = find_colon(s, i + 1);
    if i == s.len() || j == s.len() {
        Err(KeyRangeParseError::WrongFieldCount)
    } else {
        let f1 = parse_u16_spec(s.subrange(0, i));
        let f2 = parse_u16_spec(s.subrange(i + 1, j));
        let f3 = parse_u16_spec(s.subrange(j + 1, s.len() as int));
        if f1 is None || f2 is None || f3 is None {
            Err(KeyRangeParseError::InvalidNumber)
        } else if f1->0 > f2->0 {
            Err(KeyRangeParseError::EmptyRange)
        } else if f3->0 == 0 {
            Err(KeyRangeParseError::ZeroTimeout)
        } else {
            Ok(KeyRangeTimeout { start: f1->0, end: f2->0, timeout_ms: f3->0 })
        }
    }
}

/// Finds the first `:` at or after `from`.
fn find_colon_exec(s: &str, from: usize) -> (idx: usize)
    requires
        from <= s@.len() <= usize::MAX,
    ensures
        idx == find_colon(s@, from as int),
        from <= idx <= s@.len(),
        idx < s@.len() ==> s@[idx as int] == ':',
{
    let len = s.unicode_len();
    let mut i: usize = from;
    while i < len
        invariant
            from <= i <= len,
            len == s@.len(),
            find_colon(s@, from as int) == find_colon(s@, i as int),
        decreases len - i,
    {
        if s.get_char(i) == ':' {
            return i;
        }
        i = i + 1;
    }
    len
}

/// Reads the characters of `s` between `from` and `to` as a `u16`, as
/// `str::parse::<u16>` would.
fn parse_u16_field(s: &str, from: usize, to: usize) -> (r: Option<u16>)
    requires
        from <= to <= s@.len() <= usize::MAX,
    ensures
        r == parse_u16_spec(s@.subrange(from as int, to as int)),
{
    let ghost field = s@.subrange(from as int, to as int);
    let start: usize = if from < to && s.get_char(from) == '+' {
        from + 1
    } else {
        from
    };
    let ghost digits = s@.subrange(start as int, to as int);
    proof {
        if from < to && s@[from as int] == '+' {
            assert(field.drop_first() =~= digits);
        } else {
            assert(field =~= digits);
        }
    }
    if start == to {
        return None;
    }
    // `acc` tracks the value of the digits read so far, pinned just above
    // `u16::MAX` once the value can no longer fit.
    let mut acc: u32 = 0;
    let mut i: usize = start;
    while i < to
        invariant
            start <= i <= to <= s@.len() <= usize::MAX,
            from <= to,
            digits == s@.subrange(start as int, to as int),
            parse_u16_spec(s@.subrange(from as int, to as int)) == parse_digits_spec(digits),
            all_digits(s@.subrange(start as int, i as int)),
            dec_value(s@.subrange(start as int, i as int)) <= u16::MAX ==> acc == dec_value(
                s@.subrange(start as int, i as int),
            ),
            dec_value(s@.subrange(start as int, i as int)) > u16::MAX ==> u16::MAX < acc
                <= 655359,
        decreases to - i,
    {
        let c = s.get_char(i);
        let cv = c as u32;
        if cv < 48 || cv > 57 {
            proof {
                assert(!is_digit(digits[i - start]));
            }
            return None;
        }
        proof {
            let pre = s@.subrange(start as int, i as int);
            let ext = s@.subrange(start as int, i + 1);
            assert(ext.drop_last() =~= pre);
            assert(ext.last() == s@[i as int]);
            assert(forall|m: int| 0 <= m < ext.len() ==> ext[m] == s@[start + m]);
        }
        if acc > 65535 {
            acc = 65536;
        } else {
            acc = acc * 10 + (cv - 48);
        }
        i = i + 1;
    }
    proof {
        assert(s@.subrange(start as int, i as int) =~= digits);
    }
    if acc > 65535 {
        None
    } else {
        Some(acc as u16)
    }
}

/// Parses a `start:end:timeout_ms` token.
pub fn parse_key_range(raw: &str) -> (r: Result<KeyRangeTimeout, KeyRangeParseError>)
    ensures
        r == parse_key_range_spec(raw@),
{
    let len = raw.unicode_len();
    let i = find_colon_exec(raw, 0);
    if i == len {
        return Err(KeyRangeParseError::WrongFieldCount);
    }
    let j = find_colon_exec(raw, i + 1);
    if j == len {
        return Err(KeyRangeParseError::WrongFieldCount);
    }
    let f1 = parse_u16_field(raw, 0, i);
    let f2 = parse_u16_field(raw, i + 1, j);
    let f3 = parse_u16_field(raw, j + 1, len);
    let start = match f1 {
        Some(v) => v,
        None => {
            return Err(KeyRangeParseError::InvalidNumber);
        }
    };
    let end = match f2 {
        Some(v) => v,
        None => {
            return Err(KeyRangeParseError::InvalidNumber);
        }
    };
    let timeout_ms = match f3 {
        Some(v) => v,
        None => {
            return Err(KeyRangeParseError::InvalidNumber);
        }
    };
    if start > end {
        return Err(KeyRangeParseError::EmptyRange);
    }
    if timeout_ms == 0 {
        return Err(KeyRangeParseError::ZeroTimeout);
    }
    Ok(KeyRangeTimeout { start, end, timeout_ms })
}

/// Parses a device filter token: `s:`, `e:` and `c:` select the prefix,
/// suffix and substring modes, anything else matches by equality.
pub fn parse_filter(raw: &str) -> (f: StringFilter)
    ensures
        raw@.len() >= 2 && raw@[0] == 's' && raw@[1] == ':' ==> (f matches StringFilter::StartsWith(p)
            && p@ == raw@.skip(2)),
        raw@.len() >= 2 && raw@[0] == 'e' && raw@[1] == ':' ==> (f matches StringFilter::EndsWith(p)
            && p@ == raw@.skip(2)),
        raw@.len() >= 2 && raw@[0] == 'c' && raw@[1] == ':' ==> (f matches StringFilter::Contains(p)
            && p@ == raw@.skip(2)),
        !(raw@.len() >= 2 && raw@[1] == ':' && (raw@[0] == 's' || raw@[0] == 'e' || raw@[0] == 'c'))
            ==> (f matches StringFilter::Equals(p) && p@ == raw@),
{
    let len = raw.unicode_len();
    if len >= 2 && raw.get_char(1) == ':' {
        let c0 = raw.get_char(0);
        if c0 == 's' || c0 == 'e' || c0 == 'c' {
            let rest = raw.substring_char(2, len).to_owned();
            proof {
                assert(rest@ =~= raw@.skip(2));
            }
            if c0 == 's' {
                return StringFilter::StartsWith(rest);
            }
            if c0 == 'e' {
                return StringFilter::EndsWith(rest);
            }
            return StringFilter::Contains(rest);
        }
    }
    StringFilter::Equals(raw.to_owned())
}

} // verus!
