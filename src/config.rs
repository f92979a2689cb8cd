//! The settings of a backup run: base file name and part size threshold.

use crate::date::CalendarDate;
use crate::naming::{base_filename, base_name};
use crate::segment::DEFAULT_SEGMENT_SIZE;
use vstd::prelude::*;
use vstd::string::*;

verus! {

/// Whether `c` is a decimal digit.
pub open spec fn is_digit(c: char) -> bool {
    '0' <= c && c <= '9'
}

/// Value of the decimal digits `s`, most significant first.
pub open spec fn digits_value(s: Seq<char>) -> nat
    decreases s.len(),
{
    if s.len() == 0 {
        0
    } else {
        digits_value(s.drop_last()) * 10 + (s.last() as nat - '0' as nat) as nat
    }
}

/// The digits of an unsigned number: what follows an optional `+`.
pub open spec fn unsigned_digits(s: Seq<char>) -> Seq<char> {
    if s.len() > 0 && s[0] == '+' {
        s.skip(1)
    } else {
        s
    }
}

/// The value of `s` read as an unsigned 64-bit decimal number, as std's
/// `u64::from_str` reads it: an optional `+`, then one digit or more.
pub open spec fn parse_u64(s: Seq<char>) -> Option<nat> {
    let d = unsigned_digits(s);
    if d.len() > 0 && (forall|i: int| 0 <= i < d.len() ==> #[trigger] is_digit(d[i]))
        && digits_value(d) <= u64::MAX {
        Some(digits_value(d))
    } else {
        None
    }
}

/// The part size threshold: the override when it reads as a positive number,
/// else the default of 4 GiB.
pub open spec fn segment_size_of(text: Option<Seq<char>>) -> nat {
    match text {
        Some(t) => match parse_u64(t) {
            Some(v) => if v > 0 { v } else { DEFAULT_SEGMENT_SIZE as nat },
            None => DEFAULT_SEGMENT_SIZE as nat,
        },
        None => DEFAULT_SEGMENT_SIZE as nat,
    }
}

/// A longer run of digits is worth at least as much as its prefix.
proof fn lemma_digits_value_grows(s: Seq<char>, k: int)
    requires
        0 <= k <= s.len(),
    ensures
        digits_value(s.take(k)) <= digits_value(s),
    decreases s.len() - k,
{
    if k < s.len() {
        lemma_digits_value_grows(s, k + 1);
        let t = s.take(k + 1);
        assert(t.drop_last() == s.take(k));
        let x = digits_value(s.take(k));
        let y = (t.last() as nat - '0' as nat) as nat;
        assert(x * 10 + y >= x) by (nonlinear_arith);
    } else {
        assert(s.take(k) == s);
    }
}

/// Reads `text` as an unsigned 64-bit decimal number.
fn parse_unsigned(text: &str) -> (r: Option<u64>)
    ensures
        r matches Some(v) ==> parse_u64(text@) == Some(v as nat),
        r is None ==> parse_u64(text@) is None,
{
    let n = text.unicode_len();
    let mut start: usize = 0;
    if n > 0 && text.get_char(0) == '+' {
        start = 1;
    }
    let ghost d = unsigned_digits(text@);
    assert(d == text@.skip(start as int));
    if start == n {
        return None;
    }
    let mut value: u64 = 0;
    let mut k: usize = start;
    while k < n
        invariant
            n == text@.len(),
            start <= k <= n,
            d == text@.skip(start as int),
            d == unsigned_digits(text@),
            forall|i: int| 0 <= i < k - start ==> #[trigger] is_digit(d[i]),
            value as nat == digits_value(d.take(k - start)),
        decreases n - k,
    {
        let c = text.get_char(k);
        if c < '0' || c > '9' {
            assert(d[k - start] == text@[k as int]);
            assert(!is_digit(d[k - start]));
            return None;
        }
        let digit = (c as u32 - '0' as u32) as u64;
        assert(d.take(k + 1 - start).drop_last() == d.take(k - start));
        if value > (u64::MAX - digit) / 10 {
            proof {
                lemma_digits_value_grows(d, k + 1 - start);
            }
            assert(digits_value(d.take(k + 1 - start)) > u64::MAX) by (nonlinear_arith)
                requires
                    value > (u64::MAX - digit) / 10,
                    digits_value(d.take(k + 1 - start)) == value * 10 + digit,
            ;
            assert(digits_value(d) > u64::MAX);
            return None;
        }
        value = value * 10 + digit;
        k = k + 1;
    }
    assert(d.take(n - start) == d);
    Some(value)
}

/// The part size threshold from an optional override: the override when it
/// reads as a positive number, otherwise 4 GiB. A malformed override is no error.
pub fn parse_segment_size(text: Option<&str>) -> (r: u64)
    ensures
        r as nat == segment_size_of(
            match text {
                Some(t) => Some(t@),
                None => None,
            },
        ),
        r > 0,
{
    match text {
        Some(t) => match parse_unsigned(t) {
            Some(v) => if v > 0 { v } else { DEFAULT_SEGMENT_SIZE },
            None => DEFAULT_SEGMENT_SIZE,
        },
        None => DEFAULT_SEGMENT_SIZE,
    }
}

/// Why the settings of a run could not be made.
#[derive(Clone, Copy, Debug, PartialEq, Eq)]
pub enum ConfigError {
    /// The home directory is not known.
    MissingHome,
}

/// The settings of one backup run, fixed before anything is written.
#[derive(Debug)]
pub struct BackupConfig {
    pub working_directory: String,
    pub home_directory: String,
    pub base_filename: String,
    pub segment_size: u64,
    pub date: CalendarDate,
}

/// The settings for the working directory `cwd`, the home directory `home`
/// (`None` when unknown), an optional part size override and the date.
pub fn resolve_config(cwd: &str, home: Option<&str>, size_override: Option<&str>, date: CalendarDate) -> (r:
    Result<BackupConfig, ConfigError>)
    requires
        date.is_valid(),
    ensures
        home is None <==> r == Err::<BackupConfig, ConfigError>(ConfigError::MissingHome),
        r matches Ok(c) ==> {
            &&& home matches Some(h) && c.home_directory@ == h@
            &&& c.working_directory@ == cwd@
            &&& c.base_filename@ == base_name(cwd@, c.home_directory@, date.iso())
            &&& c.segment_size as nat == segment_size_of(
                match size_override {
                    Some(t) => Some(t@),
                    None => None,
                },
            )
            &&& c.segment_size > 0
            &&& c.date == date
        },
{
    match home {
        None => Err(ConfigError::MissingHome),
        Some(h) => {
            let base = base_filename(cwd, h, &date);
            Ok(BackupConfig {
                working_directory: cwd.to_owned(),
                home_directory: h.to_owned(),
                base_filename: base,
                segment_size: parse_segment_size(size_override),
                date,
            })
        },
    }
}

} // verus!
