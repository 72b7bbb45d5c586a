//! The settings of the program's logging and the choice of the log files
//! that are old enough to be removed. Installing the subscriber and walking
//! the log folder is the program's part.

use vstd::prelude::*;
use crate::decimal::{all_digits, digits_value};
use crate::text::{digit_value, is_digit, string_of};

verus! {

/// The level filter: `debug` when verbose, else `info`.
pub open spec fn log_level_spec(verbose: bool) -> Seq<char> {
    if verbose {
        "debug"@
    } else {
        "info"@
    }
}

/// The level filter of the subscriber.
pub fn log_level(verbose: bool) -> (res: &'static str)
    ensures
        res@ == log_level_spec(verbose),
{
    if verbose {
        "debug"
    } else {
        "info"
    }
}

/// What `u64::from_str` accepts: an optional `+`, then at least one ASCII
/// digit, within the `u64` range.
pub open spec fn parse_u64_spec(s: Seq<char>) -> Option<nat> {
    let ds = if s.len() > 0 && s[0] == '+' {
        s.drop_first()
    } else {
        s
    };
    if ds.len() > 0 && all_digits(ds) && digits_value(ds) <= u64::MAX {
        Some(digits_value(ds))
    } else {
        None
    }
}

proof fn lemma_digits_value_grows(ds: Seq<char>, k: int)
    requires
        0 <= k <= ds.len(),
        all_digits(ds),
    ensures
        digits_value(ds.take(k)) <= digits_value(ds),
    decreases ds.len() - k,
{
    if k < ds.len() {
        let t = ds.take(k + 1);
        assert(t.drop_last() =~= ds.take(k));
        assert(is_digit(t.last()));
        lemma_digits_value_grows(ds, k + 1);
    } else {
        assert(ds.take(k) =~= ds);
    }
}

/// Reads `s` as `u64::from_str` does, keeping only whether it succeeded.
pub fn parse_u64(s: &str) -> (res: Option<u64>)
    ensures
        match res {
            Some(v) => parse_u64_spec(s@) == Some(v as nat),
            None => parse_u64_spec(s@) is None,
        },
{
    let v = crate::text::chars_of(s);
    let n = v.len();
    let start: usize = if n > 0 && v[0] == '+' {
        1
    } else {
        0
    };
    let ghost ds = v@.skip(start as int);
    proof {
        if start == 1 {
            assert(ds =~= s@.drop_first());
        } else {
            assert(ds =~= s@);
        }
    }
    if start == n {
        return None;
    }
    assert(ds.len() > 0);
    let mut acc: u64 = 0;
    let mut i = start;
    while i < n
        invariant
            start <= i <= n,
            start < n,
            n == v@.len(),
            v@ == s@,
            ds == v@.skip(start as int),
            parse_u64_spec(s@) == (if all_digits(ds) && digits_value(ds) <= u64::MAX {
                Some(digits_value(ds))
            } else {
                None
            }),
            all_digits(ds.take(i - start)),
            digits_value(ds.take(i - start)) == acc,
        decreases n - i,
    {
        let c = v[i];
        let ghost pre = ds.take(i - start);
        let ghost cur = ds.take(i - start + 1);
        proof {
            assert(cur.drop_last() =~= pre);
            assert(cur.last() == c);
        }
        if !('0' <= c && c <= '9') {
            proof {
                assert(ds[i - start] == c);
                assert(!all_digits(ds));
            }
            return None;
        }
        let d = (c as u32 - '0' as u32) as u128;
        let w: u128 = (acc as u128) * 10 + d;
        if w > u64::MAX as u128 {
            proof {
                assert(digits_value(cur) == w);
                if all_digits(ds) {
                    lemma_digits_value_grows(ds, i - start + 1);
                }
            }
            return None;
        }
        proof {
            assert(digits_value(cur) == w);
            assert forall|j: int| 0 <= j < cur.len() implies is_digit(#[trigger] cur[j]) by {
                if j < pre.len() {
                    assert(cur[j] == pre[j]);
                }
            }
        }
        acc = w as u64;
        i += 1;
    }
    assert(ds.take(n - start) =~= ds);
    Some(acc)
}

/// Where the log files go and how many days they are kept.
pub struct LogSettings {
    pub dir: String,
    pub days_to_keep: u64,
}

/// The settings from the values of `LOGGING_DIR` and `LOGGING_DAYS_TO_KEEP`:
/// the folder `logs` when the first is unset, and ten days when the second
/// is unset or not a number.
pub fn log_settings(dir_var: Option<String>, days_var: Option<String>) -> (res: LogSettings)
    ensures
        res.dir@ == match dir_var {
            Some(d) => d@,
            None => "logs"@,
        },
        res.days_to_keep == match days_var {
            Some(d) => match parse_u64_spec(d@) {
                Some(v) => v,
                None => 10,
            },
            None => 10,
        },
{
    let dir = match dir_var {
        Some(d) => d,
        None => string_of("logs"),
    };
    let days_to_keep = match days_var {
        Some(d) => match parse_u64(d.as_str()) {
            Some(v) => v,
            None => 10,
        },
        None => 10,
    };
    LogSettings { dir, days_to_keep }
}

/// The seconds in `days` days.
pub open spec fn max_age_secs(days: nat) -> nat {
    days * 86400
}

/// Whether a log folder entry is removed: it is a file whose age, read as
/// `(seconds, nanoseconds)` since it was last modified, exceeds the days it
/// is kept. An entry whose age could not be read stays.
pub open spec fn log_expired_spec(is_file: bool, age: Option<(u64, u32)>, days: nat) -> bool {
    &&& is_file
    &&& match age {
        Some((secs, nanos)) => secs > max_age_secs(days) || (secs == max_age_secs(days) && nanos
            > 0),
        None => false,
    }
}

/// Whether a log folder entry is old enough to be removed.
pub fn log_expired(is_file: bool, age: Option<(u64, u32)>, days_to_keep: u64) -> (res: bool)
    ensures
        res == log_expired_spec(is_file, age, days_to_keep as nat),
{
    // Past the `u64` range of seconds no file can be old enough.
    let max_age = match days_to_keep.checked_mul(86400) {
        Some(m) => m,
        None => return false,
    };
    if !is_file {
        return false;
    }
    match age {
        Some((secs, nanos)) => secs > max_age || (secs == max_age && nanos > 0),
        None => false,
    }
}

} // verus!
