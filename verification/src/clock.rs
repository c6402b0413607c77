//! The wall clock, and the UTC time of day shown in the operation log.

use vstd::prelude::*;
use crate::num::{decimal, push_decimal};

verus! {

/// `SystemTime::now()` measured with `duration_since(UNIX_EPOCH)`, in whole seconds;
/// `None` where the clock is set before the epoch (the error of `duration_since`).
/// Nothing is claimed of the value: it is the time.
#[verifier::external_body]
fn unix_now_secs() -> Option<u64> {
    match std::time::SystemTime::now().duration_since(std::time::UNIX_EPOCH) {
        Ok(d) => Some(d.as_secs()),
        Err(_) => None,
    }
}

/// The current time in whole seconds since the UNIX epoch, the instant requests are
/// signed at; `None` for a clock set before the epoch, which the explorer cannot work
/// with.
pub fn now_secs() -> (r: Option<u64>) {
    unix_now_secs()
}

/// `{:02}`: at least two digits, a leading zero for values below ten.
pub open spec fn two_digits(n: nat) -> Seq<char> {
    if n < 10 {
        seq!['0'] + decimal(n)
    } else {
        decimal(n)
    }
}

/// `HH:MM:SS` (UTC) of the instant `secs` seconds after the epoch.
pub open spec fn hms_spec(secs: u64) -> Seq<char> {
    two_digits(((secs / 3600) % 24) as nat) + seq![':'] + two_digits(((secs / 60) % 60) as nat)
        + seq![':'] + two_digits((secs % 60) as nat)
}

fn push_two_digits(s: &mut String, n: u64)
    ensures
        final(s)@ == old(s)@ + two_digits(n as nat),
{
    if n < 10 {
        s.append("0");
        proof {
            reveal_strlit("0");
        }
    }
    push_decimal(s, n);
    assert(final(s)@ =~= old(s)@ + two_digits(n as nat));
}

/// The time of day, `HH:MM:SS` in UTC, of the instant `secs` seconds after the epoch.
pub fn hms_utc(secs: u64) -> (r: String)
    ensures
        r@ == hms_spec(secs),
{
    let mut r = String::new();
    push_two_digits(&mut r, (secs / 3600) % 24);
    r.append(":");
    push_two_digits(&mut r, (secs / 60) % 60);
    r.append(":");
    push_two_digits(&mut r, secs % 60);
    proof {
        reveal_strlit(":");
    }
    assert(r@ =~= hms_spec(secs));
    r
}

/// The current time of day, `HH:MM:SS` in UTC; `None` for a clock set before the epoch.
pub fn now_hms_utc() -> (r: Option<String>)
    ensures
        r matches Some(t) ==> exists|secs: u64| t@ == hms_spec(secs),
{
    match unix_now_secs() {
        Some(secs) => Some(hms_utc(secs)),
        None => None,
    }
}

} // verus!
