//! Change-journal naming: each accepted update is recorded in a file
//! under the change-file directory, named from the wall-clock time at
//! nanosecond resolution. The runner creates, fills and removes the
//! files; the name and path computations live here.

use vstd::prelude::*;

use crate::codec::{hex_char, hex_digit_str};

verus! {

/// The decimal rendering of `x`, most significant digit first, no
/// leading zeroes (a lone zero for 0). Decimal digits are the first
/// ten hexadecimal ones.
pub open spec fn dec_digits(x: nat) -> Seq<char>
    decreases x,
{
    if x < 10 {
        seq![hex_char(x as int)]
    } else {
        dec_digits(x / 10) + seq![hex_char((x % 10) as int)]
    }
}

/// The journal file name for a wall-clock instant:
/// `<seconds>.<nanoseconds>.txt`.
pub open spec fn change_name_of(secs: nat, nanos: nat) -> Seq<char> {
    dec_digits(secs) + seq!['.'] + dec_digits(nanos) + seq!['.', 't', 'x', 't']
}

/// Renders `x` in decimal.
fn dec_digits_string(x: u64) -> (s: String)
    ensures
        s@ =~= dec_digits(x as nat),
    decreases x,
{
    if x < 10 {
        String::from_str(hex_digit_str(x))
    } else {
        let mut s = dec_digits_string(x / 10);
        s.append(hex_digit_str(x % 10));
        s
    }
}

/// The journal file name derived from a number of whole seconds since
/// the epoch and the fractional part in nanoseconds.
pub fn change_file_name_for(secs: u64, nanos: u32) -> (s: String)
    ensures
        s@ =~= change_name_of(secs as nat, nanos as nat),
{
    proof {
        reveal_strlit(".");
        reveal_strlit(".txt");
    }
    let mut s = dec_digits_string(secs);
    s.append(".");
    let n = dec_digits_string(nanos as u64);
    s.append(n.as_str());
    s.append(".txt");
    proof {
        assert("."@ =~= seq!['.']);
        assert(".txt"@ =~= seq!['.', 't', 'x', 't']);
    }
    s
}

/// Relies on `std::time::SystemTime::now` followed by
/// `duration_since(UNIX_EPOCH)` for the current wall-clock time, split
/// into whole seconds and the fractional part in nanoseconds; yields
/// nothing when the clock reads before the epoch. The nanosecond part
/// is documented to be below one billion.
#[verifier::external_body]
fn unix_time_parts() -> (r: Option<(u64, u32)>)
    ensures
        r is Some ==> (r->0).1 < 1_000_000_000,
{
    match std::time::SystemTime::now().duration_since(std::time::UNIX_EPOCH) {
        Ok(d) => Some((d.as_secs(), d.subsec_nanos())),
        Err(_) => None,
    }
}

/// A fresh journal file name from the current wall-clock time, or
/// nothing when the clock reads before the epoch.
pub fn change_file_name() -> (r: Option<String>)
    ensures
        r is Some ==> exists|a: nat, b: nat| r->0@ == change_name_of(a, b),
{
    match unix_time_parts() {
        Some((secs, nanos)) => {
            let s = change_file_name_for(secs, nanos);
            proof {
                assert(s@ == change_name_of(secs as nat, nanos as nat));
            }
            Some(s)
        },
        None => None,
    }
}

/// The fixed relative directory that holds pending journal files.
pub fn change_file_dir() -> (r: &'static str)
    ensures
        r@ == ".change-files"@,
{
    ".change-files"
}

/// The path of a journal file inside the change-file directory.
pub fn change_file_path(name: &str) -> (r: String)
    ensures
        r@ == ".change-files"@ + "/"@ + name@,
{
    let mut s = String::from_str(change_file_dir());
    s.append("/");
    s.append(name);
    s
}

} // verus!
