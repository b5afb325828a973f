//! Small display helpers: decimal rendering of integers and a
//! human-readable rendering of durations.

use vstd::prelude::*;
use vstd::string::StrSliceExecFns;

verus! {

/// The decimal digit character of a value below ten.
pub open spec fn char_of_digit(d: int) -> char {
    if d == 0 { '0' }
    else if d == 1 { '1' }
    else if d == 2 { '2' }
    else if d == 3 { '3' }
    else if d == 4 { '4' }
    else if d == 5 { '5' }
    else if d == 6 { '6' }
    else if d == 7 { '7' }
    else if d == 8 { '8' }
    else { '9' }
}

/// The decimal rendering of a nonnegative integer.
pub open spec fn dec_rep(n: int) -> Seq<char>
    decreases n,
{
    if n < 10 {
        seq![char_of_digit(n)]
    } else {
        dec_rep(n / 10) + seq![char_of_digit(n % 10)]
    }
}

/// One decimal digit, as a string.
fn digit_str(d: u64) -> (r: &'static str)
    requires
        d < 10,
    ensures
        r@ == seq![char_of_digit(d as int)],
{
    proof {
        reveal_strlit("0");
        reveal_strlit("1");
        reveal_strlit("2");
        reveal_strlit("3");
        reveal_strlit("4");
        reveal_strlit("5");
        reveal_strlit("6");
        reveal_strlit("7");
        reveal_strlit("8");
        reveal_strlit("9");
    }
    if d == 0 { "0" }
    else if d == 1 { "1" }
    else if d == 2 { "2" }
    else if d == 3 { "3" }
    else if d == 4 { "4" }
    else if d == 5 { "5" }
    else if d == 6 { "6" }
    else if d == 7 { "7" }
    else if d == 8 { "8" }
    else { "9" }
}

/// Render a value in decimal.
pub fn u64_to_dec(n: u64) -> (r: String)
    ensures
        r@ == dec_rep(n as int),
    decreases n,
{
    if n < 10 {
        digit_str(n).to_owned()
    } else {
        let mut s = u64_to_dec(n / 10);
        s.append(digit_str(n % 10));
        s
    }
}

/// A duration in whole seconds, rendered for people: seconds below a
/// minute, whole minutes (rounded up) below an hour, hours with two
/// decimals below two days, then days with two decimals. Fractions
/// round half away from zero.
pub struct PrettyDuration(pub u64);

/// The two-decimal rendering of `secs` in the given unit.
pub open spec fn spec_fixed2(secs: int, unit: int) -> Seq<char>
    recommends
        unit == 3600 || unit == 86400,
{
    let q = (100 * secs + unit / 2) / unit;
    dec_rep(q / 100) + seq!['.', char_of_digit((q / 10) % 10), char_of_digit(q % 100 % 10)]
}

/// The rendering of a duration.
pub open spec fn spec_pretty(secs: u64) -> Seq<char> {
    if secs < 60 {
        dec_rep(secs as int) + " seconds"@
    } else if secs < 3600 {
        dec_rep((secs + 59) as int / 60) + " minutes"@
    } else if secs < 172800 {
        spec_fixed2(secs as int, 3600) + " hours"@
    } else {
        spec_fixed2(secs as int, 86400) + " days"@
    }
}

impl PrettyDuration {
    /// Render this duration.
    pub fn pretty(&self) -> (r: String)
        requires
            100 * self.0 + 43200 <= u64::MAX,
        ensures
            r@ == spec_pretty(self.0),
    {
        let secs = self.0;
        if secs < 60 {
            let mut s = u64_to_dec(secs);
            s.append(" seconds");
            s
        } else if secs < 3600 {
            let mut s = u64_to_dec((secs + 59) / 60);
            s.append(" minutes");
            s
        } else if secs < 172800 {
            let mut s = Self::fixed2(secs, 3600);
            s.append(" hours");
            s
        } else {
            let mut s = Self::fixed2(secs, 86400);
            s.append(" days");
            s
        }
    }

    /// Render `secs` in the given unit with two decimals.
    fn fixed2(secs: u64, unit: u64) -> (r: String)
        requires
            unit == 3600 || unit == 86400,
            100 * secs + unit / 2 <= u64::MAX,
        ensures
            r@ == spec_fixed2(secs as int, unit as int),
    {
        proof {
            reveal_strlit(".");
        }
        let q = (100 * secs + unit / 2) / unit;
        let mut s = u64_to_dec(q / 100);
        s.append(".");
        s.append(digit_str((q / 10) % 10));
        s.append(digit_str(q % 100 % 10));
        proof {
            assert(s@ =~= spec_fixed2(secs as int, unit as int));
        }
        s
    }
}

} // verus!
