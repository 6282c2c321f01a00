//! Human-readable rendering of a whole number of seconds.

use vstd::prelude::*;

verus! {

pub const SECS_PER_MINUTE: u64 = 60;

pub const SECS_PER_HOUR: u64 = 3600;

pub const SECS_PER_DAY: u64 = 86400;

pub const SECS_PER_MONTH: u64 = 2592000;

pub const SECS_PER_YEAR: u64 = 31536000;

/// The decimal digit `d` as a one-character string.
pub open spec fn digit(d: nat) -> Seq<char> {
    if d == 0 {
        "0"@
    } else if d == 1 {
        "1"@
    } else if d == 2 {
        "2"@
    } else if d == 3 {
        "3"@
    } else if d == 4 {
        "4"@
    } else if d == 5 {
        "5"@
    } else if d == 6 {
        "6"@
    } else if d == 7 {
        "7"@
    } else if d == 8 {
        "8"@
    } else {
        "9"@
    }
}

/// `n` written in decimal, without leading zeros.
pub open spec fn decimal(n: nat) -> Seq<char>
    decreases n,
{
    if n < 10 {
        digit(n)
    } else {
        decimal(n / 10) + digit(n % 10)
    }
}

/// The size, in seconds, of the largest unit that fits in `n` seconds.
pub open spec fn unit_size(n: nat) -> nat {
    if n < 60 {
        1
    } else if n < 3600 {
        60
    } else if n < 86400 {
        3600
    } else if n < 2592000 {
        86400
    } else if n < 31536000 {
        2592000
    } else {
        31536000
    }
}

/// The singular name of that unit.
pub open spec fn unit_name(n: nat) -> Seq<char> {
    if n < 60 {
        "second"@
    } else if n < 3600 {
        "minute"@
    } else if n < 86400 {
        "hour"@
    } else if n < 2592000 {
        "day"@
    } else if n < 31536000 {
        "month"@
    } else {
        "year"@
    }
}

/// How many whole units fit in `n`.
pub open spec fn whole_units(n: nat) -> nat {
    n / unit_size(n)
}

/// What is left of `n` after the whole units.
pub open spec fn remainder(n: nat) -> nat {
    n % unit_size(n)
}

/// The unit's name, with a trailing `s` when more than one whole unit fits.
pub open spec fn unit_label(n: nat) -> Seq<char> {
    if whole_units(n) <= 1 {
        unit_name(n)
    } else {
        unit_name(n) + "s"@
    }
}

/// The full phrase for `n` seconds: the whole units, then the remainder in
/// smaller units, joined by " and " when the remainder is under a minute.
pub open spec fn pretty(n: nat) -> Seq<char>
    decreases n,
{
    let head = decimal(whole_units(n)) + " "@ + unit_label(n);
    let r = remainder(n);
    if r == 0 {
        head
    } else if r < 60 {
        head + " and "@ + pretty(r)
    } else {
        head + " "@ + pretty(r)
    }
}

/// The remainder is always smaller than the amount it was taken from.
pub proof fn lemma_remainder_smaller(n: nat)
    ensures
        remainder(n) == 0 || remainder(n) < n,
        remainder(n) < unit_size(n),
        unit_size(n) >= 1,
{
}

/// The phrase opens with the count of whole units and the unit's name, in
/// the singular for one (or zero) and in the plural for two or more.
pub proof fn lemma_pluralization(n: nat)
    ensures
        whole_units(n) <= 1 ==> (decimal(whole_units(n)) + " "@ + unit_name(n)).is_prefix_of(
            pretty(n),
        ),
        whole_units(n) >= 2 ==> (decimal(whole_units(n)) + " "@ + unit_name(n) + "s"@).is_prefix_of(
            pretty(n),
        ),
{
    let head = decimal(whole_units(n)) + " "@ + unit_label(n);
    let r = remainder(n);
    lemma_remainder_smaller(n);
    if r != 0 {
        if r < 60 {
            assert((head + " and "@ + pretty(r)).take(head.len() as int) =~= head);
        } else {
            assert((head + " "@ + pretty(r)).take(head.len() as int) =~= head);
        }
    }
    assert(pretty(n).take(head.len() as int) =~= head);
}

fn digit_str(d: u64) -> (r: &'static str)
    requires
        d < 10,
    ensures
        r@ == digit(d as nat),
{
    if d == 0 {
        "0"
    } else if d == 1 {
        "1"
    } else if d == 2 {
        "2"
    } else if d == 3 {
        "3"
    } else if d == 4 {
        "4"
    } else if d == 5 {
        "5"
    } else if d == 6 {
        "6"
    } else if d == 7 {
        "7"
    } else if d == 8 {
        "8"
    } else {
        "9"
    }
}

/// `n` in decimal.
pub fn decimal_string(n: u64) -> (r: String)
    ensures
        r@ == decimal(n as nat),
    decreases n,
{
    if n < 10 {
        String::from_str(digit_str(n))
    } else {
        let mut s = decimal_string(n / 10);
        s.append(digit_str(n % 10));
        s
    }
}

/// A span of whole seconds, to be shown in words.
pub struct Timerange {
    pub range: u64,
}

impl Timerange {
    pub fn new(range: u64) -> (r: Timerange)
        ensures
            r.range == range,
    {
        Timerange { range }
    }

    /// Splits the span into its largest whole unit: the count of that unit,
    /// the seconds left over, and the unit's (pluralised) name.
    pub fn floor_time_unit(&self) -> (r: (u64, u64, String))
        ensures
            r.0 == whole_units(self.range as nat),
            r.1 == remainder(self.range as nat),
            r.2@ == unit_label(self.range as nat),
    {
        let n = self.range;
        let (size, name): (u64, &str) = if n < SECS_PER_MINUTE {
            (1, "second")
        } else if n < SECS_PER_HOUR {
            (SECS_PER_MINUTE, "minute")
        } else if n < SECS_PER_DAY {
            (SECS_PER_HOUR, "hour")
        } else if n < SECS_PER_MONTH {
            (SECS_PER_DAY, "day")
        } else if n < SECS_PER_YEAR {
            (SECS_PER_MONTH, "month")
        } else {
            (SECS_PER_YEAR, "year")
        };
        let whole = n / size;
        let rem = n % size;
        let mut label = String::from_str(name);
        if whole > 1 {
            label.append("s");
        }
        (whole, rem, label)
    }

    /// The span in words, e.g. "1 hour 2 minutes and 5 seconds".
    pub fn print(&self) -> (r: String)
        ensures
            r@ == pretty(self.range as nat),
        decreases self.range,
    {
        let (whole, rem, label) = self.floor_time_unit();
        proof {
            lemma_remainder_smaller(self.range as nat);
        }
        let mut out = decimal_string(whole);
        out.append(" ");
        out.append(label.as_str());
        if rem == 0 {
            return out;
        }
        let rest = Timerange::new(rem).print();
        if rem < 60 {
            out.append(" and ");
        } else {
            out.append(" ");
        }
        out.append(rest.as_str());
        out
    }
}

} // verus!
