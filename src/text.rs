//! Decimal rendering of numbers and the response-time label.
use vstd::prelude::*;

verus! {

pub open spec fn digit_char(d: nat) -> char {
    if d == 0 { '0' } else if d == 1 { '1' } else if d == 2 { '2' } else if d == 3 { '3' } else if d == 4 {
        '4'
    } else if d == 5 { '5' } else if d == 6 { '6' } else if d == 7 { '7' } else if d == 8 { '8' } else { '9' }
}

/// Base-ten digits of `n`, most significant first, without leading zeros.
pub open spec fn decimal_digits(n: nat) -> Seq<char>
    decreases n,
{
    if n < 10 {
        seq![digit_char(n)]
    } else {
        decimal_digits(n / 10).push(digit_char(n % 10))
    }
}

/// The digit `d` as text.
fn digit_text(d: u128) -> (r: &'static str)
    requires
        d < 10,
    ensures
        r@ == seq![digit_char(d as nat)],
{
    if d == 0 {
        proof {
            reveal_strlit("0");
            assert("0"@ =~= seq!['0']);
        }
        "0"
    } else if d == 1 {
        proof {
            reveal_strlit("1");
            assert("1"@ =~= seq!['1']);
        }
        "1"
    } else if d == 2 {
        proof {
            reveal_strlit("2");
            assert("2"@ =~= seq!['2']);
        }
        "2"
    } else if d == 3 {
        proof {
            reveal_strlit("3");
            assert("3"@ =~= seq!['3']);
        }
        "3"
    } else if d == 4 {
        proof {
            reveal_strlit("4");
            assert("4"@ =~= seq!['4']);
        }
        "4"
    } else if d == 5 {
        proof {
            reveal_strlit("5");
            assert("5"@ =~= seq!['5']);
        }
        "5"
    } else if d == 6 {
        proof {
            reveal_strlit("6");
            assert("6"@ =~= seq!['6']);
        }
        "6"
    } else if d == 7 {
        proof {
            reveal_strlit("7");
            assert("7"@ =~= seq!['7']);
        }
        "7"
    } else if d == 8 {
        proof {
            reveal_strlit("8");
            assert("8"@ =~= seq!['8']);
        }
        "8"
    } else {
        proof {
            reveal_strlit("9");
            assert("9"@ =~= seq!['9']);
        }
        "9"
    }
}

/// Base-ten digits of `n`, most significant first, without leading zeros.
pub fn decimal(n: u128) -> (r: String)
    ensures
        r@ == decimal_digits(n as nat),
    decreases n,
{
    if n < 10 {
        String::from_str(digit_text(n))
    } else {
        let mut s = decimal(n / 10);
        s.append(digit_text(n % 10));
        s
    }
}

/// Relies on `Duration` being `Copy`: its clone is the same value.
pub assume_specification[ <std::time::Duration as Clone>::clone ](d: &std::time::Duration) -> (r: std::time::Duration)
    ensures
        r == *d,
;

/// Whole milliseconds in a duration.
pub uninterp spec fn whole_millis(d: std::time::Duration) -> u128;

/// Relies on `Duration::as_millis`: the whole milliseconds in `d`.
#[verifier::external_body]
fn duration_millis(d: &std::time::Duration) -> (r: u128)
    ensures
        r == whole_millis(*d),
{
    d.as_millis()
}

/// The label shown for a response time of `millis` milliseconds: whole
/// seconds when over one second, then the remaining milliseconds when not zero.
pub open spec fn duration_label(millis: nat) -> Seq<char> {
    "Time:"@ + (if millis > 1000 {
        " "@ + decimal_digits(millis / 1000) + "s"@
    } else {
        Seq::empty()
    }) + (if millis % 1000 > 0 {
        " "@ + decimal_digits(millis % 1000) + "ms"@
    } else {
        Seq::empty()
    })
}

/// The response-time label for `millis` milliseconds.
pub fn fmt_duration_millis(millis: u128) -> (r: String)
    ensures
        r@ == duration_label(millis as nat),
{
    let mut duration = String::from_str("Time:");
    let ghost secs_part: Seq<char> = Seq::empty();
    if millis > 1000 {
        let secs = decimal(millis / 1000);
        duration.append(" ");
        duration.append(secs.as_str());
        duration.append("s");
        proof {
            secs_part = " "@ + decimal_digits((millis / 1000) as nat) + "s"@;
        }
    }
    assert(duration@ =~= "Time:"@ + secs_part);
    let ghost head = duration@;
    let rest = millis % 1000;
    if rest > 0 {
        let ms = decimal(rest);
        duration.append(" ");
        duration.append(ms.as_str());
        duration.append("ms");
        assert(duration@ =~= head + (" "@ + decimal_digits(rest as nat) + "ms"@));
    } else {
        assert(duration@ =~= head + Seq::<char>::empty());
    }
    duration
}

/// The response-time label for a duration.
pub fn fmt_duration(d: std::time::Duration) -> (r: String)
    ensures
        r@ == duration_label(whole_millis(d) as nat),
{
    let millis = duration_millis(&d);
    fmt_duration_millis(millis)
}

} // verus!
