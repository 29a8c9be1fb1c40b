//! Times of day as minutes since midnight, with the "HH:MM" text form.

use vstd::prelude::*;
use vstd::string::StrSliceExecFns;
use vstd::string::StringExecFns;

verus! {

/// Number of minutes in a calendar day.
pub const MINUTES_PER_DAY: u32 = 1440;

/// An ASCII decimal digit character.
pub open spec fn is_clock_digit(c: char) -> bool {
    48 <= c as u32 && c as u32 <= 57
}

/// Numeric value of a decimal digit character.
pub open spec fn digit_val(c: char) -> int {
    c as u32 - 48
}

/// The decimal digit character for a value below ten.
pub open spec fn digit_char(d: int) -> char {
    if d == 0 {
        '0'
    } else if d == 1 {
        '1'
    } else if d == 2 {
        '2'
    } else if d == 3 {
        '3'
    } else if d == 4 {
        '4'
    } else if d == 5 {
        '5'
    } else if d == 6 {
        '6'
    } else if d == 7 {
        '7'
    } else if d == 8 {
        '8'
    } else {
        '9'
    }
}

/// Whether five characters spell a valid 24-hour "HH:MM" time of day.
pub open spec fn hhmm_valid(s: Seq<char>) -> bool {
    &&& s.len() == 5
    &&& is_clock_digit(s[0])
    &&& is_clock_digit(s[1])
    &&& s[2] == ':'
    &&& is_clock_digit(s[3])
    &&& is_clock_digit(s[4])
    &&& digit_val(s[0]) * 10 + digit_val(s[1]) < 24
    &&& digit_val(s[3]) * 10 + digit_val(s[4]) < 60
}

/// Minutes since midnight spelled by a valid "HH:MM" string.
pub open spec fn hhmm_minutes(s: Seq<char>) -> int {
    (digit_val(s[0]) * 10 + digit_val(s[1])) * 60 + digit_val(s[3]) * 10 + digit_val(s[4])
}

/// The five characters "HH:MM" for a minute of the day.
pub open spec fn time_chars(m: int) -> Seq<char> {
    seq![
        digit_char(m / 60 / 10),
        digit_char(m / 60 % 10),
        ':',
        digit_char(m % 60 / 10),
        digit_char(m % 60 % 10),
    ]
}

/// Digit value of a character, when it is one.
fn digit_of(c: char) -> (r: Option<u32>)
    ensures
        r == if is_clock_digit(c) {
            Some(digit_val(c) as u32)
        } else {
            None::<u32>
        },
{
    let u = c as u32;
    if 48 <= u && u <= 57 {
        Some(u - 48)
    } else {
        None
    }
}

/// Parses a 24-hour "HH:MM" string into minutes since midnight.
pub fn parse_hhmm(s: &str) -> (r: Option<u32>)
    ensures
        r == if hhmm_valid(s@) {
            Some(hhmm_minutes(s@) as u32)
        } else {
            None::<u32>
        },
        r matches Some(m) ==> m < MINUTES_PER_DAY,
{
    let n = s.unicode_len();
    if n != 5 {
        return None;
    }
    if s.get_char(2) != ':' {
        return None;
    }
    let d0 = match digit_of(s.get_char(0)) {
        Some(d) => d,
        None => {
            return None;
        },
    };
    let d1 = match digit_of(s.get_char(1)) {
        Some(d) => d,
        None => {
            return None;
        },
    };
    let d3 = match digit_of(s.get_char(3)) {
        Some(d) => d,
        None => {
            return None;
        },
    };
    let d4 = match digit_of(s.get_char(4)) {
        Some(d) => d,
        None => {
            return None;
        },
    };
    let hour = d0 * 10 + d1;
    let minute = d3 * 10 + d4;
    if hour >= 24 || minute >= 60 {
        return None;
    }
    Some(hour * 60 + minute)
}

/// The one-character string for a digit value.
fn digit_str(d: u32) -> (r: &'static str)
    requires
        d < 10,
    ensures
        r@ =~= seq![digit_char(d as int)],
{
    if d == 0 {
        proof {
            reveal_strlit("0");
        }
        "0"
    } else if d == 1 {
        proof {
            reveal_strlit("1");
        }
        "1"
    } else if d == 2 {
        proof {
            reveal_strlit("2");
        }
        "2"
    } else if d == 3 {
        proof {
            reveal_strlit("3");
        }
        "3"
    } else if d == 4 {
        proof {
            reveal_strlit("4");
        }
        "4"
    } else if d == 5 {
        proof {
            reveal_strlit("5");
        }
        "5"
    } else if d == 6 {
        proof {
            reveal_strlit("6");
        }
        "6"
    } else if d == 7 {
        proof {
            reveal_strlit("7");
        }
        "7"
    } else if d == 8 {
        proof {
            reveal_strlit("8");
        }
        "8"
    } else {
        proof {
            reveal_strlit("9");
        }
        "9"
    }
}

/// Renders a minute of the day as its "HH:MM" string.
pub fn fmt_hhmm(m: u32) -> (r: String)
    requires
        m < MINUTES_PER_DAY,
    ensures
        r@ == time_chars(m as int),
{
    let hour = m / 60;
    let minute = m % 60;
    let mut r = String::new();
    r.append(digit_str(hour / 10));
    r.append(digit_str(hour % 10));
    proof {
        reveal_strlit(":");
    }
    r.append(":");
    r.append(digit_str(minute / 10));
    r.append(digit_str(minute % 10));
    proof {
        assert(r@ =~= time_chars(m as int));
    }
    r
}

} // verus!
