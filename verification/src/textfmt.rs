use vstd::prelude::*;
use vstd::string::StringExecFns;

verus! {

/// The decimal digit character for a value in `0..10`.
pub open spec fn dec_digit(d: int) -> char {
    (('0' as u32) + d) as char
}

/// The decimal digit string of a nonnegative number, most significant
/// digit first.
pub open spec fn dec_str_u(n: int) -> Seq<char>
    decreases n,
{
    if n < 10 {
        seq![dec_digit(n)]
    } else {
        dec_str_u(n / 10).push(dec_digit(n % 10))
    }
}

/// The decimal string of a number, with a leading minus sign when it is
/// negative.
pub open spec fn dec_str(n: int) -> Seq<char> {
    if n < 0 {
        seq!['-'] + dec_str_u(-n)
    } else {
        dec_str_u(n)
    }
}

/// One decimal digit as a string.
fn digit_to_string(d: u64) -> (s: String)
    requires
        d < 10,
    ensures
        s@ == seq![dec_digit(d as int)],
{
    let s: &str = match d {
        0 => "0",
        1 => "1",
        2 => "2",
        3 => "3",
        4 => "4",
        5 => "5",
        6 => "6",
        7 => "7",
        8 => "8",
        _ => "9",
    };
    proof {
        reveal_strlit("0");
        reveal_strlit("1");
        reveal_strlit("2");
        reveal_strlit("3");
        reveal_strlit("4");
        reveal_strlit("5");
        reveal_strlit("6");
        reveal_strlit("7");
        reveal_strlit("8");
        reveal_strlit("9");
        assert(s@ =~= seq![dec_digit(d as int)]);
    }
    s.to_owned()
}

/// Decimal rendering of a nonnegative number.
pub fn u64_to_string(n: u64) -> (s: String)
    ensures
        s@ == dec_str_u(n as int),
    decreases n,
{
    if n < 10 {
        digit_to_string(n)
    } else {
        let mut s = u64_to_string(n / 10);
        let d = digit_to_string(n % 10);
        s.append(d.as_str());
        proof {
            assert(s@ =~= dec_str_u(n as int));
        }
        s
    }
}

/// Decimal rendering of a signed number.
pub fn i64_to_string(n: i64) -> (s: String)
    requires
        n > i64::MIN,
    ensures
        s@ == dec_str(n as int),
{
    if n < 0 {
        let mut s = "-".to_owned();
        let mag = (-n) as u64;
        let d = u64_to_string(mag);
        s.append(d.as_str());
        proof {
            reveal_strlit("-");
            assert(s@ =~= dec_str(n as int));
        }
        s
    } else {
        u64_to_string(n as u64)
    }
}

/// Decimal rendering of an `i32`.
pub fn i32_to_string(n: i32) -> (s: String)
    ensures
        s@ == dec_str(n as int),
{
    i64_to_string(n as i64)
}

} // verus!
