//! Report formatting: one line per accepted match, and a closing summary
//! line that gives the total count or a fixed no-result message.

use vstd::prelude::*;
use crate::text::push_char;

verus! {

/// The decimal digit character for a value below ten.
pub open spec fn spec_digit_char(d: nat) -> char {
    if d == 0 {
        '0'
    } else if d == 1 {
        '1'
    } else if d == 2 {
        '2'
    } else if d == 3 {
        '3'
    } else if d == 4 {
        '4'
    } else if d == 5 {
        '5'
    } else if d == 6 {
        '6'
    } else if d == 7 {
        '7'
    } else if d == 8 {
        '8'
    } else {
        '9'
    }
}

/// The decimal representation of a number, without leading zeros
/// (a single zero for the number zero).
pub open spec fn dec_rep(n: nat) -> Seq<char>
    decreases n,
{
    if n < 10 {
        seq![spec_digit_char(n)]
    } else {
        dec_rep(n / 10).push(spec_digit_char(n % 10))
    }
}

fn digit_char(d: usize) -> (r: char)
    requires
        d < 10,
    ensures
        r == spec_digit_char(d as nat),
{
    if d == 0 {
        '0'
    } else if d == 1 {
        '1'
    } else if d == 2 {
        '2'
    } else if d == 3 {
        '3'
    } else if d == 4 {
        '4'
    } else if d == 5 {
        '5'
    } else if d == 6 {
        '6'
    } else if d == 7 {
        '7'
    } else if d == 8 {
        '8'
    } else {
        '9'
    }
}

/// Formats a number in decimal.
pub fn usize_to_string(n: usize) -> (r: String)
    ensures
        r@ == dec_rep(n as nat),
    decreases n,
{
    if n < 10 {
        let mut s = String::new();
        push_char(&mut s, digit_char(n));
        proof {
            assert(Seq::<char>::empty().push(spec_digit_char(n as nat)) =~= seq![
                spec_digit_char(n as nat),
            ]);
        }
        s
    } else {
        let mut s = usize_to_string(n / 10);
        push_char(&mut s, digit_char(n % 10));
        s
    }
}

/// The line reported for one accepted match.
pub fn report_line(path: &str) -> (r: String)
    ensures
        r@ == "Found file: "@ + path@,
{
    let mut s = String::from_str("Found file: ");
    s.append(path);
    s
}

/// The closing summary line: a fixed no-result message when nothing was
/// found, and the total count otherwise.
pub fn summary_line(count: usize) -> (r: String)
    ensures
        count == 0 ==> r@ == "No result found"@,
        count > 0 ==> r@ == "Total files found: "@ + dec_rep(count as nat),
{
    if count == 0 {
        String::from_str("No result found")
    } else {
        let mut s = String::from_str("Total files found: ");
        let digits = usize_to_string(count);
        s.append(digits.as_str());
        s
    }
}

} // verus!
