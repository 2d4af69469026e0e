//! Rendering of the final report.
//!
//! Each open port becomes one line of the form `Port <n> is open`, with the
//! port number written in decimal. [`dec_rep`] is the mathematical decimal
//! numeral of a number; [`port_line`] produces exactly that line, and
//! [`render_report`] maps a whole (already sorted) result sequence to its
//! lines.

use vstd::prelude::*;
use vstd::string::StringExecFns;

verus! {

/// The decimal digit character for a value in `0 ..= 9`.
pub open spec fn digit_char(d: int) -> char {
    if d == 0 {
        '0'
    } else if d == 1 {
        '1'
    } else if d == 2 {
        '2'
    } else if d == 3 {
        '3'
    } else if d == 4 {
        '4'
    } else if d == 5 {
        '5'
    } else if d == 6 {
        '6'
    } else if d == 7 {
        '7'
    } else if d == 8 {
        '8'
    } else {
        '9'
    }
}

/// The decimal numeral of `n`: most significant digit first, no leading
/// zeros (except for `n == 0` itself, which is written `0`).
pub open spec fn dec_rep(n: int) -> Seq<char>
    decreases n,
{
    if n <= 9 {
        seq![digit_char(n)]
    } else {
        dec_rep(n / 10).push(digit_char(n % 10))
    }
}

/// One line of the report for an open port.
pub open spec fn line_of(p: int) -> Seq<char> {
    "Port "@ + dec_rep(p) + " is open"@
}

/// The one-character string for a decimal digit value.
fn digit_str(d: u16) -> (r: &'static str)
    requires
        d <= 9,
    ensures
        r@ == seq![digit_char(d as int)],
{
    let r: &'static str = match d {
        0 => "0",
        1 => "1",
        2 => "2",
        3 => "3",
        4 => "4",
        5 => "5",
        6 => "6",
        7 => "7",
        8 => "8",
        _ => "9",
    };
    proof {
        reveal_strlit("0");
        reveal_strlit("1");
        reveal_strlit("2");
        reveal_strlit("3");
        reveal_strlit("4");
        reveal_strlit("5");
        reveal_strlit("6");
        reveal_strlit("7");
        reveal_strlit("8");
        reveal_strlit("9");
        assert(r@ =~= seq![digit_char(d as int)]);
    }
    r
}

/// The decimal numeral of `n`, as a string.
pub fn decimal_string(n: u16) -> (r: String)
    ensures
        r@ == dec_rep(n as int),
    decreases n,
{
    if n <= 9 {
        let r = String::from_str(digit_str(n));
        proof {
            assert(r@ =~= dec_rep(n as int));
        }
        r
    } else {
        let mut r = decimal_string(n / 10);
        r.append(digit_str(n % 10));
        proof {
            assert(r@ =~= dec_rep(n as int));
        }
        r
    }
}

/// The report line for one open port: `Port <port> is open`.
pub fn port_line(port: u16) -> (r: String)
    ensures
        r@ == line_of(port as int),
{
    let mut r = String::from_str("Port ");
    let digits = decimal_string(port);
    r.append(digits.as_str());
    r.append(" is open");
    proof {
        assert(r@ =~= line_of(port as int));
    }
    r
}

/// The full report: one line per port, in the order given.
pub fn render_report(ports: &Vec<u16>) -> (r: Vec<String>)
    ensures
        r@.len() == ports@.len(),
        forall|i: int| 0 <= i < r@.len() ==> (#[trigger] r@[i])@ == line_of(ports@[i] as int),
{
    let mut r: Vec<String> = Vec::new();
    let mut i: usize = 0;
    while i < ports.len()
        invariant
            0 <= i <= ports@.len(),
            r@.len() == i,
            forall|q: int| 0 <= q < r@.len() ==> (#[trigger] r@[q])@ == line_of(ports@[q] as int),
        decreases ports@.len() - i,
    {
        r.push(port_line(ports[i]));
        i = i + 1;
    }
    r
}

} // verus!
