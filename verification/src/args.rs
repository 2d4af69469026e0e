//! Classification of a command line into a scan request, a help request,
//! or a rejection.
//!
//! The scanner's core must only ever see a validated target address and a
//! positive worker count. This module holds the decision logic that
//! enforces that: given the raw arguments and, for the two argument
//! positions that may name a target, the fact whether that string parses
//! as an IP address (the one judgement the caller supplies, since address
//! parsing itself is not this library's logic), [`classify_arguments`]
//! decides exactly what the invocation means. A scan is only ever started
//! from a [`ArgDecision::Run`] decision, so a malformed invocation can
//! never reach the core.

use vstd::prelude::*;
use vstd::string::StrSliceExecFns;

verus! {

/// Why an invocation was rejected.
#[derive(Clone, Copy, Debug, PartialEq, Eq, Structural)]
pub enum ArgError {
    /// Fewer than two arguments (program name included).
    NotEnough,
    /// More than four arguments, or extra arguments after a help flag.
    TooMany,
    /// A worker-count flag without both a count and an address after it.
    NotEnoughForJobs,
    /// The worker count is not a positive integer that fits a `u16`.
    BadWorkerCount,
    /// The string in the address position does not parse as an IP address.
    BadAddress,
    /// The first argument is neither an address nor a known flag.
    InvalidSyntax,
}

impl ArgError {
    /// The user-facing description of this rejection.
    pub open spec fn spec_message(self) -> Seq<char> {
        match self {
            ArgError::NotEnough => "Not enough Arguments"@,
            ArgError::TooMany => "Too many Arguments"@,
            ArgError::NotEnoughForJobs => "Not enough arguments for -j flag"@,
            ArgError::BadWorkerCount => "Failed to parse thread count"@,
            ArgError::BadAddress => "Not a valid IP Address"@,
            ArgError::InvalidSyntax => "Invalid Syntax"@,
        }
    }

    /// The user-facing description of this rejection.
    pub fn message(&self) -> (r: &'static str)
        ensures
            r@ == self.spec_message(),
    {
        match self {
            ArgError::NotEnough => "Not enough Arguments",
            ArgError::TooMany => "Too many Arguments",
            ArgError::NotEnoughForJobs => "Not enough arguments for -j flag",
            ArgError::BadWorkerCount => "Failed to parse thread count",
            ArgError::BadAddress => "Not a valid IP Address",
            ArgError::InvalidSyntax => "Invalid Syntax",
        }
    }
}

/// What an invocation asks for.
#[derive(Clone, Copy, Debug, PartialEq, Eq, Structural)]
pub enum ArgDecision {
    /// Print the usage text and exit successfully.
    Help,
    /// Start a scan: the target address is the argument at index
    /// `addr_arg`, probed by `workers` concurrent workers.
    Run { addr_arg: usize, workers: u16 },
    /// Refuse the invocation with the given error.
    Reject(ArgError),
}

/// `pat` occurs in `s` starting at position `i`.
pub open spec fn occurs_at(s: Seq<char>, pat: Seq<char>, i: int) -> bool {
    &&& 0 <= i
    &&& i + pat.len() <= s.len()
    &&& s.subrange(i, i + pat.len()) == pat
}

/// `pat` occurs somewhere in `s`.
pub open spec fn has_substring(s: Seq<char>, pat: Seq<char>) -> bool {
    exists|i: int| occurs_at(s, pat, i)
}

/// `c` is a decimal digit.
pub open spec fn is_digit(c: char) -> bool {
    '0' as u32 <= c as u32 <= '9' as u32
}

/// The digit part of a numeral: an optional leading `+` is stripped.
pub open spec fn digits_of(s: Seq<char>) -> Seq<char> {
    if s.len() > 0 && s[0] == '+' {
        s.drop_first()
    } else {
        s
    }
}

/// Every character of `s` is a decimal digit.
pub open spec fn all_digits(s: Seq<char>) -> bool {
    forall|i: int| 0 <= i < s.len() ==> is_digit(#[trigger] s[i])
}

/// The value of a digit string read as a decimal number.
pub open spec fn dec_value(s: Seq<char>) -> int
    decreases s.len(),
{
    if s.len() == 0 {
        0
    } else {
        dec_value(s.drop_last()) * 10 + (s.last() as u32 - '0' as u32)
    }
}

/// `s` is a decimal numeral whose value fits a `u16`: an optional leading
/// `+`, then at least one digit and nothing else, with a value of at most
/// 65535.
pub open spec fn parses_to_u16(s: Seq<char>) -> bool {
    &&& digits_of(s).len() > 0
    &&& all_digits(digits_of(s))
    &&& dec_value(digits_of(s)) <= 65535
}

/// The value of a numeral accepted by [`parses_to_u16`].
pub open spec fn parsed_value(s: Seq<char>) -> int {
    dec_value(digits_of(s))
}

/// The decision for an argument vector. `first_is_addr` and `j_addr_ok`
/// stand for the one judgement made outside this library: whether the
/// argument at index 1, respectively index 3, parses as an IP address.
pub open spec fn spec_classify(args: Seq<String>, first_is_addr: bool, j_addr_ok: bool) -> ArgDecision {
    if args.len() < 2 {
        ArgDecision::Reject(ArgError::NotEnough)
    } else if args.len() > 4 {
        ArgDecision::Reject(ArgError::TooMany)
    } else if first_is_addr {
        ArgDecision::Run { addr_arg: 1, workers: 4 }
    } else if has_substring(args[1]@, "-h"@) || has_substring(args[1]@, "-help"@) {
        if args.len() == 2 {
            ArgDecision::Help
        } else {
            ArgDecision::Reject(ArgError::TooMany)
        }
    } else if has_substring(args[1]@, "-j"@) {
        if args.len() < 4 {
            ArgDecision::Reject(ArgError::NotEnoughForJobs)
        } else if !parses_to_u16(args[2]@) || parsed_value(args[2]@) == 0 {
            ArgDecision::Reject(ArgError::BadWorkerCount)
        } else if !j_addr_ok {
            ArgDecision::Reject(ArgError::BadAddress)
        } else {
            ArgDecision::Run { addr_arg: 3, workers: parsed_value(args[2]@) as u16 }
        }
    } else {
        ArgDecision::Reject(ArgError::InvalidSyntax)
    }
}

/// Whether `pat` occurs in `s` starting exactly at position `i`.
fn matches_at(s: &str, pat: &str, i: usize) -> (r: bool)
    requires
        i + pat@.len() <= s@.len(),
        s@.len() <= usize::MAX,
    ensures
        r == occurs_at(s@, pat@, i as int),
{
    let m = pat.unicode_len();
    let mut j: usize = 0;
    while j < m
        invariant
            m == pat@.len(),
            i + m <= s@.len() <= usize::MAX,
            0 <= j <= m,
            forall|q: int| 0 <= q < j ==> s@[i + q] == pat@[q],
        decreases m - j,
    {
        let a = s.get_char(i + j);
        let b = pat.get_char(j);
        if a != b {
            proof {
                if occurs_at(s@, pat@, i as int) {
                    assert(s@.subrange(i as int, i + m as int)[j as int] == pat@[j as int]);
                }
            }
            return false;
        }
        j = j + 1;
    }
    proof {
        assert(s@.subrange(i as int, i + m as int) =~= pat@);
        assert(occurs_at(s@, pat@, i as int));
    }
    true
}

/// Whether `pat` occurs as a substring of `s`.
pub fn contains_substr(s: &str, pat: &str) -> (r: bool)
    ensures
        r == has_substring(s@, pat@),
{
    let n = s.unicode_len();
    let m = pat.unicode_len();
    if m > n {
        proof {
            assert(forall|i: int| !occurs_at(s@, pat@, i));
        }
        return false;
    }
    if m == 0 {
        proof {
            assert(s@.subrange(0, 0) =~= pat@);
            assert(occurs_at(s@, pat@, 0));
        }
        return true;
    }
    let mut i: usize = 0;
    while i <= n - m
        invariant
            n == s@.len(),
            m == pat@.len(),
            1 <= m <= n,
            0 <= i <= n - m + 1,
            forall|q: int| 0 <= q < i ==> !occurs_at(s@, pat@, q),
        decreases n - m + 1 - i,
    {
        if matches_at(s, pat, i) {
            proof {
                assert(occurs_at(s@, pat@, i as int));
            }
            return true;
        }
        i = i + 1;
    }
    proof {
        assert forall|q: int| !occurs_at(s@, pat@, q) by {
            if 0 <= q && q + pat@.len() <= s@.len() {
                assert(q < i);
            }
        }
    }
    false
}

/// Parse a decimal numeral into a `u16`, accepting exactly the numerals
/// of [`parses_to_u16`] and returning exactly their value.
pub fn parse_u16(s: &str) -> (r: Option<u16>)
    ensures
        match r {
            Some(w) => parses_to_u16(s@) && w as int == parsed_value(s@),
            None => !parses_to_u16(s@),
        },
{
    let n = s.unicode_len();
    if n == 0 {
        return None;
    }
    let first = s.get_char(0);
    let start: usize = if first == '+' {
        1
    } else {
        0
    };
    proof {
        assert(digits_of(s@) =~= s@.subrange(start as int, n as int));
    }
    if start >= n {
        return None;
    }
    let mut i: usize = start;
    let mut acc: u32 = 0;
    while i < n
        invariant
            n == s@.len(),
            start <= 1,
            start < n,
            digits_of(s@) == s@.subrange(start as int, n as int),
            start <= i <= n,
            acc <= 655359,
            forall|q: int| start <= q < i ==> is_digit(#[trigger] s@[q]),
            acc <= 65535 ==> acc == dec_value(s@.subrange(start as int, i as int)),
            acc > 65535 ==> dec_value(s@.subrange(start as int, i as int)) > 65535,
        decreases n - i,
    {
        let c = s.get_char(i);
        let d = c as u32;
        if d < 48 || d > 57 {
            proof {
                assert(!is_digit(s@[i as int]));
                assert(digits_of(s@).len() == n - start);
                assert(digits_of(s@)[i as int - start] == s@.subrange(start as int, n as int)[i as int - start]);
                assert(digits_of(s@)[i as int - start] == s@[i as int]);
                assert(!all_digits(digits_of(s@)));
            }
            return None;
        }
        let ghost prefix = s@.subrange(start as int, i as int);
        let ghost extended = s@.subrange(start as int, i as int + 1);
        proof {
            assert(extended.drop_last() =~= prefix);
            assert(extended.last() == s@[i as int]);
        }
        if acc <= 65535 {
            acc = acc * 10 + (d - 48);
        }
        i = i + 1;
    }
    proof {
        assert(s@.subrange(start as int, n as int) =~= digits_of(s@));
    }
    if acc > 65535 {
        None
    } else {
        Some(acc as u16)
    }
}

/// Decide what an invocation asks for. `first_is_addr` and `j_addr_ok`
/// report whether the strings at argument indices 1 and 3 parse as IP
/// addresses; everything else is decided here. The decision is exactly
/// [`spec_classify`]: in particular, a scan is requested only with a
/// validated address position and a worker count in `1 ..= 65535`, and
/// every malformed invocation is rejected with the matching error.
pub fn classify_arguments(args: &Vec<String>, first_is_addr: bool, j_addr_ok: bool) -> (r: ArgDecision)
    ensures
        r == spec_classify(args@, first_is_addr, j_addr_ok),
{
    if args.len() < 2 {
        return ArgDecision::Reject(ArgError::NotEnough);
    }
    if args.len() > 4 {
        return ArgDecision::Reject(ArgError::TooMany);
    }
    if first_is_addr {
        return ArgDecision::Run { addr_arg: 1, workers: 4 };
    }
    let flags: &String = &args[1];
    if contains_substr(flags.as_str(), "-h") || contains_substr(flags.as_str(), "-help") {
        if args.len() == 2 {
            ArgDecision::Help
        } else {
            ArgDecision::Reject(ArgError::TooMany)
        }
    } else if contains_substr(flags.as_str(), "-j") {
        if args.len() < 4 {
            return ArgDecision::Reject(ArgError::NotEnoughForJobs);
        }
        let count: &String = &args[2];
        match parse_u16(count.as_str()) {
            None => ArgDecision::Reject(ArgError::BadWorkerCount),
            Some(w) => {
                if w == 0 {
                    ArgDecision::Reject(ArgError::BadWorkerCount)
                } else if !j_addr_ok {
                    ArgDecision::Reject(ArgError::BadAddress)
                } else {
                    ArgDecision::Run { addr_arg: 3, workers: w }
                }
            },
        }
    } else {
        ArgDecision::Reject(ArgError::InvalidSyntax)
    }
}

} // verus!
