//! Command-line arguments: which of the accepted shapes a command line has,
//! and the target and worker count it asks for.
use vstd::prelude::*;
use vstd::string::StrSliceExecFns;

verus! {

/// Worker count used when the command line names only an address.
pub const DEFAULT_THREADS: u16 = 4;

/// A validated target address, held as its numeric value.
#[derive(Clone, Copy, Debug, PartialEq, Eq, Structural)]
pub enum Target {
    V4(u32),
    V6(u128),
}

/// Why a command line was not accepted.
#[derive(Clone, Copy, Debug, PartialEq, Eq, Structural)]
pub enum ArgError {
    NotEnoughArguments,
    TooManyArguments,
    /// Help was asked for: not a failure, but no scan is run.
    Help,
    InvalidAddress,
    InvalidThreadCount,
    /// A worker count of zero would leave every port unprobed.
    NoWorkers,
    InvalidSyntax,
}

impl ArgError {
    pub open spec fn spec_message(self) -> Seq<char> {
        match self {
            ArgError::NotEnoughArguments => "Not enough arguments"@,
            ArgError::TooManyArguments => "Too many arguments"@,
            ArgError::Help => "help"@,
            ArgError::InvalidAddress => "Not valid IP Address! Must be IPv4 or IPv6"@,
            ArgError::InvalidThreadCount => "Failed to parse thread number"@,
            ArgError::NoWorkers => "Thread number must be at least 1"@,
            ArgError::InvalidSyntax => "Invalid Syntax"@,
        }
    }

    /// The text shown to the user for this error.
    pub fn message(&self) -> (r: &'static str)
        ensures
            r@ == self.spec_message(),
    {
        proof {
            reveal_strlit("Not enough arguments");
            reveal_strlit("Too many arguments");
            reveal_strlit("help");
            reveal_strlit("Not valid IP Address! Must be IPv4 or IPv6");
            reveal_strlit("Failed to parse thread number");
            reveal_strlit("Thread number must be at least 1");
            reveal_strlit("Invalid Syntax");
        }
        match self {
            ArgError::NotEnoughArguments => "Not enough arguments",
            ArgError::TooManyArguments => "Too many arguments",
            ArgError::Help => "help",
            ArgError::InvalidAddress => "Not valid IP Address! Must be IPv4 or IPv6",
            ArgError::InvalidThreadCount => "Failed to parse thread number",
            ArgError::NoWorkers => "Thread number must be at least 1",
            ArgError::InvalidSyntax => "Invalid Syntax",
        }
    }
}

/// `c` is an ASCII decimal digit.
pub open spec fn is_digit(c: char) -> bool {
    '0' <= c <= '9'
}

/// Value of a run of decimal digits, most significant first.
pub open spec fn digits_value(s: Seq<char>) -> nat
    decreases s.len(),
{
    if s.len() == 0 {
        0
    } else {
        digits_value(s.drop_last()) * 10 + (s.last() as u32 - '0' as u32) as nat
    }
}

/// `s` without a leading `+`, if it has one.
pub open spec fn unsigned_digits(s: Seq<char>) -> Seq<char> {
    if s.len() > 0 && s[0] == '+' {
        s.drop_first()
    } else {
        s
    }
}

/// Every character of `s` is an ASCII decimal digit.
pub open spec fn all_digits(s: Seq<char>) -> bool {
    forall|i: int| 0 <= i < s.len() ==> is_digit(#[trigger] s[i])
}

/// A `u16` written in decimal: an optional `+`, then one or more ASCII digits,
/// with a value of at most 65535.
pub open spec fn decimal_u16(s: Seq<char>) -> Option<u16> {
    let d = unsigned_digits(s);
    if d.len() > 0 && all_digits(d) && digits_value(d) <= 65535 {
        Some(digits_value(d) as u16)
    } else {
        None
    }
}

/// A prefix of a run of digits has no greater value than the whole run.
proof fn lemma_digits_prefix(s: Seq<char>, j: int)
    requires
        0 <= j <= s.len(),
        all_digits(s),
    ensures
        digits_value(s.take(j)) <= digits_value(s),
    decreases s.len(),
{
    if j == s.len() {
        assert(s.take(j) =~= s);
    } else {
        let t = s.drop_last();
        lemma_digits_prefix(t, j);
        assert(t.take(j) =~= s.take(j));
    }
}

/// Reads a thread count: an optional `+`, then one or more ASCII digits with a
/// value of at most 65535; `None` for anything else.
fn parse_u16(s: &str) -> (r: Option<u16>)
    ensures
        r == decimal_u16(s@),
{
    let n = s.unicode_len();
    let mut start: usize = 0;
    if n > 0 && s.get_char(0) == '+' {
        start = 1;
    }
    let ghost d = s@.subrange(start as int, n as int);
    assert(d =~= unsigned_digits(s@));
    if start == n {
        return None;
    }
    let mut i: usize = start;
    let mut value: u32 = 0;
    while i < n
        invariant
            start <= i <= n,
            start < n,
            n == s@.len(),
            d == s@.subrange(start as int, n as int),
            d == unsigned_digits(s@),
            forall|k: int| 0 <= k < i - start ==> is_digit(#[trigger] d[k]),
            value == digits_value(d.take(i - start)),
            value <= 65535,
        decreases n - i,
    {
        let c = s.get_char(i);
        assert(d[i - start] == c);
        if !('0' <= c && c <= '9') {
            assert(!is_digit(d[i - start]));
            assert(!all_digits(d));
            return None;
        }
        assert(d.take(i - start + 1).drop_last() =~= d.take(i - start));
        assert(d.take(i - start + 1).last() == c);
        value = value * 10 + (c as u32 - '0' as u32);
        i = i + 1;
        assert(value == digits_value(d.take(i - start)));
        if value > 65535 {
            proof {
                if all_digits(d) {
                    lemma_digits_prefix(d, i - start);
                }
            }
            return None;
        }
    }
    assert(d.take(i - start) =~= d);
    Some(value as u16)
}

/// A validated command line: the flag it was given with (empty when only an
/// address was given), the target, and the worker count.
#[derive(Clone, Debug)]
pub struct Arguments {
    pub flag: String,
    pub ip_address: Target,
    pub threads: u16,
}

/// What a command line `args` (program name first) stands for, where
/// `addresses[i]` is `args[i]` read as an IPv4 or IPv6 address, if it is one.
/// On success: the flag, the target and the worker count.
pub open spec fn parse_spec(args: Seq<Seq<char>>, addresses: Seq<Option<Target>>) -> Result<
    (Seq<char>, Target, u16),
    ArgError,
> {
    if args.len() < 2 {
        Err(ArgError::NotEnoughArguments)
    } else if args.len() > 4 {
        Err(ArgError::TooManyArguments)
    } else if addresses[1] is Some {
        if args.len() == 2 {
            Ok((Seq::empty(), addresses[1]->0, DEFAULT_THREADS))
        } else {
            Err(ArgError::TooManyArguments)
        }
    } else if args[1] == "-h"@ || (args[1] == "--help"@ && args.len() == 2) {
        Err(ArgError::Help)
    } else if args[1] == "--help"@ {
        Err(ArgError::TooManyArguments)
    } else if args[1] == "-j"@ {
        if args.len() < 4 {
            Err(ArgError::NotEnoughArguments)
        } else if addresses[3] is None {
            Err(ArgError::InvalidAddress)
        } else {
            match decimal_u16(args[2]) {
                None => Err(ArgError::InvalidThreadCount),
                Some(t) => if t == 0 {
                    Err(ArgError::NoWorkers)
                } else {
                    Ok((args[1], addresses[3]->0, t))
                },
            }
        }
    } else if args[1].len() > 0 && args[1][0] == '-' {
        Err(ArgError::InvalidSyntax)
    } else {
        Err(ArgError::InvalidAddress)
    }
}

/// The characters of each argument.
pub open spec fn arg_texts(args: Seq<String>) -> Seq<Seq<char>> {
    args.map_values(|a: String| a@)
}

impl Arguments {
    /// Reads the command line `args` (program name first). `addresses[i]` is
    /// `args[i]` read as an IP address, or `None` where it is not one.
    ///
    /// Accepted shapes: `program <ip>` (default worker count) and
    /// `program -j <threads> <ip>`. `-h`, whatever follows it, and `--help`
    /// with nothing after it ask for help; `--help` followed by more arguments
    /// is too many arguments. Every other shape is an error: an unknown flag
    /// (a first argument starting with `-`) is a syntax error, anything else
    /// in first place a malformed address.
    pub fn new(args: &Vec<String>, addresses: &Vec<Option<Target>>) -> (r: Result<
        Arguments,
        ArgError,
    >)
        requires
            addresses@.len() == args@.len(),
        ensures
            match r {
                Ok(a) => parse_spec(arg_texts(args@), addresses@) == Ok::<
                    (Seq<char>, Target, u16),
                    ArgError,
                >((a.flag@, a.ip_address, a.threads)),
                Err(e) => parse_spec(arg_texts(args@), addresses@) == Err::<
                    (Seq<char>, Target, u16),
                    ArgError,
                >(e),
            },
    {
        proof {
            reveal_strlit("");
            reveal_strlit("-h");
            reveal_strlit("--help");
            reveal_strlit("-j");
        }
        let ghost texts = arg_texts(args@);
        if args.len() < 2 {
            return Err(ArgError::NotEnoughArguments);
        } else if args.len() > 4 {
            return Err(ArgError::TooManyArguments);
        }
        assert(texts[1] == args@[1]@);
        if let Some(ip_address) = addresses[1] {
            if args.len() != 2 {
                return Err(ArgError::TooManyArguments);
            }
            let flag = String::new();
            assert(flag@ =~= Seq::<char>::empty());
            return Ok(Arguments { flag, ip_address, threads: DEFAULT_THREADS });
        }
        let short_help = args[1] == "-h".to_owned();
        let long_help = args[1] == "--help".to_owned();
        if short_help || long_help && args.len() == 2 {
            Err(ArgError::Help)
        } else if long_help {
            Err(ArgError::TooManyArguments)
        } else if args[1] == "-j".to_owned() {
            if args.len() < 4 {
                return Err(ArgError::NotEnoughArguments);
            }
            assert(texts[2] == args@[2]@);
            let ip_address = match addresses[3] {
                Some(a) => a,
                None => return Err(ArgError::InvalidAddress),
            };
            let threads = match parse_u16(args[2].as_str()) {
                Some(t) => t,
                None => return Err(ArgError::InvalidThreadCount),
            };
            if threads == 0 {
                return Err(ArgError::NoWorkers);
            }
            Ok(Arguments { flag: args[1].clone(), ip_address, threads })
        } else if args[1].as_str().unicode_len() > 0 && args[1].as_str().get_char(0) == '-' {
            Err(ArgError::InvalidSyntax)
        } else {
            Err(ArgError::InvalidAddress)
        }
    }
}

} // verus!
