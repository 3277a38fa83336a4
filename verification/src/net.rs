use vstd::prelude::*;
use vstd::string::StrSliceExecFns;

verus! {

/// How the game runs, as chosen on the command line. A client's address is
/// kept as typed; resolving it to a socket address is up to the caller.
#[derive(Clone, Debug, PartialEq, Eq)]
pub enum NetMode {
    SinglePlayer,
    Host { port: u16 },
    Client { addr: String },
}

pub const DEFAULT_PORT: u16 = 5000;

#[derive(Clone, Debug, PartialEq, Eq)]
pub enum CliParseError {
    UnknownCommand(String),
    MissingArg(&'static str),
    BadAddr(String),
    BadPort(String),
}

pub open spec fn is_digit(c: char) -> bool {
    '0' <= c <= '9'
}

pub open spec fn digit_value(c: char) -> int {
    c as int - '0' as int
}

/// Decimal value of a string of digits.
pub open spec fn decimal_value(s: Seq<char>) -> int
    decreases s.len(),
{
    if s.len() == 0 {
        0
    } else {
        decimal_value(s.drop_last()) * 10 + digit_value(s.last())
    }
}

/// The digits of a port number: the text without one optional leading `+`.
pub open spec fn port_digits(s: Seq<char>) -> Seq<char> {
    if s.len() > 0 && s[0] == '+' { s.drop_first() } else { s }
}

/// A `u16` written in decimal: an optional `+`, then one or more ASCII
/// digits (leading zeros allowed) whose value fits in 16 bits.
pub open spec fn spec_parse_u16(s: Seq<char>) -> Option<u16> {
    spec_parse_u16_digits(port_digits(s))
}

proof fn lemma_decimal_value_nonneg(s: Seq<char>)
    requires
        forall|i: int| 0 <= i < s.len() ==> is_digit(#[trigger] s[i]),
    ensures
        decimal_value(s) >= 0,
    decreases s.len(),
{
    if s.len() > 0 {
        lemma_decimal_value_nonneg(s.drop_last());
    }
}

/// Parses a port number as `u16`'s decimal syntax allows.
pub fn parse_u16(s: &str) -> (r: Option<u16>)
    ensures
        r == spec_parse_u16(s@),
{
    let n = s.unicode_len();
    let mut start: usize = 0;
    if n > 0 && s.get_char(0) == '+' {
        start = 1;
    }
    let ghost d = port_digits(s@);
    proof {
        assert(d == s@.subrange(start as int, n as int));
    }
    if start == n {
        return None;
    }
    let mut value: u32 = 0;
    let mut i: usize = start;
    while i < n
        invariant
            start <= i <= n,
            n == s@.len(),
            d == s@.subrange(start as int, n as int),
            d == port_digits(s@),
            d.len() > 0,
            forall|k: int| 0 <= k < i - start ==> is_digit(#[trigger] d[k]),
            value == decimal_value(d.take(i - start)),
            value <= u16::MAX,
        decreases n - i,
    {
        let c = s.get_char(i);
        proof {
            assert(d[i - start] == c);
            assert(d.take(i - start + 1).drop_last() == d.take(i - start));
        }
        if c < '0' || c > '9' {
            proof {
                assert(!is_digit(d[i - start]));
            }
            return None;
        }
        let digit: u32 = (c as u32) - ('0' as u32);
        let next: u32 = value * 10 + digit;
        if next > 65535 {
            proof {
                assert(decimal_value(d.take(i - start + 1)) > u16::MAX);
                lemma_prefix_value_bound(d, i - start + 1);
            }
            return None;
        }
        value = next;
        i = i + 1;
    }
    proof {
        assert(d.take(n - start) == d);
    }
    Some(value as u16)
}

/// Once a prefix of a digit string exceeds the `u16` range, so does the
/// whole string (or it holds a non-digit).
proof fn lemma_prefix_value_bound(d: Seq<char>, k: int)
    requires
        0 < k <= d.len(),
        forall|j: int| 0 <= j < k ==> is_digit(#[trigger] d[j]),
        decimal_value(d.take(k)) > u16::MAX,
    ensures
        spec_parse_u16_digits(d) is None,
    decreases d.len() - k,
{
    if k < d.len() && forall|j: int| 0 <= j < d.len() ==> is_digit(#[trigger] d[j]) {
        assert(d.take(k + 1).drop_last() == d.take(k));
        lemma_decimal_value_nonneg(d.take(k + 1));
        assert(is_digit(d[k]));
        assert(d.take(k + 1).last() == d[k]);
        lemma_prefix_value_bound(d, k + 1);
    } else if k == d.len() {
        assert(d.take(k) == d);
    }
}

/// The value of a bare digit string when it is a valid `u16`.
pub open spec fn spec_parse_u16_digits(d: Seq<char>) -> Option<u16> {
    if d.len() > 0 && (forall|i: int| 0 <= i < d.len() ==> is_digit(#[trigger] d[i])) && decimal_value(d) <= u16::MAX {
        Some(decimal_value(d) as u16)
    } else {
        None
    }
}

/// Reads the game mode from command-line words (the program name excluded):
/// no words for single player, `host` with an optional port (default
/// `DEFAULT_PORT`), or `join` followed by the host's address.
pub fn parse_args(args: &[String]) -> (r: Result<NetMode, CliParseError>)
    ensures
        match r {
            Ok(NetMode::SinglePlayer) => args@.len() == 0,
            Ok(NetMode::Host { port }) => {
                &&& args@.len() >= 1
                &&& args@[0]@ == "host"@
                &&& if args@.len() == 1 {
                    port == DEFAULT_PORT
                } else {
                    spec_parse_u16(args@[1]@) == Some(port)
                }
            },
            Ok(NetMode::Client { addr }) => {
                &&& args@.len() >= 2
                &&& args@[0]@ == "join"@
                &&& addr@ == args@[1]@
            },
            Err(CliParseError::BadPort(p)) => {
                &&& args@.len() >= 2
                &&& args@[0]@ == "host"@
                &&& spec_parse_u16(args@[1]@) is None
                &&& p@ == args@[1]@
            },
            Err(CliParseError::MissingArg(m)) => {
                &&& args@.len() == 1
                &&& args@[0]@ == "join"@
                &&& m@ == "join requires an address"@
            },
            Err(CliParseError::UnknownCommand(c)) => {
                &&& args@.len() >= 1
                &&& args@[0]@ != "host"@
                &&& args@[0]@ != "join"@
                &&& c@ == args@[0]@
            },
            Err(CliParseError::BadAddr(_)) => false,
        },
{
    if args.len() == 0 {
        return Ok(NetMode::SinglePlayer);
    }
    let host = "host".to_owned();
    let join = "join".to_owned();
    if args[0] == host {
        if args.len() == 1 {
            return Ok(NetMode::Host { port: DEFAULT_PORT });
        }
        match parse_u16(args[1].as_str()) {
            Some(port) => Ok(NetMode::Host { port }),
            None => Err(CliParseError::BadPort(args[1].clone())),
        }
    } else if args[0] == join {
        if args.len() == 1 {
            let msg: &'static str = "join requires an address";
            return Err(CliParseError::MissingArg(msg));
        }
        Ok(NetMode::Client { addr: args[1].clone() })
    } else {
        Err(CliParseError::UnknownCommand(args[0].clone()))
    }
}

} // verus!
