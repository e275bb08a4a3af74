use vstd::prelude::*;
use vstd::string::{StrSliceExecFns, StringExecFns};

use crate::libs::text;

verus! {

/// Where the server listens.
pub struct Configure {
    pub host: String,
    pub port: u16,
}

/// Whether `c` is a decimal digit.
pub open spec fn is_digit(c: char) -> bool {
    '0' <= c <= '9'
}

/// The number that the decimal digits `s` spell.
pub open spec fn digits_value(s: Seq<char>) -> nat
    decreases s.len(),
{
    if s.len() == 0 {
        0
    } else {
        digits_value(s.drop_last()) * 10 + (s.last() as nat - 48) as nat
    }
}

/// Whether all of `s` are decimal digits.
pub open spec fn all_digits(s: Seq<char>) -> bool {
    forall|i: int| 0 <= i < s.len() ==> is_digit(#[trigger] s[i])
}

/// The text of a port number after its optional `+` sign.
pub open spec fn port_digits(s: Seq<char>) -> Seq<char> {
    if s.len() > 0 && s[0] == '+' {
        s.drop_first()
    } else {
        s
    }
}

/// A port number as `str::parse::<u16>` reads it: an optional `+`, then one or more
/// decimal digits whose value fits in 16 bits.
pub open spec fn parse_port_text(s: Seq<char>) -> Option<u16> {
    let digits = port_digits(s);
    if digits.len() > 0 && all_digits(digits) && digits_value(digits) <= 65535 {
        Some(digits_value(digits) as u16)
    } else {
        None
    }
}

/// Whether every `-h` and `-p` in `args` is followed by a value.
pub open spec fn flags_have_values(args: Seq<String>) -> bool {
    forall|i: int|
        0 <= i < args.len() && (#[trigger] args[i]@ == "-h"@ || args[i]@ == "-p"@) ==> i + 1
            < args.len()
}

/// The host that the first `n` arguments choose: the value after the last `-h`
/// among them, `0.0.0.0` when there is none.
pub open spec fn host_after(args: Seq<String>, n: int) -> Seq<char>
    decreases n,
{
    if n <= 0 {
        "0.0.0.0"@
    } else if args[n - 1]@ == "-h"@ {
        args[n]@
    } else {
        host_after(args, n - 1)
    }
}

/// The port that the first `n` arguments choose: the value after the last `-p` among
/// them read as a port (7100 when it is not one), 25565 when there is none.
pub open spec fn port_after(args: Seq<String>, n: int) -> u16
    decreases n,
{
    if n <= 0 {
        25565
    } else if args[n - 1]@ == "-p"@ {
        match parse_port_text(args[n]@) {
            Some(p) => p,
            None => 7100,
        }
    } else {
        port_after(args, n - 1)
    }
}

proof fn lemma_digits_value_grows(s: Seq<char>, i: int, j: int)
    requires
        0 <= i <= j <= s.len(),
        forall|k: int| 0 <= k < s.len() ==> is_digit(#[trigger] s[k]),
    ensures
        digits_value(s.take(i)) <= digits_value(s.take(j)),
    decreases j - i,
{
    if i < j {
        lemma_digits_value_grows(s, i, j - 1);
        assert(s.take(j).drop_last() =~= s.take(j - 1));
        assert(s.take(j).last() == s[j - 1]);
    }
}

/// Reads a port number as `str::parse::<u16>` does.
fn parse_port(text: &str) -> (port: Option<u16>)
    ensures
        port == parse_port_text(text@),
{
    let n = text.unicode_len();
    let start: usize = if n > 0 && text.get_char(0) == '+' {
        1
    } else {
        0
    };
    let ghost digits = port_digits(text@);
    assert(digits =~= text@.subrange(start as int, n as int));
    if start == n {
        return None;
    }
    let mut i = start;
    let mut value: u32 = 0;
    assert(digits.take(0) =~= Seq::<char>::empty());
    while i < n
        invariant
            start <= i <= n,
            n == text@.len(),
            digits == text@.subrange(start as int, n as int),
            digits == port_digits(text@),
            forall|k: int| 0 <= k < i - start ==> is_digit(#[trigger] digits[k]),
            value == digits_value(digits.take(i - start)),
            value <= 65535,
        decreases n - i,
    {
        let c = text.get_char(i);
        assert(c == digits[i - start]);
        if !('0' <= c && c <= '9') {
            assert(!is_digit(digits[i - start]));
            assert(!all_digits(digits));
            return None;
        }
        let d = c as u32 - 48;
        assert(digits.take(i - start + 1).drop_last() =~= digits.take(i - start));
        assert(digits.take(i - start + 1).last() == c);
        value = value * 10 + d;
        i += 1;
        if value > 65535 {
            proof {
                let prefix = digits.take(i - start);
                assert forall|k: int| 0 <= k < prefix.len() implies is_digit(#[trigger] prefix[k]) by {
                    assert(prefix[k] == digits[k]);
                }
                if all_digits(digits) {
                    lemma_digits_value_grows(digits, i - start, digits.len() as int);
                    assert(digits.take(digits.len() as int) =~= digits);
                    assert(digits_value(digits) > 65535);
                }
                assert(parse_port_text(text@) is None);
            }
            return None;
        }
    }
    assert(digits.take(digits.len() as int) =~= digits);
    Some(value as u16)
}

impl Configure {
    /// Reads the configuration from the command line: `-h` followed by the host to listen
    /// on, `-p` followed by the port; the last of each counts.
    pub fn get(args: Vec<String>) -> (configure: Self)
        requires
            flags_have_values(args@),
        ensures
            configure.host@ == host_after(args@, args@.len() as int),
            configure.port == port_after(args@, args@.len() as int),
    {
        let mut host = String::from_str("0.0.0.0");
        let mut port: u16 = 25565;
        let flag_host = String::from_str("-h");
        let flag_port = String::from_str("-p");
        let mut i: usize = 0;
        while i < args.len()
            invariant
                i <= args.len(),
                flags_have_values(args@),
                flag_host@ == "-h"@,
                flag_port@ == "-p"@,
                host@ == host_after(args@, i as int),
                port == port_after(args@, i as int),
            decreases args.len() - i,
        {
            proof {
                reveal_strlit("-h");
                reveal_strlit("-p");
                assert("-h"@[1] != "-p"@[1]);
            }
            let arg = &args[i];
            if *arg == flag_host {
                host = args[i + 1].clone();
            } else if *arg == flag_port {
                port = match parse_port(args[i + 1].as_str()) {
                    Some(p) => p,
                    None => 7100,
                };
            }
            i += 1;
        }
        Configure { host, port }
    }
}

/// Every decimal text of a port is read as that port: one or more of `'0'` to `'9'`
/// whose value in base ten is at most 65535 reads as that value, with or without a `+`
/// in front.
pub proof fn parse_port_accepts_digits(s: Seq<char>)
    requires
        s.len() > 0,
        forall|i: int| 0 <= i < s.len() ==> '0' <= #[trigger] s[i] <= '9',
        digits_value(s) <= 65535,
    ensures
        parse_port_text(s) == Some(digits_value(s) as u16),
        parse_port_text(seq!['+'] + s) == Some(digits_value(s) as u16),
{
    assert((seq!['+'] + s).drop_first() =~= s);
    assert(all_digits(s));
}

/// Text that is not one or more digits (after an optional `+`), or whose value is above
/// 65535, is no port.
pub proof fn parse_port_rejects(s: Seq<char>)
    ensures
        s.len() == 0 ==> parse_port_text(s) is None,
        s =~= seq!['+'] ==> parse_port_text(s) is None,
        (exists|i: int| 0 <= i < s.len() && !('0' <= #[trigger] s[i] <= '9') && !(i == 0 && s[i]
            == '+')) ==> parse_port_text(s) is None,
        (forall|i: int| 0 <= i < s.len() ==> '0' <= #[trigger] s[i] <= '9') && digits_value(s)
            > 65535 ==> parse_port_text(s) is None,
{
    if exists|i: int| 0 <= i < s.len() && !('0' <= #[trigger] s[i] <= '9') && !(i == 0 && s[i]
        == '+') {
        let i = choose|i: int| 0 <= i < s.len() && !('0' <= #[trigger] s[i] <= '9') && !(i == 0
            && s[i] == '+');
        let d = port_digits(s);
        if s.len() > 0 && s[0] == '+' {
            assert(d[i - 1] == s[i]);
        } else {
            assert(d[i] == s[i]);
        }
    }
}

/// Every port, written in decimal, reads back as itself.
pub proof fn port_text_roundtrip(port: u16)
    ensures
        parse_port_text(text::decimal(port as nat)) == Some(port),
{
    text::decimal_is_base_ten(port as nat);
    parse_port_accepts_digits(text::decimal(port as nat));
}

} // verus!
