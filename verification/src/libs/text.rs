use vstd::prelude::*;
use vstd::string::StringExecFns;

use crate::config;

verus! {

/// The character of decimal digit `d`.
pub open spec fn digit_char(d: nat) -> char {
    (48 + d) as char
}

/// `v` written in decimal, without leading zeros.
pub open spec fn decimal(v: nat) -> Seq<char>
    decreases v,
{
    if v < 10 {
        seq![digit_char(v)]
    } else {
        decimal(v / 10).push(digit_char(v % 10))
    }
}

fn digit_str(d: u16) -> (s: &'static str)
    requires
        d < 10,
    ensures
        s@ == seq![digit_char(d as nat)],
{
    proof {
        reveal_strlit("0");
        reveal_strlit("1");
        reveal_strlit("2");
        reveal_strlit("3");
        reveal_strlit("4");
        reveal_strlit("5");
        reveal_strlit("6");
        reveal_strlit("7");
        reveal_strlit("8");
        reveal_strlit("9");
    }
    match d {
        0 => "0",
        1 => "1",
        2 => "2",
        3 => "3",
        4 => "4",
        5 => "5",
        6 => "6",
        7 => "7",
        8 => "8",
        _ => "9",
    }
}

/// Appends `v` in decimal to `out`.
pub fn push_decimal(out: &mut String, v: u16)
    ensures
        final(out)@ == old(out)@ + decimal(v as nat),
    decreases v,
{
    if v >= 10 {
        push_decimal(out, v / 10);
    }
    out.append(digit_str(v % 10));
    assert(decimal(v as nat) =~= if v < 10 {
        seq![digit_char(v as nat)]
    } else {
        decimal((v / 10) as nat).push(digit_char((v % 10) as nat))
    });
}

/// `decimal(v)` is the base-ten text of `v`: at least one character, every character one
/// of `'0'` to `'9'`, no leading zero unless `v` is 0, and the digits, read in base ten,
/// spell `v`.
pub proof fn decimal_is_base_ten(v: nat)
    ensures
        decimal(v).len() >= 1,
        forall|i: int| 0 <= i < decimal(v).len() ==> '0' <= #[trigger] decimal(v)[i] <= '9',
        v >= 1 ==> decimal(v)[0] != '0',
        config::digits_value(decimal(v)) == v,
    decreases v,
{
    let c = digit_char(v % 10);
    assert(c as nat == 48 + v % 10);
    if v < 10 {
        let d = decimal(v);
        assert(d.drop_last() =~= Seq::<char>::empty());
        assert(config::digits_value(Seq::<char>::empty()) == 0);
    } else {
        decimal_is_base_ten(v / 10);
        let p = decimal(v / 10);
        let d = p.push(c);
        assert(d.drop_last() =~= p);
        assert(d[0] == p[0]);
        assert forall|i: int| 0 <= i < d.len() implies '0' <= #[trigger] d[i] <= '9' by {
            if i < p.len() {
                assert(d[i] == p[i]);
            }
        }
        assert(v / 10 * 10 + v % 10 == v);
    }
}

} // verus!
