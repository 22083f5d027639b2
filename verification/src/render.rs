//! The text form of a cache: the pairs between braces, most recently used
//! first, each as `key: value` in decimal, with `, ` between them.

use vstd::prelude::*;

use crate::cache::LruCache;
use crate::store::map_pairs;

verus! {

/// The character of the decimal digit `d`.
pub open spec fn digit(d: int) -> char {
    (d + '0' as int) as char
}

/// The decimal digits of `n`, without leading zeros.
pub open spec fn decimal(n: nat) -> Seq<char>
    decreases n,
{
    if n < 10 {
        seq![digit(n as int)]
    } else {
        decimal(n / 10).push(digit((n % 10) as int))
    }
}

/// One pair as text: the key, a colon, a space, the value.
pub open spec fn pair_text(p: (u64, u64)) -> Seq<char> {
    decimal(p.0 as nat) + seq![':', ' '] + decimal(p.1 as nat)
}

/// The pairs of `s` as text, the last of `s` first, with a comma and a
/// space between neighbours.
pub open spec fn listed(s: Seq<(u64, u64)>) -> Seq<char>
    decreases s.len(),
{
    if s.len() == 0 {
        Seq::empty()
    } else if s.len() == 1 {
        pair_text(s[0])
    } else {
        listed(s.drop_first()) + seq![',', ' '] + pair_text(s[0])
    }
}

/// The text form of the recency order `s`.
pub open spec fn debug_text(s: Seq<(u64, u64)>) -> Seq<char> {
    seq!['{'] + listed(s) + seq!['}']
}

/// The text of one decimal digit.
fn digit_str(d: u64) -> (s: &'static str)
    requires
        d < 10,
    ensures
        s@ == seq![digit(d as int)],
{
    proof {
        reveal_strlit("0");
        reveal_strlit("1");
        reveal_strlit("2");
        reveal_strlit("3");
        reveal_strlit("4");
        reveal_strlit("5");
        reveal_strlit("6");
        reveal_strlit("7");
        reveal_strlit("8");
        reveal_strlit("9");
    }
    match d {
        0 => "0",
        1 => "1",
        2 => "2",
        3 => "3",
        4 => "4",
        5 => "5",
        6 => "6",
        7 => "7",
        8 => "8",
        _ => "9",
    }
}

/// Appends the decimal digits of `n` to `out`.
fn push_decimal(out: &mut String, n: u64)
    ensures
        final(out)@ == old(out)@ + decimal(n as nat),
    decreases n,
{
    if n >= 10 {
        push_decimal(out, n / 10);
    }
    out.append(digit_str(n % 10));
}

impl LruCache {
    /// The cache as text: `{3: 30, 2: 20, 1: 10}` for a cache in which 3 was
    /// used last and 1 longest ago; `{}` for an empty one.
    pub fn debug_string(&self) -> (text: String)
        ensures
            text@ == debug_text(self@),
    {
        let pairs = map_pairs(&self.map);
        let mut out = String::new();
        proof {
            reveal_strlit("{");
            reveal_strlit("}");
        }
        out.append("{");
        let mut i: usize = pairs.len();
        assert(out@ =~= seq!['{'] + listed(pairs@.skip(i as int)));
        while i > 0
            invariant
                i <= pairs.len(),
                pairs@ == self@,
                out@ == seq!['{'] + listed(pairs@.skip(i as int)),
            decreases i,
        {
            let ghost rest = pairs@.skip(i as int);
            if i < pairs.len() {
                out.append(", ");
            }
            let ghost joined = out@;
            i -= 1;
            let (k, v) = pairs[i];
            push_decimal(&mut out, k);
            out.append(": ");
            push_decimal(&mut out, v);
            proof {
                reveal_strlit(", ");
                reveal_strlit(": ");
                let now = pairs@.skip(i as int);
                assert(now.drop_first() =~= rest);
                if rest.len() == 0 {
                    assert(joined =~= seq!['{']);
                } else {
                    assert(joined =~= seq!['{'] + (listed(rest) + seq![',', ' ']));
                }
                assert(out@ =~= seq!['{'] + listed(now));
            }
        }
        out.append("}");
        assert(pairs@.skip(0) =~= pairs@);
        out
    }
}

} // verus!
