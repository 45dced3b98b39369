//! Decimal text for the `__repr__` strings of the façade types.

use vstd::prelude::*;

verus! {

/// The decimal digit character for `d < 10`.
pub open spec fn digit_char(d: nat) -> char {
    if d == 0 {
        '0'
    } else if d == 1 {
        '1'
    } else if d == 2 {
        '2'
    } else if d == 3 {
        '3'
    } else if d == 4 {
        '4'
    } else if d == 5 {
        '5'
    } else if d == 6 {
        '6'
    } else if d == 7 {
        '7'
    } else if d == 8 {
        '8'
    } else {
        '9'
    }
}

/// The decimal representation of `n`, without leading zeros.
pub open spec fn decimal(n: nat) -> Seq<char>
    decreases n,
{
    if n < 10 {
        seq![digit_char(n)]
    } else {
        decimal(n / 10).push(digit_char(n % 10))
    }
}

/// A list of numbers written as `[a, b, c]`, the way Rust's `Debug`
/// writes an array of integers.
pub open spec fn decimal_items(vals: Seq<nat>) -> Seq<char>
    decreases vals.len(),
{
    if vals.len() == 0 {
        Seq::empty()
    } else if vals.len() == 1 {
        decimal(vals[0])
    } else {
        decimal_items(vals.drop_last()) + ", "@ + decimal(vals.last())
    }
}

/// `vals` written as `[a, b, c]`.
pub open spec fn decimal_list(vals: Seq<nat>) -> Seq<char> {
    "["@ + decimal_items(vals) + "]"@
}

/// `c` is one of the ASCII digits `0`..`9`.
pub open spec fn is_digit(c: char) -> bool {
    ('0' as int) <= (c as int) <= ('9' as int)
}

/// The value of the ASCII digit `c`.
pub open spec fn digit_value(c: char) -> int {
    (c as int) - ('0' as int)
}

/// The number written by the decimal digits `s`, most significant first.
pub open spec fn numeral_value(s: Seq<char>) -> int
    decreases s.len(),
{
    if s.len() == 0 {
        0
    } else {
        10 * numeral_value(s.drop_last()) + digit_value(s.last())
    }
}

/// `s` is the canonical decimal numeral of `v`: one or more ASCII digits,
/// no leading zero unless `s` is `0` itself, whose value is `v`.
pub open spec fn is_numeral_of(s: Seq<char>, v: int) -> bool {
    &&& s.len() > 0
    &&& forall|i: int| 0 <= i < s.len() ==> #[trigger] is_digit(s[i])
    &&& (s.len() == 1 || s[0] != '0')
    &&& numeral_value(s) == v
}

proof fn lemma_digit_char(d: nat)
    requires
        d < 10,
    ensures
        is_digit(digit_char(d)),
        digit_value(digit_char(d)) == d,
        d != 0 ==> digit_char(d) != '0',
{
}

/// Law: `decimal(n)` is the canonical decimal numeral of `n`.
pub proof fn lemma_decimal_is_numeral(n: nat)
    ensures
        is_numeral_of(decimal(n), n as int),
    decreases n,
{
    if n < 10 {
        lemma_digit_char(n);
        let s = decimal(n);
        assert(s.drop_last().len() == 0);
        assert(numeral_value(s) == 10 * numeral_value(s.drop_last()) + digit_value(s.last()));
    } else {
        let m = n / 10;
        lemma_decimal_is_numeral(m);
        lemma_digit_char(n % 10);
        let s = decimal(n);
        let t = decimal(m);
        assert(s == t.push(digit_char(n % 10)));
        assert(s.drop_last() =~= t);
        assert forall|i: int| 0 <= i < s.len() implies #[trigger] is_digit(s[i]) by {
            if i < t.len() {
                assert(s[i] == t[i]);
            }
        }
        assert(s[0] == t[0]);
        if t.len() == 1 {
            assert(t == seq![digit_char(m)]) by {
                if m >= 10 {
                    assert(decimal(m).len() == decimal(m / 10).len() + 1);
                    lemma_decimal_is_numeral(m / 10);
                }
            }
            lemma_digit_char(m);
        }
        assert(n == 10 * m + n % 10);
    }
}

fn digit_str(d: u64) -> (s: &'static str)
    requires
        d < 10,
    ensures
        s@ == seq![digit_char(d as nat)],
{
    proof {
        reveal_strlit("0");
        reveal_strlit("1");
        reveal_strlit("2");
        reveal_strlit("3");
        reveal_strlit("4");
        reveal_strlit("5");
        reveal_strlit("6");
        reveal_strlit("7");
        reveal_strlit("8");
        reveal_strlit("9");
    }
    if d == 0 {
        "0"
    } else if d == 1 {
        "1"
    } else if d == 2 {
        "2"
    } else if d == 3 {
        "3"
    } else if d == 4 {
        "4"
    } else if d == 5 {
        "5"
    } else if d == 6 {
        "6"
    } else if d == 7 {
        "7"
    } else if d == 8 {
        "8"
    } else {
        "9"
    }
}

/// Append the decimal representation of `n`.
pub fn push_decimal(s: &mut String, n: u64)
    ensures
        final(s)@ == old(s)@ + decimal(n as nat),
    decreases n,
{
    if n >= 10 {
        push_decimal(s, n / 10);
    }
    s.append(digit_str(n % 10));
    proof {
        if n >= 10 {
            assert(old(s)@ + decimal(n as nat) =~= old(s)@ + decimal((n / 10) as nat) + seq![
                digit_char((n % 10) as nat),
            ]);
        } else {
            assert(decimal(n as nat) == seq![digit_char(n as nat)]);
        }
    }
}

/// Append `vals` written as `[a, b, c]`.
pub fn push_decimal_list(s: &mut String, vals: &[u64])
    ensures
        final(s)@ == old(s)@ + decimal_list(vals@.map_values(|v: u64| v as nat)),
{
    let ghost nums = vals@.map_values(|v: u64| v as nat);
    proof {
        reveal_strlit("[");
        reveal_strlit("]");
        reveal_strlit(", ");
    }
    let ghost start = s@;
    s.append("[");
    let n = vals.len();
    for i in 0..n
        invariant
            n == vals@.len(),
            nums == vals@.map_values(|v: u64| v as nat),
            s@ == start + "["@ + decimal_items(nums.take(i as int)),
            ", "@ == seq![',', ' '],
    {
        let ghost before = s@;
        if i > 0 {
            s.append(", ");
        }
        push_decimal(s, vals[i]);
        proof {
            let t = nums.take(i as int + 1);
            assert(t.drop_last() =~= nums.take(i as int));
            assert(t.last() == vals@[i as int] as nat);
            if i == 0 {
                assert(decimal_items(nums.take(0)) =~= Seq::<char>::empty());
                assert(decimal_items(t) == decimal(t[0]));
                assert(s@ =~= start + "["@ + decimal_items(t));
            } else {
                assert(s@ =~= start + "["@ + decimal_items(t));
            }
        }
    }
    s.append("]");
    proof {
        assert(nums.take(n as int) =~= nums);
        assert(s@ =~= start + decimal_list(nums));
    }
}

} // verus!
