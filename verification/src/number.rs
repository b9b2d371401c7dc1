//! Numbers as text: the value of a run of digits, and the decimal digits of a
//! value.

use vstd::prelude::*;
use vstd::string::StringExecFns;
use crate::chars::{all_in, digit_of, digit_value, to_chars, Class};

verus! {

/// The value of the digits `s` in base `radix`, the first digit counting most.
pub open spec fn radix_value(s: Seq<char>, radix: nat) -> nat
    decreases s.len(),
{
    if s.len() == 0 {
        0
    } else {
        radix_value(s.drop_last(), radix) * radix + digit_value(s.last())
    }
}

/// Whether `s` is a decimal numeral: one digit or more, and nothing else.
pub open spec fn is_numeral(s: Seq<char>) -> bool {
    s.len() > 0 && all_in(s, 0, s.len() as int, Class::Digit)
}

/// The number that the text `s` stands for, if `s` is a decimal numeral whose
/// value is at most `max`. Leading zeros count for nothing.
pub open spec fn decimal(s: Seq<char>, max: nat) -> Option<nat> {
    if is_numeral(s) && radix_value(s, 10) <= max {
        Some(radix_value(s, 10))
    } else {
        None
    }
}

/// The value of the first digits of a numeral is at most the value of all of
/// them.
pub proof fn lemma_prefix_value(s: Seq<char>, k: int, radix: nat)
    requires
        0 <= k <= s.len(),
        radix >= 1,
    ensures
        radix_value(s.take(k), radix) <= radix_value(s, radix),
    decreases s.len(),
{
    if k == s.len() {
        assert(s.take(k) =~= s);
    } else {
        assert(s.drop_last().take(k) =~= s.take(k));
        lemma_prefix_value(s.drop_last(), k, radix);
        let v = radix_value(s.drop_last(), radix);
        assert(v <= v * radix) by (nonlinear_arith)
            requires
                radix >= 1,
                v >= 0,
        ;
    }
}

/// Zeros before a numeral do not change its value.
pub proof fn lemma_leading_zero(s: Seq<char>, radix: nat)
    ensures
        radix_value(seq!['0'] + s, radix) == radix_value(s, radix),
    decreases s.len(),
{
    let t = seq!['0'] + s;
    if s.len() == 0 {
        assert(t.drop_last() =~= Seq::<char>::empty());
        assert(radix_value(t.drop_last(), radix) == 0);
        assert(radix_value(t, radix) == 0 * radix + 0);
    } else {
        assert(t.drop_last() =~= seq!['0'] + s.drop_last());
        assert(t.last() == s.last());
        lemma_leading_zero(s.drop_last(), radix);
    }
}

/// Reads the decimal numeral `text`; `None` if it is no numeral, or if its
/// value is greater than `max`.
pub fn parse_decimal(text: &str, max: u64) -> (r: Option<u64>)
    ensures
        match r {
            Some(v) => decimal(text@, max as nat) == Some(v as nat),
            None => decimal(text@, max as nat) is None,
        },
{
    let s = to_chars(text);
    if s.len() == 0 {
        return None;
    }
    let mut acc: u64 = 0;
    let mut i: usize = 0;
    while i < s.len()
        invariant
            0 <= i <= s.len(),
            s@ == text@,
            all_in(s@, 0, i as int, Class::Digit),
            acc == radix_value(s@.take(i as int), 10),
            acc <= max,
        decreases s.len() - i,
    {
        let c = s[i];
        if !Class::Digit.contains(c) {
            return None;
        }
        let d: u64 = digit_of(c) as u64;
        proof {
            assert(s@.take(i + 1).drop_last() =~= s@.take(i as int));
            assert(s@.take(i + 1).last() == c);
            lemma_prefix_value(s@, i + 1, 10);
        }
        if d > max || acc > (max - d) / 10 {
            return None;
        }
        acc = acc * 10 + d;
        i = i + 1;
    }
    proof {
        assert(s@.take(i as int) =~= s@);
    }
    Some(acc)
}

/// The character that stands for the digit `d`.
pub open spec fn digit_char(d: nat) -> char
    recommends
        d < 10,
{
    ('0' as u32 + d as u32) as char
}

/// The decimal digits of `n`, without leading zeros.
pub open spec fn decimal_text(n: nat) -> Seq<char>
    decreases n,
{
    if n < 10 {
        seq![digit_char(n)]
    } else {
        decimal_text(n / 10).push(digit_char(n % 10))
    }
}

/// The decimal digits of a number are a numeral with the number as its value,
/// as long as the number asks for and no longer.
pub proof fn lemma_decimal_text(n: nat)
    ensures
        is_numeral(decimal_text(n)),
        radix_value(decimal_text(n), 10) == n,
        n > 0 ==> decimal_text(n)[0] != '0',
        n < 10 ==> decimal_text(n).len() == 1,
        10 <= n < 100 ==> decimal_text(n).len() == 2,
        100 <= n < 1000 ==> decimal_text(n).len() == 3,
    decreases n,
{
    let text = decimal_text(n);
    if n < 10 {
        assert(text.drop_last() =~= Seq::<char>::empty());
        assert(radix_value(text.drop_last(), 10) == 0);
        assert(digit_value(digit_char(n)) == n);
    } else {
        lemma_decimal_text(n / 10);
        let head = decimal_text(n / 10);
        assert(text.drop_last() =~= head);
        assert(text.last() == digit_char(n % 10));
        assert(digit_value(digit_char(n % 10)) == n % 10);
        assert(text[0] == head[0]);
        assert forall|i: int| 0 <= i < text.len() implies Class::Digit.has(#[trigger] text[i]) by {
            if i < head.len() {
                assert(text[i] == head[i]);
            }
        }
    }
}

/// A numeral that does not start with a zero it could do without is the
/// decimal digits of its value.
pub proof fn lemma_canonical_numeral(s: Seq<char>)
    requires
        is_numeral(s),
        s.len() == 1 || s[0] != '0',
    ensures
        s == decimal_text(radix_value(s, 10)),
    decreases s.len(),
{
    let value = radix_value(s, 10);
    let last = digit_value(s.last());
    assert(Class::Digit.has(s[s.len() - 1]));
    assert(digit_char(last) == s.last());
    if s.len() == 1 {
        assert(s.drop_last() =~= Seq::<char>::empty());
        assert(radix_value(s.drop_last(), 10) == 0);
        assert(s =~= seq![digit_char(last)]);
    } else {
        let head = s.drop_last();
        assert forall|i: int| 0 <= i < head.len() implies Class::Digit.has(#[trigger] head[i]) by {
            assert(head[i] == s[i]);
        }
        assert(head[0] == s[0]);
        lemma_canonical_numeral(head);
        lemma_prefix_value(head, 1, 10);
        assert(head.take(1).drop_last() =~= Seq::<char>::empty());
        assert(radix_value(head.take(1).drop_last(), 10) == 0);
        assert(head.take(1).last() == s[0]);
        assert(Class::Digit.has(s[0]));
        assert(radix_value(head, 10) >= 1);
        assert(value / 10 == radix_value(head, 10));
        assert(value % 10 == last);
        assert(s =~= head.push(s.last()));
    }
}

/// The text of one decimal digit.
fn digit_str(d: u64) -> (r: &'static str)
    requires
        d < 10,
    ensures
        r@ == seq![digit_char(d as nat)],
{
    proof {
        reveal_strlit("0");
        reveal_strlit("1");
        reveal_strlit("2");
        reveal_strlit("3");
        reveal_strlit("4");
        reveal_strlit("5");
        reveal_strlit("6");
        reveal_strlit("7");
        reveal_strlit("8");
        reveal_strlit("9");
    }
    let r = if d == 0 {
        "0"
    } else if d == 1 {
        "1"
    } else if d == 2 {
        "2"
    } else if d == 3 {
        "3"
    } else if d == 4 {
        "4"
    } else if d == 5 {
        "5"
    } else if d == 6 {
        "6"
    } else if d == 7 {
        "7"
    } else if d == 8 {
        "8"
    } else {
        "9"
    };
    assert(r@ =~= seq![digit_char(d as nat)]);
    r
}

/// Appends the decimal digits of `n` to `out`.
fn push_decimal(out: &mut String, n: u64)
    ensures
        final(out)@ == old(out)@ + decimal_text(n as nat),
    decreases n,
{
    if n >= 10 {
        push_decimal(out, n / 10);
    }
    let ghost before = out@;
    out.append(digit_str(n % 10));
    proof {
        if n >= 10 {
            assert(out@ =~= old(out)@ + decimal_text(n as nat));
        } else {
            assert(out@ =~= old(out)@ + decimal_text(n as nat));
        }
    }
}

/// Writes `n` in decimal digits.
pub fn decimal_string(n: u64) -> (r: String)
    ensures
        r@ == decimal_text(n as nat),
{
    let mut out = String::new();
    push_decimal(&mut out, n);
    assert(out@ =~= decimal_text(n as nat));
    out
}

} // verus!
