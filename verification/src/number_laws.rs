//! What the decimal texts of numbers are, and what they are read as.
use crate::line_laws::law_decimal_read_back;
use crate::number::{all_digits, decimal, integer, natural, signed, unsigned, value};
use vstd::arithmetic::div_mod::lemma_div_denominator;
use vstd::arithmetic::power::{lemma_pow_positive, pow};
use vstd::prelude::*;

verus! {

/// A power of ten is ten times the one before.
proof fn lemma_ten(e: nat)
    ensures
        pow(10, e) > 0,
        pow(10, e + 1) == 10 * pow(10, e),
        pow(10, 0) == 1,
{
    lemma_pow_positive(10, e);
    reveal(pow);
}

/// The digits of a decimal text are the digits of the number: counted from the end, the one at `k`
/// stands for what is left of the number in tens to the `k`. There are no more of them than the
/// number needs, and no zero in front.
pub proof fn law_digits(n: nat, k: nat)
    ensures
        decimal(n).len() > 0,
        n < pow(10, decimal(n).len()),
        decimal(n).len() > 1 ==> decimal(n)[0] != '0',
        k < decimal(n).len() ==> decimal(n)[decimal(n).len() - 1 - k] as u32 == 48 + (n / pow(
            10,
            k,
        ) as nat) % 10,
    decreases n,
{
    lemma_ten(0);
    lemma_ten(k);
    if n < 10 {
        if k == 0 {
            assert(n / 1 == n);
        }
    } else {
        let m = n / 10;
        let d = decimal(m);
        law_digits(m, 0);
        lemma_ten(d.len());
        if m < 10 {
            assert(m % 10 == m);
            assert(m / 1 == m);
        }
        assert(n < 10 * (m + 1));
        if k == 0 {
            assert(n / 1 == n);
        } else {
            let j = (k - 1) as nat;
            law_digits(m, j);
            lemma_ten(j);
            lemma_div_denominator(n as int, 10, pow(10, j));
        }
    }
}

/// A negative integer has a minus sign before the text of its size, and no other has a sign.
pub proof fn law_sign(n: int)
    ensures
        n >= 0 ==> integer(n) == decimal(n as nat),
        n < 0 ==> integer(n).len() > 0 && integer(n)[0] == '-' && integer(n).skip(1) == decimal(
            (-n) as nat,
        ),
{
    if n < 0 {
        assert(integer(n).skip(1) =~= decimal((-n) as nat));
    }
}

/// Just a text of one digit or more, with or without a plus sign before them, is read as a number.
pub proof fn law_what_is_a_number(s: Seq<char>)
    ensures
        unsigned(s) is Some <==> ({
            let from: int = if s.len() > 0 && s[0] == '+' {
                1
            } else {
                0
            };
            &&& s.len() > from
            &&& forall|i: int| from <= i < s.len() ==> '0' <= #[trigger] s[i] <= '9'
        }),
{
    if s.len() > 0 && s[0] == '+' {
        let t = s.skip(1);
        if all_digits(t) {
            assert forall|i: int| 1 <= i < s.len() implies '0' <= #[trigger] s[i] <= '9' by {
                assert(t[i - 1] == s[i]);
            }
        } else {
            let i = choose|i: int| 0 <= i < t.len() && !('0' <= #[trigger] t[i] <= '9');
            assert(s[i + 1] == t[i]);
        }
    }
}

/// Just a text of one digit or more, with or without a sign before them, is read as an integer.
pub proof fn law_what_is_an_integer(s: Seq<char>)
    ensures
        signed(s) is Some <==> ({
            let from: int = if s.len() > 0 && (s[0] == '+' || s[0] == '-') {
                1
            } else {
                0
            };
            &&& s.len() > from
            &&& forall|i: int| from <= i < s.len() ==> '0' <= #[trigger] s[i] <= '9'
        }),
{
    if s.len() > 0 && s[0] == '-' {
        let t = s.skip(1);
        if all_digits(t) {
            assert forall|i: int| 1 <= i < s.len() implies '0' <= #[trigger] s[i] <= '9' by {
                assert(t[i - 1] == s[i]);
            }
        } else {
            let i = choose|i: int| 0 <= i < t.len() && !('0' <= #[trigger] t[i] <= '9');
            assert(s[i + 1] == t[i]);
        }
    } else {
        law_what_is_a_number(s);
    }
}

/// What digits write without a zero in front is the number whose decimal text they are.
pub proof fn law_digits_read(s: Seq<char>)
    requires
        s.len() > 0,
        forall|i: int| 0 <= i < s.len() ==> '0' <= #[trigger] s[i] <= '9',
        s.len() > 1 ==> s[0] != '0',
    ensures
        unsigned(s) is Some,
        decimal(unsigned(s)->0) == s,
{
    assert('0' <= s[0] <= '9');
    lemma_digits_read(s);
}

proof fn lemma_digits_read(s: Seq<char>)
    requires
        s.len() > 0,
        all_digits(s),
        s.len() > 1 ==> s[0] != '0',
    ensures
        decimal(value(s)) == s,
        s[0] != '0' ==> value(s) > 0,
    decreases s.len(),
{
    let t = s.drop_last();
    let d = (s.last() as u32 - 48) as nat;
    assert('0' <= s[s.len() - 1] <= '9');
    if s.len() == 1 {
        assert(value(t) == 0);
        assert(decimal(value(s)) =~= s);
    } else {
        assert forall|i: int| 0 <= i < t.len() implies '0' <= #[trigger] t[i] <= '9' by {
            assert(t[i] == s[i]);
        }
        lemma_digits_read(t);
        assert(value(s) == value(t) * 10 + d);
        assert(value(s) / 10 == value(t));
        assert(value(s) % 10 == d);
        assert(t.push(s.last()) =~= s);
    }
}

/// A zero in front of digits does not change what they write.
pub proof fn law_zeros_in_front(s: Seq<char>)
    requires
        s.len() > 0,
        forall|i: int| 0 <= i < s.len() ==> '0' <= #[trigger] s[i] <= '9',
    ensures
        unsigned(seq!['0'] + s) == unsigned(s),
{
    let t = seq!['0'] + s;
    assert('0' <= s[0] <= '9');
    assert forall|i: int| 0 <= i < t.len() implies '0' <= #[trigger] t[i] <= '9' by {
        if i > 0 {
            assert(t[i] == s[i - 1]);
        }
    }
    lemma_zero_in_front(s);
}

proof fn lemma_zero_in_front(s: Seq<char>)
    ensures
        value(seq!['0'] + s) == value(s),
    decreases s.len(),
{
    let t = seq!['0'] + s;
    if s.len() == 0 {
        assert(t.drop_last() =~= s);
    } else {
        lemma_zero_in_front(s.drop_last());
        assert(t.drop_last() =~= seq!['0'] + s.drop_last());
    }
}

/// A plus sign does not change what digits write, and a minus sign makes it negative; without a
/// minus sign an integer is read as the number is.
pub proof fn law_signs_read(s: Seq<char>)
    requires
        s.len() > 0,
        forall|i: int| 0 <= i < s.len() ==> '0' <= #[trigger] s[i] <= '9',
    ensures
        unsigned(seq!['+'] + s) == unsigned(s),
        signed(s) == Some(unsigned(s)->0 as int),
        signed(seq!['+'] + s) == signed(s),
        signed(seq!['-'] + s) == Some(-(unsigned(s)->0 as int)),
{
    assert('0' <= s[0] <= '9');
    assert((seq!['+'] + s).skip(1) =~= s);
    assert((seq!['-'] + s).skip(1) =~= s);
    assert(natural(s) is Some);
}

/// Different numbers have different texts.
pub proof fn law_texts_differ(n: nat, m: nat)
    requires
        decimal(n) == decimal(m),
    ensures
        n == m,
{
    law_decimal_read_back(n);
    law_decimal_read_back(m);
}

} // verus!
