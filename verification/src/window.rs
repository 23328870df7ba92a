//! Window identifiers, with a verified decimal string codec.

use vstd::prelude::*;

verus! {

/// Whether the character is a decimal digit.
pub open spec fn is_dec_digit(c: char) -> bool {
    48 <= c as int <= 57
}

/// The numeric value of a decimal digit character.
pub open spec fn digit_value(c: char) -> int {
    c as int - 48
}

/// Every character of the sequence is a decimal digit.
pub open spec fn all_dec_digits(s: Seq<char>) -> bool {
    forall|i: int| 0 <= i < s.len() ==> is_dec_digit(#[trigger] s[i])
}

/// The number a digit string denotes, most significant digit first.
pub open spec fn dec_value(s: Seq<char>) -> int
    decreases s.len(),
{
    if s.len() == 0 {
        0
    } else {
        dec_value(s.drop_last()) * 10 + digit_value(s.last())
    }
}

/// The digit part of a numeric literal: everything after an optional
/// leading plus sign.
pub open spec fn digits_part(s: Seq<char>) -> Seq<char> {
    if s.len() > 0 && s[0] == '+' {
        s.skip(1)
    } else {
        s
    }
}

/// Whether the string is an unsigned decimal literal a `u32` can hold: an
/// optional plus sign, then at least one digit, denoting a value that
/// fits.
pub open spec fn valid_u32_literal(s: Seq<char>) -> bool {
    &&& digits_part(s).len() >= 1
    &&& all_dec_digits(digits_part(s))
    &&& dec_value(digits_part(s)) <= u32::MAX
}

/// A digit string denotes a non-negative number.
proof fn lemma_dec_value_nonneg(s: Seq<char>)
    requires
        all_dec_digits(s),
    ensures
        dec_value(s) >= 0,
    decreases s.len(),
{
    if s.len() > 0 {
        assert(forall|i: int| 0 <= i < s.len() - 1 ==> is_dec_digit(#[trigger] s.drop_last()[i]));
        lemma_dec_value_nonneg(s.drop_last());
    }
}

/// Appending a digit multiplies the value by ten and adds the digit.
proof fn lemma_dec_value_push(s: Seq<char>, c: char)
    ensures
        dec_value(s.push(c)) == dec_value(s) * 10 + digit_value(c),
{
    assert(s.push(c).drop_last() =~= s);
}

/// A digit string is worth at least any of its prefixes.
proof fn lemma_dec_value_prefix_le(s: Seq<char>, i: int)
    requires
        all_dec_digits(s),
        0 <= i <= s.len(),
    ensures
        dec_value(s.subrange(0, i)) <= dec_value(s),
    decreases s.len() - i,
{
    if i == s.len() {
        assert(s.subrange(0, i) =~= s);
    } else {
        lemma_dec_value_prefix_le(s, i + 1);
        assert(s.subrange(0, i + 1).drop_last() =~= s.subrange(0, i));
        assert(s.subrange(0, i + 1).last() == s[i]);
        assert(forall|k: int| 0 <= k < i ==> is_dec_digit(#[trigger] s.subrange(0, i)[k]));
        lemma_dec_value_nonneg(s.subrange(0, i));
    }
}

/// The number a digit sequence denotes when its least significant digit
/// comes first.
spec fn lsb_value(d: Seq<u8>) -> int
    decreases d.len(),
{
    if d.len() == 0 {
        0
    } else {
        d[0] + 10 * lsb_value(d.drop_first())
    }
}

/// Powers of ten.
spec fn pow10(k: nat) -> int
    decreases k,
{
    if k == 0 {
        1
    } else {
        10 * pow10((k - 1) as nat)
    }
}

/// Appending a digit at the most significant end adds it with its place
/// value.
proof fn lemma_lsb_value_push(d: Seq<u8>, x: u8)
    ensures
        lsb_value(d.push(x)) == lsb_value(d) + x * pow10(d.len()),
    decreases d.len(),
{
    if d.len() == 0 {
        assert(d.push(x).drop_first() =~= Seq::<u8>::empty());
        assert(d.push(x)[0] == x);
        assert(lsb_value(d.push(x)) == x + 10 * lsb_value(Seq::<u8>::empty()));
        assert(lsb_value(d) == 0);
        assert(pow10(d.len()) == 1);
        assert(lsb_value(d.push(x)) == lsb_value(d) + x * pow10(d.len()));
    } else {
        assert(d.push(x).drop_first() =~= d.drop_first().push(x));
        assert(d.push(x)[0] == d[0]);
        lemma_lsb_value_push(d.drop_first(), x);
        assert(lsb_value(d.push(x)) == d[0] + 10 * (lsb_value(d.drop_first()) + x * pow10(
            d.drop_first().len(),
        )));
        assert(10 * (lsb_value(d.drop_first()) + x * pow10(d.drop_first().len())) == 10
            * lsb_value(d.drop_first()) + x * (10 * pow10(d.drop_first().len())))
            by (nonlinear_arith);
        assert(pow10(d.len()) == 10 * pow10(d.drop_first().len()));
    }
}

/// The one-character string for a decimal digit.
fn digit_str(d: u8) -> (r: &'static str)
    requires
        d < 10,
    ensures
        r@.len() == 1,
        is_dec_digit(r@[0]),
        digit_value(r@[0]) == d as int,
{
    proof {
        reveal_strlit("0");
        reveal_strlit("1");
        reveal_strlit("2");
        reveal_strlit("3");
        reveal_strlit("4");
        reveal_strlit("5");
        reveal_strlit("6");
        reveal_strlit("7");
        reveal_strlit("8");
        reveal_strlit("9");
    }
    match d {
        0 => "0",
        1 => "1",
        2 => "2",
        3 => "3",
        4 => "4",
        5 => "5",
        6 => "6",
        7 => "7",
        8 => "8",
        9 => "9",
        _ => unreached(),
    }
}

/// A unique identifier for windows: a `u32` with a decimal string form.
#[derive(Debug, Clone, Copy, PartialEq, Eq, Structural, Hash)]
pub struct ID(pub u32);

impl ID {
    /// Creates a new `ID` with the given value.
    pub fn new(value: u32) -> (r: Self)
        ensures
            r.0 == value,
    {
        Self(value)
    }

    /// Returns the underlying value of the `ID`.
    pub fn value(self) -> (r: u32)
        ensures
            r == self.0,
    {
        self.0
    }

    /// Renders the `ID` as its decimal string: at least one digit, no
    /// leading zero except for zero itself.
    pub fn to_string(self) -> (r: String)
        ensures
            all_dec_digits(r@),
            r@.len() >= 1,
            dec_value(r@) == self.0,
            r@.len() > 1 ==> r@[0] != '0',
    {
        if self.0 == 0 {
            let zero = digit_str(0);
            let mut out = String::new();
            out.append(zero);
            proof {
                assert(out@ =~= zero@);
                assert(out@.drop_last() =~= Seq::<char>::empty());
                assert(out@.last() == zero@[0]);
                assert(dec_value(out@) == dec_value(out@.drop_last()) * 10 + digit_value(
                    out@.last(),
                ));
            }
            return out;
        }
        let mut digits: Vec<u8> = Vec::new();
        let mut m: u32 = self.0;
        while m > 0
            invariant
                m as int * pow10(digits@.len()) + lsb_value(digits@) == self.0 as int,
                forall|k: int| 0 <= k < digits@.len() ==> #[trigger] digits@[k] < 10,
                m > 0 || (digits@.len() > 0 && digits@.last() >= 1),
            decreases m,
        {
            let dig: u8 = (m % 10) as u8;
            proof {
                lemma_lsb_value_push(digits@, dig);
                assert((m as int / 10) * (10 * pow10(digits@.len())) + (m as int % 10) * pow10(
                    digits@.len(),
                ) == m as int * pow10(digits@.len())) by (nonlinear_arith);
            }
            digits.push(dig);
            m = m / 10;
        }
        let mut out = String::new();
        let n: usize = digits.len();
        let mut i: usize = n;
        proof {
            assert(digits@.subrange(n as int, n as int) =~= Seq::<u8>::empty());
        }
        while i > 0
            invariant
                n == digits@.len(),
                i <= n,
                lsb_value(digits@) == self.0 as int,
                forall|k: int| 0 <= k < digits@.len() ==> #[trigger] digits@[k] < 10,
                digits@.len() > 0 && digits@.last() >= 1,
                all_dec_digits(out@),
                out@.len() == n - i,
                dec_value(out@) == lsb_value(digits@.subrange(i as int, n as int)),
                out@.len() > 0 ==> digit_value(out@[0]) == digits@.last(),
            decreases i,
        {
            let c_str = digit_str(digits[i - 1]);
            let ghost out0 = out@;
            out.append(c_str);
            proof {
                assert(out@ =~= out0.push(c_str@[0]));
                lemma_dec_value_push(out0, c_str@[0]);
                assert(digits@.subrange(i - 1, n as int).drop_first() =~= digits@.subrange(
                    i as int,
                    n as int,
                ));
                assert(digits@.subrange(i - 1, n as int)[0] == digits@[i - 1]);
            }
            i = i - 1;
        }
        proof {
            assert(digits@.subrange(0, n as int) =~= digits@);
        }
        out
    }

    /// Parses a decimal string into an `ID`: an optional plus sign, then
    /// at least one digit, denoting a value that fits a `u32`; anything
    /// else yields `None`.
    pub fn from_string(s: &str) -> (r: Option<Self>)
        ensures
            match r {
                Some(id) => valid_u32_literal(s@) && id.0 == dec_value(digits_part(s@)),
                None => !valid_u32_literal(s@),
            },
    {
        let n: usize = s.unicode_len();
        let mut i: usize = 0;
        if n > 0 && s.get_char(0) == '+' {
            i = 1;
        }
        let ghost body = digits_part(s@);
        proof {
            if i == 1 {
                assert(body =~= s@.skip(1));
            } else {
                assert(body =~= s@);
            }
        }
        if i >= n {
            return Option::None;
        }
        let mut acc: u32 = 0;
        let mut j: usize = i;
        proof {
            assert(body.subrange(0, 0) =~= Seq::<char>::empty());
        }
        while j < n
            invariant
                s@.len() == n,
                body == digits_part(s@),
                i <= 1,
                i <= j <= n,
                i < n,
                i == 1 ==> s@.len() > 0 && s@[0] == '+' && body =~= s@.skip(1),
                i == 0 ==> body == s@,
                body.len() == n - i,
                forall|k: int| 0 <= k < j - i ==> is_dec_digit(#[trigger] body[k]),
                acc as int == dec_value(body.subrange(0, j - i)),
            decreases n - j,
        {
            let c: char = s.get_char(j);
            proof {
                assert(body[j - i] == s@[j as int]);
            }
            let d: u32 = c as u32;
            if d < 48 || d > 57 {
                proof {
                    assert(!is_dec_digit(body[j - i]));
                }
                return Option::None;
            }
            let dv: u32 = d - 48;
            if acc > (u32::MAX - dv) / 10 {
                proof {
                    assert(acc as int * 10 + dv as int > u32::MAX as int) by (nonlinear_arith)
                        requires
                            acc as int > (u32::MAX as int - dv as int) / 10,
                            0 <= dv as int <= 9,
                    ;
                    lemma_dec_value_push(body.subrange(0, j - i), body[j - i]);
                    assert(body.subrange(0, j - i).push(body[j - i]) =~= body.subrange(
                        0,
                        j - i + 1,
                    ));
                    if all_dec_digits(body) {
                        lemma_dec_value_prefix_le(body, j - i + 1);
                    }
                }
                return Option::None;
            }
            proof {
                assert(acc as int * 10 + dv as int <= u32::MAX as int) by (nonlinear_arith)
                    requires
                        acc as int <= (u32::MAX as int - dv as int) / 10,
                        0 <= dv as int <= 9,
                        acc as int >= 0,
                ;
                lemma_dec_value_push(body.subrange(0, j - i), body[j - i]);
                assert(body.subrange(0, j - i).push(body[j - i]) =~= body.subrange(0, j - i + 1));
            }
            acc = acc * 10 + dv;
            j = j + 1;
        }
        proof {
            assert(body.subrange(0, (n - i) as int) =~= body);
        }
        Option::Some(ID(acc))
    }

    /// Increments the `ID` in place, wrapping at the largest value, and
    /// returns the new `ID`.
    pub fn next(&mut self) -> (r: Self)
        ensures
            final(self).0 == if old(self).0 == u32::MAX {
                0u32
            } else {
                (old(self).0 + 1) as u32
            },
            r == *final(self),
    {
        if self.0 == u32::MAX {
            self.0 = 0;
        } else {
            self.0 = self.0 + 1;
        }
        Self(self.0)
    }
}

} // verus!
