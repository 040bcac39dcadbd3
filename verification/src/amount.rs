//! Token amounts: unsigned 128-bit quantities with checked arithmetic and a
//! strict decimal text form.

use vstd::prelude::*;
use vstd::string::is_ascii_spec_bytes;
use vstd::string::StringExecFns;
use crate::error::LedgerError;

verus! {

/// Whether `c` is one of the ten decimal digits.
pub open spec fn is_digit(c: char) -> bool {
    '0' <= c && c <= '9'
}

/// The number that the decimal digit `c` stands for.
pub open spec fn digit_value(c: char) -> nat {
    (c as u32 - '0' as u32) as nat
}

/// Whether `s` is a non-empty run of decimal digits: no sign, no blank, no
/// other character.
pub open spec fn is_decimal(s: Seq<char>) -> bool {
    s.len() > 0 && forall|i: int| 0 <= i < s.len() ==> is_digit(#[trigger] s[i])
}

/// The number that a run of decimal digits denotes, most significant digit
/// first. Leading zeros do not change it.
pub open spec fn decimal_value(s: Seq<char>) -> nat
    decreases s.len(),
{
    if s.len() == 0 {
        0
    } else {
        decimal_value(s.drop_last()) * 10 + digit_value(s.last())
    }
}

/// A non-negative quantity of tokens.
#[derive(Clone, Copy, Debug, PartialEq, Eq, Structural, Ord, Hash)]
pub struct Amount(pub u128);

impl View for Amount {
    type V = nat;

    open spec fn view(&self) -> nat {
        self.0 as nat
    }
}

/// The character that writes the digit `d`, for `d` below ten.
pub open spec fn digit_char(d: nat) -> char {
    ((48 + d) as u8) as char
}

/// The canonical decimal text of `n`: most significant digit first, no
/// leading zero but for the number zero itself.
pub open spec fn decimal_text(n: nat) -> Seq<char>
    decreases n,
{
    if n < 10 {
        seq![digit_char(n)]
    } else {
        decimal_text(n / 10).push(digit_char(n % 10))
    }
}

/// What reading `s` as an amount gives: the number it denotes where `s` is
/// a run of decimal digits whose value fits in 128 bits, nothing otherwise.
pub open spec fn parsed(s: Seq<char>) -> Option<nat> {
    if is_decimal(s) && decimal_value(s) <= u128::MAX {
        Some(decimal_value(s))
    } else {
        None
    }
}

/// A longer prefix of a run of digits never denotes a smaller number.
pub proof fn lemma_prefix_value_le(s: Seq<char>, k: int)
    requires
        0 <= k <= s.len(),
    ensures
        decimal_value(s.take(k)) <= decimal_value(s),
    decreases s.len(),
{
    if k == s.len() {
        assert(s.take(k) =~= s);
    } else {
        lemma_prefix_value_le(s.drop_last(), k);
        assert(s.drop_last().take(k) =~= s.take(k));
    }
}

/// The value of a prefix that is one digit longer.
pub proof fn lemma_value_step(s: Seq<char>, k: int)
    requires
        0 <= k < s.len(),
    ensures
        decimal_value(s.take(k + 1)) == decimal_value(s.take(k)) * 10 + digit_value(s[k]),
{
    assert(s.take(k + 1).drop_last() =~= s.take(k));
    assert(s.take(k + 1).last() == s[k]);
}

/// Reading the canonical text of a number gives the number back.
pub proof fn lemma_decimal_text_value(n: nat)
    ensures
        is_decimal(decimal_text(n)),
        decimal_value(decimal_text(n)) == n,
    decreases n,
{
    if n < 10 {
        let s = decimal_text(n);
        assert(s.len() == 1 && s[0] == digit_char(n));
        assert(s.drop_last() =~= Seq::<char>::empty());
        assert(decimal_value(s.drop_last()) == 0);
    } else {
        lemma_decimal_text_value(n / 10);
        let t = decimal_text(n / 10);
        let s = decimal_text(n);
        assert(s.drop_last() =~= t);
        assert(s.last() == digit_char(n % 10));
        assert forall|i: int| 0 <= i < s.len() implies is_digit(#[trigger] s[i]) by {
            if i < t.len() {
                assert(s[i] == t[i]);
            }
        }
    }
}

/// A zero in front of a run of digits changes neither that it is one nor
/// the number it denotes.
pub proof fn lemma_leading_zero(s: Seq<char>)
    ensures
        is_decimal(s) ==> is_decimal(seq!['0'] + s),
        s.len() > 0 ==> (is_decimal(seq!['0'] + s) ==> is_decimal(s)),
        decimal_value(seq!['0'] + s) == decimal_value(s),
    decreases s.len(),
{
    let z = seq!['0'] + s;
    if s.len() == 0 {
        assert(z.drop_last() =~= Seq::<char>::empty());
        assert(decimal_value(z.drop_last()) == 0);
    } else {
        lemma_leading_zero(s.drop_last());
        assert(z.drop_last() =~= seq!['0'] + s.drop_last());
        assert(z.last() == s.last());
        if is_decimal(s) {
            assert forall|i: int| 0 <= i < z.len() implies is_digit(#[trigger] z[i]) by {
                if i > 0 {
                    assert(z[i] == s[i - 1]);
                }
            }
        }
        if is_decimal(z) {
            assert forall|i: int| 0 <= i < s.len() implies is_digit(#[trigger] s[i]) by {
                assert(s[i] == z[i + 1]);
            }
        }
    }
}

/// The one-character text of a digit.
fn digit_str(d: u8) -> (text: &'static str)
    requires
        d < 10,
    ensures
        text@ == seq![digit_char(d as nat)],
{
    proof {
        reveal_strlit("0");
        reveal_strlit("1");
        reveal_strlit("2");
        reveal_strlit("3");
        reveal_strlit("4");
        reveal_strlit("5");
        reveal_strlit("6");
        reveal_strlit("7");
        reveal_strlit("8");
        reveal_strlit("9");
    }
    let text = match d {
        0 => "0",
        1 => "1",
        2 => "2",
        3 => "3",
        4 => "4",
        5 => "5",
        6 => "6",
        7 => "7",
        8 => "8",
        _ => "9",
    };
    assert(text@ =~= seq![digit_char(d as nat)]);
    text
}

/// Appends the canonical decimal text of `n` to `out`.
fn push_decimal(n: u128, out: &mut String)
    ensures
        final(out)@ == old(out)@ + decimal_text(n as nat),
    decreases n,
{
    if n >= 10 {
        push_decimal(n / 10, out);
    }
    let d: u8 = (n % 10) as u8;
    out.append(digit_str(d));
    proof {
        if n >= 10 {
            assert(old(out)@ + decimal_text((n / 10) as nat) + seq![digit_char(d as nat)]
                =~= old(out)@ + decimal_text(n as nat));
        }
    }
}

impl Amount {
    /// The amount zero.
    pub fn zero() -> (amount: Amount)
        ensures
            amount@ == 0,
    {
        Amount(0)
    }

    /// The quantity as a machine integer.
    pub fn value(&self) -> (value: u128)
        ensures
            value == self@,
    {
        self.0
    }

    /// Reads an amount from its decimal text. The text must be a non-empty
    /// run of the digits `0` to `9` whose value fits in 128 bits; a sign, a
    /// blank or any other character is refused. Leading zeros are accepted.
    pub fn parse(text: &str) -> (result: Result<Amount, LedgerError>)
        ensures
            match result {
                Ok(amount) => parsed(text@) == Some(amount@),
                Err(e) => parsed(text@).is_none() && e == LedgerError::InvalidAmount,
            },
    {
        if !text.is_ascii() {
            return Err(LedgerError::InvalidAmount);
        }
        let bytes = text.as_bytes();
        let n: usize = bytes.len();
        proof {
            is_ascii_spec_bytes(text);
        }
        if n == 0 {
            return Err(LedgerError::InvalidAmount);
        }
        let mut acc: u128 = 0;
        let mut i: usize = 0;
        while i < n
            invariant
                0 <= i <= n,
                n == text@.len(),
                n == bytes@.len(),
                vstd::string::is_ascii(text),
                forall|j: int| 0 <= j < n ==> bytes@[j] == text@[j] as u8,
                forall|j: int| 0 <= j < i ==> is_digit(#[trigger] text@[j]),
                acc == decimal_value(text@.take(i as int)),
            decreases n - i,
        {
            let b: u8 = bytes[i];
            if b < 48 || b > 57 {
                assert(!is_digit(text@[i as int]));
                return Err(LedgerError::InvalidAmount);
            }
            let d: u128 = (b - 48) as u128;
            assert(is_digit(text@[i as int]));
            assert(d == digit_value(text@[i as int]));
            proof {
                lemma_value_step(text@, i as int);
            }
            if acc > (u128::MAX - d) / 10 {
                proof {
                    assert(acc * 10 + d > u128::MAX);
                    lemma_prefix_value_le(text@, i + 1);
                }
                return Err(LedgerError::InvalidAmount);
            }
            acc = acc * 10 + d;
            i = i + 1;
        }
        assert(text@.take(n as int) =~= text@);
        Ok(Amount(acc))
    }

    /// Checks that `text` can be read as an amount, without keeping the
    /// result.
    pub fn validate(text: &str) -> (result: Result<(), LedgerError>)
        ensures
            result.is_ok() <==> parsed(text@).is_some(),
            result.is_err() ==> result == Err::<(), LedgerError>(LedgerError::InvalidAmount),
    {
        match Amount::parse(text) {
            Ok(_) => Ok(()),
            Err(e) => Err(e),
        }
    }

    /// The canonical decimal text of the amount.
    pub fn to_text(&self) -> (text: String)
        ensures
            text@ == decimal_text(self@),
            parsed(text@) == Some(self@),
    {
        let mut text = String::new();
        push_decimal(self.0, &mut text);
        proof {
            lemma_decimal_text_value(self@);
            assert(Seq::<char>::empty() + decimal_text(self@) =~= decimal_text(self@));
        }
        text
    }

    /// The sum of two amounts, refused where it does not fit in 128 bits.
    pub fn add(&self, other: &Amount) -> (result: Result<Amount, LedgerError>)
        ensures
            match result {
                Ok(sum) => sum@ == self@ + other@,
                Err(e) => self@ + other@ > u128::MAX && e == LedgerError::Overflow,
            },
    {
        if self.0 > u128::MAX - other.0 {
            Err(LedgerError::Overflow)
        } else {
            Ok(Amount(self.0 + other.0))
        }
    }

    /// What is left of this amount once `other` is taken from it, refused
    /// where `other` is the larger.
    pub fn subtract(&self, other: &Amount) -> (result: Result<Amount, LedgerError>)
        ensures
            match result {
                Ok(rest) => other@ <= self@ && rest@ == self@ - other@,
                Err(e) => self@ < other@ && e == LedgerError::InsufficientFunds,
            },
    {
        if self.0 < other.0 {
            Err(LedgerError::InsufficientFunds)
        } else {
            Ok(Amount(self.0 - other.0))
        }
    }
}

impl Default for Amount {
    fn default() -> (amount: Amount)
        ensures
            amount@ == 0,
    {
        Amount(0)
    }
}

impl From<u128> for Amount {
    fn from(value: u128) -> (amount: Amount) {
        Amount(value)
    }
}

impl vstd::std_specs::convert::FromSpecImpl<u128> for Amount {
    open spec fn obeys_from_spec() -> bool {
        true
    }

    open spec fn from_spec(value: u128) -> Amount {
        Amount(value)
    }
}

/// Writing an amount and reading the text again gives the same amount; so
/// does reading the text with any number of zeros put in front of it.
pub proof fn lemma_text_round_trip(x: Amount, zeros: nat)
    ensures
        parsed(decimal_text(x@)) == Some(x@),
        parsed(Seq::new(zeros, |i: int| '0') + decimal_text(x@)) == Some(x@),
    decreases zeros,
{
    lemma_decimal_text_value(x@);
    let t = decimal_text(x@);
    if zeros == 0 {
        assert(Seq::new(zeros, |i: int| '0') + t =~= t);
    } else {
        lemma_text_round_trip(x, (zeros - 1) as nat);
        let shorter = Seq::new((zeros - 1) as nat, |i: int| '0') + t;
        lemma_leading_zero(shorter);
        assert(Seq::new(zeros, |i: int| '0') + t =~= seq!['0'] + shorter);
    }
}

} // verus!
