//! Decimal spelling of the attempt and check numbers in artifact names.
use vstd::prelude::*;

use crate::text::{is_ascii_digit, is_digit};

verus! {

pub open spec fn digit_char(d: nat) -> char {
    (48 + d) as char
}

/// The decimal digits of `n`, without leading zeros.
pub open spec fn decimal(n: nat) -> Seq<char>
    decreases n,
{
    if n < 10 {
        seq![digit_char(n)]
    } else {
        decimal(n / 10).push(digit_char(n % 10))
    }
}

pub open spec fn zeros(k: nat) -> Seq<char> {
    Seq::new(k, |i: int| '0')
}

/// `format!("{n:03}")`: decimal, left-padded with zeros to at least three digits.
pub open spec fn pad3(n: nat) -> Seq<char> {
    if decimal(n).len() >= 3 {
        decimal(n)
    } else {
        zeros((3 - decimal(n).len()) as nat) + decimal(n)
    }
}

/// The number that a string of decimal digits spells.
pub open spec fn digits_value(s: Seq<char>) -> nat
    decreases s.len(),
{
    if s.len() == 0 {
        0
    } else {
        digits_value(s.drop_last()) * 10 + ((s.last() as u32) - 48) as nat
    }
}

pub open spec fn all_digits(s: Seq<char>) -> bool {
    forall|i: int| 0 <= i < s.len() ==> is_digit(#[trigger] s[i])
}

/// A positive `u32` in canonical minimum-width-three spelling: `001`, `042`, `1000`.
pub open spec fn canonical_number_spec(s: Seq<char>) -> Option<u32> {
    if s.len() >= 3 && all_digits(s) && digits_value(s) > 0 && digits_value(s) <= u32::MAX
        && pad3(digits_value(s)) == s {
        Some(digits_value(s) as u32)
    } else {
        None
    }
}

fn digit_char_exec(d: u64) -> (c: char)
    requires
        d < 10,
    ensures
        c == digit_char(d as nat),
{
    if d == 0 {
        '0'
    } else if d == 1 {
        '1'
    } else if d == 2 {
        '2'
    } else if d == 3 {
        '3'
    } else if d == 4 {
        '4'
    } else if d == 5 {
        '5'
    } else if d == 6 {
        '6'
    } else if d == 7 {
        '7'
    } else if d == 8 {
        '8'
    } else {
        '9'
    }
}

pub fn decimal_exec(n: u64) -> (r: Vec<char>)
    ensures
        r@ == decimal(n as nat),
    decreases n,
{
    if n < 10 {
        let mut r: Vec<char> = Vec::new();
        r.push(digit_char_exec(n));
        assert(r@ =~= seq![digit_char(n as nat)]);
        r
    } else {
        let mut r = decimal_exec(n / 10);
        r.push(digit_char_exec(n % 10));
        r
    }
}

pub fn pad3_exec(n: u64) -> (r: Vec<char>)
    ensures
        r@ == pad3(n as nat),
{
    let d = decimal_exec(n);
    if d.len() >= 3 {
        return d;
    }
    let mut r: Vec<char> = Vec::new();
    let k = 3 - d.len();
    let mut i: usize = 0;
    while i < k
        invariant
            i <= k,
            k == 3 - d.len(),
            r@ == zeros(i as nat),
        decreases k - i,
    {
        r.push('0');
        assert(r@ =~= zeros((i + 1) as nat));
        i = i + 1;
    }
    let mut j: usize = 0;
    while j < d.len()
        invariant
            j <= d.len(),
            k == 3 - d.len(),
            r@ == zeros(k as nat) + d@.take(j as int),
        decreases d.len() - j,
    {
        r.push(d[j]);
        assert(d@.take(j + 1) =~= d@.take(j as int).push(d@[j as int]));
        assert(zeros(k as nat) + d@.take(j + 1) =~= (zeros(k as nat) + d@.take(j as int)).push(
            d@[j as int],
        ));
        j = j + 1;
    }
    assert(d@.take(d.len() as int) =~= d@);
    r
}

proof fn lemma_digits_value_prefix(s: Seq<char>, i: int)
    requires
        0 <= i <= s.len(),
    ensures
        digits_value(s.take(i)) <= digits_value(s),
    decreases s.len() - i,
{
    if i < s.len() {
        lemma_digits_value_prefix(s, i + 1);
        assert(s.take(i + 1).drop_last() =~= s.take(i));
    } else {
        assert(s.take(i) =~= s);
    }
}

/// Parses a canonical attempt or check number.
pub fn canonical_number(s: &Vec<char>) -> (r: Option<u32>)
    ensures
        r == canonical_number_spec(s@),
{
    if s.len() < 3 {
        return None;
    }
    let mut value: u64 = 0;
    let mut i: usize = 0;
    while i < s.len()
        invariant
            i <= s.len(),
            all_digits(s@.take(i as int)),
            value as nat == digits_value(s@.take(i as int)),
            value <= u32::MAX,
        decreases s.len() - i,
    {
        assert(s@.take(i + 1).drop_last() =~= s@.take(i as int));
        if !is_ascii_digit(s[i]) {
            assert(!is_digit(s@[i as int]));
            return None;
        }
        let d = (s[i] as u32 - 48) as u64;
        let next = value * 10 + d;
        assert(s@.take(i + 1).last() == s@[i as int]);
        if next > 4294967295 {
            proof {
                lemma_digits_value_prefix(s@, i + 1);
            }
            return None;
        }
        value = next;
        assert forall|j: int| 0 <= j < i + 1 implies is_digit(#[trigger] s@.take(i + 1)[j]) by {
            if j < i {
                assert(s@.take(i + 1)[j] == s@.take(i as int)[j]);
            }
        }
        i = i + 1;
    }
    assert(s@.take(s.len() as int) =~= s@);
    if value == 0 {
        return None;
    }
    let padded = pad3_exec(value);
    if crate::text::seq_eq(&padded, s) {
        Some(value as u32)
    } else {
        None
    }
}

proof fn lemma_decimal_digits(n: nat)
    ensures
        all_digits(decimal(n)),
        digits_value(decimal(n)) == n,
        decimal(n).len() >= 1,
    decreases n,
{
    if n >= 10 {
        lemma_decimal_digits(n / 10);
        let d = decimal(n);
        assert(d.drop_last() =~= decimal(n / 10));
        assert(d.last() == digit_char(n % 10));
        assert((digit_char(n % 10) as u32) == 48 + n % 10);
        assert(n == (n / 10) * 10 + n % 10);
        assert forall|i: int| 0 <= i < d.len() implies is_digit(#[trigger] d[i]) by {
            if i < d.len() - 1 {
                assert(d[i] == decimal(n / 10)[i]);
            }
        }
        assert(digits_value(d) == digits_value(d.drop_last()) * 10 + ((d.last() as u32) - 48) as nat);
    } else {
        let d = decimal(n);
        assert(digits_value(d.drop_last()) == 0);
        assert(d.last() == digit_char(n));
        assert((digit_char(n) as u32) == 48 + n);
    }
}

proof fn lemma_zeros_value(k: nat, s: Seq<char>)
    ensures
        digits_value(zeros(k) + s) == digits_value(s),
        digits_value(zeros(k)) == 0,
        all_digits(zeros(k)),
    decreases s.len(),
{
    lemma_zeros_only(k);
    if s.len() == 0 {
        assert(zeros(k) + s =~= zeros(k));
    } else {
        lemma_zeros_value(k, s.drop_last());
        assert((zeros(k) + s).drop_last() =~= zeros(k) + s.drop_last());
    }
}

proof fn lemma_zeros_only(k: nat)
    ensures
        digits_value(zeros(k)) == 0,
        all_digits(zeros(k)),
    decreases k,
{
    if k > 0 {
        lemma_zeros_only((k - 1) as nat);
        assert(zeros(k).drop_last() =~= zeros((k - 1) as nat));
    }
}

/// A positive `u32` spelled with `pad3` parses back to itself.
pub proof fn lemma_canonical_roundtrip(n: u32)
    requires
        n > 0,
    ensures
        canonical_number_spec(pad3(n as nat)) == Some(n),
{
    lemma_decimal_digits(n as nat);
    let d = decimal(n as nat);
    if d.len() < 3 {
        let k = (3 - d.len()) as nat;
        lemma_zeros_value(k, d);
        let p = zeros(k) + d;
        assert forall|i: int| 0 <= i < p.len() implies is_digit(#[trigger] p[i]) by {
            if i < k {
                assert(p[i] == zeros(k)[i]);
            } else {
                assert(p[i] == d[i - k]);
            }
        }
    }
}

} // verus!
