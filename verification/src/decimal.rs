//! Canonical decimal rendering and parsing of machine-word integers.
//!
//! `spec_decimal` is the canonical (no leading zero) decimal form of a
//! number; rendering and parsing are both proved against it, so an index
//! encoded on one side and decoded on the other is provably the same index.

use vstd::prelude::*;

verus! {

pub open spec fn spec_digit_char(d: int) -> char {
    if d == 0 { '0' }
    else if d == 1 { '1' }
    else if d == 2 { '2' }
    else if d == 3 { '3' }
    else if d == 4 { '4' }
    else if d == 5 { '5' }
    else if d == 6 { '6' }
    else if d == 7 { '7' }
    else if d == 8 { '8' }
    else { '9' }
}

pub open spec fn spec_is_digit(c: char) -> bool {
    c == '0' || c == '1' || c == '2' || c == '3' || c == '4'
    || c == '5' || c == '6' || c == '7' || c == '8' || c == '9'
}

pub open spec fn spec_digit_val(c: char) -> int {
    if c == '0' { 0 }
    else if c == '1' { 1 }
    else if c == '2' { 2 }
    else if c == '3' { 3 }
    else if c == '4' { 4 }
    else if c == '5' { 5 }
    else if c == '6' { 6 }
    else if c == '7' { 7 }
    else if c == '8' { 8 }
    else { 9 }
}

/// The canonical decimal rendering of `n`: most significant digit first,
/// no leading zero (`0` itself renders as "0").
pub open spec fn spec_decimal(n: nat) -> Seq<char>
    decreases n,
{
    if n < 10 {
        seq![spec_digit_char(n as int)]
    } else {
        spec_decimal(n / 10).push(spec_digit_char((n % 10) as int))
    }
}

pub open spec fn spec_all_digits(s: Seq<char>) -> bool {
    forall|i: int| 0 <= i < s.len() ==> spec_is_digit(#[trigger] s[i])
}

/// The number a digit string denotes, most significant digit first.
pub open spec fn spec_digits_value(s: Seq<char>) -> int
    decreases s.len(),
{
    if s.len() == 0 {
        0
    } else {
        spec_digits_value(s.drop_last()) * 10 + spec_digit_val(s.last())
    }
}

pub proof fn lemma_decimal_len(k: nat)
    ensures
        spec_decimal(k).len() >= 1,
    decreases k,
{
    if k >= 10 {
        lemma_decimal_len(k / 10);
    }
}

pub proof fn lemma_decimal_digits(k: nat)
    ensures
        spec_all_digits(spec_decimal(k)),
    decreases k,
{
    if k >= 10 {
        lemma_decimal_digits(k / 10);
        assert(spec_decimal(k) == spec_decimal(k / 10).push(spec_digit_char((k % 10) as int)));
    }
}

pub proof fn lemma_decimal_first_nonzero(k: nat)
    requires
        k >= 1,
    ensures
        spec_decimal(k)[0] != '0',
    decreases k,
{
    if k >= 10 {
        lemma_decimal_len(k / 10);
        lemma_decimal_first_nonzero(k / 10);
    }
}

pub proof fn lemma_decimal_value(k: nat)
    ensures
        spec_digits_value(spec_decimal(k)) == k,
    decreases k,
{
    if k < 10 {
        assert(spec_decimal(k).drop_last() =~= Seq::<char>::empty());
        assert(spec_digits_value(Seq::<char>::empty()) == 0);
        assert(spec_decimal(k).last() == spec_digit_char(k as int));
        assert(spec_digit_val(spec_digit_char(k as int)) == k);
    } else {
        lemma_decimal_value(k / 10);
        lemma_decimal_len(k / 10);
        assert(spec_decimal(k).drop_last() =~= spec_decimal(k / 10));
        vstd::arithmetic::div_mod::lemma_fundamental_div_mod(k as int, 10);
    }
}

proof fn lemma_value_first_nonzero(s: Seq<char>)
    requires
        s.len() >= 1,
        spec_all_digits(s),
        s[0] != '0',
    ensures
        spec_digits_value(s) >= 1,
    decreases s.len(),
{
    if s.len() > 1 {
        assert(spec_is_digit(s[0]));
        lemma_value_first_nonzero(s.drop_last());
        assert(spec_is_digit(s.last()));
    } else {
        assert(s.drop_last() =~= Seq::<char>::empty());
        assert(spec_digits_value(Seq::<char>::empty()) == 0);
        assert(spec_is_digit(s[0]));
        assert(s.last() == s[0]);
    }
}

proof fn lemma_value_nonneg(s: Seq<char>)
    requires
        spec_all_digits(s),
    ensures
        spec_digits_value(s) >= 0,
    decreases s.len(),
{
    if s.len() > 0 {
        lemma_value_nonneg(s.drop_last());
    }
}

/// The value of a digit-string prefix never exceeds the value of the whole.
pub proof fn lemma_value_take_le(s: Seq<char>, i: int)
    requires
        spec_all_digits(s),
        0 <= i <= s.len(),
    ensures
        spec_digits_value(s.take(i)) <= spec_digits_value(s),
    decreases s.len(),
{
    if i < s.len() {
        assert(s.drop_last().take(i) =~= s.take(i));
        lemma_value_take_le(s.drop_last(), i);
        lemma_value_nonneg(s.drop_last());
    } else {
        assert(s.take(i) =~= s);
    }
}

/// A non-empty digit string with no leading zero is the canonical rendering
/// of its own value.
pub proof fn lemma_canonical_digits(s: Seq<char>)
    requires
        s.len() >= 1,
        spec_all_digits(s),
        s.len() > 1 ==> s[0] != '0',
    ensures
        spec_digits_value(s) >= 0,
        s == spec_decimal(spec_digits_value(s) as nat),
    decreases s.len(),
{
    lemma_value_nonneg(s);
    if s.len() == 1 {
        assert(s.drop_last() =~= Seq::<char>::empty());
        assert(spec_digits_value(Seq::<char>::empty()) == 0);
        assert(spec_is_digit(s[0]));
        assert(s.last() == s[0]);
        assert(spec_digits_value(s) == spec_digit_val(s[0]));
        assert(spec_digit_char(spec_digit_val(s[0])) == s[0]);
        assert(s =~= spec_decimal(spec_digits_value(s) as nat));
    } else {
        let sp = s.drop_last();
        assert(sp[0] == s[0]);
        assert(spec_all_digits(sp));
        lemma_canonical_digits(sp);
        lemma_value_first_nonzero(sp);
        let v = spec_digits_value(s);
        let d = spec_digit_val(s.last());
        assert(spec_is_digit(s.last()));
        assert(v == spec_digits_value(sp) * 10 + d);
        vstd::arithmetic::div_mod::lemma_fundamental_div_mod_converse(
            v, 10, spec_digits_value(sp), d);
        assert(v / 10 == spec_digits_value(sp));
        assert(v % 10 == d);
        assert(v >= 10);
        assert(spec_decimal(v as nat) == spec_decimal((v / 10) as nat).push(spec_digit_char(v % 10)));
        assert(spec_digit_char(d) == s.last());
        assert(s =~= sp.push(s.last()));
    }
}

fn digit_str(d: usize) -> (r: &'static str)
    requires
        d < 10,
    ensures
        r@ =~= seq![spec_digit_char(d as int)],
{
    proof {
        reveal_strlit("0");
        reveal_strlit("1");
        reveal_strlit("2");
        reveal_strlit("3");
        reveal_strlit("4");
        reveal_strlit("5");
        reveal_strlit("6");
        reveal_strlit("7");
        reveal_strlit("8");
        reveal_strlit("9");
    }
    if d == 0 { "0" }
    else if d == 1 { "1" }
    else if d == 2 { "2" }
    else if d == 3 { "3" }
    else if d == 4 { "4" }
    else if d == 5 { "5" }
    else if d == 6 { "6" }
    else if d == 7 { "7" }
    else if d == 8 { "8" }
    else { "9" }
}

fn digit_of_char(c: char) -> (r: Option<usize>)
    ensures
        match r {
            Some(d) => spec_is_digit(c) && d == spec_digit_val(c) && d < 10,
            None => !spec_is_digit(c),
        },
{
    match c {
        '0' => Some(0),
        '1' => Some(1),
        '2' => Some(2),
        '3' => Some(3),
        '4' => Some(4),
        '5' => Some(5),
        '6' => Some(6),
        '7' => Some(7),
        '8' => Some(8),
        '9' => Some(9),
        _ => None,
    }
}

/// Render `n` in canonical decimal.
pub fn usize_to_string(n: usize) -> (r: String)
    ensures
        r@ == spec_decimal(n as nat),
    decreases n,
{
    if n < 10 {
        String::from_str(digit_str(n))
    } else {
        let mut r = usize_to_string(n / 10);
        let tail = digit_str(n % 10);
        r.append(tail);
        r
    }
}

/// Parse a canonical decimal string; `Some(k)` exactly when the input is the
/// canonical rendering of a machine-word `k`.
pub fn parse_decimal(s: &str) -> (r: Option<usize>)
    ensures
        match r {
            Some(k) => s@ == spec_decimal(k as nat),
            None => forall|k: usize| s@ != spec_decimal(k as nat),
        },
{
    let n = s.unicode_len();
    if n == 0 {
        proof {
            assert forall|k: usize| s@ != spec_decimal(k as nat) by {
                lemma_decimal_len(k as nat);
            }
        }
        return None;
    }
    if n > 1 && s.get_char(0) == '0' {
        proof {
            assert forall|k: usize| s@ != spec_decimal(k as nat) by {
                if k >= 1 {
                    lemma_decimal_first_nonzero(k as nat);
                }
            }
        }
        return None;
    }
    let mut acc: usize = 0;
    let mut i: usize = 0;
    while i < n
        invariant
            0 <= i <= n,
            n == s@.len(),
            n >= 1,
            n > 1 ==> s@[0] != '0',
            spec_all_digits(s@.take(i as int)),
            acc == spec_digits_value(s@.take(i as int)),
        decreases n - i,
    {
        let c = s.get_char(i);
        let d = match digit_of_char(c) {
            Some(d) => d,
            None => {
                proof {
                    assert forall|k: usize| s@ != spec_decimal(k as nat) by {
                        lemma_decimal_digits(k as nat);
                    }
                }
                return None;
            },
        };
        if acc > (usize::MAX - d) / 10 {
            proof {
                vstd::arithmetic::div_mod::lemma_fundamental_div_mod((usize::MAX - d) as int, 10);
                vstd::arithmetic::div_mod::lemma_mod_bound((usize::MAX - d) as int, 10);
                assert(s@.take(i as int + 1).drop_last() =~= s@.take(i as int));
                assert(spec_digits_value(s@.take(i as int + 1)) == acc * 10 + d);
                assert(acc * 10 + d > usize::MAX) by {
                    vstd::arithmetic::mul::lemma_mul_inequality(
                        ((usize::MAX - d) / 10 + 1) as int, acc as int, 10);
                };
                assert forall|k: usize| s@ != spec_decimal(k as nat) by {
                    if s@ == spec_decimal(k as nat) {
                        lemma_decimal_digits(k as nat);
                        lemma_decimal_value(k as nat);
                        lemma_value_take_le(s@, i as int + 1);
                    }
                }
            }
            return None;
        }
        proof {
            vstd::arithmetic::div_mod::lemma_fundamental_div_mod((usize::MAX - d) as int, 10);
            vstd::arithmetic::div_mod::lemma_mod_bound((usize::MAX - d) as int, 10);
            vstd::arithmetic::mul::lemma_mul_inequality(
                acc as int, ((usize::MAX - d) / 10) as int, 10);
            assert(acc * 10 + d <= usize::MAX);
            assert(s@.take(i as int + 1).drop_last() =~= s@.take(i as int));
        }
        acc = acc * 10 + d;
        i = i + 1;
    }
    proof {
        assert(s@.take(n as int) =~= s@);
        lemma_canonical_digits(s@);
    }
    Some(acc)
}

/// Render `n` in canonical decimal.
pub fn u64_to_string(n: u64) -> (r: String)
    ensures
        r@ == spec_decimal(n as nat),
    decreases n,
{
    if n < 10 {
        String::from_str(digit_str(n as usize))
    } else {
        let mut r = u64_to_string(n / 10);
        let tail = digit_str((n % 10) as usize);
        r.append(tail);
        r
    }
}

/// The canonical decimal form of a signed number: a `-` sign before the
/// magnitude when negative.
pub open spec fn spec_int_decimal(n: int) -> Seq<char> {
    if n >= 0 {
        spec_decimal(n as nat)
    } else {
        seq!['-'] + spec_decimal((-n) as nat)
    }
}

/// Render a signed number in canonical decimal.
pub fn i64_to_string(n: i64) -> (r: String)
    ensures
        r@ == spec_int_decimal(n as int),
{
    if n >= 0 {
        u64_to_string(n as u64)
    } else {
        let mag: u64 = (-(n + 1)) as u64 + 1;
        proof {
            assert(mag == -(n as int));
        }
        let mut r = String::from_str("-");
        let digits = u64_to_string(mag);
        r.append(digits.as_str());
        proof {
            reveal_strlit("-");
            assert("-"@ =~= seq!['-']);
            assert(r@ =~= spec_int_decimal(n as int));
        }
        r
    }
}

} // verus!
