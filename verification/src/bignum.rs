//! Non-negative integers of any size, held as their decimal digits.
use num_bigint::BigUint;
use vstd::prelude::*;

verus! {

/// The character of the digit `d`.
pub open spec fn digit_char(d: nat) -> char {
    (d + 48) as char
}

/// The value of the digit character `c`.
pub open spec fn digit_value(c: char) -> int {
    (c as int) - 48
}

/// `c` is one of `0` to `9`.
pub open spec fn is_digit(c: char) -> bool {
    '0' <= c <= '9'
}

/// The number that a string of decimal digits writes.
pub open spec fn digits_value(s: Seq<char>) -> nat
    decreases s.len(),
{
    if s.len() == 0 {
        0
    } else {
        digits_value(s.drop_last()) * 10 + (digit_value(s.last()) as nat)
    }
}

/// The decimal writing of `n`: no leading zero, `0` for zero.
pub open spec fn canonical_decimal(n: nat) -> Seq<char>
    decreases n,
{
    if n < 10 {
        seq![digit_char(n)]
    } else {
        canonical_decimal(n / 10).push(digit_char(n % 10))
    }
}

/// Ten to the power `k`.
pub open spec fn pow10(k: nat) -> nat
    decreases k,
{
    if k == 0 {
        1
    } else {
        10 * pow10((k - 1) as nat)
    }
}

/// `s` without a leading `+`, the way `BigUint::from_str` drops one (it
/// keeps it where a second `+` follows).
pub open spec fn without_plus(s: Seq<char>) -> Seq<char> {
    if s.len() > 0 && s[0] == '+' && !(s.len() > 1 && s[1] == '+') {
        s.drop_first()
    } else {
        s
    }
}

/// The texts that `BigUint::from_str` accepts: after an optional `+`, a digit
/// followed by digits and `_` separators.
pub open spec fn accepted_decimal(s: Seq<char>) -> bool {
    let t = without_plus(s);
    &&& t.len() > 0
    &&& t[0] != '_'
    &&& forall|i: int| 0 <= i < t.len() ==> is_digit(#[trigger] t[i]) || t[i] == '_'
}

/// `s` without its `_` separators.
pub open spec fn drop_separators(s: Seq<char>) -> Seq<char> {
    s.filter(|c: char| c != '_')
}

/// The number that an accepted text writes: its digits, separators left out.
pub open spec fn decimal_text_value(s: Seq<char>) -> nat {
    digits_value(drop_separators(without_plus(s)))
}

/// The powers of ten grow.
pub proof fn lemma_pow10_monotonic(a: nat, b: nat)
    requires
        a <= b,
    ensures
        1 <= pow10(a) <= pow10(b),
    decreases b,
{
    if b > 0 {
        if a < b {
            lemma_pow10_monotonic(a, (b - 1) as nat);
        }
        lemma_pow10_monotonic(0, (b - 1) as nat);
    }
}

/// The decimal writing of `n` is made of digits, writes `n`, and has as many
/// digits as the power of ten above `n` has zeros.
pub proof fn lemma_canonical_decimal(n: nat)
    ensures
        canonical_decimal(n).len() >= 1,
        forall|i: int|
            0 <= i < canonical_decimal(n).len() ==> is_digit(#[trigger] canonical_decimal(n)[i]),
        digits_value(canonical_decimal(n)) == n,
        n < pow10(canonical_decimal(n).len()),
        canonical_decimal(n).len() > 1 ==> pow10((canonical_decimal(n).len() - 1) as nat) <= n,
    decreases n,
{
    let s = canonical_decimal(n);
    if n < 10 {
        assert(s.drop_last() =~= Seq::<char>::empty());
        assert(digits_value(Seq::<char>::empty()) == 0);
        assert(digit_value(digit_char(n)) == n);
        assert(pow10(1) == 10) by {
            assert(pow10(0) == 1);
        }
    } else {
        let q: nat = n / 10;
        let r: nat = n % 10;
        lemma_canonical_decimal(q);
        let t = canonical_decimal(q);
        assert(s == t.push(digit_char(r)));
        assert(s.drop_last() =~= t);
        assert(n == q * 10 + r);
        assert(digit_value(digit_char(r)) == r);
        assert(s.last() == digit_char(r));
        assert forall|i: int| 0 <= i < s.len() implies is_digit(#[trigger] s[i]) by {
            if i < t.len() {
                assert(s[i] == t[i]);
            }
        }
        let lt: nat = t.len();
        assert(pow10(lt + 1) == 10 * pow10(lt));
        if lt > 1 {
            assert(pow10(lt) == 10 * pow10((lt - 1) as nat));
        } else {
            assert(pow10(1) == 10) by {
                assert(pow10(0) == 1);
            }
        }
    }
}

/// Two digit strings of one length, equal up to position `i`, where the first
/// has the smaller digit: the first writes the smaller number.
pub proof fn lemma_first_difference(a: Seq<char>, b: Seq<char>, i: int)
    requires
        a.len() == b.len(),
        forall|j: int| 0 <= j < a.len() ==> is_digit(#[trigger] a[j]),
        forall|j: int| 0 <= j < b.len() ==> is_digit(#[trigger] b[j]),
        0 <= i < a.len(),
        forall|j: int| 0 <= j < i ==> a[j] == b[j],
        digit_value(a[i]) < digit_value(b[i]),
    ensures
        digits_value(a) < digits_value(b),
    decreases a.len(),
{
    let n = a.len();
    assert(is_digit(a[n - 1]));
    assert(is_digit(b[n - 1]));
    if i == n - 1 {
        assert(a.drop_last() =~= b.drop_last());
    } else {
        lemma_first_difference(a.drop_last(), b.drop_last(), i);
    }
}

/// A number no bigger than another is no bigger in digit count.
proof fn lemma_shorter_is_smaller(a: nat, b: nat)
    requires
        canonical_decimal(a).len() < canonical_decimal(b).len(),
    ensures
        a < b,
{
    lemma_canonical_decimal(a);
    lemma_canonical_decimal(b);
    lemma_pow10_monotonic(canonical_decimal(a).len(), (canonical_decimal(b).len() - 1) as nat);
}

/// A string of digits has no separator to drop.
proof fn lemma_no_separators(s: Seq<char>)
    requires
        forall|i: int| 0 <= i < s.len() ==> is_digit(#[trigger] s[i]),
    ensures
        drop_separators(s) == s,
    decreases s.len(),
{
    reveal(Seq::filter);
    if s.len() == 0 {
        assert(drop_separators(s) =~= s);
    } else {
        lemma_no_separators(s.drop_last());
        assert(is_digit(s[s.len() - 1]));
        assert(s.drop_last().push(s.last()) =~= s);
    }
}

/// Writing a number in decimal and reading the text back the way
/// `BigUint::from_str` reads it gives the number again.
pub proof fn lemma_decimal_roundtrip(n: nat)
    ensures
        accepted_decimal(canonical_decimal(n)),
        decimal_text_value(canonical_decimal(n)) == n,
{
    let s = canonical_decimal(n);
    lemma_canonical_decimal(n);
    assert(is_digit(s[0]));
    assert(without_plus(s) == s);
    lemma_no_separators(s);
}

/// Calls `BigUint::from_str` and then `BigUint::to_string`. Claimed, as the
/// crate's source shows: a text is accepted exactly when it is, after one
/// optional `+`, a digit followed by digits and `_`; the result is then the
/// decimal writing (no leading zero) of the number its digits write.
#[verifier::external_body]
fn parse_biguint(s: &str) -> (r: Option<String>)
    ensures
        r is Some <==> accepted_decimal(s@),
        r matches Some(t) ==> t@ == canonical_decimal(decimal_text_value(s@)),
{
    match s.parse::<BigUint>() {
        Ok(value) => Some(value.to_string()),
        Err(_) => None,
    }
}

/// A non-negative integer of any size.
pub struct BigNat {
    digits: String,
}

impl View for BigNat {
    type V = nat;

    closed spec fn view(&self) -> nat {
        digits_value(self.digits@)
    }
}

impl BigNat {
    #[verifier::type_invariant]
    spec fn in_decimal(self) -> bool {
        self.digits@ == canonical_decimal(digits_value(self.digits@))
    }

    /// The number a decimal text writes, the way `BigUint::from_str` reads it:
    /// an optional `+`, then a digit followed by digits and `_` separators.
    pub fn parse(s: &str) -> (r: Option<BigNat>)
        ensures
            r is Some <==> accepted_decimal(s@),
            r matches Some(b) ==> b@ == decimal_text_value(s@),
    {
        match parse_biguint(s) {
            Some(text) => {
                proof {
                    lemma_canonical_decimal(decimal_text_value(s@));
                }
                Some(BigNat { digits: text })
            },
            None => None,
        }
    }

    /// The decimal writing, as `BigUint::to_string` gives it.
    pub fn to_decimal(&self) -> (r: String)
        ensures
            r@ == canonical_decimal(self@),
    {
        proof {
            use_type_invariant(self);
        }
        self.digits.clone()
    }

    /// The same number.
    pub fn copy(&self) -> (r: BigNat)
        ensures
            r@ == self@,
    {
        proof {
            use_type_invariant(self);
        }
        BigNat { digits: self.digits.clone() }
    }

    /// Whether this number is smaller than `other`.
    pub fn is_less(&self, other: &BigNat) -> (r: bool)
        ensures
            r == (self@ < other@),
    {
        proof {
            use_type_invariant(self);
            use_type_invariant(other);
            lemma_canonical_decimal(self@);
            lemma_canonical_decimal(other@);
        }
        let a: &str = self.digits.as_str();
        let b: &str = other.digits.as_str();
        let la: usize = a.unicode_len();
        let lb: usize = b.unicode_len();
        if la != lb {
            proof {
                if la < lb {
                    lemma_shorter_is_smaller(self@, other@);
                } else {
                    lemma_shorter_is_smaller(other@, self@);
                }
            }
            return la < lb;
        }
        let mut i: usize = 0;
        while i < la
            invariant
                la == a@.len(),
                lb == b@.len(),
                la == lb,
                a@ == self.digits@,
                b@ == other.digits@,
                i <= la,
                forall|j: int| 0 <= j < i ==> a@[j] == b@[j],
                forall|j: int| 0 <= j < a@.len() ==> is_digit(#[trigger] a@[j]),
                forall|j: int| 0 <= j < b@.len() ==> is_digit(#[trigger] b@[j]),
            decreases la - i,
        {
            let ca: char = a.get_char(i);
            let cb: char = b.get_char(i);
            if ca != cb {
                proof {
                    if ca < cb {
                        lemma_first_difference(a@, b@, i as int);
                    } else {
                        lemma_first_difference(b@, a@, i as int);
                    }
                }
                return ca < cb;
            }
            i += 1;
        }
        assert(a@ =~= b@);
        false
    }
}

} // verus!
