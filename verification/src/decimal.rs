//! Decimal rendering of numeric values.
//!
//! Integers are rendered in the usual decimal notation.  IEEE-754 values are
//! rendered from their raw bit patterns using integer arithmetic only: a
//! finite binary value `m * 2^e` has an exact, finite decimal expansion, and
//! that exact expansion is what the renderer produces (so `1.0` renders as
//! `1`, `2.5` as `2.5`, and every rendered text reads back as exactly the
//! value that produced it).  `NaN`, `inf` and `-inf` label the non-finite
//! patterns.
//!
//! A number is carried as a vector of decimal digits, least significant
//! first; the only arithmetic needed is multiplication by a small constant.

use vstd::prelude::*;

verus! {

pub open spec fn pow2(k: nat) -> nat
    decreases k,
{
    if k == 0 {
        1
    } else {
        2 * pow2((k - 1) as nat)
    }
}

pub open spec fn pow10(k: nat) -> nat
    decreases k,
{
    if k == 0 {
        1
    } else {
        10 * pow10((k - 1) as nat)
    }
}

pub open spec fn pow5(k: nat) -> nat
    decreases k,
{
    if k == 0 {
        1
    } else {
        5 * pow5((k - 1) as nat)
    }
}

/// The decimal digit characters of `n`, most significant first.
pub open spec fn spec_dec(n: nat) -> Seq<char>
    decreases n,
{
    if n < 10 {
        seq![digit_char(n)]
    } else {
        spec_dec(n / 10) + seq![digit_char(n % 10)]
    }
}

pub open spec fn digit_char(d: nat) -> char {
    if d == 0 {
        '0'
    } else if d == 1 {
        '1'
    } else if d == 2 {
        '2'
    } else if d == 3 {
        '3'
    } else if d == 4 {
        '4'
    } else if d == 5 {
        '5'
    } else if d == 6 {
        '6'
    } else if d == 7 {
        '7'
    } else if d == 8 {
        '8'
    } else {
        '9'
    }
}

/// The value of a digit vector, least significant digit first.
pub open spec fn digits_val(s: Seq<u8>) -> nat
    decreases s.len(),
{
    if s.len() == 0 {
        0
    } else {
        (s[0] + 10 * digits_val(s.skip(1))) as nat
    }
}

/// All entries are decimal digits.
pub open spec fn digits_wf(s: Seq<u8>) -> bool {
    forall|i: int| 0 <= i < s.len() ==> s[i] < 10
}

proof fn lemma_digits_val_snoc(s: Seq<u8>, d: u8)
    ensures
        digits_val(s.push(d)) == digits_val(s) + d * pow10(s.len()),
    decreases s.len(),
{
    reveal_with_fuel(digits_val, 2);
    reveal_with_fuel(pow10, 2);
    if s.len() == 0 {
        assert(s.push(d)[0] == d);
        assert(s.push(d).skip(1) =~= Seq::<u8>::empty());
        assert(digits_val(s.push(d).skip(1)) == 0);
        assert(digits_val(s.push(d)) == d + 10 * digits_val(s.push(d).skip(1)));
        assert(pow10(s.len()) == 1);
        assert(digits_val(s) == 0);
    } else {
        assert(s.push(d)[0] == s[0]);
        assert(s.push(d).skip(1) =~= s.skip(1).push(d));
        lemma_digits_val_snoc(s.skip(1), d);
        assert(digits_val(s.push(d)) == s[0] + 10 * (digits_val(s.skip(1)) + d * pow10(
            (s.len() - 1) as nat,
        )));
        assert(10 * (digits_val(s.skip(1)) + d * pow10((s.len() - 1) as nat)) == 10 * digits_val(
            s.skip(1),
        ) + d * pow10(s.len())) by (nonlinear_arith)
            requires
                pow10(s.len()) == 10 * pow10((s.len() - 1) as nat),
        ;
    }
}

/// A digit vector whose top digit is nonzero has a value at least
/// `pow10(len - 1)`.
proof fn lemma_digits_val_lower(s: Seq<u8>)
    requires
        s.len() > 0,
        s.last() != 0,
    ensures
        digits_val(s) >= pow10((s.len() - 1) as nat),
    decreases s.len(),
{
    if s.len() == 1 {
    } else {
        assert(s.skip(1).last() == s.last());
        lemma_digits_val_lower(s.skip(1));
        assert(10 * digits_val(s.skip(1)) >= 10 * pow10((s.len() - 2) as nat))
            by (nonlinear_arith)
            requires
                digits_val(s.skip(1)) >= pow10((s.len() - 2) as nat),
        ;
    }
}

/// Reading a digit vector most-significant-first as characters.
pub open spec fn digits_chars(s: Seq<u8>) -> Seq<char> {
    Seq::new(s.len(), |i: int| digit_char(s[s.len() - 1 - i] as nat))
}

/// A normalized digit vector spells exactly the decimal text of its value.
proof fn lemma_digits_chars_dec(s: Seq<u8>)
    requires
        digits_wf(s),
        s.len() > 0,
        s.last() != 0 || s.len() == 1,
    ensures
        digits_chars(s) == spec_dec(digits_val(s)),
    decreases s.len(),
{
    let n = digits_val(s);
    if s.len() == 1 {
        assert(n == s[0] + 10 * digits_val(s.skip(1)));
        assert(s.skip(1).len() == 0);
        assert(n == s[0]);
        assert(digits_chars(s) =~= spec_dec(n));
    } else {
        lemma_digits_val_lower(s.skip(1));
        assert(pow10((s.len() - 2) as nat) >= 1) by {
            lemma_pow10_pos((s.len() - 2) as nat);
        }
        assert(digits_val(s.skip(1)) >= 1);
        assert(n == s[0] + 10 * digits_val(s.skip(1)));
        assert(n >= 10);
        assert(n % 10 == s[0] && n / 10 == digits_val(s.skip(1))) by (nonlinear_arith)
            requires
                n == s[0] + 10 * digits_val(s.skip(1)),
                s[0] < 10,
        ;
        lemma_digits_chars_dec(s.skip(1));
        assert(digits_chars(s) =~= spec_dec(digits_val(s.skip(1))) + seq![
            digit_char(s[0] as nat),
        ]) by {
            assert(forall|i: int| 0 <= i < s.len() - 1 ==> s.skip(1)[i] == s[i + 1]);
        }
    }
}

proof fn lemma_pow2_step(k: nat)
    ensures
        pow2(k + 1) == 2 * pow2(k),
{
}

proof fn lemma_pow5_step(k: nat)
    ensures
        pow5(k + 1) == 5 * pow5(k),
{
}

pub proof fn lemma_pow10_step(k: nat)
    ensures
        pow10(k + 1) == 10 * pow10(k),
{
}

pub proof fn lemma_pow10_mono(a: nat, b: nat)
    requires
        a <= b,
    ensures
        pow10(a) <= pow10(b),
    decreases b,
{
    if a < b {
        lemma_pow10_mono(a, (b - 1) as nat);
        assert(pow10(b) == 10 * pow10((b - 1) as nat));
        assert(10 * pow10((b - 1) as nat) >= pow10((b - 1) as nat)) by (nonlinear_arith);
    }
}

proof fn lemma_pow10_pos(k: nat)
    ensures
        pow10(k) >= 1,
    decreases k,
{
    if k > 0 {
        lemma_pow10_pos((k - 1) as nat);
    }
}

/// Splitting a digit vector at `i` splits its value.
proof fn lemma_digits_val_split(s: Seq<u8>, i: int)
    requires
        0 <= i <= s.len(),
    ensures
        digits_val(s) == digits_val(s.take(i)) + pow10(i as nat) * digits_val(s.skip(i)),
    decreases i,
{
    reveal_with_fuel(digits_val, 2);
    reveal_with_fuel(pow10, 2);
    if i == 0 {
        assert(s.take(0) =~= Seq::<u8>::empty());
        assert(digits_val(s.take(0)) == 0);
        assert(s.skip(0) =~= s);
        assert(pow10(0) == 1);
        assert(pow10(i as nat) * digits_val(s.skip(i)) == digits_val(s)) by (nonlinear_arith)
            requires
                pow10(i as nat) == 1,
                s.skip(i) == s,
        ;
        assert(digits_val(s) == digits_val(s.take(i)) + pow10(i as nat) * digits_val(s.skip(i)));
    } else {
        assert(s.take(i)[0] == s[0]);
        assert(s.take(i).skip(1) =~= s.skip(1).take(i - 1));
        assert(s.skip(i) =~= s.skip(1).skip(i - 1));
        lemma_digits_val_split(s.skip(1), i - 1);
        assert(digits_val(s.take(i)) == s[0] + 10 * digits_val(s.skip(1).take(i - 1)));
        assert(digits_val(s) == s[0] + 10 * (digits_val(s.skip(1).take(i - 1)) + pow10(
            (i - 1) as nat,
        ) * digits_val(s.skip(1).skip(i - 1))));
        assert(10 * (digits_val(s.skip(1).take(i - 1)) + pow10((i - 1) as nat) * digits_val(
            s.skip(1).skip(i - 1),
        )) == 10 * digits_val(s.skip(1).take(i - 1)) + pow10(i as nat) * digits_val(
            s.skip(1).skip(i - 1),
        )) by (nonlinear_arith)
            requires
                pow10(i as nat) == 10 * pow10((i - 1) as nat),
        ;
        assert(digits_val(s.skip(i)) == digits_val(s.skip(1).skip(i - 1)));
        assert(digits_val(s) == digits_val(s.take(i)) + pow10(i as nat) * digits_val(s.skip(i)));
    }
}

/// The decimal digits of `n`, least significant first.
fn digits_of_u64(n: u64) -> (r: Vec<u8>)
    ensures
        digits_wf(r@),
        digits_val(r@) == n,
        r@.len() > 0,
        r@.last() != 0 || r@.len() == 1,
{
    let mut v: Vec<u8> = Vec::new();
    if n == 0 {
        v.push(0);
        proof {
            reveal_with_fuel(digits_val, 2);
            assert(v@.skip(1) =~= Seq::<u8>::empty());
        }
        return v;
    }
    let mut cur: u64 = n;
    let ghost orig: nat = n as nat;
    proof {
        reveal_with_fuel(digits_val, 2);
        reveal_with_fuel(pow10, 2);
        assert(digits_val(v@) == 0);
        assert(pow10(0) == 1);
    }
    while cur > 0
        invariant
            digits_wf(v@),
            digits_val(v@) + cur * pow10(v@.len()) == orig,
            cur == 0 ==> v@.len() > 0 && v@.last() != 0,
            cur > 0 || v@.len() > 0,
        decreases cur,
    {
        let d: u8 = (cur % 10) as u8;
        let ghost old_v = v@;
        let ghost old_cur = cur as nat;
        v.push(d);
        cur = cur / 10;
        proof {
            lemma_digits_val_snoc(old_v, d);
            assert(old_cur * pow10(old_v.len()) == (old_cur % 10) * pow10(old_v.len()) + (old_cur
                / 10) * pow10(old_v.len() + 1)) by (nonlinear_arith)
                requires
                    pow10(old_v.len() + 1) == 10 * pow10(old_v.len()),
            ;
            if cur == 0 {
                assert(d != 0) by {
                    assert(old_cur < 10);
                    assert(old_cur > 0);
                }
            }
        }
    }
    v
}

/// Multiplies a digit vector in place by a factor of at most five.
fn mul_digits(v: &mut Vec<u8>, m: u8)
    requires
        2 <= m <= 5,
        digits_wf(old(v)@),
        old(v)@.len() > 0,
        old(v)@.last() != 0,
    ensures
        digits_wf(final(v)@),
        digits_val(final(v)@) == m * digits_val(old(v)@),
        final(v)@.len() > 0,
        final(v)@.last() != 0,
{
    let ghost orig = v@;
    let len = v.len();
    let mut carry: u8 = 0;
    let mut i: usize = 0;
    proof {
        reveal_with_fuel(digits_val, 2);
        reveal_with_fuel(pow10, 2);
        assert(v@.take(0int) =~= Seq::<u8>::empty());
        assert(orig.take(0int) =~= Seq::<u8>::empty());
        assert(digits_val(v@.take(0int)) == 0);
        assert(pow10(0) == 1);
    }
    while i < len
        invariant
            2 <= m <= 5,
            len == v@.len(),
            len == orig.len(),
            i <= len,
            digits_wf(orig),
            digits_wf(v@),
            carry < m,
            forall|j: int| i <= j < len ==> v@[j] == orig[j],
            digits_val(v@.take(i as int)) + carry * pow10(i as nat) == m * digits_val(
                orig.take(i as int),
            ),
        decreases len - i,
    {
        proof {
            assert(v@[i as int] < 10);
            assert(orig[i as int] < 10);
            assert(v@[i as int] * m <= 45) by (nonlinear_arith)
                requires
                    v@[i as int] < 10,
                    m <= 5,
            ;
        }
        let t: u8 = v[i] * m + carry;
        let d: u8 = t % 10;
        let ghost prev = v@;
        let ghost prev_carry = carry as nat;
        v.set(i, d);
        carry = t / 10;
        proof {
            assert(t < 10 * m) by (nonlinear_arith)
                requires
                    t == prev[i as int] * m + prev_carry,
                    prev[i as int] < 10,
                    prev_carry < m,
            ;
            assert(carry < m);
            assert(v@.take(i + 1) =~= prev.take(i as int).push(d));
            assert(orig.take(i + 1) =~= orig.take(i as int).push(orig[i as int]));
            lemma_digits_val_snoc(prev.take(i as int), d);
            lemma_digits_val_snoc(orig.take(i as int), orig[i as int]);
            assert(prev.take(i as int) =~= v@.take(i as int).take(i as int)) by {
                assert(prev.take(i as int) =~= v@.take(i as int));
            }
            assert(digits_val(prev.take(i as int)) == digits_val(v@.take(i as int)));
            assert(t == orig[i as int] * m + prev_carry);
            assert(digits_val(prev.take(i as int)) + d * pow10(i as nat) + (t / 10) * pow10(
                i as nat + 1,
            ) == m * (digits_val(orig.take(i as int)) + orig[i as int] * pow10(i as nat)))
                by (nonlinear_arith)
                requires
                    digits_val(prev.take(i as int)) + prev_carry * pow10(i as nat) == m
                        * digits_val(orig.take(i as int)),
                    t == orig[i as int] * m + prev_carry,
                    d == t % 10,
                    pow10(i as nat + 1) == 10 * pow10(i as nat),
            ;
        }
        i += 1;
    }
    proof {
        assert(v@.take(len as int) =~= v@);
        assert(orig.take(len as int) =~= orig);
    }
    if carry > 0 {
        let ghost before = v@;
        v.push(carry % 10);
        proof {
            lemma_digits_val_snoc(before, carry % 10);
            assert(carry % 10 == carry) by {
                assert(carry < 10);
            }
        }
    } else {
        proof {
            assert(v@.last() != 0) by {
                let t = orig.last() * m + 0;
                assert(digits_val(v@) == m * digits_val(orig));
                if v@.last() == 0 {
                    // The final processed digit was orig.last() * m + c for the
                    // incoming carry c; with no outgoing carry that sum is below
                    // ten, and it is at least m >= 2, so its low digit is nonzero.
                    assert(orig.last() >= 1);
                    let li = len - 1;
                    assert(v@[li] == 0);
                    lemma_digits_val_split(v@, li);
                    lemma_digits_val_split(orig, li);
                    assert(digits_val(v@.skip(li)) == v@[li] + 10 * digits_val(v@.skip(li).skip(1)));
                    assert(v@.skip(li).skip(1) =~= Seq::<u8>::empty());
                    assert(digits_val(v@.skip(li)) == 0);
                    assert(digits_val(orig.skip(li)) >= 1) by {
                        assert(orig.skip(li)[0] == orig.last());
                        assert(orig.skip(li).len() == 1);
                    }
                    assert(digits_val(v@) == digits_val(v@.take(li)) + pow10(li as nat) * 0);
                    assert(digits_val(v@.take(li)) < pow10(li as nat)) by {
                        lemma_digits_val_take_upper(v@, li);
                    }
                    assert(m * digits_val(orig) >= m * (digits_val(orig.take(li)) + pow10(
                        li as nat,
                    ) * 1)) by (nonlinear_arith)
                        requires
                            digits_val(orig) == digits_val(orig.take(li)) + pow10(li as nat)
                                * digits_val(orig.skip(li)),
                            digits_val(orig.skip(li)) >= 1,
                            m >= 2,
                    ;
                    assert(m * (digits_val(orig.take(li)) + pow10(li as nat)) >= pow10(li as nat))
                        by (nonlinear_arith)
                        requires
                            m >= 2,
                    ;
                    assert(false);
                }
            }
        }
    }
}

/// The value of any length-`i` digit prefix is below `pow10(i)`.
proof fn lemma_digits_val_take_upper(s: Seq<u8>, i: int)
    requires
        digits_wf(s),
        0 <= i <= s.len(),
    ensures
        digits_val(s.take(i)) < pow10(i as nat),
    decreases i,
{
    if i == 0 {
        assert(s.take(0) =~= Seq::<u8>::empty());
    } else {
        let t = s.take(i);
        assert(t =~= t.take(i - 1).push(s[i - 1]));
        assert(t.take(i - 1) =~= s.take(i - 1));
        lemma_digits_val_snoc(s.take(i - 1), s[i - 1]);
        lemma_digits_val_take_upper(s, i - 1);
        assert(digits_val(s.take(i - 1)) + s[i - 1] * pow10((i - 1) as nat) < pow10(i as nat))
            by (nonlinear_arith)
            requires
                digits_val(s.take(i - 1)) < pow10((i - 1) as nat),
                s[i - 1] < 10,
                pow10(i as nat) == 10 * pow10((i - 1) as nat),
        ;
    }
}

/// Renders a digit vector as characters, most significant first.
fn digits_to_chars(v: &Vec<u8>) -> (r: Vec<char>)
    requires
        digits_wf(v@),
    ensures
        r@ == digits_chars(v@),
{
    let mut r: Vec<char> = Vec::new();
    let len = v.len();
    let mut i: usize = 0;
    while i < len
        invariant
            len == v@.len(),
            i <= len,
            digits_wf(v@),
            r@.len() == i,
            forall|j: int| 0 <= j < i ==> r@[j] == digit_char(v@[len - 1 - j] as nat),
        decreases len - i,
    {
        let d: u8 = v[len - 1 - i];
        let c: char = if d == 0 {
            '0'
        } else if d == 1 {
            '1'
        } else if d == 2 {
            '2'
        } else if d == 3 {
            '3'
        } else if d == 4 {
            '4'
        } else if d == 5 {
            '5'
        } else if d == 6 {
            '6'
        } else if d == 7 {
            '7'
        } else if d == 8 {
            '8'
        } else {
            '9'
        };
        r.push(c);
        i += 1;
    }
    proof {
        assert(r@ =~= digits_chars(v@));
    }
    r
}

/// The decimal text of a natural number.
pub fn u64_dec_chars(n: u64) -> (r: Vec<char>)
    ensures
        r@ == spec_dec(n as nat),
{
    let ds = digits_of_u64(n);
    let r = digits_to_chars(&ds);
    proof {
        lemma_digits_chars_dec(ds@);
    }
    r
}

/// The decimal text of `m * 2^e` for `e >= 0`, or of `m * 5^k` for the
/// pointed rendering below.
fn scaled_dec_chars(m: u64, factor: u8, times: u32) -> (r: Vec<char>)
    requires
        m > 0,
        factor == 2 || factor == 5,
    ensures
        factor == 2 ==> r@ == spec_dec(m as nat * pow2(times as nat)),
        factor == 5 ==> r@ == spec_dec(m as nat * pow5(times as nat)),
{
    let mut ds = digits_of_u64(m);
    let mut i: u32 = 0;
    proof {
        reveal_with_fuel(pow2, 1);
        reveal_with_fuel(pow5, 1);
        assert(m as nat * pow2(0) == m as nat) by (nonlinear_arith)
            requires
                pow2(0) == 1,
        ;
        assert(m as nat * pow5(0) == m as nat) by (nonlinear_arith)
            requires
                pow5(0) == 1,
        ;
    }
    while i < times
        invariant
            factor == 2 || factor == 5,
            m > 0,
            i <= times,
            digits_wf(ds@),
            ds@.len() > 0,
            ds@.last() != 0 || ds@.len() == 1,
            factor == 2 ==> digits_val(ds@) == m as nat * pow2(i as nat),
            factor == 5 ==> digits_val(ds@) == m as nat * pow5(i as nat),
        decreases times - i,
    {
        proof {
            lemma_pow2_pos(i as nat);
            lemma_pow5_pos(i as nat);
            if ds@.len() == 1 && ds@.last() == 0 {
                assert(digits_val(ds@) == 0) by {
                    reveal_with_fuel(digits_val, 2);
                    assert(ds@.skip(1) =~= Seq::<u8>::empty());
                }
                assert(m as nat * pow2(i as nat) > 0) by (nonlinear_arith)
                    requires
                        m > 0,
                        pow2(i as nat) > 0,
                ;
                assert(m as nat * pow5(i as nat) > 0) by (nonlinear_arith)
                    requires
                        m > 0,
                        pow5(i as nat) > 0,
                ;
                assert(false);
            }
        }
        mul_digits(&mut ds, factor);
        proof {
            lemma_pow2_step(i as nat);
            lemma_pow5_step(i as nat);
            if factor == 2 {
                assert(2 * (m as nat * pow2(i as nat)) == m as nat * pow2(i as nat + 1))
                    by (nonlinear_arith)
                    requires
                        pow2(i as nat + 1) == 2 * pow2(i as nat),
                ;
            }
            if factor == 5 {
                assert(5 * (m as nat * pow5(i as nat)) == m as nat * pow5(i as nat + 1))
                    by (nonlinear_arith)
                    requires
                        pow5(i as nat + 1) == 5 * pow5(i as nat),
                ;
            }
        }
        i += 1;
    }
    let r = digits_to_chars(&ds);
    proof {
        lemma_digits_chars_dec(ds@);
    }
    r
}

proof fn lemma_pow2_pos(k: nat)
    ensures
        pow2(k) >= 1,
    decreases k,
{
    if k > 0 {
        lemma_pow2_pos((k - 1) as nat);
    }
}

proof fn lemma_pow5_pos(k: nat)
    ensures
        pow5(k) >= 1,
    decreases k,
{
    if k > 0 {
        lemma_pow5_pos((k - 1) as nat);
    }
}

/// Drops trailing zero characters.
pub open spec fn trim_zeros(s: Seq<char>) -> Seq<char>
    decreases s.len(),
{
    if s.len() > 0 && s.last() == '0' {
        trim_zeros(s.drop_last())
    } else {
        s
    }
}

/// `k` zero characters.
pub open spec fn zero_chars(k: nat) -> Seq<char> {
    Seq::new(k, |i: int| '0')
}

/// The exact decimal text of the positive value `n / 10^k`: the digits of
/// `n`, padded with leading zeroes so a digit stands left of the point, with
/// the point inserted `k` places from the right and trailing zeroes of the
/// fraction removed (the point vanishes when the fraction is empty).
pub open spec fn spec_pointed(n: nat, k: nat) -> Seq<char> {
    let ds = spec_dec(n);
    let padded = if ds.len() >= k + 1 {
        ds
    } else {
        zero_chars((k + 1 - ds.len()) as nat) + ds
    };
    let ip = padded.take(padded.len() - k);
    let fp = trim_zeros(padded.skip(padded.len() - k));
    if fp.len() == 0 {
        ip
    } else {
        ip + seq!['.'] + fp
    }
}

/// Renders `m * 5^k / 10^k` (that is, `m / 2^k`) exactly.
#[verifier::rlimit(60)]
fn pointed_chars(m: u64, k: u32) -> (r: Vec<char>)
    requires
        m > 0,
        k <= 1100,
    ensures
        r@ == spec_pointed(m as nat * pow5(k as nat), k as nat),
{
    let ds = scaled_dec_chars(m, 5, k);
    let ghost n = m as nat * pow5(k as nat);
    let mut padded: Vec<char> = Vec::new();
    let dlen = ds.len();
    if dlen < k as usize + 1 {
        let pad = k as usize + 1 - dlen;
        let mut i: usize = 0;
        while i < pad
            invariant
                i <= pad,
                padded@ =~= zero_chars(i as nat),
            decreases pad - i,
        {
            padded.push('0');
            proof {
                assert(padded@ =~= zero_chars(i as nat + 1));
            }
            i += 1;
        }
    }
    let ghost pad_part = padded@;
    let mut i: usize = 0;
    while i < dlen
        invariant
            i <= dlen,
            dlen == ds@.len(),
            padded@ =~= pad_part + ds@.take(i as int),
        decreases dlen - i,
    {
        padded.push(ds[i]);
        proof {
            assert(pad_part + ds@.take(i as int + 1) =~= (pad_part + ds@.take(i as int)).push(
                ds@[i as int],
            ));
        }
        i += 1;
    }
    proof {
        assert(ds@.take(dlen as int) =~= ds@);
    }
    let plen = padded.len();
    let ghost spec_padded = if ds@.len() >= k as nat + 1 {
        ds@
    } else {
        zero_chars((k as nat + 1 - ds@.len()) as nat) + ds@
    };
    proof {
        if dlen >= k as usize + 1 {
            assert(pad_part =~= Seq::<char>::empty());
            assert(padded@ =~= spec_padded);
        } else {
            assert(padded@ =~= spec_padded);
        }
        assert(plen == spec_padded.len());
        assert(plen >= k as nat + 1);
    }
    let cut = plen - k as usize;
    let mut r: Vec<char> = Vec::new();
    let mut i: usize = 0;
    while i < cut
        invariant
            i <= cut,
            cut <= padded@.len(),
            r@ =~= padded@.take(i as int),
        decreases cut - i,
    {
        r.push(padded[i]);
        proof {
            assert(padded@.take(i as int + 1) =~= padded@.take(i as int).push(padded@[i as int]));
        }
        i += 1;
    }
    // Find the end of the fraction once trailing zeroes go.
    let mut fend: usize = plen;
    proof {
        assert(padded@.skip(cut as int).take(plen - cut) =~= padded@.skip(cut as int));
    }
    while fend > cut && padded[fend - 1] == '0'
        invariant
            cut <= fend <= plen,
            plen == padded@.len(),
            cut == padded@.len() - k,
            trim_zeros(padded@.skip(cut as int)) == trim_zeros(
                padded@.skip(cut as int).take(fend - cut),
            ),
        decreases fend,
    {
        proof {
            let fp = padded@.skip(cut as int).take(fend - cut);
            assert(fp.drop_last() =~= padded@.skip(cut as int).take(fend - 1 - cut));
            assert(fp.last() == padded@[fend - 1]);
        }
        fend -= 1;
    }
    let ghost fp_full = padded@.skip(cut as int);
    let ghost fp_trim = trim_zeros(fp_full);
    proof {
        let kept = padded@.skip(cut as int).take(fend - cut);
        if fend > cut {
            assert(kept.last() == padded@[fend - 1]);
            assert(kept.last() != '0');
            assert(trim_zeros(kept) == kept);
        } else {
            assert(kept =~= Seq::<char>::empty());
            assert(trim_zeros(kept) == kept);
        }
        assert(fp_trim == kept);
    }
    if fend > cut {
        r.push('.');
        let ghost with_dot = r@;
        let mut i: usize = cut;
        while i < fend
            invariant
                cut <= i <= fend,
                fend <= padded@.len(),
                cut == padded@.len() - k,
                r@ =~= with_dot + padded@.skip(cut as int).take(i - cut),
            decreases fend - i,
        {
            r.push(padded[i]);
            proof {
                assert(with_dot + padded@.skip(cut as int).take(i + 1 - cut) =~= (with_dot
                    + padded@.skip(cut as int).take(i - cut)).push(padded@[i as int]));
            }
            i += 1;
        }
        proof {
            assert(r@ =~= spec_padded.take(cut as int) + seq!['.'] + fp_trim);
        }
    } else {
        proof {
            assert(r@ =~= spec_padded.take(cut as int));
        }
    }
    r
}

/// The exact decimal text of the positive value `m * 2^e`.
pub open spec fn spec_mag_text(m: nat, e: int) -> Seq<char> {
    if e >= 0 {
        spec_dec(m * pow2(e as nat))
    } else {
        spec_pointed(m * pow5((-e) as nat), (-e) as nat)
    }
}

/// Renders the positive value `m * 2^e` exactly.
pub fn mag_chars(m: u64, e: i32) -> (r: Vec<char>)
    requires
        m > 0,
        -1100 <= e <= 1100,
    ensures
        r@ == spec_mag_text(m as nat, e as int),
{
    if e >= 0 {
        scaled_dec_chars(m, 2, e as u32)
    } else {
        pointed_chars(m, (-e) as u32)
    }
}

} // verus!
