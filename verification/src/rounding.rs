//! Rounding rules for percentage-derived target weights.
//!
//! Two rules exist, used by different planning paths.  Both start from an
//! already rounded whole-unit weight and step the value upward by one unit
//! at a time until it reaches the next qualifying mark; neither ever
//! decreases its input.

use vstd::prelude::*;

verus! {

use vstd::arithmetic::div_mod::{
    lemma_add_mod_noop, lemma_fundamental_div_mod, lemma_mod_mod, lemma_mod_multiples_basic,
    lemma_small_mod,
};

/// The value is divisible by 5.
pub open spec fn is_multiple_of_5(n: int) -> bool {
    n % 5 == 0
}

/// The least multiple of 5 that is greater than or equal to `n`.
pub open spec fn next_multiple_of_5(n: int) -> int {
    n + ((5 - n % 5) % 5)
}

/// The value qualifies for the five-or-ten rule: its last decimal digit is
/// 0 or 5.
pub open spec fn is_five_or_ten_mark(n: int) -> bool {
    n % 10 == 0 || n % 10 == 5
}

/// `next_multiple_of_5(n)` really is the least multiple of 5 at or above `n`,
/// and lies at most 4 units away.
pub proof fn lemma_next_multiple_of_5(n: int)
    ensures
        n <= next_multiple_of_5(n) <= n + 4,
        is_multiple_of_5(next_multiple_of_5(n)),
        forall|m: int| n <= m < next_multiple_of_5(n) ==> !#[trigger] is_multiple_of_5(m),
{
    let r = n % 5;
    lemma_fundamental_div_mod(n, 5);
    if r == 0 {
        assert(next_multiple_of_5(n) == n);
    } else {
        lemma_small_mod((5 - r) as nat, 5);
        assert(next_multiple_of_5(n) == n + 5 - r);
        assert(n + 5 - r == 5 * (n / 5 + 1));
        lemma_mod_multiples_basic(n / 5 + 1, 5);
        assert forall|m: int| n <= m < next_multiple_of_5(n) implies !#[trigger] is_multiple_of_5(
            m,
        ) by {
            let d = m - n;
            lemma_add_mod_noop(n, d, 5);
            lemma_small_mod(d as nat, 5);
            lemma_small_mod((r + d) as nat, 5);
            assert(m % 5 == r + d);
        }
    }
}

/// A value sits on a five-or-ten mark exactly when it is a multiple of 5.
pub proof fn lemma_five_or_ten_mark_iff(m: int)
    ensures
        is_five_or_ten_mark(m) <==> is_multiple_of_5(m),
{
    lemma_mod_mod(m, 5, 2);
    assert((m % 10) % 5 == m % 5);
    let s = m % 10;
    if s == 0 || s == 5 {
        lemma_small_mod(0nat, 5);
        assert(s % 5 == 0);
    } else {
        if s < 5 {
            lemma_small_mod(s as nat, 5);
        } else {
            lemma_add_mod_noop(5, s - 5, 5);
            lemma_small_mod((s - 5) as nat, 5);
            assert(s % 5 == s - 5);
        }
    }
}

/// Round a whole-unit weight up to the next multiple of 5, by repeated
/// increments of one.  Used when deriving a configuration's week-by-week
/// sets from a one-rep max.
pub fn round_to_5(n: u64) -> (r: u64)
    requires
        n + 4 <= u64::MAX,
    ensures
        r == next_multiple_of_5(n as int),
        n <= r,
        is_multiple_of_5(r as int),
        forall|m: int| n <= m < r ==> !#[trigger] is_multiple_of_5(m),
{
    proof {
        lemma_next_multiple_of_5(n as int);
    }
    let mut r: u64 = n;
    while r % 5 != 0
        invariant
            n + 4 <= u64::MAX,
            n <= r <= next_multiple_of_5(n as int) <= n + 4,
            is_multiple_of_5(next_multiple_of_5(n as int)),
        decreases next_multiple_of_5(n as int) - r,
    {
        r = r + 1;
    }
    proof {
        lemma_next_multiple_of_5(n as int);
        assert(is_multiple_of_5(r as int));
    }
    r
}

/// Round a whole-unit weight up, by repeated increments of one, until its
/// value modulo 10 is 0 or 5.  Used when generating a plan directly from
/// maximums without a saved configuration.
pub fn round_to_5_or_10(n: u64) -> (r: u64)
    requires
        n + 4 <= u64::MAX,
    ensures
        r == next_multiple_of_5(n as int),
        n <= r,
        is_five_or_ten_mark(r as int),
        forall|m: int| n <= m < r ==> !#[trigger] is_five_or_ten_mark(m),
{
    proof {
        lemma_next_multiple_of_5(n as int);
    }
    let mut r: u64 = n;
    while !(r % 10 == 0 || r % 10 == 5)
        invariant
            n + 4 <= u64::MAX,
            n <= r <= next_multiple_of_5(n as int) <= n + 4,
            is_multiple_of_5(next_multiple_of_5(n as int)),
        decreases next_multiple_of_5(n as int) - r,
    {
        proof {
            lemma_five_or_ten_mark_iff(r as int);
        }
        r = r + 1;
    }
    proof {
        lemma_five_or_ten_mark_iff(r as int);
        lemma_next_multiple_of_5(n as int);
        assert forall|m: int| n <= m < r implies !#[trigger] is_five_or_ten_mark(m) by {
            lemma_five_or_ten_mark_iff(m);
        }
    }
    r
}

} // verus!
