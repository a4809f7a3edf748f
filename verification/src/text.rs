//! Verified text helpers: decimal rendering of weights and decimal
//! parsing, shared by the plan renderer and the file-name parser.

use vstd::prelude::*;

verus! {

use vstd::string::StringExecFns;
use vstd::string::StrSliceExecFns;

/// The decimal digit character for `d`.
pub open spec fn digit_char(d: int) -> char {
    if d == 0 {
        '0'
    } else if d == 1 {
        '1'
    } else if d == 2 {
        '2'
    } else if d == 3 {
        '3'
    } else if d == 4 {
        '4'
    } else if d == 5 {
        '5'
    } else if d == 6 {
        '6'
    } else if d == 7 {
        '7'
    } else if d == 8 {
        '8'
    } else {
        '9'
    }
}

/// The decimal digits of `n`, most significant first.
pub open spec fn dec_str(n: nat) -> Seq<char>
    decreases n,
{
    if n < 10 {
        seq![digit_char(n as int)]
    } else {
        dec_str(n / 10) + seq![digit_char((n % 10) as int)]
    }
}

/// A weight in tenths of a unit, written the short way: the whole part
/// alone when the tenth is zero, else with a decimal point and one digit.
pub open spec fn tenths_str(t: int) -> Seq<char> {
    if t % 10 == 0 {
        dec_str((t / 10) as nat)
    } else {
        dec_str((t / 10) as nat) + seq!['.'] + seq![digit_char(t % 10)]
    }
}

/// Append one decimal digit character to a string.
fn push_digit(s: &mut String, d: u64)
    requires
        d < 10,
    ensures
        final(s)@ == old(s)@ + seq![digit_char(d as int)],
{
    if d == 0 {
        proof {
            reveal_strlit("0");
        }
        s.append("0");
        proof {
            assert(old(s)@ + "0"@ =~= old(s)@ + seq![digit_char(d as int)]);
        }
    } else if d == 1 {
        proof {
            reveal_strlit("1");
        }
        s.append("1");
        proof {
            assert(old(s)@ + "1"@ =~= old(s)@ + seq![digit_char(d as int)]);
        }
    } else if d == 2 {
        proof {
            reveal_strlit("2");
        }
        s.append("2");
        proof {
            assert(old(s)@ + "2"@ =~= old(s)@ + seq![digit_char(d as int)]);
        }
    } else if d == 3 {
        proof {
            reveal_strlit("3");
        }
        s.append("3");
        proof {
            assert(old(s)@ + "3"@ =~= old(s)@ + seq![digit_char(d as int)]);
        }
    } else if d == 4 {
        proof {
            reveal_strlit("4");
        }
        s.append("4");
        proof {
            assert(old(s)@ + "4"@ =~= old(s)@ + seq![digit_char(d as int)]);
        }
    } else if d == 5 {
        proof {
            reveal_strlit("5");
        }
        s.append("5");
        proof {
            assert(old(s)@ + "5"@ =~= old(s)@ + seq![digit_char(d as int)]);
        }
    } else if d == 6 {
        proof {
            reveal_strlit("6");
        }
        s.append("6");
        proof {
            assert(old(s)@ + "6"@ =~= old(s)@ + seq![digit_char(d as int)]);
        }
    } else if d == 7 {
        proof {
            reveal_strlit("7");
        }
        s.append("7");
        proof {
            assert(old(s)@ + "7"@ =~= old(s)@ + seq![digit_char(d as int)]);
        }
    } else if d == 8 {
        proof {
            reveal_strlit("8");
        }
        s.append("8");
        proof {
            assert(old(s)@ + "8"@ =~= old(s)@ + seq![digit_char(d as int)]);
        }
    } else {
        proof {
            reveal_strlit("9");
        }
        s.append("9");
        proof {
            assert(old(s)@ + "9"@ =~= old(s)@ + seq![digit_char(d as int)]);
        }
    }
}

/// Render `n` in decimal.
pub fn u64_to_string(n: u64) -> (r: String)
    ensures
        r@ == dec_str(n as nat),
    decreases n,
{
    if n < 10 {
        let mut s = String::new();
        push_digit(&mut s, n);
        proof {
            assert(Seq::<char>::empty() + seq![digit_char(n as int)] =~= seq![
                digit_char(n as int),
            ]);
        }
        s
    } else {
        let mut s = u64_to_string(n / 10);
        push_digit(&mut s, n % 10);
        s
    }
}

/// Render a weight held in tenths of a unit.
pub fn tenths_to_string(t: u64) -> (r: String)
    ensures
        r@ == tenths_str(t as int),
{
    let whole = u64_to_string(t / 10);
    let frac = t % 10;
    if frac == 0 {
        whole
    } else {
        let mut s = whole;
        proof {
            reveal_strlit(".");
        }
        s.append(".");
        proof {
            assert(dec_str((t / 10) as nat) + "."@ =~= dec_str((t / 10) as nat) + seq!['.']);
        }
        push_digit(&mut s, frac);
        s
    }
}

/// The character is a decimal digit.
pub open spec fn is_digit(c: char) -> bool {
    48 <= c as u32 <= 57
}

/// The digit character's value.
pub open spec fn digit_val(c: char) -> int {
    c as u32 - 48
}

/// Every character of the sequence is a decimal digit.
pub open spec fn all_digits(s: Seq<char>) -> bool {
    forall|i: int| 0 <= i < s.len() ==> is_digit(#[trigger] s[i])
}

/// The number written by a sequence of digit characters, most significant
/// first.
pub open spec fn str_val(s: Seq<char>) -> int
    decreases s.len(),
{
    if s.len() == 0 {
        0
    } else {
        str_val(s.drop_last()) * 10 + digit_val(s.last())
    }
}

/// A digit string's value is non-negative and only grows as more digits
/// are taken.
pub proof fn lemma_str_val_take_le(s: Seq<char>, k: int)
    requires
        all_digits(s),
        0 <= k <= s.len(),
    ensures
        0 <= str_val(s.take(k)) <= str_val(s),
    decreases s.len() - k,
{
    lemma_str_val_nonneg(s.take(k));
    if k < s.len() {
        lemma_str_val_take_le(s, k + 1);
        assert(s.take(k + 1).drop_last() =~= s.take(k));
        assert(str_val(s.take(k + 1)) == str_val(s.take(k)) * 10 + digit_val(s[k]));
    } else {
        assert(s.take(k) =~= s);
    }
}

/// A digit string's value is non-negative.
pub proof fn lemma_str_val_nonneg(s: Seq<char>)
    requires
        all_digits(s),
    ensures
        0 <= str_val(s),
    decreases s.len(),
{
    if s.len() > 0 {
        assert(all_digits(s.drop_last())) by {
            assert(forall|i: int| 0 <= i < s.len() - 1 ==> is_digit(#[trigger] s[i]));
        }
        lemma_str_val_nonneg(s.drop_last());
    }
}

/// Parse a decimal number.  Succeeds exactly on a non-empty, all-digit
/// string whose value fits.
pub fn parse_u64(s: &str) -> (r: Option<u64>)
    ensures
        match r {
            Some(v) => s@.len() > 0 && all_digits(s@) && v == str_val(s@),
            None => s@.len() == 0 || !all_digits(s@) || str_val(s@) > u64::MAX,
        },
{
    let len = s.unicode_len();
    if len == 0 {
        return None;
    }
    let mut val: u64 = 0;
    let mut i: usize = 0;
    while i < len
        invariant
            0 <= i <= len,
            len == s@.len(),
            all_digits(s@.take(i as int)),
            val == str_val(s@.take(i as int)),
        decreases len - i,
    {
        let c = s.get_char(i);
        let u = c as u32;
        if u < 48 || u > 57 {
            assert(!is_digit(s@[i as int]));
            return None;
        }
        let d = (u - 48) as u64;
        proof {
            assert(s@.take(i as int + 1).drop_last() =~= s@.take(i as int));
            assert(str_val(s@.take(i as int + 1)) == str_val(s@.take(i as int)) * 10 + digit_val(
                s@[i as int],
            ));
        }
        if val > (u64::MAX - d) / 10 {
            proof {
                assert(val * 10 + d > u64::MAX) by (nonlinear_arith)
                    requires
                        val > (u64::MAX - d) / 10,
                        d < 10,
                ;
                if all_digits(s@) {
                    lemma_str_val_take_le(s@, i as int + 1);
                    assert(s@.take(i as int + 1)[i as int] == s@[i as int]);
                    assert(str_val(s@) > u64::MAX);
                }
            }
            return None;
        }
        val = val * 10 + d;
        i = i + 1;
    }
    proof {
        assert(s@.take(len as int) =~= s@);
    }
    Some(val)
}


/// The position of the first occurrence of `c` at or after `i`, or the
/// length if there is none.
pub open spec fn first_occurrence(s: Seq<char>, c: char, i: int) -> int
    decreases s.len() - i,
{
    if i >= s.len() {
        s.len() as int
    } else if s[i] == c {
        i
    } else {
        first_occurrence(s, c, i + 1)
    }
}

/// The first occurrence of `c` at or after `i` is at `p`, given that
/// everything before `p` is free of it and `p` carries it or is the end.
pub proof fn lemma_first_occurrence(s: Seq<char>, c: char, i: int, p: int)
    requires
        0 <= i <= p <= s.len(),
        forall|k: int| i <= k < p ==> s[k] != c,
        p < s.len() ==> s[p] == c,
    ensures
        first_occurrence(s, c, i) == p,
    decreases p - i,
{
    if i < p {
        lemma_first_occurrence(s, c, i + 1, p);
    }
}

/// The weight half of a plate token: everything before the `x`, if any.
pub open spec fn token_weight_part(s: Seq<char>) -> Seq<char> {
    s.take(first_occurrence(s, 'x', 0))
}

/// The token names a count: it has an `x`.
pub open spec fn token_has_count(s: Seq<char>) -> bool {
    first_occurrence(s, 'x', 0) < s.len()
}

/// The count digits of a plate token: everything after the `x`.
pub open spec fn token_count_part(s: Seq<char>) -> Seq<char> {
    s.subrange(first_occurrence(s, 'x', 0) + 1, s.len() as int)
}

/// The weight half is well formed: digits, optionally followed by a
/// decimal point and one tenths digit.
pub open spec fn weight_shape_ok(w: Seq<char>) -> bool {
    let d = first_occurrence(w, '.', 0);
    if d == w.len() {
        w.len() > 0 && all_digits(w)
    } else {
        d > 0 && all_digits(w.take(d)) && d + 2 == w.len() && is_digit(w[d + 1])
    }
}

/// The weight half's value in tenths of a unit.
pub open spec fn weight_tenths_val(w: Seq<char>) -> int {
    let d = first_occurrence(w, '.', 0);
    if d == w.len() {
        str_val(w) * 10
    } else {
        str_val(w.take(d)) * 10 + digit_val(w[d + 1])
    }
}

/// The token's count: the digits after the `x`, or 1 when no count is
/// given.
pub open spec fn token_count_val(s: Seq<char>) -> int {
    if token_has_count(s) {
        str_val(token_count_part(s))
    } else {
        1
    }
}

/// The whole plate token is well formed and in range.
pub open spec fn token_ok(s: Seq<char>) -> bool {
    &&& s.len() > 0
    &&& weight_shape_ok(token_weight_part(s))
    &&& weight_tenths_val(token_weight_part(s)) <= u32::MAX
    &&& token_has_count(s) ==> token_count_part(s).len() > 0 && all_digits(token_count_part(s))
        && str_val(token_count_part(s)) <= u32::MAX
}

/// Why a plate token was rejected.
#[derive(Debug, Clone, Copy, PartialEq, Eq, Structural)]
pub enum TokenError {
    /// The token was empty.
    Empty,
    /// The weight half was not a number, or too large.
    BadWeight,
    /// The count half was not a number, or too large.
    BadCount,
}

/// Find the first occurrence of an ASCII character, or the length.
fn find_char(s: &str, c: char) -> (p: usize)
    ensures
        p == first_occurrence(s@, c, 0),
        p <= s@.len(),
{
    let len = s.unicode_len();
    let mut p: usize = 0;
    while p < len && s.get_char(p) != c
        invariant
            0 <= p <= len,
            len == s@.len(),
            forall|k: int| 0 <= k < p ==> s@[k] != c,
        decreases len - p,
    {
        p = p + 1;
    }
    proof {
        lemma_first_occurrence(s@, c, 0, p as int);
    }
    p
}

/// Parse one plate token of the inventory sub-command: a weight, written
/// to tenths resolution, optionally followed by `x` and a count.  A
/// missing count means one plate.  Returns the weight in tenths and the
/// count, or says what was malformed.
pub fn parse_plate_token(s: &str) -> (r: Result<(u32, u32), TokenError>)
    ensures
        match r {
            Ok(p) => {
                &&& token_ok(s@)
                &&& p.0 == weight_tenths_val(token_weight_part(s@))
                &&& p.1 == token_count_val(s@)
            },
            Err(TokenError::Empty) => s@.len() == 0,
            Err(TokenError::BadWeight) => s@.len() > 0 && (!weight_shape_ok(token_weight_part(s@))
                || weight_tenths_val(token_weight_part(s@)) > u32::MAX),
            Err(TokenError::BadCount) => {
                &&& token_has_count(s@)
                &&& (token_count_part(s@).len() == 0 || !all_digits(token_count_part(s@))
                    || str_val(token_count_part(s@)) > u32::MAX)
            },
        },
{
    let len = s.unicode_len();
    if len == 0 {
        return Err(TokenError::Empty);
    }
    let xp = find_char(s, 'x');
    let weight_str = s.substring_char(0, xp);
    proof {
        assert(weight_str@ =~= token_weight_part(s@));
    }
    let wt = match parse_weight(weight_str) {
        Some(v) => v,
        None => {
            return Err(TokenError::BadWeight);
        },
    };
    if xp == len {
        return Ok((wt, 1));
    }
    let count_str = s.substring_char(xp + 1, len);
    proof {
        assert(count_str@ =~= token_count_part(s@));
    }
    match parse_u64(count_str) {
        Some(c) => {
            if c > u32::MAX as u64 {
                Err(TokenError::BadCount)
            } else {
                Ok((wt, c as u32))
            }
        },
        None => Err(TokenError::BadCount),
    }
}

/// Parse the weight half of a plate token into tenths of a unit.
/// Succeeds exactly on a well-formed weight whose tenths value fits.
fn parse_weight(w: &str) -> (r: Option<u32>)
    ensures
        match r {
            Some(v) => weight_shape_ok(w@) && weight_tenths_val(w@) <= u32::MAX && v
                == weight_tenths_val(w@),
            None => !weight_shape_ok(w@) || weight_tenths_val(w@) > u32::MAX,
        },
{
    let len = w.unicode_len();
    let dp = find_char(w, '.');
    if dp == len {
        match parse_u64(w) {
            Some(v) => {
                if v > (u32::MAX as u64) / 10 {
                    proof {
                        assert(v * 10 > u32::MAX) by (nonlinear_arith)
                            requires
                                v > (u32::MAX as u64) / 10,
                        ;
                    }
                    None
                } else {
                    Some((v as u32) * 10)
                }
            },
            None => {
                proof {
                    if weight_shape_ok(w@) {
                        lemma_str_val_nonneg(w@);
                        assert(str_val(w@) > u64::MAX);
                        assert(str_val(w@) * 10 > u32::MAX) by (nonlinear_arith)
                            requires
                                str_val(w@) > u64::MAX,
                        ;
                    }
                }
                None
            },
        }
    } else {
        if dp == 0 || len < 2 || dp != len - 2 {
            return None;
        }
        let whole_str = w.substring_char(0, dp);
        proof {
            assert(whole_str@ =~= w@.take(dp as int));
        }
        let frac_char = w.get_char(dp + 1);
        let fu = frac_char as u32;
        if fu < 48 || fu > 57 {
            return None;
        }
        let frac = (fu - 48) as u64;
        match parse_u64(whole_str) {
            Some(v) => {
                if v > ((u32::MAX as u64) - frac) / 10 {
                    proof {
                        assert(v * 10 + frac > u32::MAX) by (nonlinear_arith)
                            requires
                                v > ((u32::MAX as u64) - frac) / 10,
                                frac < 10,
                        ;
                    }
                    None
                } else {
                    Some((v as u32) * 10 + (frac as u32))
                }
            },
            None => {
                proof {
                    if weight_shape_ok(w@) {
                        lemma_str_val_nonneg(w@.take(dp as int));
                        assert(str_val(w@.take(dp as int)) > u64::MAX);
                        assert(str_val(w@.take(dp as int)) * 10 + digit_val(w@[dp + 1]) > u32::MAX)
                            by (nonlinear_arith)
                            requires
                                str_val(w@.take(dp as int)) > u64::MAX,
                                0 <= digit_val(w@[dp + 1]),
                        ;
                    }
                }
                None
            },
        }
    }
}

} // verus!
