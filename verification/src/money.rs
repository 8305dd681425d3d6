//! Money values as two-decimal strings and exact cent arithmetic.

use vstd::prelude::*;
use vstd::arithmetic::div_mod::{
    lemma_fundamental_div_mod, lemma_fundamental_div_mod_converse,
    lemma_div_is_ordered_by_denominator, lemma_mod_breakdown,
};
use vstd::string::StrSliceExecFns;

verus! {

/// Largest magnitude, in cents, that the library accepts for one money value.
pub const MONEY_MAX_CENTS: i64 = 1000000000000000;

/// A decimal digit character.
pub open spec fn is_digit(c: char) -> bool {
    48 <= c as int && c as int <= 57
}

/// Numeric value of one digit character.
pub open spec fn digit_val(c: char) -> int {
    c as int - 48
}

/// The character for one digit value.
pub open spec fn digit_char(d: int) -> char {
    if d == 0 {
        '0'
    } else if d == 1 {
        '1'
    } else if d == 2 {
        '2'
    } else if d == 3 {
        '3'
    } else if d == 4 {
        '4'
    } else if d == 5 {
        '5'
    } else if d == 6 {
        '6'
    } else if d == 7 {
        '7'
    } else if d == 8 {
        '8'
    } else {
        '9'
    }
}

pub open spec fn all_digits(s: Seq<char>) -> bool {
    forall|i: int| 0 <= i < s.len() ==> is_digit(#[trigger] s[i])
}

/// Value of a digit string read in base ten.
pub open spec fn digits_val(s: Seq<char>) -> int
    decreases s.len(),
{
    if s.len() == 0 {
        0
    } else {
        digits_val(s.drop_last()) * 10 + digit_val(s.last())
    }
}

/// The shortest digit string for a non-negative value.
pub open spec fn dec_digits(n: nat) -> Seq<char>
    decreases n,
{
    if n < 10 {
        seq![digit_char(n as int)]
    } else {
        dec_digits(n / 10).push(digit_char((n % 10) as int))
    }
}

/// Syntactic form of an unsigned money string: digits, a dot, two digits.
pub open spec fn money_uns_ok(s: Seq<char>) -> bool {
    &&& s.len() >= 4
    &&& all_digits(s.subrange(0, s.len() - 3))
    &&& s[s.len() - 3] == '.'
    &&& is_digit(s[s.len() - 2])
    &&& is_digit(s[s.len() - 1])
}

/// Value in cents of an unsigned money string.
pub open spec fn money_uns_val(s: Seq<char>) -> int {
    digits_val(s.subrange(0, s.len() - 3)) * 100 + digit_val(s[s.len() - 2]) * 10 + digit_val(
        s[s.len() - 1],
    )
}

/// A money string: an optional minus sign, then digits, a dot, two digits.
pub open spec fn money_ok(s: Seq<char>) -> bool {
    if s.len() > 0 && s[0] == '-' {
        money_uns_ok(s.skip(1))
    } else {
        money_uns_ok(s)
    }
}

/// Value in cents of a money string.
pub open spec fn money_val(s: Seq<char>) -> int {
    if s.len() > 0 && s[0] == '-' {
        -money_uns_val(s.skip(1))
    } else {
        money_uns_val(s)
    }
}

/// Whether a number of cents is representable by the library.
pub open spec fn money_in_range(v: int) -> bool {
    -(MONEY_MAX_CENTS as int) <= v <= MONEY_MAX_CENTS as int
}

/// Canonical two-decimal rendering of a non-negative number of cents.
pub open spec fn money_uns_string(v: int) -> Seq<char> {
    dec_digits((v / 100) as nat) + seq!['.', digit_char((v / 10) % 10), digit_char(v % 10)]
}

/// Canonical two-decimal rendering of a number of cents.
pub open spec fn money_string(v: int) -> Seq<char> {
    if v < 0 {
        seq!['-'] + money_uns_string(-v)
    } else {
        money_uns_string(v)
    }
}

fn digit_str(d: u64) -> (s: &'static str)
    requires
        d < 10,
    ensures
        s@ == seq![digit_char(d as int)],
{
    let s: &'static str = match d {
        0 => "0",
        1 => "1",
        2 => "2",
        3 => "3",
        4 => "4",
        5 => "5",
        6 => "6",
        7 => "7",
        8 => "8",
        _ => "9",
    };
    proof {
        reveal_strlit("0");
        reveal_strlit("1");
        reveal_strlit("2");
        reveal_strlit("3");
        reveal_strlit("4");
        reveal_strlit("5");
        reveal_strlit("6");
        reveal_strlit("7");
        reveal_strlit("8");
        reveal_strlit("9");
        assert(s@ =~= seq![digit_char(d as int)]);
    }
    s
}

fn push_dec_digits(n: u64, out: &mut String)
    ensures
        final(out)@ == old(out)@ + dec_digits(n as nat),
    decreases n,
{
    if n < 10 {
        out.append(digit_str(n));
        proof {
            assert(final(out)@ =~= old(out)@ + dec_digits(n as nat));
        }
    } else {
        push_dec_digits(n / 10, out);
        out.append(digit_str(n % 10));
        proof {
            assert(dec_digits(n as nat) =~= dec_digits(n as nat / 10) + seq![
                digit_char((n as nat % 10) as int),
            ]);
            assert(final(out)@ =~= old(out)@ + dec_digits(n as nat));
        }
    }
}

/// Renders a number of cents as its canonical two-decimal string.
pub fn format_money(cents: i64) -> (s: String)
    ensures
        s@ == money_string(cents as int),
{
    let mut out = String::new();
    let mag: u64;
    if cents < 0 {
        out.append("-");
        mag = (-(cents as i128)) as u64;
        proof {
            reveal_strlit("-");
            assert(out@ =~= seq!['-']);
        }
    } else {
        mag = cents as u64;
    }
    push_dec_digits(mag / 100, &mut out);
    out.append(".");
    out.append(digit_str((mag / 10) % 10));
    out.append(digit_str(mag % 10));
    proof {
        reveal_strlit(".");
        let v: int = if cents < 0 {
            -(cents as int)
        } else {
            cents as int
        };
        assert(mag == v);
        assert(mag as int / 100 == v / 100 && (mag as int / 10) % 10 == (v / 10) % 10 && mag as int
            % 10 == v % 10);
        assert(money_uns_string(v) =~= dec_digits((v / 100) as nat) + seq![
            '.',
            digit_char((v / 10) % 10),
            digit_char(v % 10),
        ]);
        if cents < 0 {
            assert(out@ =~= seq!['-'] + money_uns_string(v));
        } else {
            assert(out@ =~= money_uns_string(v));
        }
    }
    out
}

/// The canonical digit string of a value holds only digits and reads back as
/// that value.
proof fn lemma_dec_digits_props(n: nat)
    ensures
        all_digits(dec_digits(n)),
        digits_val(dec_digits(n)) == n,
        dec_digits(n).len() >= 1,
    decreases n,
{
    if n < 10 {
        let s = dec_digits(n);
        assert(s.drop_last() =~= Seq::<char>::empty());
        assert(digits_val(s) == digits_val(s.drop_last()) * 10 + digit_val(s.last()));
        assert(digit_val(digit_char(n as int)) == n);
    } else {
        lemma_dec_digits_props(n / 10);
        let s = dec_digits(n / 10);
        let c = digit_char((n % 10) as int);
        assert(s.push(c).drop_last() =~= s);
        assert(digits_val(s.push(c)) == digits_val(s) * 10 + digit_val(c));
        lemma_fundamental_div_mod(n as int, 10);
    }
}

/// Formatting a number of cents yields a valid money string that reads back as
/// the same number of cents.
pub proof fn lemma_money_string_roundtrip(v: int)
    ensures
        money_ok(money_string(v)),
        money_val(money_string(v)) == v,
{
    let m: int = if v < 0 {
        -v
    } else {
        v
    };
    let u = money_uns_string(m);
    lemma_dec_digits_props((m / 100) as nat);
    let d = dec_digits((m / 100) as nat);
    assert(u.len() == d.len() + 3);
    assert(u.subrange(0, u.len() - 3) =~= d);
    assert(u[u.len() - 3] == '.');
    assert(u[u.len() - 2] == digit_char((m / 10) % 10));
    assert(u[u.len() - 1] == digit_char(m % 10));
    lemma_fundamental_div_mod(m, 100);
    lemma_mod_breakdown(m, 10, 10);
    assert(money_uns_val(u) == (m / 100) * 100 + ((m / 10) % 10) * 10 + m % 10);
    assert(money_uns_val(u) == m);
    assert(money_uns_ok(u));
    assert(u[0] == d[0]);
    assert(is_digit(d[0]));
    if v < 0 {
        let s = money_string(v);
        assert(s[0] == '-');
        assert(s.skip(1) =~= u);
    } else {
        let s = money_string(v);
        assert(s =~= u);
        assert(s[0] != '-');
    }
}

/// A digit string is non-negative when read in base ten.
proof fn lemma_digits_val_nonneg(s: Seq<char>)
    requires
        all_digits(s),
    ensures
        digits_val(s) >= 0,
    decreases s.len(),
{
    if s.len() > 0 {
        lemma_digits_val_nonneg(s.drop_last());
    }
}

/// Extending a digit string never lowers its value.
proof fn lemma_digits_val_prefix(s: Seq<char>, k: int)
    requires
        all_digits(s),
        0 <= k <= s.len(),
    ensures
        digits_val(s) >= digits_val(s.take(k)),
    decreases s.len(),
{
    if k < s.len() {
        assert(s.drop_last().take(k) =~= s.take(k));
        lemma_digits_val_prefix(s.drop_last(), k);
        lemma_digits_val_nonneg(s.drop_last());
    } else {
        assert(s.take(k) =~= s);
    }
}

/// Why a string failed to parse as a money value.
#[derive(Clone, Copy, Debug, PartialEq, Eq, Structural)]
pub enum MoneyError {
    /// Not of the form: optional minus sign, digits, a dot, two digits.
    Malformed,
    /// A well-formed amount whose magnitude the library does not represent.
    OutOfRange,
}

/// Parses a two-decimal money string into cents.
#[verifier::loop_isolation(false)]
pub fn parse_money(s: &str) -> (r: Result<i64, MoneyError>)
    ensures
        match r {
            Ok(v) => money_ok(s@) && money_in_range(money_val(s@)) && v as int == money_val(s@),
            Err(MoneyError::Malformed) => !money_ok(s@),
            Err(MoneyError::OutOfRange) => money_ok(s@) && !money_in_range(money_val(s@)),
        },
{
    proof {
        assert('-' as int == 45 && '.' as int == 46);
    }
    let n = s.unicode_len();
    let neg = n > 0 && s.get_char(0) as u32 == 45;
    let start: usize = if neg {
        1
    } else {
        0
    };
    if n < 4 || n - start < 4 {
        return Err(MoneyError::Malformed);
    }
    let ghost t: Seq<char> = if neg {
        s@.skip(1)
    } else {
        s@
    };
    proof {
        assert(t =~= s@.subrange(start as int, n as int));
        if neg {
            assert(s@.skip(1) =~= t);
        } else {
            assert(s@ =~= t);
        }
        assert(money_ok(s@) == money_uns_ok(t));
        assert(money_uns_ok(t) ==> money_val(s@) == if neg {
            -money_uns_val(t)
        } else {
            money_uns_val(t)
        });
    }
    let mut acc: i128 = 0;
    let mut over: bool = false;
    let mut j: usize = start;
    while j < n - 3
        invariant
            start <= j <= n - 3,
            all_digits(s@.subrange(start as int, j as int)),
            !over ==> acc == digits_val(s@.subrange(start as int, j as int)) && 0 <= acc
                <= MONEY_MAX_CENTS as i128,
            over ==> digits_val(s@.subrange(start as int, j as int)) > MONEY_MAX_CENTS as int,
        decreases n - j,
    {
        let c = s.get_char(j);
        let u = c as u32;
        if u < 48 || u > 57 {
            proof {
                assert(t[j - start] == s@[j as int]);
                assert(!is_digit(t[j - start]));
                assert(!money_uns_ok(t)) by {
                    if money_uns_ok(t) {
                        assert(is_digit(t.subrange(0, t.len() - 3)[j - start]));
                    }
                }
            }
            return Err(MoneyError::Malformed);
        }
        let ghost pre = s@.subrange(start as int, j as int);
        proof {
            assert(s@.subrange(start as int, j + 1).drop_last() =~= pre);
            assert(all_digits(s@.subrange(start as int, j + 1)));
            assert(digits_val(s@.subrange(start as int, j + 1)) == digits_val(pre) * 10 + (u
                - 48));
        }
        if !over {
            acc = acc * 10 + (u - 48) as i128;
            if acc > MONEY_MAX_CENTS as i128 {
                over = true;
            }
        } else {
            proof {
                lemma_digits_val_nonneg(pre);
            }
        }
        j += 1;
    }
    let dot = s.get_char(n - 3);
    let ghost ip = t.subrange(0, t.len() - 3);
    proof {
        assert(ip =~= s@.subrange(start as int, (n - 3) as int));
        assert(t[t.len() - 3] == s@[n - 3]);
        assert(t[t.len() - 2] == s@[n - 2]);
        assert(t[t.len() - 1] == s@[n - 1]);
    }
    if dot as u32 != 46 {
        return Err(MoneyError::Malformed);
    }
    let c1 = s.get_char(n - 2);
    let u1 = c1 as u32;
    if u1 < 48 || u1 > 57 {
        return Err(MoneyError::Malformed);
    }
    let c0 = s.get_char(n - 1);
    let u0 = c0 as u32;
    if u0 < 48 || u0 > 57 {
        return Err(MoneyError::Malformed);
    }
    proof {
        assert(money_uns_ok(t));
    }
    if over {
        proof {
            assert(digits_val(ip) > MONEY_MAX_CENTS as int);
            assert(money_uns_val(t) >= digits_val(ip) * 100) by {
                assert(digit_val(t[t.len() - 2]) >= 0 && digit_val(t[t.len() - 1]) >= 0);
            }
        }
        return Err(MoneyError::OutOfRange);
    }
    let total: i128 = acc * 100 + ((u1 - 48) as i128) * 10 + ((u0 - 48) as i128);
    proof {
        assert(money_uns_val(t) == total);
    }
    if total > MONEY_MAX_CENTS as i128 {
        return Err(MoneyError::OutOfRange);
    }
    let v = total as i64;
    if neg {
        Ok(-v)
    } else {
        Ok(v)
    }
}

/// The quotient `c / n`, rounded half to even.
pub open spec fn round_half_even(c: int, n: int) -> int
    recommends
        n >= 1,
{
    let q = c / n;
    let r = c % n;
    if 2 * r < n {
        q
    } else if 2 * r > n {
        q + 1
    } else if q % 2 == 0 {
        q
    } else {
        q + 1
    }
}

/// Rounding half to even commutes with negating the dividend.
proof fn lemma_round_half_even_neg(m: int, n: int)
    requires
        n >= 1,
        m >= 0,
    ensures
        round_half_even(-m, n) == -round_half_even(m, n),
{
    let q = m / n;
    let r = m % n;
    lemma_fundamental_div_mod(m, n);
    if r == 0 {
        assert((-q) * n + 0 == -(n * q + 0)) by (nonlinear_arith);
        lemma_fundamental_div_mod_converse(-m, n, -q, 0);
    } else {
        assert((-q - 1) * n + (n - r) == -(n * q + r)) by (nonlinear_arith);
        lemma_fundamental_div_mod_converse(-m, n, -q - 1, n - r);
        if 2 * r == n {
            let k = q / 2;
            lemma_fundamental_div_mod(q, 2);
            if q % 2 == 0 {
                lemma_fundamental_div_mod_converse(-q - 1, 2, -k - 1, 1);
            } else {
                lemma_fundamental_div_mod_converse(-q - 1, 2, -k - 1, 0);
            }
        }
    }
}

/// Rounding half to even never strays farther than half the divisor:
/// `|c - n * round_half_even(c, n)| <= n / 2`.
pub proof fn lemma_round_half_even_close(c: int, n: int)
    requires
        n >= 1,
    ensures
        -n <= 2 * (c - n * round_half_even(c, n)) <= n,
{
    let q = c / n;
    let r = c % n;
    lemma_fundamental_div_mod(c, n);
    assert(n * (q + 1) == n * q + n) by (nonlinear_arith);
    assert(c - n * q == r);
    assert(c - n * (q + 1) == r - n);
}

/// Divides a number of cents evenly, rounding half to even.
pub fn divide_cents(cents: i64, n: usize) -> (r: i64)
    requires
        n >= 1,
        money_in_range(cents as int),
    ensures
        r as int == round_half_even(cents as int, n as int),
        if cents >= 0 {
            0 <= r <= cents
        } else {
            cents <= r <= 0
        },
{
    let neg = cents < 0;
    let m: u128 = if neg {
        (-(cents as i128)) as u128
    } else {
        cents as u128
    };
    let nn = n as u128;
    let q = m / nn;
    let rr = m % nn;
    proof {
        lemma_fundamental_div_mod(m as int, nn as int);
        lemma_div_is_ordered_by_denominator(m as int, 1, nn as int);
    }
    let rounded: u128 = if 2 * rr < nn {
        q
    } else if 2 * rr > nn {
        q + 1
    } else if q % 2 == 0 {
        q
    } else {
        q + 1
    };
    proof {
        assert(rounded == round_half_even(m as int, nn as int));
        assert(rounded <= m) by {
            if nn == 1 {
                assert(m as int % 1 == 0) by {
                    lemma_fundamental_div_mod(m as int, 1);
                }
            } else if rounded == q + 1 {
                assert(2 * (m as int % nn as int) >= nn);
                assert(nn as int * q as int <= m as int - 1);
                assert(q as int <= nn as int * q as int) by (nonlinear_arith)
                    requires
                        nn as int >= 1,
                        q as int >= 0,
                ;
                assert(q < m);
            }
        }
    }
    if neg {
        proof {
            lemma_round_half_even_neg(m as int, nn as int);
        }
        -(rounded as i64)
    } else {
        rounded as i64
    }
}

} // verus!
