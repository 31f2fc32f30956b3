//! Decimal numerals on the wire: the canonical decimal form of an integer,
//! and parsing of decimal text, mirroring how `str::parse` accepts an
//! optional sign followed by one or more digits and rejects everything else.

use vstd::prelude::*;

verus! {

// ---------------------------------------------------------------------------
// Spec: digits and the canonical decimal numeral
// ---------------------------------------------------------------------------

/// A decimal digit character.
pub open spec fn is_digit(c: char) -> bool {
    48 <= c as u32 <= 57
}

/// The numeric value of a digit character.
pub open spec fn digit_val(c: char) -> nat {
    (c as u32 - 48) as nat
}

/// The digit character for a value below ten.
pub open spec fn dec_digit(d: nat) -> char {
    if d == 0 {
        '0'
    } else if d == 1 {
        '1'
    } else if d == 2 {
        '2'
    } else if d == 3 {
        '3'
    } else if d == 4 {
        '4'
    } else if d == 5 {
        '5'
    } else if d == 6 {
        '6'
    } else if d == 7 {
        '7'
    } else if d == 8 {
        '8'
    } else {
        '9'
    }
}

/// The canonical decimal numeral of a natural number, without sign or
/// leading zeros (except for the single digit `0` itself).
pub open spec fn dec_nat(n: nat) -> Seq<char>
    decreases n,
{
    if n < 10 {
        seq![dec_digit(n)]
    } else {
        dec_nat(n / 10).push(dec_digit(n % 10))
    }
}

/// The canonical decimal numeral of an integer: a `-` sign for negative
/// values, then the numeral of the magnitude.
pub open spec fn dec_int(i: int) -> Seq<char> {
    if i < 0 {
        seq!['-'] + dec_nat((-i) as nat)
    } else {
        dec_nat(i as nat)
    }
}

/// Every character of the text is a decimal digit.
pub open spec fn all_digits(s: Seq<char>) -> bool {
    forall|i: int| 0 <= i < s.len() ==> is_digit(#[trigger] s[i])
}

/// The value of a digit string, most significant digit first.
pub open spec fn digits_val(s: Seq<char>) -> nat
    decreases s.len(),
{
    if s.len() == 0 {
        0
    } else {
        digits_val(s.drop_last()) * 10 + digit_val(s.last())
    }
}

// ---------------------------------------------------------------------------
// Spec: parsing, the way `str::parse` reads decimal text
// ---------------------------------------------------------------------------

/// The shape `str::parse` accepts: an optional `+` or `-` sign followed by
/// one or more digits. Returns the sign and the (unbounded) magnitude.
pub open spec fn spec_parse_mag(s: Seq<char>) -> Option<(bool, nat)> {
    let (neg, d) = if s.len() > 0 && s[0] == '-' {
        (true, s.skip(1))
    } else if s.len() > 0 && s[0] == '+' {
        (false, s.skip(1))
    } else {
        (false, s)
    };
    if d.len() > 0 && all_digits(d) {
        Some((neg, digits_val(d)))
    } else {
        None
    }
}

/// The signed value of the text, if it has the accepted shape.
pub open spec fn spec_parse_int(s: Seq<char>) -> Option<int> {
    match spec_parse_mag(s) {
        Some((neg, m)) => Some(if neg { -(m as int) } else { m as int }),
        None => None,
    }
}

/// What `str::parse::<i64>` returns on this text.
pub open spec fn spec_parse_i64(s: Seq<char>) -> Option<i64> {
    match spec_parse_int(s) {
        Some(v) => if i64::MIN <= v <= i64::MAX {
            Some(v as i64)
        } else {
            None
        },
        None => None,
    }
}

/// What `str::parse::<i128>` returns on this text.
pub open spec fn spec_parse_i128(s: Seq<char>) -> Option<i128> {
    match spec_parse_int(s) {
        Some(v) => if i128::MIN <= v <= i128::MAX {
            Some(v as i128)
        } else {
            None
        },
        None => None,
    }
}

/// What `str::parse::<usize>` returns on this text: an unsigned parse
/// rejects a `-` sign outright, even on `-0`.
pub open spec fn spec_parse_usize(s: Seq<char>) -> Option<usize> {
    match spec_parse_mag(s) {
        Some((neg, m)) => if !neg && m <= usize::MAX {
            Some(m as usize)
        } else {
            None
        },
        None => None,
    }
}

// ---------------------------------------------------------------------------
// Lemmas about the canonical numeral
// ---------------------------------------------------------------------------

/// The canonical numeral is non-empty and consists of digits only.
pub proof fn lemma_dec_nat_digits(n: nat)
    ensures
        dec_nat(n).len() >= 1,
        all_digits(dec_nat(n)),
    decreases n,
{
    if n >= 10 {
        lemma_dec_nat_digits(n / 10);
        assert forall|i: int| 0 <= i < dec_nat(n).len() implies is_digit(#[trigger] dec_nat(n)[i]) by {
            if i < dec_nat(n / 10).len() {
                assert(dec_nat(n)[i] == dec_nat(n / 10)[i]);
            }
        }
    }
}

/// Reading the canonical numeral back yields the number it was made from.
pub proof fn lemma_digits_val_dec_nat(n: nat)
    ensures
        digits_val(dec_nat(n)) == n,
    decreases n,
{
    if n < 10 {
        reveal_with_fuel(digits_val, 2);
        assert(dec_nat(n) =~= seq![dec_digit(n)]);
        assert(dec_nat(n).drop_last() =~= Seq::<char>::empty());
        assert(digits_val(dec_nat(n)) == digit_val(dec_digit(n)));
    } else {
        lemma_digits_val_dec_nat(n / 10);
        let s = dec_nat(n / 10).push(dec_digit(n % 10));
        assert(s.drop_last() =~= dec_nat(n / 10));
        assert(s.last() == dec_digit(n % 10));
        assert(digit_val(dec_digit(n % 10)) == n % 10);
        assert(digits_val(s) == (n / 10) * 10 + n % 10);
        assert((n / 10) * 10 + n % 10 == n) by (nonlinear_arith);
    }
}

/// The value of a digit string grows (weakly) with its length: a prefix
/// never has a larger value than the whole.
pub proof fn lemma_digits_val_prefix(s: Seq<char>, i: int)
    requires
        0 <= i <= s.len(),
    ensures
        digits_val(s.take(i)) <= digits_val(s),
    decreases s.len() - i,
{
    if i == s.len() {
        assert(s.take(i) =~= s);
    } else {
        lemma_digits_val_prefix(s, i + 1);
        let t = s.take(i + 1);
        assert(t.drop_last() =~= s.take(i));
        assert(digits_val(s.take(i)) <= digits_val(s.take(i)) * 10 + digit_val(t.last()))
            by (nonlinear_arith);
    }
}

/// Appending one digit multiplies the value by ten and adds the digit.
pub proof fn lemma_digits_val_step(s: Seq<char>, i: int)
    requires
        0 <= i < s.len(),
    ensures
        digits_val(s.take(i + 1)) == digits_val(s.take(i)) * 10 + digit_val(s[i]),
{
    let t = s.take(i + 1);
    assert(t.drop_last() =~= s.take(i));
    assert(t.last() == s[i]);
}

// ---------------------------------------------------------------------------
// Exec: writing the canonical numeral
// ---------------------------------------------------------------------------

/// Appends the digit character for `d` to `out`.
fn append_digit(d: u8, out: &mut String)
    requires
        d < 10,
    ensures
        final(out)@ == old(out)@.push(dec_digit(d as nat)),
{
    proof {
        reveal_strlit("0");
        reveal_strlit("1");
        reveal_strlit("2");
        reveal_strlit("3");
        reveal_strlit("4");
        reveal_strlit("5");
        reveal_strlit("6");
        reveal_strlit("7");
        reveal_strlit("8");
        reveal_strlit("9");
    }
    match d {
        0 => out.append("0"),
        1 => out.append("1"),
        2 => out.append("2"),
        3 => out.append("3"),
        4 => out.append("4"),
        5 => out.append("5"),
        6 => out.append("6"),
        7 => out.append("7"),
        8 => out.append("8"),
        _ => out.append("9"),
    }
    proof {
        assert(out@ =~= old(out)@.push(dec_digit(d as nat)));
    }
}

/// Appends the canonical decimal numeral of `n` to `out`.
pub fn append_dec_u128(n: u128, out: &mut String)
    ensures
        final(out)@ == old(out)@ + dec_nat(n as nat),
    decreases n,
{
    if n >= 10 {
        append_dec_u128(n / 10, out);
    }
    append_digit((n % 10) as u8, out);
    proof {
        if n < 10 {
            assert(old(out)@ + dec_nat(n as nat) =~= old(out)@.push(dec_digit(n as nat)));
        } else {
            assert(old(out)@ + dec_nat(n as nat) =~= (old(out)@ + dec_nat((n / 10) as nat)).push(
                dec_digit((n % 10) as nat),
            ));
        }
    }
}

/// Appends the canonical decimal numeral of a signed 64-bit integer.
pub fn append_dec_i64(n: i64, out: &mut String)
    ensures
        final(out)@ == old(out)@ + dec_int(n as int),
{
    if n < 0 {
        proof {
            reveal_strlit("-");
        }
        out.append("-");
        let m: i128 = -(n as i128);
        append_dec_u128(m as u128, out);
        proof {
            assert(out@ =~= old(out)@ + dec_int(n as int));
        }
    } else {
        append_dec_u128(n as u128, out);
    }
}

/// Appends the canonical decimal numeral of a signed 128-bit integer.
pub fn append_dec_i128(n: i128, out: &mut String)
    ensures
        final(out)@ == old(out)@ + dec_int(n as int),
{
    if n < 0 {
        proof {
            reveal_strlit("-");
        }
        out.append("-");
        let m: u128 = if n == i128::MIN {
            170141183460469231731687303715884105728u128
        } else {
            (-n) as u128
        };
        append_dec_u128(m, out);
        proof {
            assert(m as nat == (-(n as int)) as nat);
            assert(out@ =~= old(out)@ + dec_int(n as int));
        }
    } else {
        append_dec_u128(n as u128, out);
    }
}

// ---------------------------------------------------------------------------
// Exec: parsing decimal text
// ---------------------------------------------------------------------------

/// Reads the sign and magnitude of decimal text, exactly as `str::parse`
/// would. `None` means the text does not have the accepted shape, or its
/// magnitude does not even fit the widest machine integer.
pub fn parse_mag(s: &str) -> (r: Option<(bool, u128)>)
    ensures
        match spec_parse_mag(s@) {
            Some((neg, m)) => if m <= u128::MAX {
                r == Some((neg, m as u128))
            } else {
                r is None
            },
            None => r is None,
        },
{
    let n = s.unicode_len();
    let mut start: usize = 0;
    let mut neg = false;
    if n > 0 {
        let c0 = s.get_char(0);
        if c0 == '-' {
            neg = true;
            start = 1;
        } else if c0 == '+' {
            start = 1;
        }
    }
    let ghost d = if start == 1 {
        s@.skip(1)
    } else {
        s@
    };
    if start >= n {
        // no digits at all
        return None;
    }
    let mut i: usize = start;
    let mut acc: u128 = 0;
    while i < n
        invariant
            start <= i <= n,
            n == s@.len(),
            start <= 1,
            (start == 1) == (n > 0 && (s@[0] == '-' || s@[0] == '+')),
            neg == (n > 0 && s@[0] == '-'),
            d == if start == 1 {
                s@.skip(1)
            } else {
                s@
            },
            all_digits(d.take(i - start)),
            acc == digits_val(d.take(i - start)),
        decreases n - i,
    {
        let c = s.get_char(i);
        let u: u32 = c as u32;
        if u < 48 || u > 57 {
            proof {
                assert(d[i - start] == s@[i as int]);
                assert(!is_digit(d[i - start]));
            }
            return None;
        }
        let dv: u128 = (u - 48) as u128;
        proof {
            lemma_digits_val_step(d, i - start);
            assert(d[i - start] == s@[i as int]);
            assert(digit_val(d[i - start]) == dv);
        }
        if acc > (u128::MAX - dv) / 10 {
            // The digits read so far already exceed every machine range,
            // and more digits cannot bring the value back down.
            proof {
                assert(acc * 10 + dv > u128::MAX) by (nonlinear_arith)
                    requires
                        acc > (u128::MAX - dv) / 10,
                        dv < 10,
                ;
                lemma_digits_val_prefix(d, i - start + 1);
                if d.len() > 0 && all_digits(d) {
                    assert(d.take(d.len() as int) =~= d);
                    assert(digits_val(d) >= digits_val(d.take(i - start + 1)));
                    assert(digits_val(d) > u128::MAX);
                }
            }
            return None;
        }
        acc = acc * 10 + dv;
        i += 1;
        proof {
            assert(d.take(i - start) =~= d.take(i - 1 - start + 1));
        }
    }
    proof {
        assert(d.take(i - start) =~= d);
    }
    Some((neg, acc))
}

/// What `str::parse::<i64>` returns on this text.
pub fn parse_i64(s: &str) -> (r: Option<i64>)
    ensures
        r == spec_parse_i64(s@),
{
    match parse_mag(s) {
        Some((neg, m)) => {
            if neg {
                if m <= 9223372036854775808u128 {
                    Some((-(m as i128)) as i64)
                } else {
                    None
                }
            } else {
                if m <= i64::MAX as u128 {
                    Some(m as i64)
                } else {
                    None
                }
            }
        },
        None => None,
    }
}

/// What `str::parse::<i128>` returns on this text.
pub fn parse_i128(s: &str) -> (r: Option<i128>)
    ensures
        r == spec_parse_i128(s@),
{
    match parse_mag(s) {
        Some((neg, m)) => {
            if neg {
                if m <= 170141183460469231731687303715884105728u128 {
                    if m == 170141183460469231731687303715884105728u128 {
                        Some(i128::MIN)
                    } else {
                        Some(-(m as i128))
                    }
                } else {
                    None
                }
            } else {
                if m <= i128::MAX as u128 {
                    Some(m as i128)
                } else {
                    None
                }
            }
        },
        None => None,
    }
}

/// What `str::parse::<usize>` returns on this text.
pub fn parse_usize(s: &str) -> (r: Option<usize>)
    ensures
        r == spec_parse_usize(s@),
{
    match parse_mag(s) {
        Some((neg, m)) => {
            if neg {
                None
            } else if m <= usize::MAX as u128 {
                Some(m as usize)
            } else {
                None
            }
        },
        None => None,
    }
}

} // verus!
