//! Decimal notation: turning integers into digit strings and back.

use vstd::prelude::*;

verus! {

/// A decimal digit, as a character.
pub open spec fn is_dec_digit(c: char) -> bool {
    48 <= c as u32 && c as u32 <= 57
}

/// Numeric value of a decimal digit character.
pub open spec fn digit_val(c: char) -> int {
    c as u32 - 48
}

/// The character for a single decimal digit value.
pub open spec fn digit_char(d: int) -> char {
    if d == 0 {
        '0'
    } else if d == 1 {
        '1'
    } else if d == 2 {
        '2'
    } else if d == 3 {
        '3'
    } else if d == 4 {
        '4'
    } else if d == 5 {
        '5'
    } else if d == 6 {
        '6'
    } else if d == 7 {
        '7'
    } else if d == 8 {
        '8'
    } else {
        '9'
    }
}

/// Decimal notation of a natural number, without sign or leading zeros.
pub open spec fn spec_dec_nat(n: nat) -> Seq<char>
    decreases n,
{
    if n < 10 {
        seq![digit_char(n as int)]
    } else {
        spec_dec_nat(n / 10) + seq![digit_char((n % 10) as int)]
    }
}

/// Decimal notation of a signed value: a leading '-' for negatives.
pub open spec fn spec_dec_int(v: int) -> Seq<char> {
    if v < 0 {
        seq!['-'] + spec_dec_nat((-v) as nat)
    } else {
        spec_dec_nat(v as nat)
    }
}

/// Every character of the sequence is a decimal digit.
pub open spec fn all_dec_digits(s: Seq<char>) -> bool {
    forall|i: int| 0 <= i < s.len() ==> is_dec_digit(#[trigger] s[i])
}

/// Value of a digit string read in base ten.
pub open spec fn dec_val(s: Seq<char>) -> int
    decreases s.len(),
{
    if s.len() == 0 {
        0
    } else {
        dec_val(s.drop_last()) * 10 + digit_val(s.last())
    }
}

/// What parsing a signed 64-bit integer from text yields: an optional single
/// '+' or '-' sign, then one or more digits, and the value must fit.
pub open spec fn spec_parse_i64(s: Seq<char>) -> Option<i64> {
    let neg = s.len() > 0 && s[0] == '-';
    let ds = if s.len() > 0 && (s[0] == '-' || s[0] == '+') {
        s.drop_first()
    } else {
        s
    };
    if ds.len() == 0 || !all_dec_digits(ds) {
        None
    } else {
        let v = if neg {
            -dec_val(ds)
        } else {
            dec_val(ds)
        };
        if i64::MIN <= v <= i64::MAX {
            Some(v as i64)
        } else {
            None
        }
    }
}

/// What parsing an unsigned 64-bit integer from text yields.
pub open spec fn spec_parse_u64(s: Seq<char>) -> Option<u64> {
    let ds = if s.len() > 0 && s[0] == '+' {
        s.drop_first()
    } else {
        s
    };
    if ds.len() == 0 || !all_dec_digits(ds) {
        None
    } else if dec_val(ds) <= u64::MAX {
        Some(dec_val(ds) as u64)
    } else {
        None
    }
}

/// A digit string never has a negative value.
pub proof fn lemma_dec_val_nonneg(s: Seq<char>)
    requires
        all_dec_digits(s),
    ensures
        dec_val(s) >= 0,
    decreases s.len(),
{
    if s.len() > 0 {
        assert(all_dec_digits(s.drop_last()));
        lemma_dec_val_nonneg(s.drop_last());
    }
}

/// The decimal notation of a natural number is made of digits only.
pub proof fn lemma_spec_dec_nat_digits(n: nat)
    ensures
        spec_dec_nat(n).len() >= 1,
        all_dec_digits(spec_dec_nat(n)),
    decreases n,
{
    if n >= 10 {
        lemma_spec_dec_nat_digits(n / 10);
    }
}

/// Reading the decimal notation of a natural number back gives the number.
pub proof fn lemma_dec_val_spec_dec_nat(n: nat)
    ensures
        dec_val(spec_dec_nat(n)) == n,
    decreases n,
{
    if n < 10 {
        assert(spec_dec_nat(n).drop_last() =~= Seq::<char>::empty());
        assert(dec_val(Seq::<char>::empty()) == 0);
    } else {
        lemma_dec_val_spec_dec_nat(n / 10);
        assert((spec_dec_nat(n / 10) + seq![digit_char((n % 10) as int)]).drop_last()
            =~= spec_dec_nat(n / 10));
    }
}

/// A longer digit string is worth at least as much as any of its prefixes.
pub proof fn lemma_dec_val_prefix_mono(s: Seq<char>, i: int)
    requires
        all_dec_digits(s),
        0 <= i <= s.len(),
    ensures
        dec_val(s) >= dec_val(s.take(i)),
    decreases s.len() - i,
{
    if i < s.len() {
        assert(all_dec_digits(s.take(i)));
        lemma_dec_val_nonneg(s.take(i));
        assert(s.take(i + 1).drop_last() =~= s.take(i));
        assert(s.take(i + 1).last() == s[i]);
        lemma_dec_val_prefix_mono(s, i + 1);
    } else {
        assert(s.take(i) =~= s);
    }
}

/// Decimal digit strings contain no colon.
pub proof fn lemma_digits_no_colon(s: Seq<char>)
    requires
        all_dec_digits(s),
    ensures
        !s.contains(':'),
{
    if s.contains(':') {
        let i = choose|i: int| 0 <= i < s.len() && s[i] == ':';
        assert(is_dec_digit(s[i]));
    }
}

/// Decimal notation of an unsigned 64-bit number.
pub fn u64_to_dec(n: u64) -> (r: String)
    ensures
        r@ == spec_dec_nat(n as nat),
{
    let digits_lit = "0123456789";
    proof {
        reveal_strlit("0123456789");
    }
    assert(digits_lit.is_ascii());
    let mut out = String::new();
    let mut m: u64 = n;
    if m == 0 {
        let d = digits_lit.substring_ascii(0, 1);
        out = String::from_str(d);
        assert(out@ =~= spec_dec_nat(0));
        return out;
    }
    while m > 0
        invariant
            digits_lit@ =~= "0123456789"@,
            m > 0 ==> spec_dec_nat(n as nat) =~= spec_dec_nat(m as nat) + out@,
            m == 0 ==> out@ =~= spec_dec_nat(n as nat),
        decreases m,
    {
        let d = (m % 10) as usize;
        proof {
            reveal_strlit("0123456789");
        }
        let dstr = digits_lit.substring_ascii(d, d + 1);
        assert(dstr@ =~= seq![digit_char(d as int)]);
        let ghost prev = out@;
        out = String::from_str(dstr).concat(out.as_str());
        assert(out@ =~= seq![digit_char(d as int)] + prev);
        let ghost m0 = m as nat;
        m = m / 10;
        proof {
            if m0 < 10 {
                assert(spec_dec_nat(m0) =~= seq![digit_char(m0 as int)]);
            } else {
                assert(spec_dec_nat(m0) =~= spec_dec_nat(m0 / 10) + seq![
                    digit_char((m0 % 10) as int),
                ]);
            }
            assert(spec_dec_nat(n as nat) =~= spec_dec_nat(m0) + prev);
            if m > 0 {
                assert(spec_dec_nat(n as nat) =~= spec_dec_nat(m as nat) + out@);
            } else {
                assert(spec_dec_nat(n as nat) =~= out@);
            }
        }
    }
    out
}

/// Decimal notation of a signed 64-bit number.
pub fn i64_to_dec(v: i64) -> (r: String)
    ensures
        r@ == spec_dec_int(v as int),
{
    if v >= 0 {
        u64_to_dec(v as u64)
    } else {
        let mag: u64 = if v == i64::MIN {
            9223372036854775808u64
        } else {
            (-v) as u64
        };
        let tail = u64_to_dec(mag);
        let out = String::from_str("-").concat(tail.as_str());
        proof {
            reveal_strlit("-");
        }
        assert(out@ =~= seq!['-'] + spec_dec_nat((-(v as int)) as nat));
        out
    }
}

/// Parse an unsigned 64-bit integer, with exactly the grammar of
/// [`spec_parse_u64`]: an optional '+', one or more digits, value in range.
pub fn parse_u64(s: &str) -> (r: Option<u64>)
    ensures
        r == spec_parse_u64(s@),
{
    let n = s.unicode_len();
    if n == 0 {
        return None;
    }
    let c0 = s.get_char(0);
    let has_sign = c0 == '+';
    let start: usize = if has_sign {
        1
    } else {
        0
    };
    let ghost ds = if has_sign {
        s@.drop_first()
    } else {
        s@
    };
    assert(ds.len() == n - start);
    assert(forall|j: int| 0 <= j < ds.len() ==> ds[j] == s@[j + start]);
    if n == start {
        return None;
    }
    let mut mag: u64 = 0;
    let mut i: usize = start;
    while i < n
        invariant
            start <= i <= n,
            n == s@.len(),
            n > start,
            has_sign == (s@.len() > 0 && s@[0] == '+'),
            start == if has_sign { 1int } else { 0int },
            ds == if has_sign { s@.drop_first() } else { s@ },
            ds.len() == n - start,
            forall|j: int| 0 <= j < ds.len() ==> ds[j] == s@[j + start],
            all_dec_digits(ds.take(i - start)),
            mag == dec_val(ds.take(i - start)),
        decreases n - i,
    {
        let c = s.get_char(i);
        let cv = c as u32;
        if cv < 48 || cv > 57 {
            proof {
                assert(ds[i - start] == s@[i as int]);
                assert(!is_dec_digit(ds[i - start]));
                assert(!all_dec_digits(ds));
                assert(spec_parse_u64(s@) is None);
            }
            return None;
        }
        let d = (cv - 48) as u64;
        proof {
            assert(ds[i - start] == s@[i as int]);
            assert(is_dec_digit(ds[i - start]));
            assert(ds.take(i - start + 1).drop_last() =~= ds.take(i - start));
            assert(ds.take(i - start + 1).last() == ds[i - start]);
            assert(digit_val(ds[i - start]) == d);
            assert(dec_val(ds.take(i - start + 1)) == mag * 10 + d);
            assert(all_dec_digits(ds.take(i - start + 1)));
        }
        if mag > (u64::MAX - d) / 10 {
            proof {
                let q = (u64::MAX - d) / 10;
                assert(u64::MAX - d == 10 * q + (u64::MAX - d) % 10);
                assert(mag * 10 >= (q + 1) * 10);
                assert(dec_val(ds.take(i - start + 1)) > u64::MAX);
                if all_dec_digits(ds) {
                    lemma_dec_val_prefix_mono(ds, i - start + 1);
                    assert(dec_val(ds) > u64::MAX);
                    assert(spec_parse_u64(s@) is None);
                } else {
                    assert(spec_parse_u64(s@) is None);
                }
            }
            return None;
        }
        proof {
            let q = (u64::MAX - d) / 10;
            assert(u64::MAX - d == 10 * q + (u64::MAX - d) % 10);
            assert(mag * 10 + d <= 10 * q + d <= u64::MAX);
        }
        mag = mag * 10 + d;
        i = i + 1;
    }
    proof {
        assert(ds.take(n - start) =~= ds);
    }
    Some(mag)
}

/// Parse a signed 64-bit integer, with exactly the grammar of
/// [`spec_parse_i64`]: optional sign, one or more digits, value in range.
pub fn parse_i64(s: &str) -> (r: Option<i64>)
    ensures
        r == spec_parse_i64(s@),
{
    let n = s.unicode_len();
    if n == 0 {
        return None;
    }
    let c0 = s.get_char(0);
    let neg = c0 == '-';
    let has_sign = c0 == '-' || c0 == '+';
    let start: usize = if has_sign {
        1
    } else {
        0
    };
    let ghost ds = if has_sign {
        s@.drop_first()
    } else {
        s@
    };
    assert(ds.len() == n - start);
    assert(forall|j: int| 0 <= j < ds.len() ==> ds[j] == s@[j + start]);
    if n == start {
        return None;
    }
    let limit: u64 = if neg {
        9223372036854775808u64
    } else {
        9223372036854775807u64
    };
    let mut mag: u64 = 0;
    let mut i: usize = start;
    while i < n
        invariant
            start <= i <= n,
            n == s@.len(),
            n > start,
            has_sign == (s@.len() > 0 && (s@[0] == '-' || s@[0] == '+')),
            neg == (s@.len() > 0 && s@[0] == '-'),
            start == if has_sign { 1int } else { 0int },
            ds == if has_sign { s@.drop_first() } else { s@ },
            ds.len() == n - start,
            forall|j: int| 0 <= j < ds.len() ==> ds[j] == s@[j + start],
            all_dec_digits(ds.take(i - start)),
            mag == dec_val(ds.take(i - start)),
            mag <= limit,
            limit == if neg { 9223372036854775808u64 } else { 9223372036854775807u64 },
        decreases n - i,
    {
        let c = s.get_char(i);
        let cv = c as u32;
        if cv < 48 || cv > 57 {
            proof {
                assert(ds[i - start] == s@[i as int]);
                assert(!is_dec_digit(ds[i - start]));
                assert(!all_dec_digits(ds));
                assert(spec_parse_i64(s@) is None);
            }
            return None;
        }
        let d = (cv - 48) as u64;
        proof {
            assert(ds[i - start] == s@[i as int]);
            assert(is_dec_digit(ds[i - start]));
            assert(ds.take(i - start + 1).drop_last() =~= ds.take(i - start));
            assert(ds.take(i - start + 1).last() == ds[i - start]);
            assert(digit_val(ds[i - start]) == d);
            assert(dec_val(ds.take(i - start + 1)) == mag * 10 + d);
            assert(all_dec_digits(ds.take(i - start + 1)));
        }
        if mag > (limit - d) / 10 {
            proof {
                let q = (limit - d) / 10;
                assert(limit - d == 10 * q + (limit - d) % 10);
                assert(mag * 10 >= (q + 1) * 10);
                assert(dec_val(ds.take(i - start + 1)) > limit);
                if all_dec_digits(ds) {
                    lemma_dec_val_prefix_mono(ds, i - start + 1);
                    assert(dec_val(ds) > limit);
                    assert(spec_parse_i64(s@) is None);
                } else {
                    assert(spec_parse_i64(s@) is None);
                }
            }
            return None;
        }
        proof {
            let q = (limit - d) / 10;
            assert(limit - d == 10 * q + (limit - d) % 10);
            assert(mag * 10 + d <= 10 * q + d <= limit);
        }
        mag = mag * 10 + d;
        i = i + 1;
    }
    proof {
        assert(ds.take(n - start) =~= ds);
    }
    if neg {
        if mag == 9223372036854775808u64 {
            Some(i64::MIN)
        } else {
            Some(-(mag as i64))
        }
    } else {
        Some(mag as i64)
    }
}

} // verus!
