use vstd::prelude::*;

verus! {

/// True of the ASCII digits `'0'` through `'9'`.
pub open spec fn is_digit(b: u8) -> bool {
    48 <= b <= 57
}

pub open spec fn all_digits(s: Seq<u8>) -> bool {
    forall|i: int| 0 <= i < s.len() ==> is_digit(#[trigger] s[i])
}

/// The number denoted by a string of ASCII digits, most significant first.
pub open spec fn digits_val(s: Seq<u8>) -> int
    decreases s.len(),
{
    if s.len() == 0 {
        0
    } else {
        digits_val(s.drop_last()) * 10 + (s.last() - 48)
    }
}

/// The shortest decimal digit string of a non-negative number.
pub open spec fn dec_digits(n: int) -> Seq<u8>
    decreases n,
{
    if n <= 9 {
        seq![(n + 48) as u8]
    } else {
        dec_digits(n / 10).push((n % 10 + 48) as u8)
    }
}

/// The decimal form of an integer: a minus sign for a negative number,
/// then its digits.
pub open spec fn dec_int(n: int) -> Seq<u8> {
    if n < 0 {
        seq![45u8] + dec_digits(-n)
    } else {
        dec_digits(n)
    }
}

/// What parsing a signed decimal number from `s` gives: an optional single
/// `+` or `-` sign, then at least one digit and nothing else, the value
/// within the `isize` range. Anything else parses to `None`.
pub open spec fn spec_parse_int(s: Seq<u8>) -> Option<int> {
    let ds = if s.len() > 0 && (s[0] == 43 || s[0] == 45) {
        s.drop_first()
    } else {
        s
    };
    let neg = s.len() > 0 && s[0] == 45;
    if ds.len() == 0 || !all_digits(ds) {
        None
    } else {
        let v = if neg {
            -digits_val(ds)
        } else {
            digits_val(ds)
        };
        if v < isize::MIN as int || v > isize::MAX as int {
            None
        } else {
            Some(v)
        }
    }
}

proof fn lemma_digits_val_nonneg(s: Seq<u8>)
    requires
        all_digits(s),
    ensures
        digits_val(s) >= 0,
    decreases s.len(),
{
    if s.len() > 0 {
        assert(all_digits(s.drop_last()));
        lemma_digits_val_nonneg(s.drop_last());
    }
}

/// A digit string denotes at least as much as any of its prefixes.
proof fn lemma_digits_val_prefix_le(s: Seq<u8>, i: int)
    requires
        all_digits(s),
        0 <= i <= s.len(),
    ensures
        digits_val(s.subrange(0, i)) <= digits_val(s),
    decreases s.len() - i,
{
    if i == s.len() {
        assert(s.subrange(0, i) =~= s);
    } else {
        let a = s.subrange(0, i);
        let b = s.subrange(0, i + 1);
        assert(b.drop_last() =~= a);
        assert(all_digits(a));
        lemma_digits_val_nonneg(a);
        assert(digits_val(b) == digits_val(a) * 10 + (b.last() - 48));
        lemma_digits_val_prefix_le(s, i + 1);
    }
}

/// Parses a signed decimal integer from raw bytes, exactly as
/// `spec_parse_int` describes.
pub fn parse_int(s: &[u8]) -> (r: Option<isize>)
    ensures
        match r {
            Some(v) => spec_parse_int(s@) == Some(v as int),
            None => spec_parse_int(s@) == None::<int>,
        },
{
    let n = s.len();
    let mut start: usize = 0;
    let mut neg = false;
    if n > 0 && (s[0] == 43 || s[0] == 45) {
        neg = s[0] == 45;
        start = 1;
    }
    let ghost ds = if start == 1 { s@.drop_first() } else { s@ };
    proof {
        assert(ds =~= s@.subrange(start as int, n as int));
    }
    if start >= n {
        return None;
    }

    let mut i: usize = start;
    let mut mag: u128 = 0;
    while i < n
        invariant
            start <= i <= n,
            n == s@.len(),
            start <= 1,
            start == 1 <==> s@.len() > 0 && (s@[0] == 43 || s@[0] == 45),
            neg <==> s@.len() > 0 && s@[0] == 45,
            ds == (if s@.len() > 0 && (s@[0] == 43 || s@[0] == 45) {
                s@.drop_first()
            } else {
                s@
            }),
            ds == s@.subrange(start as int, n as int),
            all_digits(s@.subrange(start as int, i as int)),
            mag == digits_val(s@.subrange(start as int, i as int)),
            mag <= 9223372036854775808u128,
        decreases n - i,
    {
        let b = s[i];
        if b < 48 || b > 57 {
            proof {
                assert(ds[i - start] == s@[i as int]);
                assert(!is_digit(ds[i - start]));
                assert(!all_digits(ds));
            }
            return None;
        }
        let next: u128 = mag * 10 + ((b - 48) as u128);
        proof {
            let a = s@.subrange(start as int, i as int);
            let c = s@.subrange(start as int, i + 1);
            assert(c.drop_last() =~= a);
            assert(c.last() == s@[i as int]);
            assert(digits_val(c) == digits_val(a) * 10 + (c.last() - 48));
            assert forall|j: int| 0 <= j < c.len() implies is_digit(#[trigger] c[j]) by {
                if j < c.len() - 1 {
                    assert(c[j] == a[j]);
                    assert(is_digit(a[j]));
                } else {
                    assert(c[j] == s@[i as int]);
                }
            }
            assert(all_digits(c));
        }
        mag = next;
        i = i + 1;
        if mag > 9223372036854775808u128 {
            proof {
                if all_digits(ds) {
                    let p = s@.subrange(start as int, i as int);
                    assert(p =~= ds.subrange(0, i - start));
                    lemma_digits_val_prefix_le(ds, i - start);
                    assert(digits_val(ds.subrange(0, i - start)) == mag);
                    assert(digits_val(ds) >= mag);
                    lemma_digits_val_nonneg(ds);
                    assert(digits_val(ds) > isize::MAX as int);
                    assert(-digits_val(ds) < isize::MIN as int);
                }
                assert(spec_parse_int(s@) == None::<int>);
            }
            return None;
        }
    }

    proof {
        assert(s@.subrange(start as int, i as int) =~= ds);
    }
    let v: i128 = if neg {
        -(mag as i128)
    } else {
        mag as i128
    };
    if v < isize::MIN as i128 || v > isize::MAX as i128 {
        None
    } else {
        Some(v as isize)
    }
}

/// Writes the decimal digits of a non-negative number onto `out`.
pub fn push_digits(n: u64, out: &mut Vec<u8>)
    ensures
        final(out)@ == old(out)@ + dec_digits(n as int),
    decreases n,
{
    if n <= 9 {
        out.push((n + 48) as u8);
        assert(final(out)@ =~= old(out)@ + dec_digits(n as int));
    } else {
        push_digits(n / 10, out);
        out.push(((n % 10) + 48) as u8);
        assert(final(out)@ =~= old(out)@ + dec_digits(n as int));
    }
}

/// Writes the decimal form of `n` (as `dec_int` gives it) onto `out`.
pub fn push_int(n: i64, out: &mut Vec<u8>)
    ensures
        final(out)@ == old(out)@ + dec_int(n as int),
{
    if n < 0 {
        out.push(45);
        let mag: u64 = (-(n as i128)) as u64;
        push_digits(mag, out);
        assert(final(out)@ =~= old(out)@ + dec_int(n as int));
    } else {
        push_digits(n as u64, out);
    }
}

/// The digits of a non-negative number contain no carriage return, no sign,
/// and parse back to the number itself when it fits an `isize`.
pub proof fn lemma_dec_digits_shape(n: int)
    requires
        n >= 0,
    ensures
        all_digits(dec_digits(n)),
        dec_digits(n).len() >= 1,
        digits_val(dec_digits(n)) == n,
    decreases n,
{
    if n <= 9 {
        let d = dec_digits(n);
        assert(d.drop_last() =~= Seq::<u8>::empty());
        assert(digits_val(d.drop_last()) == 0);
        assert(digits_val(d) == d.last() - 48);
    } else {
        lemma_dec_digits_shape(n / 10);
        let d = dec_digits(n);
        assert(d.drop_last() =~= dec_digits(n / 10));
        vstd::arithmetic::div_mod::lemma_fundamental_div_mod(n, 10);
        assert(d.last() == (n % 10 + 48) as u8);
        assert(digits_val(d) == digits_val(d.drop_last()) * 10 + (d.last() - 48));
    }
}

/// Parsing the decimal form of `n` yields `n` when it fits an `isize`,
/// and fails when it does not.
pub proof fn lemma_parse_dec_int(n: int)
    ensures
        isize::MIN as int <= n <= isize::MAX as int ==> spec_parse_int(dec_int(n)) == Some(n),
        !(isize::MIN as int <= n <= isize::MAX as int) ==> spec_parse_int(dec_int(n)) == None::<int>,
{
    if n < 0 {
        lemma_dec_digits_shape(-n);
        let s = dec_int(n);
        assert(s[0] == 45);
        assert(s.drop_first() =~= dec_digits(-n));
    } else {
        lemma_dec_digits_shape(n);
        let s = dec_int(n);
        assert(is_digit(s[0]));
    }
}

} // verus!
