use vstd::prelude::*;
use vstd::utf8::{is_leading_byte_width_1, is_leading_byte_width_2,
    is_leading_byte_width_3, is_leading_byte_width_4, length_of_first_scalar,
    partial_valid_partial_invalid_utf8, partial_valid_utf8, partial_valid_utf8_extend,
    valid_first_scalar, valid_utf8};

verus! {

/// Byte-wise equality of two byte strings.
pub fn bytes_eq(a: &[u8], b: &[u8]) -> (r: bool)
    ensures
        r == (a@ == b@),
{
    if a.len() != b.len() {
        proof {
            assert(a@.len() != b@.len());
        }
        return false;
    }

    let n = a.len();
    let mut i: usize = 0;
    while i < n
        invariant
            i <= n,
            n == a@.len(),
            n == b@.len(),
            forall|j: int| 0 <= j < i ==> a@[j] == b@[j],
        decreases n - i,
    {
        if a[i] != b[i] {
            return false;
        }
        i = i + 1;
    }

    proof {
        assert(a@ =~= b@);
    }
    true
}

/// An exact copy of a byte vector.
pub fn clone_bytes(v: &Vec<u8>) -> (r: Vec<u8>)
    ensures
        r@ == v@,
{
    let r = v.clone();
    proof {
        assert forall|i: int| 0 <= i < v@.len() implies r@[i] == v@[i] by {
            assert(cloned::<u8>(v[i], r@[i]));
        }
        assert(r@ =~= v@);
    }
    r
}

/// Appends a byte string onto a byte vector.
pub fn extend_bytes(out: &mut Vec<u8>, b: &[u8])
    ensures
        final(out)@ == old(out)@ + b@,
{
    let ghost before = out@;
    out.extend_from_slice(b);
    proof {
        assert forall|i: int| 0 <= i < out@.len() implies out@[i] == (before + b@)[i] by {
            if i >= before.len() {
                assert(cloned::<u8>(b@[i - before.len()], out@[i]));
            }
        }
        assert(out@ =~= before + b@);
    }
}

/// The ASCII upper-case form of one byte: letters `a` to `z` are mapped to
/// `A` to `Z`, every other byte stays as it is.
pub open spec fn ascii_upper_byte(b: u8) -> u8 {
    if 97 <= b <= 122 {
        (b - 32) as u8
    } else {
        b
    }
}

/// The ASCII upper-case form of a byte string.
pub open spec fn ascii_upper(s: Seq<u8>) -> Seq<u8> {
    s.map_values(|b: u8| ascii_upper_byte(b))
}

/// Upper-cases a byte string, ASCII letters only.
pub fn to_ascii_uppercase(s: &[u8]) -> (r: Vec<u8>)
    ensures
        r@ == ascii_upper(s@),
{
    let n = s.len();
    let mut out: Vec<u8> = Vec::new();
    let mut i: usize = 0;
    while i < n
        invariant
            i <= n,
            n == s@.len(),
            out@ == ascii_upper(s@.subrange(0, i as int)),
        decreases n - i,
    {
        let b = s[i];
        if 97 <= b && b <= 122 {
            out.push(b - 32);
        } else {
            out.push(b);
        }
        proof {
            assert(s@.subrange(0, i + 1).drop_last() =~= s@.subrange(0, i as int));
            assert(ascii_upper(s@.subrange(0, i + 1)) =~= ascii_upper(
                s@.subrange(0, i as int),
            ).push(ascii_upper_byte(s@[i as int])));
        }
        i = i + 1;
    }
    proof {
        assert(s@.subrange(0, n as int) =~= s@);
    }
    out
}

/// Whether the bytes are a UTF-8 encoding of text, as vstd's `valid_utf8`
/// states it: a sequence of well-formed scalar encodings, none overlong,
/// none in the surrogate range.
pub fn is_utf8(s: &[u8]) -> (r: bool)
    ensures
        r == valid_utf8(s@),
{
    let n = s.len();
    let mut i: usize = 0;
    while i < n
        invariant
            0 <= i <= n,
            n == s@.len(),
            partial_valid_utf8(s@, i as int),
        decreases n - i,
    {
        let ghost rest = s@.subrange(i as int, n as int);
        proof {
            assert(rest.len() == n - i);
            assert(rest[0] == s@[i as int]);
        }
        let b0 = s[i];
        let width: usize;
        if b0 <= 0x7f {
            proof {
                assert((b0 & 0x7f) <= 0x7f && !(0xc0 <= b0 <= 0xdf)) by (bit_vector)
                    requires b0 <= 0x7f;
                assert(valid_first_scalar(rest));
                assert(length_of_first_scalar(rest) == 1);
            }
            width = 1;
        } else if 0xc0 <= b0 && b0 <= 0xdf {
            if n - i < 2 {
                proof {
                    lemma_rest_invalid(s@, i as int);
                }
                return false;
            }
            let b1 = s[i + 1];
            if !(0x80 <= b1 && b1 <= 0xbf) {
                proof {
                    assert(rest[1] == s@[i + 1]);
                    lemma_rest_invalid(s@, i as int);
                }
                return false;
            }
            let cp: u32 = (((b0 & 0x1f) as u32) << 6u32) | ((b1 & 0x3f) as u32);
            if cp < 0x80 {
                proof {
                    assert(rest[1] == s@[i + 1]);
                    lemma_rest_invalid(s@, i as int);
                }
                return false;
            }
            proof {
                assert(rest[1] == s@[i + 1]);
                assert((((b0 & 0x1f) as u32) << 6u32) | ((b1 & 0x3f) as u32) <= 0x7ff)
                    by (bit_vector);
                assert(valid_first_scalar(rest));
                assert(length_of_first_scalar(rest) == 2);
            }
            width = 2;
        } else if 0xe0 <= b0 && b0 <= 0xef {
            if n - i < 3 {
                proof {
                    if i + 1 < n {
                        assert(rest[1] == s@[i + 1]);
                    }
                    lemma_rest_invalid(s@, i as int);
                }
                return false;
            }
            let b1 = s[i + 1];
            let b2 = s[i + 2];
            if !(0x80 <= b1 && b1 <= 0xbf) || !(0x80 <= b2 && b2 <= 0xbf) {
                proof {
                    assert(rest[1] == s@[i + 1] && rest[2] == s@[i + 2]);
                    lemma_rest_invalid(s@, i as int);
                }
                return false;
            }
            let cp: u32 = (((b0 & 0x0f) as u32) << 12u32) | (((b1 & 0x3f) as u32) << 6u32) | ((
            b2 & 0x3f) as u32);
            if cp < 0x800 || (0xd800 <= cp && cp <= 0xdfff) {
                proof {
                    assert(rest[1] == s@[i + 1] && rest[2] == s@[i + 2]);
                    lemma_rest_invalid(s@, i as int);
                }
                return false;
            }
            proof {
                assert(rest[1] == s@[i + 1] && rest[2] == s@[i + 2]);
                assert(valid_first_scalar(rest));
                assert(length_of_first_scalar(rest) == 3);
            }
            width = 3;
        } else if 0xf0 <= b0 && b0 <= 0xf7 {
            if n - i < 4 {
                proof {
                    if i + 1 < n {
                        assert(rest[1] == s@[i + 1]);
                    }
                    if i + 2 < n {
                        assert(rest[2] == s@[i + 2]);
                    }
                    lemma_rest_invalid(s@, i as int);
                }
                return false;
            }
            let b1 = s[i + 1];
            let b2 = s[i + 2];
            let b3 = s[i + 3];
            if !(0x80 <= b1 && b1 <= 0xbf) || !(0x80 <= b2 && b2 <= 0xbf) || !(0x80 <= b3 && b3
                <= 0xbf) {
                proof {
                    assert(rest[1] == s@[i + 1] && rest[2] == s@[i + 2] && rest[3] == s@[i + 3]);
                    lemma_rest_invalid(s@, i as int);
                }
                return false;
            }
            let cp: u32 = (((b0 & 0x07) as u32) << 18u32) | (((b1 & 0x3f) as u32) << 12u32) | (((
            b2 & 0x3f) as u32) << 6u32) | ((b3 & 0x3f) as u32);
            if cp < 0x10000 || cp > 0x10ffff {
                proof {
                    assert(rest[1] == s@[i + 1] && rest[2] == s@[i + 2] && rest[3] == s@[i + 3]);
                    lemma_rest_invalid(s@, i as int);
                }
                return false;
            }
            proof {
                assert(rest[1] == s@[i + 1] && rest[2] == s@[i + 2] && rest[3] == s@[i + 3]);
                assert(valid_first_scalar(rest));
                assert(length_of_first_scalar(rest) == 4);
            }
            width = 4;
        } else {
            proof {
                assert(!is_leading_byte_width_1(b0) && !is_leading_byte_width_2(b0)
                    && !is_leading_byte_width_3(b0) && !is_leading_byte_width_4(b0));
                lemma_rest_invalid(s@, i as int);
            }
            return false;
        }
        proof {
            partial_valid_utf8_extend(s@, i as int);
        }
        i = i + width;
    }
    proof {
        assert(s@.subrange(0, n as int) =~= s@);
    }
    true
}

/// A prefix that is text followed by bytes that do not begin with a
/// well-formed scalar encoding is not text as a whole.
proof fn lemma_rest_invalid(bytes: Seq<u8>, i: int)
    requires
        partial_valid_utf8(bytes, i),
        0 <= i < bytes.len(),
        !valid_first_scalar(bytes.subrange(i, bytes.len() as int)),
    ensures
        !valid_utf8(bytes),
{
    let rest = bytes.subrange(i, bytes.len() as int);
    assert(rest.len() > 0);
    assert(!valid_utf8(rest));
    partial_valid_partial_invalid_utf8(bytes, i);
}

} // verus!
