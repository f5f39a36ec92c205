use vstd::prelude::*;
use crate::byte_reader::ByteReader;
use crate::decimal::{spec_parse_int, parse_int, dec_int, dec_digits, is_digit, all_digits,
    lemma_dec_digits_shape, lemma_parse_dec_int};

verus! {

/// The largest payload length a scalar may declare: 512 MiB.
pub const MAX_BULK_STRING_LENGTH: isize = 512 * 1024 * 1024;

/// One binary-string value of the protocol: the protocol null, a present
/// but empty payload, or a payload of one or more raw bytes.
#[derive(Debug, PartialEq, Eq, Clone)]
pub enum BulkString {
    Null,
    Empty,
    Filled(Vec<u8>),
}

/// The mathematical shape of a `BulkString`: its payload as a byte sequence.
pub enum BulkStringView {
    Null,
    Empty,
    Filled(Seq<u8>),
}

impl View for BulkString {
    type V = BulkStringView;

    open spec fn view(&self) -> BulkStringView {
        match self {
            BulkString::Null => BulkStringView::Null,
            BulkString::Empty => BulkStringView::Empty,
            BulkString::Filled(v) => BulkStringView::Filled(v@),
        }
    }
}

/// How decoding one scalar can fail: a wrong leading marker, a bad or
/// out-of-range declared length, a malformed terminator after the length,
/// or malformed payload bytes.
#[derive(Debug, PartialEq, Eq)]
pub enum BulkStringFormatError {
    Prefix,
    Length,
    LengthTrailer,
    Data,
}

/// The 2-byte field terminator.
pub open spec fn crlf() -> Seq<u8> {
    seq![13u8, 10u8]
}

/// The wire form of one scalar.
pub open spec fn scalar_wire(b: BulkStringView) -> Seq<u8> {
    match b {
        BulkStringView::Null => seq![36u8] + dec_int(-1) + crlf(),
        BulkStringView::Empty => seq![36u8] + dec_int(0) + crlf() + crlf(),
        BulkStringView::Filled(p) => seq![36u8] + dec_int(p.len() as int) + crlf() + p + crlf(),
    }
}

/// The position of the first carriage return at or after `i`, or the end of
/// the buffer if there is none.
pub open spec fn scan_to_cr(data: Seq<u8>, i: int) -> int
    decreases data.len() - i,
{
    if i < 0 || i >= data.len() {
        data.len() as int
    } else if data[i] == 13 {
        i
    } else {
        scan_to_cr(data, i + 1)
    }
}

/// A stretch of non-carriage-return bytes from `p` up to a carriage return
/// (or the end of the buffer) at `q` pins the scan down to `q`.
pub proof fn lemma_scan_to_cr_unique(data: Seq<u8>, p: int, q: int)
    requires
        0 <= p <= q <= data.len(),
        forall|j: int| p <= j < q ==> data[j] != 13,
        q == data.len() || data[q] == 13,
    ensures
        scan_to_cr(data, p) == q,
    decreases q - p,
{
    if p < q {
        lemma_scan_to_cr_unique(data, p + 1, q);
    }
}

/// What reading a 2-byte terminator at position `i` gives: whether the two
/// bytes `\r\n` were found, and the position after the bytes consumed by the
/// attempt (the check stops at the first byte that cannot match).
pub open spec fn spec_read_crlf(data: Seq<u8>, i: int) -> (bool, int) {
    if i < data.len() && data[i] == 13 {
        if i + 1 < data.len() && data[i + 1] == 10 {
            (true, i + 2)
        } else if i + 1 < data.len() {
            (false, i + 2)
        } else {
            (false, i + 1)
        }
    } else if i < data.len() {
        (false, i + 1)
    } else {
        (false, i)
    }
}

/// What decoding one scalar at position `pos` gives: the decoded value or
/// the error, and the position after the bytes consumed by the attempt.
pub open spec fn spec_parse_scalar(data: Seq<u8>, pos: int) -> (Result<
    BulkStringView,
    BulkStringFormatError,
>, int) {
    if pos >= data.len() {
        (Err(BulkStringFormatError::Prefix), pos)
    } else if data[pos] != 36 {
        (Err(BulkStringFormatError::Prefix), pos + 1)
    } else {
        let cr = scan_to_cr(data, pos + 1);
        match spec_parse_int(data.subrange(pos + 1, cr)) {
            None => (Err(BulkStringFormatError::Length), cr),
            Some(len) => if len < -1 || len > MAX_BULK_STRING_LENGTH as int {
                (Err(BulkStringFormatError::Length), cr)
            } else {
                let (ok1, p1) = spec_read_crlf(data, cr);
                if len == -1 {
                    if ok1 {
                        (Ok(BulkStringView::Null), p1)
                    } else {
                        (Err(BulkStringFormatError::LengthTrailer), p1)
                    }
                } else if len == 0 {
                    if !ok1 {
                        (Err(BulkStringFormatError::LengthTrailer), p1)
                    } else {
                        let (ok2, p2) = spec_read_crlf(data, p1);
                        if ok2 {
                            (Ok(BulkStringView::Empty), p2)
                        } else {
                            (Err(BulkStringFormatError::LengthTrailer), p2)
                        }
                    }
                } else {
                    if !ok1 {
                        (Err(BulkStringFormatError::LengthTrailer), p1)
                    } else if p1 + len > data.len() {
                        (Err(BulkStringFormatError::Data), p1)
                    } else {
                        let payload = data.subrange(p1, p1 + len);
                        let (ok2, p2) = spec_read_crlf(data, p1 + len);
                        if ok2 {
                            (Ok(BulkStringView::Filled(payload)), p2)
                        } else {
                            (Err(BulkStringFormatError::Data), p2)
                        }
                    }
                }
            },
        }
    }
}

/// Reads the declared length of a field: the digits (with an optional sign)
/// up to the first carriage return, parsed as a signed decimal number.
pub fn read_length(reader: &mut ByteReader) -> (r: Option<isize>)
    ensures
        final(reader).bytes() == old(reader).bytes(),
        old(reader).pos() <= final(reader).pos() <= final(reader).bytes().len(),
        final(reader).pos() == scan_to_cr(old(reader).bytes(), old(reader).pos() as int),
        ({
            let digits = old(reader).bytes().subrange(old(reader).pos() as int, final(reader).pos() as int);
            match r {
                Some(v) => spec_parse_int(digits) == Some(v as int),
                None => spec_parse_int(digits) == None::<int>,
            }
        }),
{
    let not_cr = |b: u8| -> (keep: bool)
        ensures
            keep == (b != 13),
        { b != 13 };
    let length_bytes = reader.read_while(not_cr);
    proof {
        lemma_scan_to_cr_unique(
            reader.bytes(),
            old(reader).pos() as int,
            reader.pos() as int,
        );
    }
    parse_int(length_bytes)
}

/// Reads one 2-byte `\r\n` terminator, consuming at most two bytes.
pub fn read_crlf(reader: &mut ByteReader) -> (r: bool)
    ensures
        final(reader).bytes() == old(reader).bytes(),
        old(reader).pos() <= final(reader).pos() <= final(reader).bytes().len(),
        r == spec_read_crlf(old(reader).bytes(), old(reader).pos() as int).0,
        final(reader).pos() == spec_read_crlf(old(reader).bytes(), old(reader).pos() as int).1,
{
    let first_ok = match reader.read_byte() {
        Some(b) => b == 13,
        None => false,
    };
    if !first_ok {
        return false;
    }
    match reader.read_byte() {
        Some(b) => b == 10,
        None => false,
    }
}

/// Decodes one scalar from the reader, exactly as `spec_parse_scalar`
/// describes: marker, declared length, terminator, payload, terminator.
pub fn parse(reader: &mut ByteReader) -> (r: Result<BulkString, BulkStringFormatError>)
    ensures
        final(reader).bytes() == old(reader).bytes(),
        old(reader).pos() <= final(reader).pos() <= final(reader).bytes().len(),
        final(reader).pos() == spec_parse_scalar(old(reader).bytes(), old(reader).pos() as int).1,
        match r {
            Ok(b) => spec_parse_scalar(old(reader).bytes(), old(reader).pos() as int).0
                == Ok::<BulkStringView, BulkStringFormatError>(b@),
            Err(e) => spec_parse_scalar(old(reader).bytes(), old(reader).pos() as int).0
                == Err::<BulkStringView, BulkStringFormatError>(e),
        },
{
    let marker_ok = match reader.read_byte() {
        Some(b) => b == 36,
        None => return Err(BulkStringFormatError::Prefix),
    };
    if !marker_ok {
        return Err(BulkStringFormatError::Prefix);
    }

    let length = match read_length(reader) {
        Some(length) => length,
        None => return Err(BulkStringFormatError::Length),
    };

    if length < -1 || length > MAX_BULK_STRING_LENGTH {
        return Err(BulkStringFormatError::Length);
    }

    if length == -1 {
        if !read_crlf(reader) {
            return Err(BulkStringFormatError::LengthTrailer);
        }

        Ok(BulkString::Null)
    } else if length == 0 {
        if !read_crlf(reader) {
            return Err(BulkStringFormatError::LengthTrailer);
        }

        if !read_crlf(reader) {
            return Err(BulkStringFormatError::LengthTrailer);
        }

        Ok(BulkString::Empty)
    } else {
        if !read_crlf(reader) {
            return Err(BulkStringFormatError::LengthTrailer);
        }

        let remaining = reader.bytes_remaining();
        if remaining < length as usize {
            return Err(BulkStringFormatError::Data);
        }

        let bytes = vstd::slice::slice_to_vec(reader.slice(length as usize));

        if !read_crlf(reader) {
            return Err(BulkStringFormatError::Data);
        }

        Ok(BulkString::Filled(bytes))
    }
}

/// Law: a payload of one to the maximum number of bytes, encoded as a
/// scalar, decodes back to exactly that payload, consuming the whole wire.
pub proof fn lemma_scalar_round_trip(payload: Seq<u8>)
    requires
        1 <= payload.len() <= MAX_BULK_STRING_LENGTH as int,
    ensures
        ({
            let wire = scalar_wire(BulkStringView::Filled(payload));
            spec_parse_scalar(wire, 0) == (
                Ok::<BulkStringView, BulkStringFormatError>(BulkStringView::Filled(payload)),
                wire.len() as int,
            )
        }),
{
    let len = payload.len() as int;
    let d = dec_int(len);
    lemma_dec_digits_shape(len);
    lemma_parse_dec_int(len);
    let wire = scalar_wire(BulkStringView::Filled(payload));
    let dlen = d.len() as int;
    assert(wire.len() == 1 + dlen + 2 + len + 2);
    assert(wire[0] == 36);
    assert forall|j: int| 1 <= j < 1 + dlen implies wire[j] != 13 by {
        assert(wire[j] == d[j - 1]);
        assert(is_digit(d[j - 1]));
    }
    assert(wire[1 + dlen] == 13);
    lemma_scan_to_cr_unique(wire, 1, 1 + dlen);
    assert(wire.subrange(1, 1 + dlen) =~= d);
    assert(wire[1 + dlen + 1] == 10);
    assert(spec_read_crlf(wire, 1 + dlen) == (true, 3 + dlen));
    assert(wire.subrange(3 + dlen, 3 + dlen + len) =~= payload);
    assert(wire[3 + dlen + len] == 13);
    assert(wire[3 + dlen + len + 1] == 10);
    assert(spec_read_crlf(wire, 3 + dlen + len) == (true, wire.len() as int));
}

/// Law: a declared length outside `[-1, MAX_BULK_STRING_LENGTH]` is rejected
/// with a `Length` error before any byte past the length digits is consumed,
/// whatever follows the length line.
pub proof fn lemma_scalar_length_rejected(n: int, rest: Seq<u8>)
    requires
        n < -1 || n > MAX_BULK_STRING_LENGTH as int,
    ensures
        ({
            let wire = seq![36u8] + dec_int(n) + crlf() + rest;
            spec_parse_scalar(wire, 0).0 == Err::<BulkStringView, BulkStringFormatError>(
                BulkStringFormatError::Length,
            ) && spec_parse_scalar(wire, 0).1 == 1 + dec_int(n).len()
        }),
{
    let d = dec_int(n);
    if n < 0 {
        lemma_dec_digits_shape(-n);
        assert(d == seq![45u8] + dec_digits(-n));
    } else {
        lemma_dec_digits_shape(n);
    }
    lemma_parse_dec_int(n);
    let wire = seq![36u8] + dec_int(n) + crlf() + rest;
    let dlen = d.len() as int;
    assert(wire[0] == 36);
    assert forall|j: int| 1 <= j < 1 + dlen implies wire[j] != 13 by {
        assert(wire[j] == d[j - 1]);
        if n < 0 {
            if j == 1 {
                assert(d[0] == 45);
            } else {
                assert(d[j - 1] == dec_digits(-n)[j - 2]);
                assert(is_digit(dec_digits(-n)[j - 2]));
            }
        } else {
            assert(is_digit(d[j - 1]));
        }
    }
    assert(wire[1 + dlen] == 13);
    lemma_scan_to_cr_unique(wire, 1, 1 + dlen);
    assert(wire.subrange(1, 1 + dlen) =~= d);
}

} // verus!
