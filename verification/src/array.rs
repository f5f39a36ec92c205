use vstd::prelude::*;
use crate::byte_reader::ByteReader;
use crate::bulk_string::{parse as parse_bulk_string, read_crlf, read_length, BulkString,
    BulkStringView, spec_parse_scalar, spec_read_crlf, scan_to_cr, MAX_BULK_STRING_LENGTH};
use crate::decimal::spec_parse_int;

verus! {

/// One top-level request frame: the protocol null array, a present but
/// empty array, or an ordered sequence of one or more scalar elements.
#[derive(Debug, PartialEq, Eq)]
pub enum Array {
    Null,
    Empty,
    Filled(Vec<Value>),
}

/// One element of a frame. Only scalars are supported as elements; nested
/// frames are out of scope.
#[derive(Debug, PartialEq, Eq)]
pub enum Value {
    BulkString(BulkString),
}

/// The mathematical shape of a frame: its elements as scalar views.
pub enum ArrayView {
    Null,
    Empty,
    Filled(Seq<BulkStringView>),
}

impl View for Value {
    type V = BulkStringView;

    open spec fn view(&self) -> BulkStringView {
        match self {
            Value::BulkString(b) => b@,
        }
    }
}

/// The views of a sequence of frame elements.
pub open spec fn value_views(vs: Seq<Value>) -> Seq<BulkStringView> {
    vs.map_values(|v: Value| v@)
}

impl View for Array {
    type V = ArrayView;

    open spec fn view(&self) -> ArrayView {
        match self {
            Array::Null => ArrayView::Null,
            Array::Empty => ArrayView::Empty,
            Array::Filled(vs) => ArrayView::Filled(value_views(vs@)),
        }
    }
}

/// How decoding one frame can fail: a wrong leading marker, a bad or
/// out-of-range declared element count, a malformed terminator after the
/// count, or malformed element bytes (including leftover bytes after the
/// last element).
#[derive(Debug, PartialEq, Eq)]
pub enum ArrayFormatError {
    Prefix,
    Length,
    Data,
    LengthTrailer,
}

/// What decoding `k` consecutive scalars starting at `pos` gives: their
/// views and the position after the last one, or the error. Any scalar
/// failure surfaces as a `Data` error.
pub open spec fn spec_parse_values(data: Seq<u8>, pos: int, k: int) -> Result<
    (Seq<BulkStringView>, int),
    ArrayFormatError,
>
    decreases k,
{
    if k <= 0 {
        Ok((Seq::empty(), pos))
    } else if pos >= data.len() || data[pos] != 36 {
        Err(ArrayFormatError::Data)
    } else {
        match spec_parse_scalar(data, pos) {
            (Ok(b), p2) => match spec_parse_values(data, p2, k - 1) {
                Err(e) => Err(e),
                Ok((rest, p3)) => Ok((seq![b] + rest, p3)),
            },
            (Err(_), _) => Err(ArrayFormatError::Data),
        }
    }
}

/// What decoding one whole frame from `data` gives. The buffer must hold
/// exactly one frame: bytes left over after the last element are an error,
/// and a null or empty frame must end with the terminator of its count line.
pub open spec fn spec_parse_array(data: Seq<u8>) -> Result<ArrayView, ArrayFormatError> {
    if data.len() == 0 || data[0] != 42 {
        Err(ArrayFormatError::Prefix)
    } else {
        let cr = scan_to_cr(data, 1);
        match spec_parse_int(data.subrange(1, cr)) {
            None => Err(ArrayFormatError::Length),
            Some(len) => if len < -1 || len > MAX_BULK_STRING_LENGTH as int {
                Err(ArrayFormatError::Length)
            } else if len == -1 || len == 0 {
                if data.len() - cr != 2 {
                    Err(ArrayFormatError::Data)
                } else if !spec_read_crlf(data, cr).0 {
                    Err(ArrayFormatError::LengthTrailer)
                } else if len == -1 {
                    Ok(ArrayView::Null)
                } else {
                    Ok(ArrayView::Empty)
                }
            } else {
                let (ok1, p1) = spec_read_crlf(data, cr);
                if !ok1 {
                    Err(ArrayFormatError::LengthTrailer)
                } else {
                    match spec_parse_values(data, p1, len) {
                        Err(e) => Err(e),
                        Ok((vals, p2)) => if p2 != data.len() {
                            Err(ArrayFormatError::Data)
                        } else {
                            Ok(ArrayView::Filled(vals))
                        },
                    }
                }
            },
        }
    }
}

/// A successful scalar sequence decode yields exactly as many elements as
/// were asked for.
pub proof fn lemma_parse_values_len(data: Seq<u8>, pos: int, k: int)
    ensures
        match spec_parse_values(data, pos, k) {
            Ok((vals, _)) => vals.len() == if k <= 0 {
                0int
            } else {
                k
            },
            Err(_) => true,
        },
    decreases k,
{
    if k > 0 && pos < data.len() && data[pos] == 36 {
        match spec_parse_scalar(data, pos) {
            (Ok(_), p2) => {
                lemma_parse_values_len(data, p2, k - 1);
            },
            (Err(_), _) => {},
        }
    }
}

/// A decoded frame with elements holds between one and the maximum number
/// of them.
pub proof fn lemma_parse_array_filled_len(data: Seq<u8>)
    ensures
        match spec_parse_array(data) {
            Ok(ArrayView::Filled(vals)) => 1 <= vals.len()
                <= MAX_BULK_STRING_LENGTH as int,
            _ => true,
        },
{
    if data.len() > 0 && data[0] == 42 {
        let cr = scan_to_cr(data, 1);
        match spec_parse_int(data.subrange(1, cr)) {
            None => {},
            Some(len) => {
                if 1 <= len <= MAX_BULK_STRING_LENGTH as int {
                    let (ok1, p1) = spec_read_crlf(data, cr);
                    if ok1 {
                        lemma_parse_values_len(data, p1, len);
                    }
                }
            },
        }
    }
}

/// Decodes one frame element: a scalar announced by its `$` marker. Any
/// other leading byte, and any scalar decode failure, is a `Data` error.
pub fn parse_value(reader: &mut ByteReader) -> (r: Result<Value, ArrayFormatError>)
    ensures
        final(reader).bytes() == old(reader).bytes(),
        ({
            let data = old(reader).bytes();
            let pos = old(reader).pos() as int;
            if pos < data.len() && data[pos] == 36 {
                old(reader).pos() <= final(reader).pos() <= final(reader).bytes().len()
                    && match r {
                    Ok(v) => spec_parse_scalar(data, pos).0 == Ok::<
                        BulkStringView,
                        crate::bulk_string::BulkStringFormatError,
                    >(v@) && final(reader).pos() == spec_parse_scalar(data, pos).1,
                    Err(e) => e == ArrayFormatError::Data && spec_parse_scalar(data, pos).0
                        is Err,
                }
            } else {
                r == Err::<Value, ArrayFormatError>(ArrayFormatError::Data)
                    && *final(reader) == *old(reader)
            }
        }),
{
    match reader.peek_byte() {
        Some(b) => {
            if b == 36 {
                match parse_bulk_string(reader) {
                    Ok(bulk_string) => Ok(Value::BulkString(bulk_string)),
                    Err(_) => Err(ArrayFormatError::Data),
                }
            } else {
                Err(ArrayFormatError::Data)
            }
        },
        None => Err(ArrayFormatError::Data),
    }
}

/// Decodes exactly one frame from `data`, exactly as `spec_parse_array`
/// describes: marker, declared element count, terminator, the elements in
/// order, and nothing after them.
#[verifier::loop_isolation(false)]
pub fn parse(data: &[u8]) -> (r: Result<Array, ArrayFormatError>)
    ensures
        match r {
            Ok(a) => spec_parse_array(data@) == Ok::<ArrayView, ArrayFormatError>(a@),
            Err(e) => spec_parse_array(data@) == Err::<ArrayView, ArrayFormatError>(e),
        },
{
    let mut reader = ByteReader::new(data);

    let marker_ok = match reader.read_byte() {
        Some(b) => b == 42,
        None => false,
    };
    if !marker_ok {
        return Err(ArrayFormatError::Prefix);
    }

    let length = match read_length(&mut reader) {
        Some(length) => length,
        None => return Err(ArrayFormatError::Length),
    };

    if length < -1 || length > MAX_BULK_STRING_LENGTH {
        return Err(ArrayFormatError::Length);
    }

    if length == -1 || length == 0 {
        if reader.bytes_remaining() != 2 {
            return Err(ArrayFormatError::Data);
        }

        if !read_crlf(&mut reader) {
            return Err(ArrayFormatError::LengthTrailer);
        }

        if length == -1 {
            Ok(Array::Null)
        } else {
            Ok(Array::Empty)
        }
    } else {
        if !read_crlf(&mut reader) {
            return Err(ArrayFormatError::LengthTrailer);
        }

        let ghost start_pos = reader.pos() as int;
        let ghost total = length as int;
        let n = length as usize;
        let mut values: Vec<Value> = Vec::new();
        let mut idx: usize = 0;

        while idx < n
            invariant
                idx <= n,
                n == total,
                1 <= total,
                reader.bytes() == data@,
                reader.pos() <= data@.len(),
                value_views(values@).len() == idx,
                match spec_parse_values(data@, reader.pos() as int, total - idx) {
                    Ok((rest, p)) => spec_parse_values(data@, start_pos, total) == Ok::<
                        (Seq<BulkStringView>, int),
                        ArrayFormatError,
                    >((value_views(values@) + rest, p)),
                    Err(e) => spec_parse_values(data@, start_pos, total) == Err::<
                        (Seq<BulkStringView>, int),
                        ArrayFormatError,
                    >(e),
                },
            decreases n - idx,
        {
            let ghost pos_before = reader.pos() as int;
            let ghost views_before = value_views(values@);
            match parse_value(&mut reader) {
                Ok(v) => {
                    values.push(v);
                    proof {
                        assert(value_views(values@) =~= views_before.push(v@));
                        match spec_parse_values(data@, reader.pos() as int, total - idx - 1) {
                            Ok((rest, p)) => {
                                assert(spec_parse_values(data@, pos_before, total - idx)
                                    == Ok::<(Seq<BulkStringView>, int), ArrayFormatError>((
                                    seq![v@] + rest,
                                    p,
                                )));
                                assert(views_before + (seq![v@] + rest) =~= value_views(
                                    values@,
                                ) + rest);
                            },
                            Err(_) => {},
                        }
                    }
                },
                Err(_) => {
                    return Err(ArrayFormatError::Data);
                },
            }
            idx = idx + 1;
        }

        proof {
            assert(value_views(values@) + Seq::<BulkStringView>::empty() =~= value_views(
                values@,
            ));
        }

        if reader.bytes_remaining() != 0 {
            return Err(ArrayFormatError::Data);
        }

        Ok(Array::Filled(values))
    }
}

} // verus!
