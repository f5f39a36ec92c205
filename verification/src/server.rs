use vstd::prelude::*;
use vstd::utf8::{encode_utf8, valid_utf8};
use crate::array::{lemma_parse_array_filled_len, parse, spec_parse_array, value_views, Array,
    ArrayView, Value};
use crate::bulk_string::{crlf, BulkString, BulkStringView};
use crate::bytes::{ascii_upper, extend_bytes, is_utf8, to_ascii_uppercase};
use crate::commands::{get_command, response_wire, spec_execute, spec_get_command};
use crate::store::Store;

verus! {

/// The wire form of a protocol-level failure line: `-ERR `, the message,
/// and the 2-byte terminator.
pub open spec fn error_reply(msg: Seq<char>) -> Seq<u8> {
    seq![45u8] + encode_utf8("ERR "@) + encode_utf8(msg) + crlf()
}

/// Builds the wire form of a protocol-level failure line.
pub fn error_response(message: &str) -> (out: Vec<u8>)
    ensures
        out@ == error_reply(message@),
{
    let mut out: Vec<u8> = Vec::new();
    out.push(45);
    extend_bytes(&mut out, "ERR ".as_bytes());
    extend_bytes(&mut out, message.as_bytes());
    out.push(13);
    out.push(10);
    proof {
        assert(out@ =~= error_reply(message@));
    }
    out
}

/// What one request does to the store, and the reply it earns. A frame that
/// does not decode, a frame without a byte-carrying command name, a name
/// that is not text, and an unknown name each earn a failure line and leave
/// the store untouched; otherwise the named command runs on the remaining
/// elements and its response is encoded.
pub open spec fn spec_handle(store: Map<Seq<u8>, Seq<u8>>, input: Seq<u8>) -> (Map<
    Seq<u8>,
    Seq<u8>,
>, Seq<u8>) {
    match spec_parse_array(input) {
        Err(_) => (store, error_reply("an error occurred"@)),
        Ok(frame) => match frame {
            ArrayView::Null => (store, error_reply("unexpected null array"@)),
            ArrayView::Empty => (store, error_reply("unexpected empty array"@)),
            ArrayView::Filled(vals) => match vals[0] {
                BulkStringView::Null => (store, error_reply("unexpected null bulk string"@)),
                BulkStringView::Empty => (store, error_reply("unexpected empty bulk string"@)),
                BulkStringView::Filled(name) => if !valid_utf8(name) {
                    (store, error_reply("invalid command"@))
                } else {
                    match spec_get_command(ascii_upper(name)) {
                        None => (store, error_reply("unknown command"@)),
                        Some(cmd) => {
                            let (m, resp) = spec_execute(cmd, store, vals.drop_first());
                            (m, response_wire(resp))
                        },
                    }
                },
            },
        },
    }
}

/// Serves one request buffer: decodes the frame, resolves and executes the
/// command against the store, and returns the encoded reply, exactly as
/// `spec_handle` describes.
pub fn handle_request(data: &mut Store, input: &[u8]) -> (out: Vec<u8>)
    ensures
        final(data)@ == spec_handle(old(data)@, input@).0,
        out@ == spec_handle(old(data)@, input@).1,
{
    match parse(input) {
        Ok(result) => match result {
            Array::Null => error_response("unexpected null array"),
            Array::Empty => error_response("unexpected empty array"),
            Array::Filled(values) => {
                proof {
                    lemma_parse_array_filled_len(input@);
                }
                let elements = values.as_slice();
                match &elements[0] {
                    Value::BulkString(bs) => match bs {
                        BulkString::Null => error_response("unexpected null bulk string"),
                        BulkString::Empty => error_response("unexpected empty bulk string"),
                        BulkString::Filled(command) => {
                            if !is_utf8(command.as_slice()) {
                                return error_response("invalid command");
                            }

                            let upper = to_ascii_uppercase(command.as_slice());
                            match get_command(upper.as_slice()) {
                                Some(cmd) => {
                                    let arguments = &elements[1..elements.len()];
                                    proof {
                                        assert(value_views(arguments@) =~= value_views(
                                            values@,
                                        ).drop_first());
                                    }
                                    let response = cmd.execute(data, arguments);
                                    response.encode()
                                },
                                None => error_response("unknown command"),
                            }
                        },
                    },
                }
            },
        },
        Err(_) => error_response("an error occurred"),
    }
}

} // verus!
