use vstd::prelude::*;
use crate::array::{value_views, Value};
use crate::bulk_string::{BulkString, BulkStringView};
use crate::bytes::clone_bytes;
use crate::commands::{Response, ResponseView};
use crate::store::Store;

verus! {

pub struct Ping;

/// What `PING` replies: `PONG` with no argument, the argument echoed back
/// when there is exactly one and it carries bytes, a failure otherwise. The
/// store is never touched.
pub open spec fn spec_ping(args: Seq<BulkStringView>) -> ResponseView {
    if args.len() == 0 {
        ResponseView::SimpleString("PONG"@)
    } else if args.len() == 1 {
        match args[0] {
            BulkStringView::Filled(b) => ResponseView::BulkString(BulkStringView::Filled(b)),
            _ => ResponseView::Error("invalid argument"@),
        }
    } else {
        ResponseView::Error("wrong number of arguments"@)
    }
}

impl Ping {
    /// Replies exactly as `spec_ping` describes, leaving the store as it is.
    pub fn execute(&self, data: &mut Store, arguments: &[Value]) -> (r: Response)
        ensures
            final(data)@ == old(data)@,
            r@ == spec_ping(value_views(arguments@)),
    {
        match arguments.len() {
            0 => Response::SimpleString("PONG"),
            1 => {
                match &arguments[0] {
                    Value::BulkString(b) => match b {
                        BulkString::Filled(bytes) => Response::BulkString(
                            BulkString::Filled(clone_bytes(bytes)),
                        ),
                        _ => Response::Error("invalid argument"),
                    },
                }
            },
            _ => Response::Error("wrong number of arguments"),
        }
    }
}

} // verus!
