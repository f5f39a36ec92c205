use vstd::prelude::*;
use crate::array::{value_views, Value};
use crate::bulk_string::{BulkString, BulkStringView};
use crate::bytes::clone_bytes;
use crate::commands::{Response, ResponseView};
use crate::store::Store;

verus! {

pub struct Get;

/// What `GET` replies: the value bound to the key, the null scalar when the
/// key is absent, a failure when the single argument is missing or carries
/// no bytes. The store is never touched.
pub open spec fn spec_get(store: Map<Seq<u8>, Seq<u8>>, args: Seq<BulkStringView>) -> ResponseView {
    if args.len() != 1 {
        ResponseView::Error("wrong number of arguments"@)
    } else {
        match args[0] {
            BulkStringView::Filled(k) => if store.contains_key(k) {
                ResponseView::BulkString(BulkStringView::Filled(store[k]))
            } else {
                ResponseView::BulkString(BulkStringView::Null)
            },
            _ => ResponseView::Error("invalid argument"@),
        }
    }
}

impl Get {
    /// Replies exactly as `spec_get` describes, leaving the store as it is.
    pub fn execute(&self, data: &mut Store, arguments: &[Value]) -> (r: Response)
        ensures
            final(data)@ == old(data)@,
            r@ == spec_get(old(data)@, value_views(arguments@)),
    {
        if arguments.len() != 1 {
            return Response::Error("wrong number of arguments");
        }

        match &arguments[0] {
            Value::BulkString(b) => match b {
                BulkString::Filled(key) => match data.get(key.as_slice()) {
                    Some(value) => Response::BulkString(BulkString::Filled(clone_bytes(value))),
                    None => Response::BulkString(BulkString::Null),
                },
                _ => Response::Error("invalid argument"),
            },
        }
    }
}

} // verus!
