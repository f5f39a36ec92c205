use vstd::prelude::*;
use crate::array::{value_views, Value};
use crate::bulk_string::{BulkString, BulkStringView};
use crate::commands::{Response, ResponseView};
use crate::store::Store;

verus! {

pub struct Del;

/// Whether every argument carries bytes.
pub open spec fn all_filled(args: Seq<BulkStringView>) -> bool {
    forall|i: int| 0 <= i < args.len() ==> args[i] is Filled
}

/// The store after removing the keys in order, and how many removals found
/// their key present. A key repeated after its first removal counts no
/// further.
pub open spec fn spec_del_fold(store: Map<Seq<u8>, Seq<u8>>, args: Seq<BulkStringView>) -> (Map<
    Seq<u8>,
    Seq<u8>,
>, int)
    decreases args.len(),
{
    if args.len() == 0 {
        (store, 0)
    } else {
        let (m, c) = spec_del_fold(store, args.drop_last());
        match args.last() {
            BulkStringView::Filled(k) => if m.contains_key(k) {
                (m.remove(k), c + 1)
            } else {
                (m, c)
            },
            _ => (m, c),
        }
    }
}

/// What `DEL` does: with one or more arguments, all carrying bytes, it
/// removes each named key and replies with the count of keys actually
/// removed; otherwise it fails and the store is left untouched.
pub open spec fn spec_del(store: Map<Seq<u8>, Seq<u8>>, args: Seq<BulkStringView>) -> (Map<
    Seq<u8>,
    Seq<u8>,
>, ResponseView) {
    if args.len() == 0 {
        (store, ResponseView::Error("wrong number of arguments"@))
    } else if !all_filled(args) {
        (store, ResponseView::Error("invalid argument"@))
    } else {
        let (m, c) = spec_del_fold(store, args);
        (m, ResponseView::Integer(c))
    }
}

impl Del {
    /// Removes the named keys and counts the removals, exactly as `spec_del`
    /// describes. The argument count is bounded so that the count fits the
    /// reply's signed 64-bit integer.
    pub fn execute(&self, data: &mut Store, arguments: &[Value]) -> (r: Response)
        requires
            arguments@.len() <= i64::MAX,
        ensures
            final(data)@ == spec_del(old(data)@, value_views(arguments@)).0,
            r@ == spec_del(old(data)@, value_views(arguments@)).1,
    {
        if arguments.is_empty() {
            return Response::Error("wrong number of arguments");
        }

        let ghost views = value_views(arguments@);
        let n = arguments.len();
        let mut i: usize = 0;
        while i < n
            invariant
                i <= n,
                n == arguments@.len(),
                views == value_views(arguments@),
                forall|j: int| 0 <= j < i ==> views[j] is Filled,
            decreases n - i,
        {
            match &arguments[i] {
                Value::BulkString(b) => match b {
                    BulkString::Filled(_) => {},
                    _ => {
                        proof {
                            assert(!(views[i as int] is Filled));
                        }
                        return Response::Error("invalid argument");
                    },
                },
            }
            i = i + 1;
        }

        proof {
            assert(all_filled(views));
        }

        let mut deleted: i64 = 0;
        let mut k: usize = 0;
        while k < n
            invariant
                k <= n,
                n == arguments@.len(),
                n <= i64::MAX,
                views == value_views(arguments@),
                all_filled(views),
                0 <= deleted <= k,
                (data@, deleted as int) == spec_del_fold(old(data)@, views.subrange(0, k as int)),
            decreases n - k,
        {
            let ghost prefix = views.subrange(0, k as int);
            match &arguments[k] {
                Value::BulkString(b) => match b {
                    BulkString::Filled(key) => {
                        proof {
                            assert(views.subrange(0, k + 1).drop_last() =~= prefix);
                            assert(views.subrange(0, k + 1).last() == views[k as int]);
                        }
                        if data.remove(key.as_slice()).is_some() {
                            deleted = deleted + 1;
                        }
                    },
                    _ => {
                        proof {
                            assert(views[k as int] is Filled);
                            assert(false);
                        }
                    },
                },
            }
            k = k + 1;
        }

        proof {
            assert(views.subrange(0, n as int) =~= views);
        }

        Response::Integer(deleted)
    }
}

} // verus!
