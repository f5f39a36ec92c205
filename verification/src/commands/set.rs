use vstd::prelude::*;
use crate::array::{value_views, Value};
use crate::bulk_string::{BulkString, BulkStringView};
use crate::bytes::{ascii_upper, clone_bytes, to_ascii_uppercase};
use crate::commands::{Response, ResponseView};
use crate::store::Store;

verus! {

pub struct SetCmd;

/// The existence condition a `SET` call carries: none, write only if the
/// key exists, or write only if it does not.
#[derive(PartialEq, Eq, Structural, Debug, Clone, Copy)]
pub enum SetOption {
    NotSpecified,
    IfExists,
    IfNotExists,
}

/// Whether a `SET` call asks for the previous value instead of a status.
#[derive(PartialEq, Eq, Structural, Debug, Clone, Copy)]
pub enum GetOption {
    NotSpecified,
    Get,
}

/// What reading the remaining options gives, starting from the options
/// already in hand: each option must carry bytes and, upper-cased, read
/// `XX`, `NX` or `GET`; `XX` and `NX` exclude each other (and themselves).
pub open spec fn spec_parse_options_from(
    opts: Seq<BulkStringView>,
    so: SetOption,
    go: GetOption,
) -> Result<(SetOption, GetOption), ResponseView>
    decreases opts.len(),
{
    if opts.len() == 0 {
        Ok((so, go))
    } else {
        match opts[0] {
            BulkStringView::Filled(b) => {
                let u = ascii_upper(b);
                if u == seq![88u8, 88u8] {
                    if so is NotSpecified {
                        spec_parse_options_from(opts.drop_first(), SetOption::IfExists, go)
                    } else {
                        Err(ResponseView::Error("'XX' and 'NX' can't be used at the same time"@))
                    }
                } else if u == seq![78u8, 88u8] {
                    if so is NotSpecified {
                        spec_parse_options_from(opts.drop_first(), SetOption::IfNotExists, go)
                    } else {
                        Err(ResponseView::Error("'XX' and 'NX' can't be used at the same time"@))
                    }
                } else if u == seq![71u8, 69u8, 84u8] {
                    spec_parse_options_from(opts.drop_first(), so, GetOption::Get)
                } else {
                    Err(ResponseView::Error("invalid option"@))
                }
            },
            _ => Err(ResponseView::Error("invalid argument type"@)),
        }
    }
}

/// What reading a whole option list gives.
pub open spec fn spec_parse_options(opts: Seq<BulkStringView>) -> Result<
    (SetOption, GetOption),
    ResponseView,
> {
    spec_parse_options_from(opts, SetOption::NotSpecified, GetOption::NotSpecified)
}

/// Reads the option arguments of a `SET` call, exactly as
/// `spec_parse_options` describes.
pub fn parse_options(options: &[Value]) -> (r: Result<(SetOption, GetOption), Response>)
    ensures
        match r {
            Ok((so, go)) => spec_parse_options(value_views(options@)) == Ok::<
                (SetOption, GetOption),
                ResponseView,
            >((so, go)),
            Err(e) => spec_parse_options(value_views(options@)) == Err::<
                (SetOption, GetOption),
                ResponseView,
            >(e@),
        },
{
    let ghost views = value_views(options@);
    let mut set_option = SetOption::NotSpecified;
    let mut get_option = GetOption::NotSpecified;

    let n = options.len();
    proof {
        assert(views.subrange(0, n as int) =~= views);
    }
    let mut i: usize = 0;
    while i < n
        invariant
            i <= n,
            n == options@.len(),
            views == value_views(options@),
            spec_parse_options(views) == spec_parse_options_from(
                views.subrange(i as int, n as int),
                set_option,
                get_option,
            ),
        decreases n - i,
    {
        let ghost rest = views.subrange(i as int, n as int);
        proof {
            assert(rest[0] == views[i as int]);
            assert(rest.drop_first() =~= views.subrange(i + 1, n as int));
        }
        let opt = match &options[i] {
            Value::BulkString(b) => match b {
                BulkString::Filled(bytes) => bytes,
                _ => {
                    return Err(Response::Error("invalid argument type"));
                },
            },
        };

        let upper = to_ascii_uppercase(opt.as_slice());

        if upper.len() == 2 && upper[0] == 88 && upper[1] == 88 {
            proof {
                assert(upper@ =~= seq![88u8, 88u8]);
            }
            if set_option == SetOption::NotSpecified {
                set_option = SetOption::IfExists;
            } else {
                return Err(Response::Error("'XX' and 'NX' can't be used at the same time"));
            }
        } else if upper.len() == 2 && upper[0] == 78 && upper[1] == 88 {
            proof {
                assert(upper@ =~= seq![78u8, 88u8]);
            }
            if set_option == SetOption::NotSpecified {
                set_option = SetOption::IfNotExists;
            } else {
                return Err(Response::Error("'XX' and 'NX' can't be used at the same time"));
            }
        } else if upper.len() == 3 && upper[0] == 71 && upper[1] == 69 && upper[2] == 84 {
            proof {
                assert(upper@ =~= seq![71u8, 69u8, 84u8]);
            }
            get_option = GetOption::Get;
        } else {
            proof {
                assert(upper@ != seq![88u8, 88u8]);
                assert(upper@ != seq![78u8, 88u8]);
                assert(upper@ != seq![71u8, 69u8, 84u8]);
            }
            return Err(Response::Error("invalid option"));
        }

        i = i + 1;
    }

    proof {
        assert(views.subrange(n as int, n as int) =~= Seq::<BulkStringView>::empty());
    }

    Ok((set_option, get_option))
}

/// The heart of `SET`: whether the write may happen under the existence
/// condition, the store after it, and the reply — a status when a plain
/// write happened, the previous value when `GET` was asked for, the null
/// scalar when the condition blocked the write.
pub open spec fn spec_set_apply(
    store: Map<Seq<u8>, Seq<u8>>,
    k: Seq<u8>,
    v: Seq<u8>,
    so: SetOption,
    go: GetOption,
) -> (Map<Seq<u8>, Seq<u8>>, ResponseView) {
    let key_exists = store.contains_key(k);
    let prev = if key_exists {
        BulkStringView::Filled(store[k])
    } else {
        BulkStringView::Null
    };
    let may_write = match so {
        SetOption::NotSpecified => true,
        SetOption::IfExists => key_exists,
        SetOption::IfNotExists => !key_exists,
    };
    let new_store = if may_write {
        store.insert(k, v)
    } else {
        store
    };
    let reply = match go {
        GetOption::NotSpecified => if may_write {
            ResponseView::SimpleString("OK"@)
        } else {
            ResponseView::BulkString(BulkStringView::Null)
        },
        GetOption::Get => ResponseView::BulkString(prev),
    };
    (new_store, reply)
}

/// What `SET` does: two to four arguments, the first two carrying the key
/// and the value, the rest options; a failure leaves the store untouched.
pub open spec fn spec_set(store: Map<Seq<u8>, Seq<u8>>, args: Seq<BulkStringView>) -> (Map<
    Seq<u8>,
    Seq<u8>,
>, ResponseView) {
    if args.len() < 2 || args.len() > 4 {
        (store, ResponseView::Error("wrong number of arguments"@))
    } else {
        match (args[0], args[1]) {
            (BulkStringView::Filled(k), BulkStringView::Filled(v)) => {
                match spec_parse_options(args.subrange(2, args.len() as int)) {
                    Err(e) => (store, e),
                    Ok((so, go)) => spec_set_apply(store, k, v, so, go),
                }
            },
            (BulkStringView::Filled(_), _) => (store, ResponseView::Error("invalid argument #2"@)),
            _ => (store, ResponseView::Error("invalid argument #1"@)),
        }
    }
}

impl SetCmd {
    /// Binds the key to the value under the given options, exactly as
    /// `spec_set` describes.
    pub fn execute(&self, data: &mut Store, arguments: &[Value]) -> (r: Response)
        ensures
            final(data)@ == spec_set(old(data)@, value_views(arguments@)).0,
            r@ == spec_set(old(data)@, value_views(arguments@)).1,
    {
        if arguments.len() < 2 || arguments.len() > 4 {
            return Response::Error("wrong number of arguments");
        }

        let key = match &arguments[0] {
            Value::BulkString(b) => match b {
                BulkString::Filled(k) => k,
                _ => {
                    return Response::Error("invalid argument #1");
                },
            },
        };
        let value = match &arguments[1] {
            Value::BulkString(b) => match b {
                BulkString::Filled(v) => v,
                _ => {
                    return Response::Error("invalid argument #2");
                },
            },
        };

        let options = &arguments[2..arguments.len()];
        proof {
            assert(value_views(options@) =~= value_views(arguments@).subrange(
                2,
                arguments@.len() as int,
            ));
        }

        let (set_option, get_option) = match parse_options(options) {
            Ok((s, g)) => (s, g),
            Err(e) => {
                return e;
            },
        };

        match (set_option, get_option) {
            (SetOption::NotSpecified, GetOption::NotSpecified) => {
                data.insert(clone_bytes(key), clone_bytes(value));

                Response::SimpleString("OK")
            },
            (SetOption::NotSpecified, GetOption::Get) => {
                let old_value = match data.get(key.as_slice()) {
                    Some(v) => BulkString::Filled(clone_bytes(v)),
                    None => BulkString::Null,
                };

                data.insert(clone_bytes(key), clone_bytes(value));

                Response::BulkString(old_value)
            },
            (SetOption::IfExists, GetOption::NotSpecified) => {
                if data.contains_key(key.as_slice()) {
                    data.insert(clone_bytes(key), clone_bytes(value));

                    return Response::SimpleString("OK");
                }

                Response::BulkString(BulkString::Null)
            },
            (SetOption::IfExists, GetOption::Get) => {
                let old_value = match data.get(key.as_slice()) {
                    Some(v) => BulkString::Filled(clone_bytes(v)),
                    None => {
                        return Response::BulkString(BulkString::Null);
                    },
                };

                data.insert(clone_bytes(key), clone_bytes(value));

                Response::BulkString(old_value)
            },
            (SetOption::IfNotExists, GetOption::NotSpecified) => {
                if !data.contains_key(key.as_slice()) {
                    data.insert(clone_bytes(key), clone_bytes(value));

                    return Response::SimpleString("OK");
                }

                Response::BulkString(BulkString::Null)
            },
            (SetOption::IfNotExists, GetOption::Get) => {
                match data.get(key.as_slice()) {
                    Some(v) => Response::BulkString(BulkString::Filled(clone_bytes(v))),
                    None => {
                        data.insert(clone_bytes(key), clone_bytes(value));

                        Response::BulkString(BulkString::Null)
                    },
                }
            },
        }
    }
}

} // verus!
