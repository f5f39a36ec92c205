use vstd::prelude::*;
use vstd::utf8::encode_utf8;
use crate::array::Value;
use crate::bulk_string::{BulkString, BulkStringView, crlf, scalar_wire};
use crate::bytes::extend_bytes;
use crate::decimal::{dec_int, push_int};
use crate::store::Store;

pub mod del;
pub mod get;
pub mod ping;
pub mod set;

verus! {

/// One reply to one request: a status line, a failure line, a scalar, or a
/// signed count.
#[derive(Eq, PartialEq, Debug)]
pub enum Response {
    SimpleString(&'static str),
    Error(&'static str),
    BulkString(BulkString),
    Integer(i64),
}

/// The mathematical shape of a response.
pub enum ResponseView {
    SimpleString(Seq<char>),
    Error(Seq<char>),
    BulkString(BulkStringView),
    Integer(int),
}

impl View for Response {
    type V = ResponseView;

    open spec fn view(&self) -> ResponseView {
        match self {
            Response::SimpleString(s) => ResponseView::SimpleString(s@),
            Response::Error(e) => ResponseView::Error(e@),
            Response::BulkString(b) => ResponseView::BulkString(b@),
            Response::Integer(i) => ResponseView::Integer(*i as int),
        }
    }
}

/// The wire form of one response: a `+`, `-`, `$` or `:` marker, the body,
/// and the 2-byte terminator (scalars carry their own grammar).
pub open spec fn response_wire(r: ResponseView) -> Seq<u8> {
    match r {
        ResponseView::SimpleString(s) => seq![43u8] + encode_utf8(s) + crlf(),
        ResponseView::Error(e) => seq![45u8] + encode_utf8(e) + crlf(),
        ResponseView::BulkString(b) => scalar_wire(b),
        ResponseView::Integer(i) => seq![58u8] + dec_int(i) + crlf(),
    }
}

impl Response {
    /// Serializes the response into wire bytes, exactly as `response_wire`
    /// describes.
    pub fn encode(&self) -> (r: Vec<u8>)
        ensures
            r@ == response_wire(self@),
    {
        let mut out: Vec<u8> = Vec::new();
        match self {
            Response::SimpleString(s) => {
                out.push(43);
                extend_bytes(&mut out, s.as_bytes());
                out.push(13);
                out.push(10);
                proof {
                    assert(out@ =~= response_wire(self@));
                }
            },
            Response::Error(e) => {
                out.push(45);
                extend_bytes(&mut out, e.as_bytes());
                out.push(13);
                out.push(10);
                proof {
                    assert(out@ =~= response_wire(self@));
                }
            },
            Response::BulkString(b) => {
                out.push(36);
                match b {
                    BulkString::Null => {
                        out.push(45);
                        out.push(49);
                        out.push(13);
                        out.push(10);
                        proof {
                            assert(dec_int(-1) =~= seq![45u8, 49u8]);
                            assert(out@ =~= response_wire(self@));
                        }
                    },
                    BulkString::Empty => {
                        out.push(48);
                        out.push(13);
                        out.push(10);
                        out.push(13);
                        out.push(10);
                        proof {
                            assert(dec_int(0) =~= seq![48u8]);
                            assert(out@ =~= response_wire(self@));
                        }
                    },
                    BulkString::Filled(bytes) => {
                        let len64: u64 = bytes.len() as u64;
                        crate::decimal::push_digits(len64, &mut out);
                        out.push(13);
                        out.push(10);
                        extend_bytes(&mut out, bytes.as_slice());
                        out.push(13);
                        out.push(10);
                        proof {
                            assert(out@ =~= response_wire(self@));
                        }
                    },
                }
            },
            Response::Integer(i) => {
                out.push(58);
                push_int(*i, &mut out);
                out.push(13);
                out.push(10);
                proof {
                    assert(out@ =~= response_wire(self@));
                }
            },
        }
        out
    }
}

/// The closed set of commands the server executes.
#[derive(Debug, PartialEq, Eq, Clone, Copy)]
pub enum Command {
    Ping,
    Get,
    SetCmd,
    Del,
}

/// Which command an upper-cased name denotes, if any.
pub open spec fn spec_get_command(name: Seq<u8>) -> Option<Command> {
    if name == seq![68u8, 69u8, 76u8] {
        Some(Command::Del)
    } else if name == seq![71u8, 69u8, 84u8] {
        Some(Command::Get)
    } else if name == seq![80u8, 73u8, 78u8, 71u8] {
        Some(Command::Ping)
    } else if name == seq![83u8, 69u8, 84u8] {
        Some(Command::SetCmd)
    } else {
        None
    }
}

/// Resolves an upper-cased command name to its command.
pub fn get_command(command: &[u8]) -> (r: Option<Command>)
    ensures
        r == spec_get_command(command@),
{
    if command.len() == 3 {
        let b0 = command[0];
        let b1 = command[1];
        let b2 = command[2];
        proof {
            assert(command@ =~= seq![b0, b1, b2]);
        }
        if b0 == 68 && b1 == 69 && b2 == 76 {
            Some(Command::Del)
        } else if b0 == 71 && b1 == 69 && b2 == 84 {
            Some(Command::Get)
        } else if b0 == 83 && b1 == 69 && b2 == 84 {
            Some(Command::SetCmd)
        } else {
            None
        }
    } else if command.len() == 4 {
        let b0 = command[0];
        let b1 = command[1];
        let b2 = command[2];
        let b3 = command[3];
        proof {
            assert(command@ =~= seq![b0, b1, b2, b3]);
        }
        if b0 == 80 && b1 == 73 && b2 == 78 && b3 == 71 {
            Some(Command::Ping)
        } else {
            None
        }
    } else {
        None
    }
}

/// What executing a command does to the store, and what it replies.
pub open spec fn spec_execute(
    cmd: Command,
    store: Map<Seq<u8>, Seq<u8>>,
    args: Seq<BulkStringView>,
) -> (Map<Seq<u8>, Seq<u8>>, ResponseView) {
    match cmd {
        Command::Ping => (store, ping::spec_ping(args)),
        Command::Get => (store, get::spec_get(store, args)),
        Command::SetCmd => set::spec_set(store, args),
        Command::Del => del::spec_del(store, args),
    }
}

impl Command {
    /// Executes the command against the store with the given arguments,
    /// exactly as `spec_execute` describes.
    pub fn execute(&self, data: &mut Store, arguments: &[Value]) -> (r: Response)
        requires
            arguments@.len() <= i64::MAX,
        ensures
            final(data)@ == spec_execute(*self, old(data)@, crate::array::value_views(
                arguments@,
            )).0,
            r@ == spec_execute(*self, old(data)@, crate::array::value_views(arguments@)).1,
    {
        match self {
            Command::Ping => ping::Ping.execute(data, arguments),
            Command::Get => get::Get.execute(data, arguments),
            Command::SetCmd => set::SetCmd.execute(data, arguments),
            Command::Del => del::Del.execute(data, arguments),
        }
    }
}

} // verus!
