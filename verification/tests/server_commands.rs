use resp_kv::array::Value;
use resp_kv::bulk_string::BulkString;
use resp_kv::commands::del::Del;
use resp_kv::commands::get::Get;
use resp_kv::commands::ping::Ping;
use resp_kv::commands::{get_command, Command, Response};
use resp_kv::server::handle_request;
use resp_kv::store::Store;

fn varg(text: &str) -> Value {
    Value::BulkString(BulkString::Filled(text.as_bytes().to_vec()))
}

#[test]
fn ping_replies_pong_echoes_and_rejects() {
    let mut data = Store::new();

    assert!(matches!(
        Ping.execute(&mut data, &[]),
        Response::SimpleString("PONG")
    ));

    assert_eq!(
        Response::BulkString(BulkString::Filled(b"x".to_vec())),
        Ping.execute(&mut data, &[varg("x")])
    );

    assert_eq!(
        Response::Error("wrong number of arguments"),
        Ping.execute(&mut data, &[varg("x"), varg("y")])
    );

    assert_eq!(
        Response::Error("invalid argument"),
        Ping.execute(&mut data, &[Value::BulkString(BulkString::Null)])
    );
}

#[test]
fn get_reads_without_mutating() {
    let mut data = Store::new();
    data.insert(b"key".to_vec(), b"value".to_vec());

    assert_eq!(
        Response::BulkString(BulkString::Filled(b"value".to_vec())),
        Get.execute(&mut data, &[varg("key")])
    );

    assert_eq!(
        Response::BulkString(BulkString::Null),
        Get.execute(&mut data, &[varg("missing")])
    );

    assert_eq!(
        Response::Error("wrong number of arguments"),
        Get.execute(&mut data, &[])
    );

    assert_eq!(
        Response::Error("invalid argument"),
        Get.execute(&mut data, &[Value::BulkString(BulkString::Empty)])
    );

    assert_eq!(b"value".to_vec(), data.get(b"key").cloned().unwrap());
}

#[test]
fn del_counts_each_successful_removal_once() {
    let mut data = Store::new();
    data.insert(b"a".to_vec(), b"va".to_vec());

    let response = Del.execute(&mut data, &[varg("a"), varg("b"), varg("a")]);

    assert_eq!(Response::Integer(1), response);
    assert!(data.is_empty());
}

#[test]
fn del_checks_its_arguments() {
    let mut data = Store::new();
    data.insert(b"a".to_vec(), b"va".to_vec());

    assert_eq!(
        Response::Error("wrong number of arguments"),
        Del.execute(&mut data, &[])
    );

    assert_eq!(
        Response::Error("invalid argument"),
        Del.execute(&mut data, &[varg("a"), Value::BulkString(BulkString::Null)])
    );

    // A failing call leaves the store untouched.
    assert_eq!(b"va".to_vec(), data.get(b"a").cloned().unwrap());
}

#[test]
fn registry_resolves_upper_cased_names() {
    assert_eq!(Some(Command::Ping), get_command(b"PING"));
    assert_eq!(Some(Command::Get), get_command(b"GET"));
    assert_eq!(Some(Command::SetCmd), get_command(b"SET"));
    assert_eq!(Some(Command::Del), get_command(b"DEL"));
    assert_eq!(None, get_command(b"FOO"));
    assert_eq!(None, get_command(b""));
}

#[test]
fn responses_encode_to_exact_wire_bytes() {
    assert_eq!(
        b"+OK\r\n".to_vec(),
        Response::SimpleString("OK").encode()
    );
    assert_eq!(
        b"-invalid option\r\n".to_vec(),
        Response::Error("invalid option").encode()
    );
    assert_eq!(b":42\r\n".to_vec(), Response::Integer(42).encode());
    assert_eq!(b":0\r\n".to_vec(), Response::Integer(0).encode());
    assert_eq!(b":-7\r\n".to_vec(), Response::Integer(-7).encode());
    assert_eq!(
        b":-9223372036854775808\r\n".to_vec(),
        Response::Integer(i64::MIN).encode()
    );
    assert_eq!(
        b"$-1\r\n".to_vec(),
        Response::BulkString(BulkString::Null).encode()
    );
    assert_eq!(
        b"$0\r\n\r\n".to_vec(),
        Response::BulkString(BulkString::Empty).encode()
    );
    assert_eq!(
        b"$3\r\nabc\r\n".to_vec(),
        Response::BulkString(BulkString::Filled(b"abc".to_vec())).encode()
    );
}

#[test]
fn requests_run_end_to_end() {
    let mut data = Store::new();

    let reply = handle_request(&mut data, b"*3\r\n$3\r\nSET\r\n$3\r\nkey\r\n$5\r\nvalue\r\n");
    assert_eq!(b"+OK\r\n".to_vec(), reply);

    let reply = handle_request(&mut data, b"*2\r\n$3\r\nGET\r\n$3\r\nkey\r\n");
    assert_eq!(b"$5\r\nvalue\r\n".to_vec(), reply);

    let reply = handle_request(&mut data, b"*2\r\n$3\r\nDEL\r\n$3\r\nkey\r\n");
    assert_eq!(b":1\r\n".to_vec(), reply);

    let reply = handle_request(&mut data, b"*2\r\n$3\r\nGET\r\n$3\r\nkey\r\n");
    assert_eq!(b"$-1\r\n".to_vec(), reply);
}

#[test]
fn command_names_match_case_insensitively() {
    let mut data = Store::new();

    let reply = handle_request(&mut data, b"*1\r\n$4\r\nping\r\n");
    assert_eq!(b"+PONG\r\n".to_vec(), reply);

    let reply = handle_request(&mut data, b"*3\r\n$3\r\nsEt\r\n$1\r\nk\r\n$1\r\nv\r\n");
    assert_eq!(b"+OK\r\n".to_vec(), reply);
}

#[test]
fn malformed_requests_earn_failure_lines() {
    let mut data = Store::new();

    assert_eq!(
        b"-ERR an error occurred\r\n".to_vec(),
        handle_request(&mut data, b"garbage")
    );
    assert_eq!(
        b"-ERR unexpected null array\r\n".to_vec(),
        handle_request(&mut data, b"*-1\r\n")
    );
    assert_eq!(
        b"-ERR unexpected empty array\r\n".to_vec(),
        handle_request(&mut data, b"*0\r\n")
    );
    assert_eq!(
        b"-ERR unexpected null bulk string\r\n".to_vec(),
        handle_request(&mut data, b"*1\r\n$-1\r\n")
    );
    assert_eq!(
        b"-ERR unexpected empty bulk string\r\n".to_vec(),
        handle_request(&mut data, b"*1\r\n$0\r\n\r\n")
    );
    assert_eq!(
        b"-ERR unknown command\r\n".to_vec(),
        handle_request(&mut data, b"*1\r\n$3\r\nFOO\r\n")
    );
    // A command name that is not UTF-8 text is its own failure.
    assert_eq!(
        b"-ERR invalid command\r\n".to_vec(),
        handle_request(&mut data, b"*1\r\n$2\r\n\xff\xfe\r\n")
    );
    assert!(data.is_empty());
}

#[test]
fn command_failures_use_the_plain_failure_form() {
    let mut data = Store::new();

    let reply = handle_request(
        &mut data,
        b"*4\r\n$3\r\nSET\r\n$1\r\nk\r\n$1\r\nv\r\n$2\r\nEX\r\n",
    );
    assert_eq!(b"-invalid option\r\n".to_vec(), reply);
    assert!(data.is_empty());
}

#[test]
fn sequential_writes_read_back_the_last_value() {
    let mut data = Store::new();

    for value in ["v1", "v2", "v3"] {
        let response = resp_kv::commands::set::SetCmd.execute(
            &mut data,
            &[varg("k"), varg(value)],
        );
        assert_eq!(Response::SimpleString("OK"), response);
    }

    assert_eq!(
        Response::BulkString(BulkString::Filled(b"v3".to_vec())),
        Get.execute(&mut data, &[varg("k")])
    );
}
