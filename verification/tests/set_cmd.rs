use resp_kv::array::Value;
use resp_kv::bulk_string::BulkString;
use resp_kv::commands::set::SetCmd;
use resp_kv::commands::Response;
use resp_kv::store::Store;

fn arg(text: &str) -> Value {
    Value::BulkString(BulkString::Filled(text.as_bytes().to_vec()))
}

fn held(data: &Store, key: &str) -> Vec<u8> {
    data.get(key.as_bytes()).cloned().unwrap()
}

#[test]
fn no_options() {
    let mut data = Store::new();

    let response = SetCmd.execute(&mut data, &[arg("key"), arg("value")]);

    assert!(matches!(response, Response::SimpleString("OK")));

    let response = SetCmd.execute(&mut data, &[arg("key"), arg("value2")]);

    assert_eq!(b"value2".to_vec(), held(&data, "key"));

    assert!(matches!(response, Response::SimpleString("OK")));
}

#[test]
fn xx_not_met() {
    let mut data = Store::new();

    let response = SetCmd.execute(&mut data, &[arg("key"), arg("value"), arg("XX")]);

    assert!(data.is_empty());

    assert!(matches!(response, Response::BulkString(BulkString::Null)));
}

#[test]
fn xx_met() {
    let mut data = Store::new();
    data.insert(b"key".to_vec(), b"value".to_vec());

    let response = SetCmd.execute(&mut data, &[arg("key"), arg("value2"), arg("XX")]);

    assert_eq!(b"value2".to_vec(), held(&data, "key"));

    assert!(matches!(response, Response::SimpleString("OK")));
}

#[test]
fn nx_not_met() {
    let mut data = Store::new();
    data.insert(b"key".to_vec(), b"value".to_vec());

    let response = SetCmd.execute(&mut data, &[arg("key"), arg("value2"), arg("NX")]);

    assert_eq!(b"value".to_vec(), held(&data, "key"));

    assert!(matches!(response, Response::BulkString(BulkString::Null)));
}

#[test]
fn nx_met() {
    let mut data = Store::new();

    let response = SetCmd.execute(&mut data, &[arg("key"), arg("value"), arg("NX")]);

    assert!(matches!(response, Response::SimpleString("OK")));

    let response = SetCmd.execute(&mut data, &[arg("key"), arg("value2"), arg("NX")]);

    assert!(matches!(response, Response::BulkString(BulkString::Null)));

    assert_eq!(b"value".to_vec(), held(&data, "key"));
}

#[test]
fn get() {
    let mut data = Store::new();

    let response = SetCmd.execute(&mut data, &[arg("key"), arg("value"), arg("GET")]);

    assert!(matches!(response, Response::BulkString(BulkString::Null)));

    let response = SetCmd.execute(&mut data, &[arg("key"), arg("value2"), arg("GET")]);

    assert_eq!(
        response,
        Response::BulkString(BulkString::Filled(b"value".to_vec()))
    );
}

#[test]
fn xx_get_not_met() {
    let mut data = Store::new();

    let response = SetCmd.execute(&mut data, &[arg("key"), arg("value"), arg("XX"), arg("GET")]);

    assert!(matches!(response, Response::BulkString(BulkString::Null)));

    data.insert(b"key".to_vec(), b"value".to_vec());

    let response = SetCmd.execute(&mut data, &[arg("key"), arg("value2"), arg("XX"), arg("GET")]);

    assert_eq!(
        response,
        Response::BulkString(BulkString::Filled(b"value".to_vec()))
    );

    assert_eq!(b"value2".to_vec(), held(&data, "key"));
}

#[test]
fn xx_get_met() {
    let mut data = Store::new();
    data.insert(b"key".to_vec(), b"value".to_vec());

    let response = SetCmd.execute(&mut data, &[arg("key"), arg("value2"), arg("XX"), arg("GET")]);

    assert_eq!(
        Response::BulkString(BulkString::Filled(b"value".to_vec())),
        response
    );

    assert_eq!(b"value2".to_vec(), held(&data, "key"));
}

#[test]
fn nx_get_not_met() {
    let mut data = Store::new();
    data.insert(b"key".to_vec(), b"value".to_vec());

    let response = SetCmd.execute(&mut data, &[arg("key"), arg("value2"), arg("NX"), arg("GET")]);

    assert_eq!(
        Response::BulkString(BulkString::Filled(b"value".to_vec())),
        response
    );

    assert_eq!(b"value".to_vec(), held(&data, "key"));
}

#[test]
fn nx_get_met() {
    let mut data = Store::new();

    let response = SetCmd.execute(&mut data, &[arg("key"), arg("value"), arg("NX"), arg("GET")]);

    assert_eq!(Response::BulkString(BulkString::Null), response);

    let response = SetCmd.execute(&mut data, &[arg("key"), arg("value2"), arg("NX"), arg("GET")]);

    assert_eq!(
        Response::BulkString(BulkString::Filled(b"value".to_vec())),
        response
    );

    assert_eq!(b"value".to_vec(), held(&data, "key"));
}

#[test]
fn options_are_case_insensitive() {
    let mut data = Store::new();

    let response = SetCmd.execute(&mut data, &[arg("key"), arg("value"), arg("nx"), arg("get")]);

    assert_eq!(Response::BulkString(BulkString::Null), response);
    assert_eq!(b"value".to_vec(), held(&data, "key"));
}

#[test]
fn conflicting_options_are_rejected() {
    let mut data = Store::new();

    let response = SetCmd.execute(&mut data, &[arg("key"), arg("value"), arg("XX"), arg("NX")]);

    assert_eq!(
        Response::Error("'XX' and 'NX' can't be used at the same time"),
        response
    );
    assert!(data.is_empty());

    let response = SetCmd.execute(&mut data, &[arg("key"), arg("value"), arg("XX"), arg("XX")]);

    assert_eq!(
        Response::Error("'XX' and 'NX' can't be used at the same time"),
        response
    );
}

#[test]
fn unknown_option_is_rejected() {
    let mut data = Store::new();

    let response = SetCmd.execute(&mut data, &[arg("key"), arg("value"), arg("EX")]);

    assert_eq!(Response::Error("invalid option"), response);
    assert!(data.is_empty());
}

#[test]
fn set_argument_counts_and_kinds_are_checked() {
    let mut data = Store::new();

    let response = SetCmd.execute(&mut data, &[arg("key")]);
    assert_eq!(Response::Error("wrong number of arguments"), response);

    let response = SetCmd.execute(
        &mut data,
        &[arg("a"), arg("b"), arg("c"), arg("d"), arg("e")],
    );
    assert_eq!(Response::Error("wrong number of arguments"), response);

    let response = SetCmd.execute(
        &mut data,
        &[Value::BulkString(BulkString::Null), arg("value")],
    );
    assert_eq!(Response::Error("invalid argument #1"), response);

    let response = SetCmd.execute(
        &mut data,
        &[arg("key"), Value::BulkString(BulkString::Empty)],
    );
    assert_eq!(Response::Error("invalid argument #2"), response);

    let response = SetCmd.execute(
        &mut data,
        &[arg("key"), arg("value"), Value::BulkString(BulkString::Null)],
    );
    assert_eq!(Response::Error("invalid argument type"), response);

    assert!(data.is_empty());
}
