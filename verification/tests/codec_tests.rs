use opc_gateway::codec::{encode_response, parse_request, DecodeError};
use opc_gateway::handler::{Request, Response};

fn parse(frame: &[u8]) -> Result<Request, DecodeError> {
    parse_request(frame)
}

#[test]
fn decodes_full_connect() {
    let req = parse(
        b"{\"type\":\"connect\",\"host\":\"127.0.0.1\",\"port\":49320,\"namespace\":2,\"endpoint\":null}",
    )
    .expect("well-formed connect");
    match req {
        Request::Connect { host, port, namespace, endpoint } => {
            assert_eq!(host, "127.0.0.1".to_string());
            assert_eq!(port, 49320);
            assert_eq!(namespace, 2);
            assert_eq!(endpoint, None);
        }
        _ => panic!("expected connect"),
    }
}

#[test]
fn member_order_and_whitespace_are_free() {
    let req = parse(
        b" { \"port\" : 4840 ,\t\"namespace\":0, \"type\" : \"connect\" , \"host\" : \"srv\" } ",
    )
    .expect("scrambled but well-formed");
    match req {
        Request::Connect { host, port, namespace, endpoint } => {
            assert_eq!(host, "srv".to_string());
            assert_eq!(port, 4840);
            assert_eq!(namespace, 0);
            assert_eq!(endpoint, None, "a missing endpoint defaults to absent");
        }
        _ => panic!("expected connect"),
    }
}

#[test]
fn endpoint_string_is_kept() {
    let req = parse(
        b"{\"type\":\"connect\",\"host\":\"h\",\"port\":1,\"namespace\":1,\"endpoint\":\"/path\"}",
    )
    .expect("well-formed");
    match req {
        Request::Connect { endpoint, .. } => assert_eq!(endpoint, Some("/path".to_string())),
        _ => panic!("expected connect"),
    }
}

#[test]
fn decodes_read_in_order() {
    let req = parse(b"{\"type\":\"read\",\"node_ids\":[\"a\",\"b\",\"c\"]}").expect("well-formed");
    match req {
        Request::Read { node_ids } => {
            assert_eq!(node_ids, vec!["a".to_string(), "b".to_string(), "c".to_string()]);
        }
        _ => panic!("expected read"),
    }
}

#[test]
fn decodes_empty_node_ids() {
    let req = parse(b"{\"type\":\"read\",\"node_ids\":[]}").expect("well-formed");
    match req {
        Request::Read { node_ids } => assert_eq!(node_ids, Vec::<String>::new()),
        _ => panic!("expected read"),
    }
}

#[test]
fn string_escapes_are_decoded() {
    let req = parse(b"{\"type\":\"read\",\"node_ids\":[\"a\\\"b\\\\c\\nd\\t\"]}")
        .expect("well-formed");
    match req {
        Request::Read { node_ids } => assert_eq!(node_ids, vec!["a\"b\\c\nd\t".to_string()]),
        _ => panic!("expected read"),
    }
}

#[test]
fn non_ascii_text_is_decoded() {
    let frame = "{\"type\":\"connect\",\"host\":\"héllo\",\"port\":1,\"namespace\":1}".as_bytes();
    match parse(frame).expect("well-formed") {
        Request::Connect { host, .. } => assert_eq!(host, "héllo".to_string()),
        _ => panic!("expected connect"),
    }
}

#[test]
fn invalid_utf8_is_an_encoding_error() {
    assert_eq!(parse(b"\xff\xfe{}").unwrap_err(), DecodeError::InvalidEncoding);
    assert_eq!(
        parse(b"{\"type\":\"read\",\"node_ids\":[\"\xc3\"]}").unwrap_err(),
        DecodeError::InvalidEncoding
    );
}

#[test]
fn malformed_json_is_a_schema_error() {
    assert_eq!(parse(b"").unwrap_err(), DecodeError::InvalidSchema);
    assert_eq!(parse(b"{").unwrap_err(), DecodeError::InvalidSchema);
    assert_eq!(parse(b"{}").unwrap_err(), DecodeError::InvalidSchema);
    assert_eq!(parse(b"[]").unwrap_err(), DecodeError::InvalidSchema);
    assert_eq!(parse(b"{\"type\":\"read\",\"node_ids\":[\"a\"]").unwrap_err(), DecodeError::InvalidSchema);
    assert_eq!(parse(b"{\"type\":\"read\",\"node_ids\":[\"a\"]}x").unwrap_err(), DecodeError::InvalidSchema);
}

#[test]
fn unknown_tag_member_or_duplicate_is_rejected() {
    assert_eq!(parse(b"{\"type\":\"write\",\"node_ids\":[]}").unwrap_err(), DecodeError::InvalidSchema);
    assert_eq!(
        parse(b"{\"type\":\"read\",\"node_ids\":[],\"extra\":1}").unwrap_err(),
        DecodeError::InvalidSchema
    );
    assert_eq!(
        parse(b"{\"type\":\"read\",\"node_ids\":[],\"node_ids\":[]}").unwrap_err(),
        DecodeError::InvalidSchema
    );
    assert_eq!(
        parse(b"{\"type\":\"read\",\"node_ids\":[],\"host\":\"h\"}").unwrap_err(),
        DecodeError::InvalidSchema
    );
}

#[test]
fn incomplete_connect_is_rejected() {
    assert_eq!(
        parse(b"{\"type\":\"connect\",\"host\":\"h\",\"port\":1}").unwrap_err(),
        DecodeError::InvalidSchema
    );
}

#[test]
fn port_bounds_are_enforced() {
    match parse(b"{\"type\":\"connect\",\"host\":\"h\",\"port\":65535,\"namespace\":0}").unwrap() {
        Request::Connect { port, .. } => assert_eq!(port, 65535),
        _ => panic!("expected connect"),
    }
    assert_eq!(
        parse(b"{\"type\":\"connect\",\"host\":\"h\",\"port\":65536,\"namespace\":0}").unwrap_err(),
        DecodeError::InvalidSchema
    );
    assert_eq!(
        parse(b"{\"type\":\"connect\",\"host\":\"h\",\"port\":07,\"namespace\":0}").unwrap_err(),
        DecodeError::InvalidSchema
    );
}

#[test]
fn array_whitespace_and_solidus_escape() {
    let req = parse(b"{\"type\":\"read\",\"node_ids\":[ \"a\\/b\" ,\r\n \"\" ]}")
        .expect("well-formed");
    match req {
        Request::Read { node_ids } => {
            assert_eq!(node_ids, vec!["a/b".to_string(), "".to_string()]);
        }
        _ => panic!("expected read"),
    }
}

#[test]
fn unicode_escapes_are_decoded() {
    // Basic Multilingual Plane scalars, ASCII and not, either hex case.
    let req = parse(b"{\"type\":\"read\",\"node_ids\":[\"\\u0041\\u00e9\\u20AC\"]}")
        .expect("well-formed");
    match req {
        Request::Read { node_ids } => assert_eq!(node_ids, vec!["A\u{e9}\u{20ac}".to_string()]),
        _ => panic!("expected read"),
    }
    // A control character is expressible only through its escape.
    let req = parse(b"{\"type\":\"read\",\"node_ids\":[\"a\\u0001b\"]}").expect("well-formed");
    match req {
        Request::Read { node_ids } => assert_eq!(node_ids, vec!["a\u{1}b".to_string()]),
        _ => panic!("expected read"),
    }
    // A surrogate pair stands for one scalar beyond the BMP.
    let req = parse(b"{\"type\":\"read\",\"node_ids\":[\"\\uD83D\\uDE00\"]}").expect("well-formed");
    match req {
        Request::Read { node_ids } => assert_eq!(node_ids, vec!["\u{1F600}".to_string()]),
        _ => panic!("expected read"),
    }
}

#[test]
fn bad_unicode_escapes_are_rejected() {
    // A lone high surrogate, a lone low surrogate, a pair in the wrong order.
    assert_eq!(
        parse(b"{\"type\":\"read\",\"node_ids\":[\"\\uD83Dx\"]}").unwrap_err(),
        DecodeError::InvalidSchema
    );
    assert_eq!(
        parse(b"{\"type\":\"read\",\"node_ids\":[\"\\uDE00\"]}").unwrap_err(),
        DecodeError::InvalidSchema
    );
    assert_eq!(
        parse(b"{\"type\":\"read\",\"node_ids\":[\"\\uDE00\\uD83D\"]}").unwrap_err(),
        DecodeError::InvalidSchema
    );
    // Malformed hex, and a truncated escape.
    assert_eq!(
        parse(b"{\"type\":\"read\",\"node_ids\":[\"\\u00g1\"]}").unwrap_err(),
        DecodeError::InvalidSchema
    );
    assert_eq!(
        parse(b"{\"type\":\"read\",\"node_ids\":[\"\\u00\"]}").unwrap_err(),
        DecodeError::InvalidSchema
    );
}

#[test]
fn unsupported_values_are_rejected() {
    // Trailing commas.
    assert_eq!(
        parse(b"{\"type\":\"read\",\"node_ids\":[\"a\",]}").unwrap_err(),
        DecodeError::InvalidSchema
    );
    assert_eq!(
        parse(b"{\"type\":\"read\",\"node_ids\":[],}").unwrap_err(),
        DecodeError::InvalidSchema
    );
    // A port must be a plain unsigned integer.
    assert_eq!(
        parse(b"{\"type\":\"connect\",\"host\":\"h\",\"port\":true,\"namespace\":0}").unwrap_err(),
        DecodeError::InvalidSchema
    );
    assert_eq!(
        parse(b"{\"type\":\"connect\",\"host\":\"h\",\"port\":-1,\"namespace\":0}").unwrap_err(),
        DecodeError::InvalidSchema
    );
    assert_eq!(
        parse(b"{\"type\":\"connect\",\"host\":\"h\",\"port\":1.5,\"namespace\":0}").unwrap_err(),
        DecodeError::InvalidSchema
    );
    // A raw control byte inside a string.
    assert_eq!(
        parse(b"{\"type\":\"read\",\"node_ids\":[\"a\x01b\"]}").unwrap_err(),
        DecodeError::InvalidSchema
    );
}

#[test]
fn encodes_connect_ok() {
    assert_eq!(encode_response(&Response::ConnectOk), b"{\"type\":\"connect_ok\"}\n".to_vec());
}

#[test]
fn encodes_error_with_escapes() {
    let r = Response::Error { message: "a\"b\\c\nd".to_string() };
    assert_eq!(
        encode_response(&r),
        b"{\"type\":\"error\",\"message\":\"a\\\"b\\\\c\\nd\"}\n".to_vec()
    );
}

#[test]
fn encodes_read_ok_splicing_values() {
    let r = Response::ReadOk {
        values: vec!["{\"v\":1}".to_string(), "2".to_string(), "\"s\"".to_string()],
    };
    assert_eq!(
        encode_response(&r),
        b"{\"type\":\"read_ok\",\"values\":[{\"v\":1},2,\"s\"]}\n".to_vec()
    );
    let empty = Response::ReadOk { values: Vec::new() };
    assert_eq!(encode_response(&empty), b"{\"type\":\"read_ok\",\"values\":[]}\n".to_vec());
}

#[test]
fn encoded_responses_reparse_with_a_generic_json_parser() {
    // connect_ok
    let out = encode_response(&Response::ConnectOk);
    let v: serde_json::Value = serde_json::from_slice(&out[..out.len() - 1]).expect("valid JSON");
    assert_eq!(v.get("type").unwrap().as_str().unwrap(), "connect_ok");

    // error, with characters that need escaping
    let message = "nope: \"x\\y\"\non two lines\twith a tab and \u{1}control".to_string();
    let out = encode_response(&Response::Error { message: message.clone() });
    let v: serde_json::Value = serde_json::from_slice(&out[..out.len() - 1]).expect("valid JSON");
    assert_eq!(v.get("type").unwrap().as_str().unwrap(), "error");
    assert_eq!(v.get("message").unwrap().as_str().unwrap(), message);

    // read_ok, with structured pass-through payloads
    let out = encode_response(&Response::ReadOk {
        values: vec!["{\"value\":42,\"status\":0}".to_string(), "null".to_string()],
    });
    let v: serde_json::Value = serde_json::from_slice(&out[..out.len() - 1]).expect("valid JSON");
    assert_eq!(v.get("type").unwrap().as_str().unwrap(), "read_ok");
    let values = v.get("values").unwrap().as_array().unwrap();
    assert_eq!(values.len(), 2);
    assert_eq!(values[0].get("value").unwrap().as_i64().unwrap(), 42);
    assert_eq!(values[0].get("status").unwrap().as_i64().unwrap(), 0);
    assert!(values[1].is_null());

    // non-ASCII text passes through as UTF-8
    let out = encode_response(&Response::Error { message: "héllo wörld".to_string() });
    let v: serde_json::Value = serde_json::from_slice(&out[..out.len() - 1]).expect("valid JSON");
    assert_eq!(v.get("message").unwrap().as_str().unwrap(), "héllo wörld");
}
