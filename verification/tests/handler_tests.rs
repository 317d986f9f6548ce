use opc_gateway::handler::{
    connect_url, handle_request, on_connect_result, on_read_result, plan_for_frame,
    u16_to_string, ConnectionState, Plan, Request, Response, ServerConfig,
};

fn connect_req(host: &str, port: u16, namespace: u16, endpoint: Option<&str>) -> Request {
    Request::Connect {
        host: host.to_string(),
        port,
        namespace,
        endpoint: endpoint.map(|e| e.to_string()),
    }
}

fn read_req(ids: &[&str]) -> Request {
    Request::Read { node_ids: ids.iter().map(|s| s.to_string()).collect() }
}

#[test]
fn read_before_connect_is_rejected() {
    let state = ConnectionState::new();
    match handle_request(&state, read_req(&["a"])) {
        Plan::Respond(Response::Error { message }) => {
            assert_eq!(message, "Cannot read, no active session".to_string());
        }
        _ => panic!("expected an immediate rejection"),
    }
    // Dispatch takes the state by shared reference: nothing changed.
    assert!(state.server.is_none());
    assert!(!state.connected);
}

#[test]
fn second_connect_is_rejected_and_namespace_survives() {
    let mut state = ConnectionState::new();
    let plan = handle_request(&state, connect_req("srv", 4840, 7, None));
    let config = match plan {
        Plan::AttemptConnect { url, config } => {
            assert_eq!(url, "opc.tcp://srv:4840".to_string());
            config
        }
        _ => panic!("expected a connect attempt"),
    };
    assert_eq!(on_connect_result(&mut state, config, Ok(())), Response::ConnectOk);
    assert!(state.connected);

    // A second connect, with different arguments, changes nothing.
    match handle_request(&state, connect_req("other", 1, 9, Some("/x"))) {
        Plan::Respond(Response::Error { message }) => {
            assert_eq!(message, "Session already in progress".to_string());
        }
        _ => panic!("expected a rejection"),
    }
    assert_eq!(state.server.as_ref().unwrap().namespace, 7);

    // A read still uses the namespace captured by the first connect.
    match handle_request(&state, read_req(&["t1", "t2"])) {
        Plan::AttemptRead { namespace, node_ids } => {
            assert_eq!(namespace, 7);
            assert_eq!(node_ids, vec!["t1".to_string(), "t2".to_string()]);
        }
        _ => panic!("expected a read attempt"),
    }
}

#[test]
fn empty_read_plans_empty_batch_and_yields_empty_values() {
    let mut state = ConnectionState::new();
    let config = ServerConfig {
        host: "srv".to_string(),
        port: 4840,
        namespace: 2,
        endpoint: None,
    };
    on_connect_result(&mut state, config, Ok(()));
    match handle_request(&state, read_req(&[])) {
        Plan::AttemptRead { node_ids, .. } => assert_eq!(node_ids, Vec::<String>::new()),
        _ => panic!("expected a read attempt"),
    }
    assert_eq!(
        on_read_result(Ok(Vec::new())),
        Response::ReadOk { values: Vec::new() }
    );
}

#[test]
fn reachable_stub_scenario() {
    // Connect to a stub at 127.0.0.1:49320 with namespace 2 and no endpoint,
    // then read one tag and get the stub's canned value back.
    let mut state = ConnectionState::new();
    let plan = handle_request(&state, connect_req("127.0.0.1", 49320, 2, None));
    let config = match plan {
        Plan::AttemptConnect { url, config } => {
            assert_eq!(url, "opc.tcp://127.0.0.1:49320".to_string());
            config
        }
        _ => panic!("expected a connect attempt"),
    };
    assert_eq!(on_connect_result(&mut state, config, Ok(())), Response::ConnectOk);

    match handle_request(&state, read_req(&["Temperature"])) {
        Plan::AttemptRead { namespace, node_ids } => {
            assert_eq!(namespace, 2);
            assert_eq!(node_ids, vec!["Temperature".to_string()]);
        }
        _ => panic!("expected a read attempt"),
    }
    let canned = "{\"value\":21.5,\"status\":0}".to_string();
    assert_eq!(
        on_read_result(Ok(vec![canned.clone()])),
        Response::ReadOk { values: vec![canned] }
    );
}

#[test]
fn unreachable_host_scenario() {
    let mut state = ConnectionState::new();
    let plan = handle_request(&state, connect_req("10.255.255.1", 4840, 2, None));
    let config = match plan {
        Plan::AttemptConnect { config, .. } => config,
        _ => panic!("expected a connect attempt"),
    };
    let response = on_connect_result(&mut state, config, Err("connection refused".to_string()));
    match response {
        Response::Error { message } => {
            assert!(message.to_lowercase().contains("failed"));
            assert!(message.contains("connection refused"));
        }
        _ => panic!("expected an error"),
    }
    // A failed connect leaves no partial state behind.
    assert!(!state.connected);
    assert!(state.server.is_none());
    // And a following read is still rejected for want of a session.
    match handle_request(&state, read_req(&["a"])) {
        Plan::Respond(Response::Error { message }) => {
            assert_eq!(message, "Cannot read, no active session".to_string());
        }
        _ => panic!("expected a rejection"),
    }
}

#[test]
fn failed_read_reports_and_session_stays_usable() {
    let mut state = ConnectionState::new();
    let config = ServerConfig {
        host: "srv".to_string(),
        port: 1,
        namespace: 3,
        endpoint: None,
    };
    on_connect_result(&mut state, config, Ok(()));
    match on_read_result(Err("BadNodeIdUnknown".to_string())) {
        Response::Error { message } => {
            assert_eq!(message, "Unable to read from OPCUA server: BadNodeIdUnknown".to_string());
        }
        _ => panic!("expected an error"),
    }
    // The session is not invalidated by a failed read.
    match handle_request(&state, read_req(&["again"])) {
        Plan::AttemptRead { namespace, .. } => assert_eq!(namespace, 3),
        _ => panic!("expected a read attempt"),
    }
}

#[test]
fn url_building() {
    assert_eq!(u16_to_string(0), "0".to_string());
    assert_eq!(u16_to_string(7), "7".to_string());
    assert_eq!(u16_to_string(8341), "8341".to_string());
    assert_eq!(u16_to_string(65535), "65535".to_string());
    assert_eq!(
        connect_url(&"host.example".to_string(), 4840, &Some("/opc".to_string())),
        "opc.tcp://host.example:4840/opc".to_string()
    );
    assert_eq!(
        connect_url(&"127.0.0.1".to_string(), 8341, &None),
        "opc.tcp://127.0.0.1:8341".to_string()
    );
}

#[test]
fn malformed_frame_still_gets_one_response() {
    let state = ConnectionState::new();
    match plan_for_frame(&state, b"not json at all") {
        Plan::Respond(Response::Error { message }) => {
            assert_eq!(message, "request is not valid".to_string());
        }
        _ => panic!("expected an error response, not a dropped frame"),
    }
    match plan_for_frame(&state, b"{\"type\":\"read\",\"node_ids\":[\"a\"]}") {
        Plan::Respond(Response::Error { message }) => {
            assert_eq!(message, "Cannot read, no active session".to_string());
        }
        _ => panic!("expected a rejection"),
    }
}

#[test]
fn end_to_end_frame_to_response() {
    // One decoded frame through dispatch and back out as an encoded frame.
    let state = ConnectionState::new();
    let frame = b"{\"type\":\"read\",\"node_ids\":[\"a\"]}";
    let req = opc_gateway::codec::parse_request(frame).expect("well-formed");
    let response = match handle_request(&state, req) {
        Plan::Respond(r) => r,
        _ => panic!("expected an immediate response"),
    };
    assert_eq!(
        opc_gateway::codec::encode_response(&response),
        b"{\"type\":\"error\",\"message\":\"Cannot read, no active session\"}\n".to_vec()
    );
}
