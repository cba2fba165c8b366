use neals::ipc::{
    decode_request, decode_response, encode_request, encode_response, request_from_node,
    response_from_node, ProjectRuntime, Request, Response,
};
use neals::json::Node;

#[test]
fn up_json_contract() {
    let req = Request::Up { project: "demo".into() };
    let encoded = encode_request(&req).unwrap();
    assert_eq!(encoded, "{\"Up\":{\"project\":\"demo\"}}\n");
    assert_eq!(decode_request(&encoded).unwrap(), req);
}

#[test]
fn request_round_trips() {
    let cases = [
        Request::Ping,
        Request::Up { project: "demo".into() },
        Request::Down { project: "demo".into() },
        Request::Status,
    ];
    for case in cases {
        let line = encode_request(&case).unwrap();
        assert!(line.ends_with('\n'));
        assert_eq!(decode_request(&line).unwrap(), case);
    }
}

#[test]
fn response_round_trips() {
    let cases = [
        Response::Pong,
        Response::Done,
        Response::Error { message: "not running".into() },
        Response::Status { projects: vec![] },
        Response::Status {
            projects: vec![ProjectRuntime {
                name: "demo".into(),
                pid: 42,
                uptime_secs: 120,
                ..Default::default()
            }],
        },
    ];
    for case in cases {
        let line = encode_response(&case).unwrap();
        assert!(line.ends_with('\n'));
        assert_eq!(decode_response(&line).unwrap(), case);
    }
}

#[test]
fn a_message_is_one_line() {
    let project = "a\nb\r\nc".to_string();
    let line = encode_request(&Request::Up { project: project.clone() }).unwrap();
    assert_eq!(line.find('\n'), Some(line.len() - 1));
    assert!(!line.contains('\r'));
    assert_eq!(decode_request(&line).unwrap(), Request::Up { project: project.clone() });
    let line = encode_response(&Response::Error { message: project }).unwrap();
    assert_eq!(line, "{\"Error\":{\"message\":\"a\\nb\\r\\nc\"}}\n");
}

#[test]
fn decode_rejects_empty_and_multiline() {
    assert!(decode_request("").is_err());
    assert!(decode_request("\n").is_err());
    assert!(decode_request("{\"Ping\":null}\n{\"Status\":null}\n").is_err());
}

#[test]
fn decode_errors_say_why() {
    assert_eq!(decode_request("\r\n").unwrap_err(), "empty IPC message");
    assert_eq!(decode_request("1\n2").unwrap_err(), "IPC message must be a single line");
    assert_eq!(decode_request("{").unwrap_err(), "failed to parse IPC message");
    assert_eq!(decode_request("\"Nope\"").unwrap_err(), "failed to parse IPC message");
    assert_eq!(decode_request("{\"Up\":{}}").unwrap_err(), "failed to parse IPC message");
    assert_eq!(decode_response("{\"Error\":{\"message\":1}}").unwrap_err(), "failed to parse IPC message");
}

#[test]
fn awkward_text_survives_the_line() {
    let res = Response::Error { message: "a\nb\r\"\\ → \u{1}".into() };
    let line = encode_response(&res).unwrap();
    assert_eq!(line.matches('\n').count(), 1);
    assert_eq!(decode_response(&line).unwrap(), res);
}

#[test]
fn status_bytes() {
    let res = Response::Status {
        projects: vec![ProjectRuntime {
            name: "demo".into(),
            pid: 7,
            netns_pid: 8,
            uptime_secs: 9,
            routes: vec!["r".into()],
        }],
    };
    assert_eq!(
        encode_response(&res).unwrap(),
        "{\"Status\":{\"projects\":[{\"name\":\"demo\",\"pid\":7,\"netns_pid\":8,\
         \"uptime_secs\":9,\"routes\":[\"r\"]}]}}\n"
    );
    assert_eq!(encode_response(&Response::Done).unwrap(), "\"Ok\"\n");
    assert_eq!(encode_request(&Request::Ping).unwrap(), "\"Ping\"\n");
}

#[test]
fn other_forms_of_messages() {
    assert_eq!(decode_request("{\"Ping\":null}\r\n").unwrap(), Request::Ping);
    assert_eq!(
        decode_request("{\"Up\":[\"demo\"]}").unwrap(),
        Request::Up { project: "demo".into() }
    );
    assert_eq!(
        decode_request("{\"Down\":{\"more\":1,\"project\":\"demo\"}}").unwrap(),
        Request::Down { project: "demo".into() }
    );
    assert!(decode_request("{\"Ping\":1}").is_err());
    assert!(decode_request("{\"Up\":{\"project\":\"a\"},\"Ping\":null}").is_err());
    assert!(decode_request("\"Up\"").is_err());
    let old = "{\"Status\":{\"projects\":[{\"name\":\"demo\",\"pid\":1,\"uptime_secs\":2}]}}";
    assert_eq!(
        decode_response(old).unwrap(),
        Response::Status {
            projects: vec![ProjectRuntime {
                name: "demo".into(),
                pid: 1,
                uptime_secs: 2,
                ..Default::default()
            }],
        }
    );
    let by_position = "{\"Status\":{\"projects\":[[\"demo\",1,5,2]]}}";
    assert_eq!(
        decode_response(by_position).unwrap(),
        Response::Status {
            projects: vec![ProjectRuntime {
                name: "demo".into(),
                pid: 1,
                netns_pid: 5,
                uptime_secs: 2,
                routes: vec![],
            }],
        }
    );
    let big = "{\"Status\":{\"projects\":[{\"name\":\"d\",\"pid\":4294967296,\"uptime_secs\":2}]}}";
    assert!(decode_response(big).is_err());
    let negative = "{\"Status\":{\"projects\":[{\"name\":\"d\",\"pid\":-1,\"uptime_secs\":2}]}}";
    assert!(decode_response(negative).is_err());
}

#[test]
fn values_read_as_messages() {
    let text = |t: &str| Node::Text(t.into());
    assert_eq!(request_from_node(text("Status")), Some(Request::Status));
    assert_eq!(request_from_node(Node::Null), None);
    assert_eq!(response_from_node(text("Pong")), Some(Response::Pong));
    assert_eq!(response_from_node(Node::Other), None);
    let up = |fields: Vec<(&str, Node)>| {
        let fields = fields.into_iter().map(|(k, v)| (k.to_string(), v)).collect();
        Node::Object(vec![("Up".into(), Node::Object(fields))])
    };
    let demo = Some(Request::Up { project: "demo".into() });
    assert_eq!(request_from_node(up(vec![("project", text("demo"))])), demo);
    assert_eq!(
        request_from_node(up(vec![("x", Node::Other), ("project", text("demo")), ("x", Node::Null)])),
        demo
    );
    assert_eq!(
        request_from_node(up(vec![("project", text("demo")), ("project", text("demo"))])),
        None
    );
    assert_eq!(request_from_node(up(vec![("project", Node::Number(1))])), None);
}

#[test]
fn fields_given_twice_are_refused() {
    assert!(decode_request("{\"Up\":{\"project\":\"a\",\"project\":\"a\"}}").is_err());
    assert!(decode_request("{\"Up\":{\"project\":\"a\",\"projec\\u0074\":\"b\"}}").is_err());
    assert!(decode_request("{\"Ping\":null,\"Ping\":null}").is_err());
    assert!(decode_response("{\"Error\":{\"message\":\"a\",\"message\":\"b\"}}").is_err());
    let twice = |field: &str| {
        decode_response(&format!(
            "{{\"Status\":{{\"projects\":[{{\"name\":\"d\",\"pid\":1,\"netns_pid\":2,\
             \"uptime_secs\":3,\"routes\":[],{field}}}]}}}}"
        ))
    };
    assert!(twice("\"more\":1,\"more\":2").is_ok());
    for field in ["\"name\":\"d\"", "\"pid\":1", "\"netns_pid\":2", "\"uptime_secs\":3", "\"routes\":[]"] {
        assert!(twice(field).is_err());
    }
}

#[test]
fn ignored_fields_are_not_looked_into() {
    let deep = format!("{}1{}", "[".repeat(5000), "]".repeat(5000));
    for ignored in ["1e999", "\"\\ud800\"", "{\"a\":1,\"a\":2}", "true", deep.as_str()] {
        let line = format!("{{\"Up\" : {{ \"x\": {ignored} , \"project\":\t\"demo\" }} }}");
        assert_eq!(decode_request(&line).unwrap(), Request::Up { project: "demo".into() });
    }
    for broken in ["01", "\"\\x\"", "{\"a\"}", "[1,]", "tru", ""] {
        let line = format!("{{\"Up\":{{\"x\":{broken},\"project\":\"demo\"}}}}");
        assert!(decode_request(&line).is_err());
    }
}

#[test]
fn broken_objects_are_refused() {
    for line in [
        "{\"Up\":{\"project\":\"a\",}}",
        "{\"Up\":{\"project\" \"a\"}}",
        "{\"Up\":{,\"project\":\"a\"}}",
        "{\"Up\":{\"project\":\"a\"}",
        "{\"Up\":{\"project\":\"a\"}}}",
        "{\"Up\":{\"project\":\"a\"}} x",
        "{\"Up\":{\"project\":\"a\" \"b\"}}",
        "{\"Up\":{1:2,\"project\":\"a\"}}",
        "{\"Up\":{\"\\ud800\":2,\"project\":\"a\"}}",
        "{}",
        "{} {}",
        "{",
    ] {
        assert!(decode_request(line).is_err(), "{line}");
    }
    let spaced = " { \"Up\" : { \"project\" : \"a\" } } ";
    assert_eq!(decode_request(spaced).unwrap(), Request::Up { project: "a".into() });
}

#[test]
fn responses_in_notices() {
    assert_eq!(Response::Pong.debug_text(), "Pong");
    assert_eq!(Response::Done.debug_text(), "Ok");
    assert_eq!(
        Response::Error { message: "a\"b".into() }.debug_text(),
        "Error { message: \"a\\\"b\" }"
    );
    let status = Response::Status {
        projects: vec![
            ProjectRuntime {
                name: "d".into(),
                pid: 1,
                netns_pid: 2,
                uptime_secs: 3,
                routes: vec!["x".into(), "y".into()],
            },
            ProjectRuntime::default(),
        ],
    };
    assert_eq!(status.debug_text(), format!("{status:?}"));
}
