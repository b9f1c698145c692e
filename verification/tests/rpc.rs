use evm_address_extractor::attempts::{after_failure, begin, Attempts, Next, MAX_RPC_RETRIES};
use evm_address_extractor::json::{parse_json, Json};
use evm_address_extractor::rpc::{
    begin_call, block_payload, body_failure, check_reply, get_block_timestamp, get_latest_block,
    latest_block_payload, reply_failure, request_failure, rpc_call, status_failure, success, Event,
    Step, CALL_PAUSE_MS,
};

fn json(text: &str) -> Json {
    parse_json(text.as_bytes()).unwrap()
}

fn urls() -> Vec<String> {
    vec!["http://a".to_string(), "http://b".to_string()]
}

fn first() -> Attempts {
    begin_call(2).0
}

fn error_of(event: Event) -> String {
    match rpc_call(&urls(), first(), event) {
        (at, Step::Go(Next::Send { .. })) => at.last_error().to_string(),
        _ => panic!("the attempt should have failed"),
    }
}

#[test]
fn json_is_read_and_written() {
    let value = json("{\"b\": [1, -2, 0.5, true, null], \"a\": \"x\\n\"}");
    assert_eq!(value.text(), "{\"a\":\"x\\n\",\"b\":[1,-2,0.5,true,null]}");
    assert_eq!(value.get_text("a"), Some("x\n"));
    assert_eq!(value.get_text("b"), None);
    assert_eq!(value.get_array("b").unwrap().len(), 5);
    assert!(value.get_array("b").unwrap()[4].is_null());
    assert!(value.get("c").is_none());
    assert!(value.get_array("b").unwrap()[0] == Json::whole(1));
    assert!(json("[]").get("a").is_none());
    assert!(parse_json(b"{\"a\":}").is_none());
    assert!(parse_json(b"").is_none());
    assert!(parse_json(b"1 2").is_none());
}

#[test]
fn the_later_field_of_a_key_counts() {
    let value = Json::Object(vec![
        ("k".to_string(), Json::Bool(false)),
        ("j".to_string(), Json::Null),
        ("k".to_string(), Json::Text("v".to_string())),
    ]);
    assert_eq!(value.get_text("k"), Some("v"));
    assert_eq!(value.text(), "{\"j\":null,\"k\":\"v\"}");
    assert_eq!(json("{\"k\":1,\"k\":2}").text(), "{\"k\":2}");
}

#[test]
fn requests_have_the_form_of_the_protocol() {
    assert_eq!(
        latest_block_payload().text(),
        "{\"id\":1,\"jsonrpc\":\"2.0\",\"method\":\"eth_blockNumber\",\"params\":[]}"
    );
    assert_eq!(
        block_payload(255, false).text(),
        "{\"id\":255,\"jsonrpc\":\"2.0\",\"method\":\"eth_getBlockByNumber\",\"params\":[\"0xff\",false]}"
    );
}

#[test]
fn latest_block_is_read_from_the_answer() {
    assert_eq!(get_latest_block(Ok(json("{\"result\":\"0x1b4\"}"))), Ok(436));
    assert_eq!(
        get_latest_block(Ok(json("{\"id\":1}"))),
        Err("Missing eth_blockNumber result".to_string())
    );
    assert_eq!(
        get_latest_block(Ok(json("{\"result\":12}"))),
        Err("Missing eth_blockNumber result".to_string())
    );
    assert_eq!(
        get_latest_block(Ok(json("{\"result\":\"0xzz\"}"))),
        Err("Invalid latest block number".to_string())
    );
}

#[test]
fn timestamp_is_read_from_the_answer() {
    let good = json("{\"result\":{\"timestamp\":\"0x5\"}}");
    assert_eq!(get_block_timestamp(9, Ok(good)), Ok(5));
    assert_eq!(
        get_block_timestamp(9, Ok(json("{}"))),
        Err("Block 9 has no result".to_string())
    );
    assert_eq!(
        get_block_timestamp(9, Ok(json("{\"result\":null}"))),
        Err("Block 9 returned null".to_string())
    );
    assert_eq!(
        get_block_timestamp(10, Ok(json("{\"result\":{}}"))),
        Err("Block 10 has no timestamp".to_string())
    );
    assert_eq!(
        get_block_timestamp(10, Ok(json("{\"result\":[]}"))),
        Err("Block 10 has no timestamp".to_string())
    );
    assert_eq!(
        get_block_timestamp(10, Ok(json("{\"result\":{\"timestamp\":\"\"}}"))),
        Err("Invalid timestamp in block 10".to_string())
    );
}

#[test]
fn a_failed_attempt_says_why() {
    assert_eq!(
        error_of(Event::RequestFailed("timed out".to_string())),
        "http://a request failed: timed out"
    );
    assert_eq!(error_of(Event::Answered(404)), "http://a returned HTTP 404 Not Found");
    assert_eq!(
        error_of(Event::Answered(799)),
        "http://a returned HTTP 799 <unknown status code>"
    );
    assert_eq!(
        error_of(Event::BodyFailed("cut off".to_string())),
        "http://a returned invalid JSON: cut off"
    );
    assert_eq!(
        error_of(Event::Body(b"<html>".to_vec())),
        "http://a returned invalid JSON: error decoding response body"
    );
    assert_eq!(
        error_of(Event::Body(b"{\"error\":{\"code\":-32000,\"message\":\"busy\"}}".to_vec())),
        "http://a returned RPC error: {\"code\":-32000,\"message\":\"busy\"}"
    );
    assert_eq!(
        error_of(Event::Body(b"{\"error\":null,\"result\":1}".to_vec())),
        "http://a returned RPC error: null"
    );
}

#[test]
fn statuses_of_success_are_the_two_hundreds() {
    assert!(!success(199));
    assert!(success(200));
    assert!(success(299));
    assert!(!success(300));
    for code in 100u16..1000 {
        assert_eq!(success(code), reqwest::StatusCode::from_u16(code).unwrap().is_success());
    }
    assert!(matches!(rpc_call(&urls(), first(), Event::Answered(204)), (_, Step::ReadBody)));
}

#[test]
fn an_answer_without_error_is_the_result() {
    match rpc_call(&urls(), first(), Event::Body(b"{\"result\":\"0x1\"}".to_vec())) {
        (at, Step::Done(value)) => {
            assert_eq!(at.endpoint(), 0);
            assert_eq!(value.text(), "{\"result\":\"0x1\"}");
        }
        _ => panic!("the call should be done"),
    }
    assert!(check_reply("u", Some(json("[]"))).is_ok());
    assert_eq!(
        check_reply("u", None),
        Err("u returned invalid JSON: error decoding response body".to_string())
    );
}

#[test]
fn attempts_go_through_all_endpoints() {
    let (mut at, mut next) = begin_call(2);
    let mut sent = Vec::new();
    let mut left = Vec::new();
    let error = loop {
        match next {
            Next::Send { endpoint, delay_ms, abandoned } => {
                sent.push((endpoint, delay_ms));
                left.push(abandoned);
                let text = format!("error {}", sent.len());
                let pair = after_failure(at, 2, CALL_PAUSE_MS, text);
                at = pair.0;
                next = pair.1;
            }
            Next::GiveUp { error, abandoned } => {
                left.push(abandoned);
                break error;
            }
        }
    };
    assert_eq!(sent, vec![(0, 0), (0, 300), (0, 600), (1, 0), (1, 300), (1, 600)]);
    assert_eq!(left, vec![None, None, None, Some(0), None, None, Some(1)]);
    assert_eq!(sent.len(), 2 * MAX_RPC_RETRIES);
    assert_eq!(error, "error 6");
}

#[test]
fn without_endpoints_there_is_nothing_to_try() {
    match begin_call(0) {
        (_, Next::GiveUp { error, abandoned }) => {
            assert_eq!(error, "Unknown RPC error");
            assert_eq!(abandoned, None);
        }
        _ => panic!("there is no endpoint"),
    }
    assert!(matches!(begin(1, "e"), (_, Next::Send { endpoint: 0, delay_ms: 0, abandoned: None })));
}

#[test]
fn failures_name_the_endpoint() {
    assert_eq!(request_failure("http://a", "timed out"), "http://a request failed: timed out");
    assert_eq!(
        status_failure("http://a", "502 Bad Gateway"),
        "http://a returned HTTP 502 Bad Gateway"
    );
    assert_eq!(body_failure("http://a", "cut"), "http://a returned invalid JSON: cut");
    assert_eq!(reply_failure("http://a", "{}"), "http://a returned RPC error: {}");
}

#[test]
fn the_error_of_a_failed_call_is_handed_on() {
    let error = || "http://b returned HTTP 503 Service Unavailable".to_string();
    assert_eq!(get_latest_block(Err(error())), Err(error()));
    assert_eq!(get_block_timestamp(7, Err(error())), Err(error()));
}

#[test]
fn a_call_ends_with_the_first_answer_or_the_last_error() {
    let run = |events: Vec<Event>| {
        let (mut at, _) = begin_call(2);
        for event in events {
            match rpc_call(&urls(), at, event) {
                (_, Step::Done(value)) => return Some(Ok(value.text())),
                (_, Step::Go(Next::GiveUp { error, .. })) => return Some(Err(error)),
                (next, _) => at = next,
            }
        }
        None
    };
    let failures = |n: usize| -> Vec<Event> {
        (1..=n).map(|k| Event::RequestFailed(format!("e{}", k))).collect()
    };
    for n in 0..6 {
        assert_eq!(run(failures(n)), None);
        let mut events = failures(n);
        events.push(Event::Answered(200));
        events.push(Event::Body(b"{\"result\":1}".to_vec()));
        events.push(Event::Body(b"{\"result\":2}".to_vec()));
        assert_eq!(run(events), Some(Ok("{\"result\":1}".to_string())));
    }
    assert_eq!(run(failures(6)), Some(Err("http://b request failed: e6".to_string())));
}
