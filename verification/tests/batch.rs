use evm_address_extractor::attempts::Next;
use evm_address_extractor::batch::{
    batch_payload, begin_batch, check_blocks, fetch_rpc_batch_blocks,
};
use evm_address_extractor::json::parse_json;
use evm_address_extractor::rpc::{Event, Step};

fn urls() -> Vec<String> {
    vec!["http://a".to_string()]
}

fn check(requested: usize, text: &str) -> Result<Vec<String>, String> {
    check_blocks("http://a", requested, parse_json(text.as_bytes()))
}

#[test]
fn no_blocks_need_no_request() {
    match begin_batch(3, &Vec::new()) {
        (_, Step::Done(found)) => assert!(found.is_empty()),
        _ => panic!("nothing is to be asked"),
    }
    match begin_batch(0, &vec![1]) {
        (_, Step::Go(Next::GiveUp { error, .. })) => assert_eq!(error, "Batch request failed"),
        _ => panic!("there is no endpoint"),
    }
}

#[test]
fn a_batch_asks_for_each_block_in_full() {
    assert_eq!(
        batch_payload(&vec![10, 11]).text(),
        "[{\"id\":10,\"jsonrpc\":\"2.0\",\"method\":\"eth_getBlockByNumber\",\"params\":[\"0xa\",true]},\
         {\"id\":11,\"jsonrpc\":\"2.0\",\"method\":\"eth_getBlockByNumber\",\"params\":[\"0xb\",true]}]"
    );
}

#[test]
fn addresses_come_in_order_and_lowered() {
    let found = check(
        2,
        "[{\"result\":{\"number\":\"0x1\",\"transactions\":[\
            {\"from\":\"0xAB\",\"to\":\"0xCD\"},{\"from\":\"0xEF\",\"to\":null},{\"to\":\"0xAb\"},\"0x1\"]}},\
          {\"result\":{\"number\":\"0x2\"}}]",
    );
    let expected: Vec<String> =
        ["0xab", "0xcd", "0xef", "0xab"].iter().map(|s| s.to_string()).collect();
    assert_eq!(found, Ok(expected));
}

#[test]
fn items_without_a_block_are_left_out() {
    let text = "[{\"error\":{\"code\":1},\"result\":{\"number\":\"0x1\",\"transactions\":[{\"from\":\"0xA\"}]}},\
                 {\"result\":null},{},7,{\"result\":{\"number\":\"zz\"}},{\"result\":{\"number\":\"0x5\"}}]";
    assert_eq!(
        check(2, text),
        Err("http://a returned only 1/2 requested blocks".to_string())
    );
    assert_eq!(check(1, text), Ok(Vec::new()));
}

#[test]
fn the_same_block_twice_counts_once() {
    let text = "[{\"result\":{\"number\":\"0x5\"}},{\"result\":{\"number\":\"0x05\"}}]";
    assert_eq!(
        check(2, text),
        Err("http://a returned only 1/2 requested blocks".to_string())
    );
}

#[test]
fn what_is_no_array_is_no_answer() {
    let error = "http://a returned invalid JSON: error decoding response body".to_string();
    assert_eq!(check(1, "{\"result\":1}"), Err(error.clone()));
    assert_eq!(check(1, "[1,"), Err(error));
}

#[test]
fn a_failed_batch_is_tried_again_after_a_pause() {
    let blocks = vec![5];
    let (at, _) = begin_batch(1, &blocks);
    let (at, step) = fetch_rpc_batch_blocks(&urls(), &blocks, at, Event::Answered(503));
    assert_eq!(at.last_error(), "http://a returned HTTP 503 Service Unavailable");
    assert!(matches!(
        step,
        Step::Go(Next::Send { endpoint: 0, delay_ms: 500, abandoned: None })
    ));
    let (at, step) =
        fetch_rpc_batch_blocks(&urls(), &blocks, at, Event::RequestFailed("x".to_string()));
    assert!(matches!(
        step,
        Step::Go(Next::Send { endpoint: 0, delay_ms: 1000, abandoned: None })
    ));
    let (at, step) = fetch_rpc_batch_blocks(&urls(), &blocks, at, Event::Answered(200));
    assert!(matches!(step, Step::ReadBody));
    let (_, step) = fetch_rpc_batch_blocks(&urls(), &blocks, at, Event::Body(b"[]".to_vec()));
    match step {
        Step::Go(Next::GiveUp { error, abandoned }) => {
            assert_eq!(error, "http://a returned only 0/1 requested blocks");
            assert_eq!(abandoned, Some(0));
        }
        _ => panic!("all attempts are used up"),
    }
}

#[test]
fn a_complete_batch_is_done() {
    let blocks = vec![5];
    let (at, _) = begin_batch(1, &blocks);
    let body = b"[{\"result\":{\"number\":\"0x5\",\"transactions\":[{\"from\":\"0xA\",\"to\":\"0xB\"}]}}]";
    match fetch_rpc_batch_blocks(&urls(), &blocks, at, Event::Body(body.to_vec())) {
        (_, Step::Done(found)) => assert_eq!(found, vec!["0xa".to_string(), "0xb".to_string()]),
        _ => panic!("the batch is complete"),
    }
}

#[test]
fn an_answer_is_accepted_exactly_if_it_is_complete() {
    let item = |n: u64| format!("{{\"result\":{{\"number\":\"0x{:x}\"}}}}", n);
    for mask in 0u32..8 {
        let items: Vec<String> =
            (0..3).filter(|k| mask & (1 << k) != 0).map(|k| item(10 + k as u64)).collect();
        let text = format!("[{},{{}},{}]", item(10), items.join(",")).replace(",]", "]");
        let complete = mask & 0b110 == 0b110;
        assert_eq!(check(3, &text).is_ok(), complete, "{}", text);
    }
}

#[test]
fn the_first_acceptable_answer_is_the_outcome() {
    let urls = vec!["http://a".to_string(), "http://b".to_string()];
    let blocks = vec![5];
    let (mut at, _) = begin_batch(2, &blocks);
    for _ in 0..5 {
        let (next, step) = fetch_rpc_batch_blocks(&urls, &blocks, at, Event::Answered(500));
        assert!(matches!(step, Step::Go(Next::Send { .. })));
        at = next;
    }
    assert_eq!(at.endpoint(), 1);
    let body = b"[{\"result\":{\"number\":\"0x5\",\"transactions\":[{\"to\":\"0xB\"}]}}]";
    match fetch_rpc_batch_blocks(&urls, &blocks, at, Event::Body(body.to_vec())) {
        (_, Step::Done(found)) => assert_eq!(found, vec!["0xb".to_string()]),
        _ => panic!("the answer is acceptable"),
    }
}
