//! One JSON-RPC request: what is sent, what an answer means, and what follows from it.
use vstd::prelude::*;

use crate::attempts::{after_failure, begin, Attempts, Next};
use crate::json::{parse_json, Json, JsonView};
use crate::number::{decimal_text, hex_text, hex_to_u64};
use crate::text::join;

verus! {

/// The pause after the first failed attempt at an endpoint, in milliseconds.
pub const CALL_PAUSE_MS: u32 = 300;

/// How long one request may take.
pub const RPC_TIMEOUT_SECONDS: u64 = 45;

/// What comes back from the network.
pub enum Event {
    /// The request failed before there was an answer.
    RequestFailed(String),
    /// An answer with this HTTP status has begun.
    Answered(u16),
    /// The body of the answer could not be read.
    BodyFailed(String),
    /// The body of the answer.
    Body(Vec<u8>),
}

/// What to do in return.
pub enum Step<T> {
    /// The attempt failed: go on as `Next` says.
    Go(Next),
    /// Read the body of the answer.
    ReadBody,
    /// The request has its answer.
    Done(T),
}

/// What an event means for the attempt that it belongs to.
pub enum Judged<T> {
    /// The attempt failed.
    Failure(Seq<char>),
    /// The body of the answer is wanted.
    ReadBody,
    /// The request has its answer.
    Done(T),
}

impl Event {
    /// Whether a status, where this is one, has three digits, as HTTP has them.
    pub open spec fn proper(self) -> bool {
        self matches Event::Answered(status) ==> 100 <= status <= 999
    }
}

/// An HTTP status in words.
pub uninterp spec fn status_line(status: u16) -> Seq<char>;

/// `Display` of `reqwest::StatusCode`: the number and the standard reason.
#[verifier::external_body]
fn status_text(status: u16) -> (text: String)
    requires
        100 <= status <= 999,
    ensures
        text@ == status_line(status),
{
    reqwest::StatusCode::from_u16(status).unwrap().to_string()
}

/// What is said of an endpoint whose request failed.
pub open spec fn request_error(url: Seq<char>, error: Seq<char>) -> Seq<char> {
    url + " request failed: "@ + error
}

/// What is said of an endpoint that answers with a bad status.
pub open spec fn status_error(url: Seq<char>, status: Seq<char>) -> Seq<char> {
    url + " returned HTTP "@ + status
}

/// What is said of an endpoint whose answer is no JSON.
pub open spec fn body_error(url: Seq<char>, error: Seq<char>) -> Seq<char> {
    url + " returned invalid JSON: "@ + error
}

/// What is said of an endpoint that answers with a JSON-RPC error.
pub open spec fn reply_error(url: Seq<char>, error: Seq<char>) -> Seq<char> {
    url + " returned RPC error: "@ + error
}

/// Whether an HTTP status means success.
pub open spec fn is_success(status: u16) -> bool {
    200 <= status < 300
}

/// What a document means as the answer to a call: no document is an error, and so is one
/// that reports an error.
pub open spec fn judge_reply(url: Seq<char>, reply: Option<JsonView>) -> Result<
    JsonView,
    Seq<char>,
> {
    match reply {
        None => Err(body_error(url, "error decoding response body"@)),
        Some(document) => match crate::json::field(document, "error"@) {
            Some(error) => Err(reply_error(url, crate::json::json_text(error))),
            None => Ok(document),
        },
    }
}

/// What an event means up to the body; a body, which is not judged here, is wanted.
pub open spec fn judge_before_body<T>(url: Seq<char>, event: Event) -> Judged<T> {
    match event {
        Event::RequestFailed(error) => Judged::Failure(request_error(url, error@)),
        Event::Answered(status) => if is_success(status) {
            Judged::ReadBody
        } else {
            Judged::Failure(status_error(url, status_line(status)))
        },
        Event::BodyFailed(error) => Judged::Failure(body_error(url, error@)),
        Event::Body(_) => Judged::ReadBody,
    }
}

/// What an event means for a call.
pub open spec fn judge_call(url: Seq<char>, event: Event) -> Judged<JsonView> {
    match event {
        Event::Body(bytes) => match judge_reply(url, crate::json::json_document(bytes@)) {
            Ok(document) => Judged::Done(document),
            Err(error) => Judged::Failure(error),
        },
        _ => judge_before_body(url, event),
    }
}

/// `a` followed by `b` and `c`.
fn join3(a: &str, b: &str, c: &str) -> (joined: String)
    ensures
        joined@ == a@ + b@ + c@,
{
    let mut joined = join(a, b);
    joined.append(c);
    joined
}

/// Whether an HTTP status means success.
pub fn success(status: u16) -> (is: bool)
    ensures
        is == is_success(status),
{
    200 <= status && status < 300
}

/// Says that the request to an endpoint failed.
pub fn request_failure(url: &str, error: &str) -> (text: String)
    ensures
        text@ == request_error(url@, error@),
{
    join3(url, " request failed: ", error)
}

/// Says that an endpoint answers with a bad status, given in words.
pub fn status_failure(url: &str, status: &str) -> (text: String)
    ensures
        text@ == status_error(url@, status@),
{
    join3(url, " returned HTTP ", status)
}

/// Says that the answer of an endpoint is no JSON.
pub fn body_failure(url: &str, error: &str) -> (text: String)
    ensures
        text@ == body_error(url@, error@),
{
    join3(url, " returned invalid JSON: ", error)
}

/// Says that an endpoint answers with a JSON-RPC error, given as JSON text.
pub fn reply_failure(url: &str, error: &str) -> (text: String)
    ensures
        text@ == reply_error(url@, error@),
{
    join3(url, " returned RPC error: ", error)
}

/// Says what is wrong with a document as the answer to a call, or hands it on.
pub fn check_reply(url: &str, reply: Option<Json>) -> (r: Result<Json, String>)
    ensures
        match (judge_reply(url@, crate::json::document_view(reply)), r) {
            (Ok(document), Ok(json)) => json@ == document,
            (Err(error), Err(text)) => text@ == error,
            _ => false,
        },
{
    match reply {
        None => Err(body_failure(url, "error decoding response body")),
        Some(json) => {
            let error = match json.get("error") {
                Some(error) => Some(error.text()),
                None => None,
            };
            match error {
                Some(text) => Err(reply_failure(url, text.as_str())),
                None => Ok(json),
            }
        },
    }
}

/// Takes an event that is not a body: what to do, or the error that ends the attempt.
pub(crate) fn check_before_body(url: &str, event: &Event) -> (r: Result<(), String>)
    requires
        event.proper(),
        !(event is Body),
    ensures
        match (judge_before_body::<()>(url@, *event), r) {
            (Judged::ReadBody, Ok(_)) => true,
            (Judged::Failure(error), Err(text)) => text@ == error,
            _ => false,
        },
{
    match event {
        Event::RequestFailed(error) => Err(request_failure(url, error.as_str())),
        Event::Answered(status) => {
            if success(*status) {
                Ok(())
            } else {
                Err(status_failure(url, status_text(*status).as_str()))
            }
        },
        Event::BodyFailed(error) => Err(body_failure(url, error.as_str())),
        Event::Body(_) => Ok(()),
    }
}

/// Starts a call.
pub fn begin_call(endpoints: usize) -> (r: (Attempts, Next))
    ensures
        (r.0@, r.1@) == crate::attempts::first_attempt(endpoints as int, "Unknown RPC error"@),
        forall|urls: Seq<Seq<char>>|
            urls.len() == endpoints ==> #[trigger] crate::request::call_outcome(urls, Seq::empty())
                == crate::request::standing::<JsonView>(r.0@, r.1),
{
    begin(endpoints, "Unknown RPC error")
}

/// One turn of a call: what came back, and what to do about it.
pub fn rpc_call(rpc_urls: &Vec<String>, at: Attempts, event: Event) -> (r: (Attempts, Step<Json>))
    requires
        at@.within(rpc_urls.len() as int),
        event.proper(),
    ensures
        match judge_call(rpc_urls@[at@.endpoint]@, event) {
            Judged::Failure(error) => r.1 matches Step::Go(next) && (r.0@, next@)
                == crate::attempts::next_attempt(
                at@,
                rpc_urls.len() as int,
                CALL_PAUSE_MS as int,
                error,
            ),
            Judged::ReadBody => r.0@ == at@ && r.1 is ReadBody,
            Judged::Done(document) => r.0@ == at@ && (r.1 matches Step::Done(json) && json@
                == document),
        },
        forall|events: Seq<Event>|
            #![trigger crate::request::call_outcome(crate::text::texts(rpc_urls@), events)]
            crate::request::call_outcome(crate::text::texts(rpc_urls@), events)
                == crate::request::Outcome::<JsonView>::Trying(at@)
                ==> crate::request::call_outcome(
                crate::text::texts(rpc_urls@),
                events.push(event),
            ) == crate::request::call_standing(r.0@, r.1),
{
    proof {
        crate::request::lemma_call_goes_on(crate::text::texts(rpc_urls@), at@, event);
    }
    let url = rpc_urls[at.endpoint()].as_str();
    let error = match event {
        Event::Body(bytes) => match check_reply(url, parse_json(bytes.as_slice())) {
            Ok(json) => {
                return (at, Step::Done(json));
            },
            Err(error) => error,
        },
        _ => match check_before_body(url, &event) {
            Ok(_) => {
                return (at, Step::ReadBody);
            },
            Err(error) => error,
        },
    };
    let (at, next) = after_failure(at, rpc_urls.len(), CALL_PAUSE_MS, error);
    (at, Step::Go(next))
}

/// A JSON-RPC request.
pub open spec fn request(method: Seq<char>, params: Seq<JsonView>, id: u64) -> JsonView {
    JsonView::Object(
        Map::empty().insert("jsonrpc"@, JsonView::Text("2.0"@)).insert(
            "method"@,
            JsonView::Text(method),
        ).insert("params"@, JsonView::Array(params)).insert(
            "id"@,
            JsonView::Number(crate::json::whole_number(id)),
        ),
    )
}

/// The request for the number of the latest block.
pub open spec fn latest_block_request() -> JsonView {
    request("eth_blockNumber"@, Seq::empty(), 1)
}

/// The request for a block, with its transactions in full or without them; the number of
/// the block is also the request's id.
pub open spec fn block_request(block: u64, full: bool) -> JsonView {
    request(
        "eth_getBlockByNumber"@,
        seq![JsonView::Text(crate::number::hex(block as nat)), JsonView::Bool(full)],
        block,
    )
}

/// What a call for the latest block says: the error of a call that failed, and else what is
/// in the answer to [`latest_block_request`].
pub open spec fn latest_block(response: Result<JsonView, Seq<char>>) -> Result<u64, Seq<char>> {
    match response {
        Err(error) => Err(error),
        Ok(reply) => match crate::json::text_field(reply, "result"@) {
            None => Err("Missing eth_blockNumber result"@),
            Some(text) => match crate::number::number_or_none(
                crate::number::without_hex_prefix(text),
                16,
            ) {
                Some(block) => Ok(block),
                None => Err("Invalid latest block number"@),
            },
        },
    }
}

/// What a call for a block says of its time: the error of a call that failed, and else what
/// is in the answer to [`block_request`].
pub open spec fn block_timestamp(block: u64, response: Result<JsonView, Seq<char>>) -> Result<
    u64,
    Seq<char>,
> {
    let number = crate::number::decimal(block as nat);
    match response {
        Err(error) => Err(error),
        Ok(reply) => match crate::json::field(reply, "result"@) {
            None => Err("Block "@ + number + " has no result"@),
            Some(JsonView::Null) => Err("Block "@ + number + " returned null"@),
            Some(result) => match crate::json::text_field(result, "timestamp"@) {
                None => Err("Block "@ + number + " has no timestamp"@),
                Some(text) => match crate::number::number_or_none(
                    crate::number::without_hex_prefix(text),
                    16,
                ) {
                    Some(timestamp) => Ok(timestamp),
                    None => Err("Invalid timestamp in block "@ + number),
                },
            },
        },
    }
}

/// The outcome of a call as mathematics.
pub open spec fn call_view(response: Result<Json, String>) -> Result<JsonView, Seq<char>> {
    match response {
        Ok(json) => Ok(json@),
        Err(error) => Err(error@),
    }
}

/// A JSON-RPC request.
fn make_request(method: &str, params: Vec<Json>, id: u64) -> (json: Json)
    ensures
        json@ == request(method@, crate::json::items_view(params@), id),
{
    let ghost views = crate::json::items_view(params@);
    let mut fields: Vec<(String, Json)> = Vec::new();
    fields.push(("jsonrpc".to_owned(), Json::Text("2.0".to_owned())));
    fields.push(("method".to_owned(), Json::Text(method.to_owned())));
    fields.push(("params".to_owned(), Json::Array(params)));
    fields.push(("id".to_owned(), Json::whole(id)));
    proof {
        let pairs = seq![
            ("jsonrpc"@, JsonView::Text("2.0"@)),
            ("method"@, JsonView::Text(method@)),
            ("params"@, JsonView::Array(views)),
            ("id"@, JsonView::Number(crate::json::whole_number(id))),
        ];
        assert(crate::json::fields_view(fields@) =~= pairs);
        let p3 = pairs.drop_last();
        let p2 = p3.drop_last();
        let p1 = p2.drop_last();
        assert(p1.drop_last().len() == 0);
        reveal_with_fuel(crate::json::pairs_map, 5);
    }
    Json::Object(fields)
}

/// The request for the number of the latest block.
pub fn latest_block_payload() -> (json: Json)
    ensures
        json@ == latest_block_request(),
{
    let params: Vec<Json> = Vec::new();
    assert(crate::json::items_view(params@) =~= Seq::<JsonView>::empty());
    make_request("eth_blockNumber", params, 1)
}

/// The request for a block, with its transactions in full or without them.
pub fn block_payload(block: u64, full: bool) -> (json: Json)
    ensures
        json@ == block_request(block, full),
{
    let mut params: Vec<Json> = Vec::new();
    params.push(Json::Text(hex_text(block)));
    params.push(Json::Bool(full));
    assert(crate::json::items_view(params@) =~= seq![
        JsonView::Text(crate::number::hex(block as nat)),
        JsonView::Bool(full),
    ]);
    make_request("eth_getBlockByNumber", params, block)
}

/// The number of the latest block, from the outcome of a call with
/// [`latest_block_payload`]; the error of a call that failed is handed on.
pub fn get_latest_block(response: Result<Json, String>) -> (r: Result<u64, String>)
    ensures
        crate::text::result_view(r) == latest_block(call_view(response)),
{
    let reply = match response {
        Ok(reply) => reply,
        Err(error) => {
            return Err(error);
        },
    };
    match reply.get_text("result") {
        None => Err("Missing eth_blockNumber result".to_owned()),
        Some(text) => match hex_to_u64(text) {
            Some(block) => Ok(block),
            None => Err("Invalid latest block number".to_owned()),
        },
    }
}

/// The time of a block, from the outcome of a call with [`block_payload`]; the error of a
/// call that failed is handed on.
pub fn get_block_timestamp(block: u64, response: Result<Json, String>) -> (r: Result<u64, String>)
    ensures
        crate::text::result_view(r) == block_timestamp(block, call_view(response)),
{
    let reply = match response {
        Ok(reply) => reply,
        Err(error) => {
            return Err(error);
        },
    };
    let number = decimal_text(block);
    match reply.get("result") {
        None => Err(join3("Block ", number.as_str(), " has no result")),
        Some(result) => {
            if result.is_null() {
                return Err(join3("Block ", number.as_str(), " returned null"));
            }
            match result.get_text("timestamp") {
                None => Err(join3("Block ", number.as_str(), " has no timestamp")),
                Some(text) => match hex_to_u64(text) {
                    Some(timestamp) => Ok(timestamp),
                    None => Err(join("Invalid timestamp in block ", number.as_str())),
                },
            }
        },
    }
}

/// A number that is answered as it is asked for, in hexadecimal behind `0x`, is understood.
pub proof fn answered_numbers_are_understood(reply: JsonView, n: u64)
    ensures
        crate::json::text_field(reply, "result"@) == Some(crate::number::hex(n as nat))
            ==> latest_block(Ok(reply)) == Ok::<u64, Seq<char>>(n),
        forall|block: u64, result: JsonView|
            crate::json::field(reply, "result"@) == Some(result) && #[trigger] crate::json::text_field(
                result,
                "timestamp"@,
            ) == Some(crate::number::hex(n as nat)) ==> #[trigger] block_timestamp(block, Ok(reply))
                == Ok::<u64, Seq<char>>(n),
{
    crate::number::hex_text_reads_back(n);
}

/// What a call returns reports no error.
pub proof fn answers_report_no_error(url: Seq<char>, reply: Option<JsonView>)
    ensures
        judge_reply(url, reply) matches Ok(document) ==> reply == Some(document)
            && crate::json::field(document, "error"@) is None,
{
}

/// Any document without a field `error` is the answer to a call, unchanged; one with it is
/// not, whatever else is in either, and its error is told. What is no JSON is no answer.
pub proof fn documents_without_an_error_are_answers(url: Seq<char>, document: JsonView)
    ensures
        ({
            let reported = document matches JsonView::Object(map) && map.dom().contains("error"@);
            &&& judge_reply(url, Some(document)) == Ok::<JsonView, Seq<char>>(document)
                <==> !reported
            &&& document matches JsonView::Object(map) ==> (map.dom().contains("error"@)
                ==> judge_reply(url, Some(document)) == Err::<JsonView, Seq<char>>(
                url + " returned RPC error: "@ + crate::json::json_text(map["error"@]),
            ))
        }),
        judge_reply(url, None) == Err::<JsonView, Seq<char>>(
            url + " returned invalid JSON: "@ + "error decoding response body"@,
        ),
{
}

/// Of a call: a request that fails, a status that is not in the two hundreds, and a body that
/// cannot be read fail the attempt, each with its reason behind the endpoint; a status in the
/// two hundreds leads to the body, and a body with a document that reports no error is the
/// answer.
pub proof fn events_of_a_call_mean_what_they_say(url: Seq<char>, event: Event)
    ensures
        match event {
            Event::RequestFailed(error) => judge_call(url, event) == Judged::<JsonView>::Failure(
                url + " request failed: "@ + error@,
            ),
            Event::Answered(status) => {
                &&& 200 <= status <= 299 ==> judge_call(url, event) == Judged::<JsonView>::ReadBody
                &&& (status < 200 || status > 299) ==> judge_call(url, event) == Judged::<
                    JsonView,
                >::Failure(url + " returned HTTP "@ + status_line(status))
            },
            Event::BodyFailed(error) => judge_call(url, event) == Judged::<JsonView>::Failure(
                url + " returned invalid JSON: "@ + error@,
            ),
            Event::Body(bytes) => match crate::json::json_document(bytes@) {
                None => judge_call(url, event) == Judged::<JsonView>::Failure(
                    url + " returned invalid JSON: "@ + "error decoding response body"@,
                ),
                Some(JsonView::Object(map)) => if map.dom().contains("error"@) {
                    judge_call(url, event) == Judged::<JsonView>::Failure(
                        url + " returned RPC error: "@ + crate::json::json_text(map["error"@]),
                    )
                } else {
                    judge_call(url, event) == Judged::Done(JsonView::Object(map))
                },
                Some(document) => judge_call(url, event) == Judged::Done(document),
            },
        },
{
}

/// Up to the body, an event means the same for every request.
pub proof fn events_before_a_body_mean_what_they_say<T>(url: Seq<char>, event: Event)
    ensures
        match event {
            Event::RequestFailed(error) => judge_before_body::<T>(url, event) == Judged::<
                T,
            >::Failure(url + " request failed: "@ + error@),
            Event::Answered(status) => {
                &&& 200 <= status <= 299 ==> judge_before_body::<T>(url, event) == Judged::<
                    T,
                >::ReadBody
                &&& (status < 200 || status > 299) ==> judge_before_body::<T>(url, event)
                    == Judged::<T>::Failure(url + " returned HTTP "@ + status_line(status))
            },
            Event::BodyFailed(error) => judge_before_body::<T>(url, event) == Judged::<T>::Failure(
                url + " returned invalid JSON: "@ + error@,
            ),
            Event::Body(_) => judge_before_body::<T>(url, event) == Judged::<T>::ReadBody,
        },
{
}

/// What is said of an endpoint begins with the endpoint and ends with the reason.
pub proof fn failures_name_the_endpoint_and_the_reason(url: Seq<char>, reason: Seq<char>)
    ensures
        request_error(url, reason) == url + " request failed: "@ + reason,
        status_error(url, reason) == url + " returned HTTP "@ + reason,
        body_error(url, reason) == url + " returned invalid JSON: "@ + reason,
        reply_error(url, reason) == url + " returned RPC error: "@ + reason,
        forall|status: u16| #[trigger] is_success(status) <==> 200 <= status <= 299,
{
}

/// A request is an object with four fields, no more and no less: the version of the protocol,
/// the method, its parameters, and the id.
pub proof fn requests_have_four_fields(method: Seq<char>, params: Seq<JsonView>, id: u64)
    ensures
        request(method, params, id) matches JsonView::Object(map) && {
            &&& forall|key: Seq<char>| #[trigger]
                map.dom().contains(key) <==> key == "jsonrpc"@ || key == "method"@ || key
                    == "params"@ || key == "id"@
            &&& map["jsonrpc"@] == JsonView::Text("2.0"@)
            &&& map["method"@] == JsonView::Text(method)
            &&& map["params"@] == JsonView::Array(params)
            &&& map["id"@] == JsonView::Number(crate::json::whole_number(id))
        },
{
    reveal_strlit("jsonrpc");
    reveal_strlit("method");
    reveal_strlit("params");
    reveal_strlit("id");
    assert("jsonrpc"@.len() == 7 && "method"@.len() == 6 && "params"@.len() == 6 && "id"@.len()
        == 2);
    assert("method"@[0] != "params"@[0]);
}

/// The request for the latest block calls `eth_blockNumber` without parameters.
pub proof fn the_latest_block_is_asked_for_by_number()
    ensures
        latest_block_request() matches JsonView::Object(map) && {
            &&& forall|key: Seq<char>| #[trigger]
                map.dom().contains(key) <==> key == "jsonrpc"@ || key == "method"@ || key
                    == "params"@ || key == "id"@
            &&& map["jsonrpc"@] == JsonView::Text("2.0"@)
            &&& map["method"@] == JsonView::Text("eth_blockNumber"@)
            &&& map["params"@] == JsonView::Array(Seq::empty())
            &&& map["id"@] == JsonView::Number(crate::json::whole_number(1))
        },
{
    requests_have_four_fields("eth_blockNumber"@, Seq::empty(), 1);
}

/// The request for a block calls `eth_getBlockByNumber` with the number of the block in
/// hexadecimal and whether its transactions are wanted, and has the number as its id.
pub proof fn a_block_is_asked_for_by_its_number(block: u64, full: bool)
    ensures
        block_request(block, full) matches JsonView::Object(map) && {
            &&& forall|key: Seq<char>| #[trigger]
                map.dom().contains(key) <==> key == "jsonrpc"@ || key == "method"@ || key
                    == "params"@ || key == "id"@
            &&& map["jsonrpc"@] == JsonView::Text("2.0"@)
            &&& map["method"@] == JsonView::Text("eth_getBlockByNumber"@)
            &&& map["params"@] == JsonView::Array(
                seq![JsonView::Text(crate::number::hex(block as nat)), JsonView::Bool(full)],
            )
            &&& map["id"@] == JsonView::Number(crate::json::whole_number(block))
        },
{
    requests_have_four_fields(
        "eth_getBlockByNumber"@,
        seq![JsonView::Text(crate::number::hex(block as nat)), JsonView::Bool(full)],
        block,
    );
}

/// The latest block is the number that the text under `result` is in hexadecimal. Without
/// such a text, or where it is no number, there is none, and the error of a call that failed
/// is handed on.
pub proof fn the_latest_block_is_the_number_in_the_result(
    reply: JsonView,
    error: Seq<char>,
    text: Seq<char>,
)
    ensures
        latest_block(Err(error)) == Err::<u64, Seq<char>>(error),
        match reply {
            JsonView::Object(map) => {
                &&& map.dom().contains("result"@) && map["result"@] == JsonView::Text(text) ==> (
                match crate::number::number_or_none(crate::number::without_hex_prefix(text), 16) {
                    Some(n) => latest_block(Ok(reply)) == Ok::<u64, Seq<char>>(n),
                    None => latest_block(Ok(reply)) == Err::<u64, Seq<char>>(
                        "Invalid latest block number"@,
                    ),
                })
                &&& !map.dom().contains("result"@) || !(map["result"@] is Text) ==> latest_block(
                    Ok(reply),
                ) == Err::<u64, Seq<char>>("Missing eth_blockNumber result"@)
            },
            _ => latest_block(Ok(reply)) == Err::<u64, Seq<char>>(
                "Missing eth_blockNumber result"@,
            ),
        },
{
}

/// The time of a block is the number that the text under `timestamp` of its `result` is in
/// hexadecimal. Each way in which that can be missing has its own words, with the number of
/// the block in decimal, and the error of a call that failed is handed on.
pub proof fn the_time_of_a_block_is_its_timestamp(
    block: u64,
    reply: JsonView,
    error: Seq<char>,
    text: Seq<char>,
)
    ensures
        block_timestamp(block, Err(error)) == Err::<u64, Seq<char>>(error),
        ({
            let said = block_timestamp(block, Ok(reply));
            let number = crate::number::decimal(block as nat);
            match reply {
                JsonView::Object(map) => {
                    &&& !map.dom().contains("result"@) ==> said == Err::<u64, Seq<char>>(
                        "Block "@ + number + " has no result"@,
                    )
                    &&& map.dom().contains("result"@) ==> match map["result"@] {
                        JsonView::Null => said == Err::<u64, Seq<char>>(
                            "Block "@ + number + " returned null"@,
                        ),
                        JsonView::Object(inner) => {
                            &&& !inner.dom().contains("timestamp"@) || !(inner["timestamp"@] is Text)
                                ==> said == Err::<u64, Seq<char>>(
                                "Block "@ + number + " has no timestamp"@,
                            )
                            &&& inner.dom().contains("timestamp"@) && inner["timestamp"@]
                                == JsonView::Text(text) ==> (match crate::number::number_or_none(
                                crate::number::without_hex_prefix(text),
                                16,
                            ) {
                                Some(n) => said == Ok::<u64, Seq<char>>(n),
                                None => said == Err::<u64, Seq<char>>(
                                    "Invalid timestamp in block "@ + number,
                                ),
                            })
                        },
                        _ => said == Err::<u64, Seq<char>>("Block "@ + number + " has no timestamp"@),
                    }
                },
                _ => said == Err::<u64, Seq<char>>("Block "@ + number + " has no result"@),
            }
        }),
{
}

/// Between two attempts at an endpoint a call waits 300 milliseconds, and twice as long the
/// second time; no request takes longer than 45 seconds.
pub proof fn a_call_waits_and_is_waited_for(at: crate::attempts::AttemptsView, error: Seq<char>)
    requires
        at.within(1),
    ensures
        RPC_TIMEOUT_SECONDS == 45,
        at.attempt < 3 ==> (crate::attempts::next_attempt(
            at,
            1,
            CALL_PAUSE_MS as int,
            error,
        ).1 matches crate::attempts::NextView::Send { delay_ms, .. } && delay_ms == 300
            * at.attempt),
{
    crate::attempts::an_endpoint_is_tried_three_times(at, 1, CALL_PAUSE_MS as int, error);
}

/// The outcome of a call is taken as it is, and any status of three digits may come.
pub proof fn outcomes_are_taken_as_they_are(json: Json, error: String, status: u16)
    ensures
        call_view(Ok(json)) == Ok::<JsonView, Seq<char>>(json@),
        call_view(Err(error)) == Err::<JsonView, Seq<char>>(error@),
        Event::Answered(status).proper() <==> 100 <= status <= 999,
        Event::RequestFailed(error).proper(),
        Event::BodyFailed(error).proper(),
        forall|bytes: Vec<u8>| #[trigger] Event::Body(bytes).proper(),
{
}

} // verus!
