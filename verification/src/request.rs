//! A whole request: what comes of it when the network answers with a row of events.
use vstd::prelude::*;

use crate::attempts::{AttemptsView, Next, NextView, MAX_RPC_RETRIES};
use crate::json::{Json, JsonView};
use crate::rpc::{Event, Judged, Step};

verus! {

/// Where a request stands.
pub enum Outcome<T> {
    /// It is being tried.
    Trying(AttemptsView),
    /// It has its answer.
    Answered(T),
    /// It is given up, with this error.
    GivenUp(Seq<char>),
}

/// Where a request stands at first.
pub open spec fn begun<T>(endpoints: int, first_error: Seq<char>) -> Outcome<T> {
    match crate::attempts::first_attempt(endpoints, first_error) {
        (at, NextView::Send { .. }) => Outcome::Trying(at),
        (_, NextView::GiveUp { error, .. }) => Outcome::GivenUp(error),
    }
}

/// Where a request stands with what is to be done next.
pub open spec fn standing<T>(at: AttemptsView, next: Next) -> Outcome<T> {
    match next {
        Next::Send { .. } => Outcome::Trying(at),
        Next::GiveUp { error, .. } => Outcome::GivenUp(error@),
    }
}

/// Where a call stands with what is to be done next.
pub open spec fn call_standing(at: AttemptsView, step: Step<Json>) -> Outcome<JsonView> {
    match step {
        Step::Go(next) => standing(at, next),
        Step::ReadBody => Outcome::Trying(at),
        Step::Done(document) => Outcome::Answered(document@),
    }
}

/// Where a request for blocks stands with what is to be done next.
pub open spec fn batch_standing(at: AttemptsView, step: Step<Vec<String>>) -> Outcome<
    Seq<Seq<char>>,
> {
    match step {
        Step::Go(next) => standing(at, next),
        Step::ReadBody => Outcome::Trying(at),
        Step::Done(found) => Outcome::Answered(crate::text::texts(found@)),
    }
}

/// Where a request stands after one more event, of which it is known what it means.
pub open spec fn turned<T>(
    at: AttemptsView,
    endpoints: int,
    pause_ms: int,
    judged: Judged<T>,
) -> Outcome<T> {
    match judged {
        Judged::Done(value) => Outcome::Answered(value),
        Judged::ReadBody => Outcome::Trying(at),
        Judged::Failure(error) => match crate::attempts::next_attempt(
            at,
            endpoints,
            pause_ms,
            error,
        ) {
            (next, NextView::Send { .. }) => Outcome::Trying(next),
            (_, NextView::GiveUp { error, .. }) => Outcome::GivenUp(error),
        },
    }
}

/// Where a request stands after a row of events, turn by turn. `judge` says what an event
/// means that comes from an endpoint; what comes after the end does not count.
pub open spec fn after_events<T>(
    urls: Seq<Seq<char>>,
    pause_ms: int,
    first_error: Seq<char>,
    judge: spec_fn(Seq<char>, Event) -> Judged<T>,
    events: Seq<Event>,
) -> Outcome<T>
    decreases events.len(),
{
    if events.len() == 0 {
        begun(urls.len() as int, first_error)
    } else {
        match after_events(urls, pause_ms, first_error, judge, events.drop_last()) {
            Outcome::Trying(at) => turned(
                at,
                urls.len() as int,
                pause_ms,
                judge(urls[at.endpoint], events.last()),
            ),
            ended => ended,
        }
    }
}

/// Whether an event is the begin of an answer with a status of success.
pub open spec fn promises(event: Event) -> bool {
    event matches Event::Answered(status) && crate::rpc::is_success(status)
}

/// Whether an event ends an attempt without an answer.
pub open spec fn fails<T>(answer: spec_fn(Event) -> Option<T>, event: Event) -> bool {
    answer(event) is None && !promises(event)
}

/// How many events of a row end an attempt without an answer.
pub open spec fn failures<T>(answer: spec_fn(Event) -> Option<T>, events: Seq<Event>) -> nat
    decreases events.len(),
{
    if events.len() == 0 {
        0
    } else {
        failures(answer, events.drop_last()) + if fails(answer, events.last()) {
            1nat
        } else {
            0nat
        }
    }
}

/// Whether there is no acceptable answer in a row of events.
pub open spec fn unanswered<T>(answer: spec_fn(Event) -> Option<T>, events: Seq<Event>) -> bool {
    forall|i: int| 0 <= i < events.len() ==> answer(#[trigger] events[i]) is None
}

/// Whether `judge` takes as done exactly the events with an answer, and as failures those
/// that end an attempt without one, whichever endpoint they come from.
pub open spec fn accepts<T>(
    judge: spec_fn(Seq<char>, Event) -> Judged<T>,
    answer: spec_fn(Event) -> Option<T>,
) -> bool {
    forall|url: Seq<char>, event: Event|
        match answer(event) {
            Some(value) => #[trigger] judge(url, event) == Judged::Done(value),
            None => if promises(event) {
                judge(url, event) == Judged::<T>::ReadBody
            } else {
                judge(url, event) is Failure
            },
        }
}

/// What comes of a request, in terms of the row as a whole. With `answer` for the answer that
/// an event brings, if it is acceptable:
/// - without an endpoint, the request is given up at once;
/// - while nothing acceptable has come and attempts are left, it is tried at the endpoint
///   that the number of failures gives;
/// - the first acceptable answer is what comes of it;
/// - where the last attempt at the last endpoint fails before that, its error is.
pub open spec fn follows<T>(
    urls: Seq<Seq<char>>,
    first_error: Seq<char>,
    judge: spec_fn(Seq<char>, Event) -> Judged<T>,
    answer: spec_fn(Event) -> Option<T>,
    events: Seq<Event>,
    i: int,
    outcome: Outcome<T>,
) -> bool {
    let allowed = urls.len() * MAX_RPC_RETRIES;
    let earlier = failures(answer, events.take(i));
    &&& urls.len() == 0 ==> outcome == Outcome::<T>::GivenUp(first_error)
    &&& unanswered(answer, events) && failures(answer, events) < allowed ==> {
        &&& outcome matches Outcome::Trying(at)
        &&& at.endpoint == failures(answer, events) as int / MAX_RPC_RETRIES as int
        &&& at.attempt == failures(answer, events) as int % MAX_RPC_RETRIES as int + 1
    }
    &&& 0 <= i < events.len() && unanswered(answer, events.take(i)) && earlier < allowed ==> (
    answer(events[i]) matches Some(value) ==> outcome == Outcome::Answered(value))
    &&& 0 <= i < events.len() && unanswered(answer, events.take(i)) && earlier + 1 == allowed
        && fails(answer, events[i]) ==> (judge(urls.last(), events[i]) matches Judged::Failure(
        error,
    ) && outcome == Outcome::<T>::GivenUp(error))
}

/// While nothing acceptable has come and attempts are left, the number of failures gives the
/// endpoint and the attempt.
proof fn lemma_trying<T>(
    urls: Seq<Seq<char>>,
    pause_ms: int,
    first_error: Seq<char>,
    judge: spec_fn(Seq<char>, Event) -> Judged<T>,
    answer: spec_fn(Event) -> Option<T>,
    events: Seq<Event>,
)
    requires
        accepts(judge, answer),
        unanswered(answer, events),
        failures(answer, events) < urls.len() * MAX_RPC_RETRIES,
    ensures
        after_events(urls, pause_ms, first_error, judge, events) matches Outcome::Trying(at)
            && at.endpoint == failures(answer, events) as int / MAX_RPC_RETRIES as int
            && at.attempt == failures(answer, events) as int % MAX_RPC_RETRIES as int + 1,
    decreases events.len(),
{
    if events.len() > 0 {
        let before = events.drop_last();
        assert(unanswered(answer, before)) by {
            assert forall|i: int| 0 <= i < before.len() implies answer(#[trigger] before[i]) is None by {
                assert(before[i] == events[i]);
            }
        }
        lemma_trying(urls, pause_ms, first_error, judge, answer, before);
        let at = after_events(urls, pause_ms, first_error, judge, before)->Trying_0;
        assert(answer(events[events.len() - 1]) is None);
        let judged = judge(urls[at.endpoint], events.last());
    }
}

/// What comes after the end does not count.
proof fn lemma_ended<T>(
    urls: Seq<Seq<char>>,
    pause_ms: int,
    first_error: Seq<char>,
    judge: spec_fn(Seq<char>, Event) -> Judged<T>,
    events: Seq<Event>,
    n: int,
)
    requires
        0 <= n <= events.len(),
        !(after_events(urls, pause_ms, first_error, judge, events.take(n)) is Trying),
    ensures
        after_events(urls, pause_ms, first_error, judge, events) == after_events(
            urls,
            pause_ms,
            first_error,
            judge,
            events.take(n),
        ),
    decreases events.len(),
{
    if n == events.len() {
        assert(events.take(n) =~= events);
    } else {
        assert(events.drop_last().take(n) =~= events.take(n));
        lemma_ended(urls, pause_ms, first_error, judge, events.drop_last(), n);
    }
}

/// Any request that is judged in this way ends as [`follows`] says.
proof fn lemma_follows<T>(
    urls: Seq<Seq<char>>,
    pause_ms: int,
    first_error: Seq<char>,
    judge: spec_fn(Seq<char>, Event) -> Judged<T>,
    answer: spec_fn(Event) -> Option<T>,
    events: Seq<Event>,
    i: int,
)
    requires
        accepts(judge, answer),
    ensures
        follows(
            urls,
            first_error,
            judge,
            answer,
            events,
            i,
            after_events(urls, pause_ms, first_error, judge, events),
        ),
{
    let allowed = urls.len() * MAX_RPC_RETRIES;
    if urls.len() == 0 {
        assert(events.take(0).len() == 0);
        lemma_ended(urls, pause_ms, first_error, judge, events, 0);
    }
    if unanswered(answer, events) && failures(answer, events) < allowed {
        lemma_trying(urls, pause_ms, first_error, judge, answer, events);
    }
    if 0 <= i < events.len() && unanswered(answer, events.take(i)) && failures(
        answer,
        events.take(i),
    ) < allowed {
        lemma_trying(urls, pause_ms, first_error, judge, answer, events.take(i));
        let taken = events.take(i + 1);
        assert(taken.drop_last() =~= events.take(i));
        let at = after_events(urls, pause_ms, first_error, judge, events.take(i))->Trying_0;
        let judged = judge(urls[at.endpoint], taken.last());
        if answer(events[i]) is Some || (failures(answer, events.take(i)) + 1 == allowed && fails(
            answer,
            events[i],
        )) {
            lemma_ended(urls, pause_ms, first_error, judge, events, i + 1);
        }
    }
}

/// The document that an event brings as the answer to a call: a body that is JSON and
/// reports no error.
pub open spec fn call_answer(event: Event) -> Option<JsonView> {
    match event {
        Event::Body(bytes) => match crate::json::json_document(bytes@) {
            Some(document) => if crate::json::field(document, "error"@) is None {
                Some(document)
            } else {
                None
            },
            None => None,
        },
        _ => None,
    }
}

/// The addresses that an event brings as the answer to a request for so many blocks: those of
/// a body that is an array with that many different blocks.
pub open spec fn batch_answer(requested: nat, event: Event) -> Option<Seq<Seq<char>>> {
    match event {
        Event::Body(bytes) => match crate::json::json_document(bytes@) {
            Some(JsonView::Array(items)) => if crate::batch::received(items).len() == requested {
                Some(crate::batch::addresses(items))
            } else {
                None
            },
            _ => None,
        },
        _ => None,
    }
}

/// Where a call stands after a row of events.
pub open spec fn call_outcome(urls: Seq<Seq<char>>, events: Seq<Event>) -> Outcome<JsonView> {
    after_events(
        urls,
        crate::rpc::CALL_PAUSE_MS as int,
        "Unknown RPC error"@,
        |url: Seq<char>, event: Event| crate::rpc::judge_call(url, event),
        events,
    )
}

/// Where a request for blocks stands after a row of events. For no blocks nothing is asked.
pub open spec fn batch_outcome(
    urls: Seq<Seq<char>>,
    blocks: Seq<u64>,
    events: Seq<Event>,
) -> Outcome<Seq<Seq<char>>> {
    if blocks.len() == 0 {
        Outcome::Answered(Seq::empty())
    } else {
        after_events(
            urls,
            crate::batch::BATCH_PAUSE_MS as int,
            "Batch request failed"@,
            |url: Seq<char>, event: Event| crate::batch::judge_batch(url, blocks.len(), event),
            events,
        )
    }
}

/// A turn of a call leads from where it stands to where it stands after one more event.
pub(crate) proof fn lemma_call_goes_on(urls: Seq<Seq<char>>, at: AttemptsView, event: Event)
    ensures
        forall|events: Seq<Event>|
            #![trigger call_outcome(urls, events)]
            call_outcome(urls, events) == Outcome::<JsonView>::Trying(at) ==> call_outcome(
                urls,
                events.push(event),
            ) == turned(
                at,
                urls.len() as int,
                crate::rpc::CALL_PAUSE_MS as int,
                crate::rpc::judge_call(urls[at.endpoint], event),
            ),
{
    assert forall|events: Seq<Event>|
        #![trigger call_outcome(urls, events)]
        call_outcome(urls, events) == Outcome::<JsonView>::Trying(at) implies call_outcome(
        urls,
        events.push(event),
    ) == turned(
        at,
        urls.len() as int,
        crate::rpc::CALL_PAUSE_MS as int,
        crate::rpc::judge_call(urls[at.endpoint], event),
    ) by {
        assert(events.push(event).drop_last() =~= events);
    }
}

/// A turn of a request for blocks leads from where it stands to where it stands after one
/// more event.
pub(crate) proof fn lemma_batch_goes_on(
    urls: Seq<Seq<char>>,
    blocks: Seq<u64>,
    at: AttemptsView,
    event: Event,
)
    ensures
        forall|events: Seq<Event>|
            #![trigger batch_outcome(urls, blocks, events)]
            batch_outcome(urls, blocks, events) == Outcome::<Seq<Seq<char>>>::Trying(at)
                ==> batch_outcome(urls, blocks, events.push(event)) == turned(
                at,
                urls.len() as int,
                crate::batch::BATCH_PAUSE_MS as int,
                crate::batch::judge_batch(urls[at.endpoint], blocks.len(), event),
            ),
{
    assert forall|events: Seq<Event>|
        #![trigger batch_outcome(urls, blocks, events)]
        batch_outcome(urls, blocks, events) == Outcome::<Seq<Seq<char>>>::Trying(at) implies
        batch_outcome(urls, blocks, events.push(event)) == turned(
        at,
        urls.len() as int,
        crate::batch::BATCH_PAUSE_MS as int,
        crate::batch::judge_batch(urls[at.endpoint], blocks.len(), event),
    ) by {
        assert(events.push(event).drop_last() =~= events);
    }
}

/// What comes of a call is its first acceptable answer, or the error of the last attempt where
/// every attempt at every endpoint has failed before; see [`follows`].
pub proof fn call_ends_with_the_first_answer_or_the_last_error(
    urls: Seq<Seq<char>>,
    events: Seq<Event>,
    i: int,
)
    ensures
        follows(
            urls,
            "Unknown RPC error"@,
            |url: Seq<char>, event: Event| crate::rpc::judge_call(url, event),
            |event: Event| call_answer(event),
            events,
            i,
            call_outcome(urls, events),
        ),
{
    lemma_follows(
        urls,
        crate::rpc::CALL_PAUSE_MS as int,
        "Unknown RPC error"@,
        |url: Seq<char>, event: Event| crate::rpc::judge_call(url, event),
        |event: Event| call_answer(event),
        events,
        i,
    );
}

/// What comes of a request for blocks is its first acceptable answer, or the error of the last
/// attempt where every attempt at every endpoint has failed before; see [`follows`].
pub proof fn batch_ends_with_the_first_answer_or_the_last_error(
    urls: Seq<Seq<char>>,
    blocks: Seq<u64>,
    events: Seq<Event>,
    i: int,
)
    requires
        blocks.len() > 0,
    ensures
        follows(
            urls,
            "Batch request failed"@,
            |url: Seq<char>, event: Event| crate::batch::judge_batch(url, blocks.len(), event),
            |event: Event| batch_answer(blocks.len(), event),
            events,
            i,
            batch_outcome(urls, blocks, events),
        ),
{
    lemma_follows(
        urls,
        crate::batch::BATCH_PAUSE_MS as int,
        "Batch request failed"@,
        |url: Seq<char>, event: Event| crate::batch::judge_batch(url, blocks.len(), event),
        |event: Event| batch_answer(blocks.len(), event),
        events,
        i,
    );
}

/// An event brings the answer to a call exactly if it is a body with a document that has no
/// field `error`, and the answer is that document.
pub proof fn any_document_without_an_error_answers_a_call(event: Event)
    ensures
        match event {
            Event::Body(bytes) => match crate::json::json_document(bytes@) {
                Some(JsonView::Object(map)) => call_answer(event) == if map.dom().contains(
                    "error"@,
                ) {
                    None
                } else {
                    Some(JsonView::Object(map))
                },
                document => call_answer(event) == document,
            },
            _ => call_answer(event) is None,
        },
{
}

/// An event brings the answer to a request for blocks exactly if it is a body with an array of
/// as many different blocks as were asked for, and the answer is the addresses in it.
pub proof fn enough_blocks_answer_a_batch(requested: nat, event: Event)
    ensures
        match event {
            Event::Body(bytes) => match crate::json::json_document(bytes@) {
                Some(JsonView::Array(items)) => batch_answer(requested, event) == if
                crate::batch::received(items).len() == requested {
                    Some(crate::batch::addresses(items))
                } else {
                    None
                },
                _ => batch_answer(requested, event) is None,
            },
            _ => batch_answer(requested, event) is None,
        },
{
}

/// A body with a document that reports no error ends a call that is being tried, whichever
/// endpoint and attempt it is, and the document is its answer, unchanged; nothing that comes
/// later changes that.
pub proof fn a_document_without_an_error_ends_a_call(
    urls: Seq<Seq<char>>,
    before: Seq<Event>,
    body: Event,
    after: Seq<Event>,
    document: JsonView,
)
    requires
        call_outcome(urls, before) is Trying,
        body matches Event::Body(bytes) && crate::json::json_document(bytes@) == Some(document),
        document matches JsonView::Object(map) ==> !map.dom().contains("error"@),
    ensures
        call_outcome(urls, before.push(body) + after) == Outcome::Answered(document),
{
    let events = before.push(body) + after;
    assert(before.push(body).drop_last() =~= before);
    assert(events.take((before.len() + 1) as int) =~= before.push(body));
    lemma_ended(
        urls,
        crate::rpc::CALL_PAUSE_MS as int,
        "Unknown RPC error"@,
        |url: Seq<char>, event: Event| crate::rpc::judge_call(url, event),
        events,
        (before.len() + 1) as int,
    );
}

/// For no blocks nothing is asked, and nothing is found.
pub proof fn no_blocks_need_no_answer(urls: Seq<Seq<char>>, events: Seq<Event>)
    ensures
        batch_outcome(urls, Seq::empty(), events) == Outcome::Answered(Seq::<Seq<char>>::empty()),
{
}

/// A request is being tried as long as there is something to send or a body to read; a call
/// that is done has its document, and a request for blocks its addresses.
pub proof fn where_a_request_stands_is_taken_as_it_is(
    at: AttemptsView,
    endpoint: usize,
    delay_ms: u64,
    abandoned: Option<usize>,
    error: String,
    document: Json,
    found: Vec<String>,
)
    ensures
        ({
            let send = Next::Send { endpoint, delay_ms, abandoned };
            let give_up = Next::GiveUp { error, abandoned };
            &&& standing::<JsonView>(at, send) == Outcome::<JsonView>::Trying(at)
            &&& standing::<JsonView>(at, give_up) == Outcome::<JsonView>::GivenUp(error@)
            &&& call_standing(at, Step::Go(send)) == Outcome::<JsonView>::Trying(at)
            &&& call_standing(at, Step::Go(give_up)) == Outcome::<JsonView>::GivenUp(error@)
            &&& call_standing(at, Step::ReadBody) == Outcome::<JsonView>::Trying(at)
            &&& call_standing(at, Step::Done(document)) == Outcome::Answered(document@)
            &&& batch_standing(at, Step::Go(send)) == Outcome::<Seq<Seq<char>>>::Trying(at)
            &&& batch_standing(at, Step::Go(give_up)) == Outcome::<Seq<Seq<char>>>::GivenUp(error@)
            &&& batch_standing(at, Step::ReadBody) == Outcome::<Seq<Seq<char>>>::Trying(at)
            &&& batch_standing(at, Step::Done(found)) == Outcome::Answered(
                crate::text::texts(found@),
            )
        }),
{
}

} // verus!
