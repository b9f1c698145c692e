//! Many blocks in one request, and the addresses in the answer.
use std::collections::HashSet;
use vstd::prelude::*;

use crate::attempts::{after_failure, begin, Attempts};
use crate::json::{parse_json, Json, JsonView};
use crate::number::{decimal_text, hex_to_u64};
use crate::rpc::{block_payload, body_failure, check_before_body, Event, Judged, Step};
use crate::text::to_lower;

verus! {

/// The pause after the first failed attempt at an endpoint, in milliseconds.
pub const BATCH_PAUSE_MS: u32 = 500;

/// The address under `key` of a transaction, lowered, as a row of none or one.
pub open spec fn party(transaction: JsonView, key: Seq<char>) -> Seq<Seq<char>> {
    match crate::json::text_field(transaction, key) {
        Some(address) => seq![crate::text::lowered(address)],
        None => Seq::empty(),
    }
}

/// The addresses of transactions: of each its sender, then its receiver.
pub open spec fn transaction_addresses(transactions: Seq<JsonView>) -> Seq<Seq<char>>
    decreases transactions.len(),
{
    if transactions.len() == 0 {
        Seq::empty()
    } else {
        transaction_addresses(transactions.drop_last()) + party(transactions.last(), "from"@)
            + party(transactions.last(), "to"@)
    }
}

/// The block in one item of an answer: none where the item reports an error, and none where
/// its result is missing or null.
pub open spec fn item_block(item: JsonView) -> Option<JsonView> {
    if crate::json::field(item, "error"@) is Some {
        None
    } else {
        match crate::json::field(item, "result"@) {
            Some(JsonView::Null) => None,
            result => result,
        }
    }
}

/// The number of the block in one item.
pub open spec fn item_number(item: JsonView) -> Option<u64> {
    match item_block(item) {
        Some(block) => match crate::json::text_field(block, "number"@) {
            Some(text) => crate::number::number_or_none(
                crate::number::without_hex_prefix(text),
                16,
            ),
            None => None,
        },
        None => None,
    }
}

/// The addresses in the block of one item.
pub open spec fn item_addresses(item: JsonView) -> Seq<Seq<char>> {
    match item_block(item) {
        Some(block) => match crate::json::array_field(block, "transactions"@) {
            Some(transactions) => transaction_addresses(transactions),
            None => Seq::empty(),
        },
        None => Seq::empty(),
    }
}

/// The numbers of the blocks in an answer.
pub open spec fn received(items: Seq<JsonView>) -> Set<u64>
    decreases items.len(),
{
    if items.len() == 0 {
        Set::empty()
    } else {
        match item_number(items.last()) {
            Some(number) => received(items.drop_last()).insert(number),
            None => received(items.drop_last()),
        }
    }
}

/// The addresses in an answer, item by item.
pub open spec fn addresses(items: Seq<JsonView>) -> Seq<Seq<char>>
    decreases items.len(),
{
    if items.len() == 0 {
        Seq::empty()
    } else {
        addresses(items.drop_last()) + item_addresses(items.last())
    }
}

/// What is said of an endpoint that leaves blocks out.
pub open spec fn incomplete_error(url: Seq<char>, received: nat, requested: nat) -> Seq<char> {
    url + " returned only "@ + crate::number::decimal(received) + "/"@ + crate::number::decimal(
        requested,
    ) + " requested blocks"@
}

/// What a document means as the answer to a request for so many blocks: it has to be an
/// array with that many different blocks, and then its addresses count.
pub open spec fn judge_blocks(url: Seq<char>, requested: nat, reply: Option<JsonView>) -> Result<
    Seq<Seq<char>>,
    Seq<char>,
> {
    match reply {
        Some(JsonView::Array(items)) => if received(items).len() == requested {
            Ok(addresses(items))
        } else {
            Err(incomplete_error(url, received(items).len(), requested))
        },
        _ => Err(crate::rpc::body_error(url, "error decoding response body"@)),
    }
}

/// What an event means for a request for so many blocks.
pub open spec fn judge_batch(url: Seq<char>, requested: nat, event: Event) -> Judged<
    Seq<Seq<char>>,
> {
    match event {
        Event::Body(bytes) => match judge_blocks(
            url,
            requested,
            crate::json::json_document(bytes@),
        ) {
            Ok(found) => Judged::Done(found),
            Err(error) => Judged::Failure(error),
        },
        _ => crate::rpc::judge_before_body(url, event),
    }
}

/// The request for several blocks with their transactions.
pub open spec fn batch_request(blocks: Seq<u64>) -> JsonView {
    JsonView::Array(blocks.map_values(|block: u64| crate::rpc::block_request(block, true)))
}

/// The numbers of the blocks in an answer are finitely many, at most one for each item.
pub proof fn received_at_most_one_per_item(items: Seq<JsonView>)
    ensures
        received(items).finite(),
        received(items).len() <= items.len(),
    decreases items.len(),
{
    if items.len() > 0 {
        received_at_most_one_per_item(items.drop_last());
    }
}

/// Adds the address under `key` of a transaction, lowered, if there is one.
fn add_party(transaction: &Json, key: &str, found: &mut Vec<String>)
    ensures
        crate::text::texts(final(found)@) == crate::text::texts(old(found)@) + party(
            transaction@,
            key@,
        ),
{
    let ghost before = found@;
    if let Some(address) = transaction.get_text(key) {
        found.push(to_lower(address));
    }
    assert(crate::text::texts(found@) =~= crate::text::texts(before) + party(transaction@, key@));
}

/// Adds the addresses in the block of one item, and the number of the block.
fn add_item(item: &Json, found: &mut Vec<String>, numbers: &mut HashSet<u64>)
    ensures
        crate::text::texts(final(found)@) == crate::text::texts(old(found)@) + item_addresses(
            item@,
        ),
        final(numbers)@ == match item_number(item@) {
            Some(number) => old(numbers)@.insert(number),
            None => old(numbers)@,
        },
{
    let ghost before = crate::text::texts(found@);
    let ghost none = Seq::<Seq<char>>::empty();
    assert(before + none =~= before);
    if item.get("error").is_some() {
        return ;
    }
    let block = match item.get("result") {
        Some(result) => result,
        None => {
            return ;
        },
    };
    if block.is_null() {
        return ;
    }
    if let Some(text) = block.get_text("number") {
        if let Some(number) = hex_to_u64(text) {
            numbers.insert(number);
        }
    }
    if let Some(transactions) = block.get_array("transactions") {
        let ghost views = crate::json::items_view(transactions@);
        assert(views.take(0) =~= Seq::<JsonView>::empty());
        let mut i: usize = 0;
        while i < transactions.len()
            invariant
                i <= transactions.len(),
                views == crate::json::items_view(transactions@),
                crate::text::texts(found@) == before + transaction_addresses(views.take(i as int)),
            decreases transactions.len() - i,
        {
            let transaction = &transactions[i];
            add_party(transaction, "from", found);
            add_party(transaction, "to", found);
            proof {
                let taken = views.take(i + 1);
                assert(taken.drop_last() =~= views.take(i as int));
                assert(taken.last() == transaction@);
                assert(crate::text::texts(found@) =~= before + transaction_addresses(taken));
            }
            i = i + 1;
        }
        assert(views.take(views.len() as int) =~= views);
    }
}

/// Says what is wrong with a document as the answer to a request for so many blocks, or
/// hands out its addresses.
pub fn check_blocks(url: &str, requested: usize, reply: Option<Json>) -> (r: Result<
    Vec<String>,
    String,
>)
    ensures
        match (
            judge_blocks(url@, requested as nat, crate::json::document_view(reply)),
            r,
        ) {
            (Ok(found), Ok(list)) => crate::text::texts(list@) == found,
            (Err(error), Err(text)) => text@ == error,
            _ => false,
        },
{
    match reply {
        Some(Json::Array(items)) => {
            let ghost views = crate::json::items_view(items@);
            let mut found: Vec<String> = Vec::new();
            let mut numbers: HashSet<u64> = HashSet::new();
            let mut i: usize = 0;
            assert(views.take(0) =~= Seq::<JsonView>::empty());
            assert(crate::text::texts(found@) =~= addresses(views.take(0)));
            while i < items.len()
                invariant
                    i <= items.len(),
                    views == crate::json::items_view(items@),
                    crate::text::texts(found@) == addresses(views.take(i as int)),
                    numbers@ == received(views.take(i as int)),
                decreases items.len() - i,
            {
                add_item(&items[i], &mut found, &mut numbers);
                proof {
                    let taken = views.take(i + 1);
                    assert(taken.drop_last() =~= views.take(i as int));
                    assert(taken.last() == items@[i as int]@);
                }
                i = i + 1;
            }
            assert(views.take(views.len() as int) =~= views);
            if numbers.len() == requested {
                Ok(found)
            } else {
                let mut error = url.to_owned();
                error.append(" returned only ");
                error.append(decimal_text(numbers.len() as u64).as_str());
                error.append("/");
                error.append(decimal_text(requested as u64).as_str());
                error.append(" requested blocks");
                Err(error)
            }
        },
        _ => Err(body_failure(url, "error decoding response body")),
    }
}

/// The request for several blocks with their transactions.
pub fn batch_payload(blocks: &Vec<u64>) -> (json: Json)
    ensures
        json@ == batch_request(blocks@),
{
    let mut requests: Vec<Json> = Vec::new();
    let mut i: usize = 0;
    while i < blocks.len()
        invariant
            i <= blocks.len(),
            requests.len() == i,
            forall|k: int|
                0 <= k < i ==> (#[trigger] requests@[k])@ == crate::rpc::block_request(
                    blocks@[k],
                    true,
                ),
        decreases blocks.len() - i,
    {
        requests.push(block_payload(blocks[i], true));
        i = i + 1;
    }
    assert(crate::json::items_view(requests@) =~= blocks@.map_values(
        |block: u64| crate::rpc::block_request(block, true),
    ));
    Json::Array(requests)
}

/// Starts a request for blocks. For no blocks nothing is asked, and nothing is found.
pub fn begin_batch(endpoints: usize, blocks: &Vec<u64>) -> (r: (Attempts, Step<Vec<String>>))
    ensures
        r.0@ == crate::attempts::first_attempt(endpoints as int, "Batch request failed"@).0,
        if blocks@.len() == 0 {
            r.1 matches Step::Done(found) && found@.len() == 0
        } else {
            r.1 matches Step::Go(next) && next@ == crate::attempts::first_attempt(
                endpoints as int,
                "Batch request failed"@,
            ).1
        },
        forall|urls: Seq<Seq<char>>|
            urls.len() == endpoints ==> #[trigger] crate::request::batch_outcome(
                urls,
                blocks@,
                Seq::empty(),
            ) == crate::request::batch_standing(r.0@, r.1),
{
    let (at, next) = begin(endpoints, "Batch request failed");
    if blocks.len() == 0 {
        let found: Vec<String> = Vec::new();
        assert(crate::text::texts(found@) =~= Seq::<Seq<char>>::empty());
        return (at, Step::Done(found));
    }
    (at, Step::Go(next))
}

/// One turn of a request for blocks: what came back, and what to do about it.
pub fn fetch_rpc_batch_blocks(
    rpc_urls: &Vec<String>,
    blocks: &Vec<u64>,
    at: Attempts,
    event: Event,
) -> (r: (Attempts, Step<Vec<String>>))
    requires
        at@.within(rpc_urls.len() as int),
        event.proper(),
    ensures
        match judge_batch(rpc_urls@[at@.endpoint]@, blocks@.len(), event) {
            Judged::Failure(error) => r.1 matches Step::Go(next) && (r.0@, next@)
                == crate::attempts::next_attempt(
                at@,
                rpc_urls.len() as int,
                BATCH_PAUSE_MS as int,
                error,
            ),
            Judged::ReadBody => r.0@ == at@ && r.1 is ReadBody,
            Judged::Done(found) => r.0@ == at@ && (r.1 matches Step::Done(list)
                && crate::text::texts(list@) == found),
        },
        forall|events: Seq<Event>|
            #![trigger crate::request::batch_outcome(crate::text::texts(rpc_urls@), blocks@, events)]
            crate::request::batch_outcome(crate::text::texts(rpc_urls@), blocks@, events)
                == crate::request::Outcome::<Seq<Seq<char>>>::Trying(at@)
                ==> crate::request::batch_outcome(
                crate::text::texts(rpc_urls@),
                blocks@,
                events.push(event),
            ) == crate::request::batch_standing(r.0@, r.1),
{
    proof {
        crate::request::lemma_batch_goes_on(
            crate::text::texts(rpc_urls@),
            blocks@,
            at@,
            event,
        );
    }
    let url = rpc_urls[at.endpoint()].as_str();
    let error = match event {
        Event::Body(bytes) => match check_blocks(
            url,
            blocks.len(),
            parse_json(bytes.as_slice()),
        ) {
            Ok(found) => {
                return (at, Step::Done(found));
            },
            Err(error) => error,
        },
        _ => match check_before_body(url, &event) {
            Ok(_) => {
                return (at, Step::ReadBody);
            },
            Err(error) => error,
        },
    };
    let (at, next) = after_failure(at, rpc_urls.len(), BATCH_PAUSE_MS, error);
    (at, Step::Go(next))
}

/// Every address of a transaction is in lower case.
proof fn lemma_transactions_lowered(transactions: Seq<JsonView>, i: int)
    requires
        0 <= i < transaction_addresses(transactions).len(),
    ensures
        crate::text::lowered(transaction_addresses(transactions)[i]) == transaction_addresses(
            transactions,
        )[i],
    decreases transactions.len(),
{
    let before = transaction_addresses(transactions.drop_last());
    let last = transactions.last();
    if i < before.len() {
        lemma_transactions_lowered(transactions.drop_last(), i);
    } else {
        if let Some(s) = crate::json::text_field(last, "from"@) {
            crate::text::lowering_is_idempotent(s);
        }
        if let Some(s) = crate::json::text_field(last, "to"@) {
            crate::text::lowering_is_idempotent(s);
        }
    }
}

/// Every address that is found is in lower case.
pub proof fn addresses_are_in_lower_case(items: Seq<JsonView>, i: int)
    requires
        0 <= i < addresses(items).len(),
    ensures
        crate::text::lowered(addresses(items)[i]) == addresses(items)[i],
    decreases items.len(),
{
    let before = addresses(items.drop_last());
    if i < before.len() {
        addresses_are_in_lower_case(items.drop_last(), i);
    } else if let Some(block) = item_block(items.last()) {
        if let Some(transactions) = crate::json::array_field(block, "transactions"@) {
            lemma_transactions_lowered(transactions, i - before.len());
        }
    }
}

/// A number is received exactly if it is that of the block in some item.
pub proof fn received_numbers_are_those_of_the_items(items: Seq<JsonView>, number: u64)
    ensures
        received(items).contains(number) <==> exists|i: int|
            0 <= i < items.len() && #[trigger] item_number(items[i]) == Some(number),
    decreases items.len(),
{
    if items.len() > 0 {
        let before = items.drop_last();
        received_numbers_are_those_of_the_items(before, number);
        if received(items).contains(number) {
            if item_number(items.last()) == Some(number) {
                assert(item_number(items[items.len() - 1]) == Some(number));
            } else {
                let i = choose|i: int|
                    0 <= i < before.len() && #[trigger] item_number(before[i]) == Some(number);
                assert(item_number(items[i]) == Some(number));
            }
        }
        if exists|i: int|
            0 <= i < items.len() && #[trigger] item_number(items[i]) == Some(number) {
            let i = choose|i: int|
                0 <= i < items.len() && #[trigger] item_number(items[i]) == Some(number);
            if i < before.len() {
                assert(item_number(before[i]) == Some(number));
            }
        }
    }
}

/// An answer in which no other blocks than those that were asked for are numbered is accepted
/// exactly if it is complete: every block is the block in some item.
pub proof fn complete_answers_are_accepted(
    url: Seq<char>,
    blocks: Seq<u64>,
    items: Seq<JsonView>,
)
    requires
        blocks.no_duplicates(),
        forall|i: int|
            0 <= i < items.len() ==> (#[trigger] item_number(items[i]) matches Some(number)
                ==> blocks.contains(number)),
    ensures
        judge_blocks(url, blocks.len(), Some(JsonView::Array(items))) is Ok <==> (forall|k: int|
            #![trigger blocks[k]]
            0 <= k < blocks.len() ==> exists|i: int|
                0 <= i < items.len() && #[trigger] item_number(items[i]) == Some(blocks[k])),
{
    let asked = blocks.to_set();
    let got = received(items);
    blocks.unique_seq_to_set();
    received_at_most_one_per_item(items);
    assert(got.subset_of(asked)) by {
        assert forall|number: u64| got.contains(number) implies asked.contains(number) by {
            received_numbers_are_those_of_the_items(items, number);
        }
    }
    if got.len() == blocks.len() {
        vstd::set_lib::lemma_subset_equality(got, asked);
        assert forall|k: int| #![trigger blocks[k]] 0 <= k < blocks.len() implies exists|i: int|
            0 <= i < items.len() && #[trigger] item_number(items[i]) == Some(blocks[k]) by {
            assert(asked.contains(blocks[k]));
            received_numbers_are_those_of_the_items(items, blocks[k]);
        }
    }
    if forall|k: int|
        #![trigger blocks[k]]
        0 <= k < blocks.len() ==> exists|i: int|
            0 <= i < items.len() && #[trigger] item_number(items[i]) == Some(blocks[k]) {
        assert forall|number: u64| asked.contains(number) implies got.contains(number) by {
            let k = choose|k: int| 0 <= k < blocks.len() && blocks[k] == number;
            received_numbers_are_those_of_the_items(items, blocks[k]);
        }
        assert(got =~= asked);
    }
}

/// Whatever blocks are numbered in it, an answer is accepted only if it has at least as many
/// items as blocks were asked for.
pub proof fn accepted_answers_have_an_item_for_each_block(
    url: Seq<char>,
    requested: nat,
    items: Seq<JsonView>,
)
    ensures
        judge_blocks(url, requested, Some(JsonView::Array(items))) is Ok ==> items.len()
            >= requested,
{
    received_at_most_one_per_item(items);
}

/// Items that report an error or hold no block change nothing in what is found.
pub proof fn items_without_a_block_do_not_count(items: Seq<JsonView>, item: JsonView)
    requires
        item_block(item) is None,
    ensures
        addresses(items.push(item)) == addresses(items),
        received(items.push(item)) == received(items),
{
    assert(items.push(item).drop_last() =~= items);
    assert(addresses(items) + Seq::<Seq<char>>::empty() =~= addresses(items));
}

/// Whether `x` is `s` but for the letters A to Z, which are lowered, each where it stands.
pub open spec fn lower_of(x: Seq<char>, s: Seq<char>) -> bool {
    &&& x.len() == s.len()
    &&& forall|i: int|
        0 <= i < s.len() ==> (#[trigger] x[i]) as int == if 65 <= s[i] as int <= 90 {
            s[i] as int + 32
        } else {
            s[i] as int
        }
}

/// The text that a transaction has under `key`, where it is an object that has text there.
pub open spec fn told(transaction: JsonView, key: Seq<char>) -> Option<Seq<char>> {
    match transaction {
        JsonView::Object(map) => if map.dom().contains(key) {
            match map[key] {
                JsonView::Text(s) => Some(s),
                _ => None,
            }
        } else {
            None
        },
        _ => None,
    }
}

/// The transactions in an item: those of the block that is its `result`, where it has no
/// `error`.
pub open spec fn listed(item: JsonView) -> Option<Seq<JsonView>> {
    match item {
        JsonView::Object(map) => if !map.dom().contains("error"@) && map.dom().contains(
            "result"@,
        ) {
            match map["result"@] {
                JsonView::Object(block) => if block.dom().contains("transactions"@) {
                    match block["transactions"@] {
                        JsonView::Array(transactions) => Some(transactions),
                        _ => None,
                    }
                } else {
                    None
                },
                _ => None,
            }
        } else {
            None
        },
        _ => None,
    }
}

/// Whether a transaction has an address, which is `x` when lowered, as its sender or as its
/// receiver.
pub open spec fn names(transaction: JsonView, x: Seq<char>) -> bool {
    ||| told(transaction, "from"@) matches Some(s) && lower_of(x, s)
    ||| told(transaction, "to"@) matches Some(s) && lower_of(x, s)
}

/// Whether some transaction in an item has `x` as its sender or as its receiver.
pub open spec fn item_names(item: JsonView, x: Seq<char>) -> bool {
    listed(item) matches Some(transactions) && exists|k: int|
        0 <= k < transactions.len() && names(#[trigger] transactions[k], x)
}

/// A text is lowered character by character, to one text only.
proof fn lemma_lower_of(x: Seq<char>, s: Seq<char>)
    ensures
        lower_of(x, s) <==> x == crate::text::lowered(s),
{
    crate::text::lowering_goes_character_by_character(s);
    if lower_of(x, s) {
        assert forall|i: int| 0 <= i < s.len() implies x[i] == crate::text::lowered(s)[i] by {
            assert(x[i] as int == crate::text::lowered(s)[i] as int);
        }
        assert(x =~= crate::text::lowered(s));
    }
}

/// One more transaction adds its sender and then its receiver, those of them that are text,
/// lowered and else to the character as they are, and nothing else.
pub proof fn a_transaction_adds_its_sender_and_its_receiver(
    transactions: Seq<JsonView>,
    transaction: JsonView,
)
    ensures
        transaction_addresses(Seq::empty()).len() == 0,
        ({
            let before = transaction_addresses(transactions);
            let after = transaction_addresses(transactions.push(transaction));
            let from = told(transaction, "from"@);
            let to = told(transaction, "to"@);
            let senders: int = if from is Some {
                1
            } else {
                0
            };
            let receivers: int = if to is Some {
                1
            } else {
                0
            };
            &&& after.len() == before.len() + senders + receivers
            &&& after.take(before.len() as int) == before
            &&& from matches Some(s) ==> lower_of(after[before.len() as int], s)
            &&& to matches Some(s) ==> lower_of(after.last(), s)
        }),
{
    let before = transaction_addresses(transactions);
    let after = transaction_addresses(transactions.push(transaction));
    assert(transactions.push(transaction).drop_last() =~= transactions);
    assert(after.take(before.len() as int) =~= before);
    if let Some(s) = told(transaction, "from"@) {
        lemma_lower_of(crate::text::lowered(s), s);
    }
    if let Some(s) = told(transaction, "to"@) {
        lemma_lower_of(crate::text::lowered(s), s);
    }
}

/// One more item adds the addresses of its transactions behind the others; an item without
/// transactions adds none.
pub proof fn an_item_adds_the_addresses_of_its_transactions(items: Seq<JsonView>, item: JsonView)
    ensures
        addresses(Seq::empty()).len() == 0,
        addresses(items.push(item)) == addresses(items) + match listed(item) {
            Some(transactions) => transaction_addresses(transactions),
            None => Seq::empty(),
        },
{
    assert(items.push(item).drop_last() =~= items);
}

/// The addresses of transactions are those that some of them have.
proof fn lemma_transactions_name(transactions: Seq<JsonView>, x: Seq<char>)
    ensures
        transaction_addresses(transactions).contains(x) <==> exists|k: int|
            0 <= k < transactions.len() && names(#[trigger] transactions[k], x),
    decreases transactions.len(),
{
    let all = transaction_addresses(transactions);
    if transactions.len() > 0 {
        let fewer = transactions.drop_last();
        let last = transactions.last();
        lemma_transactions_name(fewer, x);
        let before = transaction_addresses(fewer);
        let from = party(last, "from"@);
        let to = party(last, "to"@);
        if let Some(s) = told(last, "from"@) {
            lemma_lower_of(x, s);
        }
        if let Some(s) = told(last, "to"@) {
            lemma_lower_of(x, s);
        }
        assert(all == before + from + to);
        if all.contains(x) {
            let m = choose|m: int| 0 <= m < all.len() && all[m] == x;
            if m < before.len() {
                assert(before[m] == x);
                let k = choose|k: int| 0 <= k < fewer.len() && names(#[trigger] fewer[k], x);
                assert(names(transactions[k], x));
            } else {
                assert(names(transactions[transactions.len() - 1], x));
            }
        }
        if exists|k: int| 0 <= k < transactions.len() && names(#[trigger] transactions[k], x) {
            let k = choose|k: int|
                0 <= k < transactions.len() && names(#[trigger] transactions[k], x);
            if k < fewer.len() {
                assert(names(fewer[k], x));
                let m = choose|m: int| 0 <= m < before.len() && before[m] == x;
                assert(all[m] == x);
            } else if told(last, "from"@) is Some && from[0] == x {
                assert(all[before.len() as int] == x);
            } else {
                assert(to[0] == x);
                assert(all[all.len() - 1] == x);
            }
        }
    }
}

/// The addresses of an answer are the senders and the receivers of the transactions in it,
/// each to the character but for its letters, which are lowered, and there are no others.
pub proof fn addresses_are_the_senders_and_the_receivers(items: Seq<JsonView>, x: Seq<char>)
    ensures
        addresses(items).contains(x) <==> exists|i: int|
            0 <= i < items.len() && item_names(#[trigger] items[i], x),
    decreases items.len(),
{
    let all = addresses(items);
    if items.len() > 0 {
        let fewer = items.drop_last();
        let last = items.last();
        addresses_are_the_senders_and_the_receivers(fewer, x);
        an_item_adds_the_addresses_of_its_transactions(fewer, last);
        assert(fewer.push(last) =~= items);
        let before = addresses(fewer);
        let own = match listed(last) {
            Some(transactions) => transaction_addresses(transactions),
            None => Seq::empty(),
        };
        if let Some(transactions) = listed(last) {
            lemma_transactions_name(transactions, x);
        }
        assert(item_names(last, x) == own.contains(x));
        assert(all == before + own);
        if all.contains(x) {
            let m = choose|m: int| 0 <= m < all.len() && all[m] == x;
            if m < before.len() {
                assert(before[m] == x);
                let i = choose|i: int| 0 <= i < fewer.len() && item_names(#[trigger] fewer[i], x);
                assert(item_names(items[i], x));
            } else {
                assert(own[m - before.len()] == x);
                assert(item_names(items[items.len() - 1], x));
            }
        }
        if exists|i: int| 0 <= i < items.len() && item_names(#[trigger] items[i], x) {
            let i = choose|i: int| 0 <= i < items.len() && item_names(#[trigger] items[i], x);
            if i < fewer.len() {
                assert(item_names(fewer[i], x));
                let m = choose|m: int| 0 <= m < before.len() && before[m] == x;
                assert(all[m] == x);
            } else {
                let m = choose|m: int| 0 <= m < own.len() && own[m] == x;
                assert(all[before.len() + m] == x);
            }
        }
    }
}

/// The block in an item is what stands under `result`, unless that is null or the item has a
/// field `error`; its number is the text under `number` of it, read in hexadecimal.
pub proof fn the_block_in_an_item_is_its_result(item: JsonView)
    ensures
        match item {
            JsonView::Object(map) => {
                let block = if map.dom().contains("error"@) || !map.dom().contains("result"@)
                    || map["result"@] == JsonView::Null {
                    None
                } else {
                    Some(map["result"@])
                };
                &&& item_block(item) == block
                &&& item_number(item) == match block {
                    Some(JsonView::Object(inner)) => if inner.dom().contains("number"@) {
                        match inner["number"@] {
                            JsonView::Text(text) => crate::number::number_or_none(
                                crate::number::without_hex_prefix(text),
                                16,
                            ),
                            _ => None,
                        }
                    } else {
                        None
                    },
                    _ => None,
                }
            },
            _ => item_block(item) is None && item_number(item) is None,
        },
{
}

/// An array with as many different blocks as were asked for is accepted, and all its addresses
/// count; one with more or fewer is not, and both numbers are told. What is no array is no
/// answer.
pub proof fn answers_are_judged_by_their_blocks(
    url: Seq<char>,
    requested: nat,
    items: Seq<JsonView>,
    other: JsonView,
)
    ensures
        ({
            let judged = judge_blocks(url, requested, Some(JsonView::Array(items)));
            let count = received(items).len();
            &&& count == requested ==> judged == Ok::<Seq<Seq<char>>, Seq<char>>(addresses(items))
            &&& count != requested ==> judged == Err::<Seq<Seq<char>>, Seq<char>>(
                url + " returned only "@ + crate::number::decimal(count) + "/"@
                    + crate::number::decimal(requested) + " requested blocks"@,
            )
        }),
        ({
            let refused = Err::<Seq<Seq<char>>, Seq<char>>(
                url + " returned invalid JSON: "@ + "error decoding response body"@,
            );
            &&& !(other is Array) ==> judge_blocks(url, requested, Some(other)) == refused
            &&& judge_blocks(url, requested, None) == refused
        }),
{
}

/// The request for a batch is an array with one request for each block, in the order of the
/// blocks: `eth_getBlockByNumber` with the number of that block in hexadecimal, its
/// transactions wanted, and the number as the id.
pub proof fn a_batch_asks_for_each_of_its_blocks(blocks: Seq<u64>)
    ensures
        batch_request(blocks) matches JsonView::Array(requests) && {
            &&& requests.len() == blocks.len()
            &&& forall|k: int|
                0 <= k < blocks.len() ==> {
                    &&& #[trigger] requests[k] matches JsonView::Object(map)
                    &&& forall|key: Seq<char>| #[trigger]
                        map.dom().contains(key) <==> key == "jsonrpc"@ || key == "method"@ || key
                            == "params"@ || key == "id"@
                    &&& map["jsonrpc"@] == JsonView::Text("2.0"@)
                    &&& map["method"@] == JsonView::Text("eth_getBlockByNumber"@)
                    &&& map["params"@] == JsonView::Array(
                        seq![
                            JsonView::Text(crate::number::hex(blocks[k] as nat)),
                            JsonView::Bool(true),
                        ],
                    )
                    &&& map["id"@] == JsonView::Number(crate::json::whole_number(blocks[k]))
                }
        },
{
    let requests = batch_request(blocks)->Array_0;
    assert forall|k: int| 0 <= k < blocks.len() implies {
        &&& #[trigger] requests[k] matches JsonView::Object(map)
        &&& forall|key: Seq<char>| #[trigger]
            map.dom().contains(key) <==> key == "jsonrpc"@ || key == "method"@ || key == "params"@
                || key == "id"@
        &&& map["jsonrpc"@] == JsonView::Text("2.0"@)
        &&& map["method"@] == JsonView::Text("eth_getBlockByNumber"@)
        &&& map["params"@] == JsonView::Array(
            seq![JsonView::Text(crate::number::hex(blocks[k] as nat)), JsonView::Bool(true)],
        )
        &&& map["id"@] == JsonView::Number(crate::json::whole_number(blocks[k]))
    } by {
        assert(requests[k] == crate::rpc::block_request(blocks[k], true));
        crate::rpc::a_block_is_asked_for_by_its_number(blocks[k], true);
    }
}

/// Of a request for blocks: up to the body an event means what it means for a call; a body
/// with an array of as many different blocks as were asked for is the answer, and any other
/// body fails the attempt.
pub proof fn events_of_a_batch_mean_what_they_say(url: Seq<char>, requested: nat, event: Event)
    ensures
        match event {
            Event::Body(bytes) => match crate::json::json_document(bytes@) {
                Some(JsonView::Array(items)) => if received(items).len() == requested {
                    judge_batch(url, requested, event) == Judged::Done(addresses(items))
                } else {
                    judge_batch(url, requested, event) == Judged::<Seq<Seq<char>>>::Failure(
                        url + " returned only "@ + crate::number::decimal(received(items).len())
                            + "/"@ + crate::number::decimal(requested) + " requested blocks"@,
                    )
                },
                _ => judge_batch(url, requested, event) == Judged::<Seq<Seq<char>>>::Failure(
                    url + " returned invalid JSON: "@ + "error decoding response body"@,
                ),
            },
            Event::RequestFailed(error) => judge_batch(url, requested, event) == Judged::<
                Seq<Seq<char>>,
            >::Failure(url + " request failed: "@ + error@),
            Event::Answered(status) => {
                &&& 200 <= status <= 299 ==> judge_batch(url, requested, event) == Judged::<
                    Seq<Seq<char>>,
                >::ReadBody
                &&& (status < 200 || status > 299) ==> judge_batch(url, requested, event)
                    == Judged::<Seq<Seq<char>>>::Failure(
                    url + " returned HTTP "@ + crate::rpc::status_line(status),
                )
            },
            Event::BodyFailed(error) => judge_batch(url, requested, event) == Judged::<
                Seq<Seq<char>>,
            >::Failure(url + " returned invalid JSON: "@ + error@),
        },
{
}

/// Between two attempts at an endpoint a request for blocks waits 500 milliseconds, and twice
/// as long the second time.
pub proof fn a_batch_waits(at: crate::attempts::AttemptsView, error: Seq<char>)
    requires
        at.within(1),
    ensures
        at.attempt < 3 ==> (crate::attempts::next_attempt(
            at,
            1,
            BATCH_PAUSE_MS as int,
            error,
        ).1 matches crate::attempts::NextView::Send { delay_ms, .. } && delay_ms == 500
            * at.attempt),
{
    crate::attempts::an_endpoint_is_tried_three_times(at, 1, BATCH_PAUSE_MS as int, error);
}

} // verus!
