//! The blocks between two times: which ones they are, and which questions lead to them.
use vstd::arithmetic::power2::{lemma2_to64_rest, pow2};
use vstd::prelude::*;

use crate::number::decimal_text;
use crate::search::{find_first_block_at_or_after, BlockSearch, SearchStep};
use crate::text::join;

verus! {

/// The time to look for in order to find the end of a range of blocks: none where the range
/// takes in the latest block, else the first time that lies outside.
pub open spec fn end_target_of(end_ts: u64, latest_timestamp: u64) -> Option<u64> {
    if end_ts >= latest_timestamp {
        None
    } else {
        Some((end_ts + 1) as u64)
    }
}

/// The last block of a range, given the first block after it.
pub open spec fn last_block_of(first_after_end: u64) -> u64 {
    if first_after_end > 0 {
        (first_after_end - 1) as u64
    } else {
        0
    }
}

/// The first block of the range that starts at `start_ts`.
pub open spec fn start_block_of(start_ts: u64, latest: u64, time: spec_fn(u64) -> u64) -> u64 {
    crate::search::found(BlockSearch { target: start_ts, low: 0, high: latest }, time)
}

/// The last block of the range that ends at `end_ts`.
pub open spec fn end_block_of(
    end_ts: u64,
    start_block: u64,
    latest: u64,
    time: spec_fn(u64) -> u64,
) -> u64 {
    match end_target_of(end_ts, time(latest)) {
        Some(target) => last_block_of(
            crate::search::found(BlockSearch { target, low: start_block, high: latest }, time),
        ),
        None => latest,
    }
}

/// The blocks between two times, with the times of the first and the last of them.
#[derive(Clone, Copy, Debug, PartialEq, Eq, Structural)]
pub struct BlockRange {
    pub start: u64,
    pub start_time: u64,
    pub end: u64,
    pub end_time: u64,
}

impl BlockRange {
    /// Whether there are no blocks between the times.
    pub fn is_empty(&self) -> (empty: bool)
        ensures
            empty == (self.start > self.end),
    {
        self.start > self.end
    }
}

/// What is said of a range that starts after the latest block.
pub open spec fn future_error(latest_time: u64) -> Seq<char> {
    "Requested start date is in the future. Latest chain timestamp: "@ + crate::number::decimal(
        latest_time as nat,
    )
}

/// The range between two times, where `time` gives the times of the blocks up to the latest.
pub open spec fn range_of(
    start_ts: u64,
    end_ts: u64,
    latest: u64,
    time: spec_fn(u64) -> u64,
) -> Result<BlockRange, Seq<char>> {
    if start_ts > time(latest) {
        Err(future_error(time(latest)))
    } else {
        let start = start_block_of(start_ts, latest, time);
        let end = end_block_of(end_ts, start, latest, time);
        Ok(BlockRange { start, start_time: time(start), end, end_time: time(end) })
    }
}

/// A search that begins.
#[derive(Clone, Copy, Debug, PartialEq, Eq, Structural)]
pub enum Begins {
    /// The search for the first block.
    Start,
    /// The search for the first block behind the last one.
    End,
}

/// How far the finding of a range has come, by the question that is open.
#[derive(Clone, Copy, Debug, PartialEq, Eq, Structural)]
pub enum Stage {
    /// Which block is the latest?
    LatestBlock,
    /// What is its time?
    LatestTime { latest: u64 },
    /// What is the time of the block in the middle, on the way to the first block?
    SearchStart { latest: u64, latest_time: u64, search: BlockSearch },
    /// What is the time of the first block?
    StartTime { latest: u64, latest_time: u64, start: u64 },
    /// What is the time of the block in the middle, on the way to the last block?
    SearchEnd { start: u64, start_time: u64, search: BlockSearch },
    /// What is the time of the last block?
    EndTime { start: u64, start_time: u64, end: u64 },
    /// No question is open.
    Finished,
}

/// The finding of the range between two times.
#[derive(Debug)]
pub struct RangeFinder {
    start_ts: u64,
    end_ts: u64,
    stage: Stage,
}

/// [`RangeFinder`] as mathematics.
pub struct RangeFinderView {
    pub start_ts: u64,
    pub end_ts: u64,
    pub stage: Stage,
}

impl View for RangeFinder {
    type V = RangeFinderView;

    closed spec fn view(&self) -> RangeFinderView {
        RangeFinderView { start_ts: self.start_ts, end_ts: self.end_ts, stage: self.stage }
    }
}

/// What the finding of a range wants or has found.
pub enum RangeStep {
    /// The number of the latest block.
    AskLatestBlock,
    /// The time of a block; a search may begin with the question.
    AskTime { block: u64, begins: Option<Begins> },
    /// The range is found.
    Found(BlockRange),
    /// There is no range.
    Fail(String),
}

/// [`RangeStep`] as mathematics.
pub enum RangeStepView {
    AskLatestBlock,
    AskTime { block: u64, begins: Option<Begins> },
    Found(BlockRange),
    Fail(Seq<char>),
}

impl View for RangeStep {
    type V = RangeStepView;

    open spec fn view(&self) -> RangeStepView {
        match self {
            RangeStep::AskLatestBlock => RangeStepView::AskLatestBlock,
            RangeStep::AskTime { block, begins } => RangeStepView::AskTime {
                block: *block,
                begins: *begins,
            },
            RangeStep::Found(range) => RangeStepView::Found(*range),
            RangeStep::Fail(text) => RangeStepView::Fail(text@),
        }
    }
}

impl RangeFinderView {
    /// Whether a search that is under way is open.
    pub open spec fn well_formed(self) -> bool {
        match self.stage {
            Stage::SearchStart { search, .. } => search.is_open(),
            Stage::SearchEnd { search, .. } => search.is_open(),
            _ => true,
        }
    }

    /// The finder at another stage, where the time of a block is wanted.
    pub open spec fn asks(self, stage: Stage, block: u64, begins: Option<Begins>) -> (
        RangeFinderView,
        RangeStepView,
    ) {
        (RangeFinderView { stage, ..self }, RangeStepView::AskTime { block, begins })
    }

    /// On the way to the first block: the search goes on, or its block's time is wanted.
    pub open spec fn seeks_start(
        self,
        latest: u64,
        latest_time: u64,
        search: BlockSearch,
        begins: Option<Begins>,
    ) -> (RangeFinderView, RangeStepView) {
        match search.step() {
            SearchStep::Ask(block) => self.asks(
                Stage::SearchStart { latest, latest_time, search },
                block,
                begins,
            ),
            SearchStep::Found(start) => self.asks(
                Stage::StartTime { latest, latest_time, start },
                start,
                begins,
            ),
        }
    }

    /// On the way to the last block: the search goes on, or its block's time is wanted.
    pub open spec fn seeks_end(
        self,
        start: u64,
        start_time: u64,
        search: BlockSearch,
        begins: Option<Begins>,
    ) -> (RangeFinderView, RangeStepView) {
        match search.step() {
            SearchStep::Ask(block) => self.asks(
                Stage::SearchEnd { start, start_time, search },
                block,
                begins,
            ),
            SearchStep::Found(after) => self.asks(
                Stage::EndTime { start, start_time, end: last_block_of(after) },
                last_block_of(after),
                begins,
            ),
        }
    }

    /// What it leads to that a question could not be answered.
    pub open spec fn failed(self, error: Seq<char>) -> (RangeFinderView, RangeStepView) {
        (RangeFinderView { stage: Stage::Finished, ..self }, RangeStepView::Fail(error))
    }

    /// What an answer to the open question leads to.
    pub open spec fn answered(self, answer: u64) -> (RangeFinderView, RangeStepView) {
        match self.stage {
            Stage::LatestBlock => self.asks(Stage::LatestTime { latest: answer }, answer, None),
            Stage::LatestTime { latest } => if self.start_ts > answer {
                self.failed(future_error(answer))
            } else {
                self.seeks_start(
                    latest,
                    answer,
                    BlockSearch { target: self.start_ts, low: 0, high: latest },
                    Some(Begins::Start),
                )
            },
            Stage::SearchStart { latest, latest_time, search } => self.seeks_start(
                latest,
                latest_time,
                search.narrowed(answer),
                None,
            ),
            Stage::StartTime { latest, latest_time, start } => match end_target_of(
                self.end_ts,
                latest_time,
            ) {
                None => self.asks(
                    Stage::EndTime { start, start_time: answer, end: latest },
                    latest,
                    None,
                ),
                Some(target) => self.seeks_end(
                    start,
                    answer,
                    BlockSearch { target, low: start, high: latest },
                    Some(Begins::End),
                ),
            },
            Stage::SearchEnd { start, start_time, search } => self.seeks_end(
                start,
                start_time,
                search.narrowed(answer),
                None,
            ),
            Stage::EndTime { start, start_time, end } => (
                RangeFinderView { stage: Stage::Finished, ..self },
                RangeStepView::Found(BlockRange { start, start_time, end, end_time: answer }),
            ),
            Stage::Finished => (self, RangeStepView::AskLatestBlock),
        }
    }
}

impl RangeFinder {
    /// A finder is always well formed.
    #[verifier::type_invariant]
    closed spec fn invariant_holds(self) -> bool {
        self@.well_formed()
    }

    /// Starts the finding of the range between two times.
    pub fn begin(start_ts: u64, end_ts: u64) -> (r: (RangeFinder, RangeStep))
        ensures
            r.0@ == (RangeFinderView { start_ts, end_ts, stage: Stage::LatestBlock }),
            r.1 is AskLatestBlock,
    {
        (
            RangeFinder { start_ts, end_ts, stage: Stage::LatestBlock },
            RangeStep::AskLatestBlock,
        )
    }

    /// Asks for the time of a block at another stage.
    fn ask(self, stage: Stage, block: u64, begins: Option<Begins>) -> (r: (RangeFinder, RangeStep))
        requires
            self@.asks(stage, block, begins).0.well_formed(),
        ensures
            (r.0@, r.1@) == self@.asks(stage, block, begins),
    {
        (
            RangeFinder { start_ts: self.start_ts, end_ts: self.end_ts, stage },
            RangeStep::AskTime { block, begins },
        )
    }

    /// Ends without a range.
    fn fail(self, error: String) -> (r: (RangeFinder, RangeStep))
        ensures
            (r.0@, r.1@) == self@.failed(error@),
    {
        (
            RangeFinder { start_ts: self.start_ts, end_ts: self.end_ts, stage: Stage::Finished },
            RangeStep::Fail(error),
        )
    }

    /// Goes on with the search for the first block.
    fn seek_start(
        self,
        latest: u64,
        latest_time: u64,
        search: BlockSearch,
        timestamp: Option<Result<u64, String>>,
    ) -> (r: (RangeFinder, RangeStep))
        requires
            timestamp is Some ==> search.is_open(),
        ensures
            ({
                let begins = if timestamp is Some {
                    None
                } else {
                    Some(Begins::Start)
                };
                (r.0@, r.1@) == match crate::search::turned(
                    search,
                    crate::text::answer_view(timestamp),
                ) {
                    Ok((next, _)) => self@.seeks_start(latest, latest_time, next, begins),
                    Err(error) => self@.failed(error),
                }
            }),
    {
        let begins = match timestamp {
            Some(_) => None,
            None => Some(Begins::Start),
        };
        match find_first_block_at_or_after(search, timestamp) {
            Ok((search, SearchStep::Ask(block))) => {
                self.ask(Stage::SearchStart { latest, latest_time, search }, block, begins)
            },
            Ok((_, SearchStep::Found(start))) => {
                self.ask(Stage::StartTime { latest, latest_time, start }, start, begins)
            },
            Err(error) => self.fail(error),
        }
    }

    /// Goes on with the search for the first block behind the last one.
    fn seek_end(
        self,
        start: u64,
        start_time: u64,
        search: BlockSearch,
        timestamp: Option<Result<u64, String>>,
    ) -> (r: (RangeFinder, RangeStep))
        requires
            timestamp is Some ==> search.is_open(),
        ensures
            ({
                let begins = if timestamp is Some {
                    None
                } else {
                    Some(Begins::End)
                };
                (r.0@, r.1@) == match crate::search::turned(
                    search,
                    crate::text::answer_view(timestamp),
                ) {
                    Ok((next, _)) => self@.seeks_end(start, start_time, next, begins),
                    Err(error) => self@.failed(error),
                }
            }),
    {
        let begins = match timestamp {
            Some(_) => None,
            None => Some(Begins::End),
        };
        match find_first_block_at_or_after(search, timestamp) {
            Ok((search, SearchStep::Ask(block))) => {
                self.ask(Stage::SearchEnd { start, start_time, search }, block, begins)
            },
            Ok((_, SearchStep::Found(after))) => {
                let end: u64 = if after > 0 {
                    after - 1
                } else {
                    0
                };
                self.ask(Stage::EndTime { start, start_time, end }, end, begins)
            },
            Err(error) => self.fail(error),
        }
    }

    /// Takes the answer to the open question. Why a question could not be answered is handed
    /// on, and there is no range then.
    pub fn answer(self, answer: Result<u64, String>) -> (r: (RangeFinder, RangeStep))
        requires
            self@.stage != Stage::Finished,
        ensures
            (r.0@, r.1@) == match answer {
                Ok(value) => self@.answered(value),
                Err(error) => self@.failed(error@),
            },
    {
        proof {
            use_type_invariant(&self);
        }
        match (self.stage, answer) {
            (Stage::SearchStart { latest, latest_time, search }, answer) => {
                self.seek_start(latest, latest_time, search, Some(answer))
            },
            (Stage::SearchEnd { start, start_time, search }, answer) => {
                self.seek_end(start, start_time, search, Some(answer))
            },
            (_, Err(error)) => self.fail(error),
            (Stage::LatestBlock, Ok(latest)) => {
                self.ask(Stage::LatestTime { latest }, latest, None)
            },
            (Stage::LatestTime { latest }, Ok(latest_time)) => {
                if self.start_ts > latest_time {
                    let text = join(
                        "Requested start date is in the future. Latest chain timestamp: ",
                        decimal_text(latest_time).as_str(),
                    );
                    return self.fail(text);
                }
                let search = BlockSearch { target: self.start_ts, low: 0, high: latest };
                self.seek_start(latest, latest_time, search, None)
            },
            (Stage::StartTime { latest, latest_time, start }, Ok(start_time)) => {
                if self.end_ts >= latest_time {
                    let stage = Stage::EndTime { start, start_time, end: latest };
                    return self.ask(stage, latest, None);
                }
                let search = BlockSearch { target: self.end_ts + 1, low: start, high: latest };
                self.seek_end(start, start_time, search, None)
            },
            (Stage::EndTime { start, start_time, end }, Ok(end_time)) => {
                let next = RangeFinder {
                    start_ts: self.start_ts,
                    end_ts: self.end_ts,
                    stage: Stage::Finished,
                };
                (next, RangeStep::Found(BlockRange { start, start_time, end, end_time }))
            },
            (Stage::Finished, Ok(_)) => (self, RangeStep::AskLatestBlock),
        }
    }
}

/// What the finding of a range ends with from a stage on, where the latest block is `latest`
/// and `time` gives the times of the blocks.
pub open spec fn outcome(finder: RangeFinderView, latest: u64, time: spec_fn(u64) -> u64) -> Result<
    BlockRange,
    Seq<char>,
> {
    let start_ts = finder.start_ts;
    let end_ts = finder.end_ts;
    match finder.stage {
        Stage::LatestBlock => range_of(start_ts, end_ts, latest, time),
        Stage::LatestTime { latest } => range_of(start_ts, end_ts, latest, time),
        Stage::SearchStart { latest, search, .. } => {
            let start = crate::search::found(search, time);
            let end = end_block_of(end_ts, start, latest, time);
            Ok(BlockRange { start, start_time: time(start), end, end_time: time(end) })
        },
        Stage::StartTime { latest, start, .. } => {
            let end = end_block_of(end_ts, start, latest, time);
            Ok(BlockRange { start, start_time: time(start), end, end_time: time(end) })
        },
        Stage::SearchEnd { start, start_time, search } => {
            let end = last_block_of(crate::search::found(search, time));
            Ok(BlockRange { start, start_time, end, end_time: time(end) })
        },
        Stage::EndTime { start, start_time, end } => Ok(
            BlockRange { start, start_time, end, end_time: time(end) },
        ),
        Stage::Finished => Err(Seq::empty()),
    }
}

/// How many questions are still to come at the most: few for the stages, for a search that
/// is to come `k`, and for one under way as many as it asks.
pub open spec fn questions(finder: RangeFinderView, time: spec_fn(u64) -> u64, k: nat) -> nat {
    match finder.stage {
        Stage::LatestBlock => 4 + 2 * k,
        Stage::LatestTime { .. } => 3 + 2 * k,
        Stage::SearchStart { search, .. } => 2 + k + crate::search::asked(search, time),
        Stage::StartTime { .. } => 2 + k,
        Stage::SearchEnd { search, .. } => 1 + crate::search::asked(search, time),
        Stage::EndTime { .. } => 1,
        Stage::Finished => 0,
    }
}

/// Whether what a finder has noted down of the chain is true of it.
pub open spec fn noted(finder: RangeFinderView, latest: u64, time: spec_fn(u64) -> u64) -> bool {
    match finder.stage {
        Stage::LatestTime { latest: noted } => noted == latest,
        Stage::SearchStart { latest: noted, latest_time, .. } => noted == latest && latest_time
            == time(latest),
        Stage::StartTime { latest: noted, latest_time, .. } => noted == latest && latest_time
            == time(latest),
        _ => true,
    }
}

/// The true answer to a question.
pub open spec fn truth(step: RangeStepView, latest: u64, time: spec_fn(u64) -> u64) -> u64 {
    match step {
        RangeStepView::AskTime { block, .. } => time(block),
        _ => latest,
    }
}

/// Whether a question is the one that is open at a stage.
pub open spec fn open_question(finder: RangeFinderView, step: RangeStepView) -> bool {
    match finder.stage {
        Stage::LatestBlock => step is AskLatestBlock,
        Stage::LatestTime { latest } => step matches RangeStepView::AskTime { block, .. } && block
            == latest,
        Stage::SearchStart { search, .. } => step matches RangeStepView::AskTime { block, .. }
            && block == search.middle(),
        Stage::StartTime { start, .. } => step matches RangeStepView::AskTime { block, .. }
            && block == start,
        Stage::SearchEnd { search, .. } => step matches RangeStepView::AskTime { block, .. }
            && block == search.middle(),
        Stage::EndTime { end, .. } => step matches RangeStepView::AskTime { block, .. } && block
            == end,
        Stage::Finished => true,
    }
}

/// A true answer leaves the outcome as it was and the number of questions to come smaller,
/// and leads to the question of the stage that follows, or to the outcome itself.
proof fn lemma_true_answer(
    finder: RangeFinderView,
    step: RangeStepView,
    latest: u64,
    time: spec_fn(u64) -> u64,
    k: nat,
)
    requires
        finder.well_formed(),
        finder.stage != Stage::Finished,
        noted(finder, latest, time),
        open_question(finder, step),
        latest < pow2(k),
    ensures
        ({
            let (next, then) = finder.answered(truth(step, latest, time));
            &&& next.well_formed()
            &&& noted(next, latest, time)
            &&& open_question(next, then)
            &&& questions(next, time, k) < questions(finder, time, k)
            &&& next.stage != Stage::Finished ==> outcome(next, latest, time) == outcome(
                finder,
                latest,
                time,
            )
            &&& next.stage == Stage::Finished ==> match outcome(finder, latest, time) {
                Ok(range) => then == RangeStepView::Found(range),
                Err(text) => then == RangeStepView::Fail(text),
            }
        }),
{
    let answer = truth(step, latest, time);
    match finder.stage {
        Stage::LatestTime { latest } => {
            let search = BlockSearch { target: finder.start_ts, low: 0, high: latest };
            crate::search::search_halves_the_range(search, time, k);
        },
        Stage::StartTime { latest, latest_time, start } => {
            if let Some(target) = end_target_of(finder.end_ts, latest_time) {
                let search = BlockSearch { target, low: start, high: latest };
                crate::search::search_halves_the_range(search, time, k);
            }
        },
        Stage::SearchStart { search, .. } => {
            let next = search.narrowed(answer);
            assert(crate::search::found(search, time) == crate::search::found(next, time));
            assert(!next.is_open() ==> crate::search::found(next, time) == next.low);
        },
        Stage::SearchEnd { search, .. } => {
            let next = search.narrowed(answer);
            assert(crate::search::found(search, time) == crate::search::found(next, time));
            assert(!next.is_open() ==> crate::search::found(next, time) == next.low);
        },
        _ => {},
    }
}

/// Where the finding of a range stands after so many more true answers.
pub open spec fn after_answers(
    finder: RangeFinderView,
    step: RangeStepView,
    latest: u64,
    time: spec_fn(u64) -> u64,
    n: nat,
) -> (RangeFinderView, RangeStepView)
    decreases n,
{
    if n == 0 || finder.stage == Stage::Finished {
        (finder, step)
    } else {
        let (next, then) = finder.answered(truth(step, latest, time));
        after_answers(next, then, latest, time, (n - 1) as nat)
    }
}

/// As many true answers as there are questions to come lead to the outcome.
proof fn lemma_answers_lead_to_the_outcome(
    finder: RangeFinderView,
    step: RangeStepView,
    latest: u64,
    time: spec_fn(u64) -> u64,
    k: nat,
    n: nat,
)
    requires
        finder.well_formed(),
        finder.stage != Stage::Finished,
        noted(finder, latest, time),
        open_question(finder, step),
        latest < pow2(k),
        n >= questions(finder, time, k),
    ensures
        ({
            let (end, last) = after_answers(finder, step, latest, time, n);
            &&& end.stage == Stage::Finished
            &&& match outcome(finder, latest, time) {
                Ok(range) => last == RangeStepView::Found(range),
                Err(text) => last == RangeStepView::Fail(text),
            }
        }),
    decreases n,
{
    lemma_true_answer(finder, step, latest, time, k);
    let (next, then) = finder.answered(truth(step, latest, time));
    if next.stage != Stage::Finished {
        lemma_answers_lead_to_the_outcome(next, then, latest, time, k, (n - 1) as nat);
    } else {
        assert(after_answers(next, then, latest, time, (n - 1) as nat) == (next, then));
    }
}

/// Asking, from the beginning, what the finder asks, and giving it true answers, leads to the
/// range between the two times, or to the error where there is none. The number of questions
/// grows with the logarithm of the latest block: where that is less than `2^k`, `4 + 2 * k`
/// are enough.
pub proof fn true_answers_lead_to_the_range(
    start_ts: u64,
    end_ts: u64,
    latest: u64,
    time: spec_fn(u64) -> u64,
    k: nat,
)
    requires
        latest < pow2(k),
    ensures
        ({
            let begin = RangeFinderView { start_ts, end_ts, stage: Stage::LatestBlock };
            let (end, last) = after_answers(
                begin,
                RangeStepView::AskLatestBlock,
                latest,
                time,
                4 + 2 * k,
            );
            &&& end.stage == Stage::Finished
            &&& match range_of(start_ts, end_ts, latest, time) {
                Ok(range) => last == RangeStepView::Found(range),
                Err(text) => last == RangeStepView::Fail(text),
            }
        }),
{
    let begin = RangeFinderView { start_ts, end_ts, stage: Stage::LatestBlock };
    lemma_answers_lead_to_the_outcome(
        begin,
        RangeStepView::AskLatestBlock,
        latest,
        time,
        k,
        4 + 2 * k,
    );
}

/// On any chain 132 questions are enough.
pub proof fn few_questions_lead_to_the_range(
    start_ts: u64,
    end_ts: u64,
    latest: u64,
    time: spec_fn(u64) -> u64,
)
    ensures
        ({
            let begin = RangeFinderView { start_ts, end_ts, stage: Stage::LatestBlock };
            let (end, last) = after_answers(
                begin,
                RangeStepView::AskLatestBlock,
                latest,
                time,
                132,
            );
            &&& end.stage == Stage::Finished
            &&& match range_of(start_ts, end_ts, latest, time) {
                Ok(range) => last == RangeStepView::Found(range),
                Err(text) => last == RangeStepView::Fail(text),
            }
        }),
{
    lemma2_to64_rest();
    true_answers_lead_to_the_range(start_ts, end_ts, latest, time, 64);
}

/// Where the times of the blocks never go back, the blocks between two times are exactly the
/// blocks from the first to the last one found. The range may not lie as a whole before the
/// very first block, for there it keeps that block.
pub proof fn range_holds_the_blocks_between_the_times(
    start_ts: u64,
    end_ts: u64,
    latest: u64,
    time: spec_fn(u64) -> u64,
    b: u64,
)
    requires
        crate::search::in_order(time, 0, latest + 1),
        start_ts <= time(latest),
        time(0) <= end_ts || time(0) < start_ts,
        b <= latest,
    ensures
        ({
            let start = start_block_of(start_ts, latest, time);
            let end = end_block_of(end_ts, start, latest, time);
            (start <= b <= end) <==> (start_ts <= time(b) <= end_ts)
        }),
{
    let first = BlockSearch { target: start_ts, low: 0, high: latest };
    let start = crate::search::found(first, time);
    crate::search::search_ends_at_a_boundary(first, time);
    crate::search::search_finds_the_first_block(first, time, b);
    assert(time(b) <= time(latest));
    if let Some(target) = end_target_of(end_ts, time(latest)) {
        let after = BlockSearch { target, low: start, high: latest };
        let r = crate::search::found(after, time);
        crate::search::search_ends_at_a_boundary(after, time);
        crate::search::search_finds_the_first_block(after, time, b);
        if b < start {
            assert(time(b) < start_ts);
        }
    }
}

/// True answers to what the finder asks, from its beginning on, as many as it may ask.
pub open spec fn told_the_truth(
    start_ts: u64,
    end_ts: u64,
    latest: u64,
    time: spec_fn(u64) -> u64,
) -> RangeStepView {
    after_answers(
        RangeFinderView { start_ts, end_ts, stage: Stage::LatestBlock },
        RangeStepView::AskLatestBlock,
        latest,
        time,
        132,
    ).1
}

/// Where the times of the blocks never go back and the range does not lie as a whole after the
/// latest block or before the very first, true answers lead to a range of blocks of the chain
/// that takes in a block exactly if its time is between the two times; the times of its ends
/// are told with it.
pub proof fn a_block_is_in_the_range_exactly_if_its_time_is(
    start_ts: u64,
    end_ts: u64,
    latest: u64,
    time: spec_fn(u64) -> u64,
    b: u64,
)
    requires
        crate::search::in_order(time, 0, latest + 1),
        start_ts <= time(latest),
        time(0) <= end_ts || time(0) < start_ts,
        b <= latest,
    ensures
        ({
            &&& told_the_truth(start_ts, end_ts, latest, time) matches RangeStepView::Found(range)
            &&& range_of(start_ts, end_ts, latest, time) == Ok::<BlockRange, Seq<char>>(range)
            &&& range.start <= b <= range.end <==> start_ts <= time(b) <= end_ts
            &&& range.start <= latest && range.end <= latest
            &&& range.start_time == time(range.start)
            &&& range.end_time == time(range.end)
        }),
{
    few_questions_lead_to_the_range(start_ts, end_ts, latest, time);
    range_holds_the_blocks_between_the_times(start_ts, end_ts, latest, time, b);
    let first = BlockSearch { target: start_ts, low: 0, high: latest };
    crate::search::search_ends_at_a_boundary(first, time);
    let start = crate::search::found(first, time);
    if let Some(target) = end_target_of(end_ts, time(latest)) {
        let after = BlockSearch { target, low: start, high: latest };
        crate::search::search_ends_at_a_boundary(after, time);
    }
}

/// Where the range lies as a whole before the very first block, true answers lead to that
/// block alone.
pub proof fn a_range_before_the_first_block_is_that_block(
    start_ts: u64,
    end_ts: u64,
    latest: u64,
    time: spec_fn(u64) -> u64,
)
    requires
        crate::search::in_order(time, 0, latest + 1),
        start_ts <= time(0),
        end_ts < time(0),
    ensures
        told_the_truth(start_ts, end_ts, latest, time) == RangeStepView::Found(
            BlockRange { start: 0, start_time: time(0), end: 0, end_time: time(0) },
        ),
{
    few_questions_lead_to_the_range(start_ts, end_ts, latest, time);
    assert(time(0) <= time(latest));
    let first = BlockSearch { target: start_ts, low: 0, high: latest };
    crate::search::search_ends_at_a_boundary(first, time);
    let start = crate::search::found(first, time);
    assert(start == 0) by {
        if start > 0 {
            assert(time(0) <= time((start - 1) as u64));
        }
    }
    let after = BlockSearch { target: (end_ts + 1) as u64, low: 0, high: latest };
    crate::search::search_ends_at_a_boundary(after, time);
    let r = crate::search::found(after, time);
    assert(r == 0) by {
        if r > 0 {
            assert(time(0) <= time((r - 1) as u64));
        }
    }
}

/// Where the range starts after the time of the latest block, true answers lead to an error
/// that tells that time, and to no range.
pub proof fn a_range_after_the_latest_block_is_refused(
    start_ts: u64,
    end_ts: u64,
    latest: u64,
    time: spec_fn(u64) -> u64,
)
    requires
        start_ts > time(latest),
    ensures
        told_the_truth(start_ts, end_ts, latest, time) == RangeStepView::Fail(
            "Requested start date is in the future. Latest chain timestamp: "@
                + crate::number::decimal(time(latest) as nat),
        ),
{
    few_questions_lead_to_the_range(start_ts, end_ts, latest, time);
}

/// Question by question: the latest block, its time, then the search for the first block over
/// the whole chain, the time of that block, the search for the first block behind the range
/// over the blocks from there on, unless the range takes in the latest block, and the time of
/// the last block.
pub proof fn the_searches_take_in_the_whole_chain(finder: RangeFinderView, answer: u64)
    requires
        finder.well_formed(),
        finder.stage != Stage::Finished,
    ensures
        ({
            let (next, then) = finder.answered(answer);
            &&& next.start_ts == finder.start_ts && next.end_ts == finder.end_ts
            &&& match finder.stage {
                Stage::LatestBlock => {
                    &&& next.stage == Stage::LatestTime { latest: answer }
                    &&& then == RangeStepView::AskTime { block: answer, begins: None }
                },
                Stage::LatestTime { latest } => if finder.start_ts > answer {
                    &&& next.stage == Stage::Finished
                    &&& then == RangeStepView::Fail(
                        "Requested start date is in the future. Latest chain timestamp: "@
                            + crate::number::decimal(answer as nat),
                    )
                } else if latest == 0 {
                    &&& next.stage == Stage::StartTime { latest, latest_time: answer, start: 0 }
                    &&& then == RangeStepView::AskTime { block: 0, begins: Some(Begins::Start) }
                } else {
                    let search = BlockSearch { target: finder.start_ts, low: 0, high: latest };
                    &&& next.stage == Stage::SearchStart { latest, latest_time: answer, search }
                    &&& then == RangeStepView::AskTime {
                        block: latest / 2,
                        begins: Some(Begins::Start),
                    }
                },
                Stage::SearchStart { latest, latest_time, search } => match crate::search::turned(
                    search,
                    Some(Ok(answer)),
                ) {
                    Ok((search, SearchStep::Ask(block))) => {
                        &&& next.stage == Stage::SearchStart { latest, latest_time, search }
                        &&& then == RangeStepView::AskTime { block, begins: None }
                    },
                    Ok((_, SearchStep::Found(start))) => {
                        &&& next.stage == Stage::StartTime { latest, latest_time, start }
                        &&& then == RangeStepView::AskTime { block: start, begins: None }
                    },
                    Err(_) => false,
                },
                Stage::StartTime { latest, latest_time, start } => if finder.end_ts
                    >= latest_time {
                    &&& next.stage == Stage::EndTime { start, start_time: answer, end: latest }
                    &&& then == RangeStepView::AskTime { block: latest, begins: None }
                } else if start < latest {
                    let search = BlockSearch {
                        target: (finder.end_ts + 1) as u64,
                        low: start,
                        high: latest,
                    };
                    &&& next.stage == Stage::SearchEnd { start, start_time: answer, search }
                    &&& then == RangeStepView::AskTime {
                        block: (start + (latest - start) / 2) as u64,
                        begins: Some(Begins::End),
                    }
                } else {
                    let end = if start > 0 {
                        (start - 1) as u64
                    } else {
                        0
                    };
                    &&& next.stage == Stage::EndTime { start, start_time: answer, end }
                    &&& then == RangeStepView::AskTime { block: end, begins: Some(Begins::End) }
                },
                Stage::SearchEnd { start, start_time, search } => match crate::search::turned(
                    search,
                    Some(Ok(answer)),
                ) {
                    Ok((search, SearchStep::Ask(block))) => {
                        &&& next.stage == Stage::SearchEnd { start, start_time, search }
                        &&& then == RangeStepView::AskTime { block, begins: None }
                    },
                    Ok((_, SearchStep::Found(after))) => {
                        let end = if after > 0 {
                            (after - 1) as u64
                        } else {
                            0
                        };
                        &&& next.stage == Stage::EndTime { start, start_time, end }
                        &&& then == RangeStepView::AskTime { block: end, begins: None }
                    },
                    Err(_) => false,
                },
                Stage::EndTime { start, start_time, end } => {
                    &&& next.stage == Stage::Finished
                    &&& then == RangeStepView::Found(
                        BlockRange { start, start_time, end, end_time: answer },
                    )
                },
                Stage::Finished => true,
            }
        }),
{
}

/// That a question cannot be answered ends the finding at whatever stage it is, with that
/// error.
pub proof fn a_question_without_an_answer_ends_the_finding(
    finder: RangeFinderView,
    error: Seq<char>,
)
    ensures
        finder.failed(error).0.stage == Stage::Finished,
        finder.failed(error).1 == RangeStepView::Fail(error),
{
}

/// What the finding wants or has found is taken as it is.
pub proof fn what_is_wanted_is_taken_as_it_is(
    block: u64,
    begins: Option<Begins>,
    range: BlockRange,
    error: String,
)
    ensures
        RangeStep::AskLatestBlock@ == RangeStepView::AskLatestBlock,
        (RangeStep::AskTime { block, begins })@ == (RangeStepView::AskTime { block, begins }),
        RangeStep::Found(range)@ == RangeStepView::Found(range),
        RangeStep::Fail(error)@ == RangeStepView::Fail(error@),
{
}

} // verus!
