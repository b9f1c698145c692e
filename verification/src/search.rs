//! The first block at or after a time, found by bisection.
use vstd::arithmetic::power2::{lemma2_to64, lemma2_to64_rest, lemma_pow2_unfold, pow2};
use vstd::prelude::*;

verus! {

/// A bisection under way: the block that is looked for is in `low..=high`.
#[derive(Clone, Copy, Debug, PartialEq, Eq, Structural)]
pub struct BlockSearch {
    pub target: u64,
    pub low: u64,
    pub high: u64,
}

/// What a bisection wants next.
#[derive(Clone, Copy, Debug, PartialEq, Eq, Structural)]
pub enum SearchStep {
    /// The time of this block.
    Ask(u64),
    /// Nothing more: this is the block.
    Found(u64),
}

impl BlockSearch {
    /// Whether there is still a choice.
    pub open spec fn is_open(self) -> bool {
        self.low < self.high
    }

    /// The block in the middle.
    pub open spec fn middle(self) -> u64 {
        (self.low + (self.high - self.low) / 2) as u64
    }

    /// The half that is left once the time of the block in the middle is known.
    pub open spec fn narrowed(self, timestamp: u64) -> BlockSearch {
        if timestamp < self.target {
            BlockSearch { low: (self.middle() + 1) as u64, ..self }
        } else {
            BlockSearch { high: self.middle(), ..self }
        }
    }

    /// What is wanted next.
    pub open spec fn step(self) -> SearchStep {
        if self.is_open() {
            SearchStep::Ask(self.middle())
        } else {
            SearchStep::Found(self.low)
        }
    }
}

/// Where a bisection stands and what it wants once the time of the block that was asked for
/// last is known; there is none at the start. That the time could not be had ends it.
pub open spec fn turned(search: BlockSearch, timestamp: Option<Result<u64, Seq<char>>>) -> Result<
    (BlockSearch, SearchStep),
    Seq<char>,
> {
    match timestamp {
        Some(Ok(time)) => Ok((search.narrowed(time), search.narrowed(time).step())),
        Some(Err(error)) => Err(error),
        None => Ok((search, search.step())),
    }
}

/// One turn of a bisection. `timestamp` is the time of the block that was asked for last, or
/// why it could not be had, which is handed on; there is none at the start.
pub fn find_first_block_at_or_after(
    search: BlockSearch,
    timestamp: Option<Result<u64, String>>,
) -> (r: Result<(BlockSearch, SearchStep), String>)
    requires
        timestamp is Some ==> search.is_open(),
    ensures
        crate::text::result_view(r) == turned(search, crate::text::answer_view(timestamp)),
{
    let mut next = search;
    match timestamp {
        Some(Ok(time)) => {
            let mid: u64 = search.low + (search.high - search.low) / 2;
            if time < search.target {
                next.low = mid + 1;
            } else {
                next.high = mid;
            }
        },
        Some(Err(error)) => {
            return Err(error);
        },
        None => {},
    }
    if next.low < next.high {
        Ok((next, SearchStep::Ask(next.low + (next.high - next.low) / 2)))
    } else {
        Ok((next, SearchStep::Found(next.low)))
    }
}

/// The block that a bisection finds where `time` gives the times of the blocks.
pub open spec fn found(search: BlockSearch, time: spec_fn(u64) -> u64) -> u64
    decreases search.high - search.low,
{
    if search.is_open() {
        found(search.narrowed(time(search.middle())), time)
    } else {
        search.low
    }
}

/// How many blocks a bisection asks for.
pub open spec fn asked(search: BlockSearch, time: spec_fn(u64) -> u64) -> nat
    decreases search.high - search.low,
{
    if search.is_open() {
        1 + asked(search.narrowed(time(search.middle())), time)
    } else {
        0
    }
}

/// Whether the times of the blocks from `first` on never go back before the block `end`.
pub open spec fn in_order(time: spec_fn(u64) -> u64, first: int, end: int) -> bool {
    forall|a: u64, b: u64|
        first <= a <= b < end ==> #[trigger] time(a) <= #[trigger] time(b)
}

/// Whatever the times of the blocks: the block that is found is in the range, it is at or
/// after the target unless it is the end of the range, and the block before it is before the
/// target unless it is the start of the range.
pub proof fn search_ends_at_a_boundary(search: BlockSearch, time: spec_fn(u64) -> u64)
    requires
        search.low <= search.high,
    ensures
        ({
            let r = found(search, time);
            &&& search.low <= r <= search.high
            &&& r < search.high ==> time(r) >= search.target
            &&& r > search.low ==> time((r - 1) as u64) < search.target
        }),
    decreases search.high - search.low,
{
    if search.is_open() {
        search_ends_at_a_boundary(search.narrowed(time(search.middle())), time);
    }
}

/// Where the times never go back from the start of the range up to its end, the block that is
/// found is the first one of the range at or after the target: every earlier one is before
/// the target and every later one is not. The end of the range itself, whose time does not
/// matter, is found where all before it are before the target.
pub proof fn search_finds_the_first_block(search: BlockSearch, time: spec_fn(u64) -> u64, b: u64)
    requires
        search.low <= search.high,
        in_order(time, search.low as int, search.high as int),
    ensures
        search.low <= b < found(search, time) ==> time(b) < search.target,
        found(search, time) <= b < search.high ==> time(b) >= search.target,
{
    search_ends_at_a_boundary(search, time);
    let r = found(search, time);
    if search.low <= b < r {
        assert(time(b) <= time((r - 1) as u64));
    } else if r <= b < search.high {
        assert(time(r) <= time(b));
    }
}

/// A bisection asks for no more blocks than the logarithm of its range: for at most `k` where
/// the two ends are less than `2^k` blocks apart.
pub proof fn search_halves_the_range(search: BlockSearch, time: spec_fn(u64) -> u64, k: nat)
    requires
        search.high - search.low < pow2(k),
    ensures
        asked(search, time) <= k,
    decreases search.high - search.low,
{
    if search.is_open() {
        if k == 0 {
            lemma2_to64();
        } else {
            lemma_pow2_unfold(k);
            let next = search.narrowed(time(search.middle()));
            search_halves_the_range(next, time, (k - 1) as nat);
        }
    }
}

/// No bisection asks for more than 64 blocks.
pub proof fn search_asks_for_few_blocks(search: BlockSearch, time: spec_fn(u64) -> u64)
    ensures
        asked(search, time) <= 64,
{
    lemma2_to64();
    lemma2_to64_rest();
    search_halves_the_range(search, time, 64);
}

/// A turn of a bisection asks for the block in the middle. Where the time of that block is
/// before the target, the blocks behind it are left, and else it and the blocks before it are;
/// a single block that is left is the one that is found. Why a time could not be had is handed
/// on.
pub proof fn a_turn_leaves_half_of_the_blocks(search: BlockSearch, time: u64, error: Seq<char>)
    ensures
        ({
            let middle = search.low + (search.high - search.low) / 2;
            let begun = turned(search, None);
            &&& search.low < search.high ==> begun == Ok::<(BlockSearch, SearchStep), Seq<char>>(
                (search, SearchStep::Ask(middle as u64)),
            )
            &&& search.low >= search.high ==> begun == Ok::<(BlockSearch, SearchStep), Seq<char>>(
                (search, SearchStep::Found(search.low)),
            )
            &&& turned(search, Some(Err(error))) == Err::<(BlockSearch, SearchStep), Seq<char>>(
                error,
            )
            &&& search.low < search.high ==> {
                &&& turned(search, Some(Ok(time))) matches Ok((next, step))
                &&& next.target == search.target
                &&& time < search.target ==> next.low == middle + 1 && next.high == search.high
                &&& time >= search.target ==> next.low == search.low && next.high == middle
                &&& turned(next, None) == Ok::<(BlockSearch, SearchStep), Seq<char>>((next, step))
            }
        }),
{
}

/// What a bisection wants after so many more times, each of them the true one of the block
/// that was asked for.
pub open spec fn driven(
    search: BlockSearch,
    step: SearchStep,
    time: spec_fn(u64) -> u64,
    n: nat,
) -> SearchStep
    decreases n,
{
    match step {
        SearchStep::Found(_) => step,
        SearchStep::Ask(block) => if n == 0 {
            step
        } else {
            match turned(search, Some(Ok(time(block)))) {
                Ok((next, then)) => driven(next, then, time, (n - 1) as nat),
                Err(_) => step,
            }
        },
    }
}

/// True times lead to the block that is found.
proof fn lemma_driven(search: BlockSearch, time: spec_fn(u64) -> u64, n: nat)
    requires
        n >= asked(search, time),
    ensures
        driven(search, search.step(), time, n) == SearchStep::Found(found(search, time)),
    decreases search.high - search.low,
{
    if search.is_open() {
        let next = search.narrowed(time(search.middle()));
        lemma_driven(next, time, (n - 1) as nat);
    }
}

/// Answering truly what a bisection over fewer than `2^k` blocks asks leads it, after at most
/// `k` questions, to the first block at or after the target: where the times never go back,
/// exactly the blocks before it are before the target. The end of the range is found where all
/// before it are.
pub proof fn true_times_lead_to_the_first_block(
    search: BlockSearch,
    time: spec_fn(u64) -> u64,
    k: nat,
    b: u64,
)
    requires
        search.low <= search.high,
        search.high - search.low < pow2(k),
        in_order(time, search.low as int, search.high as int),
    ensures
        turned(search, None) matches Ok((first, step)) && (driven(
            first,
            step,
            time,
            k,
        ) matches SearchStep::Found(r) && search.low <= r <= search.high && (search.low <= b
            < search.high ==> (b < r <==> time(b) < search.target))),
{
    search_halves_the_range(search, time, k);
    lemma_driven(search, time, k);
    search_ends_at_a_boundary(search, time);
    search_finds_the_first_block(search, time, b);
}

} // verus!
