//! The plan of an extraction: its parts, their batches, and where it goes on after a break.
use vstd::prelude::*;

verus! {

/// How many blocks a part takes in.
pub const BLOCKS_PER_PART: u64 = 1_000_000;

/// How many blocks a batch takes in.
pub const BLOCKS_PER_RPC_BATCH: u64 = 25;

/// How many batches are under way at once.
pub const CONCURRENCY: usize = 12;

/// How many batches go by between two reports of progress.
pub const BATCHES_PER_REPORT: usize = 1000;

/// The smaller of two numbers.
pub open spec fn min_of(a: int, b: int) -> int {
    if a <= b {
        a
    } else {
        b
    }
}

/// The blocks from `first` to `last`.
pub open spec fn block_range(first: int, last: int) -> Seq<u64> {
    Seq::new((last - first + 1) as nat, |j: int| (first + j) as u64)
}

/// How many batches the blocks from `first` to `last` make.
pub open spec fn batch_count(first: int, last: int) -> nat {
    if first > last {
        0
    } else {
        ((last - first) / (BLOCKS_PER_RPC_BATCH as int) + 1) as nat
    }
}

/// The batches of the blocks from `first` to `last`: full ones, and what is left over.
pub open spec fn batches_of(first: int, last: int) -> Seq<Seq<u64>> {
    Seq::new(
        batch_count(first, last),
        |i: int|
            block_range(
                first + BLOCKS_PER_RPC_BATCH * i,
                min_of(first + BLOCKS_PER_RPC_BATCH * (i + 1) - 1, last),
            ),
    )
}

/// The blocks from `first` to `last`.
fn range_of(first: u64, last: u64) -> (blocks: Vec<u64>)
    requires
        first <= last,
    ensures
        blocks@ == block_range(first as int, last as int),
{
    let mut blocks: Vec<u64> = Vec::new();
    let mut block: u64 = first;
    while block < last
        invariant
            first <= block <= last,
            blocks@ == block_range(first as int, block - 1),
        decreases last - block,
    {
        blocks.push(block);
        assert(blocks@ =~= block_range(first as int, block as int));
        block = block + 1;
    }
    blocks.push(last);
    assert(blocks@ =~= block_range(first as int, last as int));
    blocks
}

/// The blocks of a part in batches.
pub fn micro_batches(first: u64, last: u64) -> (batches: Vec<Vec<u64>>)
    ensures
        batches@.map_values(|batch: Vec<u64>| batch@) == batches_of(first as int, last as int),
{
    let mut batches: Vec<Vec<u64>> = Vec::new();
    let mut block: u64 = first;
    while block <= last
        invariant_except_break
            first <= block,
            block == first + BLOCKS_PER_RPC_BATCH * batches.len(),
            batches.len() <= batch_count(first as int, last as int),
            forall|k: int|
                0 <= k < batches.len() ==> (#[trigger] batches@[k])@ == batches_of(
                    first as int,
                    last as int,
                )[k],
        ensures
            batches.len() == batch_count(first as int, last as int),
            forall|k: int|
                0 <= k < batches.len() ==> (#[trigger] batches@[k])@ == batches_of(
                    first as int,
                    last as int,
                )[k],
        decreases last - block,
    {
        let batch_end: u64 = if last - block < BLOCKS_PER_RPC_BATCH {
            last
        } else {
            block + (BLOCKS_PER_RPC_BATCH - 1)
        };
        let ghost i = batches.len() as int;
        assert(batch_end == min_of(first + BLOCKS_PER_RPC_BATCH * (i + 1) - 1, last as int));
        batches.push(range_of(block, batch_end));
        if batch_end == last {
            break ;
        }
        block = batch_end + 1;
    }
    assert(batches@.map_values(|batch: Vec<u64>| batch@) =~= batches_of(first as int, last as int));
    batches
}

/// No batch is empty or larger than allowed, only the last one may be smaller, and the blocks
/// follow each other from batch to batch, so that none is in two places.
pub proof fn batches_follow_each_other(first: u64, last: u64)
    requires
        first <= last,
    ensures
        ({
            let batches = batches_of(first as int, last as int);
            &&& forall|i: int|
                0 <= i < batches.len() ==> 1 <= (#[trigger] batches[i]).len()
                    <= BLOCKS_PER_RPC_BATCH
            &&& forall|i: int|
                0 <= i < batches.len() - 1 ==> (#[trigger] batches[i]).len()
                    == BLOCKS_PER_RPC_BATCH
            &&& forall|i: int, j: int|
                0 <= i < batches.len() && 0 <= j < batches[i].len() ==> #[trigger] batches[i][j]
                    == first + BLOCKS_PER_RPC_BATCH * i + j && batches[i][j] <= last
        }),
{
}

/// Every block of the range is in a batch.
pub proof fn every_block_is_in_a_batch(first: u64, last: u64, block: u64)
    requires
        first <= block <= last,
    ensures
        ({
            let batches = batches_of(first as int, last as int);
            let i = (block - first) / (BLOCKS_PER_RPC_BATCH as int);
            let j = (block - first) % (BLOCKS_PER_RPC_BATCH as int);
            &&& 0 <= i < batches.len()
            &&& 0 <= j < batches[i].len()
            &&& batches[i][j] == block
        }),
{
}

/// Whether progress is reported after so many of so many batches.
pub fn reports_progress(processed: usize, total: usize) -> (report: bool)
    ensures
        report == (processed % BATCHES_PER_REPORT == 0 || processed == total),
{
    processed % BATCHES_PER_REPORT == 0 || processed == total
}

/// How many blocks a range takes in.
pub fn total_blocks(start_block: u64, end_block: u64) -> (n: u64)
    requires
        end_block - start_block < u64::MAX,
    ensures
        n == if start_block <= end_block {
            end_block - start_block + 1
        } else {
            0
        },
{
    if start_block <= end_block {
        end_block - start_block + 1
    } else {
        0
    }
}

/// Where an extraction begins.
#[derive(Clone, Copy, Debug, PartialEq, Eq, Structural)]
pub enum Origin {
    /// At the block of a checkpoint.
    Checkpoint(u64),
    /// At the first block of the range.
    Start(u64),
}

impl Origin {
    /// The first block that is fetched.
    pub open spec fn block_of(self) -> u64 {
        match self {
            Origin::Checkpoint(block) => block,
            Origin::Start(block) => block,
        }
    }

    /// The first block that is fetched.
    pub fn block(&self) -> (block: u64)
        ensures
            block == self.block_of(),
    {
        match self {
            Origin::Checkpoint(block) => *block,
            Origin::Start(block) => *block,
        }
    }
}

/// Whether a checkpoint belongs to a range: it may be any block of it, or the one behind.
pub open spec fn usable(saved: u64, start_block: u64, end_block: u64) -> bool {
    start_block <= saved <= end_block + 1
}

/// Where an extraction of a range begins, with the checkpoint of an earlier run.
pub fn resume(saved: Option<u64>, start_block: u64, end_block: u64) -> (origin: Origin)
    requires
        saved matches Some(block) && block >= start_block ==> end_block < u64::MAX,
    ensures
        origin == match saved {
            Some(block) => if usable(block, start_block, end_block) {
                Origin::Checkpoint(block)
            } else {
                Origin::Start(start_block)
            },
            None => Origin::Start(start_block),
        },
{
    match saved {
        Some(block) => {
            if block >= start_block && block <= end_block + 1 {
                Origin::Checkpoint(block)
            } else {
                Origin::Start(start_block)
            }
        },
        None => Origin::Start(start_block),
    }
}

/// An extraction under way: the next block, the last block, and the number of the part that
/// is next.
#[derive(Clone, Copy, Debug, PartialEq, Eq, Structural)]
pub struct Extraction {
    pub current: u64,
    pub end: u64,
    pub part: u32,
}

/// The blocks of one part.
#[derive(Clone, Copy, Debug, PartialEq, Eq, Structural)]
pub struct Part {
    pub number: u32,
    pub first: u64,
    pub last: u64,
}

/// The last block of the part that starts at `current`.
pub open spec fn part_end(current: int, end: int) -> int {
    min_of(current + BLOCKS_PER_PART - 1, end)
}

impl Extraction {
    /// The part that is next, if there is one.
    pub open spec fn part_of(self) -> Option<Part> {
        if self.current <= self.end {
            Some(
                Part {
                    number: self.part,
                    first: self.current,
                    last: part_end(self.current as int, self.end as int) as u64,
                },
            )
        } else {
            None
        }
    }

    /// The part that is next, if there is one.
    pub fn next_part(&self) -> (part: Option<Part>)
        ensures
            part == self.part_of(),
    {
        if self.current <= self.end {
            let last: u64 = if self.end - self.current < BLOCKS_PER_PART {
                self.end
            } else {
                self.current + (BLOCKS_PER_PART - 1)
            };
            Some(Part { number: self.part, first: self.current, last })
        } else {
            None
        }
    }

    /// The block behind the part that is next, or the largest number where there is no block
    /// behind it.
    pub open spec fn behind(self) -> int {
        min_of(part_end(self.current as int, self.end as int) + 1, u64::MAX as int)
    }

    /// The extraction as it goes on when the part that was next is done, unless it is
    /// finished. It is finished when the block behind the part is behind its end: one whose
    /// end is the largest number never is, and takes that block again.
    pub open spec fn rest_of(self) -> Option<Extraction> {
        if self.behind() > self.end {
            None
        } else {
            Some(
                Extraction {
                    current: self.behind() as u64,
                    end: self.end,
                    part: (self.part + 1) as u32,
                },
            )
        }
    }

    /// The checkpoint to save when the part that was next is done.
    pub fn checkpoint(&self) -> (block: u64)
        requires
            self.current <= self.end,
        ensures
            block == self.behind(),
    {
        let last: u64 = if self.end - self.current < BLOCKS_PER_PART {
            self.end
        } else {
            self.current + (BLOCKS_PER_PART - 1)
        };
        if last < u64::MAX {
            last + 1
        } else {
            last
        }
    }

    /// The extraction as it goes on when the part that was next is done, unless it is
    /// finished.
    pub fn part_done(&self) -> (rest: Option<Extraction>)
        requires
            self.current <= self.end,
            self.behind() <= self.end ==> self.part < u32::MAX,
        ensures
            rest == self.rest_of(),
    {
        let next = self.checkpoint();
        if next > self.end {
            None
        } else {
            Some(Extraction { current: next, end: self.end, part: self.part + 1 })
        }
    }
}

/// The parts of the blocks from `current` to `end`, each as its first and last block.
pub open spec fn parts_of(current: int, end: int) -> Seq<(int, int)>
    decreases end - current + 1,
{
    if current > end {
        Seq::empty()
    } else {
        let last = part_end(current, end);
        seq![(current, last)] + parts_of(last + 1, end)
    }
}

/// The parts of a range begin with it and end with it, a part begins behind the one before
/// it, so that no block is in two, and none is empty or larger than allowed.
pub proof fn parts_follow_each_other(current: int, end: int)
    requires
        current <= end,
    ensures
        ({
            let parts = parts_of(current, end);
            &&& parts.len() >= 1
            &&& parts[0].0 == current
            &&& parts.last().1 == end
            &&& forall|i: int|
                0 <= i < parts.len() ==> (#[trigger] parts[i]).0 <= parts[i].1 && parts[i].1
                    - parts[i].0 < BLOCKS_PER_PART
            &&& forall|i: int, j: int|
                0 <= i && j == i + 1 && j < parts.len() ==> (#[trigger] parts[j]).0 == (
                #[trigger] parts[i]).1 + 1
        }),
    decreases end - current + 1,
{
    let last = part_end(current, end);
    let rest = parts_of(last + 1, end);
    let parts = parts_of(current, end);
    if last < end {
        parts_follow_each_other(last + 1, end);
        assert(parts.last() == rest.last());
    } else {
        assert(rest.len() == 0);
    }
    assert forall|i: int| 0 <= i < parts.len() implies (#[trigger] parts[i]).0 <= parts[i].1
        && parts[i].1 - parts[i].0 < BLOCKS_PER_PART by {
        if i > 0 {
            assert(parts[i] == rest[i - 1]);
        }
    }
    assert forall|i: int, j: int|
        0 <= i && j == i + 1 && j < parts.len() implies (#[trigger] parts[j]).0 == (
    #[trigger] parts[i]).1 + 1 by {
        assert(parts[j] == rest[j - 1]);
        if i > 0 {
            assert(parts[i] == rest[i - 1]);
        }
    }
}

/// A block is in some part exactly if it is in the range.
pub proof fn blocks_in_parts_are_those_of_the_range(current: int, end: int, block: int)
    ensures
        (exists|i: int|
            0 <= i < parts_of(current, end).len() && (#[trigger] parts_of(current, end)[i]).0
                <= block <= parts_of(current, end)[i].1) <==> current <= block <= end,
    decreases end - current + 1,
{
    let parts = parts_of(current, end);
    if current <= end {
        let last = part_end(current, end);
        let rest = parts_of(last + 1, end);
        blocks_in_parts_are_those_of_the_range(last + 1, end, block);
        assert(parts[0] == (current, last));
        if last < block <= end {
            let i = choose|i: int|
                0 <= i < rest.len() && (#[trigger] rest[i]).0 <= block <= rest[i].1;
            assert(parts[i + 1] == rest[i]);
        }
        if exists|i: int| 0 <= i < parts.len() && (#[trigger] parts[i]).0 <= block <= parts[i].1 {
            let i = choose|i: int|
                0 <= i < parts.len() && (#[trigger] parts[i]).0 <= block <= parts[i].1;
            if i > 0 {
                assert(rest[i - 1] == parts[i]);
            }
        }
    }
}

/// An extraction goes through the parts of its range in order, with numbers that follow each
/// other, and is finished after the last. The last block may not be the largest number.
pub proof fn extraction_goes_through_the_parts(at: Extraction)
    requires
        at.current <= at.end,
        part_end(at.current as int, at.end as int) < u64::MAX,
        part_end(at.current as int, at.end as int) < at.end ==> at.part < u32::MAX,
    ensures
        ({
            let parts = parts_of(at.current as int, at.end as int);
            &&& at.part_of() matches Some(part)
            &&& part.number == at.part
            &&& (part.first as int, part.last as int) == parts[0]
            &&& match at.rest_of() {
                Some(rest) => rest.part == at.part + 1 && parts_of(
                    rest.current as int,
                    rest.end as int,
                ) == parts.skip(1),
                None => parts.len() == 1,
            }
        }),
{
    let next = part_end(at.current as int, at.end as int) + 1;
    let parts = parts_of(at.current as int, at.end as int);
    assert(parts.skip(1) =~= parts_of(next, at.end as int));
}

/// The checkpoint that is saved after a part belongs to the range, so that a run that is
/// broken off then goes on at it, with exactly the parts that were still to come.
pub proof fn broken_off_run_goes_on_where_it_was(start_block: u64, at: Extraction)
    requires
        start_block <= at.current <= at.end,
        part_end(at.current as int, at.end as int) < u64::MAX,
    ensures
        ({
            let saved = at.behind();
            &&& usable(saved as u64, start_block, at.end)
            &&& parts_of(saved, at.end as int) == parts_of(
                at.current as int,
                at.end as int,
            ).skip(1)
        }),
{
    let next = part_end(at.current as int, at.end as int) + 1;
    assert(parts_of(at.current as int, at.end as int).skip(1) =~= parts_of(next, at.end as int));
}

/// The blocks from `first` to `last` make batches of 25, the last of them of what is left over:
/// the batch `i` begins 25 blocks behind the one before, and its blocks follow each other.
pub proof fn a_batch_takes_in_25_blocks(first: u64, last: u64, i: int, j: int)
    ensures
        first > last ==> batches_of(first as int, last as int).len() == 0,
        first <= last ==> {
            let batches = batches_of(first as int, last as int);
            let begin = first + 25 * i;
            let left = last - begin + 1;
            &&& batches.len() == (last - first) / 25 + 1
            &&& 0 <= i < batches.len() ==> {
                &&& batches[i].len() == if left < 25 {
                    left
                } else {
                    25
                }
                &&& 0 <= j < batches[i].len() ==> batches[i][j] == begin + j
            }
        },
{
}

/// A part takes in a million blocks from where the extraction stands, or what is left up to
/// its end; there is none behind the end.
pub proof fn a_part_takes_in_a_million_blocks(at: Extraction)
    ensures
        at.current > at.end ==> at.part_of() is None,
        at.current <= at.end ==> {
            &&& at.part_of() matches Some(part)
            &&& part.number == at.part
            &&& part.first == at.current
            &&& part.first <= part.last <= at.end
            &&& part.last == at.end || part.last - part.first + 1 == 1_000_000
            &&& part.last - part.first + 1 <= 1_000_000
        },
{
}

/// When a part is done, the block behind it is saved, or its last block where there is none
/// behind it. The extraction goes on there, with the next number and the same end, unless that
/// is behind its end.
pub proof fn an_extraction_goes_on_behind_the_part(at: Extraction)
    requires
        at.current <= at.end,
    ensures
        at.part_of() matches Some(part) && {
            let saved = at.behind();
            &&& part.last < u64::MAX ==> saved == part.last + 1
            &&& part.last == u64::MAX ==> saved == u64::MAX
            &&& saved > at.end ==> at.rest_of() is None
            &&& saved <= at.end && at.part < u32::MAX ==> {
                &&& at.rest_of() matches Some(rest)
                &&& rest.current == saved
                &&& rest.end == at.end
                &&& rest.part == at.part + 1
            }
        },
{
}

/// The parts that an extraction takes one after the other, so many at the most.
pub open spec fn taken(at: Extraction, n: nat) -> Seq<Part>
    decreases n,
{
    if n == 0 {
        Seq::empty()
    } else {
        match (at.part_of(), at.rest_of()) {
            (Some(part), Some(rest)) => seq![part] + taken(rest, (n - 1) as nat),
            (Some(part), None) => seq![part],
            (None, _) => Seq::empty(),
        }
    }
}

/// An extraction takes every block up to its end once: the part `i` begins `i` million blocks
/// behind the first, has the number that many behind the first, and goes up to where the next
/// one begins, or up to the end. The end may not be the largest number.
pub proof fn an_extraction_takes_every_block_once(at: Extraction, n: nat, i: int)
    requires
        at.current <= at.end < u64::MAX,
        at.part + (at.end - at.current) / 1_000_000 <= u32::MAX,
        n > (at.end - at.current) / 1_000_000,
    ensures
        ({
            let parts = taken(at, n);
            &&& parts.len() == (at.end - at.current) / 1_000_000 + 1
            &&& 0 <= i < parts.len() ==> {
                &&& parts[i].number == at.part + i
                &&& parts[i].first == at.current + 1_000_000 * i
                &&& parts[i].last == if i + 1 < parts.len() {
                    parts[i].first + 999_999
                } else {
                    at.end as int
                }
            }
        }),
    decreases n,
{
    let parts = taken(at, n);
    if at.end - at.current >= 1_000_000 {
        let rest = at.rest_of()->0;
        assert((rest.end - rest.current) / 1_000_000 == (at.end - at.current) / 1_000_000 - 1);
        an_extraction_takes_every_block_once(rest, (n - 1) as nat, i - 1);
        if 0 < i < parts.len() {
            assert(parts[i] == taken(rest, (n - 1) as nat)[i - 1]);
        }
    }
}

/// A checkpoint counts from the first block of a range up to the block behind its last, and an
/// extraction begins at the block that its origin names.
pub proof fn a_checkpoint_counts_up_to_the_block_behind(saved: u64, start: u64, end: u64)
    ensures
        usable(saved, start, end) <==> saved >= start && saved as int - end as int <= 1,
        Origin::Checkpoint(saved).block_of() == saved,
        Origin::Start(start).block_of() == start,
{
}

/// Twelve batches are under way at once.
pub proof fn twelve_batches_are_under_way()
    ensures
        CONCURRENCY == 12,
{
}

} // verus!
