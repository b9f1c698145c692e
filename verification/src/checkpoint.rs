//! The checkpoint: the number of the next block, kept in a file between runs.
use vstd::prelude::*;

use crate::number::{decimal_text, decimal_to_u64};
use crate::text::trim;

verus! {

/// What is to be done to save a checkpoint: the content is written to the temporary file,
/// which is then renamed to the target.
#[derive(Debug, PartialEq)]
pub struct CheckpointWrite {
    pub temporary: String,
    pub content: String,
    pub target: String,
}

/// The block that the content of a checkpoint file names, white space around it aside.
pub open spec fn checkpoint_block(content: Seq<char>) -> Option<u64> {
    crate::number::number_or_none(crate::text::trimmed(content), 10)
}

/// Where the checkpoint is kept.
pub fn checkpoint_file() -> (path: &'static str)
    ensures
        path@ == "output/checkpoint.txt"@,
{
    "output/checkpoint.txt"
}

/// How to save `block` as the checkpoint.
pub fn save_checkpoint(block: u64) -> (write: CheckpointWrite)
    ensures
        write.temporary@ == "output/checkpoint.tmp"@,
        write.content@ == crate::number::decimal(block as nat),
        write.target@ == "output/checkpoint.txt"@,
{
    CheckpointWrite {
        temporary: "output/checkpoint.tmp".to_owned(),
        content: decimal_text(block),
        target: checkpoint_file().to_owned(),
    }
}

/// The checkpoint in the content of its file; there is none without a file.
pub fn load_checkpoint(content: Option<&str>) -> (block: Option<u64>)
    ensures
        block == match content {
            Some(text) => checkpoint_block(text@),
            None => None,
        },
{
    match content {
        Some(text) => decimal_to_u64(trim(text)),
        None => None,
    }
}

/// Loading a checkpoint gives back the block that was saved.
pub proof fn saved_checkpoint_loads_back(block: u64)
    ensures
        checkpoint_block(crate::number::decimal(block as nat)) == Some(block),
{
    let d = crate::number::decimal(block as nat);
    crate::number::digits_stand_for_number(block as nat, 10);
    assert(crate::number::is_digit(d[0], 10));
    assert(crate::number::is_digit(d[d.len() - 1], 10));
    assert(crate::text::trimmed(d) == d);
    crate::number::written_number_reads_back(block, 10);
}

/// White space around what a checkpoint file holds does not count, and all else does.
pub proof fn white_space_around_a_checkpoint_does_not_count(
    front: Seq<char>,
    kept: Seq<char>,
    back: Seq<char>,
    block: u64,
)
    requires
        forall|i: int| 0 <= i < front.len() ==> crate::text::is_space(#[trigger] front[i]),
        forall|i: int| 0 <= i < back.len() ==> crate::text::is_space(#[trigger] back[i]),
        kept.len() > 0 ==> !crate::text::is_space(kept[0]) && !crate::text::is_space(kept.last()),
    ensures
        checkpoint_block(front + kept + back) == crate::number::number_or_none(kept, 10),
        checkpoint_block(front + crate::number::decimal(block as nat) + back) == Some(block),
{
    crate::text::trimming_leaves_what_is_between(front, kept, back);
    let d = crate::number::decimal(block as nat);
    crate::number::digits_stand_for_number(block as nat, 10);
    assert(crate::number::is_digit(d[0], 10));
    assert(crate::number::is_digit(d[d.len() - 1], 10));
    crate::text::trimming_leaves_what_is_between(front, d, back);
    crate::number::written_number_reads_back(block, 10);
}

} // verus!
