//! The work on one part: the results of its batches come in, in any order, and in the end
//! there is a file.
use vstd::prelude::*;

use crate::output::{write_addresses_file, AddressSet, PartFile};
use crate::plan::{micro_batches, reports_progress, Part};
use crate::text::join;

verus! {

/// Why a batch has no result.
#[derive(Debug, PartialEq)]
pub enum BatchFailure {
    /// The task that fetched it broke down.
    Worker(String),
    /// No endpoint has answered.
    Rpc(String),
}

/// A report of progress: how many batches are in, of how many, and how many different
/// addresses there are so far.
#[derive(Clone, Copy, Debug, PartialEq, Eq, Structural)]
pub struct Progress {
    pub processed: usize,
    pub total: usize,
    pub unique: usize,
}

/// The work on one part: how many of how many batches are in, and the addresses in them.
pub struct PartWork {
    part: Part,
    processed: usize,
    total: usize,
    addresses: AddressSet,
}

/// [`PartWork`] as mathematics.
pub struct PartWorkView {
    pub part: Part,
    pub processed: nat,
    pub total: nat,
    pub addresses: Seq<Seq<char>>,
}

impl View for PartWork {
    type V = PartWorkView;

    closed spec fn view(&self) -> PartWorkView {
        PartWorkView {
            part: self.part,
            processed: self.processed as nat,
            total: self.total as nat,
            addresses: self.addresses@,
        }
    }
}

/// The text that names a [`BatchFailure`].
pub open spec fn failure_text(failure: BatchFailure) -> Seq<char> {
    match failure {
        BatchFailure::Worker(error) => "Worker task failed: "@ + error@,
        BatchFailure::Rpc(error) => "RPC batch permanently failed: "@ + error@,
    }
}

/// The progress to report: at every so many batches, and at the last one.
pub open spec fn progress_at(work: PartWorkView) -> Option<Progress> {
    if work.processed % (crate::plan::BATCHES_PER_REPORT as nat) == 0 || work.processed
        == work.total {
        Some(
            Progress {
                processed: work.processed as usize,
                total: work.total as usize,
                unique: work.addresses.len() as usize,
            },
        )
    } else {
        None
    }
}

impl BatchFailure {
    /// The failure in words.
    pub fn message(&self) -> (text: String)
        ensures
            text@ == failure_text(*self),
    {
        match self {
            BatchFailure::Worker(error) => join("Worker task failed: ", error.as_str()),
            BatchFailure::Rpc(error) => join("RPC batch permanently failed: ", error.as_str()),
        }
    }
}

impl PartWork {
    /// Whether no more batches are in than there are, and the addresses are well formed.
    pub closed spec fn well_formed(self) -> bool {
        &&& self.processed <= self.total
        &&& self.addresses.well_formed()
    }

    /// Starts the work on a part; the batches are to be fetched.
    pub fn begin(part: Part) -> (r: (PartWork, Vec<Vec<u64>>))
        ensures
            r.0.well_formed(),
            r.0@ == (PartWorkView {
                part,
                processed: 0,
                total: r.1@.len(),
                addresses: Seq::empty(),
            }),
            r.1@.map_values(|batch: Vec<u64>| batch@) == crate::plan::batches_of(
                part.first as int,
                part.last as int,
            ),
    {
        let batches = micro_batches(part.first, part.last);
        let work = PartWork {
            part,
            processed: 0,
            total: batches.len(),
            addresses: AddressSet::new(),
        };
        (work, batches)
    }

    /// Takes in the result of a batch. A failure ends the work, with its text; else there may
    /// be progress to report.
    pub fn take(&mut self, result: Result<Vec<String>, BatchFailure>) -> (r: Result<
        Option<Progress>,
        String,
    >)
        requires
            old(self).well_formed(),
            old(self)@.processed < old(self)@.total,
        ensures
            final(self).well_formed(),
            match result {
                Err(failure) => {
                    &&& r matches Err(text) && text@ == failure_text(failure)
                    &&& final(self)@ == old(self)@
                },
                Ok(found) => {
                    &&& final(self)@ == (PartWorkView {
                        processed: old(self)@.processed + 1,
                        addresses: crate::text::with_texts(
                            old(self)@.addresses,
                            crate::text::texts(found@),
                        ),
                        ..old(self)@
                    })
                    &&& r matches Ok(progress) && progress == progress_at(final(self)@)
                },
            },
    {
        let found = match result {
            Ok(found) => found,
            Err(failure) => {
                return Err(failure.message());
            },
        };
        self.addresses.extend(found);
        self.processed = self.processed + 1;
        if reports_progress(self.processed, self.total) {
            Ok(
                Some(
                    Progress {
                        processed: self.processed,
                        total: self.total,
                        unique: self.addresses.len(),
                    },
                ),
            )
        } else {
            Ok(None)
        }
    }

    /// How many different addresses there are.
    pub fn unique(&self) -> (n: usize)
        ensures
            n == self@.addresses.len(),
    {
        self.addresses.len()
    }

    /// The file of the part, which lists each address once; there is none without addresses.
    pub fn file(&self, chain: &str) -> (file: Option<PartFile>)
        requires
            self.well_formed(),
        ensures
            self@.addresses.no_duplicates(),
            match file {
                Some(file) => {
                    &&& self@.addresses.len() > 0
                    &&& file.name@ == crate::output::part_file_name(chain@, self@.part.number)
                    &&& file.content@ == crate::output::gzip_of(
                        crate::output::csv_text(self@.addresses),
                    )
                    &&& crate::output::gunzip_of(file.content@) == Some(
                        vstd::utf8::encode_utf8(crate::output::csv_text(self@.addresses)),
                    )
                },
                None => self@.addresses.len() == 0,
            },
    {
        proof {
            crate::output::addresses_are_kept_once(self.addresses);
        }
        if self.addresses.is_empty() {
            None
        } else {
            Some(write_addresses_file(chain, self.part.number, &self.addresses))
        }
    }
}

/// Progress is reported at every thousandth batch and at the last, with the number of batches
/// that are in, of all, and of the different addresses in them, and at no other.
pub proof fn progress_is_reported_at_every_thousandth_batch(work: PartWorkView)
    requires
        work.processed <= usize::MAX,
        work.total <= usize::MAX,
        work.addresses.len() <= usize::MAX,
    ensures
        work.processed % 1000 == 0 || work.processed == work.total ==> (progress_at(
            work,
        ) matches Some(progress) && progress.processed == work.processed && progress.total
            == work.total && progress.unique == work.addresses.len()),
        work.processed % 1000 != 0 && work.processed != work.total ==> progress_at(work) is None,
{
}

/// A failure of a batch is told with its reason, and with whether it was the task or the
/// network that failed.
pub proof fn failures_of_batches_are_told_with_their_reason(reason: String)
    ensures
        failure_text(BatchFailure::Worker(reason)) == "Worker task failed: "@ + reason@,
        failure_text(BatchFailure::Rpc(reason)) == "RPC batch permanently failed: "@ + reason@,
{
}

} // verus!
