//! The preview of a new file.
use crate::text;
use vstd::prelude::*;

verus! {

/// What reading a file for its preview led to.
#[derive(Debug, PartialEq, Eq)]
pub enum PreviewResult {
    /// it is what it was
    Unchanged,
    Changed { bytes: Vec<u8>, hash: u64 },
    Error(String),
}

/// Whether a result is what a file that was read means for its preview.
pub open spec fn is_outcome(
    read: Result<(Vec<u8>, u64), String>,
    previous_hash: Option<u64>,
    result: PreviewResult,
) -> bool {
    match read {
        Ok((bytes, hash)) => result == if previous_hash == Some(hash) {
            PreviewResult::Unchanged
        } else {
            PreviewResult::Changed { bytes, hash }
        },
        Err(error) => result matches PreviewResult::Error(message) && message@
            == "error loading file: "@ + error@,
    }
}

/// What a file that was read means for its preview, given its hash and the one
/// of the file that is shown.
pub fn preview_result(read: Result<(Vec<u8>, u64), String>, previous_hash: Option<u64>) -> (r:
    PreviewResult)
    ensures
        is_outcome(read, previous_hash, r),
{
    match read {
        Ok((bytes, hash)) => {
            let same = match previous_hash {
                Some(previous) => previous == hash,
                None => false,
            };
            if same {
                PreviewResult::Unchanged
            } else {
                PreviewResult::Changed { bytes, hash }
            }
        },
        Err(error) => PreviewResult::Error(text::join2("error loading file: ", error.as_str())),
    }
}

/// The read of a file for its preview. Its generation tells whether the result
/// is still wanted.
#[derive(Debug, PartialEq, Eq)]
pub struct StatusFilePreviewJob {
    pub path: String,
    pub staged: bool,
    pub generation: u64,
    pub previous_hash: Option<u64>,
    pub outcome: Option<PreviewResult>,
}

impl StatusFilePreviewJob {
    /// A read that has not run yet.
    pub fn new(path: String, staged: bool, generation: u64, previous_hash: Option<u64>) -> (r:
        StatusFilePreviewJob)
        ensures
            r == (StatusFilePreviewJob { path, staged, generation, previous_hash, outcome: None }),
    {
        StatusFilePreviewJob { path, staged, generation, previous_hash, outcome: None }
    }

    /// Take in what was read.
    pub fn finish(&mut self, read: Result<(Vec<u8>, u64), String>)
        ensures
            *final(self) == (StatusFilePreviewJob { outcome: final(self).outcome, ..*old(self) }),
            final(self).outcome is Some,
            is_outcome(read, old(self).previous_hash, final(self).outcome->0),
    {
        self.outcome = Some(preview_result(read, self.previous_hash));
    }

    /// Take the result out, with the generation that it belongs to.
    pub fn result(&mut self) -> (r: Option<(u64, PreviewResult)>)
        ensures
            *final(self) == (StatusFilePreviewJob { outcome: None, ..*old(self) }),
            r == match old(self).outcome {
                Some(result) => Some((old(self).generation, result)),
                None => None,
            },
    {
        match self.outcome.take() {
            Some(result) => Some((self.generation, result)),
            None => None,
        }
    }
}

/// A file is shown anew exactly where what was read differs from what is shown,
/// and then with the bytes that were read; a file that cannot be read is told.
pub proof fn lemma_changed_files_are_shown(
    read: Result<(Vec<u8>, u64), String>,
    previous_hash: Option<u64>,
    result: PreviewResult,
)
    requires
        is_outcome(read, previous_hash, result),
    ensures
        result is Error <==> read is Err,
        read is Ok ==> (result is Unchanged <==> previous_hash == Some((read->Ok_0).1)),
        result matches PreviewResult::Changed { bytes, hash } ==> read == Ok::<
            (Vec<u8>, u64),
            String,
        >((bytes, hash)),
        result matches PreviewResult::Error(message) ==> message@ == "error loading file: "@
            + read->Err_0@,
{
}

} // verus!
