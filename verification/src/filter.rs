//! The outcome of a run of the filter tool, which is handed the raw text and
//! a query and answers with filtered JSON.

use crate::text::result_view;
use vstd::prelude::*;
use vstd::string::StringExecFns;

verus! {

/// How a run of the filter tool went.
#[derive(Debug, PartialEq, Eq)]
pub enum FilterRun {
    /// The tool could not be started.
    SpawnFailed { cause: String },
    /// The raw text could not be handed to the tool.
    WriteFailed { cause: String },
    /// The tool's end could not be waited for.
    WaitFailed { cause: String },
    /// The tool ran to its end: whether it reported success, and what it
    /// wrote to its output and to its error stream.
    Exited { success: bool, output: String, errors: String },
}

/// The mathematical form of a [`FilterRun`].
pub enum FilterRunView {
    SpawnFailed { cause: Seq<char> },
    WriteFailed { cause: Seq<char> },
    WaitFailed { cause: Seq<char> },
    Exited { success: bool, output: Seq<char>, errors: Seq<char> },
}

impl View for FilterRun {
    type V = FilterRunView;

    open spec fn view(&self) -> FilterRunView {
        match self {
            FilterRun::SpawnFailed { cause } => FilterRunView::SpawnFailed { cause: cause@ },
            FilterRun::WriteFailed { cause } => FilterRunView::WriteFailed { cause: cause@ },
            FilterRun::WaitFailed { cause } => FilterRunView::WaitFailed { cause: cause@ },
            FilterRun::Exited { success, output, errors } => FilterRunView::Exited {
                success: *success,
                output: output@,
                errors: errors@,
            },
        }
    }
}

/// What a run gives: the tool's output where it ran and reported success,
/// else what it wrote to its error stream, or why it did not run.
pub open spec fn filter_outcome(run: FilterRunView) -> Result<Seq<char>, Seq<char>> {
    match run {
        FilterRunView::SpawnFailed { cause } => Err(
            "Failed to spawn jq process. Is jq installed and in PATH? "@ + cause,
        ),
        FilterRunView::WriteFailed { cause } => Err("Failed to write to jq stdin: "@ + cause),
        FilterRunView::WaitFailed { cause } => Err("Failed to wait for jq process: "@ + cause),
        FilterRunView::Exited { success, output, errors } => if success {
            Ok(output)
        } else {
            Err(errors)
        },
    }
}

/// `front` followed by `cause`.
fn complaint(front: &str, cause: &str) -> (message: String)
    ensures
        message@ == front@ + cause@,
{
    let mut message = String::from_str(front);
    message.append(cause);
    message
}

/// What a run of the filter tool gives to the viewer.
pub fn filter_result(run: FilterRun) -> (result: Result<String, String>)
    ensures
        result_view(result) == filter_outcome(run@),
{
    match run {
        FilterRun::SpawnFailed { cause } => Err(
            complaint("Failed to spawn jq process. Is jq installed and in PATH? ", cause.as_str()),
        ),
        FilterRun::WriteFailed { cause } => Err(
            complaint("Failed to write to jq stdin: ", cause.as_str()),
        ),
        FilterRun::WaitFailed { cause } => Err(
            complaint("Failed to wait for jq process: ", cause.as_str()),
        ),
        FilterRun::Exited { success, output, errors } => if success {
            Ok(output)
        } else {
            Err(errors)
        },
    }
}

} // verus!
