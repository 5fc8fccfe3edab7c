//! Describing one APK file by the best source that can be had.
//!
//! The preferred source is the output of a badging tool, of which two are
//! tried in order. Where none gives output, the container itself is looked
//! into, which tells less: facts of structure only. The result says which of
//! the two it is.

use crate::archive::directory_of;
use crate::archive::entry_readable;
use crate::archive::summarize_apk;
use crate::archive::summary_of;
use crate::archive::ArchiveError;
use crate::archive::ArchiveSummary;
use crate::badging::badging_of;
use crate::badging::parse_badging;
use crate::badging::BadgingInfo;
use vstd::prelude::*;

verus! {

/// What a badging dump says, and, where the caller asked for it, the dump
/// itself as it was read.
pub struct BadgingReport {
    pub info: BadgingInfo,
    pub raw_output: Option<String>,
}

/// What is known of an APK file, and from which source.
pub enum ApkAnalysis {
    /// What a badging dump says: identity, version, label and permissions.
    Badging(BadgingReport),
    /// What the container shows when no badging dump can be had.
    ArchiveOnly(ArchiveSummary),
}

impl ApkAnalysis {
    /// Whether the preferred source was missing, so that only the container
    /// was looked into.
    pub fn is_fallback(&self) -> (b: bool)
        ensures
            b == (*self is ArchiveOnly),
    {
        match self {
            ApkAnalysis::Badging(_) => false,
            ApkAnalysis::ArchiveOnly(_) => true,
        }
    }
}

/// Reads a badging dump. With `debug` set the report carries the dump along,
/// unchanged; without, it does not.
pub fn report_badging(output: &str, debug: bool) -> (report: BadgingReport)
    ensures
        report.info@ == badging_of(output@),
        report.info.wf(),
        debug ==> (report.raw_output matches Some(raw) && raw@ == output@),
        !debug ==> report.raw_output is None,
{
    BadgingReport {
        info: parse_badging(output),
        raw_output: if debug {
            Some(output.to_owned())
        } else {
            None
        },
    }
}

/// How the run of one badging tool ended.
#[derive(Clone, Copy, PartialEq, Eq, Structural, Debug)]
pub enum ToolOutcome {
    /// The tool is not installed.
    NotFound,
    /// The tool is installed and could not be started.
    NotStarted,
    /// The tool ran and reported failure.
    Failed,
    /// The tool ran and reported success.
    Succeeded,
}

/// What to do after the run of one badging tool.
#[derive(Clone, Copy, PartialEq, Eq, Structural, Debug)]
pub enum ToolStep {
    /// Read the output of this tool.
    UseOutput,
    /// Try the next tool, or look into the container if this was the last.
    TryNext,
    /// Try no other tool and look into the container.
    FallBack,
}

/// The step that follows an outcome: the first tool that succeeds is the one
/// whose output is read; a tool that is missing or fails leaves the turn to the
/// next; a tool that cannot be started ends the attempts.
pub open spec fn step_after(outcome: ToolOutcome) -> ToolStep {
    match outcome {
        ToolOutcome::Succeeded => ToolStep::UseOutput,
        ToolOutcome::NotFound => ToolStep::TryNext,
        ToolOutcome::Failed => ToolStep::TryNext,
        ToolOutcome::NotStarted => ToolStep::FallBack,
    }
}

/// Computes `step_after`.
pub fn next_step(outcome: ToolOutcome) -> (step: ToolStep)
    ensures
        step == step_after(outcome),
{
    match outcome {
        ToolOutcome::Succeeded => ToolStep::UseOutput,
        ToolOutcome::NotFound => ToolStep::TryNext,
        ToolOutcome::Failed => ToolStep::TryNext,
        ToolOutcome::NotStarted => ToolStep::FallBack,
    }
}

/// The names of the badging tools, in the order in which they are tried.
pub open spec fn badging_tools() -> Seq<Seq<char>> {
    seq!["aapt"@, "aapt2"@]
}

/// The name of the badging tool with the given number, if there is one.
pub fn badging_tool(number: usize) -> (name: Option<&'static str>)
    ensures
        match name {
            Some(n) => number < badging_tools().len() && n@ == badging_tools()[number as int],
            None => number >= badging_tools().len(),
        },
{
    if number == 0 {
        Some("aapt")
    } else if number == 1 {
        Some("aapt2")
    } else {
        None
    }
}

/// Describes an APK file from the output of a badging tool where there is
/// one, and else from the bytes of the container. With output nothing can
/// fail, and with `debug` set the report carries the output along. Without
/// output the container is summarized: bytes that are no ZIP archive are an
/// error; so is an entry that cannot be looked up, and the first such entry is
/// the one reported; every other archive gets its summary.
pub fn analyze_apk(badging_output: Option<&str>, bytes: Vec<u8>, debug: bool) -> (r: Result<
    ApkAnalysis,
    ArchiveError,
>)
    ensures
        match badging_output {
            Some(output) => r matches Ok(ApkAnalysis::Badging(report)) && report.info@
                == badging_of(output@) && report.info.wf() && (if debug {
                report.raw_output matches Some(raw) && raw@ == output@
            } else {
                report.raw_output is None
            }),
            None => match directory_of(bytes@) {
                None => r matches Err(ArchiveError::NotAnArchive { .. }),
                Some(names) => match r {
                    Ok(ApkAnalysis::ArchiveOnly(summary)) => summary@ == summary_of(
                        names,
                        bytes@.len(),
                    ) && forall|i: int| 0 <= i < names.len() ==> entry_readable(bytes@, i),
                    Ok(ApkAnalysis::Badging(_)) => false,
                    Err(ArchiveError::UnreadableEntry { index, .. }) => index < names.len()
                        && !entry_readable(bytes@, index as int) && forall|j: int|
                        0 <= j < index ==> entry_readable(bytes@, j),
                    Err(ArchiveError::NotAnArchive { .. }) => false,
                },
            },
        },
{
    match badging_output {
        Some(output) => Ok(ApkAnalysis::Badging(report_badging(output, debug))),
        None => match summarize_apk(bytes) {
            Ok(summary) => Ok(ApkAnalysis::ArchiveOnly(summary)),
            Err(e) => Err(e),
        },
    }
}

} // verus!
