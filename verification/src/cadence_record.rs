//! Cadence monthly-record registration after a curation pass.
//!
//! After the monthly aggregate is written, `cadence record monthly` registers
//! it as a cadence record, linking it back to the weekly source ULIDs. This
//! module says what that run is given and what its outcome means; running it
//! is left to the caller.

use vstd::prelude::*;
use crate::cadence_intake::views;
use crate::process_output::{decode_lossy, lossy_utf8, ProcessReport};
use crate::text::{join, join_spec, law_join_splits_back, split_spec, trim, trim_spec};
use vstd::utf8::{decode_utf8, valid_utf8};

verus! {

/// Parameters for registering a monthly cadence record.
#[derive(Debug, Clone)]
pub struct RecordParams {
    /// Path of the emitted monthly aggregate Markdown.
    pub path: String,
    /// Human-readable summary, e.g. `"2026-05: 3 letters"`.
    pub summary: String,
    /// ULIDs of weekly records that were pulled into intake.
    pub source_ids: Vec<String>,
    /// Override `$CADENCE_HOME` for the subprocess. `None` = inherit.
    pub cadence_home: Option<String>,
}

/// Outcome of the record attempt.
#[derive(Debug)]
pub enum RecordOutcome {
    /// Record was created.
    Created {
        /// The ULID of the new record as printed by cadence.
        id: String,
    },
    /// `cadence record` failed; message explains why.
    Failed(String),
}

/// The `--sources` arguments: the ULIDs joined by commas, and only when there
/// is at least one.
pub open spec fn sources_args(ids: Seq<Seq<char>>) -> Seq<Seq<char>> {
    if ids.len() > 0 {
        seq!["--sources"@, join_spec(ids, seq![','])]
    } else {
        Seq::empty()
    }
}

/// The arguments of `cadence` that register the aggregate at `params.path`
/// as a monthly record produced by letter-curate.
pub open spec fn record_args_spec(params: RecordParams) -> Seq<Seq<char>> {
    seq![
        "record"@,
        "monthly"@,
        "--produced-by"@,
        "letter-curate"@,
        "--path"@,
        params.path@,
        "--summary"@,
        params.summary@,
    ] + sources_args(views(params.source_ids@))
}

/// The arguments of the `cadence` run that registers a monthly record.
pub fn record_command_args(params: &RecordParams) -> (args: Vec<String>)
    ensures
        views(args@) == record_args_spec(*params),
{
    let mut args: Vec<String> = Vec::new();
    args.push(String::from_str("record"));
    args.push(String::from_str("monthly"));
    args.push(String::from_str("--produced-by"));
    args.push(String::from_str("letter-curate"));
    args.push(String::from_str("--path"));
    args.push(params.path.clone());
    args.push(String::from_str("--summary"));
    args.push(params.summary.clone());
    if params.source_ids.len() > 0 {
        proof {
            reveal_strlit(",");
            assert(","@ =~= seq![',']);
            assert(params.source_ids@.map_values(|p: String| p@) =~= views(params.source_ids@));
        }
        args.push(String::from_str("--sources"));
        args.push(join(&params.source_ids, ","));
    }
    assert(views(args@) =~= record_args_spec(*params));
    args
}

/// What a `cadence record` run amounts to: `launch` is the finished run, or
/// the message of the failure to start it. On success the record's ULID is
/// what the run printed, trimmed.
pub fn record_outcome(launch: Result<ProcessReport, String>) -> (outcome: RecordOutcome)
    ensures
        match launch {
            Err(e) => outcome matches RecordOutcome::Failed(m) && m@ == "cadence not found: "@ + e@,
            Ok(report) => if !report.success {
                &&& outcome matches RecordOutcome::Failed(m) && m@ == "cadence record failed: "@
                    + lossy_utf8(report.stderr@)
                &&& valid_utf8(report.stderr@) ==> (outcome matches RecordOutcome::Failed(m) && m@
                    == "cadence record failed: "@ + decode_utf8(report.stderr@))
            } else {
                &&& outcome matches RecordOutcome::Created { id } && id@ == trim_spec(
                    lossy_utf8(report.stdout@),
                )
                &&& valid_utf8(report.stdout@) ==> (outcome matches RecordOutcome::Created { id }
                    && id@ == trim_spec(decode_utf8(report.stdout@)))
            },
        },
{
    match launch {
        Err(e) => {
            let mut m = String::from_str("cadence not found: ");
            m.append(e.as_str());
            RecordOutcome::Failed(m)
        },
        Ok(report) => {
            if !report.success {
                let stderr = decode_lossy(report.stderr.as_slice());
                let mut m = String::from_str("cadence record failed: ");
                m.append(stderr.as_str());
                return RecordOutcome::Failed(m);
            }
            let stdout = decode_lossy(report.stdout.as_slice());
            RecordOutcome::Created { id: trim(stdout.as_str()) }
        },
    }
}


/// The monthly record is linked to every weekly source, in order: with
/// source ULIDs, the arguments end in `--sources` and one argument that,
/// split at commas, gives back exactly those ULIDs; without any, the
/// arguments stop after the summary. (ULIDs hold no comma.)
pub proof fn law_sources_argument_lists_every_id(params: RecordParams)
    requires
        forall|i: int|
            0 <= i < params.source_ids@.len() ==> !(#[trigger] params.source_ids@[i])@.contains(','),
    ensures
        params.source_ids@.len() == 0 ==> record_args_spec(params).len() == 8,
        params.source_ids@.len() > 0 ==> {
            &&& record_args_spec(params).len() == 10
            &&& record_args_spec(params)[8] == "--sources"@
            &&& split_spec(record_args_spec(params)[9], ',') == views(params.source_ids@)
        },
        record_args_spec(params)[5] == params.path@,
        record_args_spec(params)[7] == params.summary@,
{
    let ids = views(params.source_ids@);
    if ids.len() > 0 {
        assert forall|i: int| 0 <= i < ids.len() implies !(#[trigger] ids[i]).contains(',') by {
            assert(ids[i] == params.source_ids@[i]@);
        }
        law_join_splits_back(ids, ',');
    }
}

} // verus!
