//! The `letter` command line: its arguments, the state filter of `list`, and
//! the text that `stats` and `curate` print.
//!
//! The argument types here are plain data; parsing the command line, the
//! filesystem and the clock are left to the program around the library.

use vstd::prelude::*;
use crate::cadence_intake::{IntakeConfig, IntakeOutcome, views, WeeklySource};
use crate::cadence_record::{RecordOutcome, RecordParams};
use crate::text::{
    decimal, decimal_spec, lemma_concat_one_line, lemma_decimal_one_line, lemma_signed_decimal_one_line,
    lemma_split_around, lemma_split_lines, lemma_split_without, lines_text, signed_decimal,
    signed_decimal_spec, split_spec,
};

verus! {

/// Triage state of a letter.
#[derive(Debug, Clone, Copy, PartialEq, Eq)]
pub enum State {
    Pending,
    Accepted,
    Declined,
    SendReal,
}

/// Which letters a listing shows.
#[derive(Debug, Clone, Copy, PartialEq, Eq)]
pub enum StateFilter {
    All,
    Only(State),
}

/// Top-level CLI.
#[derive(Debug)]
pub struct Cli {
    /// Subcommand to run.
    pub command: Command,
}

/// Subcommands.
#[derive(Debug)]
pub enum Command {
    /// List letters under the root.
    List(ListArgs),
    /// Mark a letter as accepted.
    Accept(MutateArgs),
    /// Mark a letter as declined.
    Decline(MutateArgs),
    /// Mark a letter to send for real.
    MarkSendReal(MutateArgs),
    /// Aggregate counts.
    Stats(StatsArgs),
    /// Open a letter in $EDITOR.
    Open(MutateArgs),
    /// Curate a month's letters with optional cadence intake.
    Curate(CurateArgs),
}

/// Arguments to `list`.
#[derive(Debug)]
pub struct ListArgs {
    /// Root letters directory.
    pub root: Option<String>,
    /// Filter to a single year (matches `month: YYYY-MM` frontmatter).
    pub year: Option<i32>,
    /// State filter.
    pub state: StateArg,
}

/// Arguments to `accept` / `decline` / `mark-send-real` / `open`.
#[derive(Debug)]
pub struct MutateArgs {
    /// Letter file (relative to root or absolute path).
    pub filename: String,
    /// Root letters directory.
    pub root: Option<String>,
}

/// Arguments to `stats`.
#[derive(Debug)]
pub struct StatsArgs {
    /// Root letters directory.
    pub root: Option<String>,
    /// Year filter; defaults to the current year.
    pub year: Option<i32>,
}

/// Arguments to `curate`.
#[derive(Debug)]
pub struct CurateArgs {
    /// Root letters directory.
    pub root: Option<String>,
    /// Year to curate (defaults to current year).
    pub year: Option<i32>,
    /// Output path for the monthly aggregate Markdown.
    pub output: Option<String>,
    /// Pull weekly cadence records from confidant as additional intake.
    pub cadence_intake: bool,
    /// Duration window for cadence intake (e.g. `30d`).
    pub cadence_since: String,
    /// Suppress writing the monthly cadence record after curation.
    pub no_cadence_record: bool,
    /// Print all candidate source paths before curation output.
    pub print_sources: bool,
}

/// CLI value for `--state`.
#[derive(Debug, Clone, Copy, PartialEq, Eq)]
pub enum StateArg {
    /// All letters.
    All,
    /// Pending letters.
    Pending,
    /// Accepted letters.
    Accepted,
    /// Declined letters.
    Declined,
    /// Marked send-for-real letters.
    SendReal,
}

impl StateArg {
    /// The filter this value selects: every letter for `All`, else the
    /// letters in the named state.
    pub open spec fn filter_spec(self) -> StateFilter {
        match self {
            StateArg::All => StateFilter::All,
            StateArg::Pending => StateFilter::Only(State::Pending),
            StateArg::Accepted => StateFilter::Only(State::Accepted),
            StateArg::Declined => StateFilter::Only(State::Declined),
            StateArg::SendReal => StateFilter::Only(State::SendReal),
        }
    }

    /// Convert into the runtime `StateFilter`.
    pub fn filter(self) -> (f: StateFilter)
        ensures
            f == self.filter_spec(),
    {
        match self {
            StateArg::All => StateFilter::All,
            StateArg::Pending => StateFilter::Only(State::Pending),
            StateArg::Accepted => StateFilter::Only(State::Accepted),
            StateArg::Declined => StateFilter::Only(State::Declined),
            StateArg::SendReal => StateFilter::Only(State::SendReal),
        }
    }
}

/// Letter counts by state.
#[derive(Debug, Clone, Copy)]
pub struct Stats {
    pub accepted: usize,
    pub declined: usize,
    pub pending: usize,
    pub send_real: usize,
    pub total: usize,
}

/// The decimal notation of a count.
pub open spec fn count_text(n: usize) -> Seq<char> {
    decimal_spec(n as nat)
}

/// The report of `stats`: one `name: count` line per state, then the total.
pub open spec fn stats_text(s: Stats) -> Seq<char> {
    "accepted: "@ + count_text(s.accepted) + "\ndeclined: "@ + count_text(s.declined)
        + "\npending: "@ + count_text(s.pending) + "\nsend-real: "@ + count_text(s.send_real)
        + "\ntotal: "@ + count_text(s.total) + "\n"@
}

fn count_decimal(n: usize) -> (r: String)
    ensures
        r@ == count_text(n),
{
    decimal(n as u64)
}

/// The report that `stats` prints.
pub fn format_stats(s: &Stats) -> (r: String)
    ensures
        r@ == stats_text(*s),
{
    let mut r = String::from_str("accepted: ");
    r.append(count_decimal(s.accepted).as_str());
    r.append("\ndeclined: ");
    r.append(count_decimal(s.declined).as_str());
    r.append("\npending: ");
    r.append(count_decimal(s.pending).as_str());
    r.append("\nsend-real: ");
    r.append(count_decimal(s.send_real).as_str());
    r.append("\ntotal: ");
    r.append(count_decimal(s.total).as_str());
    r.append("\n");
    r
}



/// The columns `list` prints for one letter: its file name, state, when it
/// was accepted, and its subject.
#[derive(Debug, Clone)]
pub struct ListRow {
    pub filename: String,
    pub state: String,
    pub accepted_at: String,
    pub subject: String,
}

/// One line of `list`: file name, state and accepted-at separated by single
/// spaces, then two spaces before the subject.
pub open spec fn list_line(row: ListRow) -> Seq<char> {
    row.filename@ + " "@ + row.state@ + " "@ + row.accepted_at@ + "  "@ + row.subject@ + "\n"@
}

/// The lines of `list`, one per row, in order.
pub open spec fn list_text(rows: Seq<ListRow>) -> Seq<char>
    decreases rows.len(),
{
    if rows.len() == 0 {
        Seq::empty()
    } else {
        list_text(rows.drop_last()) + list_line(rows.last())
    }
}

/// The text `list` prints for the letters that passed its filter.
pub fn format_list(rows: &Vec<ListRow>) -> (out: String)
    ensures
        out@ == list_text(rows@),
{
    let mut out = String::new();
    let mut k: usize = 0;
    while k < rows.len()
        invariant
            k <= rows.len(),
            out@ == list_text(rows@.take(k as int)),
        decreases rows.len() - k,
    {
        assert(rows@.take(k + 1).drop_last() =~= rows@.take(k as int));
        let row = &rows[k];
        out.append(row.filename.as_str());
        out.append(" ");
        out.append(row.state.as_str());
        out.append(" ");
        out.append(row.accepted_at.as_str());
        out.append("  ");
        out.append(row.subject.as_str());
        out.append("\n");
        assert(out@ =~= list_text(rows@.take(k + 1)));
        k = k + 1;
    }
    assert(rows@.take(rows.len() as int) =~= rows@);
    out
}

/// The intake configuration of a curation: the `--cadence-since` window with
/// the inherited `$CADENCE_HOME`, or none when intake is off.
pub fn curate_intake_config(args: &CurateArgs) -> (cfg: Option<IntakeConfig>)
    ensures
        cfg is Some <==> args.cadence_intake,
        cfg matches Some(c) ==> c.since@ == args.cadence_since@ && c.cadence_home is None,
{
    if args.cadence_intake {
        Some(IntakeConfig { since: args.cadence_since.clone(), cadence_home: None })
    } else {
        None
    }
}

/// The letter paths of weekly sources, in order.
pub open spec fn source_paths(ws: Seq<WeeklySource>) -> Seq<Seq<char>> {
    ws.map_values(|w: WeeklySource| w.path@)
}

/// The record ULIDs of weekly sources, in order.
pub open spec fn source_ids(ws: Seq<WeeklySource>) -> Seq<Seq<char>> {
    ws.map_values(|w: WeeklySource| w.record_id@)
}

/// The warning printed when cadence intake is unavailable.
pub open spec fn intake_warning(msg: Seq<char>) -> Seq<char> {
    "warning: cadence intake unavailable: "@ + msg
}

/// Fold an intake outcome into a curation: weekly sources add their paths to
/// `sources` and their ULIDs to `weekly_ids`; an unavailable intake changes
/// nothing and yields the warning to print; an empty one changes nothing.
pub fn fold_intake(
    sources: &mut Vec<String>,
    weekly_ids: &mut Vec<String>,
    outcome: &IntakeOutcome,
) -> (warning: Option<String>)
    ensures
        match *outcome {
            IntakeOutcome::Sources(ws) => {
                &&& views(final(sources)@) == views(old(sources)@) + source_paths(ws@)
                &&& views(final(weekly_ids)@) == views(old(weekly_ids)@) + source_ids(ws@)
                &&& warning is None
            },
            IntakeOutcome::Empty => {
                &&& final(sources)@ == old(sources)@
                &&& final(weekly_ids)@ == old(weekly_ids)@
                &&& warning is None
            },
            IntakeOutcome::Unavailable(msg) => {
                &&& final(sources)@ == old(sources)@
                &&& final(weekly_ids)@ == old(weekly_ids)@
                &&& warning matches Some(w) && w@ == intake_warning(msg@)
            },
        },
{
    match outcome {
        IntakeOutcome::Sources(ws) => {
            let ghost s0 = views(sources@);
            let ghost i0 = views(weekly_ids@);
            let mut k: usize = 0;
            while k < ws.len()
                invariant
                    k <= ws.len(),
                    views(sources@) == s0 + source_paths(ws@.take(k as int)),
                    views(weekly_ids@) == i0 + source_ids(ws@.take(k as int)),
                decreases ws.len() - k,
            {
                let ghost pre_s = views(sources@);
                let ghost pre_i = views(weekly_ids@);
                sources.push(ws[k].path.clone());
                weekly_ids.push(ws[k].record_id.clone());
                assert(views(sources@) =~= pre_s.push(ws@[k as int].path@));
                assert(views(weekly_ids@) =~= pre_i.push(ws@[k as int].record_id@));
                assert(source_paths(ws@.take(k + 1)) =~= source_paths(ws@.take(k as int)).push(
                    ws@[k as int].path@,
                ));
                assert(source_ids(ws@.take(k + 1)) =~= source_ids(ws@.take(k as int)).push(
                    ws@[k as int].record_id@,
                ));
                assert(views(sources@) =~= s0 + source_paths(ws@.take(k + 1)));
                assert(views(weekly_ids@) =~= i0 + source_ids(ws@.take(k + 1)));
                k = k + 1;
            }
            assert(ws@.take(ws.len() as int) =~= ws@);
            None
        },
        IntakeOutcome::Empty => None,
        IntakeOutcome::Unavailable(msg) => {
            let mut w = String::from_str("warning: cadence intake unavailable: ");
            w.append(msg.as_str());
            Some(w)
        },
    }
}

/// The name of the aggregate file of `year`, `<year>-aggregate.md`.
pub open spec fn aggregate_file_name_spec(year: i32) -> Seq<char> {
    signed_decimal_spec(year as int) + "-aggregate.md"@
}

/// The name of the aggregate file of `year`.
pub fn aggregate_file_name(year: i32) -> (name: String)
    ensures
        name@ == aggregate_file_name_spec(year),
{
    let mut name = signed_decimal(year as i64);
    name.append("-aggregate.md");
    name
}


/// Where a curation writes its aggregate: `None` when `--output` names the
/// file, else the year's aggregate file name, to be placed under the root.
pub fn aggregate_name_under_root(args: &CurateArgs, year: i32) -> (name: Option<String>)
    ensures
        args.output is Some ==> name is None,
        args.output is None ==> (name matches Some(n) && n@ == aggregate_file_name_spec(year)),
{
    match &args.output {
        Some(_) => None,
        None => Some(aggregate_file_name(year)),
    }
}

/// The registration that follows a curation: the aggregate at
/// `aggregate_path`, with the summary and the ULIDs of the weekly sources
/// pulled in, under the inherited `$CADENCE_HOME`; none with
/// `--no-cadence-record`.
pub fn curate_record_params(
    args: &CurateArgs,
    aggregate_path: String,
    summary: String,
    weekly_ids: Vec<String>,
) -> (params: Option<RecordParams>)
    ensures
        params is Some <==> !args.no_cadence_record,
        params matches Some(p) ==> {
            &&& p.path == aggregate_path
            &&& p.summary == summary
            &&& p.source_ids == weekly_ids
            &&& p.cadence_home is None
        },
{
    if args.no_cadence_record {
        None
    } else {
        Some(RecordParams { path: aggregate_path, summary, source_ids: weekly_ids, cadence_home: None })
    }
}

/// The summary a monthly record is registered with: `<year>: <total> letters`.
pub open spec fn curate_summary_spec(year: i32, s: Stats) -> Seq<char> {
    signed_decimal_spec(year as int) + ": "@ + count_text(s.total) + " letters"@
}

/// The summary a monthly record is registered with.
pub fn curate_summary(year: i32, s: &Stats) -> (summary: String)
    ensures
        summary@ == curate_summary_spec(year, *s),
{
    let mut summary = signed_decimal(year as i64);
    summary.append(": ");
    summary.append(count_decimal(s.total).as_str());
    summary.append(" letters");
    summary
}

/// One `- <path>` line per source, in order.
pub open spec fn source_lines(srcs: Seq<Seq<char>>) -> Seq<char>
    decreases srcs.len(),
{
    if srcs.len() == 0 {
        Seq::empty()
    } else {
        source_lines(srcs.drop_last()) + "- "@ + srcs.last() + "\n"@
    }
}

/// The `# sources` section that `--print-sources` puts first.
pub open spec fn sources_section(srcs: Seq<Seq<char>>) -> Seq<char> {
    "# sources\n"@ + source_lines(srcs) + "\n"@
}

/// The aggregate proper: heading with the year, the counts by state, and the
/// total.
pub open spec fn aggregate_body(year: i32, s: Stats) -> Seq<char> {
    "# Monthly aggregate — "@ + signed_decimal_spec(year as int) + "\n\n"@ + "accepted: "@
        + count_text(s.accepted) + "  declined: "@ + count_text(s.declined) + "  pending: "@
        + count_text(s.pending) + "  send-real: "@ + count_text(s.send_real) + "\n"@ + "total: "@
        + count_text(s.total) + "\n"@
}

/// The monthly aggregate text, with the sources section first when asked for.
pub open spec fn aggregate_text(year: i32, srcs: Seq<Seq<char>>, print_sources: bool, s: Stats) -> Seq<char> {
    if print_sources {
        sources_section(srcs) + aggregate_body(year, s)
    } else {
        aggregate_body(year, s)
    }
}

/// The monthly aggregate of `year` that `curate` writes and prints.
pub fn render_aggregate(year: i32, sources: &Vec<String>, print_sources: bool, s: &Stats) -> (out: String)
    ensures
        out@ == aggregate_text(year, views(sources@), print_sources, *s),
{
    let mut out = String::new();
    if print_sources {
        out.append("# sources\n");
        let ghost srcs = views(sources@);
        let mut k: usize = 0;
        while k < sources.len()
            invariant
                k <= sources.len(),
                srcs == views(sources@),
                out@ == "# sources\n"@ + source_lines(srcs.take(k as int)),
            decreases sources.len() - k,
        {
            assert(srcs.take(k + 1).drop_last() =~= srcs.take(k as int));
            out.append("- ");
            out.append(sources[k].as_str());
            out.append("\n");
            assert(out@ =~= "# sources\n"@ + source_lines(srcs.take(k + 1)));
            k = k + 1;
        }
        assert(srcs.take(sources.len() as int) =~= srcs);
        out.append("\n");
    }
    let ghost head = out@;
    out.append("# Monthly aggregate — ");
    out.append(signed_decimal(year as i64).as_str());
    out.append("\n\n");
    out.append("accepted: ");
    out.append(count_decimal(s.accepted).as_str());
    out.append("  declined: ");
    out.append(count_decimal(s.declined).as_str());
    out.append("  pending: ");
    out.append(count_decimal(s.pending).as_str());
    out.append("  send-real: ");
    out.append(count_decimal(s.send_real).as_str());
    out.append("\n");
    out.append("total: ");
    out.append(count_decimal(s.total).as_str());
    out.append("\n");
    assert(out@ =~= head + aggregate_body(year, *s));
    out
}

/// The warning printed when the monthly record could not be created.
pub open spec fn record_warning(msg: Seq<char>) -> Seq<char> {
    "warning: cadence record not created: "@ + msg
}

/// Report a registration in the curation output: a created record appends
/// `cadence record: <id>` on a line of its own after a blank line; a failed
/// one leaves the output as it is and yields the warning to print.
pub fn report_record(out: &mut String, outcome: &RecordOutcome) -> (warning: Option<String>)
    ensures
        match *outcome {
            RecordOutcome::Created { id } => {
                &&& final(out)@ == old(out)@ + "\ncadence record: "@ + id@ + "\n"@
                &&& warning is None
            },
            RecordOutcome::Failed(msg) => {
                &&& final(out)@ == old(out)@
                &&& warning matches Some(w) && w@ == record_warning(msg@)
            },
        },
{
    match outcome {
        RecordOutcome::Created { id } => {
            out.append("\ncadence record: ");
            out.append(id.as_str());
            out.append("\n");
            None
        },
        RecordOutcome::Failed(msg) => {
            let mut w = String::from_str("warning: cadence record not created: ");
            w.append(msg.as_str());
            Some(w)
        },
    }
}


/// No two `--state` values select the same letters.
pub proof fn law_state_filters_are_distinct(a: StateArg, b: StateArg)
    requires
        a != b,
    ensures
        a.filter_spec() != b.filter_spec(),
{
}

/// `--print-sources` only puts the sources section in front of the
/// aggregate; the rest of the text is the same.
pub proof fn law_print_sources_only_prefixes(year: i32, srcs: Seq<Seq<char>>, s: Stats)
    ensures
        aggregate_text(year, srcs, true, s) == sources_section(srcs) + aggregate_text(year, srcs, false, s),
{
}


/// The report of `stats` has one line per count, each showing its own
/// field: accepted, declined, pending, send-real, then the total.
#[verifier::spinoff_prover]
#[verifier::rlimit(40)]
pub proof fn law_stats_report_lines(s: Stats)
    ensures
        split_spec(stats_text(s), '\n') == seq![
            "accepted: "@ + decimal_spec(s.accepted as nat),
            "declined: "@ + decimal_spec(s.declined as nat),
            "pending: "@ + decimal_spec(s.pending as nat),
            "send-real: "@ + decimal_spec(s.send_real as nat),
            "total: "@ + decimal_spec(s.total as nat),
            Seq::<char>::empty(),
        ],
{
    reveal_strlit("accepted: ");
    reveal_strlit("declined: ");
    reveal_strlit("pending: ");
    reveal_strlit("send-real: ");
    reveal_strlit("total: ");
    reveal_strlit("\ndeclined: ");
    reveal_strlit("\npending: ");
    reveal_strlit("\nsend-real: ");
    reveal_strlit("\ntotal: ");
    reveal_strlit("\n");
    let l0 = "accepted: "@ + decimal_spec(s.accepted as nat);
    let l1 = "declined: "@ + decimal_spec(s.declined as nat);
    let l2 = "pending: "@ + decimal_spec(s.pending as nat);
    let l3 = "send-real: "@ + decimal_spec(s.send_real as nat);
    let l4 = "total: "@ + decimal_spec(s.total as nat);
    let e = Seq::<char>::empty();
    let nl = seq!['\n'];
    assert("\ndeclined: "@ =~= nl + "declined: "@);
    assert("\npending: "@ =~= nl + "pending: "@);
    assert("\nsend-real: "@ =~= nl + "send-real: "@);
    assert("\ntotal: "@ =~= nl + "total: "@);
    assert("\n"@ =~= nl + e);
    let r4 = l4 + nl + e;
    let r3 = l3 + nl + r4;
    let r2 = l2 + nl + r3;
    let r1 = l1 + nl + r2;
    assert(stats_text(s) =~= l0 + nl + r1);
    lemma_decimal_one_line(s.accepted as nat);
    lemma_decimal_one_line(s.declined as nat);
    lemma_decimal_one_line(s.pending as nat);
    lemma_decimal_one_line(s.send_real as nat);
    lemma_decimal_one_line(s.total as nat);
    lemma_concat_one_line("accepted: "@, decimal_spec(s.accepted as nat));
    lemma_concat_one_line("declined: "@, decimal_spec(s.declined as nat));
    lemma_concat_one_line("pending: "@, decimal_spec(s.pending as nat));
    lemma_concat_one_line("send-real: "@, decimal_spec(s.send_real as nat));
    lemma_concat_one_line("total: "@, decimal_spec(s.total as nat));
    lemma_split_without(l0, '\n');
    lemma_split_without(l1, '\n');
    lemma_split_without(l2, '\n');
    lemma_split_without(l3, '\n');
    lemma_split_without(l4, '\n');
    lemma_split_without(e, '\n');
    lemma_split_around(l4, e, '\n');
    lemma_split_around(l3, r4, '\n');
    lemma_split_around(l2, r3, '\n');
    lemma_split_around(l1, r2, '\n');
    lemma_split_around(l0, r1, '\n');
    assert(split_spec(stats_text(s), '\n') =~= seq![l0, l1, l2, l3, l4, e]);
}

/// The aggregate proper is a heading with the year, a blank line, the line
/// of counts by state, and a line with the total.
#[verifier::spinoff_prover]
#[verifier::rlimit(40)]
pub proof fn law_aggregate_body_lines(year: i32, s: Stats)
    ensures
        split_spec(aggregate_body(year, s), '\n') == seq![
            "# Monthly aggregate — "@ + signed_decimal_spec(year as int),
            Seq::<char>::empty(),
            "accepted: "@ + decimal_spec(s.accepted as nat) + "  declined: "@ + decimal_spec(
                s.declined as nat,
            ) + "  pending: "@ + decimal_spec(s.pending as nat) + "  send-real: "@ + decimal_spec(
                s.send_real as nat,
            ),
            "total: "@ + decimal_spec(s.total as nat),
            Seq::<char>::empty(),
        ],
{
    reveal_strlit("# Monthly aggregate — ");
    reveal_strlit("\n\n");
    reveal_strlit("accepted: ");
    reveal_strlit("  declined: ");
    reveal_strlit("  pending: ");
    reveal_strlit("  send-real: ");
    reveal_strlit("total: ");
    reveal_strlit("\n");
    let e = Seq::<char>::empty();
    let nl = seq!['\n'];
    let h = "# Monthly aggregate — "@ + signed_decimal_spec(year as int);
    let c = "accepted: "@ + decimal_spec(s.accepted as nat) + "  declined: "@ + decimal_spec(
        s.declined as nat,
    ) + "  pending: "@ + decimal_spec(s.pending as nat) + "  send-real: "@ + decimal_spec(
        s.send_real as nat,
    );
    let t = "total: "@ + decimal_spec(s.total as nat);
    assert("\n\n"@ =~= nl + e + nl);
    assert("\n"@ =~= nl + e);
    let r3 = t + nl + e;
    let r2 = c + nl + r3;
    let r1 = e + nl + r2;
    assert(aggregate_body(year, s) =~= h + nl + r1);
    lemma_signed_decimal_one_line(year as int);
    lemma_decimal_one_line(s.accepted as nat);
    lemma_decimal_one_line(s.declined as nat);
    lemma_decimal_one_line(s.pending as nat);
    lemma_decimal_one_line(s.send_real as nat);
    lemma_decimal_one_line(s.total as nat);
    lemma_concat_one_line("# Monthly aggregate — "@, signed_decimal_spec(year as int));
    let c1 = "accepted: "@ + decimal_spec(s.accepted as nat);
    lemma_concat_one_line("accepted: "@, decimal_spec(s.accepted as nat));
    let c2 = c1 + "  declined: "@;
    lemma_concat_one_line(c1, "  declined: "@);
    let c3 = c2 + decimal_spec(s.declined as nat);
    lemma_concat_one_line(c2, decimal_spec(s.declined as nat));
    let c4 = c3 + "  pending: "@;
    lemma_concat_one_line(c3, "  pending: "@);
    let c5 = c4 + decimal_spec(s.pending as nat);
    lemma_concat_one_line(c4, decimal_spec(s.pending as nat));
    let c6 = c5 + "  send-real: "@;
    lemma_concat_one_line(c5, "  send-real: "@);
    lemma_concat_one_line(c6, decimal_spec(s.send_real as nat));
    lemma_concat_one_line("total: "@, decimal_spec(s.total as nat));
    lemma_split_without(h, '\n');
    lemma_split_without(c, '\n');
    lemma_split_without(t, '\n');
    lemma_split_without(e, '\n');
    lemma_split_around(t, e, '\n');
    lemma_split_around(c, r3, '\n');
    lemma_split_around(e, r2, '\n');
    lemma_split_around(h, r1, '\n');
    assert(split_spec(aggregate_body(year, s), '\n') =~= seq![h, e, c, t, e]);
}

/// The text of a row of `list`, without its line break.
proof fn lemma_list_as_lines(rows: Seq<ListRow>)
    ensures
        list_text(rows) == lines_text(
            rows.map_values(
                |r: ListRow| r.filename@ + " "@ + r.state@ + " "@ + r.accepted_at@ + "  "@ + r.subject@,
            ),
        ),
    decreases rows.len(),
{
    reveal_strlit("\n");
    let f = |r: ListRow| r.filename@ + " "@ + r.state@ + " "@ + r.accepted_at@ + "  "@ + r.subject@;
    if rows.len() > 0 {
        lemma_list_as_lines(rows.drop_last());
        assert(rows.map_values(f).drop_last() =~= rows.drop_last().map_values(f));
        assert(rows.map_values(f).last() == f(rows.last()));
        assert("\n"@ =~= seq!['\n']);
        assert(list_text(rows) =~= lines_text(rows.map_values(f)));
    } else {
        assert(rows.map_values(f) =~= Seq::<Seq<char>>::empty());
    }
}

/// `list` prints exactly one line per row, in order, whatever the row's
/// state: file name, state and accepted-at separated by spaces, then two
/// spaces and the subject (as long as no column holds a line break).
pub proof fn law_list_one_line_per_row(rows: Seq<ListRow>)
    requires
        forall|i: int|
            0 <= i < rows.len() ==> {
                &&& !(#[trigger] rows[i]).filename@.contains('\n')
                &&& !rows[i].state@.contains('\n')
                &&& !rows[i].accepted_at@.contains('\n')
                &&& !rows[i].subject@.contains('\n')
            },
    ensures
        split_spec(list_text(rows), '\n') == rows.map_values(
            |r: ListRow| r.filename@ + " "@ + r.state@ + " "@ + r.accepted_at@ + "  "@ + r.subject@,
        ) + seq![Seq::<char>::empty()],
{
    reveal_strlit(" ");
    reveal_strlit("  ");
    let f = |r: ListRow| r.filename@ + " "@ + r.state@ + " "@ + r.accepted_at@ + "  "@ + r.subject@;
    let lines = rows.map_values(f);
    assert forall|i: int| 0 <= i < lines.len() implies !(#[trigger] lines[i]).contains('\n') by {
        let r = rows[i];
        assert(lines[i] == f(r));
        let a1 = r.filename@ + " "@;
        lemma_concat_one_line(r.filename@, " "@);
        let a2 = a1 + r.state@;
        lemma_concat_one_line(a1, r.state@);
        let a3 = a2 + " "@;
        lemma_concat_one_line(a2, " "@);
        let a4 = a3 + r.accepted_at@;
        lemma_concat_one_line(a3, r.accepted_at@);
        let a5 = a4 + "  "@;
        lemma_concat_one_line(a4, "  "@);
        lemma_concat_one_line(a5, r.subject@);
    }
    lemma_list_as_lines(rows);
    lemma_split_lines(lines);
}


/// Folding weekly sources adds their letter paths and their ULIDs one per
/// source, in the sources' order.
pub proof fn law_fold_keeps_source_order(ws: Seq<WeeklySource>)
    ensures
        source_paths(ws).len() == ws.len(),
        source_ids(ws).len() == ws.len(),
        forall|i: int|
            0 <= i < ws.len() ==> #[trigger] source_paths(ws)[i] == ws[i].path@ && source_ids(ws)[i]
                == ws[i].record_id@,
{
}

/// `source_lines` is the paths' `- <path>` lines, each ended by a line break.
proof fn lemma_source_lines_as_lines(srcs: Seq<Seq<char>>)
    ensures
        source_lines(srcs) == lines_text(srcs.map_values(|p: Seq<char>| "- "@ + p)),
    decreases srcs.len(),
{
    reveal_strlit("\n");
    let f = |p: Seq<char>| "- "@ + p;
    if srcs.len() > 0 {
        lemma_source_lines_as_lines(srcs.drop_last());
        assert(srcs.map_values(f).drop_last() =~= srcs.drop_last().map_values(f));
        assert(srcs.map_values(f).last() == f(srcs.last()));
        assert("\n"@ =~= seq!['\n']);
        assert(source_lines(srcs) =~= lines_text(srcs.map_values(f)));
    } else {
        assert(srcs.map_values(f) =~= Seq::<Seq<char>>::empty());
    }
}

/// Lines appended after a line break keep their own split.
proof fn lemma_lines_text_push(lines: Seq<Seq<char>>, l: Seq<char>)
    ensures
        lines_text(lines.push(l)) == lines_text(lines) + l + seq!['\n'],
{
    assert(lines.push(l).drop_last() =~= lines);
}

/// With `--print-sources` the text starts with a `# sources` line, then one
/// `- <path>` line per source in order and a blank line, and goes on with
/// the aggregate's own lines; without it, it is the aggregate alone (as
/// long as no path holds a line break).
pub proof fn law_aggregate_lines(year: i32, srcs: Seq<Seq<char>>, s: Stats)
    requires
        forall|i: int| 0 <= i < srcs.len() ==> !(#[trigger] srcs[i]).contains('\n'),
    ensures
        split_spec(aggregate_text(year, srcs, false, s), '\n') == split_spec(aggregate_body(year, s), '\n'),
        split_spec(aggregate_text(year, srcs, true, s), '\n') == seq!["# sources"@] + srcs.map_values(
            |p: Seq<char>| "- "@ + p,
        ) + seq![Seq::<char>::empty()] + split_spec(aggregate_body(year, s), '\n'),
{
    reveal_strlit("# sources\n");
    reveal_strlit("# sources");
    reveal_strlit("- ");
    reveal_strlit("\n");
    let f = |p: Seq<char>| "- "@ + p;
    let e = Seq::<char>::empty();
    let lines = seq!["# sources"@] + srcs.map_values(f) + seq![e];
    lemma_source_lines_as_lines(srcs);
    let mid = srcs.map_values(f);
    // The section is the lines `# sources`, the source lines and an empty one.
    lemma_section_prefix(mid, mid.len());
    assert(mid.take(mid.len() as int) =~= mid);
    assert(lines_text(seq!["# sources"@] + mid) == "# sources"@ + seq!['\n'] + lines_text(mid));
    assert(lines =~= (seq!["# sources"@] + mid).push(e));
    assert("# sources\n"@ =~= "# sources"@ + seq!['\n']);
    assert("\n"@ =~= seq!['\n']);
    lemma_lines_text_push(seq!["# sources"@] + mid, e);
    assert(sources_section(srcs) =~= lines_text(lines));
    assert forall|i: int| 0 <= i < lines.len() implies !(#[trigger] lines[i]).contains('\n') by {
        if i == 0 {
            assert(lines[i] == "# sources"@);
        } else if i < lines.len() - 1 {
            assert(lines[i] == f(srcs[i - 1]));
            lemma_concat_one_line("- "@, srcs[i - 1]);
        } else {
            assert(lines[i] == e);
        }
    }
    lemma_split_lines(lines);
    let lt = lines_text(lines);
    assert(lt.last() == '\n');
    assert(lt =~= lt.drop_last() + seq!['\n'] + e);
    lemma_split_around(lt.drop_last(), e, '\n');
    let x = split_spec(lt.drop_last(), '\n');
    assert(x + seq![e] == lines + seq![e]) by {
        assert(split_spec(e, '\n') =~= seq![e]);
    }
    assert((x + seq![e]).drop_last() =~= x);
    assert((lines + seq![e]).drop_last() =~= lines);
    crate::text::lemma_split_after(lt, aggregate_body(year, s), '\n');
}

/// The `# sources` line followed by the first `k` source lines.
proof fn lemma_section_prefix(mid: Seq<Seq<char>>, k: nat)
    requires
        k <= mid.len(),
    ensures
        lines_text(seq!["# sources"@] + mid.take(k as int)) == "# sources"@ + seq!['\n'] + lines_text(
            mid.take(k as int),
        ),
    decreases k,
{
    if k == 0 {
        assert(seq!["# sources"@] + mid.take(0) =~= seq!["# sources"@]);
        assert(seq!["# sources"@].drop_last() =~= Seq::<Seq<char>>::empty());
        assert(mid.take(0) =~= Seq::<Seq<char>>::empty());
    } else {
        lemma_section_prefix(mid, (k - 1) as nat);
        assert((seq!["# sources"@] + mid.take(k as int)).drop_last() =~= seq!["# sources"@] + mid.take(
            k - 1,
        ));
        assert((seq!["# sources"@] + mid.take(k as int)).last() == mid[k - 1]);
        assert(mid.take(k as int).drop_last() =~= mid.take(k - 1));
        assert(mid.take(k as int).last() == mid[k - 1]);
    }
}

} // verus!
