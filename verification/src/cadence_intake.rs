//! Cadence weekly-record intake for the monthly curation pass.
//!
//! The `cadence list weekly --produced-by confidant` listing is read as flat
//! JSON: each record object with both an `id` and a `path` string field
//! becomes a weekly source, whose lede is the first 500 bytes of the letter
//! file, decoded as lossy UTF-8. Running `cadence` and reading the letter
//! files is left to the caller, which hands in what came back.

use vstd::prelude::*;
use crate::json_scan::{
    extract_objects, extract_str_field, lemma_field_after_gap, lemma_scan_object, lemma_scan_passes,
    objects_spec, quoted, scan_prefix, str_field_spec,
};
use crate::process_output::{decode_lossy, decode_strict, lossy_utf8, utf8_error_text, ProcessReport};
use crate::text::{
    chars_of, is_ws, law_trim_ignores_surrounding_whitespace, trim, trim_end_spec, trim_spec,
    trim_start_spec,
};
use vstd::utf8::{decode_utf8, valid_utf8};

verus! {

/// How many leading bytes of a letter file make up its lede.
pub const LEDE_BYTES: usize = 500;

/// A weekly cadence record's lede, ready for inclusion in the source pool.
#[derive(Debug, Clone)]
pub struct WeeklySource {
    /// ULID of the cadence record.
    pub record_id: String,
    /// Filesystem path of the weekly letter.
    pub path: String,
    /// First 500 bytes of the letter file (UTF-8 lossy).
    pub lede: String,
}

/// A record of the listing that has both an `id` and a `path`.
#[derive(Debug, Clone)]
pub struct WeeklyRecord {
    /// ULID of the cadence record.
    pub record_id: String,
    /// Filesystem path of the weekly letter.
    pub path: String,
}

/// Configuration for cadence intake.
#[derive(Debug, Clone)]
pub struct IntakeConfig {
    /// Duration window passed to `cadence list --since`, e.g. `"30d"`.
    pub since: String,
    /// Override `$CADENCE_HOME` for the subprocess. `None` = inherit.
    pub cadence_home: Option<String>,
}

impl Default for IntakeConfig {
    fn default() -> (cfg: Self)
        ensures
            cfg.since@ == "30d"@,
            cfg.cadence_home is None,
    {
        IntakeConfig { since: String::from_str("30d"), cadence_home: None }
    }
}

/// Outcome of an intake attempt.
#[derive(Debug)]
pub enum IntakeOutcome {
    /// Cadence is unavailable or `$CADENCE_HOME` is missing/broken.
    Unavailable(String),
    /// No weekly records were found for the configured window.
    Empty,
    /// Records were collected successfully.
    Sources(Vec<WeeklySource>),
}

/// The key of a record's identifier field.
pub open spec fn id_key() -> Seq<char> {
    seq!['i', 'd']
}

/// The key of a record's letter-path field.
pub open spec fn path_key() -> Seq<char> {
    seq!['p', 'a', 't', 'h']
}

/// The `(id, path)` pairs of the objects that have both fields, in order;
/// the others are skipped.
pub open spec fn records_spec(objects: Seq<Seq<char>>) -> Seq<(Seq<char>, Seq<char>)>
    decreases objects.len(),
{
    if objects.len() == 0 {
        Seq::empty()
    } else {
        let rest = records_spec(objects.drop_last());
        match (str_field_spec(objects.last(), id_key()), str_field_spec(objects.last(), path_key())) {
            (Some(id), Some(path)) => rest.push((id, path)),
            _ => rest,
        }
    }
}

/// The message for a listing whose trimmed text does not start with `[`.
pub open spec fn not_array_message(trimmed: Seq<char>) -> Seq<char> {
    "unexpected cadence output (not a JSON array): "@ + trimmed
}

/// The records of a listing, or the message it is refused with.
pub open spec fn parse_records_spec(json: Seq<char>) -> Result<Seq<(Seq<char>, Seq<char>)>, Seq<char>> {
    let t = trim_spec(json);
    if t.len() > 0 && t[0] == '[' {
        Ok(records_spec(objects_spec(t)))
    } else {
        Err(not_array_message(t))
    }
}

/// The records of `json`, a JSON array of flat record objects. Fails, with
/// the trimmed text in the message, when the text does not start with `[`
/// (leading whitespace aside).
pub fn parse_records(json: &str) -> (r: Result<Vec<WeeklyRecord>, String>)
    ensures
        match parse_records_spec(json@) {
            Ok(recs) => r matches Ok(v) && v@.len() == recs.len() && forall|i: int|
                0 <= i < recs.len() ==> (#[trigger] v@[i]).record_id@ == recs[i].0 && v@[i].path@
                    == recs[i].1,
            Err(msg) => r matches Err(m) && m@ == msg,
        },
{
    let trimmed = trim(json);
    let tv = chars_of(trimmed.as_str());
    if !(tv.len() > 0 && tv[0] == '[') {
        let mut msg = String::from_str("unexpected cadence output (not a JSON array): ");
        msg.append(trimmed.as_str());
        return Err(msg);
    }
    let objects = extract_objects(trimmed.as_str());
    let ghost objs = objects@.map_values(|o: String| o@);
    proof {
        reveal_strlit("id");
        reveal_strlit("path");
        assert("id"@ =~= id_key());
        assert("path"@ =~= path_key());
    }
    let mut records: Vec<WeeklyRecord> = Vec::new();
    let mut k: usize = 0;
    while k < objects.len()
        invariant
            k <= objects.len(),
            objs == objects@.map_values(|o: String| o@),
            objs == objects_spec(trimmed@),
            "id"@ == id_key(),
            "path"@ == path_key(),
            records@.len() == records_spec(objs.take(k as int)).len(),
            forall|i: int|
                0 <= i < records@.len() ==> (#[trigger] records@[i]).record_id@ == records_spec(
                    objs.take(k as int),
                )[i].0 && records@[i].path@ == records_spec(objs.take(k as int))[i].1,
        decreases objects.len() - k,
    {
        assert(objs.take(k + 1).drop_last() =~= objs.take(k as int));
        assert(objs.take(k + 1).last() == objects@[k as int]@);
        let ghost prev = records_spec(objs.take(k as int));
        let id = extract_str_field(objects[k].as_str(), "id");
        let path = extract_str_field(objects[k].as_str(), "path");
        match (id, path) {
            (Some(id), Some(path)) => {
                records.push(WeeklyRecord { record_id: id, path });
                assert(records_spec(objs.take(k + 1)) == prev.push((records@.last().record_id@, records@.last().path@)));
            },
            _ => {
                assert(records_spec(objs.take(k + 1)) == prev);
            },
        }
        k = k + 1;
    }
    assert(objs.take(objects.len() as int) =~= objs);
    Ok(records)
}


/// What a listing amounts to before any letter file is read.
pub ghost enum ListingView {
    Unavailable(Seq<char>),
    Empty,
    Records(Seq<(Seq<char>, Seq<char>)>),
}

/// The text of a listing run, or the message of its failure.
pub open spec fn listing_view(listing: &Result<String, String>) -> Result<Seq<char>, Seq<char>> {
    match listing {
        Ok(json) => Ok(json@),
        Err(msg) => Err(msg@),
    }
}

/// A listing with nothing in it: blank, or `[]`, once trimmed.
pub open spec fn is_blank_listing(json: Seq<char>) -> bool {
    let t = trim_spec(json);
    t.len() == 0 || t == seq!['[', ']']
}

/// A failed run is unavailable with its message; a blank listing is empty; a
/// listing that does not parse is unavailable with the parse message; one
/// without a complete record is empty; the rest yields its records.
pub open spec fn classify_listing(listing: Result<Seq<char>, Seq<char>>) -> ListingView {
    match listing {
        Err(msg) => ListingView::Unavailable(msg),
        Ok(json) => if is_blank_listing(json) {
            ListingView::Empty
        } else {
            match parse_records_spec(json) {
                Err(msg) => ListingView::Unavailable(msg),
                Ok(recs) => if recs.len() == 0 {
                    ListingView::Empty
                } else {
                    ListingView::Records(recs)
                },
            }
        },
    }
}

/// The lede made of a letter file's contents (`None`: the file could not be
/// read): at most its first 500 bytes, decoded as lossy UTF-8.
pub open spec fn lede_spec(contents: Option<Seq<u8>>) -> Seq<char> {
    match contents {
        None => Seq::empty(),
        Some(bytes) => if bytes.len() > LEDE_BYTES {
            lossy_utf8(bytes.take(LEDE_BYTES as int))
        } else {
            lossy_utf8(bytes)
        },
    }
}

/// The contents read for the `i`th record, if any.
pub open spec fn content_at(contents: Seq<Option<Vec<u8>>>, i: int) -> Option<Seq<u8>> {
    if 0 <= i < contents.len() {
        match contents[i] {
            Some(bytes) => Some(bytes@),
            None => None,
        }
    } else {
        None
    }
}

/// The sources agree with the records, in order, each with the lede of the
/// contents read for it.
pub open spec fn sources_agree(
    sources: Seq<WeeklySource>,
    recs: Seq<(Seq<char>, Seq<char>)>,
    contents: Seq<Option<Vec<u8>>>,
) -> bool {
    &&& sources.len() == recs.len()
    &&& forall|i: int|
        0 <= i < recs.len() ==> {
            &&& (#[trigger] sources[i]).record_id@ == recs[i].0
            &&& sources[i].path@ == recs[i].1
            &&& sources[i].lede@ == lede_spec(content_at(contents, i))
        }
}

/// The lede of a letter file, from its contents (`None` when it could not be
/// read).
pub fn lede_from_contents(contents: Option<&[u8]>) -> (lede: String)
    ensures
        lede@ == lede_spec(
            match contents {
                Some(bytes) => Some(bytes@),
                None => None,
            },
        ),
        contents matches Some(bytes) ==> {
            let kept = if bytes@.len() > LEDE_BYTES {
                bytes@.take(LEDE_BYTES as int)
            } else {
                bytes@
            };
            valid_utf8(kept) ==> lede@ == decode_utf8(kept)
        },
{
    match contents {
        None => String::new(),
        Some(bytes) => if bytes.len() > LEDE_BYTES {
            decode_lossy(vstd::slice::slice_subrange(bytes, 0, LEDE_BYTES))
        } else {
            decode_lossy(bytes)
        },
    }
}

/// The records of a listing; or, when it has none, the outcome it ends in.
fn listing_records(listing: &Result<String, String>) -> (r: Result<Vec<WeeklyRecord>, IntakeOutcome>)
    ensures
        match classify_listing(listing_view(listing)) {
            ListingView::Unavailable(m) => r matches Err(IntakeOutcome::Unavailable(x)) && x@ == m,
            ListingView::Empty => r matches Err(IntakeOutcome::Empty),
            ListingView::Records(recs) => r matches Ok(v) && v@.len() == recs.len() && forall|i: int|
                0 <= i < recs.len() ==> (#[trigger] v@[i]).record_id@ == recs[i].0 && v@[i].path@
                    == recs[i].1,
        },
{
    match listing {
        Err(msg) => Err(IntakeOutcome::Unavailable(msg.clone())),
        Ok(json) => {
            let t = trim(json.as_str());
            let tv = chars_of(t.as_str());
            if tv.len() == 0 || (tv.len() == 2 && tv[0] == '[' && tv[1] == ']') {
                assert(tv.len() == 2 ==> tv@ =~= seq!['[', ']']);
                return Err(IntakeOutcome::Empty);
            }
            assert(tv@ != seq!['[', ']']);
            match parse_records(json.as_str()) {
                Err(msg) => Err(IntakeOutcome::Unavailable(msg)),
                Ok(recs) => if recs.len() == 0 {
                    Err(IntakeOutcome::Empty)
                } else {
                    Ok(recs)
                },
            }
        },
    }
}

/// Attempt to collect weekly cadence records for the curation source pool,
/// from the outcome of the `cadence list` run (`listing`) and the contents of
/// the letter files at `lede_paths(listing)`, in that order (`None` for a file
/// that could not be read).
///
/// Yields `IntakeOutcome::Unavailable` when the run failed, with its message,
/// and when the output is not a JSON array (the only output this minimal
/// reading refuses), so the caller can decide whether to warn or continue
/// silently.
pub fn collect(listing: &Result<String, String>, contents: Vec<Option<Vec<u8>>>) -> (outcome: IntakeOutcome)
    ensures
        match classify_listing(listing_view(listing)) {
            ListingView::Unavailable(m) => outcome matches IntakeOutcome::Unavailable(x) && x@ == m,
            ListingView::Empty => outcome is Empty,
            ListingView::Records(recs) => outcome matches IntakeOutcome::Sources(v) && sources_agree(
                v@,
                recs,
                contents@,
            ),
        },
{
    let records = match listing_records(listing) {
        Err(outcome) => return outcome,
        Ok(records) => records,
    };
    let ghost recs = match classify_listing(listing_view(listing)) {
        ListingView::Records(recs) => recs,
        _ => Seq::empty(),
    };
    let mut sources: Vec<WeeklySource> = Vec::new();
    let mut i: usize = 0;
    while i < records.len()
        invariant
            i <= records.len(),
            records@.len() == recs.len(),
            forall|j: int|
                0 <= j < recs.len() ==> (#[trigger] records@[j]).record_id@ == recs[j].0
                    && records@[j].path@ == recs[j].1,
            sources@.len() == i,
            forall|j: int|
                0 <= j < i ==> {
                    &&& (#[trigger] sources@[j]).record_id@ == recs[j].0
                    &&& sources@[j].path@ == recs[j].1
                    &&& sources@[j].lede@ == lede_spec(content_at(contents@, j))
                },
        decreases records.len() - i,
    {
        let file = if i < contents.len() {
            match &contents[i] {
                Some(bytes) => Some(bytes.as_slice()),
                None => None,
            }
        } else {
            None
        };
        let lede = lede_from_contents(file);
        sources.push(
            WeeklySource {
                record_id: records[i].record_id.clone(),
                path: records[i].path.clone(),
                lede,
            },
        );
        i = i + 1;
    }
    IntakeOutcome::Sources(sources)
}

/// The letter files of a listing's records, in order; none when it has no
/// records.
pub open spec fn lede_paths_spec(listing: Result<Seq<char>, Seq<char>>) -> Seq<Seq<char>> {
    match classify_listing(listing) {
        ListingView::Records(recs) => recs.map_values(|r: (Seq<char>, Seq<char>)| r.1),
        _ => Seq::empty(),
    }
}

/// The letter files whose contents `collect` takes, in order: the paths of
/// the listing's records when it has any, and none otherwise.
pub fn lede_paths(listing: &Result<String, String>) -> (paths: Vec<String>)
    ensures
        views(paths@) == lede_paths_spec(listing_view(listing)),
{
    match listing_records(listing) {
        Err(_) => Vec::new(),
        Ok(records) => {
            let mut paths: Vec<String> = Vec::new();
            let mut i: usize = 0;
            while i < records.len()
                invariant
                    i <= records.len(),
                    paths@.len() == i,
                    forall|j: int| 0 <= j < i ==> (#[trigger] paths@[j])@ == records@[j].path@,
                decreases records.len() - i,
            {
                paths.push(records[i].path.clone());
                i = i + 1;
            }
            assert(views(paths@) =~= lede_paths_spec(listing_view(listing)));
            paths
        },
    }
}


/// The views of a list of strings.
pub open spec fn views(v: Seq<String>) -> Seq<Seq<char>> {
    v.map_values(|a: String| a@)
}

/// The arguments of `cadence` that list the weekly records confidant produced
/// within the configured window, as JSON.
pub fn listing_command_args(cfg: &IntakeConfig) -> (args: Vec<String>)
    ensures
        views(args@) == seq![
            "list"@,
            "weekly"@,
            "--produced-by"@,
            "confidant"@,
            "--since"@,
            cfg.since@,
            "--json"@,
        ],
{
    let mut args: Vec<String> = Vec::new();
    args.push(String::from_str("list"));
    args.push(String::from_str("weekly"));
    args.push(String::from_str("--produced-by"));
    args.push(String::from_str("confidant"));
    args.push(String::from_str("--since"));
    args.push(cfg.since.clone());
    args.push(String::from_str("--json"));
    assert(views(args@) =~= seq![
        "list"@,
        "weekly"@,
        "--produced-by"@,
        "confidant"@,
        "--since"@,
        cfg.since@,
        "--json"@,
    ]);
    args
}

/// The text a `cadence list` run hands over, or why it failed: `launch` is
/// the finished run, or the message of the failure to start it.
pub fn listing_from_run(launch: Result<ProcessReport, String>) -> (r: Result<String, String>)
    ensures
        match launch {
            Err(e) => r matches Err(m) && m@ == "cadence not found or failed to launch: "@ + e@,
            Ok(report) => if !report.success {
                &&& r matches Err(m) && m@ == "cadence list weekly failed: "@ + lossy_utf8(
                    report.stderr@,
                )
                &&& valid_utf8(report.stderr@) ==> (r matches Err(m) && m@
                    == "cadence list weekly failed: "@ + decode_utf8(report.stderr@))
            } else if valid_utf8(report.stdout@) {
                r matches Ok(text) && text@ == decode_utf8(report.stdout@)
            } else {
                r matches Err(m) && m@ == "cadence output not UTF-8: "@ + utf8_error_text(
                    report.stdout@,
                )
            },
        },
{
    match launch {
        Err(e) => {
            let mut m = String::from_str("cadence not found or failed to launch: ");
            m.append(e.as_str());
            Err(m)
        },
        Ok(report) => {
            if !report.success {
                let stderr = decode_lossy(report.stderr.as_slice());
                let mut m = String::from_str("cadence list weekly failed: ");
                m.append(stderr.as_str());
                return Err(m);
            }
            match decode_strict(report.stdout) {
                Ok(text) => Ok(text),
                Err(e) => {
                    let mut m = String::from_str("cadence output not UTF-8: ");
                    m.append(e.as_str());
                    Err(m)
                },
            }
        },
    }
}


/// The lede of the `i`th weekly source is made of the contents read from the
/// `i`th file that `lede_paths` names, and that file is the source's own
/// letter.
pub proof fn law_ledes_come_from_their_letters(
    listing: Result<Seq<char>, Seq<char>>,
    contents: Seq<Option<Vec<u8>>>,
    sources: Seq<WeeklySource>,
    i: int,
)
    requires
        classify_listing(listing) matches ListingView::Records(recs) && sources_agree(
            sources,
            recs,
            contents,
        ),
        0 <= i < sources.len(),
    ensures
        i < lede_paths_spec(listing).len(),
        sources[i].path@ == lede_paths_spec(listing)[i],
        sources[i].lede@ == lede_spec(content_at(contents, i)),
{
}


/// A record object as `cadence list --json` writes it, without whitespace:
/// `{"id":"<id>","path":"<path>"}`.
pub open spec fn written_record(id: Seq<char>, path: Seq<char>) -> Seq<char> {
    seq!['{'] + quoted(id_key()) + seq![':'] + quoted(id) + seq![','] + quoted(path_key()) + seq![':']
        + quoted(path) + seq!['}']
}

/// A field value this minimal reading can carry: no `"`, no brace.
pub open spec fn plain_value(v: Seq<char>) -> bool {
    forall|i: int| 0 <= i < v.len() ==> #[trigger] v[i] != '"' && v[i] != '{' && v[i] != '}'
}

/// Both fields of a written record read back.
proof fn lemma_written_record_fields(id: Seq<char>, path: Seq<char>)
    requires
        plain_value(id),
        plain_value(path),
    ensures
        str_field_spec(written_record(id, path), id_key()) == Some(id),
        str_field_spec(written_record(id, path), path_key()) == Some(path),
{
    let obj = written_record(id, path);
    assert(!id.contains('"'));
    assert(!path.contains('"'));
    let empty: Seq<char> = Seq::empty();
    // The identifier: its key right after the brace.
    let rest_id = seq![','] + quoted(path_key()) + seq![':'] + quoted(path) + seq!['}'];
    assert(obj =~= seq!['{'] + quoted(id_key()) + empty + seq![':'] + quoted(id) + rest_id);
    assert forall|q: int| 0 <= q < 1 implies #[trigger] (seq!['{'] + quoted(id_key()) + empty
        + seq![':'] + quoted(id) + rest_id).subrange(q, q + quoted(id_key()).len()) != quoted(
        id_key(),
    ) by {
        assert(obj.subrange(q, q + 4)[0] == '{');
    }
    assert(!empty.contains(':'));
    lemma_field_after_gap(seq!['{'], id_key(), empty, id, rest_id);
    // The path: its key follows the identifier, unless the identifier is
    // itself the word `path`, which is then found first.
    let pk = quoted(path_key());
    if id == path_key() {
        let pre = seq!['{'] + quoted(id_key()) + seq![':'];
        let gap = seq![','] + pk;
        assert(obj =~= pre + pk + gap + seq![':'] + quoted(path) + seq!['}']);
        assert forall|q: int| 0 <= q < pre.len() implies #[trigger] (pre + pk + gap + seq![':']
            + quoted(path) + seq!['}']).subrange(q, q + pk.len()) != pk by {
            let sub = obj.subrange(q, q + 6);
            if q == 1 {
                assert(sub[1] == 'i');
            } else if q == 4 {
                assert(sub[1] == ':');
            } else {
                assert(sub[0] != '"');
            }
        }
        assert forall|i: int| 0 <= i < gap.len() implies gap[i] != ':' by {}
        assert(!gap.contains(':'));
        lemma_field_after_gap(pre, path_key(), gap, path, seq!['}']);
    } else {
        let pre = seq!['{'] + quoted(id_key()) + seq![':'] + quoted(id) + seq![','];
        assert(obj =~= pre + pk + empty + seq![':'] + quoted(path) + seq!['}']);
        let n: int = id.len() as int;
        assert forall|q: int| 0 <= q < pre.len() implies #[trigger] (pre + pk + empty + seq![':']
            + quoted(path) + seq!['}']).subrange(q, q + pk.len()) != pk by {
            let sub = obj.subrange(q, q + 6);
            if q == 1 {
                assert(sub[1] == 'i');
            } else if q == 4 {
                assert(sub[1] == ':');
            } else if q == 6 {
                if sub == pk {
                    if n >= 5 {
                        assert(sub[5] == id[4]);
                    } else if n == 4 {
                        assert forall|k: int| 0 <= k < 4 implies id[k] == path_key()[k] by {
                            assert(sub[1 + k] == id[k]);
                            assert(pk[1 + k] == path_key()[k]);
                        }
                        assert(id =~= path_key());
                    } else {
                        assert(sub[1 + n] == '"');
                        assert(pk[1 + n] != '"');
                    }
                }
            } else if q == 7 + n {
                assert(sub[1] == ',');
            } else if 7 <= q < 7 + n {
                assert(sub[0] == id[q - 7]);
            } else {
                assert(sub[0] != '"');
            }
        }
        lemma_field_after_gap(pre, path_key(), empty, path, seq!['}']);
    }
}


/// Between its braces a written record holds no brace.
proof fn lemma_written_record_shape(id: Seq<char>, path: Seq<char>)
    requires
        plain_value(id),
        plain_value(path),
    ensures
        written_record(id, path).len() >= 2,
        written_record(id, path)[0] == '{',
        written_record(id, path).last() == '}',
        forall|j: int|
            0 < j < written_record(id, path).len() - 1 ==> #[trigger] written_record(id, path)[j]
                != '{' && written_record(id, path)[j] != '}',
{
    let obj = written_record(id, path);
    let n: int = id.len() as int;
    let p: int = path.len() as int;
    assert(obj.len() == 19 + n + p);
    assert forall|j: int| 0 < j < obj.len() - 1 implies #[trigger] obj[j] != '{' && obj[j] != '}' by {
        if 7 <= j < 7 + n {
            assert(obj[j] == id[j - 7]);
        } else if 17 + n <= j < 17 + n + p {
            assert(obj[j] == path[j - 17 - n]);
        }
    }
}

/// Records written one after another, separated by commas.
pub open spec fn written_records(recs: Seq<(Seq<char>, Seq<char>)>) -> Seq<char>
    decreases recs.len(),
{
    if recs.len() == 0 {
        Seq::empty()
    } else if recs.len() == 1 {
        written_record(recs[0].0, recs[0].1)
    } else {
        written_records(recs.drop_last()) + seq![','] + written_record(recs.last().0, recs.last().1)
    }
}

/// A listing as `cadence list --json` writes it: a JSON array of records.
pub open spec fn written_listing(recs: Seq<(Seq<char>, Seq<char>)>) -> Seq<char> {
    seq!['['] + written_records(recs) + seq![']']
}

/// Every identifier and path of `recs` is a plain value.
pub open spec fn all_plain(recs: Seq<(Seq<char>, Seq<char>)>) -> bool {
    forall|i: int| 0 <= i < recs.len() ==> plain_value(#[trigger] recs[i].0) && plain_value(recs[i].1)
}

/// The record objects written for `recs`, in order.
pub open spec fn written_objects(recs: Seq<(Seq<char>, Seq<char>)>) -> Seq<Seq<char>> {
    recs.map_values(|r: (Seq<char>, Seq<char>)| written_record(r.0, r.1))
}

/// Scanning an array's opening bracket and its written records finds those
/// records' objects and ends at depth zero.
proof fn lemma_scan_written_records(s: Seq<char>, recs: Seq<(Seq<char>, Seq<char>)>)
    requires
        all_plain(recs),
        1 + written_records(recs).len() <= s.len(),
        s.subrange(0, 1 + written_records(recs).len() as int) == seq!['['] + written_records(recs),
    ensures
        scan_prefix(s, 1 + written_records(recs).len()) == (crate::json_scan::BraceScan {
            depth: 0,
            start: None,
            objects: written_objects(recs),
        }),
    decreases recs.len(),
{
    if recs.len() == 0 {
        assert(s[0] == s.subrange(0, 1)[0]);
        assert(scan_prefix(s, 1) == scan_prefix(s, 0));
        assert(written_objects(recs) =~= Seq::<Seq<char>>::empty());
    } else {
        let prev = recs.drop_last();
        let last = recs.last();
        let obj = written_record(last.0, last.1);
        assert(all_plain(prev)) by {
            assert forall|i: int| 0 <= i < prev.len() implies plain_value(#[trigger] prev[i].0)
                && plain_value(prev[i].1) by {
                assert(prev[i] == recs[i]);
            }
        }
        assert(plain_value(last.0) && plain_value(last.1)) by {
            assert(last == recs[recs.len() - 1]);
        }
        lemma_written_record_shape(last.0, last.1);
        let sep: Seq<char> = if prev.len() > 0 { seq![','] } else { Seq::empty() };
        assert(written_records(recs) =~= written_records(prev) + sep + obj);
        let l0: nat = 1 + written_records(prev).len();
        let whole = seq!['['] + written_records(recs);
        assert(s.subrange(0, l0 as int) =~= whole.subrange(0, l0 as int));
        assert(whole.subrange(0, l0 as int) =~= seq!['['] + written_records(prev));
        lemma_scan_written_records(s, prev);
        let n: nat = l0 + sep.len();
        if prev.len() > 0 {
            assert(s[l0 as int] == whole[l0 as int]);
            lemma_scan_passes(s, l0);
        }
        let m: nat = n + obj.len();
        assert forall|k: int| 0 <= k < obj.len() implies s[n + k] == obj[k] by {
            assert(s[n + k] == whole[n + k]);
        }
        assert(s[n as int] == obj[0]);
        assert(s[m - 1] == obj[obj.len() - 1]);
        assert forall|k: int| n < k < m - 1 implies s[k] != '{' && s[k] != '}' by {
            assert(s[k] == obj[k - n]);
        }
        lemma_scan_object(s, n as nat, m as nat);
        assert(s.subrange(n as int, m as int) =~= obj);
        assert(written_objects(recs) =~= written_objects(prev).push(obj));
    }
}

/// The records read from written objects are the records written.
proof fn lemma_records_of_written(recs: Seq<(Seq<char>, Seq<char>)>)
    requires
        all_plain(recs),
    ensures
        records_spec(written_objects(recs)) == recs,
    decreases recs.len(),
{
    if recs.len() > 0 {
        let prev = recs.drop_last();
        let last = recs.last();
        assert(all_plain(prev)) by {
            assert forall|i: int| 0 <= i < prev.len() implies plain_value(#[trigger] prev[i].0)
                && plain_value(prev[i].1) by {
                assert(prev[i] == recs[i]);
            }
        }
        assert(plain_value(last.0) && plain_value(last.1)) by {
            assert(last == recs[recs.len() - 1]);
        }
        lemma_records_of_written(prev);
        lemma_written_record_fields(last.0, last.1);
        assert(written_objects(recs).drop_last() =~= written_objects(prev));
        assert(records_spec(written_objects(recs)) =~= prev.push(last));
        assert(prev.push(last) =~= recs);
    } else {
        assert(records_spec(written_objects(recs)) =~= recs);
    }
}

/// A listing written as a JSON array of records reads back as exactly those
/// records, in order; an empty array is an empty intake and any other is
/// the records themselves, whose letters are the files whose contents
/// `collect` takes; as long as no identifier or path holds a `"` or a brace.
pub proof fn law_written_listing_reads_back(recs: Seq<(Seq<char>, Seq<char>)>)
    requires
        all_plain(recs),
    ensures
        parse_records_spec(written_listing(recs)) == Ok::<_, Seq<char>>(recs),
        classify_listing(Ok(written_listing(recs))) == if recs.len() == 0 {
            ListingView::Empty
        } else {
            ListingView::Records(recs)
        },
        lede_paths_spec(Ok(written_listing(recs))) == recs.map_values(
            |r: (Seq<char>, Seq<char>)| r.1,
        ),
{
    let s = written_listing(recs);
    let l: nat = 1 + written_records(recs).len();
    assert(s.len() == l + 1);
    assert(!is_ws(s[0]));
    assert(trim_start_spec(s) == s);
    assert(s.last() == ']');
    assert(!is_ws(s.last()));
    assert(trim_end_spec(s) == s);
    assert(trim_spec(s) == s);
    assert(s.subrange(0, l as int) =~= seq!['['] + written_records(recs));
    lemma_scan_written_records(s, recs);
    lemma_scan_passes(s, l);
    assert(objects_spec(s) == written_objects(recs));
    lemma_records_of_written(recs);
    if recs.len() == 0 {
        assert(s =~= seq!['[', ']']);
        assert(recs.map_values(|r: (Seq<char>, Seq<char>)| r.1) =~= Seq::<Seq<char>>::empty());
    } else {
        lemma_written_record_shape(recs[0].0, recs[0].1);
        assert(written_records(recs).len() >= 2) by {
            if recs.len() > 1 {
                lemma_written_record_shape(recs.last().0, recs.last().1);
            }
        }
        assert(s.len() > 2);
    }
}


/// What a listing amounts to depends only on its trimmed text: whitespace
/// around it, such as the line break `cadence` ends its output with, changes
/// nothing.
pub proof fn law_listing_ignores_surrounding_whitespace(ws1: Seq<char>, t: Seq<char>, ws2: Seq<char>)
    requires
        forall|i: int| 0 <= i < ws1.len() ==> is_ws(#[trigger] ws1[i]),
        forall|i: int| 0 <= i < ws2.len() ==> is_ws(#[trigger] ws2[i]),
    ensures
        classify_listing(Ok(ws1 + t + ws2)) == classify_listing(Ok(t)),
        lede_paths_spec(Ok(ws1 + t + ws2)) == lede_paths_spec(Ok(t)),
{
    law_trim_ignores_surrounding_whitespace(ws1, t, ws2);
}

/// A written listing followed by the line break `cadence` prints after it
/// reads back as its records.
pub proof fn law_printed_listing_reads_back(recs: Seq<(Seq<char>, Seq<char>)>)
    requires
        all_plain(recs),
        recs.len() > 0,
    ensures
        classify_listing(Ok(written_listing(recs) + seq!['\n'])) == ListingView::Records(recs),
{
    let e = Seq::<char>::empty();
    let nl = seq!['\n'];
    assert(is_ws(nl[0]));
    law_listing_ignores_surrounding_whitespace(e, written_listing(recs), nl);
    assert(e + written_listing(recs) + nl =~= written_listing(recs) + nl);
    law_written_listing_reads_back(recs);
}


/// A lede is made of a letter's first 500 bytes alone: a letter of at most
/// 500 bytes is decoded whole, a longer one exactly as its first 500 bytes
/// would be, and a letter that could not be read has an empty lede.
pub proof fn law_lede_is_first_500_bytes(bytes: Seq<u8>)
    ensures
        bytes.len() <= 500 ==> lede_spec(Some(bytes)) == lossy_utf8(bytes),
        bytes.len() > 500 ==> lede_spec(Some(bytes)) == lede_spec(Some(bytes.take(500))),
        bytes.len() > 500 ==> lede_spec(Some(bytes)) == lossy_utf8(bytes.take(500)),
        lede_spec(None) == Seq::<char>::empty(),
{
}

} // verus!
