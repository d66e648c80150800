//! Review of a run's lane results: parse status, collisions between proposed
//! files, and whether synthesis may go ahead. A run stops on ambiguity.
use crate::cli::AppError;
use crate::manifest::{ConflictStatus, LaneMode, ParseStatus, RunManifest, SynthesisStatus};
use crate::result_parser::ParsedLaneResult;
use crate::text::{owned, push_str};
use vstd::prelude::*;

verus! {

/// What came of reading one read-only lane's output.
pub enum LaneOutcome {
    /// The output held a valid result.
    Parsed(ParsedLaneResult),
    /// The output could not be parsed; the text says why.
    ParseFailed(String),
    /// The output could not be read; the text says why.
    MissingOutput(String),
}

/// A read-only lane and what came of reading its output.
pub struct LaneReport {
    pub lane_id: String,
    pub outcome: LaneOutcome,
}

/// The texts of a sequence of strings.
pub open spec fn texts(v: Seq<String>) -> Seq<Seq<char>> {
    v.map_values(|s: String| s@)
}

/// Appending a string appends its text.
pub proof fn lemma_texts_push(v: Seq<String>, s: String)
    ensures
        texts(v.push(s)) == texts(v).push(s@),
{
    assert(texts(v.push(s)) =~= texts(v).push(s@));
}

/// The texts of a prefix one longer end with the text at that position.
pub proof fn lemma_texts_take_next(v: Seq<String>, i: int)
    requires
        0 <= i < v.len(),
    ensures
        texts(v.take(i + 1)) == texts(v.take(i)).push(v[i]@),
{
    assert(texts(v.take(i + 1)) =~= texts(v.take(i)).push(v[i]@));
}

/// The note recorded for a lane whose output did not parse.
pub open spec fn parse_failed_note(lane: Seq<char>, why: Seq<char>) -> Seq<char> {
    lane + ": parse failed: "@ + why
}

/// The note recorded for a lane whose output could not be read.
pub open spec fn missing_output_note(lane: Seq<char>, why: Seq<char>) -> Seq<char> {
    lane + ": missing output: "@ + why
}

/// The note recorded for each repeated proposal of a file.
pub open spec fn conflict_note(file: Seq<char>) -> Seq<char> {
    "conflict detected for proposed file: "@ + file
}

/// The note recorded when writable lanes hold synthesis back.
pub open spec fn writable_note() -> Seq<char> {
    "synthesis blocked because writable interactive lanes require human completion"@
}

/// The results that parsed, in the order of the reports.
pub open spec fn parsed_results(reports: Seq<LaneReport>) -> Seq<ParsedLaneResult>
    decreases reports.len(),
{
    if reports.len() == 0 {
        seq![]
    } else {
        let prev = parsed_results(reports.drop_last());
        match reports.last().outcome {
            LaneOutcome::Parsed(r) => prev.push(r),
            _ => prev,
        }
    }
}

/// Every report whose output parsed hands on its result, in the order of the
/// reports, and nothing else is handed on: the results are the parsed reports'
/// results, as many as there are parsed reports, and when every report parsed they
/// are exactly the reports' results.
pub proof fn law_every_parsed_result_is_kept(reports: Seq<LaneReport>)
    ensures
        parsed_results(reports) == reports.filter(|rep: LaneReport| rep.outcome is Parsed).map_values(
            |rep: LaneReport| rep.outcome->Parsed_0,
        ),
        parsed_results(reports).len() == reports.filter(
            |rep: LaneReport| rep.outcome is Parsed,
        ).len(),
        (forall|i: int| 0 <= i < reports.len() ==> (#[trigger] reports[i]).outcome is Parsed)
            ==> parsed_results(reports) == reports.map_values(
            |rep: LaneReport| rep.outcome->Parsed_0,
        ),
    decreases reports.len(),
{
    let pred = |rep: LaneReport| rep.outcome is Parsed;
    let pick = |rep: LaneReport| rep.outcome->Parsed_0;
    reveal(Seq::filter);
    if reports.len() > 0 {
        let prev = reports.drop_last();
        law_every_parsed_result_is_kept(prev);
        if pred(reports.last()) {
            assert(reports.filter(pred) == prev.filter(pred).push(reports.last()));
            assert(reports.filter(pred).map_values(pick) =~= prev.filter(pred).map_values(pick).push(
                pick(reports.last()),
            ));
        } else {
            assert(reports.filter(pred) == prev.filter(pred));
        }
        if forall|i: int| 0 <= i < reports.len() ==> (#[trigger] reports[i]).outcome is Parsed {
            assert forall|i: int| 0 <= i < prev.len() implies (#[trigger] prev[i]).outcome is Parsed by {
                assert(prev[i] == reports[i]);
            }
            assert(reports[reports.len() - 1].outcome is Parsed);
            assert(reports.map_values(pick) =~= prev.map_values(pick).push(pick(reports.last())));
        }
    } else {
        assert(reports.map_values(pick) =~= Seq::<ParsedLaneResult>::empty());
    }
}

/// The notes for the lanes that failed, in the order of the reports.
pub open spec fn outcome_notes(reports: Seq<LaneReport>) -> Seq<Seq<char>>
    decreases reports.len(),
{
    if reports.len() == 0 {
        seq![]
    } else {
        let prev = outcome_notes(reports.drop_last());
        let lane = reports.last().lane_id@;
        match reports.last().outcome {
            LaneOutcome::Parsed(_) => prev,
            LaneOutcome::ParseFailed(why) => prev.push(parse_failed_note(lane, why@)),
            LaneOutcome::MissingOutput(why) => prev.push(missing_output_note(lane, why@)),
        }
    }
}

/// Some lane's output did not yield a result.
pub open spec fn any_failed(reports: Seq<LaneReport>) -> bool {
    exists|i: int| 0 <= i < reports.len() && !(#[trigger] reports[i].outcome is Parsed)
}

/// Every file proposed by the results, in order.
pub open spec fn proposed_files(results: Seq<ParsedLaneResult>) -> Seq<Seq<char>>
    decreases results.len(),
{
    if results.len() == 0 {
        seq![]
    } else {
        proposed_files(results.drop_last()) + texts(results.last().proposed_files@)
    }
}

/// Every lane whose output did not yield a result gets one note, in the order of
/// the reports, and each note opens with that lane's identifier.
pub proof fn law_every_failed_lane_is_noted(reports: Seq<LaneReport>)
    ensures
        outcome_notes(reports).len() == reports.filter(|rep: LaneReport| !(rep.outcome is Parsed)).len(),
        forall|k: int|
            0 <= k < outcome_notes(reports).len() ==> {
                let rep = reports.filter(|rep: LaneReport| !(rep.outcome is Parsed))[k];
                &&& rep.lane_id@.len() <= (#[trigger] outcome_notes(reports)[k]).len()
                &&& outcome_notes(reports)[k].take(rep.lane_id@.len() as int) == rep.lane_id@
            },
    decreases reports.len(),
{
    let pred = |rep: LaneReport| !(rep.outcome is Parsed);
    reveal(Seq::filter);
    if reports.len() > 0 {
        let prev = reports.drop_last();
        law_every_failed_lane_is_noted(prev);
        let last = reports.last();
        if pred(last) {
            assert(reports.filter(pred) == prev.filter(pred).push(last));
            let n = outcome_notes(reports).last();
            let lane = last.lane_id@;
            match last.outcome {
                LaneOutcome::ParseFailed(why) => {
                    assert(n == parse_failed_note(lane, why@));
                    assert(n.take(lane.len() as int) =~= lane);
                },
                LaneOutcome::MissingOutput(why) => {
                    assert(n == missing_output_note(lane, why@));
                    assert(n.take(lane.len() as int) =~= lane);
                },
                LaneOutcome::Parsed(_) => {},
            }
        } else {
            assert(reports.filter(pred) == prev.filter(pred));
        }
    }
}

/// One note for every proposal of a file that was already proposed before it.
pub open spec fn conflict_notes(files: Seq<Seq<char>>) -> Seq<Seq<char>>
    decreases files.len(),
{
    if files.len() == 0 {
        seq![]
    } else {
        let prev = conflict_notes(files.drop_last());
        if files.drop_last().contains(files.last()) {
            prev.push(conflict_note(files.last()))
        } else {
            prev
        }
    }
}

/// Some file occurs twice.
pub open spec fn has_duplicate(files: Seq<Seq<char>>) -> bool {
    exists|i: int, j: int| 0 <= i < j < files.len() && files[i] == files[j]
}

/// Some lane of the run is writable.
pub open spec fn has_writable_lane(modes: Map<Seq<char>, LaneMode>) -> bool {
    exists|k: Seq<char>| modes.contains_key(k) && modes[k] == LaneMode::Writable
}

/// Synthesis may go ahead: every read-only lane gave a result, no file is proposed
/// twice and no lane is writable.
pub open spec fn synthesis_allowed(reports: Seq<LaneReport>, modes: Map<Seq<char>, LaneMode>) -> bool {
    &&& !any_failed(reports)
    &&& !has_duplicate(proposed_files(parsed_results(reports)))
    &&& !has_writable_lane(modes)
}

/// A collision is reported exactly when some file is proposed more than once.
pub proof fn law_conflict_iff_duplicate(files: Seq<Seq<char>>)
    ensures
        conflict_notes(files).len() > 0 <==> has_duplicate(files),
    decreases files.len(),
{
    if files.len() > 0 {
        let prev = files.drop_last();
        law_conflict_iff_duplicate(prev);
        if has_duplicate(prev) {
            let (i, j) = choose|i: int, j: int| 0 <= i < j < prev.len() && prev[i] == prev[j];
            assert(files[i] == files[j]);
        }
        if prev.contains(files.last()) {
            let i = choose|i: int| 0 <= i < prev.len() && prev[i] == files.last();
            assert(files[i] == files[files.len() - 1]);
        }
        if has_duplicate(files) {
            let (i, j) = choose|i: int, j: int| 0 <= i < j < files.len() && files[i] == files[j];
            if j < files.len() - 1 {
                assert(prev[i] == prev[j]);
            } else {
                assert(prev[i] == files.last());
            }
        }
    }
}

/// A lane that proposes one file twice is a collision by itself: the file is then
/// proposed more than once among all the results.
pub proof fn law_repeat_within_one_lane_collides(
    results: Seq<ParsedLaneResult>,
    k: int,
    i: int,
    j: int,
)
    requires
        0 <= k < results.len(),
        0 <= i < j < results[k].proposed_files@.len(),
        results[k].proposed_files@[i]@ == results[k].proposed_files@[j]@,
    ensures
        has_duplicate(proposed_files(results)),
    decreases results.len(),
{
    let prev = results.drop_last();
    let all = proposed_files(results);
    let head = proposed_files(prev);
    assert(all == head + texts(results.last().proposed_files@));
    if k == results.len() - 1 {
        let n = head.len();
        assert(all[n + i] == all[n + j]);
    } else {
        assert(prev[k] == results[k]);
        law_repeat_within_one_lane_collides(prev, k, i, j);
        let (a, b) = choose|a: int, b: int| 0 <= a < b < head.len() && head[a] == head[b];
        assert(all[a] == all[b]);
    }
}

/// What blocks synthesis is exactly what a run is sent to review for: a lane that
/// failed, a conflict note, or a writable lane.
pub proof fn law_blocked_synthesis_means_review(
    reports: Seq<LaneReport>,
    modes: Map<Seq<char>, LaneMode>,
)
    ensures
        !synthesis_allowed(reports, modes) <==> (any_failed(reports) || conflict_notes(
            proposed_files(parsed_results(reports)),
        ).len() > 0 || has_writable_lane(modes)),
{
    law_conflict_iff_duplicate(proposed_files(parsed_results(reports)));
}

proof fn lemma_any_failed_step(reports: Seq<LaneReport>)
    requires
        reports.len() > 0,
    ensures
        any_failed(reports) <==> any_failed(reports.drop_last()) || !(reports.last().outcome is Parsed),
{
    let prev = reports.drop_last();
    if any_failed(reports) {
        let i = choose|i: int| 0 <= i < reports.len() && !(#[trigger] reports[i].outcome is Parsed);
        if i < reports.len() - 1 {
            assert(prev[i] == reports[i]);
        }
    }
    if any_failed(prev) {
        let i = choose|i: int| 0 <= i < prev.len() && !(#[trigger] prev[i].outcome is Parsed);
        assert(prev[i] == reports[i]);
    }
}

/// The lane is not marked writable.
pub open spec fn read_only_in(modes: Map<Seq<char>, LaneMode>, id: Seq<char>) -> bool {
    !(modes.contains_key(id) && modes[id] == LaneMode::Writable)
}

/// The lanes whose results are read and waited for: those not marked writable,
/// in the order of the manifest's lanes.
pub fn read_only_lanes(manifest: &RunManifest) -> (res: Vec<String>)
    ensures
        texts(res@) == texts(manifest.lane_ids@).filter(
            |id: Seq<char>| read_only_in(manifest.lane_modes@, id),
        ),
{
    let mut res: Vec<String> = Vec::new();
    let mut i: usize = 0;
    while i < manifest.lane_ids.len()
        invariant
            i <= manifest.lane_ids@.len(),
            texts(res@) == texts(manifest.lane_ids@.take(i as int)).filter(
            |id: Seq<char>| read_only_in(manifest.lane_modes@, id),
        ),
        decreases manifest.lane_ids@.len() - i,
    {
        let id = &manifest.lane_ids[i];
        let writable = match manifest.lane_modes.get(id) {
            Some(LaneMode::Writable) => true,
            _ => false,
        };
        proof {
            assert(read_only_in(manifest.lane_modes@, id@) == !writable);
            lemma_texts_take_next(manifest.lane_ids@, i as int);
            texts(manifest.lane_ids@.take(i as int)).lemma_filter_push(
                id@,
                |id: Seq<char>| read_only_in(manifest.lane_modes@, id),
            );
        }
        if !writable {
            let copy = owned(id.as_str());
            proof {
                lemma_texts_push(res@, copy);
            }
            res.push(copy);
        }
        i += 1;
    }
    proof {
        assert(manifest.lane_ids@.take(i as int) =~= manifest.lane_ids@);
    }
    res
}

/// Whether some lane of the run is writable.
pub fn any_writable(manifest: &RunManifest) -> (res: bool)
    ensures
        res == has_writable_lane(manifest.lane_modes@),
{
    let entries = manifest.lane_modes.entries();
    let mut i: usize = 0;
    while i < entries.len()
        invariant
            i <= entries@.len(),
            forall|j: int| 0 <= j < i ==> (#[trigger] entries@[j]).1 != LaneMode::Writable,
            forall|j: int|
                0 <= j < entries@.len() ==> manifest.lane_modes@.contains_key(
                    (#[trigger] entries@[j]).0@,
                ) && manifest.lane_modes@[entries@[j].0@] == entries@[j].1,
            forall|k: Seq<char>|
                #[trigger] manifest.lane_modes@.contains_key(k) ==> exists|j: int|
                    0 <= j < entries@.len() && (#[trigger] entries@[j]).0@ == k,
        decreases entries@.len() - i,
    {
        if entries[i].1 == LaneMode::Writable {
            assert(manifest.lane_modes@.contains_key(entries@[i as int].0@));
            return true;
        }
        i += 1;
    }
    proof {
        if has_writable_lane(manifest.lane_modes@) {
            let k = choose|k: Seq<char>|
                manifest.lane_modes@.contains_key(k) && manifest.lane_modes@[k]
                    == LaneMode::Writable;
            let j = choose|j: int| 0 <= j < entries@.len() && (#[trigger] entries@[j]).0@ == k;
            assert(entries@[j].1 == LaneMode::Writable);
        }
    }
    false
}

/// The files proposed by `results`, in order.
fn collect_proposed_files(results: &Vec<ParsedLaneResult>) -> (files: Vec<String>)
    ensures
        texts(files@) == proposed_files(results@),
{
    let mut files: Vec<String> = Vec::new();
    let mut i: usize = 0;
    while i < results.len()
        invariant
            i <= results@.len(),
            texts(files@) == proposed_files(results@.take(i as int)),
        decreases results@.len() - i,
    {
        let ghost before = files@;
        let list = &results[i].proposed_files;
        let mut j: usize = 0;
        while j < list.len()
            invariant
                j <= list@.len(),
                texts(files@) == texts(before) + texts(list@.take(j as int)),
            decreases list@.len() - j,
        {
            let f = list[j].clone();
            proof {
                lemma_texts_push(files@, f);
                lemma_texts_take_next(list@, j as int);
            }
            files.push(f);
            assert(texts(files@) =~= texts(before) + texts(list@.take(j + 1)));
            j += 1;
        }
        assert(results@.take(i + 1).drop_last() =~= results@.take(i as int));
        assert(list@.take(j as int) =~= list@);
        i += 1;
    }
    assert(results@.take(i as int) =~= results@);
    files
}

/// One note for each repeated proposal, and whether there was any.
fn find_conflicts(files: &Vec<String>) -> (res: (bool, Vec<String>))
    ensures
        texts(res.1@) == conflict_notes(texts(files@)),
        res.0 == has_duplicate(texts(files@)),
{
    let ghost all = texts(files@);
    let mut notes: Vec<String> = Vec::new();
    let mut i: usize = 0;
    while i < files.len()
        invariant
            i <= files@.len(),
            all == texts(files@),
            texts(notes@) == conflict_notes(all.take(i as int)),
        decreases files@.len() - i,
    {
        let mut j: usize = 0;
        let mut seen = false;
        while j < i
            invariant
                j <= i < files@.len(),
                seen == exists|k: int| 0 <= k < j && files@[k]@ == files@[i as int]@,
            decreases i - j,
        {
            if files[j] == files[i] {
                seen = true;
            }
            j += 1;
        }
        let ghost pre = all.take(i as int);
        proof {
            assert(all.take(i + 1).drop_last() =~= pre);
            assert(all.take(i + 1).last() == files@[i as int]@);
            if seen {
                let k = choose|k: int| 0 <= k < i && files@[k]@ == files@[i as int]@;
                assert(pre[k] == files@[i as int]@);
            } else {
                assert(!pre.contains(files@[i as int]@)) by {
                    if pre.contains(files@[i as int]@) {
                        let k = choose|k: int| 0 <= k < pre.len() && pre[k] == files@[i as int]@;
                        assert(files@[k]@ == files@[i as int]@);
                    }
                }
            }
        }
        if seen {
            let mut note = String::new();
            push_str(&mut note, "conflict detected for proposed file: ");
            push_str(&mut note, files[i].as_str());
            proof {
                lemma_texts_push(notes@, note);
            }
            notes.push(note);
            assert(texts(notes@) =~= conflict_notes(all.take(i + 1)));
        }
        i += 1;
    }
    assert(all.take(i as int) =~= all);
    proof {
        law_conflict_iff_duplicate(all);
    }
    (notes.len() > 0, notes)
}

/// Records what came of a run's read-only lanes: the parse status, one note per
/// failed lane, one note per repeated file proposal, the conflict status, and
/// whether synthesis is blocked. Synthesis is blocked when a writable lane exists
/// (with a note saying so), when a lane failed, or when a file was proposed twice;
/// otherwise its status is left as it was, for the caller to complete.
/// Returns the parsed results in the order of the reports.
pub fn review_lane_reports(manifest: &mut RunManifest, reports: Vec<LaneReport>) -> (results: Vec<
    ParsedLaneResult,
>)
    ensures
        results@ == parsed_results(reports@),
        final(manifest).parse_status == (if any_failed(reports@) {
            ParseStatus::Failed
        } else {
            ParseStatus::Success
        }),
        final(manifest).conflict_status == (if has_duplicate(proposed_files(results@)) {
            ConflictStatus::Detected
        } else {
            ConflictStatus::Clear
        }),
        final(manifest).synthesis_status == (if synthesis_allowed(
            reports@,
            old(manifest).lane_modes@,
        ) {
            old(manifest).synthesis_status
        } else {
            SynthesisStatus::Blocked
        }),
        texts(final(manifest).notes@) == texts(old(manifest).notes@) + outcome_notes(reports@)
            + conflict_notes(proposed_files(results@)) + (if has_writable_lane(
            old(manifest).lane_modes@,
        ) {
            seq![writable_note()]
        } else {
            Seq::<Seq<char>>::empty()
        }),
        final(manifest).run_slug == old(manifest).run_slug,
        final(manifest).created_at == old(manifest).created_at,
        final(manifest).cwd == old(manifest).cwd,
        final(manifest).requested_lane_count == old(manifest).requested_lane_count,
        final(manifest).lane_ids == old(manifest).lane_ids,
        final(manifest).lane_modes == old(manifest).lane_modes,
        final(manifest).writable_scopes == old(manifest).writable_scopes,
        final(manifest).prompt_template_refs == old(manifest).prompt_template_refs,
        final(manifest).deferred_files == old(manifest).deferred_files,
        final(manifest).capture_files == old(manifest).capture_files,
        final(manifest).session_name == old(manifest).session_name,
        final(manifest).approval_events == old(manifest).approval_events,
{
    let ghost all = reports@;
    let ghost notes0 = texts(manifest.notes@);
    let mut results: Vec<ParsedLaneResult> = Vec::new();
    let mut failed = false;
    assert(all.len() == reports.len());
    let mut rest = reports;
    let mut k: usize = 0;
    while rest.len() > 0
        invariant
            k <= all.len() <= usize::MAX,
            rest@ == all.skip(k as int),
            results@ == parsed_results(all.take(k as int)),
            failed == any_failed(all.take(k as int)),
            texts(manifest.notes@) == notes0 + outcome_notes(all.take(k as int)),
            manifest.run_slug == old(manifest).run_slug,
            manifest.created_at == old(manifest).created_at,
            manifest.cwd == old(manifest).cwd,
            manifest.requested_lane_count == old(manifest).requested_lane_count,
            manifest.lane_ids == old(manifest).lane_ids,
            manifest.lane_modes == old(manifest).lane_modes,
            manifest.writable_scopes == old(manifest).writable_scopes,
            manifest.prompt_template_refs == old(manifest).prompt_template_refs,
            manifest.deferred_files == old(manifest).deferred_files,
            manifest.capture_files == old(manifest).capture_files,
            manifest.session_name == old(manifest).session_name,
            manifest.approval_events == old(manifest).approval_events,
            manifest.synthesis_status == old(manifest).synthesis_status,
        decreases rest@.len(),
    {
        let report = rest.remove(0);
        let ghost taken = all.take(k + 1);
        proof {
            assert(report == all[k as int]);
            assert(taken.drop_last() =~= all.take(k as int));
            assert(taken.last() == report);
            lemma_any_failed_step(taken);
        }
        let LaneReport { lane_id, outcome } = report;
        match outcome {
            LaneOutcome::Parsed(r) => {
                results.push(r);
            },
            LaneOutcome::ParseFailed(why) => {
                failed = true;
                let mut note = owned(lane_id.as_str());
                push_str(&mut note, ": parse failed: ");
                push_str(&mut note, why.as_str());
                proof {
                    lemma_texts_push(manifest.notes@, note);
                }
                manifest.notes.push(note);
                assert(texts(manifest.notes@) =~= notes0 + outcome_notes(taken));
            },
            LaneOutcome::MissingOutput(why) => {
                failed = true;
                let mut note = owned(lane_id.as_str());
                push_str(&mut note, ": missing output: ");
                push_str(&mut note, why.as_str());
                proof {
                    lemma_texts_push(manifest.notes@, note);
                }
                manifest.notes.push(note);
                assert(texts(manifest.notes@) =~= notes0 + outcome_notes(taken));
            },
        }
        k += 1;
        assert(rest@ =~= all.skip(k as int));
    }
    assert(all.take(k as int) =~= all);
    manifest.parse_status = if failed {
        ParseStatus::Failed
    } else {
        ParseStatus::Success
    };
    let files = collect_proposed_files(&results);
    let (conflict, conflict_notes_found) = find_conflicts(&files);
    let ghost notes1 = texts(manifest.notes@);
    let mut n: usize = 0;
    while n < conflict_notes_found.len()
        invariant
            n <= conflict_notes_found@.len(),
            texts(manifest.notes@) == notes1 + texts(conflict_notes_found@.take(n as int)),
            manifest.run_slug == old(manifest).run_slug,
            manifest.created_at == old(manifest).created_at,
            manifest.cwd == old(manifest).cwd,
            manifest.requested_lane_count == old(manifest).requested_lane_count,
            manifest.lane_ids == old(manifest).lane_ids,
            manifest.lane_modes == old(manifest).lane_modes,
            manifest.writable_scopes == old(manifest).writable_scopes,
            manifest.prompt_template_refs == old(manifest).prompt_template_refs,
            manifest.deferred_files == old(manifest).deferred_files,
            manifest.capture_files == old(manifest).capture_files,
            manifest.session_name == old(manifest).session_name,
            manifest.approval_events == old(manifest).approval_events,
            manifest.synthesis_status == old(manifest).synthesis_status,
            manifest.parse_status == (if failed {
                ParseStatus::Failed
            } else {
                ParseStatus::Success
            }),
        decreases conflict_notes_found@.len() - n,
    {
        let c = conflict_notes_found[n].clone();
        proof {
            lemma_texts_push(manifest.notes@, c);
            lemma_texts_take_next(conflict_notes_found@, n as int);
        }
        manifest.notes.push(c);
        assert(texts(manifest.notes@) =~= notes1 + texts(conflict_notes_found@.take(n + 1)));
        n += 1;
    }
    assert(conflict_notes_found@.take(n as int) =~= conflict_notes_found@);
    manifest.conflict_status = if conflict {
        ConflictStatus::Detected
    } else {
        ConflictStatus::Clear
    };
    let writable = any_writable(manifest);
    if writable {
        manifest.synthesis_status = SynthesisStatus::Blocked;
        let mut note = String::new();
        push_str(
            &mut note,
            "synthesis blocked because writable interactive lanes require human completion",
        );
        proof {
            lemma_texts_push(manifest.notes@, note);
        }
        manifest.notes.push(note);
    } else if failed || conflict {
        manifest.synthesis_status = SynthesisStatus::Blocked;
    }
    proof {
        assert(texts(manifest.notes@) =~= notes0 + outcome_notes(all) + conflict_notes(
            proposed_files(results@),
        ) + (if has_writable_lane(old(manifest).lane_modes@) {
            seq![writable_note()]
        } else {
            Seq::<Seq<char>>::empty()
        }));
    }
    results
}

/// What a reviewed run does about synthesis.
pub enum SynthesisStep {
    /// Write the synthesis prompt and document, then record them.
    Write,
    /// Write nothing: synthesis is blocked.
    Skip,
}

/// The synthesis step of a reviewed run: write the synthesis exactly when it is not blocked.
pub fn synthesis_step(manifest: &RunManifest) -> (step: SynthesisStep)
    ensures
        step is Write <==> manifest.synthesis_status != SynthesisStatus::Blocked,
{
    if manifest.synthesis_status == SynthesisStatus::Blocked {
        SynthesisStep::Skip
    } else {
        SynthesisStep::Write
    }
}

/// The synthesis status once the synthesis has been written: completed, unless it was
/// blocked, which it stays.
pub open spec fn after_synthesis(status: SynthesisStatus) -> SynthesisStatus {
    if status == SynthesisStatus::Blocked {
        SynthesisStatus::Blocked
    } else {
        SynthesisStatus::Completed
    }
}

/// Records that the synthesis was written: the run's synthesis is completed unless it
/// is blocked. Nothing else of the manifest changes.
pub fn record_synthesis_written(manifest: &mut RunManifest)
    ensures
        final(manifest).synthesis_status == after_synthesis(old(manifest).synthesis_status),
        final(manifest).run_slug == old(manifest).run_slug,
        final(manifest).created_at == old(manifest).created_at,
        final(manifest).cwd == old(manifest).cwd,
        final(manifest).requested_lane_count == old(manifest).requested_lane_count,
        final(manifest).lane_ids == old(manifest).lane_ids,
        final(manifest).lane_modes == old(manifest).lane_modes,
        final(manifest).writable_scopes == old(manifest).writable_scopes,
        final(manifest).prompt_template_refs == old(manifest).prompt_template_refs,
        final(manifest).deferred_files == old(manifest).deferred_files,
        final(manifest).capture_files == old(manifest).capture_files,
        final(manifest).parse_status == old(manifest).parse_status,
        final(manifest).conflict_status == old(manifest).conflict_status,
        final(manifest).session_name == old(manifest).session_name,
        final(manifest).approval_events == old(manifest).approval_events,
        final(manifest).notes == old(manifest).notes,
{
    if manifest.synthesis_status != SynthesisStatus::Blocked {
        manifest.synthesis_status = SynthesisStatus::Completed;
    }
}

/// A run that starts with synthesis pending, is reviewed, and writes its synthesis when
/// the review allows it, ends with synthesis completed (and so succeeds, by
/// `run_result`) exactly when every read-only lane gave a result, no file is proposed
/// twice and no lane is writable.
pub proof fn law_run_completes_iff_review_clean(
    reports: Seq<LaneReport>,
    modes: Map<Seq<char>, LaneMode>,
)
    ensures
        ({
            let reviewed = if synthesis_allowed(reports, modes) {
                SynthesisStatus::Pending
            } else {
                SynthesisStatus::Blocked
            };
            let written = if reviewed != SynthesisStatus::Blocked {
                after_synthesis(reviewed)
            } else {
                reviewed
            };
            written == SynthesisStatus::Completed <==> synthesis_allowed(reports, modes)
        }),
{
}

/// The message of a run that ended without synthesis.
pub open spec fn unfinished_run_message(slug: Seq<char>, needs_review: bool) -> Seq<char> {
    if needs_review {
        "run "@ + slug + " requires review"@
    } else {
        "run "@ + slug + " failed"@
    }
}

/// How a run ends: success when synthesis completed; otherwise exit code 2 with
/// "run <slug> requires review" when a conflict was detected, a lane is writable or
/// parsing failed, and exit code 1 with "run <slug> failed" in any other case.
pub fn run_result(manifest: &RunManifest) -> (res: Result<(), AppError>)
    ensures
        res is Ok <==> manifest.synthesis_status == SynthesisStatus::Completed,
        match res {
            Ok(()) => true,
            Err(e) => {
                let review = manifest.conflict_status == ConflictStatus::Detected
                    || has_writable_lane(manifest.lane_modes@) || manifest.parse_status
                    == ParseStatus::Failed;
                &&& e.code() == (if review {
                    2i32
                } else {
                    1i32
                })
                &&& e.text() == unfinished_run_message(manifest.run_slug@, review)
            },
        },
{
    if manifest.synthesis_status == SynthesisStatus::Completed {
        return Ok(());
    }
    let review = manifest.conflict_status == ConflictStatus::Detected || any_writable(manifest)
        || manifest.parse_status == ParseStatus::Failed;
    let mut m = String::new();
    push_str(&mut m, "run ");
    push_str(&mut m, manifest.run_slug.as_str());
    if review {
        push_str(&mut m, " requires review");
        assert(m@ =~= unfinished_run_message(manifest.run_slug@, review));
        Err(AppError::new(2, m))
    } else {
        push_str(&mut m, " failed");
        assert(m@ =~= unfinished_run_message(manifest.run_slug@, review));
        Err(AppError::new(1, m))
    }
}

} // verus!
