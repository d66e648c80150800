//! The plan of a new run: its manifest, and the prompt and script of each lane.
use crate::cli::{
    build_read_only_script, build_writable_script, lane_id_spec, lane_ids, read_only_script_spec,
    writable_script_spec, AppError, CLOCK_ERROR,
};
use crate::manifest::{ConflictStatus, LaneMode, ParseStatus, RunManifest, StrMap, SynthesisStatus};
use crate::prompt_builder::{build_lane_prompt, lane_prompt_spec, LanePromptInput};
use crate::clock::{date_in_range, rfc3339_spec, unix_time_now, utc_date, utc_timestamp_rfc3339};
use crate::review::texts;
use crate::text::owned;
use vstd::prelude::*;

verus! {

/// The template path recorded for a writable lane.
pub const WRITABLE_TEMPLATE_REF: &'static str = "templates/lane_writable.txt";

/// The template path recorded for a read-only lane.
pub const READ_ONLY_TEMPLATE_REF: &'static str = "templates/lane_read_only.txt";

/// Each lane is writable exactly when it has a writable scope.
pub open spec fn lane_modes_spec(ids: Seq<Seq<char>>, writable: Set<Seq<char>>) -> Map<
    Seq<char>,
    LaneMode,
> {
    Map::new(
        |k: Seq<char>| ids.contains(k),
        |k: Seq<char>|
            if writable.contains(k) {
                LaneMode::Writable
            } else {
                LaneMode::ReadOnly
            },
    )
}

/// Each lane refers to the template of its mode.
pub open spec fn template_refs_spec(ids: Seq<Seq<char>>, writable: Set<Seq<char>>) -> Map<
    Seq<char>,
    Seq<char>,
> {
    Map::new(
        |k: Seq<char>| ids.contains(k),
        |k: Seq<char>|
            if writable.contains(k) {
                WRITABLE_TEMPLATE_REF@
            } else {
                READ_ONLY_TEMPLATE_REF@
            },
    )
}

/// The manifest of a run that is about to start: lanes 1 to `lane_count`, each
/// writable exactly when it has a writable scope, each referring to the template of
/// its mode; no captures, notes or approval events yet; parsing and synthesis pending
/// and no conflict.
pub fn new_run_manifest(
    run_slug: String,
    created_at: String,
    cwd: String,
    lane_count: usize,
    writable_scopes: StrMap<String>,
    deferred_files: Vec<String>,
    session_name: String,
) -> (m: RunManifest)
    ensures
        m.run_slug == run_slug,
        m.created_at == created_at,
        m.cwd == cwd,
        m.requested_lane_count == lane_count,
        m.lane_ids@.len() == lane_count,
        forall|i: int| 0 <= i < lane_count ==> (#[trigger] m.lane_ids@[i])@ == lane_id_spec((i + 1) as nat),
        m.lane_modes@ == lane_modes_spec(texts(m.lane_ids@), writable_scopes@.dom()),
        m.prompt_template_refs@.map_values(|s: String| s@) == template_refs_spec(
            texts(m.lane_ids@),
            writable_scopes@.dom(),
        ),
        m.writable_scopes == writable_scopes,
        m.deferred_files == deferred_files,
        m.capture_files@ == Map::<Seq<char>, String>::empty(),
        m.parse_status == ParseStatus::Pending,
        m.synthesis_status == SynthesisStatus::Pending,
        m.conflict_status == ConflictStatus::Clear,
        m.session_name == Some(session_name),
        m.approval_events@.len() == 0,
        m.notes@.len() == 0,
{
    let ids = lane_ids(lane_count);
    let ghost writable = writable_scopes@.dom();
    let mut modes: StrMap<LaneMode> = StrMap::new();
    let mut refs: StrMap<String> = StrMap::new();
    let mut i: usize = 0;
    while i < ids.len()
        invariant
            i <= ids@.len(),
            writable == writable_scopes@.dom(),
            modes@ == lane_modes_spec(texts(ids@.take(i as int)), writable),
            refs@.map_values(|s: String| s@) == template_refs_spec(texts(ids@.take(i as int)), writable),
        decreases ids@.len() - i,
    {
        let id = &ids[i];
        let is_writable = writable_scopes.contains_key(id);
        let ghost before_modes = modes@;
        let ghost before_refs = refs@;
        proof {
            crate::review::lemma_texts_take_next(ids@, i as int);
        }
        let ghost now = texts(ids@.take(i + 1));
        let ghost prev = texts(ids@.take(i as int));
        assert(now == prev.push(id@));
        assert forall|k: Seq<char>| now.contains(k) <==> prev.contains(k) || k == id@ by {
            if prev.contains(k) {
                let j = choose|j: int| 0 <= j < prev.len() && prev[j] == k;
                assert(now[j] == k);
            }
            if now.contains(k) && k != id@ {
                let j = choose|j: int| 0 <= j < now.len() && now[j] == k;
                assert(prev[j] == k);
            }
            if k == id@ {
                assert(now[prev.len() as int] == k);
            }
        }
        let template_ref = if is_writable {
            modes.insert(owned(id.as_str()), LaneMode::Writable);
            owned(WRITABLE_TEMPLATE_REF)
        } else {
            modes.insert(owned(id.as_str()), LaneMode::ReadOnly);
            owned(READ_ONLY_TEMPLATE_REF)
        };
        let ghost ref_text = template_ref@;
        refs.insert(owned(id.as_str()), template_ref);
        assert(refs@.map_values(|s: String| s@) =~= before_refs.map_values(|s: String| s@).insert(
            id@,
            ref_text,
        ));
        assert(modes@ =~= lane_modes_spec(now, writable));
        assert(refs@.map_values(|s: String| s@) =~= template_refs_spec(now, writable));
        i += 1;
    }
    assert(ids@.take(i as int) =~= ids@);
    RunManifest {
        run_slug,
        created_at,
        cwd,
        requested_lane_count: lane_count,
        lane_ids: ids,
        lane_modes: modes,
        writable_scopes,
        prompt_template_refs: refs,
        deferred_files,
        capture_files: StrMap::new(),
        parse_status: ParseStatus::Pending,
        synthesis_status: SynthesisStatus::Pending,
        conflict_status: ConflictStatus::Clear,
        session_name: Some(session_name),
        approval_events: Vec::new(),
        notes: Vec::new(),
    }
}

/// The manifest of a run that starts now: as `new_run_manifest` gives it, created at
/// the current UTC time (one reading of the clock) in RFC 3339 form. Fails with exit
/// code 1 when the clock is before the Unix epoch or beyond chrono's calendar.
pub fn start_run_manifest(
    run_slug: String,
    cwd: String,
    lane_count: usize,
    writable_scopes: StrMap<String>,
    deferred_files: Vec<String>,
    session_name: String,
) -> (res: Result<RunManifest, AppError>)
    ensures
        match res {
            Err(e) => {
                &&& e.code() == 1 && e.text() == CLOCK_ERROR@
                &&& call_ensures(unix_time_now, (), None) || exists|secs: i64, nanos: u32|
                    call_ensures(unix_time_now, (), Some((secs, nanos))) && utc_date(secs) is None
            },
            Ok(m) => {
                &&& exists|secs: i64, nanos: u32|
                    {
                        &&& call_ensures(unix_time_now, (), Some((secs, nanos)))
                        &&& secs >= 0 && nanos < 1_000_000_000
                        &&& utc_date(secs) matches Some((year, month, day))
                        &&& date_in_range(year, month, day)
                        &&& m.created_at@ == rfc3339_spec(
                            year,
                            month,
                            day,
                            secs as int,
                            nanos as nat,
                        )
                    }
                &&& m.run_slug == run_slug
                &&& m.cwd == cwd
                &&& m.requested_lane_count == lane_count
                &&& m.lane_ids@.len() == lane_count
                &&& forall|i: int|
                    0 <= i < lane_count ==> (#[trigger] m.lane_ids@[i])@ == lane_id_spec(
                        (i + 1) as nat,
                    )
                &&& m.lane_modes@ == lane_modes_spec(texts(m.lane_ids@), writable_scopes@.dom())
                &&& m.prompt_template_refs@.map_values(|s: String| s@) == template_refs_spec(
                    texts(m.lane_ids@),
                    writable_scopes@.dom(),
                )
                &&& m.writable_scopes == writable_scopes
                &&& m.deferred_files == deferred_files
                &&& m.capture_files@ == Map::<Seq<char>, String>::empty()
                &&& m.parse_status == ParseStatus::Pending
                &&& m.synthesis_status == SynthesisStatus::Pending
                &&& m.conflict_status == ConflictStatus::Clear
                &&& m.session_name == Some(session_name)
                &&& m.approval_events@.len() == 0
                &&& m.notes@.len() == 0
            },
        },
{
    let (secs, nanos) = match unix_time_now() {
        Some(t) => t,
        None => {
            return Err(AppError::new(1, owned(CLOCK_ERROR)));
        },
    };
    let created_at = match utc_timestamp_rfc3339(secs, nanos) {
        Some(text) => text,
        None => {
            return Err(AppError::new(1, owned(CLOCK_ERROR)));
        },
    };
    Ok(
        new_run_manifest(
            run_slug,
            created_at,
            cwd,
            lane_count,
            writable_scopes,
            deferred_files,
            session_name,
        ),
    )
}

/// The mode a lane runs in: the mode recorded for it, read-only when none is.
pub open spec fn mode_of(m: RunManifest, lane_id: Seq<char>) -> LaneMode {
    if m.lane_modes@.contains_key(lane_id) {
        m.lane_modes@[lane_id]
    } else {
        LaneMode::ReadOnly
    }
}

/// The writable scope of a lane, if it has one.
pub open spec fn scope_of(m: RunManifest, lane_id: Seq<char>) -> Option<Seq<char>> {
    if m.writable_scopes@.contains_key(lane_id) {
        Some(m.writable_scopes@[lane_id]@)
    } else {
        None
    }
}

/// The prompt of a lane of the run.
pub fn lane_prompt_for(m: &RunManifest, lane_id: &String, task: &str) -> (prompt: String)
    ensures
        prompt@ == lane_prompt_spec(
            lane_id@,
            mode_of(*m, lane_id@),
            task@,
            texts(m.deferred_files@),
            scope_of(*m, lane_id@),
        ),
{
    let mode = match m.lane_modes.get(lane_id) {
        Some(mode) => *mode,
        None => LaneMode::ReadOnly,
    };
    let scope: Option<&str> = match m.writable_scopes.get(lane_id) {
        Some(s) => Some(s.as_str()),
        None => None,
    };
    build_lane_prompt(
        LanePromptInput {
            lane_id: lane_id.as_str(),
            mode,
            task,
            deferred_files: m.deferred_files.as_slice(),
            writable_scope: scope,
        },
    )
}

/// The script of a lane of the run: the writable script, with the lane's scope, for
/// a lane recorded as writable; the read-only script otherwise.
pub fn lane_script_for(
    m: &RunManifest,
    lane_id: &String,
    cwd: &str,
    prompt_file: &str,
    output_last_message: &str,
    raw_stdout: &str,
    done_file: &str,
) -> (script: String)
    ensures
        script@ == if m.lane_modes@.contains_key(lane_id@) && m.lane_modes@[lane_id@]
            == LaneMode::Writable {
            writable_script_spec(
                cwd@,
                prompt_file@,
                output_last_message@,
                raw_stdout@,
                done_file@,
                scope_of(*m, lane_id@),
            )
        } else {
            read_only_script_spec(cwd@, prompt_file@, output_last_message@, raw_stdout@, done_file@)
        },
{
    match m.lane_modes.get(lane_id) {
        Some(LaneMode::Writable) => {
            let scope: Option<&str> = match m.writable_scopes.get(lane_id) {
                Some(s) => Some(s.as_str()),
                None => None,
            };
            build_writable_script(cwd, prompt_file, output_last_message, raw_stdout, done_file, scope)
        },
        _ => build_read_only_script(cwd, prompt_file, output_last_message, raw_stdout, done_file),
    }
}

} // verus!
