//! Prompts: each lane receives a bounded prompt from the template of its mode,
//! and synthesis receives the task, the parsed results and the manifest.
use crate::manifest::LaneMode;
use crate::result_parser::{SENTINEL_END, SENTINEL_START};
use crate::review::texts;
use crate::text::{
    lemma_absent_by_char, lemma_replace_all_absent, lemma_replace_all_split, lemma_replace_all_whole,
    occurrences, owned, push_str, replace, replace_all,
};
use vstd::prelude::*;

verus! {

/// The opening line of a read-only lane's prompt.
pub const READ_ONLY_OPENING: &'static str = "You are {{LANE_ID}}, a read-only lane in an executainer run.\n";

/// The opening line of a writable lane's prompt.
pub const WRITABLE_OPENING: &'static str =
    "You are {{LANE_ID}}, a writable lane in an executainer run, supervised by a human operator.\n";

/// The task section that follows the opening line of every lane prompt.
pub const TASK_SECTION: &'static str = "\nTask:\n{{TASK}}\n";

/// The contract of a read-only lane, which ends its prompt.
pub const READ_ONLY_CONTRACT: &'static str = r#"
Lane contract:
- This lane is read-only: do not create, modify or delete any file.
- Work only on the task above; other lanes cover other viewpoints.
- Leave the deferred files listed below alone.
- Writable scope: {{WRITABLE_SCOPE}}

Deferred files:
{{DEFERRED_FILES}}

End your final message with exactly one result block, and nothing after it:
{{SENTINEL_START}}
{"lane_id":"{{LANE_ID}}","status":"ok","summary":"<one paragraph>","proposed_files":["<files you would change>"],"deferred_files":["<files you left for later>"],"notes":"<anything the operator should know>"}
{{SENTINEL_END}}
"#;

/// The contract of a writable lane, which ends its prompt.
pub const WRITABLE_CONTRACT: &'static str = r#"
Lane contract:
- You may change files only inside this writable scope: {{WRITABLE_SCOPE}}
- Ask before any command that needs approval; the operator is watching this pane.
- Work only on the task above; other lanes cover other work.
- Leave the deferred files listed below alone.

Deferred files:
{{DEFERRED_FILES}}

End your final message with exactly one result block, and nothing after it:
{{SENTINEL_START}}
{"lane_id":"{{LANE_ID}}","status":"ok","summary":"<one paragraph>","proposed_files":["<files you changed>"],"deferred_files":["<files you left for later>"],"notes":"<anything the operator should know>"}
{{SENTINEL_END}}
"#;

/// The opening line of the synthesis prompt.
pub const SYNTHESIS_OPENING: &'static str = "You are the synthesis step of an executainer run.\n";

/// What the synthesis prompt asks for after its task section.
pub const SYNTHESIS_BODY: &'static str = r#"
Parsed lane results (JSON):
{{PARSED_RESULTS_JSON}}

Run manifest (JSON):
{{MANIFEST_JSON}}

Combine the lane results into one answer to the task. Trust only the parsed results
and the manifest; say where lanes disagree instead of smoothing it over.
"#;

/// What a lane prompt is built from.
pub struct LanePromptInput<'a> {
    pub lane_id: &'a str,
    pub mode: LaneMode,
    pub task: &'a str,
    pub deferred_files: &'a [String],
    pub writable_scope: Option<&'a str>,
}

/// The template of a lane mode: its opening line, the task section and its contract.
pub open spec fn template_of(mode: LaneMode) -> Seq<char> {
    opening_of(mode) + TASK_SECTION@ + contract_of(mode)
}

/// The template of a lane mode, put together.
fn template_text(mode: LaneMode) -> (res: String)
    ensures
        res@ == template_of(mode),
{
    let mut t = match mode {
        LaneMode::ReadOnly => owned(READ_ONLY_OPENING),
        LaneMode::Writable => owned(WRITABLE_OPENING),
    };
    push_str(&mut t, TASK_SECTION);
    match mode {
        LaneMode::ReadOnly => push_str(&mut t, READ_ONLY_CONTRACT),
        LaneMode::Writable => push_str(&mut t, WRITABLE_CONTRACT),
    }
    t
}

/// The lines of `items`, separated by line breaks.
pub open spec fn join_lines(items: Seq<Seq<char>>) -> Seq<char>
    decreases items.len(),
{
    if items.len() == 0 {
        seq![]
    } else if items.len() == 1 {
        items[0]
    } else {
        join_lines(items.drop_last()) + seq!['\n'] + items.last()
    }
}

/// The deferred files as a bullet list, or `- none` when there are none.
pub open spec fn deferred_list(files: Seq<Seq<char>>) -> Seq<char> {
    if files.len() == 0 {
        "- none"@
    } else {
        join_lines(files.map_values(|f: Seq<char>| "- "@ + f))
    }
}

/// The prompt of a lane: the template of its mode with its identifier, the task, the
/// deferred files, its writable scope (`none` when it has none) and the two sentinels
/// put in place of their placeholders, in that order.
pub open spec fn lane_prompt_spec(
    lane_id: Seq<char>,
    mode: LaneMode,
    task: Seq<char>,
    deferred_files: Seq<Seq<char>>,
    writable_scope: Option<Seq<char>>,
) -> Seq<char> {
    let scope = match writable_scope {
        Some(s) => s,
        None => "none"@,
    };
    let p1 = replace_all(template_of(mode), "{{LANE_ID}}"@, lane_id);
    let p2 = replace_all(p1, "{{TASK}}"@, task);
    let p3 = replace_all(p2, "{{DEFERRED_FILES}}"@, deferred_list(deferred_files));
    let p4 = replace_all(p3, "{{WRITABLE_SCOPE}}"@, scope);
    let p5 = replace_all(p4, "{{SENTINEL_START}}"@, SENTINEL_START@);
    replace_all(p5, "{{SENTINEL_END}}"@, SENTINEL_END@)
}

/// Replacing a placeholder keeps a `Task:` line in place: the text before it, the
/// line's own text and the text after it are each replaced on their own.
proof fn lemma_task_line_kept(a: Seq<char>, mid: Seq<char>, b: Seq<char>, pat: Seq<char>, rep: Seq<char>)
    requires
        pat.len() > 0,
        pat.contains('{'),
        !pat.contains('\n'),
    ensures
        replace_all(a + "\nTask:\n"@ + mid + "\n"@ + b, pat, rep) == replace_all(a, pat, rep)
            + "\nTask:\n"@ + replace_all(mid, pat, rep) + "\n"@ + replace_all(b, pat, rep),
{
    reveal_strlit("\nTask:\n");
    reveal_strlit("Task:");
    reveal_strlit("\n");
    let t = "Task:"@;
    let nl = seq!['\n'];
    assert("\nTask:\n"@ =~= nl + t + nl);
    assert("\n"@ =~= nl);
    let rest2 = mid + nl + b;
    let rest1 = t + nl + rest2;
    assert(a + "\nTask:\n"@ + mid + "\n"@ + b =~= a + nl + rest1);
    lemma_replace_all_split(a, '\n', rest1, pat, rep);
    lemma_replace_all_split(t, '\n', rest2, pat, rep);
    lemma_replace_all_split(mid, '\n', b, pat, rep);
    assert(!t.contains('{'));
    lemma_absent_by_char(t, pat, '{');
    lemma_replace_all_absent(t, pat, rep);
    assert(replace_all(a, pat, rep) + nl + (t + nl + (replace_all(mid, pat, rep) + nl + replace_all(
        b,
        pat,
        rep,
    ))) =~= replace_all(a, pat, rep) + "\nTask:\n"@ + replace_all(mid, pat, rep) + "\n"@
        + replace_all(b, pat, rep));
}

/// A placeholder filled after the task leaves the task line as it was, when the
/// placeholder does not occur in the task.
proof fn lemma_later_fill_keeps_task(a: Seq<char>, b: Seq<char>, task: Seq<char>, pat: Seq<char>, rep: Seq<char>)
    requires
        pat.len() > 0,
        pat.contains('{'),
        !pat.contains('\n'),
        occurrences(task, pat).len() == 0,
    ensures
        replace_all(a + "\nTask:\n"@ + task + "\n"@ + b, pat, rep) == replace_all(a, pat, rep)
            + "\nTask:\n"@ + task + "\n"@ + replace_all(b, pat, rep),
{
    lemma_task_line_kept(a, task, b, pat, rep);
    lemma_replace_all_absent(task, pat, rep);
}

/// Every placeholder opens with a brace and has no line break.
proof fn lemma_placeholder_shape(pat: Seq<char>)
    requires
        pat.len() > 2,
        pat[0] == '{',
        forall|i: int| 0 <= i < pat.len() ==> pat[i] != '\n',
    ensures
        pat.len() > 0,
        pat.contains('{'),
        !pat.contains('\n'),
{
}

/// The placeholders filled after the task open with a brace and have no line break.
proof fn lemma_later_placeholders()
    ensures
        "{{DEFERRED_FILES}}"@.len() > 0 && "{{DEFERRED_FILES}}"@.contains('{') && !"{{DEFERRED_FILES}}"@.contains('\n'),
        "{{WRITABLE_SCOPE}}"@.len() > 0 && "{{WRITABLE_SCOPE}}"@.contains('{') && !"{{WRITABLE_SCOPE}}"@.contains('\n'),
        "{{SENTINEL_START}}"@.len() > 0 && "{{SENTINEL_START}}"@.contains('{') && !"{{SENTINEL_START}}"@.contains('\n'),
        "{{SENTINEL_END}}"@.len() > 0 && "{{SENTINEL_END}}"@.contains('{') && !"{{SENTINEL_END}}"@.contains('\n'),
{
    reveal_strlit("{{DEFERRED_FILES}}");
    reveal_strlit("{{WRITABLE_SCOPE}}");
    reveal_strlit("{{SENTINEL_START}}");
    reveal_strlit("{{SENTINEL_END}}");
    lemma_placeholder_shape("{{DEFERRED_FILES}}"@);
    lemma_placeholder_shape("{{WRITABLE_SCOPE}}"@);
    lemma_placeholder_shape("{{SENTINEL_START}}"@);
    lemma_placeholder_shape("{{SENTINEL_END}}"@);
}

/// The opening line of a lane mode's template.
pub open spec fn opening_of(mode: LaneMode) -> Seq<char> {
    match mode {
        LaneMode::ReadOnly => READ_ONLY_OPENING@,
        LaneMode::Writable => WRITABLE_OPENING@,
    }
}

/// The contract of a lane mode's template.
pub open spec fn contract_of(mode: LaneMode) -> Seq<char> {
    match mode {
        LaneMode::ReadOnly => READ_ONLY_CONTRACT@,
        LaneMode::Writable => WRITABLE_CONTRACT@,
    }
}

/// Filling the lane identifier and then the task puts the task on the `Task:` line.
proof fn lemma_identifier_then_task(mode: LaneMode, lane_id: Seq<char>, task: Seq<char>)
    ensures
        replace_all(replace_all(template_of(mode), "{{LANE_ID}}"@, lane_id), "{{TASK}}"@, task)
            == replace_all(replace_all(opening_of(mode), "{{LANE_ID}}"@, lane_id), "{{TASK}}"@, task)
            + "\nTask:\n"@ + task + "\n"@ + replace_all(
            replace_all(contract_of(mode), "{{LANE_ID}}"@, lane_id),
            "{{TASK}}"@,
            task,
        ),
{
    reveal_strlit("{{LANE_ID}}");
    reveal_strlit("{{TASK}}");
    reveal_strlit("\nTask:\n{{TASK}}\n");
    reveal_strlit("\nTask:\n");
    reveal_strlit("\n");
    let l = "{{LANE_ID}}"@;
    let k = "{{TASK}}"@;
    lemma_placeholder_shape(l);
    lemma_placeholder_shape(k);
    let a0 = opening_of(mode);
    let b0 = contract_of(mode);
    assert(TASK_SECTION@ =~= "\nTask:\n"@ + k + "\n"@);
    assert(template_of(mode) =~= a0 + "\nTask:\n"@ + k + "\n"@ + b0);
    lemma_task_line_kept(a0, k, b0, l, lane_id);
    assert(!k.contains('L'));
    assert(l[2] == 'L');
    lemma_absent_by_char(k, l, 'L');
    lemma_replace_all_absent(k, l, lane_id);
    let a1 = replace_all(a0, l, lane_id);
    let b1 = replace_all(b0, l, lane_id);
    lemma_task_line_kept(a1, k, b1, k, task);
    lemma_replace_all_whole(k, task);
}

/// The lane prompt carries the task on the line after `Task:`, whatever the lane,
/// its mode, its deferred files and its scope, for a task in which none of the
/// placeholders filled after it occurs.
pub proof fn law_lane_prompt_carries_the_task(
    lane_id: Seq<char>,
    mode: LaneMode,
    task: Seq<char>,
    deferred_files: Seq<Seq<char>>,
    writable_scope: Option<Seq<char>>,
)
    requires
        occurrences(task, "{{DEFERRED_FILES}}"@).len() == 0,
        occurrences(task, "{{WRITABLE_SCOPE}}"@).len() == 0,
        occurrences(task, "{{SENTINEL_START}}"@).len() == 0,
        occurrences(task, "{{SENTINEL_END}}"@).len() == 0,
    ensures
        exists|before: Seq<char>, after: Seq<char>|
            lane_prompt_spec(lane_id, mode, task, deferred_files, writable_scope) == before
                + "\nTask:\n"@ + task + "\n"@ + after,
{
    lemma_later_placeholders();
    lemma_identifier_then_task(mode, lane_id, task);
    let l = "{{LANE_ID}}"@;
    let k = "{{TASK}}"@;
    let d = "{{DEFERRED_FILES}}"@;
    let w = "{{WRITABLE_SCOPE}}"@;
    let ss = "{{SENTINEL_START}}"@;
    let se = "{{SENTINEL_END}}"@;
    let scope = match writable_scope {
        Some(s) => s,
        None => "none"@,
    };
    let deferred = deferred_list(deferred_files);
    let a2 = replace_all(replace_all(opening_of(mode), l, lane_id), k, task);
    let b2 = replace_all(replace_all(contract_of(mode), l, lane_id), k, task);
    lemma_later_fill_keeps_task(a2, b2, task, d, deferred);
    let a3 = replace_all(a2, d, deferred);
    let b3 = replace_all(b2, d, deferred);
    lemma_later_fill_keeps_task(a3, b3, task, w, scope);
    let a4 = replace_all(a3, w, scope);
    let b4 = replace_all(b3, w, scope);
    lemma_later_fill_keeps_task(a4, b4, task, ss, SENTINEL_START@);
    let a5 = replace_all(a4, ss, SENTINEL_START@);
    let b5 = replace_all(b4, ss, SENTINEL_START@);
    lemma_later_fill_keeps_task(a5, b5, task, se, SENTINEL_END@);
    let a6 = replace_all(a5, se, SENTINEL_END@);
    let b6 = replace_all(b5, se, SENTINEL_END@);
    assert(lane_prompt_spec(lane_id, mode, task, deferred_files, writable_scope) == a6
        + "\nTask:\n"@ + task + "\n"@ + b6);
}

/// The bullet list of the deferred files.
fn deferred_files_text(files: &[String]) -> (res: String)
    ensures
        res@ == deferred_list(texts(files@)),
{
    if files.len() == 0 {
        return owned("- none");
    }
    let ghost items = texts(files@).map_values(|f: Seq<char>| "- "@ + f);
    let mut res = owned("- ");
    push_str(&mut res, files[0].as_str());
    let mut i: usize = 1;
    assert(items.take(1) =~= seq![items[0]]);
    while i < files.len()
        invariant
            1 <= i <= files@.len(),
            items == texts(files@).map_values(|f: Seq<char>| "- "@ + f),
            res@ == join_lines(items.take(i as int)),
        decreases files@.len() - i,
    {
        res.push('\n');
        push_str(&mut res, "- ");
        push_str(&mut res, files[i].as_str());
        assert(items.take(i + 1).drop_last() =~= items.take(i as int));
        assert(items[i as int] == "- "@ + files@[i as int]@);
        assert(res@ =~= join_lines(items.take(i as int)) + seq!['\n'] + items[i as int]);
        i += 1;
    }
    assert(items.take(i as int) =~= items);
    res
}

/// Renders the prompt of a lane.
pub fn build_lane_prompt(input: LanePromptInput<'_>) -> (prompt: String)
    ensures
        prompt@ == lane_prompt_spec(
            input.lane_id@,
            input.mode,
            input.task@,
            texts(input.deferred_files@),
            match input.writable_scope {
                Some(s) => Some(s@),
                None => None,
            },
        ),
{
    let template = template_text(input.mode);
    let deferred = deferred_files_text(input.deferred_files);
    let scope: &str = match input.writable_scope {
        Some(s) => s,
        None => "none",
    };
    proof {
        reveal_strlit("{{LANE_ID}}");
        reveal_strlit("{{TASK}}");
        reveal_strlit("{{DEFERRED_FILES}}");
        reveal_strlit("{{WRITABLE_SCOPE}}");
        reveal_strlit("{{SENTINEL_START}}");
        reveal_strlit("{{SENTINEL_END}}");
    }
    let p1 = replace(template.as_str(), "{{LANE_ID}}", input.lane_id);
    let p2 = replace(p1.as_str(), "{{TASK}}", input.task);
    let p3 = replace(p2.as_str(), "{{DEFERRED_FILES}}", deferred.as_str());
    let p4 = replace(p3.as_str(), "{{WRITABLE_SCOPE}}", scope);
    let p5 = replace(p4.as_str(), "{{SENTINEL_START}}", SENTINEL_START);
    replace(p5.as_str(), "{{SENTINEL_END}}", SENTINEL_END)
}

/// The synthesis template: its opening line, the task section and what it asks for.
pub open spec fn synthesis_template() -> Seq<char> {
    SYNTHESIS_OPENING@ + TASK_SECTION@ + SYNTHESIS_BODY@
}

/// The synthesis prompt: the synthesis template with the task, the parsed results and
/// the manifest put in place of their placeholders, in that order.
pub open spec fn synthesis_prompt_spec(
    task: Seq<char>,
    parsed_results_json: Seq<char>,
    manifest_json: Seq<char>,
) -> Seq<char> {
    let p1 = replace_all(synthesis_template(), "{{TASK}}"@, task);
    let p2 = replace_all(p1, "{{PARSED_RESULTS_JSON}}"@, parsed_results_json);
    replace_all(p2, "{{MANIFEST_JSON}}"@, manifest_json)
}

/// Renders the synthesis prompt.
pub fn build_synthesis_prompt(task: &str, parsed_results_json: &str, manifest_json: &str) -> (prompt:
    String)
    ensures
        prompt@ == synthesis_prompt_spec(task@, parsed_results_json@, manifest_json@),
{
    proof {
        reveal_strlit("{{TASK}}");
        reveal_strlit("{{PARSED_RESULTS_JSON}}");
        reveal_strlit("{{MANIFEST_JSON}}");
    }
    let mut template = owned(SYNTHESIS_OPENING);
    push_str(&mut template, TASK_SECTION);
    push_str(&mut template, SYNTHESIS_BODY);
    let p1 = replace(template.as_str(), "{{TASK}}", task);
    let p2 = replace(p1.as_str(), "{{PARSED_RESULTS_JSON}}", parsed_results_json);
    replace(p2.as_str(), "{{MANIFEST_JSON}}", manifest_json)
}

/// The synthesis prompt carries the task on the line after `Task:`, whatever the
/// results and the manifest, for a task in which neither of the placeholders filled
/// after it occurs.
pub proof fn law_synthesis_prompt_carries_the_task(
    task: Seq<char>,
    parsed_results_json: Seq<char>,
    manifest_json: Seq<char>,
)
    requires
        occurrences(task, "{{PARSED_RESULTS_JSON}}"@).len() == 0,
        occurrences(task, "{{MANIFEST_JSON}}"@).len() == 0,
    ensures
        exists|before: Seq<char>, after: Seq<char>|
            synthesis_prompt_spec(task, parsed_results_json, manifest_json) == before
                + "\nTask:\n"@ + task + "\n"@ + after,
{
    reveal_strlit("{{TASK}}");
    reveal_strlit("{{PARSED_RESULTS_JSON}}");
    reveal_strlit("{{MANIFEST_JSON}}");
    reveal_strlit("\nTask:\n{{TASK}}\n");
    reveal_strlit("\nTask:\n");
    reveal_strlit("\n");
    let k = "{{TASK}}"@;
    let r = "{{PARSED_RESULTS_JSON}}"@;
    let m = "{{MANIFEST_JSON}}"@;
    lemma_placeholder_shape(k);
    lemma_placeholder_shape(r);
    lemma_placeholder_shape(m);
    let a0 = SYNTHESIS_OPENING@;
    let b0 = SYNTHESIS_BODY@;
    assert(TASK_SECTION@ =~= "\nTask:\n"@ + k + "\n"@);
    assert(synthesis_template() =~= a0 + "\nTask:\n"@ + k + "\n"@ + b0);
    lemma_task_line_kept(a0, k, b0, k, task);
    lemma_replace_all_whole(k, task);
    let a1 = replace_all(a0, k, task);
    let b1 = replace_all(b0, k, task);
    lemma_later_fill_keeps_task(a1, b1, task, r, parsed_results_json);
    let a2 = replace_all(a1, r, parsed_results_json);
    let b2 = replace_all(b1, r, parsed_results_json);
    lemma_later_fill_keeps_task(a2, b2, task, m, manifest_json);
    let a3 = replace_all(a2, m, manifest_json);
    let b3 = replace_all(b2, m, manifest_json);
    assert(synthesis_prompt_spec(task, parsed_results_json, manifest_json) == a3 + "\nTask:\n"@
        + task + "\n"@ + b3);
}

} // verus!
