//! The synthesis document of a run: the task, the run, and one line per lane.
use crate::manifest::RunManifest;
use crate::prompt_builder::join_lines;
use crate::result_parser::ParsedLaneResult;
use crate::text::{owned, push_str};
use vstd::prelude::*;

verus! {

/// The line of one lane: `- <lane id>: <summary>`.
pub open spec fn summary_line(r: ParsedLaneResult) -> Seq<char> {
    "- "@ + r.lane_id@ + ": "@ + r.summary@
}

/// The synthesis document of a run.
pub open spec fn synthesis_spec(
    results: Seq<ParsedLaneResult>,
    run_slug: Seq<char>,
    task: Seq<char>,
) -> Seq<char> {
    "# Executainer synthesis\n\nTask: "@ + task + "\n\nRun: "@ + run_slug
        + "\n\nLane summaries:\n"@ + join_lines(results.map_values(|r| summary_line(r)))
        + "\n"@
}

/// Combines the lane results of a run into its synthesis document.
pub fn synthesize_results(results: &[ParsedLaneResult], manifest: &RunManifest, task: &str) -> (doc:
    String)
    ensures
        doc@ == synthesis_spec(results@, manifest.run_slug@, task@),
{
    let ghost lines = results@.map_values(|r| summary_line(r));
    let mut doc = owned("# Executainer synthesis\n\nTask: ");
    push_str(&mut doc, task);
    push_str(&mut doc, "\n\nRun: ");
    push_str(&mut doc, manifest.run_slug.as_str());
    push_str(&mut doc, "\n\nLane summaries:\n");
    let ghost head = doc@;
    assert(head =~= "# Executainer synthesis\n\nTask: "@ + task@ + "\n\nRun: "@ + manifest.run_slug@
        + "\n\nLane summaries:\n"@);
    let mut i: usize = 0;
    assert(lines.take(0) =~= Seq::<Seq<char>>::empty());
    while i < results.len()
        invariant
            i <= results@.len(),
            lines == results@.map_values(|r| summary_line(r)),
            doc@ == head + join_lines(lines.take(i as int)),
        decreases results@.len() - i,
    {
        let ghost before = doc@;
        if i > 0 {
            doc.push('\n');
        }
        push_str(&mut doc, "- ");
        push_str(&mut doc, results[i].lane_id.as_str());
        push_str(&mut doc, ": ");
        push_str(&mut doc, results[i].summary.as_str());
        assert(lines.take(i + 1).drop_last() =~= lines.take(i as int));
        assert(lines[i as int] == summary_line(results@[i as int]));
        if i == 0 {
            assert(lines.take(1) =~= seq![lines[0]]);
            assert(doc@ =~= head + join_lines(lines.take(1)));
        } else {
            assert(doc@ =~= head + (join_lines(lines.take(i as int)) + seq!['\n'] + lines[i as int]));
        }
        i += 1;
    }
    assert(lines.take(i as int) =~= lines);
    push_str(&mut doc, "\n");
    assert(doc@ =~= synthesis_spec(results@, manifest.run_slug@, task@));
    doc
}

} // verus!
