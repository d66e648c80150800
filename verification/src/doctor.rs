//! The environment checklist a run needs before it starts.
use crate::cli::AppError;
use crate::text::{owned, push_str};
use vstd::prelude::*;

verus! {

/// One item of the checklist.
#[derive(Debug, Clone)]
pub struct DoctorCheck {
    pub name: String,
    pub ok: bool,
    pub detail: String,
}

/// The checklist, and whether every item passed.
#[derive(Debug, Clone)]
pub struct DoctorReport {
    pub ok: bool,
    pub checks: Vec<DoctorCheck>,
}

/// The probes of the environment that the checklist asks for.
pub trait DoctorRunner {
    /// Whether `command` can be run.
    fn command_exists(&self, command: &str) -> bool;

    /// Whether a temporary file can be written.
    fn writable_temp_dir(&self) -> bool;

    /// Whether the sentinel parser reads the golden payload.
    fn parser_self_check(&self) -> bool;
}

/// The lane output that the parser self-check reads.
pub const PARSER_SELF_CHECK_SAMPLE: &'static str = r#"
<<<EXECUTAINER_RESULT_START>>>
{"lane_id":"lane-01","status":"ok","summary":"summary","proposed_files":[],"deferred_files":[],"notes":"none"}
<<<EXECUTAINER_RESULT_END>>>
"#;

/// A check as its name, result and detail.
pub open spec fn check_view(c: DoctorCheck) -> (Seq<char>, bool, Seq<char>) {
    (c.name@, c.ok, c.detail@)
}

/// The checklist for the given probe results, in order: runtime, tmux, codex CLI,
/// writable temporary directory, parser self-check.
pub open spec fn doctor_checks_spec(
    runtime_ok: bool,
    tmux_ok: bool,
    codex_ok: bool,
    temp_ok: bool,
    parser_ok: bool,
) -> Seq<(Seq<char>, bool, Seq<char>)> {
    seq![
        ("runtime"@, runtime_ok, if runtime_ok {
            "current executable resolved"@
        } else {
            "could not resolve current executable"@
        }),
        ("tmux"@, tmux_ok, "tmux must be installed for the v1 backend"@),
        ("codex_cli"@, codex_ok, "codex CLI must be available on PATH"@),
        ("writable_temp_dir"@, temp_ok, "tmp/executainer must be writable"@),
        ("parser_self_check"@, parser_ok, "sentinel parser must fail closed and parse the golden payload"@),
    ]
}

fn check(name: &str, ok: bool, detail: &str) -> (c: DoctorCheck)
    ensures
        check_view(c) == (name@, ok, detail@),
{
    DoctorCheck { name: owned(name), ok, detail: owned(detail) }
}

/// The report for the given probe results: the five checks, and `ok` exactly when
/// every check passed.
pub fn doctor_report(
    runtime_ok: bool,
    tmux_ok: bool,
    codex_ok: bool,
    temp_ok: bool,
    parser_ok: bool,
) -> (report: DoctorReport)
    ensures
        report.checks@.map_values(|c: DoctorCheck| check_view(c)) == doctor_checks_spec(
            runtime_ok,
            tmux_ok,
            codex_ok,
            temp_ok,
            parser_ok,
        ),
        report.ok == (runtime_ok && tmux_ok && codex_ok && temp_ok && parser_ok),
{
    let runtime = if runtime_ok {
        check("runtime", true, "current executable resolved")
    } else {
        check("runtime", false, "could not resolve current executable")
    };
    let checks = vec![
        runtime,
        check("tmux", tmux_ok, "tmux must be installed for the v1 backend"),
        check("codex_cli", codex_ok, "codex CLI must be available on PATH"),
        check("writable_temp_dir", temp_ok, "tmp/executainer must be writable"),
        check(
            "parser_self_check",
            parser_ok,
            "sentinel parser must fail closed and parse the golden payload",
        ),
    ];
    assert(checks@.map_values(|c: DoctorCheck| check_view(c)) =~= doctor_checks_spec(
        runtime_ok,
        tmux_ok,
        codex_ok,
        temp_ok,
        parser_ok,
    ));
    let ok = runtime_ok && tmux_ok && codex_ok && temp_ok && parser_ok;
    DoctorReport { ok, checks }
}

/// Runs the checklist: the runtime check is `runtime_ok`, the others ask `runner`, in
/// this order and once each, whether `tmux` and `codex` exist, whether a temporary file
/// can be written and whether the parser reads the golden payload; checks 1 to 4 carry
/// the answers to those probes. The report is `ok` exactly when every check passed.
pub fn run_doctor<R: DoctorRunner>(runner: &R, runtime_ok: bool) -> (report: DoctorReport)
    ensures
        report.checks@.len() == 5,
        report.checks@.map_values(|c: DoctorCheck| c.name@) == seq![
            "runtime"@,
            "tmux"@,
            "codex_cli"@,
            "writable_temp_dir"@,
            "parser_self_check"@,
        ],
        report.checks@[0].ok == runtime_ok,
        call_ensures(R::command_exists, (runner, "tmux"), report.checks@[1].ok),
        call_ensures(R::command_exists, (runner, "codex"), report.checks@[2].ok),
        call_ensures(R::writable_temp_dir, (runner,), report.checks@[3].ok),
        call_ensures(R::parser_self_check, (runner,), report.checks@[4].ok),
        report.ok == (forall|i: int| 0 <= i < report.checks@.len() ==> (#[trigger] report.checks@[i]).ok),
        exists|tmux_ok: bool, codex_ok: bool, temp_ok: bool, parser_ok: bool|
            report.checks@.map_values(|c: DoctorCheck| check_view(c)) == doctor_checks_spec(
                runtime_ok,
                tmux_ok,
                codex_ok,
                temp_ok,
                parser_ok,
            ),
{
    let tmux_ok = runner.command_exists("tmux");
    let codex_ok = runner.command_exists("codex");
    let temp_ok = runner.writable_temp_dir();
    let parser_ok = runner.parser_self_check();
    let report = doctor_report(runtime_ok, tmux_ok, codex_ok, temp_ok, parser_ok);
    proof {
        let views = report.checks@.map_values(|c: DoctorCheck| check_view(c));
        assert(views.len() == 5);
        assert forall|i: int| 0 <= i < 5 implies report.checks@[i].name@ == views[i].0
            && report.checks@[i].ok == views[i].1 by {}
        assert(report.checks@.map_values(|c: DoctorCheck| c.name@) =~= seq![
            "runtime"@,
            "tmux"@,
            "codex_cli"@,
            "writable_temp_dir"@,
            "parser_self_check"@,
        ]);
        if !report.ok {
            if !runtime_ok {
                assert(!report.checks@[0].ok);
            } else if !tmux_ok {
                assert(!report.checks@[1].ok);
            } else if !codex_ok {
                assert(!report.checks@[2].ok);
            } else if !temp_ok {
                assert(!report.checks@[3].ok);
            } else {
                assert(!report.checks@[4].ok);
            }
        }
    }
    report
}


/// `s` followed by spaces up to `width` characters, as `{:<width}` writes it.
pub open spec fn pad_right(s: Seq<char>, width: nat) -> Seq<char> {
    if s.len() >= width {
        s
    } else {
        s + Seq::new((width - s.len()) as nat, |i: int| ' ')
    }
}

fn push_padded(out: &mut String, s: &str, width: usize)
    ensures
        final(out)@ == old(out)@ + pad_right(s@, width as nat),
{
    let cs = crate::text::chars_of(s);
    push_str(out, s);
    let mut n = cs.len();
    let ghost base = out@;
    while n < width
        invariant
            cs@ == s@,
            cs@.len() <= n <= width || (n == cs@.len() && n >= width),
            out@ == base + Seq::new((n - cs@.len()) as nat, |i: int| ' '),
        decreases width - n,
    {
        out.push(' ');
        n += 1;
        assert(out@ =~= base + Seq::new((n - cs@.len()) as nat, |i: int| ' '));
    }
    assert(out@ =~= old(out)@ + pad_right(s@, width as nat));
}

/// The table line of a check: its name padded to 16, its status padded to 4, its detail.
pub open spec fn check_line(c: DoctorCheck) -> Seq<char> {
    "- "@ + pad_right(c.name@, 16) + " "@ + pad_right(if c.ok { "OK"@ } else { "FAIL"@ }, 4) + " "@
        + c.detail@ + "\n"@
}

/// The lines of the checks, in order.
pub open spec fn check_lines(checks: Seq<DoctorCheck>) -> Seq<char>
    decreases checks.len(),
{
    if checks.len() == 0 {
        seq![]
    } else {
        check_lines(checks.drop_last()) + check_line(checks.last())
    }
}

/// The human-readable report: a heading, one line per check, a blank line, and
/// whether the machine is ready.
pub open spec fn doctor_text_spec(report: DoctorReport) -> Seq<char> {
    "executainer doctor\n"@ + check_lines(report.checks@) + "\noverall: "@ + (if report.ok {
        "ready"@
    } else {
        "not ready"@
    }) + "\n"@
}

/// `s` ends with `t`.
pub open spec fn ends_with(s: Seq<char>, t: Seq<char>) -> bool {
    t.len() <= s.len() && s.skip(s.len() - t.len()) == t
}

/// The last line of the report says whether the machine is ready: it is
/// `overall: ready` exactly when the report is ok, and `overall: not ready` exactly
/// when it is not.
pub proof fn law_overall_line_follows_the_report(report: DoctorReport)
    ensures
        ends_with(doctor_text_spec(report), "\noverall: ready\n"@) <==> report.ok,
        ends_with(doctor_text_spec(report), "\noverall: not ready\n"@) <==> !report.ok,
{
    reveal_strlit("\noverall: ");
    reveal_strlit("ready");
    reveal_strlit("not ready");
    reveal_strlit("\n");
    reveal_strlit("\noverall: ready\n");
    reveal_strlit("\noverall: not ready\n");
    let head = "executainer doctor\n"@ + check_lines(report.checks@);
    let ok_tail = "\noverall: "@ + "ready"@ + "\n"@;
    let bad_tail = "\noverall: "@ + "not ready"@ + "\n"@;
    let text = doctor_text_spec(report);
    assert(ok_tail =~= "\noverall: ready\n"@);
    assert(bad_tail =~= "\noverall: not ready\n"@);
    if report.ok {
        assert(text =~= head + ok_tail);
        assert(text.skip(text.len() - ok_tail.len()) =~= ok_tail);
        if bad_tail.len() <= text.len() {
            assert(text.skip(text.len() - bad_tail.len())[4] != bad_tail[4]);
        }
    } else {
        assert(text =~= head + bad_tail);
        assert(text.skip(text.len() - bad_tail.len()) =~= bad_tail);
        assert(text.skip(text.len() - ok_tail.len())[0] != ok_tail[0]);
    }
}

/// Renders the report for a person to read.
pub fn doctor_text(report: &DoctorReport) -> (text: String)
    ensures
        text@ == doctor_text_spec(*report),
{
    let mut text = owned("executainer doctor\n");
    let ghost head = text@;
    let mut i: usize = 0;
    while i < report.checks.len()
        invariant
            i <= report.checks@.len(),
            text@ == head + check_lines(report.checks@.take(i as int)),
        decreases report.checks@.len() - i,
    {
        let c = &report.checks[i];
        let ghost before = text@;
        push_str(&mut text, "- ");
        push_padded(&mut text, c.name.as_str(), 16);
        push_str(&mut text, " ");
        push_padded(&mut text, if c.ok { "OK" } else { "FAIL" }, 4);
        push_str(&mut text, " ");
        push_str(&mut text, c.detail.as_str());
        push_str(&mut text, "\n");
        assert(report.checks@.take(i + 1).drop_last() =~= report.checks@.take(i as int));
        assert(text@ =~= before + check_line(*c));
        i += 1;
    }
    assert(report.checks@.take(i as int) =~= report.checks@);
    push_str(&mut text, "\noverall: ");
    push_str(&mut text, if report.ok { "ready" } else { "not ready" });
    push_str(&mut text, "\n");
    assert(text@ =~= doctor_text_spec(*report));
    text
}

/// How the checklist ends: success when the report is ok, otherwise exit code 1 with
/// "doctor checks failed".
pub fn doctor_outcome(report: &DoctorReport) -> (res: Result<(), AppError>)
    ensures
        res is Ok <==> report.ok,
        match res {
            Ok(()) => true,
            Err(e) => e.code() == 1 && e.text() == "doctor checks failed"@,
        },
{
    if report.ok {
        Ok(())
    } else {
        Err(AppError::new(1, owned("doctor checks failed")))
    }
}

/// The preflight of a run: it goes ahead only when the report is ok, and otherwise
/// fails with exit code 1 and "doctor preflight failed".
pub fn preflight(report: &DoctorReport) -> (res: Result<(), AppError>)
    ensures
        res is Ok <==> report.ok,
        match res {
            Ok(()) => true,
            Err(e) => e.code() == 1 && e.text() == "doctor preflight failed"@,
        },
{
    if report.ok {
        Ok(())
    } else {
        Err(AppError::new(1, owned("doctor preflight failed")))
    }
}

} // verus!
