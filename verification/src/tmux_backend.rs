//! The tmux invocations a run makes, and how their results are read.
//! Each function gives the arguments of one `tmux` invocation; the caller runs it.
use crate::review::{lemma_texts_push, texts};
use crate::text::{owned, trim, trim_str};
use vstd::prelude::*;

verus! {

#[verifier::external_type_specification]
#[verifier::external_body]
pub struct ExIoError(std::io::Error);

/// Why a tmux invocation failed.
#[derive(Debug)]
pub enum TmuxError {
    /// tmux ran and reported failure; the text is what it wrote to standard error.
    CommandFailed(String),
    /// tmux could not be run.
    Io(std::io::Error),
}

/// What a tmux invocation gives: its trimmed standard output when it succeeded,
/// otherwise `CommandFailed` with its standard error.
pub fn tmux_output(success: bool, stdout: &str, stderr: String) -> (res: Result<String, TmuxError>)
    ensures
        success ==> (res matches Ok(out) && out@ == trim(stdout@)),
        !success ==> (res matches Err(TmuxError::CommandFailed(e)) && e == stderr),
{
    if !success {
        return Err(TmuxError::CommandFailed(stderr));
    }
    Ok(trim_str(stdout))
}

/// The arguments that create a detached session in `cwd` and print its first pane.
pub open spec fn new_session_spec(session_name: Seq<char>, cwd: Seq<char>) -> Seq<Seq<char>> {
    seq![
        "new-session"@,
        "-d"@,
        "-P"@,
        "-F"@,
        "#{pane_id}"@,
        "-s"@,
        session_name,
        "-c"@,
        cwd,
    ]
}

/// The arguments that split a session's window and print the new pane.
pub open spec fn split_window_spec(session_name: Seq<char>, cwd: Seq<char>) -> Seq<Seq<char>> {
    seq!["split-window"@, "-t"@, session_name, "-P"@, "-F"@, "#{pane_id}"@, "-c"@, cwd]
}

/// The arguments that tile a session's panes.
pub open spec fn select_layout_spec(session_name: Seq<char>) -> Seq<Seq<char>> {
    seq!["select-layout"@, "-t"@, session_name, "tiled"@]
}

/// The number of panes a session is created with: at least one.
pub open spec fn pane_total(pane_count: nat) -> nat {
    if pane_count == 0 {
        1
    } else {
        pane_count
    }
}

fn args_of(items: Vec<&str>) -> (res: Vec<String>)
    ensures
        texts(res@) == items@.map_values(|s: &str| s@),
{
    let mut res: Vec<String> = Vec::new();
    let mut i: usize = 0;
    while i < items.len()
        invariant
            i <= items@.len(),
            texts(res@) == items@.take(i as int).map_values(|s: &str| s@),
        decreases items@.len() - i,
    {
        let a = owned(items[i]);
        proof {
            lemma_texts_push(res@, a);
            assert(items@.take(i + 1).map_values(|s: &str| s@) =~= items@.take(i as int).map_values(
                |s: &str| s@,
            ).push(items@[i as int]@));
        }
        res.push(a);
        assert(texts(res@) =~= items@.take(i + 1).map_values(|s: &str| s@));
        i += 1;
    }
    assert(items@.take(i as int) =~= items@);
    res
}

/// The invocations that create a detached session with its panes: a new session
/// (its first pane), one window split for each further pane, and a tiled layout.
/// Each of them but the last prints the identifier of one pane.
pub fn create_detached_session(session_name: &str, cwd: &str, pane_count: usize) -> (plan: Vec<
    Vec<String>,
>)
    ensures
        plan@.len() == pane_total(pane_count as nat) + 1,
        texts(plan@[0]@) == new_session_spec(session_name@, cwd@),
        forall|i: int|
            1 <= i < pane_total(pane_count as nat) ==> texts((#[trigger] plan@[i])@)
                == split_window_spec(session_name@, cwd@),
        texts(plan@[plan@.len() - 1]@) == select_layout_spec(session_name@),
{
    let mut plan: Vec<Vec<String>> = Vec::new();
    let first = args_of(vec!["new-session", "-d", "-P", "-F", "#{pane_id}", "-s", session_name, "-c", cwd]);
    assert(texts(first@) =~= new_session_spec(session_name@, cwd@));
    plan.push(first);
    let mut n: usize = 1;
    while n < pane_count
        invariant
            1 <= n,
            n <= pane_count || n == 1,
            plan@.len() == n,
            texts(plan@[0]@) == new_session_spec(session_name@, cwd@),
            forall|i: int|
                1 <= i < n ==> texts((#[trigger] plan@[i])@) == split_window_spec(session_name@, cwd@),
        decreases pane_count - n,
    {
        let split = args_of(vec!["split-window", "-t", session_name, "-P", "-F", "#{pane_id}", "-c", cwd]);
        assert(texts(split@) =~= split_window_spec(session_name@, cwd@));
        plan.push(split);
        n += 1;
    }
    let layout = args_of(vec!["select-layout", "-t", session_name, "tiled"]);
    assert(texts(layout@) =~= select_layout_spec(session_name@));
    plan.push(layout);
    plan
}

/// The panes of a created session: the outputs of every invocation of its plan but
/// the last, in order.
pub fn panes_from_outputs(outputs: Vec<String>) -> (panes: Vec<String>)
    ensures
        outputs@.len() > 0 ==> panes@ == outputs@.drop_last(),
        outputs@.len() == 0 ==> panes@.len() == 0,
{
    let mut panes = outputs;
    if panes.len() > 0 {
        panes.pop();
    }
    panes
}

/// The arguments that type `command` into the pane `target` and press Enter.
pub fn send_keys(target: &str, command: &str) -> (args: Vec<String>)
    ensures
        texts(args@) == seq!["send-keys"@, "-t"@, target@, command@, "C-m"@],
{
    let args = args_of(vec!["send-keys", "-t", target, command, "C-m"]);
    assert(texts(args@) =~= seq!["send-keys"@, "-t"@, target@, command@, "C-m"@]);
    args
}

/// The arguments that print the contents of the pane `target`.
pub fn capture_pane(target: &str) -> (args: Vec<String>)
    ensures
        texts(args@) == seq!["capture-pane"@, "-p"@, "-t"@, target@],
{
    let args = args_of(vec!["capture-pane", "-p", "-t", target]);
    assert(texts(args@) =~= seq!["capture-pane"@, "-p"@, "-t"@, target@]);
    args
}

/// The arguments that end the session `session_name`.
pub fn kill_session(session_name: &str) -> (args: Vec<String>)
    ensures
        texts(args@) == seq!["kill-session"@, "-t"@, session_name@],
{
    let args = args_of(vec!["kill-session", "-t", session_name]);
    assert(texts(args@) =~= seq!["kill-session"@, "-t"@, session_name@]);
    args
}

/// The arguments that ask whether the session `session_name` exists.
pub fn has_session(session_name: &str) -> (args: Vec<String>)
    ensures
        texts(args@) == seq!["has-session"@, "-t"@, session_name@],
{
    let args = args_of(vec!["has-session", "-t", session_name]);
    assert(texts(args@) =~= seq!["has-session"@, "-t"@, session_name@]);
    args
}

} // verus!
