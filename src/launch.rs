//! Launch planning: the ordered fallback strategies for a target, the shell
//! command line of each, and the step that decides what follows an attempt.
use vstd::prelude::*;
use crate::catalog::AppEntry;
use crate::text::{
    chars_of, contains, contains_exec, ends_with, ends_with_exec, string_from_chars, string_views,
};

verus! {

/// One way of starting a launch target.
#[derive(PartialEq, Eq, Structural, Clone, Copy, Debug)]
pub enum Strategy {
    /// `cmd /C start` on the resolved protocol or app-package identifier.
    Protocol,
    /// The operating system's default handler for the target.
    OpenDefault,
    /// A hidden `cmd /C start "" <target>`.
    StartVerb,
}

/// What the caller does after an attempt.
#[derive(Debug)]
pub enum LaunchNext {
    /// Attempt the strategy at this index of the plan.
    Attempt(usize),
    /// Stop with this result.
    Finished(Result<(), String>),
}

/// A target that may be a protocol or app-package identifier rather than a
/// file path: it holds a colon, or no backslash.
pub open spec fn identifier_like(t: Seq<char>) -> bool {
    contains(t, ":"@) || !contains(t, "\\"@)
}

/// The strategies for a target, in the order they are tried.
pub open spec fn plan_spec(t: Seq<char>) -> Seq<Strategy> {
    if identifier_like(t) {
        seq![Strategy::Protocol, Strategy::OpenDefault, Strategy::StartVerb]
    } else {
        seq![Strategy::OpenDefault, Strategy::StartVerb]
    }
}

/// An identifier handed to `start` as it is: a protocol, a command with
/// arguments, or a system file.
pub open spec fn passes_through(id: Seq<char>) -> bool {
    contains(id, ":"@) || contains(id, " "@) || ends_with(id, ".msc"@) || ends_with(id, ".exe"@)
}

/// The prefix that opens an app-package identifier from the virtual
/// applications folder.
pub open spec fn apps_folder_prefix() -> Seq<char> {
    "shell:appsFolder\\"@
}

/// The string that the protocol strategy starts.
pub open spec fn shell_target(id: Seq<char>) -> Seq<char> {
    if passes_through(id) {
        id
    } else {
        apps_folder_prefix() + id
    }
}

/// The arguments of `cmd` for the protocol strategy: `start` on the resolved
/// identifier, with an empty window title.
pub open spec fn protocol_args_spec(id: Seq<char>) -> Seq<Seq<char>> {
    seq!["/C"@, "start"@, Seq::<char>::empty(), shell_target(id)]
}

/// The strategies to try for `target`, in order: the protocol launch first
/// where the target looks like an identifier, then the default handler, then
/// the hidden `start` command.
pub fn launch_plan(target: &str) -> (r: Vec<Strategy>)
    ensures
        r@ == plan_spec(target@),
{
    let t = chars_of(target);
    let colon = contains_exec(&t, &chars_of(":"));
    let backslash = contains_exec(&t, &chars_of("\\"));
    let mut r: Vec<Strategy> = Vec::new();
    if colon || !backslash {
        r.push(Strategy::Protocol);
    }
    r.push(Strategy::OpenDefault);
    r.push(Strategy::StartVerb);
    assert(r@ =~= plan_spec(target@));
    r
}

/// The string that the protocol strategy starts for `app_id`: the
/// identifier itself where it holds a colon or a space or ends in `.msc` or
/// `.exe`, else the identifier under the virtual applications folder.
pub fn shell_target_of(app_id: &str) -> (r: String)
    ensures
        r@ == shell_target(app_id@),
{
    let id = chars_of(app_id);
    let through = contains_exec(&id, &chars_of(":")) || contains_exec(&id, &chars_of(" "))
        || ends_with_exec(&id, &chars_of(".msc")) || ends_with_exec(&id, &chars_of(".exe"));
    if through {
        string_from_chars(&id)
    } else {
        let mut s = String::from_str("shell:appsFolder\\");
        s.append(app_id);
        s
    }
}

/// The arguments of `cmd` for the protocol strategy on `app_id`.
pub fn protocol_command_args(app_id: &str) -> (r: Vec<String>)
    ensures
        string_views(r@) == protocol_args_spec(app_id@),
{
    let target = shell_target_of(app_id);
    let mut r: Vec<String> = Vec::new();
    r.push(String::from_str("/C"));
    r.push(String::from_str("start"));
    r.push(String::new());
    r.push(target);
    assert(string_views(r@) =~= protocol_args_spec(app_id@));
    r
}

/// The arguments of `cmd` for the last-resort strategy: `start` on the raw
/// target with an empty window title.
pub fn start_verb_args(target: &str) -> (r: Vec<String>)
    ensures
        string_views(r@) == seq!["/C"@, "start"@, Seq::<char>::empty(), target@],
{
    let mut r: Vec<String> = Vec::new();
    r.push(String::from_str("/C"));
    r.push(String::from_str("start"));
    r.push(String::new());
    r.push(String::from_str(target));
    assert(string_views(r@) =~= seq!["/C"@, "start"@, Seq::<char>::empty(), target@]);
    r
}

/// The message of a launch whose every strategy failed, the last with `e`.
pub open spec fn exhausted_message(e: Seq<char>) -> Seq<char> {
    "All launch methods failed: "@ + e
}

/// The index attempted after attempt `i` of `n`, if any: none after a
/// success or after the last strategy.
pub open spec fn next_index(n: nat, i: nat, ok: bool) -> Option<nat> {
    if ok || i + 1 >= n {
        None
    } else {
        Some(i + 1)
    }
}

/// Decides what follows attempt `index` of a plan of `plan_len` strategies:
/// a success ends the launch; a failure moves to the next strategy, and the
/// failure of the last one ends it with that failure's message.
pub fn launch_step(plan_len: usize, index: usize, outcome: Result<(), String>) -> (r: LaunchNext)
    requires
        index < plan_len,
    ensures
        match next_index(plan_len as nat, index as nat, outcome is Ok) {
            Some(j) => r == LaunchNext::Attempt(j as usize),
            None => match outcome {
                Ok(_) => r is Finished && r->Finished_0 is Ok,
                Err(e) => r is Finished && r->Finished_0 is Err && (r->Finished_0)->Err_0@
                    == exhausted_message(e@),
            },
        },
{
    match outcome {
        Ok(()) => LaunchNext::Finished(Ok(())),
        Err(e) => {
            if index + 1 < plan_len {
                LaunchNext::Attempt(index + 1)
            } else {
                let mut m = String::from_str("All launch methods failed: ");
                m.append(e.as_str());
                LaunchNext::Finished(Err(m))
            }
        },
    }
}

/// The indices attempted from `i` on, when attempt `k` succeeds exactly
/// when `ok[k]`.
pub open spec fn attempts_from(n: nat, ok: Seq<bool>, i: nat) -> Seq<nat>
    decreases n - i,
{
    if i >= n || i >= ok.len() {
        seq![]
    } else {
        match next_index(n, i, ok[i as int]) {
            Some(j) => if j > i {
                seq![i] + attempts_from(n, ok, j)
            } else {
                seq![i]
            },
            None => seq![i],
        }
    }
}

/// Whether the launch driven from `i` on ends in success.
pub open spec fn succeeds_from(n: nat, ok: Seq<bool>, i: nat) -> bool
    decreases n - i,
{
    if i >= n || i >= ok.len() {
        false
    } else {
        match next_index(n, i, ok[i as int]) {
            Some(j) => if j > i {
                succeeds_from(n, ok, j)
            } else {
                false
            },
            None => ok[i as int],
        }
    }
}

proof fn lemma_attempts_from(n: nat, ok: Seq<bool>, k: nat, i: nat)
    requires
        i <= k < n <= ok.len(),
        ok[k as int],
        forall|j: int| i <= j < k ==> !ok[j],
    ensures
        attempts_from(n, ok, i) == Seq::new((k + 1 - i) as nat, |j: int| (i + j) as nat),
        succeeds_from(n, ok, i),
    decreases k - i,
{
    if i < k {
        lemma_attempts_from(n, ok, k, i + 1);
        assert(attempts_from(n, ok, i) =~= Seq::new((k + 1 - i) as nat, |j: int| (i + j) as nat));
    } else {
        assert(attempts_from(n, ok, i) =~= Seq::new(1, |j: int| (i + j) as nat));
    }
}

/// Strategies are attempted in plan order, each at most once: when the
/// first success is the strategy at index `k`, exactly the strategies
/// `0..=k` are attempted, in that order, and the launch succeeds.
pub proof fn lemma_fallback_order(n: nat, ok: Seq<bool>, k: nat)
    requires
        k < n <= ok.len(),
        ok[k as int],
        forall|j: int| 0 <= j < k ==> !ok[j],
    ensures
        attempts_from(n, ok, 0) == Seq::new(k + 1, |j: int| j as nat),
        succeeds_from(n, ok, 0),
{
    lemma_attempts_from(n, ok, k, 0);
    assert(Seq::new((k + 1 - 0) as nat, |j: int| (0 + j) as nat) =~= Seq::new(k + 1, |j: int| j as nat));
}

/// The entries of the virtual applications folder. That folder is not
/// enumerated, so there are none.
pub fn _get_start_apps() -> (r: Vec<AppEntry>)
    ensures
        r@.len() == 0,
{
    Vec::new()
}

} // verus!
