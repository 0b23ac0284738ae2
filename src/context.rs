//! The user's working context: the active window, meeting presence and
//! recently used files, derived from snapshots that the host collects.
use vstd::prelude::*;
use crate::names::contains_any;
use crate::text::{
    chars_of, contains, contains_exec, ends_with, ends_with_exec, lower_chars, lower_of, strip_all,
    strip_all_exec, string_from_chars, string_views,
};

verus! {

/// The application in the foreground.
#[derive(Clone, Debug)]
pub struct ActiveApp {
    pub name: String,
    pub title: String,
    pub exe_path: String,
}

/// Everything known about the user's context at one moment.
#[derive(Clone, Debug)]
pub struct ContextSnapshot {
    pub active_app: Option<ActiveApp>,
    pub clipboard: Option<String>,
    pub recent_files: Vec<String>,
    pub meeting_status: String,
    pub time: String,
}

/// The clipboard text: no clipboard reader is wired in, so there is none.
pub fn get_clipboard_text() -> (r: Option<String>)
    ensures
        r is None,
{
    None
}

/// Names of conferencing applications.
pub open spec fn meeting_apps() -> Seq<Seq<char>> {
    seq!["zoom"@, "teams"@, "webex"@, "discord"@, "slack"@, "meet"@]
}

/// The lower-cased name of the first process that is a conferencing
/// application.
pub open spec fn first_meeting(names: Seq<String>) -> Option<Seq<char>>
    decreases names.len(),
{
    if names.len() == 0 {
        None
    } else if contains_any(lower_of(names[0]@), meeting_apps()) {
        Some(lower_of(names[0]@))
    } else {
        first_meeting(names.subrange(1, names.len() as int))
    }
}

pub open spec fn meeting_status_spec(names: Seq<String>) -> Seq<char> {
    match first_meeting(names) {
        Some(n) => "Active ("@ + n + ")"@,
        None => "Idle"@,
    }
}

/// `Active (<name>)` for the first process, in the order given, whose
/// lower-cased name holds the name of a conferencing application; else
/// `Idle`.
pub fn meeting_status(process_names: &Vec<String>) -> (r: String)
    ensures
        r@ == meeting_status_spec(process_names@),
{
    let apps: Vec<&str> = vec!["zoom", "teams", "webex", "discord", "slack", "meet"];
    let mut i: usize = 0;
    assert(process_names@.subrange(0, process_names@.len() as int) =~= process_names@);
    while i < process_names.len()
        invariant
            i <= process_names@.len(),
            apps@.len() == 6,
            forall|k: int| 0 <= k < 6 ==> apps@[k]@ == #[trigger] meeting_apps()[k],
            first_meeting(process_names@) == first_meeting(
                process_names@.subrange(i as int, process_names@.len() as int),
            ),
        decreases process_names@.len() - i,
    {
        let l = lower_chars(process_names[i].as_str());
        let mut k: usize = 0;
        let mut hit = false;
        while k < apps.len()
            invariant
                k <= apps@.len(),
                apps@.len() == 6,
                forall|m: int| 0 <= m < 6 ==> apps@[m]@ == #[trigger] meeting_apps()[m],
                hit == exists|m: int| 0 <= m < k && #[trigger] contains(l@, meeting_apps()[m]),
            decreases apps@.len() - k,
        {
            let c = contains_exec(&l, &chars_of(apps[k]));
            proof {
                assert(apps@[k as int]@ == meeting_apps()[k as int]);
                if !c && !hit {
                    assert forall|m: int| 0 <= m < k + 1 implies !#[trigger] contains(
                        l@,
                        meeting_apps()[m],
                    ) by {
                        if m < k {
                        }
                    }
                }
            }
            hit = hit || c;
            k = k + 1;
        }
        if hit {
            let mut s = String::from_str("Active (");
            let name = string_from_chars(&l);
            s.append(name.as_str());
            s.append(")");
            return s;
        }
        proof {
            let t = process_names@.subrange(i as int, process_names@.len() as int);
            assert(t.subrange(1, t.len() as int) =~= process_names@.subrange(
                i + 1,
                process_names@.len() as int,
            ));
        }
        i = i + 1;
    }
    String::from_str("Idle")
}

/// How many directory entries the recent-files list looks at.
pub const RECENT_SCAN_LIMIT: usize = 10;

pub open spec fn recent_spec(names: Seq<Option<String>>) -> Seq<Seq<char>>
    decreases names.len(),
{
    if names.len() == 0 {
        Seq::empty()
    } else {
        let prev = recent_spec(names.drop_last());
        match names.last() {
            Some(n) => if ends_with(n@, ".lnk"@) {
                prev.push(strip_all(n@, ".lnk"@))
            } else {
                prev
            },
            None => prev,
        }
    }
}

/// The recently used documents: among the first entries of the recent-items
/// folder (`None` for a name that is not valid text), the shortcut names with
/// `.lnk` removed.
pub fn recent_files(entry_names: &Vec<Option<String>>) -> (r: Vec<String>)
    ensures
        string_views(r@) == recent_spec(
            entry_names@.subrange(
                0,
                if entry_names@.len() < RECENT_SCAN_LIMIT {
                    entry_names@.len() as int
                } else {
                    RECENT_SCAN_LIMIT as int
                },
            ),
        ),
{
    let n = if entry_names.len() < RECENT_SCAN_LIMIT {
        entry_names.len()
    } else {
        RECENT_SCAN_LIMIT
    };
    let lnk = chars_of(".lnk");
    let mut out: Vec<String> = Vec::new();
    let mut i: usize = 0;
    while i < n
        invariant
            i <= n <= entry_names@.len(),
            lnk@ == ".lnk"@,
            string_views(out@) == recent_spec(entry_names@.subrange(0, i as int)),
        decreases n - i,
    {
        proof {
            assert(entry_names@.subrange(0, i + 1).drop_last() =~= entry_names@.subrange(0, i as int));
        }
        match &entry_names[i] {
            Some(name) => {
                let c = chars_of(name.as_str());
                if ends_with_exec(&c, &lnk) {
                    let stripped = strip_all_exec(&c, &lnk);
                    let ghost before = out@;
                    out.push(string_from_chars(&stripped));
                    assert(string_views(out@) =~= string_views(before).push(stripped@));
                }
            },
            None => {},
        }
        i = i + 1;
    }
    out
}

} // verus!
