//! Decisions of the registry pass: the entry of an App-Paths key, the
//! executable that an uninstall record resolves to, and the drive list.
use vstd::prelude::*;
use crate::catalog::{AppEntry, AppView, WalkedFile};
use crate::text::{
    chars_of, chars_eq, ends_with, ends_with_exec, lower_chars, lower_of, strip_all,
    strip_all_exec, string_from_chars,
};

verus! {

/// The entry of an App-Paths key `key_name` whose default value is `exe`:
/// none where the value is empty, else the key name without `.exe`.
pub open spec fn app_path_spec(key_name: Seq<char>, exe: Seq<char>) -> Option<AppView> {
    if exe.len() == 0 {
        None
    } else {
        Some(AppView { name: strip_all(key_name, ".exe"@), path: exe, icon: None, category: None })
    }
}

pub open spec fn entry_view(o: Option<AppEntry>) -> Option<AppView> {
    match o {
        Some(e) => Some(e@),
        None => None,
    }
}

/// The entry of one App-Paths key, from its name and its default value.
pub fn app_path_entry(key_name: &str, exe_path: &str) -> (r: Option<AppEntry>)
    ensures
        entry_view(r) == app_path_spec(key_name@, exe_path@),
{
    if exe_path.unicode_len() == 0 {
        return None;
    }
    let name = strip_all_exec(&chars_of(key_name), &chars_of(".exe"));
    Some(
        AppEntry {
            name: string_from_chars(&name),
            path: String::from_str(exe_path),
            icon: None,
            category: None,
        },
    )
}

/// The text before the first comma.
pub open spec fn first_field(s: Seq<char>) -> Seq<char>
    decreases s.len(),
{
    if s.len() == 0 || s[0] == ',' {
        Seq::empty()
    } else {
        seq![s[0]] + first_field(s.subrange(1, s.len() as int))
    }
}

pub open spec fn strip_quotes_start(s: Seq<char>) -> Seq<char>
    decreases s.len(),
{
    if s.len() > 0 && s[0] == '"' {
        strip_quotes_start(s.subrange(1, s.len() as int))
    } else {
        s
    }
}

pub open spec fn strip_quotes_end(s: Seq<char>) -> Seq<char>
    decreases s.len(),
{
    if s.len() > 0 && s[s.len() - 1] == '"' {
        strip_quotes_end(s.subrange(0, s.len() - 1))
    } else {
        s
    }
}

/// The path named by a `DisplayIcon` value: before the first comma, without
/// surrounding quotes.
pub open spec fn icon_path(icon: Seq<char>) -> Seq<char> {
    strip_quotes_end(strip_quotes_start(first_field(icon)))
}

/// The executable that a `DisplayIcon` value proposes, if any: its path where
/// the value is not empty and the path ends in `.exe` in any case.
pub open spec fn icon_candidate_spec(icon: Seq<char>) -> Option<Seq<char>> {
    if icon.len() > 0 && ends_with(lower_of(icon_path(icon)), ".exe"@) {
        Some(icon_path(icon))
    } else {
        None
    }
}

pub open spec fn string_opt(o: Option<String>) -> Option<Seq<char>> {
    match o {
        Some(s) => Some(s@),
        None => None,
    }
}

/// The executable path that a `DisplayIcon` value proposes.
pub fn icon_candidate(display_icon: &str) -> (r: Option<String>)
    ensures
        string_opt(r) == icon_candidate_spec(display_icon@),
{
    let s = chars_of(display_icon);
    if s.len() == 0 {
        return None;
    }
    let mut end: usize = 0;
    assert(s@.subrange(0, s@.len() as int) =~= s@);
    assert(s@.subrange(0, 0) + s@ =~= s@);
    while end < s.len() && s[end] != ','
        invariant
            end <= s@.len(),
            first_field(s@) == s@.subrange(0, end as int) + first_field(
                s@.subrange(end as int, s@.len() as int),
            ),
        decreases s@.len() - end,
    {
        proof {
            let t = s@.subrange(end as int, s@.len() as int);
            assert(t.subrange(1, t.len() as int) =~= s@.subrange(end + 1, s@.len() as int));
            assert(s@.subrange(0, end + 1) =~= s@.subrange(0, end as int) + seq![s@[end as int]]);
        }
        end = end + 1;
    }
    proof {
        assert(first_field(s@.subrange(end as int, s@.len() as int)) =~= Seq::<char>::empty());
        assert(s@.subrange(0, end as int) + Seq::<char>::empty() =~= s@.subrange(0, end as int));
    }
    let mut lo: usize = 0;
    assert(s@.subrange(0, end as int).subrange(0, end as int) =~= s@.subrange(0, end as int));
    while lo < end && s[lo] == '"'
        invariant
            lo <= end <= s@.len(),
            strip_quotes_start(s@.subrange(0, end as int)) == strip_quotes_start(
                s@.subrange(lo as int, end as int),
            ),
        decreases end - lo,
    {
        proof {
            let t = s@.subrange(lo as int, end as int);
            assert(t.subrange(1, t.len() as int) =~= s@.subrange(lo + 1, end as int));
        }
        lo = lo + 1;
    }
    let mut hi: usize = end;
    while hi > lo && s[hi - 1] == '"'
        invariant
            lo <= hi <= end <= s@.len(),
            icon_path(s@) == strip_quotes_end(s@.subrange(lo as int, hi as int)),
        decreases hi - lo,
    {
        proof {
            let t = s@.subrange(lo as int, hi as int);
            assert(t.subrange(0, t.len() - 1) =~= s@.subrange(lo as int, hi - 1));
        }
        hi = hi - 1;
    }
    let mut out: Vec<char> = Vec::new();
    let mut k: usize = lo;
    while k < hi
        invariant
            lo <= k <= hi <= s@.len(),
            out@ == s@.subrange(lo as int, k as int),
        decreases hi - k,
    {
        out.push(s[k]);
        k = k + 1;
        assert(out@ =~= s@.subrange(lo as int, k as int));
    }
    let path = string_from_chars(&out);
    let lower = lower_chars(path.as_str());
    if ends_with_exec(&lower, &chars_of(".exe")) {
        Some(path)
    } else {
        None
    }
}

/// What the file system showed about the places an uninstall record names.
#[derive(Clone, Debug)]
pub struct UninstallProbe {
    /// The `DisplayIcon` candidate exists.
    pub icon_exists: bool,
    /// `InstallLocation` is a directory.
    pub location_is_dir: bool,
    /// `<InstallLocation>/<DisplayName>.exe`, where that file exists.
    pub named_exe: Option<String>,
    /// The files directly inside `InstallLocation`, in enumeration order.
    pub dir_files: Vec<WalkedFile>,
}

/// The path of the first file with extension `exe`.
pub open spec fn first_exe(files: Seq<WalkedFile>) -> Option<Seq<char>>
    decreases files.len(),
{
    if files.len() == 0 {
        None
    } else if files[0].ext@ == "exe"@ {
        Some(files[0].path@)
    } else {
        first_exe(files.subrange(1, files.len() as int))
    }
}

/// The executable that an uninstall record resolves to: its `DisplayIcon`
/// candidate where that exists; else, for an install directory, the
/// executable named after the application or the first executable inside;
/// else the install location itself where it ends in `.exe`.
pub open spec fn uninstall_path_spec(
    location: Seq<char>,
    icon: Seq<char>,
    probe: UninstallProbe,
) -> Option<Seq<char>> {
    if icon_candidate_spec(icon) is Some && probe.icon_exists {
        icon_candidate_spec(icon)
    } else if location.len() == 0 {
        None
    } else if probe.location_is_dir {
        match probe.named_exe {
            Some(p) => Some(p@),
            None => first_exe(probe.dir_files@),
        }
    } else if ends_with(location, ".exe"@) {
        Some(location)
    } else {
        None
    }
}

/// The entry of an uninstall record: none without a display name or without
/// a non-empty resolved path.
pub open spec fn uninstall_entry_spec(
    name: Seq<char>,
    location: Seq<char>,
    icon: Seq<char>,
    probe: UninstallProbe,
) -> Option<AppView> {
    match uninstall_path_spec(location, icon, probe) {
        Some(p) => if name.len() > 0 && p.len() > 0 {
            Some(AppView { name: name, path: p, icon: None, category: None })
        } else {
            None
        },
        None => None,
    }
}

/// The file name looked for inside an install directory.
pub fn named_exe_file(display_name: &str) -> (r: String)
    ensures
        r@ == display_name@ + ".exe"@,
{
    let mut s = String::from_str(display_name);
    s.append(".exe");
    s
}

fn find_first_exe(files: &Vec<WalkedFile>) -> (r: Option<String>)
    ensures
        string_opt(r) == first_exe(files@),
{
    let exe = chars_of("exe");
    let mut i: usize = 0;
    assert(files@.subrange(0, files@.len() as int) =~= files@);
    while i < files.len()
        invariant
            i <= files@.len(),
            exe@ == "exe"@,
            first_exe(files@) == first_exe(files@.subrange(i as int, files@.len() as int)),
        decreases files@.len() - i,
    {
        proof {
            let t = files@.subrange(i as int, files@.len() as int);
            assert(t.subrange(1, t.len() as int) =~= files@.subrange(i + 1, files@.len() as int));
        }
        if chars_eq(&chars_of(files[i].ext.as_str()), &exe) {
            return Some(String::from_str(files[i].path.as_str()));
        }
        i = i + 1;
    }
    None
}

/// Resolves one uninstall record from its `DisplayName`, `InstallLocation`
/// and `DisplayIcon` values and what the file system showed about them.
pub fn uninstall_entry(
    display_name: &str,
    install_location: &str,
    display_icon: &str,
    probe: &UninstallProbe,
) -> (r: Option<AppEntry>)
    ensures
        entry_view(r) == uninstall_entry_spec(
            display_name@,
            install_location@,
            display_icon@,
            *probe,
        ),
{
    if display_name.unicode_len() == 0 {
        return None;
    }
    let cand = icon_candidate(display_icon);
    let path: Option<String> = match cand {
        Some(c) if probe.icon_exists => Some(c),
        _ => {
            if install_location.unicode_len() == 0 {
                None
            } else if probe.location_is_dir {
                match &probe.named_exe {
                    Some(p) => Some(String::from_str(p.as_str())),
                    None => find_first_exe(&probe.dir_files),
                }
            } else if ends_with_exec(&chars_of(install_location), &chars_of(".exe")) {
                Some(String::from_str(install_location))
            } else {
                None
            }
        },
    };
    match path {
        Some(p) => {
            if p.as_str().unicode_len() == 0 {
                None
            } else {
                Some(
                    AppEntry {
                        name: String::from_str(display_name),
                        path: p,
                        icon: None,
                        category: None,
                    },
                )
            }
        },
        None => None,
    }
}

} // verus!
