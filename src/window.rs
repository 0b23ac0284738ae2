//! How a secondary window is set up: the settings window is decorated and
//! opaque, every other window is frameless and transparent.
use vstd::prelude::*;
use crate::text::{chars_eq, chars_of, string_from_chars};

verus! {

/// The options of a window to create.
#[derive(Clone, Debug)]
pub struct WindowPlan {
    /// The application URL without leading slashes.
    pub url_path: String,
    pub decorations: bool,
    pub transparent: bool,
}

pub open spec fn strip_leading_slashes(s: Seq<char>) -> Seq<char>
    decreases s.len(),
{
    if s.len() > 0 && s[0] == '/' {
        strip_leading_slashes(s.subrange(1, s.len() as int))
    } else {
        s
    }
}

/// The options for window `label` showing `url`.
pub fn window_plan(label: &str, url: &str) -> (r: WindowPlan)
    ensures
        r.url_path@ == strip_leading_slashes(url@),
        r.decorations == (label@ == "settings"@),
        r.transparent == (label@ != "settings"@),
{
    let u = chars_of(url);
    let mut lo: usize = 0;
    assert(u@.subrange(0, u@.len() as int) =~= u@);
    while lo < u.len() && u[lo] == '/'
        invariant
            lo <= u@.len(),
            strip_leading_slashes(url@) == strip_leading_slashes(
                u@.subrange(lo as int, u@.len() as int),
            ),
            u@ == url@,
        decreases u@.len() - lo,
    {
        proof {
            let t = u@.subrange(lo as int, u@.len() as int);
            assert(t.subrange(1, t.len() as int) =~= u@.subrange(lo + 1, u@.len() as int));
        }
        lo = lo + 1;
    }
    let mut out: Vec<char> = Vec::new();
    let mut k: usize = lo;
    while k < u.len()
        invariant
            lo <= k <= u@.len(),
            out@ == u@.subrange(lo as int, k as int),
        decreases u@.len() - k,
    {
        out.push(u[k]);
        k = k + 1;
        assert(out@ =~= u@.subrange(lo as int, k as int));
    }
    let settings = chars_eq(&chars_of(label), &chars_of("settings"));
    WindowPlan { url_path: string_from_chars(&out), decorations: settings, transparent: !settings }
}

} // verus!
