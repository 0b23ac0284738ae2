//! Display-name normalisation and the noise filter.
use vstd::prelude::*;
use crate::text::{
    lemma_contains_part, lemma_strip_absent, lemma_strip_len, lemma_trim, lemma_trim_fixed,
    chars_of, contains, contains_exec, lower_of, lowercase, strip_all, strip_all_exec, string_from_chars,
    trim, trim_exec,
};

verus! {

/// Strings removed from a raw display name, in this order.
pub open spec fn clean_patterns() -> Seq<Seq<char>> {
    seq![".exe"@, "_x64"@, "_x86"@, "-x64"@, " (x64)"@, " (x86)"@]
}

/// The name before trimming: every pattern of `clean_patterns` removed in turn.
pub open spec fn strip_patterns(s: Seq<char>, k: nat) -> Seq<char>
    decreases k,
{
    if k == 0 {
        s
    } else {
        strip_all(strip_patterns(s, (k - 1) as nat), clean_patterns()[k - 1])
    }
}

/// One pass: every pattern of `clean_patterns` removed in turn.
pub open spec fn strip_pass(s: Seq<char>) -> Seq<char> {
    strip_patterns(s, 6)
}

/// `k` passes in a row.
pub open spec fn strip_rounds(s: Seq<char>, k: nat) -> Seq<char>
    decreases k,
{
    if k == 0 {
        s
    } else {
        strip_rounds(strip_pass(s), (k - 1) as nat)
    }
}

/// The normalised form of a raw display name: passes repeated until none
/// changes the name (at most one pass per character), then trimmed.
pub open spec fn clean_name(s: Seq<char>) -> Seq<char> {
    trim(strip_rounds(s, s.len()))
}

/// None of the removed patterns occurs in `s`.
pub open spec fn marker_free(s: Seq<char>) -> bool {
    forall|k: int| 0 <= k < 6 ==> !contains(s, #[trigger] clean_patterns()[k])
}

/// Whether some element of `ps` occurs in `s`.
pub open spec fn contains_any(s: Seq<char>, ps: Seq<Seq<char>>) -> bool {
    exists|i: int| 0 <= i < ps.len() && #[trigger] contains(s, ps[i])
}

/// Terms of installers, updaters, crash reporters and other support tools.
pub open spec fn noise_keywords() -> Seq<Seq<char>> {
    seq![
        "uninstall"@, "redist"@, "setup"@, "vcredist"@, "dxsetup"@, "touchup"@,
        "crashhandler"@, "unins000"@, "unitycrashhandler"@, "report"@, "crashpad"@,
        "util"@, "handler"@, "helper"@, "worker"@, "overlay"@, "browser"@,
        "telemetry"@, "proxy"@, "debug"@, "sdk"@, "tools"@, "manager"@, "service"@,
        "identity"@,
    ]
}

/// Phrases of known applications whose names hold a noise keyword.
pub open spec fn noise_whitelist() -> Seq<Seq<char>> {
    seq!["football manager"@, "manager of"@, "sdk game"@, "midnightpad"@]
}

/// The noise rule on an already lower-cased name: some keyword occurs and no
/// whitelist phrase does.
pub open spec fn noise_rule(lower: Seq<char>) -> bool {
    contains_any(lower, noise_keywords()) && !contains_any(lower, noise_whitelist())
}

fn pattern_chars(k: usize) -> (r: Vec<char>)
    requires
        k < 6,
    ensures
        r@ == clean_patterns()[k as int],
{
    if k == 0 {
        chars_of(".exe")
    } else if k == 1 {
        chars_of("_x64")
    } else if k == 2 {
        chars_of("_x86")
    } else if k == 3 {
        chars_of("-x64")
    } else if k == 4 {
        chars_of(" (x64)")
    } else {
        chars_of(" (x86)")
    }
}

/// Normalises a raw display name: removes the `.exe` extension and the
/// architecture markers `_x64`, `_x86`, `-x64`, ` (x64)` and ` (x86)` (each in
/// turn, every occurrence), repeating until no marker is left, not even one
/// that a removal joined together; then trims surrounding whitespace.
pub fn clean_app_name(name: &str) -> (r: String)
    ensures
        r@ == clean_name(name@),
        marker_free(r@),
        trim(r@) == r@,
{
    let mut cur = chars_of(name);
    let ghost n = name@.len();
    let mut budget: usize = cur.len();
    let mut done = false;
    while !done
        invariant
            n == name@.len(),
            cur@.len() <= budget,
            strip_rounds(name@, n) == if done {
                cur@
            } else {
                strip_rounds(cur@, budget as nat)
            },
        decreases budget + if done {
            0int
        } else {
            1int
        },
    {
        let next = strip_pass_exec(&cur);
        proof {
            lemma_strip_patterns_shrink(cur@, 6);
        }
        if next.len() == cur.len() {
            proof {
                lemma_pass_fixed_rounds(cur@, budget as nat);
            }
            done = true;
        } else {
            cur = next;
            budget = budget - 1;
        }
    }
    let t = trim_exec(&cur);
    proof {
        lemma_clean_idempotent(name@);
    }
    string_from_chars(&t)
}

/// One pass over `cur`.
fn strip_pass_exec(cur: &Vec<char>) -> (r: Vec<char>)
    ensures
        r@ == strip_pass(cur@),
{
    let mut out = strip_all_exec(cur, &pattern_chars(0));
    assert(strip_patterns(cur@, 1) == strip_all(strip_patterns(cur@, 0), clean_patterns()[0]));
    let mut k: usize = 1;
    while k < 6
        invariant
            1 <= k <= 6,
            out@ == strip_patterns(cur@, k as nat),
        decreases 6 - k,
    {
        let p = pattern_chars(k);
        out = strip_all_exec(&out, &p);
        k = k + 1;
    }
    out
}

/// Whether one of `ps` occurs in `s`.
fn contains_any_exec(s: &Vec<char>, ps: &Vec<&str>, Ghost(spec_ps): Ghost<Seq<Seq<char>>>) -> (r: bool)
    requires
        ps@.len() == spec_ps.len(),
        forall|i: int| 0 <= i < ps@.len() ==> ps@[i]@ == spec_ps[i],
    ensures
        r == contains_any(s@, spec_ps),
{
    let mut i: usize = 0;
    while i < ps.len()
        invariant
            i <= ps@.len(),
            ps@.len() == spec_ps.len(),
            forall|j: int| 0 <= j < ps@.len() ==> ps@[j]@ == spec_ps[j],
            forall|j: int| 0 <= j < i ==> !contains(s@, #[trigger] spec_ps[j]),
        decreases ps@.len() - i,
    {
        let p = chars_of(ps[i]);
        if contains_exec(s, &p) {
            assert(contains(s@, spec_ps[i as int]));
            return true;
        }
        i = i + 1;
    }
    false
}

/// The noise rule on a name that is already lower-cased.
pub fn is_noise_lower(lower: &str) -> (r: bool)
    ensures
        r == noise_rule(lower@),
{
    let s = chars_of(lower);
    let keywords: Vec<&str> = vec![
        "uninstall", "redist", "setup", "vcredist", "dxsetup", "touchup",
        "crashhandler", "unins000", "unitycrashhandler", "report", "crashpad",
        "util", "handler", "helper", "worker", "overlay", "browser",
        "telemetry", "proxy", "debug", "sdk", "tools", "manager", "service",
        "identity",
    ];
    let whitelist: Vec<&str> = vec!["football manager", "manager of", "sdk game", "midnightpad"];
    let noisy = contains_any_exec(&s, &keywords, Ghost(noise_keywords()));
    let listed = contains_any_exec(&s, &whitelist, Ghost(noise_whitelist()));
    noisy && !listed
}

/// Whether a (normalised) display name belongs to a support tool rather than
/// an application: its lower-cased form holds a noise keyword and no
/// whitelist phrase. The path is not consulted.
pub fn is_noise(name: &str, _path: &str) -> (r: bool)
    ensures
        r == noise_rule(lower_of(name@)),
{
    let lower = lowercase(name);
    is_noise_lower(lower.as_str())
}

proof fn lemma_patterns_nonempty()
    ensures
        forall|k: int| 0 <= k < 6 ==> #[trigger] clean_patterns()[k].len() > 0,
{
    reveal_strlit(".exe");
    reveal_strlit("_x64");
    reveal_strlit("_x86");
    reveal_strlit("-x64");
    reveal_strlit(" (x64)");
    reveal_strlit(" (x86)");
}

proof fn lemma_strip_patterns_absent(y: Seq<char>, k: nat)
    requires
        k <= 6,
        forall|j: int| 0 <= j < 6 ==> !contains(y, #[trigger] clean_patterns()[j]),
    ensures
        strip_patterns(y, k) == y,
    decreases k,
{
    if k > 0 {
        lemma_strip_patterns_absent(y, (k - 1) as nat);
        lemma_strip_absent(y, clean_patterns()[k - 1]);
    }
}

proof fn lemma_strip_patterns_shrink(y: Seq<char>, k: nat)
    requires
        k <= 6,
    ensures
        strip_patterns(y, k).len() <= y.len(),
        strip_patterns(y, k).len() == y.len() ==> strip_patterns(y, k) == y,
        (exists|j: int| 0 <= j < k && contains(y, #[trigger] clean_patterns()[j]))
            ==> strip_patterns(y, k).len() < y.len(),
    decreases k,
{
    if k > 0 {
        lemma_patterns_nonempty();
        let a = strip_patterns(y, (k - 1) as nat);
        let p = clean_patterns()[k - 1];
        lemma_strip_patterns_shrink(y, (k - 1) as nat);
        lemma_strip_len(a, p);
        if strip_all(a, p).len() == a.len() {
            assert(!contains(a, p));
            lemma_strip_absent(a, p);
        }
    }
}

proof fn lemma_pass_fixed_rounds(t: Seq<char>, k: nat)
    requires
        strip_pass(t) == t,
    ensures
        strip_rounds(t, k) == t,
    decreases k,
{
    if k > 0 {
        lemma_pass_fixed_rounds(t, (k - 1) as nat);
    }
}

/// After at least as many passes as characters, a further pass changes
/// nothing.
proof fn lemma_rounds_fixed(s: Seq<char>, k: nat)
    requires
        k >= s.len(),
    ensures
        strip_pass(strip_rounds(s, k)) == strip_rounds(s, k),
    decreases k,
{
    lemma_strip_patterns_shrink(s, 6);
    if strip_pass(s).len() == s.len() {
        lemma_pass_fixed_rounds(s, k);
    } else {
        lemma_rounds_fixed(strip_pass(s), (k - 1) as nat);
    }
}

/// A name that a pass leaves unchanged holds none of the patterns.
proof fn lemma_fixed_marker_free(z: Seq<char>)
    requires
        strip_pass(z) == z,
    ensures
        marker_free(z),
{
    lemma_strip_patterns_shrink(z, 6);
}

/// A normalised name holds none of the removed patterns, not even one that
/// an earlier removal formed, and has no surrounding whitespace.
pub proof fn lemma_clean_marker_free(s: Seq<char>)
    ensures
        marker_free(clean_name(s)),
        trim(clean_name(s)) == clean_name(s),
{
    let z = strip_rounds(s, s.len());
    let y = clean_name(s);
    lemma_rounds_fixed(s, s.len());
    lemma_fixed_marker_free(z);
    lemma_trim(z);
    let a = choose|a: int| 0 <= a && a + y.len() <= z.len() && y == #[trigger] z.subrange(a, a + y.len());
    assert forall|k: int| 0 <= k < 6 implies !contains(y, #[trigger] clean_patterns()[k]) by {
        if contains(y, clean_patterns()[k]) {
            lemma_contains_part(z, a, a + y.len(), clean_patterns()[k]);
        }
    }
    lemma_trim_fixed(y);
}

/// Normalisation is idempotent: normalising a normalised name changes
/// nothing.
pub proof fn lemma_clean_idempotent(s: Seq<char>)
    ensures
        clean_name(clean_name(s)) == clean_name(s),
        marker_free(clean_name(s)),
        trim(clean_name(s)) == clean_name(s),
{
    let y = clean_name(s);
    lemma_clean_marker_free(s);
    lemma_strip_patterns_absent(y, 6);
    lemma_pass_fixed_rounds(y, y.len());
}

/// A name whose lower-cased form holds a whitelist phrase is never noise,
/// whatever keyword it also holds.
pub proof fn lemma_whitelist_overrides(name: Seq<char>)
    requires
        contains_any(lower_of(name), noise_keywords()),
        contains_any(lower_of(name), noise_whitelist()),
    ensures
        !noise_rule(lower_of(name)),
{
}

} // verus!
