//! Process-table logic: the descendants of a process in the order in which
//! they are terminated, and selection of processes by pid or by name.
use vstd::prelude::*;
use crate::text::{chars_of, contains, contains_exec, lower_chars, lower_of, string_from_chars};

verus! {

/// One row of a process-table snapshot.
#[derive(Clone, Debug)]
pub struct ProcNode {
    pub pid: u32,
    pub parent: Option<u32>,
    pub name: String,
}

/// Some row of `t` is process `c` with parent `p`.
pub open spec fn is_child(t: Seq<ProcNode>, c: u32, p: u32) -> bool {
    exists|j: int| 0 <= j < t.len() && #[trigger] t[j].pid == c && t[j].parent == Some(p)
}

/// Each element of `path` is a child of the one before it.
pub open spec fn is_chain(t: Seq<ProcNode>, path: Seq<u32>) -> bool {
    path.len() >= 1 && forall|k: int|
        0 <= k < path.len() - 1 ==> is_child(t, #[trigger] path[k + 1], path[k])
}

/// `p` is `root` or one of its descendants in `t`.
pub open spec fn reachable(t: Seq<ProcNode>, root: u32, p: u32) -> bool {
    exists|path: Seq<u32>| #[trigger] is_chain(t, path) && path[0] == root && path.last() == p
}

/// The process at position `a` of `order` is a child of one that comes later.
pub open spec fn found_through_later(t: Seq<ProcNode>, order: Seq<u32>, a: int) -> bool {
    exists|b: int| a < b < order.len() && is_child(t, order[a], order[b])
}

/// `d` after scanning rows `0..j` of `t` for children of `cur`, appending
/// each one not yet listed.
pub open spec fn expand(t: Seq<ProcNode>, d: Seq<u32>, cur: u32, j: nat) -> Seq<u32>
    decreases j,
{
    if j == 0 || j > t.len() {
        d
    } else {
        let e = expand(t, d, cur, (j - 1) as nat);
        let row = t[j - 1];
        if row.parent == Some(cur) && !e.contains(row.pid) {
            e.push(row.pid)
        } else {
            e
        }
    }
}

/// Breadth-first discovery from position `i` of `d` on: the children of
/// each listed process are appended in table order.
pub open spec fn bfs(t: Seq<ProcNode>, d: Seq<u32>, i: nat, fuel: nat) -> Seq<u32>
    decreases fuel,
{
    if fuel == 0 || i >= d.len() {
        d
    } else {
        bfs(t, expand(t, d, d[i as int], t.len()), i + 1, (fuel - 1) as nat)
    }
}

/// The processes found from `root`, in order of discovery. A list without
/// repeats holds at most one more process than the table, so the fuel given
/// never runs out.
pub open spec fn discovery_order(t: Seq<ProcNode>, root: u32) -> Seq<u32> {
    bfs(t, seq![root], 0, t.len() + 2)
}

pub open spec fn reversed(d: Seq<u32>) -> Seq<u32> {
    Seq::new(d.len(), |a: int| d[d.len() - 1 - a])
}

/// Whether `v` holds `x`.
fn vec_has(v: &Vec<u32>, x: u32) -> (r: bool)
    ensures
        r == v@.contains(x),
{
    let mut i: usize = 0;
    while i < v.len()
        invariant
            i <= v@.len(),
            forall|k: int| 0 <= k < i ==> v@[k] != x,
        decreases v@.len() - i,
    {
        if v[i] == x {
            return true;
        }
        i = i + 1;
    }
    false
}

proof fn lemma_discovery_bound(t: Seq<ProcNode>, d: Seq<u32>, root: u32)
    requires
        d.no_duplicates(),
        forall|k: int| 0 <= k < d.len() ==> d[k] == root || exists|j: int|
            0 <= j < t.len() && t[j].pid == #[trigger] d[k],
    ensures
        d.len() <= t.len() + 1,
{
    let pids = t.map_values(|n: ProcNode| n.pid);
    let all = pids.to_set().insert(root);
    assert forall|x: u32| d.to_set().contains(x) implies all.contains(x) by {
        let k = choose|k: int| 0 <= k < d.len() && d[k] == x;
        if x != root {
            let j = choose|j: int| 0 <= j < t.len() && t[j].pid == d[k];
            assert(pids[j] == x);
        }
    }
    d.unique_seq_to_set();
    pids.lemma_cardinality_of_set();
    vstd::set_lib::lemma_len_subset(d.to_set(), all);
}

proof fn lemma_discovered_reachable(t: Seq<ProcNode>, d: Seq<u32>, root: u32, k: int)
    requires
        d.len() >= 1,
        d[0] == root,
        0 <= k < d.len(),
        forall|a: int|
            0 < a < d.len() ==> exists|m: int| 0 <= m < a && is_child(t, #[trigger] d[a], d[m]),
    ensures
        reachable(t, root, d[k]),
    decreases k,
{
    if k == 0 {
        let path = seq![root];
        assert(is_chain(t, path));
    } else {
        let m = choose|m: int| 0 <= m < k && is_child(t, d[k], d[m]);
        lemma_discovered_reachable(t, d, root, m);
        let path = choose|path: Seq<u32>|
            #[trigger] is_chain(t, path) && path[0] == root && path.last() == d[m];
        let extended = path.push(d[k]);
        assert forall|i: int| 0 <= i < extended.len() - 1 implies is_child(
            t,
            #[trigger] extended[i + 1],
            extended[i],
        ) by {
            if i < path.len() - 1 {
                assert(extended[i + 1] == path[i + 1] && extended[i] == path[i]);
            }
        }
        assert(is_chain(t, extended));
    }
}

proof fn lemma_closed_complete(t: Seq<ProcNode>, d: Seq<u32>, root: u32, path: Seq<u32>, k: int)
    requires
        d.contains(root),
        is_chain(t, path),
        path[0] == root,
        0 <= k < path.len(),
        forall|m: int, j: int|
            0 <= m < d.len() && 0 <= j < t.len() && t[j].parent == Some(#[trigger] d[m])
                ==> d.contains(#[trigger] t[j].pid),
    ensures
        d.contains(path[k]),
    decreases k,
{
    if k > 0 {
        lemma_closed_complete(t, d, root, path, k - 1);
        let km = k - 1;
        assert(is_child(t, path[km + 1], path[km]));
        let j = choose|j: int|
            0 <= j < t.len() && #[trigger] t[j].pid == path[k] && t[j].parent == Some(path[k - 1]);
        let m = choose|m: int| 0 <= m < d.len() && d[m] == path[k - 1];
        assert(t[j].parent == Some(d[m]));
    }
}

/// The processes to terminate for `root`: `root` and every descendant that
/// the snapshot `table` records, found breadth-first by scanning the whole
/// table for the children of each found process, and listed in exactly the
/// reverse of that discovery order, so that each process comes before the one through which it
/// was found and `root` comes last.
pub fn kill_order(table: &Vec<ProcNode>, root: u32) -> (r: Vec<u32>)
    ensures
        r@ == reversed(discovery_order(table@, root)),
        r@.len() >= 1,
        r@.last() == root,
        r@.no_duplicates(),
        forall|p: u32| r@.contains(p) <==> reachable(table@, root, p),
        forall|a: int| 0 <= a < r@.len() - 1 ==> #[trigger] found_through_later(table@, r@, a),
{
    let t = Ghost(table@);
    let mut found: Vec<u32> = vec![root];
    assert(found@ =~= seq![root]);
    let mut i: usize = 0;
    while i < found.len()
        invariant
            t@ == table@,
            found@.len() >= 1,
            found@[0] == root,
            i <= found@.len(),
            found@.no_duplicates(),
            forall|a: int|
                0 < a < found@.len() ==> exists|m: int|
                    0 <= m < a && is_child(t@, #[trigger] found@[a], found@[m]),
            forall|a: int|
                0 <= a < found@.len() ==> found@[a] == root || exists|j: int|
                    0 <= j < t@.len() && t@[j].pid == #[trigger] found@[a],
            forall|m: int, j: int|
                0 <= m < i && 0 <= j < t@.len() && t@[j].parent == Some(#[trigger] found@[m])
                    ==> found@.contains(#[trigger] t@[j].pid),
            i <= table@.len() + 1,
            discovery_order(t@, root) == bfs(t@, found@, i as nat, (t@.len() + 2 - i) as nat),
        decreases table@.len() + 1 - i,
    {
        proof {
            lemma_discovery_bound(t@, found@, root);
        }
        let cur = found[i];
        let ghost start = found@;
        let mut j: usize = 0;
        while j < table.len()
            invariant
                t@ == table@,
                found@.len() >= 1,
                found@[0] == root,
                i < found@.len(),
                cur == found@[i as int],
                j <= table@.len(),
                found@.no_duplicates(),
                forall|a: int|
                    0 < a < found@.len() ==> exists|m: int|
                        0 <= m < a && is_child(t@, #[trigger] found@[a], found@[m]),
                forall|a: int|
                    0 <= a < found@.len() ==> found@[a] == root || exists|jj: int|
                        0 <= jj < t@.len() && t@[jj].pid == #[trigger] found@[a],
                forall|m: int, jj: int|
                    0 <= m < i && 0 <= jj < t@.len() && t@[jj].parent == Some(
                        #[trigger] found@[m],
                    ) ==> found@.contains(#[trigger] t@[jj].pid),
                forall|jj: int|
                    0 <= jj < j && t@[jj].parent == Some(cur) ==> found@.contains(
                        #[trigger] t@[jj].pid,
                    ),
                found@ == expand(t@, start, cur, j as nat),
            decreases table@.len() - j,
        {
            let row = &table[j];
            if row.parent == Some(cur) && !vec_has(&found, row.pid) {
                let ghost old_found = found@;
                found.push(row.pid);
                proof {
                    assert(is_child(t@, row.pid, cur));
                    assert forall|a: int| 0 < a < found@.len() implies exists|m: int|
                        0 <= m < a && is_child(t@, #[trigger] found@[a], found@[m]) by {
                        if a < old_found.len() {
                            let m = choose|m: int|
                                0 <= m < a && is_child(t@, #[trigger] old_found[a], old_found[m]);
                            assert(found@[m] == old_found[m]);
                        } else {
                            assert(found@[i as int] == cur);
                        }
                    }
                    assert forall|a: int| 0 <= a < found@.len() implies found@[a] == root
                        || exists|jj: int|
                        0 <= jj < t@.len() && t@[jj].pid == #[trigger] found@[a] by {
                        if a < old_found.len() {
                            assert(found@[a] == old_found[a]);
                        } else {
                            assert(t@[j as int].pid == found@[a]);
                        }
                    }
                    assert forall|m: int, jj: int|
                        0 <= m < i && 0 <= jj < t@.len() && t@[jj].parent == Some(
                            #[trigger] found@[m],
                        ) implies found@.contains(#[trigger] t@[jj].pid) by {
                        assert(found@[m] == old_found[m]);
                        assert(old_found.contains(t@[jj].pid));
                        let k = choose|k: int| 0 <= k < old_found.len() && old_found[k] == t@[jj].pid;
                        assert(found@[k] == old_found[k]);
                    }
                    assert forall|jj: int|
                        0 <= jj < j + 1 && t@[jj].parent == Some(cur) implies found@.contains(
                            #[trigger] t@[jj].pid,
                        ) by {
                        if jj < j {
                            assert(old_found.contains(t@[jj].pid));
                            let k = choose|k: int|
                                0 <= k < old_found.len() && old_found[k] == t@[jj].pid;
                            assert(found@[k] == old_found[k]);
                        } else {
                            assert(found@[old_found.len() as int] == t@[jj].pid);
                        }
                    }
                }
            }
            j = j + 1;
        }
        proof {
            lemma_discovery_bound(t@, found@, root);
            assert(start[i as int] == cur);
        }
        i = i + 1;
    }
    proof {
        assert forall|p: u32| found@.contains(p) <==> reachable(table@, root, p) by {
            if found@.contains(p) {
                let k = choose|k: int| 0 <= k < found@.len() && found@[k] == p;
                lemma_discovered_reachable(table@, found@, root, k);
            }
            if reachable(table@, root, p) {
                let path = choose|path: Seq<u32>|
                    #[trigger] is_chain(table@, path) && path[0] == root && path.last() == p;
                assert(found@[0] == root);
                lemma_closed_complete(table@, found@, root, path, path.len() - 1);
            }
        }
    }
    let n = found.len();
    let mut r: Vec<u32> = Vec::new();
    let mut k: usize = n;
    while k > 0
        invariant
            n == found@.len(),
            k <= n,
            r@.len() == n - k,
            forall|a: int| 0 <= a < r@.len() ==> r@[a] == found@[n - 1 - a],
        decreases k,
    {
        k = k - 1;
        r.push(found[k]);
    }
    proof {
        assert(r@ =~= reversed(found@));
        assert forall|p: u32| r@.contains(p) <==> found@.contains(p) by {
            if r@.contains(p) {
                let a = choose|a: int| 0 <= a < r@.len() && r@[a] == p;
                assert(found@[n - 1 - a] == p);
            }
            if found@.contains(p) {
                let k = choose|k: int| 0 <= k < n && found@[k] == p;
                assert(r@[n - 1 - k] == p);
            }
        }
        assert forall|a: int, b: int| 0 <= a < r@.len() && 0 <= b < r@.len() && a != b
            implies r@[a] != r@[b] by {
            assert(r@[a] == found@[n - 1 - a] && r@[b] == found@[n - 1 - b]);
        }
        assert forall|a: int| 0 <= a < r@.len() - 1 implies #[trigger] found_through_later(
            table@,
            r@,
            a,
        ) by {
            let fa = n - 1 - a;
            assert(found@[fa] == r@[a]);
            let m = choose|m: int| 0 <= m < fa && is_child(t@, #[trigger] found@[fa], found@[m]);
            assert(r@[n - 1 - m] == found@[m]);
            assert(is_child(table@, r@[a], r@[n - 1 - m]));
        }
    }
    r
}

/// A process name and a searched name match when either holds the other
/// (both lower-cased).
pub open spec fn names_match(process_lower: Seq<char>, target_lower: Seq<char>) -> bool {
    contains(process_lower, target_lower) || contains(target_lower, process_lower)
}

/// The pids of the rows of `t` whose lower-cased name matches `target_lower`,
/// in table order.
pub open spec fn matching_pids(t: Seq<ProcNode>, target_lower: Seq<char>) -> Seq<u32>
    decreases t.len(),
{
    if t.len() == 0 {
        Seq::empty()
    } else {
        let prev = matching_pids(t.drop_last(), target_lower);
        if names_match(lower_of(t.last().name@), target_lower) {
            prev.push(t.last().pid)
        } else {
            prev
        }
    }
}

pub open spec fn not_found_message(name: Seq<char>) -> Seq<char> {
    "No process found matching '"@ + name + "'"@
}

/// The processes to terminate for a name: every row whose lower-cased name
/// holds the lower-cased `name` or is held by it, in table order; an error
/// naming `name` where there is none.
pub fn select_by_name(table: &Vec<ProcNode>, name: &str) -> (r: Result<Vec<u32>, String>)
    ensures
        matching_pids(table@, lower_of(name@)).len() > 0 ==> r is Ok && r->Ok_0@ == matching_pids(
            table@,
            lower_of(name@),
        ),
        matching_pids(table@, lower_of(name@)).len() == 0 ==> r is Err && r->Err_0@
            == not_found_message(name@),
{
    let target = lower_chars(name);
    let mut out: Vec<u32> = Vec::new();
    let mut i: usize = 0;
    while i < table.len()
        invariant
            i <= table@.len(),
            target@ == lower_of(name@),
            out@ == matching_pids(table@.subrange(0, i as int), target@),
        decreases table@.len() - i,
    {
        let p = lower_chars(table[i].name.as_str());
        if contains_exec(&p, &target) || contains_exec(&target, &p) {
            out.push(table[i].pid);
        }
        proof {
            assert(table@.subrange(0, i + 1).drop_last() =~= table@.subrange(0, i as int));
        }
        i = i + 1;
    }
    assert(table@.subrange(0, table@.len() as int) =~= table@);
    if out.len() == 0 {
        let mut m = String::from_str("No process found matching '");
        m.append(name);
        m.append("'");
        Err(m)
    } else {
        Ok(out)
    }
}

/// The index of the first row for `pid`, if the snapshot holds one.
pub fn process_index(table: &Vec<ProcNode>, pid: u32) -> (r: Option<usize>)
    ensures
        r matches Some(i) ==> i < table@.len() && table@[i as int].pid == pid && forall|j: int|
            0 <= j < i ==> table@[j].pid != pid,
        r is None ==> forall|j: int| 0 <= j < table@.len() ==> table@[j].pid != pid,
{
    let mut i: usize = 0;
    while i < table.len()
        invariant
            i <= table@.len(),
            forall|j: int| 0 <= j < i ==> table@[j].pid != pid,
        decreases table@.len() - i,
    {
        if table[i].pid == pid {
            return Some(i);
        }
        i = i + 1;
    }
    None
}

/// Rows of another running instance of this application: the name holds
/// `nexus-bar` in any case and the pid is not the current one.
pub open spec fn stale_pids(t: Seq<ProcNode>, current: u32) -> Seq<u32>
    decreases t.len(),
{
    if t.len() == 0 {
        Seq::empty()
    } else {
        let prev = stale_pids(t.drop_last(), current);
        if contains(lower_of(t.last().name@), "nexus-bar"@) && t.last().pid != current {
            prev.push(t.last().pid)
        } else {
            prev
        }
    }
}

/// The pids of other running instances of this application, in table order.
pub fn stale_instances(table: &Vec<ProcNode>, current_pid: u32) -> (r: Vec<u32>)
    ensures
        r@ == stale_pids(table@, current_pid),
{
    let own = chars_of("nexus-bar");
    let mut out: Vec<u32> = Vec::new();
    let mut i: usize = 0;
    while i < table.len()
        invariant
            i <= table@.len(),
            own@ == "nexus-bar"@,
            out@ == stale_pids(table@.subrange(0, i as int), current_pid),
        decreases table@.len() - i,
    {
        let p = lower_chars(table[i].name.as_str());
        if contains_exec(&p, &own) && table[i].pid != current_pid {
            out.push(table[i].pid);
        }
        proof {
            assert(table@.subrange(0, i + 1).drop_last() =~= table@.subrange(0, i as int));
        }
        i = i + 1;
    }
    assert(table@.subrange(0, table@.len() as int) =~= table@);
    out
}

/// The character of a decimal digit.
pub open spec fn digit_char(d: nat) -> char {
    if d == 0 {
        '0'
    } else if d == 1 {
        '1'
    } else if d == 2 {
        '2'
    } else if d == 3 {
        '3'
    } else if d == 4 {
        '4'
    } else if d == 5 {
        '5'
    } else if d == 6 {
        '6'
    } else if d == 7 {
        '7'
    } else if d == 8 {
        '8'
    } else {
        '9'
    }
}

/// The decimal digits of `n`, most significant first, without leading zeros.
pub open spec fn decimal(n: nat) -> Seq<char>
    decreases n,
{
    if n < 10 {
        seq![digit_char(n)]
    } else {
        decimal(n / 10).push(digit_char(n % 10))
    }
}

fn digit_of(d: u32) -> (c: char)
    requires
        d < 10,
    ensures
        c == digit_char(d as nat),
{
    if d == 0 {
        '0'
    } else if d == 1 {
        '1'
    } else if d == 2 {
        '2'
    } else if d == 3 {
        '3'
    } else if d == 4 {
        '4'
    } else if d == 5 {
        '5'
    } else if d == 6 {
        '6'
    } else if d == 7 {
        '7'
    } else if d == 8 {
        '8'
    } else {
        '9'
    }
}

fn push_decimal(n: u32, out: &mut Vec<char>)
    ensures
        final(out)@ == old(out)@ + decimal(n as nat),
    decreases n,
{
    if n >= 10 {
        push_decimal(n / 10, out);
    }
    out.push(digit_of(n % 10));
    assert(out@ =~= old(out)@ + decimal(n as nat));
}

pub open spec fn pid_not_found_spec(pid: u32) -> Seq<char> {
    "Process with PID "@ + decimal(pid as nat) + " not found"@
}

/// The message for a pid that the process table does not hold.
pub fn pid_not_found_message(pid: u32) -> (r: String)
    ensures
        r@ == pid_not_found_spec(pid),
{
    let mut digits: Vec<char> = Vec::new();
    push_decimal(pid, &mut digits);
    assert(digits@ =~= decimal(pid as nat));
    let d = string_from_chars(&digits);
    let mut m = String::from_str("Process with PID ");
    m.append(d.as_str());
    m.append(" not found");
    m
}

} // verus!
