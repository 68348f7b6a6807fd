//! Idempotent restore planning: which saved windows still need spawning,
//! matched against what is already running by workspace first, capped per
//! app at the deficit `saved - running`.
use vstd::prelude::*;
use crate::config::{AppConfig, Config, TerminalStateConfig};
use crate::niri::{NiriWindow, NiriWorkspace, WorkspaceRef};
use crate::session::{dup_opt_string, listed, SavedWindow, SavedWindowView, WorkspaceInfo, window_views};
use crate::span::{max_total, span_of, Span};
use crate::text::{contains_str, decimal, opt_view, push_decimal, push_str, spec_trim, str_eq, trim};
use vstd::string::StringExecFns;

verus! {

/// A window currently running in niri, joined with its workspace.
#[derive(Debug, Clone, PartialEq, Eq)]
pub struct RunningWindow {
    pub id: u64,
    pub app_id: Option<String>,
    pub workspace_name: Option<String>,
    pub workspace_idx: Option<u8>,
}

/// Whether a running window sits on the workspace a saved window was saved
/// on: by name when the saved name is non-empty, else by index.
pub open spec fn spec_workspace_matches(saved: WorkspaceInfo, running: RunningWindow) -> bool {
    if saved.name is Some && saved.name->0@.len() > 0 {
        running.workspace_name is Some && running.workspace_name->0@ == saved.name->0@
    } else {
        saved.idx is Some && running.workspace_idx is Some && saved.idx->0 == running.workspace_idx->0
    }
}

/// Whether a running window sits on the workspace a saved window was saved
/// on. Names are matched first (stable across reorders); index is the
/// fallback.
pub fn workspace_matches(saved: &WorkspaceInfo, running: &RunningWindow) -> (b: bool)
    ensures
        b == spec_workspace_matches(*saved, *running),
{
    match &saved.name {
        Some(name) => {
            if !name.as_str().is_empty() {
                return match &running.workspace_name {
                    Some(rn) => str_eq(rn.as_str(), name.as_str()),
                    None => false,
                };
            }
        },
        None => {},
    }
    match (saved.idx, running.workspace_idx) {
        (Some(s), Some(r)) => s == r,
        _ => false,
    }
}

/// Whether a running window belongs to app `a`.
pub open spec fn runs_app(r: RunningWindow, a: Seq<char>) -> bool {
    r.app_id is Some && r.app_id->0@ == a
}

/// Number of running windows of app `a`.
pub open spec fn running_count(running: Seq<RunningWindow>, a: Seq<char>) -> nat
    decreases running.len(),
{
    if running.len() == 0 {
        0
    } else {
        running_count(running.drop_last(), a) + if runs_app(running.last(), a) {
            1nat
        } else {
            0nat
        }
    }
}

/// Number of windows of app `a` in a sequence of window models.
pub open spec fn app_count(ws: Seq<SavedWindowView>, a: Seq<char>) -> nat
    decreases ws.len(),
{
    if ws.len() == 0 {
        0
    } else {
        app_count(ws.drop_last(), a) + if ws.last().app_id@ == a {
            1nat
        } else {
            0nat
        }
    }
}

/// The models of the saved windows at the given indices.
pub open spec fn picked(saved: Seq<SavedWindow>, idx: Seq<int>) -> Seq<SavedWindowView> {
    idx.map_values(|i: int| saved[i]@)
}

/// Index of the first running window, from `j` on, of app `a` whose id is
/// not yet matched and that sits on workspace `ws`.
pub open spec fn first_match_from(
    running: Seq<RunningWindow>,
    a: Seq<char>,
    ws: WorkspaceInfo,
    matched: Seq<u64>,
    j: int,
) -> Option<int>
    decreases running.len() - j,
{
    if j < 0 || j >= running.len() {
        None
    } else if runs_app(running[j], a) && !matched.contains(running[j].id)
        && spec_workspace_matches(ws, running[j]) {
        Some(j)
    } else {
        first_match_from(running, a, ws, matched, j + 1)
    }
}

/// State of restore planning after some saved windows: running-window ids
/// already matched, indices of saved windows to spawn, and indices of saved
/// windows satisfied by a running window.
pub struct PlanState {
    pub matched: Seq<u64>,
    pub out: Seq<int>,
    pub hits: Seq<int>,
}

/// Planning over the first `k` saved windows. Per saved window, in order:
/// a skip-listed app is skipped; a single-instance app is spawned once,
/// unless any instance runs; otherwise an unmatched running window of the
/// app on the saved workspace satisfies the entry; otherwise the entry is
/// spawned while fewer than `saved - running` windows of the app have been.
pub open spec fn plan_state(
    saved: Seq<SavedWindow>,
    running: Seq<RunningWindow>,
    skip: Seq<String>,
    single: Seq<String>,
    k: int,
) -> PlanState
    decreases k,
{
    if k <= 0 {
        PlanState { matched: seq![], out: seq![], hits: seq![] }
    } else {
        let st = plan_state(saved, running, skip, single, k - 1);
        let i = k - 1;
        let w = saved[i];
        let a = w.app_id@;
        if listed(skip, a) {
            st
        } else if listed(single, a) {
            if running_count(running, a) > 0 || app_count(picked(saved, st.out), a) > 0 {
                st
            } else {
                PlanState { out: st.out.push(i), ..st }
            }
        } else {
            match first_match_from(running, a, w.workspace, st.matched, 0) {
                Some(j) => PlanState {
                    matched: st.matched.push(running[j].id),
                    hits: st.hits.push(i),
                    ..st
                },
                None => if app_count(window_views(saved), a) > running_count(running, a)
                    + app_count(picked(saved, st.out), a) {
                    PlanState { out: st.out.push(i), ..st }
                } else {
                    st
                },
            }
        }
    }
}

/// How many windows of app `a` a restore spawns: none for skip-listed apps;
/// for single-instance apps one, unless an instance runs or none was saved;
/// for other apps the deficit `saved - running` (0 when running covers saved).
pub open spec fn expected_spawns(
    saved: Seq<SavedWindow>,
    running: Seq<RunningWindow>,
    skip: Seq<String>,
    single: Seq<String>,
    a: Seq<char>,
) -> nat {
    let s = app_count(window_views(saved), a);
    let r = running_count(running, a);
    if listed(skip, a) {
        0
    } else if listed(single, a) {
        if r > 0 || s == 0 {
            0
        } else {
            1
        }
    } else if s > r {
        (s - r) as nat
    } else {
        0
    }
}

/// Number of running windows of app `a`.
fn count_running(running: &Vec<RunningWindow>, a: &str) -> (n: usize)
    ensures
        n == running_count(running@, a@),
{
    let mut n: usize = 0;
    let mut i: usize = 0;
    while i < running.len()
        invariant
            i <= running.len(),
            n == running_count(running@.take(i as int), a@),
            n <= i,
        decreases running.len() - i,
    {
        assert(running@.take(i + 1).drop_last() == running@.take(i as int));
        let hit = match &running[i].app_id {
            Some(x) => str_eq(x.as_str(), a),
            None => false,
        };
        if hit {
            n = n + 1;
        }
        i = i + 1;
    }
    assert(running@.take(running.len() as int) == running@);
    n
}

/// Number of windows of app `a`.
fn count_app(ws: &Vec<SavedWindow>, a: &str) -> (n: usize)
    ensures
        n == app_count(window_views(ws@), a@),
{
    let mut n: usize = 0;
    let mut i: usize = 0;
    while i < ws.len()
        invariant
            i <= ws.len(),
            n == app_count(window_views(ws@.take(i as int)), a@),
            n <= i,
        decreases ws.len() - i,
    {
        assert(window_views(ws@.take(i + 1)).drop_last() == window_views(ws@.take(i as int)));
        if str_eq(ws[i].app_id.as_str(), a) {
            n = n + 1;
        }
        i = i + 1;
    }
    assert(ws@.take(ws.len() as int) == ws@);
    n
}

/// The first unmatched running window of app `a` on workspace `ws`.
fn find_match(running: &Vec<RunningWindow>, a: &str, ws: &WorkspaceInfo, matched: &Vec<u64>) -> (r:
    Option<usize>)
    ensures
        match first_match_from(running@, a@, *ws, matched@, 0) {
            Some(j) => 0 <= j < running.len() && r == Some(j as usize),
            None => r is None,
        },
        r is Some ==> r->0 < running.len(),
{
    proof {
        lemma_first_match_found(running@, a@, *ws, matched@, 0);
    }
    let mut j: usize = 0;
    while j < running.len()
        invariant
            j <= running.len(),
            first_match_from(running@, a@, *ws, matched@, 0) == first_match_from(
                running@,
                a@,
                *ws,
                matched@,
                j as int,
            ),
        decreases running.len() - j,
    {
        let r = &running[j];
        let of_app = match &r.app_id {
            Some(x) => str_eq(x.as_str(), a),
            None => false,
        };
        if of_app && !vec_contains_u64(matched, r.id) && workspace_matches(ws, r) {
            return Some(j);
        }
        j = j + 1;
    }
    None
}

/// Whether `v` holds `x`.
pub fn vec_contains_u64(v: &Vec<u64>, x: u64) -> (b: bool)
    ensures
        b == v@.contains(x),
{
    let mut i: usize = 0;
    while i < v.len()
        invariant
            i <= v.len(),
            forall|k: int| 0 <= k < i ==> v@[k] != x,
        decreases v.len() - i,
    {
        if v[i] == x {
            return true;
        }
        i = i + 1;
    }
    false
}

/// Number of running windows of app `a` whose id is in `m`.
pub open spec fn matched_running_count(running: Seq<RunningWindow>, a: Seq<char>, m: Seq<u64>) -> nat
    decreases running.len(),
{
    if running.len() == 0 {
        0
    } else {
        matched_running_count(running.drop_last(), a, m) + if runs_app(running.last(), a)
            && m.contains(running.last().id) {
            1nat
        } else {
            0nat
        }
    }
}

proof fn lemma_matched_running_bounded(running: Seq<RunningWindow>, a: Seq<char>, m: Seq<u64>)
    ensures
        matched_running_count(running, a, m) <= running_count(running, a),
    decreases running.len(),
{
    if running.len() > 0 {
        lemma_matched_running_bounded(running.drop_last(), a, m);
    }
}

proof fn lemma_matched_running_grows(running: Seq<RunningWindow>, a: Seq<char>, m: Seq<u64>, x: u64)
    ensures
        matched_running_count(running, a, m) <= matched_running_count(running, a, m.push(x)),
        (exists|j: int|
            0 <= j < running.len() && runs_app(running[j], a) && running[j].id == x)
            && !m.contains(x) ==> matched_running_count(running, a, m) + 1
            <= matched_running_count(running, a, m.push(x)),
    decreases running.len(),
{
    if running.len() > 0 {
        let init = running.drop_last();
        lemma_matched_running_grows(init, a, m, x);
        assert forall|y: u64| m.contains(y) implies m.push(x).contains(y) by {
            let k = choose|k: int| 0 <= k < m.len() && m[k] == y;
            assert(m.push(x)[k] == y);
        }
        assert(m.push(x).contains(x)) by {
            assert(m.push(x)[m.len() as int] == x);
        }
        if (exists|j: int|
            0 <= j < running.len() && runs_app(running[j], a) && running[j].id == x)
            && !m.contains(x) {
            let j = choose|j: int|
                0 <= j < running.len() && runs_app(running[j], a) && running[j].id == x;
            if j < init.len() {
                assert(init[j] == running[j]);
            }
        }
    }
}

proof fn lemma_first_match_found(
    running: Seq<RunningWindow>,
    a: Seq<char>,
    ws: WorkspaceInfo,
    matched: Seq<u64>,
    j: int,
)
    requires
        j >= 0,
    ensures
        match first_match_from(running, a, ws, matched, j) {
            Some(t) => j <= t < running.len() && runs_app(running[t], a) && !matched.contains(
                running[t].id,
            ) && spec_workspace_matches(ws, running[t]),
            None => true,
        },
    decreases running.len() - j,
{
    if j < running.len() {
        lemma_first_match_found(running, a, ws, matched, j + 1);
    }
}

proof fn lemma_app_count_push(ws: Seq<SavedWindowView>, w: SavedWindowView, a: Seq<char>)
    ensures
        app_count(ws.push(w), a) == app_count(ws, a) + if w.app_id@ == a {
            1nat
        } else {
            0nat
        },
{
    assert(ws.push(w).drop_last() == ws);
}

proof fn lemma_app_count_take_all(saved: Seq<SavedWindow>, a: Seq<char>)
    ensures
        window_views(saved.take(saved.len() as int)) == window_views(saved),
{
    assert(saved.take(saved.len() as int) == saved);
}

proof fn lemma_plan_counts(
    saved: Seq<SavedWindow>,
    running: Seq<RunningWindow>,
    skip: Seq<String>,
    single: Seq<String>,
    k: int,
    a: Seq<char>,
)
    requires
        0 <= k <= saved.len(),
    ensures
        ({
            let st = plan_state(saved, running, skip, single, k);
            let seen = app_count(window_views(saved.take(k)), a);
            let sp = app_count(picked(saved, st.out), a);
            let ht = app_count(picked(saved, st.hits), a);
            let s = app_count(window_views(saved), a);
            let r = running_count(running, a);
            let cap: int = if s > r {
                s - r
            } else {
                0
            };
            &&& listed(skip, a) ==> sp == 0
            &&& !listed(skip, a) && listed(single, a) ==> sp == (if r > 0 || seen == 0 {
                0nat
            } else {
                1nat
            })
            &&& !listed(skip, a) && !listed(single, a) ==> {
                &&& ht <= seen
                &&& ht <= matched_running_count(running, a, st.matched)
                &&& sp == (if cap < seen - ht {
                    cap
                } else {
                    seen - ht
                })
            }
        }),
    decreases k,
{
    let st = plan_state(saved, running, skip, single, k);
    if k == 0 {
        assert(saved.take(0) =~= Seq::<SavedWindow>::empty());
        assert(window_views(saved.take(0)) =~= Seq::<SavedWindowView>::empty());
        assert(picked(saved, st.out) =~= Seq::<SavedWindowView>::empty());
        assert(picked(saved, st.hits) =~= Seq::<SavedWindowView>::empty());
    } else {
        lemma_plan_counts(saved, running, skip, single, k - 1, a);
        let prev = plan_state(saved, running, skip, single, k - 1);
        let i = k - 1;
        let w = saved[i];
        let b = w.app_id@;
        assert(window_views(saved.take(k)) =~= window_views(saved.take(k - 1)).push(w@));
        lemma_app_count_push(window_views(saved.take(k - 1)), w@, a);
        assert(picked(saved, prev.out.push(i)) =~= picked(saved, prev.out).push(w@));
        assert(picked(saved, prev.hits.push(i)) =~= picked(saved, prev.hits).push(w@));
        lemma_app_count_push(picked(saved, prev.out), w@, a);
        lemma_app_count_push(picked(saved, prev.hits), w@, a);
        if listed(skip, b) {
        } else if listed(single, b) {
        } else {
            match first_match_from(running, b, w.workspace, prev.matched, 0) {
                Some(j) => {
                    lemma_first_match_found(running, b, w.workspace, prev.matched, 0);
                    lemma_matched_running_grows(running, a, prev.matched, running[j].id);
                },
                None => {},
            }
        }
        if !listed(skip, a) && !listed(single, a) {
            lemma_matched_running_bounded(running, a, st.matched);
        }
    }
}

proof fn lemma_app_count_positive(vs: Seq<SavedWindowView>, k: int)
    requires
        0 <= k < vs.len(),
    ensures
        app_count(vs, vs[k].app_id@) >= 1,
    decreases vs.len(),
{
    if k < vs.len() - 1 {
        lemma_app_count_positive(vs.drop_last(), k);
        assert(vs.drop_last()[k] == vs[k]);
    }
}

/// Whether every saved app is already covered: skip-listed, or (for a
/// single-instance app) running at all, or running at least as many
/// windows as were saved.
pub open spec fn all_running(
    saved: Seq<SavedWindow>,
    running: Seq<RunningWindow>,
    skip: Seq<String>,
    single: Seq<String>,
) -> bool {
    forall|i: int|
        0 <= i < saved.len() ==> {
            let a = #[trigger] saved[i].app_id@;
            ||| listed(skip, a)
            ||| listed(single, a) && running_count(running, a) > 0
            ||| !listed(single, a) && running_count(running, a) >= app_count(window_views(saved), a)
        }
}

/// A restore once everything runs spawns nothing: when every saved app is
/// covered (see `all_running`), the plan is empty.
pub proof fn law_restore_is_noop_when_everything_runs(
    saved: Seq<SavedWindow>,
    running: Seq<RunningWindow>,
    skip: Seq<String>,
    single: Seq<String>,
)
    requires
        all_running(saved, running, skip, single),
    ensures
        plan_state(saved, running, skip, single, saved.len() as int).out.len() == 0,
{
    let out = plan_state(saved, running, skip, single, saved.len() as int).out;
    if out.len() > 0 {
        let vs = picked(saved, out);
        let a = vs[0].app_id@;
        lemma_app_count_positive(vs, 0);
        lemma_plan_counts(saved, running, skip, single, saved.len() as int, a);
        lemma_app_count_take_all(saved, a);
        lemma_plan_out_indices(saved, running, skip, single, saved.len() as int);
        let i = out[0];
        assert(saved[i]@ == vs[0]);
        assert(saved[i].app_id@ == a);
        if !listed(skip, a) && !listed(single, a) {
            lemma_matched_running_bounded(
                running,
                a,
                plan_state(saved, running, skip, single, saved.len() as int).matched,
            );
        }
    }
}

/// A restore never spawns more windows of an app than were saved, and
/// never more than the deficit `saved - running`.
pub proof fn law_plan_never_exceeds_saved(
    saved: Seq<SavedWindow>,
    running: Seq<RunningWindow>,
    skip: Seq<String>,
    single: Seq<String>,
    a: Seq<char>,
)
    ensures
        ({
            let spawned = app_count(
                picked(saved, plan_state(saved, running, skip, single, saved.len() as int).out),
                a,
            );
            &&& spawned <= app_count(window_views(saved), a)
            &&& !listed(single, a) ==> spawned + running_count(running, a) <= app_count(
                window_views(saved),
                a,
            ) || spawned == 0
        }),
{
    let n = saved.len() as int;
    lemma_plan_counts(saved, running, skip, single, n, a);
    lemma_app_count_take_all(saved, a);
    if !listed(skip, a) && !listed(single, a) {
        lemma_matched_running_bounded(running, a, plan_state(saved, running, skip, single, n).matched);
    }
}

/// Indices below `k` of the saved windows of app `a` that are not in
/// `hits`, in saved order.
pub open spec fn unmatched_of_app(saved: Seq<SavedWindow>, a: Seq<char>, hits: Seq<int>, k: int) -> Seq<int>
    decreases k,
{
    if k <= 0 || k > saved.len() {
        seq![]
    } else {
        let prev = unmatched_of_app(saved, a, hits, k - 1);
        if saved[k - 1].app_id@ == a && !hits.contains(k - 1) {
            prev.push(k - 1)
        } else {
            prev
        }
    }
}

/// The first `n` elements of `s` (all of `s` when it is shorter).
pub open spec fn first_n(s: Seq<int>, n: int) -> Seq<int> {
    if n <= 0 {
        seq![]
    } else if n >= s.len() {
        s
    } else {
        s.take(n)
    }
}

/// The indices in `idx` of windows of app `a`, in order.
pub open spec fn of_app(saved: Seq<SavedWindow>, idx: Seq<int>, a: Seq<char>) -> Seq<int>
    decreases idx.len(),
{
    if idx.len() == 0 {
        seq![]
    } else {
        let prev = of_app(saved, idx.drop_last(), a);
        if saved[idx.last()].app_id@ == a {
            prev.push(idx.last())
        } else {
            prev
        }
    }
}

/// How many windows of app `a` planning admits while walking the saved
/// windows: none for skip-listed apps; for a single-instance app one unless
/// an instance runs; otherwise the deficit `saved - running`.
pub open spec fn spawn_cap(
    saved: Seq<SavedWindow>,
    running: Seq<RunningWindow>,
    skip: Seq<String>,
    single: Seq<String>,
    a: Seq<char>,
) -> int {
    let s = app_count(window_views(saved), a);
    let r = running_count(running, a);
    if listed(skip, a) {
        0
    } else if listed(single, a) {
        if r > 0 {
            0
        } else {
            1
        }
    } else if s > r {
        s - r
    } else {
        0
    }
}

proof fn lemma_of_app_count(saved: Seq<SavedWindow>, idx: Seq<int>, a: Seq<char>)
    ensures
        app_count(picked(saved, idx), a) == of_app(saved, idx, a).len(),
    decreases idx.len(),
{
    if idx.len() > 0 {
        lemma_of_app_count(saved, idx.drop_last(), a);
        assert(picked(saved, idx).drop_last() =~= picked(saved, idx.drop_last()));
    }
}

proof fn lemma_unmatched_same_hits(saved: Seq<SavedWindow>, a: Seq<char>, h1: Seq<int>, h2: Seq<int>, k: int)
    requires
        forall|j: int| 0 <= j < k ==> h1.contains(j) == h2.contains(j),
    ensures
        unmatched_of_app(saved, a, h1, k) == unmatched_of_app(saved, a, h2, k),
    decreases k,
{
    if k > 0 {
        lemma_unmatched_same_hits(saved, a, h1, h2, k - 1);
    }
}

proof fn lemma_unmatched_len(saved: Seq<SavedWindow>, a: Seq<char>, hits: Seq<int>, k: int)
    requires
        0 <= k <= saved.len(),
    ensures
        unmatched_of_app(saved, a, hits, k).len() <= app_count(window_views(saved.take(k)), a),
    decreases k,
{
    if k > 0 {
        lemma_unmatched_len(saved, a, hits, k - 1);
        assert(window_views(saved.take(k)) =~= window_views(saved.take(k - 1)).push(saved[k - 1]@));
        lemma_app_count_push(window_views(saved.take(k - 1)), saved[k - 1]@, a);
    }
}

proof fn lemma_plan_hits_below(
    saved: Seq<SavedWindow>,
    running: Seq<RunningWindow>,
    skip: Seq<String>,
    single: Seq<String>,
    k: int,
)
    requires
        0 <= k <= saved.len(),
    ensures
        forall|j: int|
            0 <= j < plan_state(saved, running, skip, single, k).hits.len() ==> #[trigger] plan_state(
                saved,
                running,
                skip,
                single,
                k,
            ).hits[j] < k,
    decreases k,
{
    if k > 0 {
        lemma_plan_hits_below(saved, running, skip, single, k - 1);
        let prev = plan_state(saved, running, skip, single, k - 1);
        let cur = plan_state(saved, running, skip, single, k);
        assert(cur.hits == prev.hits || cur.hits == prev.hits.push(k - 1));
        assert forall|j: int| 0 <= j < cur.hits.len() implies #[trigger] cur.hits[j] < k by {
            if j < prev.hits.len() {
                assert(cur.hits[j] == prev.hits[j]);
            }
        }
    }
}

proof fn lemma_plan_choice(
    saved: Seq<SavedWindow>,
    running: Seq<RunningWindow>,
    skip: Seq<String>,
    single: Seq<String>,
    a: Seq<char>,
    k: int,
)
    requires
        0 <= k <= saved.len(),
    ensures
        ({
            let st = plan_state(saved, running, skip, single, k);
            let cap = spawn_cap(saved, running, skip, single, a);
            of_app(saved, st.out, a) == first_n(unmatched_of_app(saved, a, st.hits, k), cap)
        }),
    decreases k,
{
    let cap = spawn_cap(saved, running, skip, single, a);
    let st = plan_state(saved, running, skip, single, k);
    if k == 0 {
        assert(first_n(unmatched_of_app(saved, a, st.hits, 0), cap) =~= Seq::<int>::empty());
    } else {
        lemma_plan_choice(saved, running, skip, single, a, k - 1);
        lemma_plan_hits_below(saved, running, skip, single, k - 1);
        let prev = plan_state(saved, running, skip, single, k - 1);
        let i = k - 1;
        let w = saved[i];
        let b = w.app_id@;
        let u = unmatched_of_app(saved, a, prev.hits, k - 1);
        let f = of_app(saved, prev.out, a);
        assert(f == first_n(u, cap));
        assert(!prev.hits.contains(i)) by {
            if prev.hits.contains(i) {
                let j = choose|j: int| 0 <= j < prev.hits.len() && prev.hits[j] == i;
                assert(prev.hits[j] < k - 1);
            }
        }
        assert(st.hits == prev.hits || st.hits == prev.hits.push(i));
        assert forall|j: int| 0 <= j < k - 1 implies st.hits.contains(j) == prev.hits.contains(j) by {
            if st.hits == prev.hits.push(i) {
                if prev.hits.contains(j) {
                    let t = choose|t: int| 0 <= t < prev.hits.len() && prev.hits[t] == j;
                    assert(st.hits[t] == j);
                }
                if st.hits.contains(j) {
                    let t = choose|t: int| 0 <= t < st.hits.len() && st.hits[t] == j;
                    assert(t < prev.hits.len());
                    assert(prev.hits[t] == j);
                }
            }
        }
        lemma_unmatched_same_hits(saved, a, st.hits, prev.hits, k - 1);
        lemma_of_app_count(saved, prev.out, a);
        assert(prev.out.push(i).drop_last() =~= prev.out);
        if st.hits != prev.hits {
            assert(st.hits.contains(i)) by {
                assert(st.hits[prev.hits.len() as int] == i);
            }
        } else {
            assert(!st.hits.contains(i));
        }
        if b == a {
            if st.out == prev.out.push(i) && st.out != prev.out {
                assert(of_app(saved, st.out, a) == f.push(i));
                assert(f.len() < cap);
                assert(first_n(u, cap) == u);
                assert(unmatched_of_app(saved, a, st.hits, k) == u.push(i));
                assert(first_n(u.push(i), cap) == u.push(i));
            } else {
                assert(st.out == prev.out);
                if st.hits != prev.hits {
                    assert(unmatched_of_app(saved, a, st.hits, k) == u);
                } else {
                    assert(f.len() >= cap);
                    assert(unmatched_of_app(saved, a, st.hits, k) == u.push(i));
                    assert(first_n(u.push(i), cap) =~= first_n(u, cap));
                }
            }
        } else {
            assert(unmatched_of_app(saved, a, st.hits, k) == u);
            if st.out != prev.out {
                assert(st.out == prev.out.push(i));
                assert(of_app(saved, st.out, a) == f);
            }
        }
    }
}

proof fn lemma_plan_hits_matched(
    saved: Seq<SavedWindow>,
    running: Seq<RunningWindow>,
    skip: Seq<String>,
    single: Seq<String>,
    k: int,
)
    requires
        0 <= k <= saved.len(),
    ensures
        ({
            let st = plan_state(saved, running, skip, single, k);
            &&& st.hits.len() == st.matched.len()
            &&& forall|j: int|
                0 <= j < st.hits.len() ==> 0 <= #[trigger] st.hits[j] < saved.len() && exists|t: int|
                    0 <= t < running.len() && running[t].id == st.matched[j] && runs_app(
                        running[t],
                        saved[st.hits[j]].app_id@,
                    ) && spec_workspace_matches(saved[st.hits[j]].workspace, running[t])
            &&& forall|x: int, y: int|
                0 <= x < y < st.matched.len() ==> st.matched[x] != st.matched[y]
        }),
    decreases k,
{
    if k > 0 {
        lemma_plan_hits_matched(saved, running, skip, single, k - 1);
        let prev = plan_state(saved, running, skip, single, k - 1);
        let st = plan_state(saved, running, skip, single, k);
        let i = k - 1;
        let w = saved[i];
        let b = w.app_id@;
        if !listed(skip, b) && !listed(single, b) {
            match first_match_from(running, b, w.workspace, prev.matched, 0) {
                Some(t) => {
                    lemma_first_match_found(running, b, w.workspace, prev.matched, 0);
                    assert(st.hits == prev.hits.push(i));
                    assert(st.matched == prev.matched.push(running[t].id));
                    assert forall|j: int| 0 <= j < st.hits.len() implies 0 <= #[trigger] st.hits[j]
                        < saved.len() && exists|u: int|
                        0 <= u < running.len() && running[u].id == st.matched[j] && runs_app(
                            running[u],
                            saved[st.hits[j]].app_id@,
                        ) && spec_workspace_matches(saved[st.hits[j]].workspace, running[u]) by {
                        if j < prev.hits.len() {
                            assert(st.hits[j] == prev.hits[j] && st.matched[j] == prev.matched[j]);
                        } else {
                            assert(st.hits[j] == i && st.matched[j] == running[t].id);
                        }
                    }
                    assert forall|x: int, y: int| 0 <= x < y < st.matched.len() implies st.matched[x]
                        != st.matched[y] by {
                        if y == prev.matched.len() {
                            assert(prev.matched.contains(prev.matched[x]));
                        } else {
                            assert(st.matched[x] == prev.matched[x] && st.matched[y] == prev.matched[y]);
                        }
                    }
                },
                None => {},
            }
        }
    }
}

/// The saved windows a restore counts as already running (the plan's
/// `hits`) are each satisfied by a running window of the same app on the
/// saved workspace, and no running window satisfies two of them.
pub proof fn law_plan_hits_are_running_on_their_workspace(
    saved: Seq<SavedWindow>,
    running: Seq<RunningWindow>,
    skip: Seq<String>,
    single: Seq<String>,
)
    ensures
        ({
            let st = plan_state(saved, running, skip, single, saved.len() as int);
            &&& st.hits.len() == st.matched.len()
            &&& forall|j: int|
                0 <= j < st.hits.len() ==> 0 <= #[trigger] st.hits[j] < saved.len() && exists|t: int|
                    0 <= t < running.len() && running[t].id == st.matched[j] && runs_app(
                        running[t],
                        saved[st.hits[j]].app_id@,
                    ) && spec_workspace_matches(saved[st.hits[j]].workspace, running[t])
            &&& forall|x: int, y: int|
                0 <= x < y < st.matched.len() ==> st.matched[x] != st.matched[y]
        }),
{
    lemma_plan_hits_matched(saved, running, skip, single, saved.len() as int);
}

/// Which windows a restore spawns, per app: the earliest saved windows of
/// the app that no running window satisfied on their workspace (the
/// plan's `hits`), in saved order, as many as `expected_spawns` allows.
/// So a skip-listed app spawns none, a single-instance app at most its
/// first saved window, and any other app its first unmatched windows up to
/// the deficit.
pub proof fn law_plan_spawns_earliest_unmatched(
    saved: Seq<SavedWindow>,
    running: Seq<RunningWindow>,
    skip: Seq<String>,
    single: Seq<String>,
    a: Seq<char>,
)
    ensures
        ({
            let st = plan_state(saved, running, skip, single, saved.len() as int);
            of_app(saved, st.out, a) == first_n(
                unmatched_of_app(saved, a, st.hits, saved.len() as int),
                expected_spawns(saved, running, skip, single, a) as int,
            )
        }),
{
    let n = saved.len() as int;
    lemma_plan_choice(saved, running, skip, single, a, n);
    let st = plan_state(saved, running, skip, single, n);
    let u = unmatched_of_app(saved, a, st.hits, n);
    lemma_unmatched_len(saved, a, st.hits, n);
    lemma_app_count_take_all(saved, a);
    if app_count(window_views(saved), a) == 0 {
        assert(u.len() == 0);
        assert(first_n(u, spawn_cap(saved, running, skip, single, a)) =~= first_n(
            u,
            expected_spawns(saved, running, skip, single, a) as int,
        ));
    }
}

proof fn lemma_running_count_concat(r1: Seq<RunningWindow>, r2: Seq<RunningWindow>, a: Seq<char>)
    ensures
        running_count(r1 + r2, a) == running_count(r1, a) + running_count(r2, a),
    decreases r2.len(),
{
    if r2.len() == 0 {
        assert(r1 + r2 == r1);
    } else {
        lemma_running_count_concat(r1, r2.drop_last(), a);
        assert((r1 + r2).drop_last() == r1 + r2.drop_last());
    }
}

/// Re-running a restore spawns only what is missing, so a second run after
/// the first one's windows appeared spawns nothing: when `spawned` holds,
/// per app, as many running windows as the first plan spawned for it, the
/// plan over `running + spawned` is empty.
pub proof fn law_second_restore_spawns_nothing(
    saved: Seq<SavedWindow>,
    running: Seq<RunningWindow>,
    spawned: Seq<RunningWindow>,
    skip: Seq<String>,
    single: Seq<String>,
)
    requires
        forall|a: Seq<char>|
            #[trigger] running_count(spawned, a) == app_count(
                picked(saved, plan_state(saved, running, skip, single, saved.len() as int).out),
                a,
            ),
    ensures
        plan_state(saved, running + spawned, skip, single, saved.len() as int).out.len() == 0,
{
    let n = saved.len() as int;
    assert forall|i: int| 0 <= i < saved.len() implies {
        let a = #[trigger] saved[i].app_id@;
        ||| listed(skip, a)
        ||| listed(single, a) && running_count(running + spawned, a) > 0
        ||| !listed(single, a) && running_count(running + spawned, a) >= app_count(
            window_views(saved),
            a,
        )
    } by {
        let a = saved[i].app_id@;
        lemma_running_count_concat(running, spawned, a);
        lemma_plan_counts(saved, running, skip, single, n, a);
        lemma_app_count_take_all(saved, a);
        assert(window_views(saved)[i] == saved[i]@);
        lemma_app_count_positive(window_views(saved), i);
        assert(running_count(spawned, a) == app_count(
            picked(saved, plan_state(saved, running, skip, single, n).out),
            a,
        ));
        if !listed(skip, a) && !listed(single, a) {
            lemma_matched_running_bounded(running, a, plan_state(saved, running, skip, single, n).matched);
        }
    }
    law_restore_is_noop_when_everything_runs(saved, running + spawned, skip, single);
}

proof fn lemma_plan_out_indices(
    saved: Seq<SavedWindow>,
    running: Seq<RunningWindow>,
    skip: Seq<String>,
    single: Seq<String>,
    k: int,
)
    requires
        0 <= k <= saved.len(),
    ensures
        forall|j: int|
            0 <= j < plan_state(saved, running, skip, single, k).out.len() ==> 0 <= #[trigger] plan_state(
                saved,
                running,
                skip,
                single,
                k,
            ).out[j] < k,
    decreases k,
{
    if k > 0 {
        lemma_plan_out_indices(saved, running, skip, single, k - 1);
        let prev = plan_state(saved, running, skip, single, k - 1);
        let cur = plan_state(saved, running, skip, single, k);
        assert(cur.out == prev.out || cur.out == prev.out.push(k - 1));
        assert forall|j: int| 0 <= j < cur.out.len() implies 0 <= #[trigger] cur.out[j] < k by {
            if j < prev.out.len() {
                assert(cur.out[j] == prev.out[j]);
            }
        }
    }
}

/// Decides which saved windows need spawning: the windows of `saved`, in
/// order, that `plan_state` selects. Per app, the result holds exactly
/// `expected_spawns` windows: re-running a restore never spawns more than
/// the deficit, and spawns nothing once everything runs.
pub fn plan_spawns(saved: &Vec<SavedWindow>, running: &Vec<RunningWindow>, app_config: &AppConfig) -> (r:
    Vec<SavedWindow>)
    ensures
        window_views(r@) == picked(
            saved@,
            plan_state(
                saved@,
                running@,
                app_config.skip_apps.apps@,
                app_config.single_instance.apps@,
                saved@.len() as int,
            ).out,
        ),
        forall|a: Seq<char>|
            #![trigger app_count(window_views(r@), a)]
            app_count(window_views(r@), a) == expected_spawns(
                saved@,
                running@,
                app_config.skip_apps.apps@,
                app_config.single_instance.apps@,
                a,
            ),
{
    let ghost skip = app_config.skip_apps.apps@;
    let ghost single = app_config.single_instance.apps@;
    let mut matched: Vec<u64> = Vec::new();
    let mut to_spawn: Vec<SavedWindow> = Vec::new();
    let mut i: usize = 0;
    while i < saved.len()
        invariant
            i <= saved.len(),
            skip == app_config.skip_apps.apps@,
            single == app_config.single_instance.apps@,
            matched@ == plan_state(saved@, running@, skip, single, i as int).matched,
            window_views(to_spawn@) == picked(
                saved@,
                plan_state(saved@, running@, skip, single, i as int).out,
            ),
        decreases saved.len() - i,
    {
        let w = &saved[i];
        let a = w.app_id.as_str();
        if contains_str(&app_config.skip_apps.apps, a) {
        } else if contains_str(&app_config.single_instance.apps, a) {
            let rc = count_running(running, a);
            let sp = count_app(&to_spawn, a);
            if rc == 0 && sp == 0 {
                let ghost before = to_spawn@;
                to_spawn.push(w.duplicate());
                assert(window_views(to_spawn@) =~= window_views(before).push(saved@[i as int]@));
            }
        } else {
            match find_match(running, a, &w.workspace, &matched) {
                Some(j) => {
                    matched.push(running[j].id);
                },
                None => {
                    let rc = count_running(running, a);
                    let sp = count_app(&to_spawn, a);
                    let sc = count_app(saved, a);
                    if sc > rc && sc - rc > sp {
                        let ghost before = to_spawn@;
                        to_spawn.push(w.duplicate());
                        assert(window_views(to_spawn@) =~= window_views(before).push(
                            saved@[i as int]@,
                        ));
                    }
                },
            }
        }
        i = i + 1;
    }
    proof {
        assert forall|a: Seq<char>|
            #![trigger app_count(window_views(to_spawn@), a)]
            app_count(window_views(to_spawn@), a) == expected_spawns(
                saved@,
                running@,
                skip,
                single,
                a,
            ) by {
            lemma_plan_counts(saved@, running@, skip, single, saved@.len() as int, a);
            lemma_app_count_take_all(saved@, a);
            if !listed(skip, a) && !listed(single, a) {
                lemma_matched_running_bounded(
                    running@,
                    a,
                    plan_state(saved@, running@, skip, single, saved@.len() as int).matched,
                );
            }
        }
    }
    to_spawn
}

} // verus!

verus! {

/// Upper bound, in seconds, for the backoff between restore attempts.
pub const RETRY_DELAY_MAX_SECS: u64 = 30;

/// `2^e`, or `u32::MAX` when that does not fit (`u32::saturating_pow(2, e)`).
pub open spec fn sat_pow2(e: nat) -> nat
    decreases e,
{
    if e == 0 {
        1
    } else {
        let p = 2 * sat_pow2((e - 1) as nat);
        if p > u32::MAX {
            u32::MAX as nat
        } else {
            p
        }
    }
}

/// `u32::saturating_pow(2, e)`.
pub fn saturating_pow2(e: u32) -> (r: u32)
    ensures
        r == sat_pow2(e as nat),
{
    let mut r: u32 = 1;
    let mut i: u32 = 0;
    while i < e
        invariant
            i <= e,
            r == sat_pow2(i as nat),
            r >= 1,
            i >= 32 ==> r == u32::MAX,
        decreases e - i,
    {
        if i >= 32 {
            proof {
                lemma_sat_pow2_stays(i as nat, e as nat);
            }
            return r;
        }
        r = if r > 0x7fff_ffff { 0xffff_ffff } else { r * 2 };
        i = i + 1;
        proof {
            if i == 32 {
                lemma_sat_pow2_32();
            }
        }
    }
    r
}

proof fn lemma_sat_pow2_32()
    ensures
        sat_pow2(32) == u32::MAX,
{
    reveal_with_fuel(sat_pow2, 33);
}

proof fn lemma_sat_pow2_stays(i: nat, e: nat)
    requires
        32 <= i <= e,
        sat_pow2(i) == u32::MAX,
    ensures
        sat_pow2(e) == u32::MAX,
    decreases e - i,
{
    if i < e {
        assert(sat_pow2(i + 1) == u32::MAX);
        lemma_sat_pow2_stays(i + 1, e);
    }
}

/// Delay before the next restore attempt after `failed_attempts` failures:
/// the base, doubled per further failure, capped at 30 s.
pub open spec fn spec_retry_delay(base_secs: u64, failed_attempts: u32) -> Span {
    let factor = sat_pow2(if failed_attempts >= 1 {
        (failed_attempts - 1) as nat
    } else {
        0
    });
    let t = base_secs * 1_000_000_000 * factor;
    let cap = RETRY_DELAY_MAX_SECS * 1_000_000_000;
    if t < cap {
        span_of(t)
    } else {
        Span { secs: RETRY_DELAY_MAX_SECS, nanos: 0 }
    }
}

/// Doubles the retry delay after each failed attempt, capped at 30 s; a base
/// of 0 retries immediately.
pub fn next_retry_delay(base_secs: u64, failed_attempts: u32) -> (d: Span)
    ensures
        d.wf(),
        d == spec_retry_delay(base_secs, failed_attempts),
        d.total() <= RETRY_DELAY_MAX_SECS * 1_000_000_000,
{
    let e = if failed_attempts >= 1 { failed_attempts - 1 } else { 0 };
    let factor = saturating_pow2(e);
    let base = Span::from_secs(base_secs);
    let m = base.saturating_mul(factor);
    let cap = Span::from_secs(RETRY_DELAY_MAX_SECS);
    let r = m.min(cap);
    proof {
        let t = base_secs * 1_000_000_000 * factor;
        assert(base.total() * factor == t);
        if t <= max_total() {
            assert(m.total() == t);
            if t < cap.total() {
                assert(m == span_of(t));
            }
        }
    }
    r
}

proof fn lemma_sat_pow2_grows(e: nat)
    ensures
        1 <= sat_pow2(e) <= sat_pow2(e + 1) <= u32::MAX,
    decreases e,
{
    if e > 0 {
        lemma_sat_pow2_grows((e - 1) as nat);
    }
}

/// The restore retry delay never shrinks from one failed attempt to the
/// next, and never exceeds 30 s.
pub proof fn law_retry_delay_grows_to_cap(base_secs: u64, failed_attempts: u32)
    requires
        failed_attempts < u32::MAX,
    ensures
        spec_retry_delay(base_secs, failed_attempts).total() <= spec_retry_delay(
            base_secs,
            (failed_attempts + 1) as u32,
        ).total(),
        spec_retry_delay(base_secs, (failed_attempts + 1) as u32).total() <= RETRY_DELAY_MAX_SECS
            * 1_000_000_000,
{
    let n = failed_attempts;
    let e1: nat = if n >= 1 {
        (n - 1) as nat
    } else {
        0
    };
    let e2: nat = n as nat;
    lemma_sat_pow2_grows(e1);
    let f1 = sat_pow2(e1);
    let f2 = sat_pow2(e2);
    assert(f1 <= f2) by {
        if n >= 1 {
            assert(e2 == e1 + 1);
        } else {
            assert(e1 == e2);
        }
    }
    let b: int = base_secs * 1_000_000_000;
    let t1 = b * f1;
    let t2 = b * f2;
    assert(t1 <= t2) by (nonlinear_arith)
        requires
            b >= 0,
            f1 <= f2,
            t1 == b * f1,
            t2 == b * f2,
    ;
    assert(t1 >= 0) by (nonlinear_arith)
        requires
            b >= 0,
            f1 >= 0,
            t1 == b * f1,
    ;
    let cap: int = RETRY_DELAY_MAX_SECS * 1_000_000_000;
    assert(base_secs * 1_000_000_000 * f1 == t1);
    assert(base_secs * 1_000_000_000 * f2 == t2);
    if t1 < cap {
        assert(span_of(t1).total() == t1);
    }
    if t2 < cap {
        assert(span_of(t2).total() == t2);
    }
}

/// Whether a restore that just failed its `attempt`-th try (1-based, out of
/// `attempts`, at least one) is tried again, and after what delay.
pub fn retry_after_failure(attempt: u32, attempts: u32, base_secs: u64) -> (r: Option<Span>)
    ensures
        attempt < attempts ==> r == Some(spec_retry_delay(base_secs, attempt)),
        attempt >= attempts ==> r is None,
{
    if attempt < attempts {
        Some(next_retry_delay(base_secs, attempt))
    } else {
        None
    }
}

/// How many restore attempts a configured retry count allows (at least one).
pub fn restore_attempts(retry_attempts: u32) -> (n: u32)
    ensures
        n == if retry_attempts >= 1 {
            retry_attempts
        } else {
            1
        },
{
    if retry_attempts >= 1 {
        retry_attempts
    } else {
        1
    }
}

/// The niri workspace reference to move a restored window to: the saved
/// name when non-empty, else the saved index when above 0 (niri indices are
/// 1-based; 0 in older files means unknown), else none.
pub open spec fn spec_workspace_reference(ws: WorkspaceInfo) -> Option<WorkspaceRef> {
    if ws.name is Some && ws.name->0@.len() > 0 {
        Some(WorkspaceRef::Name(ws.name->0))
    } else if ws.idx is Some && ws.idx->0 > 0 {
        Some(WorkspaceRef::Index(ws.idx->0))
    } else {
        None
    }
}

/// Picks the workspace reference to move a restored window to.
pub fn workspace_reference(workspace: &WorkspaceInfo) -> (r: Option<WorkspaceRef>)
    ensures
        r == spec_workspace_reference(*workspace),
{
    match &workspace.name {
        Some(n) => {
            if !n.as_str().is_empty() {
                return Some(WorkspaceRef::Name(n.clone()));
            }
        },
        None => {},
    }
    match workspace.idx {
        Some(i) => {
            if i > 0 {
                Some(WorkspaceRef::Index(i))
            } else {
                None
            }
        },
        None => None,
    }
}

/// Whether `o` is `Some(s)` with the characters of `s` equal to `t`.
pub open spec fn opt_is(o: Option<String>, t: Seq<char>) -> bool {
    o is Some && o->0@ == t
}

/// Index of the first workspace, from `j` on, satisfying `p`.
pub open spec fn first_ws_from(
    workspaces: Seq<NiriWorkspace>,
    p: spec_fn(NiriWorkspace) -> bool,
    j: int,
) -> Option<int>
    decreases workspaces.len() - j,
{
    if j < 0 || j >= workspaces.len() {
        None
    } else if p(workspaces[j]) {
        Some(j)
    } else {
        first_ws_from(workspaces, p, j + 1)
    }
}

/// The output to pin a restored window to: the saved output if some
/// workspace is still on it; otherwise the output of the first workspace
/// with the saved (non-empty) name, or failing a name match the first with
/// the saved index.
pub open spec fn spec_target_output(saved: WorkspaceInfo, workspaces: Seq<NiriWorkspace>) -> Option<
    String,
> {
    if saved.output is Some && saved.output->0@.len() > 0 && exists|k: int|
        0 <= k < workspaces.len() && opt_is(#[trigger] workspaces[k].output, saved.output->0@) {
        saved.output
    } else {
        let by_name = if saved.name is Some && saved.name->0@.len() > 0 {
            first_ws_from(workspaces, |w: NiriWorkspace| opt_is(w.name, saved.name->0@), 0)
        } else {
            None
        };
        let by_idx = if saved.idx is Some {
            first_ws_from(workspaces, |w: NiriWorkspace| w.idx == saved.idx->0, 0)
        } else {
            None
        };
        let pick = if by_name is Some {
            by_name
        } else {
            by_idx
        };
        match pick {
            Some(k) => workspaces[k].output,
            None => None,
        }
    }
}

proof fn lemma_first_ws_at(workspaces: Seq<NiriWorkspace>, p: spec_fn(NiriWorkspace) -> bool, i: int, j: int)
    requires
        0 <= i <= j < workspaces.len(),
        p(workspaces[j]),
        forall|k: int| i <= k < j ==> !p(#[trigger] workspaces[k]),
    ensures
        first_ws_from(workspaces, p, i) == Some(j),
    decreases j - i,
{
    if i < j {
        lemma_first_ws_at(workspaces, p, i + 1, j);
    }
}

proof fn lemma_first_ws_none(workspaces: Seq<NiriWorkspace>, p: spec_fn(NiriWorkspace) -> bool, i: int)
    requires
        0 <= i,
        forall|k: int| i <= k < workspaces.len() ==> !p(#[trigger] workspaces[k]),
    ensures
        first_ws_from(workspaces, p, i) is None,
    decreases workspaces.len() - i,
{
    if i < workspaces.len() {
        lemma_first_ws_none(workspaces, p, i + 1);
    }
}

/// Whether workspace `w` carries the saved window's (non-empty) name.
pub open spec fn ws_has_saved_name(saved: WorkspaceInfo, w: NiriWorkspace) -> bool {
    saved.name is Some && saved.name->0@.len() > 0 && w.name is Some && w.name->0@ == saved.name->0@
}

/// Whether workspace `w` has the saved window's index.
pub open spec fn ws_has_saved_idx(saved: WorkspaceInfo, w: NiriWorkspace) -> bool {
    saved.idx is Some && w.idx == saved.idx->0
}

/// Whether some workspace is still on the saved (non-empty) output.
pub open spec fn saved_output_live(saved: WorkspaceInfo, workspaces: Seq<NiriWorkspace>) -> bool {
    saved.output is Some && saved.output->0@.len() > 0 && exists|k: int|
        0 <= k < workspaces.len() && (#[trigger] workspaces[k].output) is Some
            && workspaces[k].output->0@ == saved.output->0@
}

/// Where a restored window is pinned: to its saved output while some
/// workspace is still on that output; otherwise to the output of the first
/// workspace carrying the saved (non-empty) name, whatever the indices say;
/// only when no workspace has that name, to the output of the first
/// workspace with the saved index; else nowhere.
pub proof fn law_target_output_prefers_saved_output_then_name_then_index(
    saved: WorkspaceInfo,
    workspaces: Seq<NiriWorkspace>,
)
    ensures
        saved_output_live(saved, workspaces) ==> spec_target_output(saved, workspaces) == saved.output,
        forall|j: int|
            !saved_output_live(saved, workspaces) && 0 <= j < workspaces.len() && #[trigger] ws_has_saved_name(
                saved,
                workspaces[j],
            ) && (forall|k: int| 0 <= k < j ==> !ws_has_saved_name(saved, #[trigger] workspaces[k]))
                ==> spec_target_output(saved, workspaces) == workspaces[j].output,
        forall|j: int|
            !saved_output_live(saved, workspaces) && (forall|k: int|
                0 <= k < workspaces.len() ==> !ws_has_saved_name(saved, #[trigger] workspaces[k])) && 0 <= j
                < workspaces.len() && #[trigger] ws_has_saved_idx(saved, workspaces[j]) && (forall|k: int|
                0 <= k < j ==> !ws_has_saved_idx(saved, #[trigger] workspaces[k]))
                ==> spec_target_output(saved, workspaces) == workspaces[j].output,
        !saved_output_live(saved, workspaces) && (forall|k: int|
            0 <= k < workspaces.len() ==> !ws_has_saved_name(saved, #[trigger] workspaces[k])
                && !ws_has_saved_idx(saved, workspaces[k])) ==> spec_target_output(saved, workspaces) is None,
{
    let pn = |w: NiriWorkspace| opt_is(w.name, saved.name->0@);
    let pi = |w: NiriWorkspace| w.idx == saved.idx->0;
    if saved_output_live(saved, workspaces) {
        let k = choose|k: int|
            0 <= k < workspaces.len() && (#[trigger] workspaces[k].output) is Some
                && workspaces[k].output->0@ == saved.output->0@;
        assert(opt_is(workspaces[k].output, saved.output->0@));
    } else {
        assert(!(saved.output is Some && saved.output->0@.len() > 0 && exists|k: int|
            0 <= k < workspaces.len() && opt_is(#[trigger] workspaces[k].output, saved.output->0@))) by {
            if saved.output is Some && saved.output->0@.len() > 0 && exists|k: int|
                0 <= k < workspaces.len() && opt_is(#[trigger] workspaces[k].output, saved.output->0@) {
                let k = choose|k: int|
                    0 <= k < workspaces.len() && opt_is(#[trigger] workspaces[k].output, saved.output->0@);
                assert(workspaces[k].output is Some && workspaces[k].output->0@ == saved.output->0@);
            }
        }
        assert forall|j: int|
            0 <= j < workspaces.len() && #[trigger] ws_has_saved_name(saved, workspaces[j]) && (forall|k: int|
                0 <= k < j ==> !ws_has_saved_name(saved, #[trigger] workspaces[k])) implies
            spec_target_output(saved, workspaces) == workspaces[j].output by {
            assert forall|k: int| 0 <= k < j implies !pn(#[trigger] workspaces[k]) by {
                assert(!ws_has_saved_name(saved, workspaces[k]));
            }
            lemma_first_ws_at(workspaces, pn, 0, j);
        }
        if forall|k: int| 0 <= k < workspaces.len() ==> !ws_has_saved_name(saved, #[trigger] workspaces[k]) {
            if saved.name is Some && saved.name->0@.len() > 0 {
                assert forall|k: int| 0 <= k < workspaces.len() implies !pn(#[trigger] workspaces[k]) by {
                    assert(!ws_has_saved_name(saved, workspaces[k]));
                }
                lemma_first_ws_none(workspaces, pn, 0);
            }
            assert forall|j: int|
                0 <= j < workspaces.len() && #[trigger] ws_has_saved_idx(saved, workspaces[j]) && (forall|k: int|
                    0 <= k < j ==> !ws_has_saved_idx(saved, #[trigger] workspaces[k])) implies
                spec_target_output(saved, workspaces) == workspaces[j].output by {
                assert forall|k: int| 0 <= k < j implies !pi(#[trigger] workspaces[k]) by {
                    assert(!ws_has_saved_idx(saved, workspaces[k]));
                }
                lemma_first_ws_at(workspaces, pi, 0, j);
            }
            if forall|k: int|
                0 <= k < workspaces.len() ==> !ws_has_saved_name(saved, #[trigger] workspaces[k])
                    && !ws_has_saved_idx(saved, workspaces[k]) {
                if saved.idx is Some {
                    assert forall|k: int| 0 <= k < workspaces.len() implies !pi(#[trigger] workspaces[k]) by {
                        assert(!ws_has_saved_idx(saved, workspaces[k]));
                    }
                    lemma_first_ws_none(workspaces, pi, 0);
                }
            }
        }
    }
}

fn opt_str_eq(o: &Option<String>, t: &str) -> (b: bool)
    ensures
        b == opt_is(*o, t@),
{
    match o {
        Some(s) => str_eq(s.as_str(), t),
        None => false,
    }
}

/// Picks the output to pin a restored window to (see `spec_target_output`):
/// monitors get renamed or reordered, the saved workspace survives on some
/// output.
pub fn resolve_target_output(saved: &WorkspaceInfo, workspaces: &Vec<NiriWorkspace>) -> (r: Option<
    String,
>)
    ensures
        r == spec_target_output(*saved, workspaces@),
{
    let ghost wsq = workspaces@;
    match &saved.output {
        Some(out) => {
            if !out.as_str().is_empty() {
                let mut k: usize = 0;
                while k < workspaces.len()
                    invariant
                        k <= workspaces.len(),
                        wsq == workspaces@,
                        saved.output == Some(*out),
                        out@.len() > 0,
                        forall|m: int| 0 <= m < k ==> !opt_is(#[trigger] wsq[m].output, out@),
                    decreases workspaces.len() - k,
                {
                    if opt_str_eq(&workspaces[k].output, out.as_str()) {
                        assert(opt_is(wsq[k as int].output, out@));
                        assert(exists|m: int| 0 <= m < wsq.len() && opt_is(#[trigger] wsq[m].output, out@));
                        return Some(out.clone());
                    }
                    k = k + 1;
                }
            }
        },
        None => {},
    }
    let mut by_name: Option<usize> = None;
    match &saved.name {
        Some(n) => {
            if !n.as_str().is_empty() {
                let ghost p = |w: NiriWorkspace| opt_is(w.name, n@);
                let mut k: usize = 0;
                while k < workspaces.len() && by_name.is_none()
                    invariant
                        k <= workspaces.len(),
                        wsq == workspaces@,
                        by_name is None ==> first_ws_from(wsq, p, 0) == first_ws_from(wsq, p, k as int),
                        by_name matches Some(q) ==> first_ws_from(wsq, p, 0) == Some(q as int) && q < workspaces.len(),
                        p == (|w: NiriWorkspace| opt_is(w.name, n@)),
                    decreases workspaces.len() - k,
                {
                    if opt_str_eq(&workspaces[k].name, n.as_str()) {
                        by_name = Some(k);
                    }
                    k = k + 1;
                }
                assert(by_name matches Some(k) ==> first_ws_from(wsq, p, 0) == Some(k as int));
                assert(by_name is None ==> first_ws_from(wsq, p, 0) is None);
            }
        },
        None => {},
    }
    let mut by_idx: Option<usize> = None;
    match saved.idx {
        Some(i) => {
            let ghost p = |w: NiriWorkspace| w.idx == i;
            let mut k: usize = 0;
            while k < workspaces.len() && by_idx.is_none()
                invariant
                    k <= workspaces.len(),
                    wsq == workspaces@,
                    by_idx is None ==> first_ws_from(wsq, p, 0) == first_ws_from(wsq, p, k as int),
                    by_idx matches Some(q) ==> first_ws_from(wsq, p, 0) == Some(q as int) && q < workspaces.len(),
                    p == (|w: NiriWorkspace| w.idx == i),
                decreases workspaces.len() - k,
            {
                if workspaces[k].idx == i {
                    by_idx = Some(k);
                }
                k = k + 1;
            }
            assert(by_idx matches Some(k) ==> first_ws_from(wsq, p, 0) == Some(k as int));
            assert(by_idx is None ==> first_ws_from(wsq, p, 0) is None);
        },
        None => {},
    }
    let pick = if by_name.is_some() { by_name } else { by_idx };
    match pick {
        Some(k) => dup_opt_string(&workspaces[k].output),
        None => None,
    }
}

} // verus!

verus! {

/// Sort key of a saved window: its workspace index, 0 when unknown.
pub open spec fn idx_key(w: SavedWindowView) -> int {
    match w.workspace.idx {
        Some(i) => i as int,
        None => 0,
    }
}

/// The windows of `ws` whose key is `k`, in order.
pub open spec fn with_key(ws: Seq<SavedWindowView>, k: int) -> Seq<SavedWindowView>
    decreases ws.len(),
{
    if ws.len() == 0 {
        seq![]
    } else {
        let prev = with_key(ws.drop_last(), k);
        if idx_key(ws.last()) == k {
            prev.push(ws.last())
        } else {
            prev
        }
    }
}

/// Stable ordering of `ws` by key, over the keys below `k`: all windows of
/// key 0 in their order, then those of key 1, and so on.
pub open spec fn by_key_below(ws: Seq<SavedWindowView>, k: int) -> Seq<SavedWindowView>
    decreases k,
{
    if k <= 0 {
        seq![]
    } else {
        by_key_below(ws, k - 1) + with_key(ws, k - 1)
    }
}

/// `ws` stably sorted by workspace index (unknown as 0).
pub open spec fn sorted_by_idx(ws: Seq<SavedWindowView>) -> Seq<SavedWindowView> {
    by_key_below(ws, 256)
}

/// Whether a window is a terminal whose foreground state was not captured
/// (restoring it would only spawn an empty shell).
pub open spec fn is_stateless_terminal(w: SavedWindowView, tcfg: TerminalStateConfig) -> bool {
    tcfg.enabled && listed(tcfg.terminal_app_ids@, w.app_id@) && w.terminal_state is None
}

/// The windows of `ws` that are not stateless terminals, in order.
pub open spec fn without_stateless_terminals(ws: Seq<SavedWindowView>, tcfg: TerminalStateConfig) -> Seq<
    SavedWindowView,
>
    decreases ws.len(),
{
    if ws.len() == 0 {
        seq![]
    } else {
        let prev = without_stateless_terminals(ws.drop_last(), tcfg);
        if is_stateless_terminal(ws.last(), tcfg) {
            prev
        } else {
            prev.push(ws.last())
        }
    }
}

/// Restore-time preparation: sort by workspace index, drop stateless
/// terminals, cap at `max`.
pub open spec fn spec_prepared(ws: Seq<SavedWindowView>, max: usize, tcfg: TerminalStateConfig) -> Seq<
    SavedWindowView,
> {
    let kept = without_stateless_terminals(sorted_by_idx(ws), tcfg);
    if kept.len() > max {
        kept.take(max as int)
    } else {
        kept
    }
}

fn key_of(w: &SavedWindow) -> (k: u8)
    ensures
        k == idx_key(w@),
{
    match w.workspace.idx {
        Some(i) => i,
        None => 0,
    }
}

proof fn lemma_with_key_keys(ws: Seq<SavedWindowView>, k: int)
    ensures
        forall|i: int| 0 <= i < with_key(ws, k).len() ==> idx_key(#[trigger] with_key(ws, k)[i]) == k,
    decreases ws.len(),
{
    if ws.len() > 0 {
        lemma_with_key_keys(ws.drop_last(), k);
        let prev = with_key(ws.drop_last(), k);
        assert forall|i: int| 0 <= i < with_key(ws, k).len() implies idx_key(
            #[trigger] with_key(ws, k)[i],
        ) == k by {
            if i < prev.len() {
                assert(with_key(ws, k)[i] == prev[i]);
            }
        }
    }
}

/// Whether the keys of `ws` never decrease.
pub open spec fn keys_sorted(ws: Seq<SavedWindowView>) -> bool {
    forall|i: int, j: int| 0 <= i < j < ws.len() ==> idx_key(#[trigger] ws[i]) <= idx_key(#[trigger] ws[j])
}

proof fn lemma_by_key_below_keys(ws: Seq<SavedWindowView>, k: int)
    ensures
        forall|i: int|
            0 <= i < by_key_below(ws, k).len() ==> idx_key(#[trigger] by_key_below(ws, k)[i]) < k,
        keys_sorted(by_key_below(ws, k)),
    decreases k,
{
    if k > 0 {
        lemma_by_key_below_keys(ws, k - 1);
        lemma_with_key_keys(ws, k - 1);
        let a = by_key_below(ws, k - 1);
        let b = with_key(ws, k - 1);
        assert forall|i: int| 0 <= i < (a + b).len() implies idx_key(#[trigger] (a + b)[i]) < k by {
            if i >= a.len() {
                assert((a + b)[i] == b[i - a.len()]);
            }
        }
        assert forall|i: int, j: int|
            0 <= i < j < (a + b).len() implies idx_key(#[trigger] (a + b)[i]) <= idx_key(
            #[trigger] (a + b)[j],
        ) by {
            if j < a.len() {
                assert((a + b)[i] == a[i] && (a + b)[j] == a[j]);
            } else if i >= a.len() {
                assert((a + b)[i] == b[i - a.len()]);
                assert((a + b)[j] == b[j - a.len()]);
            } else {
                assert((a + b)[i] == a[i]);
                assert((a + b)[j] == b[j - a.len()]);
            }
        }
    }
}

proof fn lemma_filter_keeps_order(ws: Seq<SavedWindowView>, tcfg: TerminalStateConfig)
    requires
        keys_sorted(ws),
    ensures
        keys_sorted(without_stateless_terminals(ws, tcfg)),
        forall|i: int|
            0 <= i < without_stateless_terminals(ws, tcfg).len() ==> !is_stateless_terminal(
                #[trigger] without_stateless_terminals(ws, tcfg)[i],
                tcfg,
            ),
        forall|i: int|
            0 <= i < without_stateless_terminals(ws, tcfg).len() ==> idx_key(
                #[trigger] without_stateless_terminals(ws, tcfg)[i],
            ) <= idx_key(ws.last()),
    decreases ws.len(),
{
    if ws.len() > 0 {
        let init = ws.drop_last();
        assert forall|i: int, j: int| 0 <= i < j < init.len() implies idx_key(#[trigger] init[i])
            <= idx_key(#[trigger] init[j]) by {
            assert(init[i] == ws[i] && init[j] == ws[j]);
        }
        lemma_filter_keeps_order(init, tcfg);
        if init.len() > 0 {
            assert(idx_key(init.last()) <= idx_key(ws.last())) by {
                assert(init.last() == ws[ws.len() - 2]);
            }
        }
    }
}

/// Applies the restore-time filters and caps: windows stably sorted by
/// workspace index, terminal windows without captured state dropped (they
/// would only spawn empty shells), at most `max_restore_windows` kept.
pub fn prepare_saved_windows(windows: Vec<SavedWindow>, config: &Config, terminal_cfg: &TerminalStateConfig) -> (r:
    Vec<SavedWindow>)
    ensures
        window_views(r@) == spec_prepared(
            window_views(windows@),
            config.max_restore_windows,
            *terminal_cfg,
        ),
        r.len() <= config.max_restore_windows,
        keys_sorted(window_views(r@)),
        forall|i: int| 0 <= i < r.len() ==> !is_stateless_terminal(#[trigger] r@[i]@, *terminal_cfg),
{
    let ghost ws = window_views(windows@);
    let mut sorted: Vec<SavedWindow> = Vec::new();
    let mut k: u32 = 0;
    while k < 256
        invariant
            k <= 256,
            ws == window_views(windows@),
            window_views(sorted@) == by_key_below(ws, k as int),
        decreases 256 - k,
    {
        let mut i: usize = 0;
        while i < windows.len()
            invariant
                i <= windows.len(),
                ws == window_views(windows@),
                k < 256,
                window_views(sorted@) == by_key_below(ws, k as int) + with_key(ws.take(i as int), k as int),
            decreases windows.len() - i,
        {
            assert(ws.take(i + 1).drop_last() == ws.take(i as int));
            let ghost before = sorted@;
            if key_of(&windows[i]) as u32 == k {
                sorted.push(windows[i].duplicate());
                assert(window_views(sorted@) =~= window_views(before).push(ws[i as int]));
            }
            i = i + 1;
        }
        assert(ws.take(windows.len() as int) == ws);
        k = k + 1;
    }
    let ghost sv = by_key_below(ws, 256);
    let mut kept: Vec<SavedWindow> = Vec::new();
    let mut i: usize = 0;
    while i < sorted.len()
        invariant
            i <= sorted.len(),
            window_views(sorted@) == sv,
            window_views(kept@) == without_stateless_terminals(sv.take(i as int), *terminal_cfg),
        decreases sorted.len() - i,
    {
        assert(sv.take(i + 1).drop_last() == sv.take(i as int));
        let w = &sorted[i];
        assert(w@ == sv[i as int]);
        let stateless = terminal_cfg.enabled && contains_str(&terminal_cfg.terminal_app_ids, w.app_id.as_str())
            && w.terminal_state.is_none();
        if !stateless {
            let ghost before = kept@;
            kept.push(w.duplicate());
            assert(window_views(kept@) =~= window_views(before).push(sv[i as int]));
        }
        i = i + 1;
    }
    assert(sv.take(sorted.len() as int) == sv);
    proof {
        lemma_by_key_below_keys(ws, 256);
        lemma_filter_keeps_order(sv, *terminal_cfg);
    }
    let ghost full = window_views(kept@);
    if kept.len() > config.max_restore_windows {
        kept.truncate(config.max_restore_windows);
        assert(window_views(kept@) =~= full.take(config.max_restore_windows as int));
    }
    assert forall|i: int| 0 <= i < kept.len() implies !is_stateless_terminal(#[trigger] kept@[i]@, *terminal_cfg) by {
        assert(kept@[i]@ == full[i]);
    }
    assert forall|i: int, j: int| 0 <= i < j < window_views(kept@).len() implies idx_key(#[trigger] window_views(kept@)[i]) <= idx_key(#[trigger] window_views(kept@)[j]) by {
        assert(window_views(kept@)[i] == full[i]);
        assert(window_views(kept@)[j] == full[j]);
    }
    kept
}


/// Whether restore keeps a saved window: it has captured terminal state,
/// or terminal handling is off, or its app is not a configured terminal.
pub open spec fn restorable(w: SavedWindowView, tcfg: TerminalStateConfig) -> bool {
    w.terminal_state is Some || !tcfg.enabled || !listed(tcfg.terminal_app_ids@, w.app_id@)
}

/// `restorable` as a predicate on windows.
pub open spec fn restorable_pred(tcfg: TerminalStateConfig) -> spec_fn(SavedWindowView) -> bool {
    |w: SavedWindowView| restorable(w, tcfg)
}

proof fn lemma_with_key_counts(ws: Seq<SavedWindowView>, k: int, v: SavedWindowView)
    ensures
        with_key(ws, k).to_multiset().count(v) == if idx_key(v) == k {
            ws.to_multiset().count(v)
        } else {
            0
        },
    decreases ws.len(),
{
    broadcast use vstd::seq_lib::to_multiset_build, vstd::multiset::group_multiset_axioms;

    if ws.len() == 0 {
        assert(with_key(ws, k) =~= Seq::<SavedWindowView>::empty());
        vstd::seq_lib::to_multiset_len(ws);
        vstd::multiset::lemma_multiset_empty_len(ws.to_multiset());
        vstd::seq_lib::to_multiset_len(with_key(ws, k));
        vstd::multiset::lemma_multiset_empty_len(with_key(ws, k).to_multiset());
    } else {
        lemma_with_key_counts(ws.drop_last(), k, v);
        assert(ws == ws.drop_last().push(ws.last()));
    }
}

proof fn lemma_by_key_below_counts(ws: Seq<SavedWindowView>, k: int, v: SavedWindowView)
    ensures
        by_key_below(ws, k).to_multiset().count(v) == if 0 <= idx_key(v) < k {
            ws.to_multiset().count(v)
        } else {
            0
        },
    decreases k,
{
    broadcast use vstd::seq_lib::lemma_multiset_commutative, vstd::multiset::group_multiset_axioms;

    if k <= 0 {
        vstd::seq_lib::to_multiset_len(by_key_below(ws, k));
        vstd::multiset::lemma_multiset_empty_len(by_key_below(ws, k).to_multiset());
    } else {
        lemma_by_key_below_counts(ws, k - 1, v);
        lemma_with_key_counts(ws, k - 1, v);
    }
}

proof fn lemma_filter_counts(s: Seq<SavedWindowView>, tcfg: TerminalStateConfig, v: SavedWindowView)
    ensures
        s.filter(restorable_pred(tcfg)).to_multiset().count(v) == if restorable(v, tcfg) {
            s.to_multiset().count(v)
        } else {
            0
        },
    decreases s.len(),
{
    broadcast use vstd::seq_lib::to_multiset_build, vstd::multiset::group_multiset_axioms;

    reveal(Seq::filter);
    if s.len() == 0 {
        vstd::seq_lib::to_multiset_len(s);
        vstd::multiset::lemma_multiset_empty_len(s.to_multiset());
        assert(s.filter(restorable_pred(tcfg)) == s);
    } else {
        lemma_filter_counts(s.drop_last(), tcfg, v);
        assert(s == s.drop_last().push(s.last()));
    }
}

proof fn lemma_without_is_filter(s: Seq<SavedWindowView>, tcfg: TerminalStateConfig)
    ensures
        without_stateless_terminals(s, tcfg) == s.filter(restorable_pred(tcfg)),
    decreases s.len(),
{
    reveal(Seq::filter);
    if s.len() > 0 {
        lemma_without_is_filter(s.drop_last(), tcfg);
    }
}

/// Restore preparation drops exactly the configured terminal windows
/// without captured state and caps the rest at `max`, lowest workspace
/// index first: every window it returns is restorable, in workspace-index
/// order; it returns as many as there are restorable windows, up to `max`;
/// under the cap it returns every restorable input window, each as often
/// as the input holds it; over the cap what it returns is drawn from the
/// restorable input windows, and any one left out has a workspace index
/// no lower than every one returned.
pub proof fn law_prepare_keeps_every_restorable_window(
    ws: Seq<SavedWindowView>,
    max: usize,
    tcfg: TerminalStateConfig,
)
    ensures
        ({
            let r = spec_prepared(ws, max, tcfg);
            let keep = ws.filter(restorable_pred(tcfg));
            &&& r.len() == if keep.len() <= max {
                keep.len()
            } else {
                max as nat
            }
            &&& forall|i: int| 0 <= i < r.len() ==> restorable(#[trigger] r[i], tcfg)
            &&& keys_sorted(r)
            &&& keep.len() <= max ==> r.to_multiset() == keep.to_multiset()
            &&& r.to_multiset().subset_of(keep.to_multiset())
            &&& forall|v: SavedWindowView, i: int|
                #![trigger r.to_multiset().count(v), r[i]]
                0 <= i < r.len() && r.to_multiset().count(v) < keep.to_multiset().count(v)
                    ==> idx_key(r[i]) <= idx_key(v)
        }),
{
    broadcast use vstd::seq_lib::to_multiset_len, vstd::seq_lib::lemma_multiset_commutative,
        vstd::seq_lib::to_multiset_contains, vstd::multiset::group_multiset_axioms;

    let r = spec_prepared(ws, max, tcfg);
    let keep = ws.filter(restorable_pred(tcfg));
    let sorted = sorted_by_idx(ws);
    let kept = without_stateless_terminals(sorted, tcfg);
    lemma_without_is_filter(sorted, tcfg);
    assert(kept.to_multiset() =~= keep.to_multiset()) by {
        assert forall|v: SavedWindowView| kept.to_multiset().count(v) == keep.to_multiset().count(v) by {
            lemma_filter_counts(sorted, tcfg, v);
            lemma_filter_counts(ws, tcfg, v);
            lemma_by_key_below_counts(ws, 256, v);
            assert(0 <= idx_key(v) < 256);
        }
    }
    assert(kept.len() == keep.len()) by {
        assert(kept.len() == kept.to_multiset().len());
        assert(keep.len() == keep.to_multiset().len());
    }
    lemma_by_key_below_keys(ws, 256);
    lemma_filter_keeps_order(sorted, tcfg);
    assert(kept == kept.take(r.len() as int) + kept.skip(r.len() as int));
    assert(r == kept.take(r.len() as int));
    assert forall|i: int| 0 <= i < r.len() implies restorable(#[trigger] r[i], tcfg) by {
        assert(r[i] == kept[i]);
    }
    assert forall|i: int, j: int| 0 <= i < j < r.len() implies idx_key(#[trigger] r[i]) <= idx_key(
        #[trigger] r[j],
    ) by {
        assert(r[i] == kept[i] && r[j] == kept[j]);
    }
    let rest = kept.skip(r.len() as int);
    assert(kept.to_multiset() =~= r.to_multiset().add(rest.to_multiset()));
    assert forall|v: SavedWindowView, i: int|
        #![trigger r.to_multiset().count(v), r[i]]
        0 <= i < r.len() && r.to_multiset().count(v) < keep.to_multiset().count(v) implies idx_key(
        r[i],
    ) <= idx_key(v) by {
        assert(rest.to_multiset().count(v) > 0);
        assert(rest.contains(v));
        let j = choose|j: int| 0 <= j < rest.len() && rest[j] == v;
        assert(rest[j] == kept[r.len() + j]);
        assert(r[i] == kept[i]);
    }
}

/// More saved windows of one app than this is reported as suspicious (a
/// single-instance save leak, or a poisoned session).
pub const SAME_APP_RESTORE_WARN_THRESHOLD: usize = 10;

/// Whether `ks[i]` is the first window of its app in `ks`.
pub open spec fn first_of_app(ks: Seq<SavedWindowView>, i: int) -> bool {
    forall|j: int| 0 <= j < i ==> ks[j].app_id@ != ks[i].app_id@
}

/// The apps among the first `k` of `ks` (by first window) with more than
/// `SAME_APP_RESTORE_WARN_THRESHOLD` windows in all of `ks`, with their
/// counts.
pub open spec fn crowded_apps(ks: Seq<SavedWindowView>, k: int) -> Seq<(Seq<char>, nat)>
    decreases k,
{
    if k <= 0 || k > ks.len() {
        seq![]
    } else {
        let prev = crowded_apps(ks, k - 1);
        let a = ks[k - 1].app_id@;
        if first_of_app(ks, k - 1) && app_count(ks, a) > SAME_APP_RESTORE_WARN_THRESHOLD {
            prev.push((a, app_count(ks, a)))
        } else {
            prev
        }
    }
}

/// What restore preparation reports: how many terminal windows without
/// captured state it drops, how many windows it keeps before the cap,
/// whether the cap cuts them, and the apps with suspiciously many windows.
#[derive(Debug)]
pub struct PreparationNotes {
    pub dropped_terminals: usize,
    pub kept: usize,
    pub capped: bool,
    pub crowded_apps: Vec<(String, usize)>,
}

/// The warnings of restore preparation (see `prepare_saved_windows`) for
/// `windows` and the cap `max_restore_windows`.
pub fn preparation_notes(windows: &Vec<SavedWindow>, max_restore_windows: usize, terminal_cfg: &TerminalStateConfig) -> (r:
    PreparationNotes)
    ensures
        ({
            let ks = without_stateless_terminals(window_views(windows@), *terminal_cfg);
            let ca = crowded_apps(ks, ks.len() as int);
            &&& r.kept == ks.len()
            &&& r.dropped_terminals == windows.len() - ks.len()
            &&& r.capped == (ks.len() > max_restore_windows)
            &&& r.crowded_apps.len() == ca.len()
            &&& forall|i: int|
                0 <= i < ca.len() ==> (#[trigger] r.crowded_apps@[i]).0@ == ca[i].0
                    && r.crowded_apps@[i].1 == ca[i].1
        }),
{
    let ghost wv = window_views(windows@);
    let mut kept: Vec<SavedWindow> = Vec::new();
    let mut i: usize = 0;
    while i < windows.len()
        invariant
            i <= windows.len(),
            wv == window_views(windows@),
            window_views(kept@) == without_stateless_terminals(wv.take(i as int), *terminal_cfg),
            kept.len() <= i,
        decreases windows.len() - i,
    {
        assert(wv.take(i + 1).drop_last() == wv.take(i as int));
        let w = &windows[i];
        assert(w@ == wv[i as int]);
        let stateless = terminal_cfg.enabled && contains_str(&terminal_cfg.terminal_app_ids, w.app_id.as_str())
            && w.terminal_state.is_none();
        if !stateless {
            let ghost before = kept@;
            kept.push(w.duplicate());
            assert(window_views(kept@) =~= window_views(before).push(wv[i as int]));
        }
        i = i + 1;
    }
    assert(wv.take(windows.len() as int) == wv);
    let ghost ks = window_views(kept@);
    let mut crowded: Vec<(String, usize)> = Vec::new();
    let mut k: usize = 0;
    while k < kept.len()
        invariant
            k <= kept.len(),
            ks == window_views(kept@),
            crowded.len() == crowded_apps(ks, k as int).len(),
            forall|t: int|
                0 <= t < crowded.len() ==> (#[trigger] crowded@[t]).0@ == crowded_apps(ks, k as int)[t].0
                    && crowded@[t].1 == crowded_apps(ks, k as int)[t].1,
        decreases kept.len() - k,
    {
        let a = kept[k].app_id.as_str();
        assert(ks[k as int].app_id@ == a@);
        let mut first = true;
        let mut j: usize = 0;
        while j < k
            invariant
                j <= k < kept.len(),
                ks == window_views(kept@),
                ks[k as int].app_id@ == a@,
                first == (forall|t: int| 0 <= t < j ==> ks[t].app_id@ != a@),
            decreases k - j,
        {
            assert(ks[j as int].app_id@ == kept@[j as int].app_id@);
            if str_eq(kept[j].app_id.as_str(), a) {
                first = false;
            }
            j = j + 1;
        }
        let n = count_app(&kept, a);
        if first && n > SAME_APP_RESTORE_WARN_THRESHOLD {
            crowded.push((kept[k].app_id.clone(), n));
        }
        k = k + 1;
    }
    let kept_len = kept.len();
    PreparationNotes {
        dropped_terminals: windows.len() - kept_len,
        kept: kept_len,
        capped: kept_len > max_restore_windows,
        crowded_apps: crowded,
    }
}

/// Index of the first workspace whose id is `id`.
pub open spec fn workspace_index_of(workspaces: Seq<NiriWorkspace>, id: Option<u64>) -> Option<int> {
    match id {
        Some(i) => first_ws_from(workspaces, |w: NiriWorkspace| w.id == i, 0),
        None => None,
    }
}

/// The first workspace whose id is `id`.
pub fn find_workspace(workspaces: &Vec<NiriWorkspace>, id: Option<u64>) -> (r: Option<usize>)
    ensures
        match workspace_index_of(workspaces@, id) {
            Some(k) => r == Some(k as usize) && 0 <= k < workspaces.len(),
            None => r is None,
        },
{
    match id {
        None => None,
        Some(i) => {
            let ghost p = |w: NiriWorkspace| w.id == i;
            let mut found: Option<usize> = None;
            let mut k: usize = 0;
            while k < workspaces.len() && found.is_none()
                invariant
                    k <= workspaces.len(),
                    p == (|w: NiriWorkspace| w.id == i),
                    found is None ==> first_ws_from(workspaces@, p, 0) == first_ws_from(workspaces@, p, k as int),
                    found matches Some(q) ==> first_ws_from(workspaces@, p, 0) == Some(q as int) && q < workspaces.len(),
                decreases workspaces.len() - k,
            {
                if workspaces[k].id == i {
                    found = Some(k);
                }
                k = k + 1;
            }
            found
        },
    }
}

/// The running window a niri window stands for, joined with its workspace.
pub open spec fn spec_running_window(w: NiriWindow, workspaces: Seq<NiriWorkspace>) -> RunningWindow {
    match workspace_index_of(workspaces, w.workspace_id) {
        Some(k) => RunningWindow {
            id: w.id,
            app_id: w.app_id,
            workspace_name: workspaces[k].name,
            workspace_idx: Some(workspaces[k].idx),
        },
        None => RunningWindow { id: w.id, app_id: w.app_id, workspace_name: None, workspace_idx: None },
    }
}

/// Joins niri's windows with their workspaces, in window order.
pub fn join_running_windows(windows: &Vec<NiriWindow>, workspaces: &Vec<NiriWorkspace>) -> (r: Vec<
    RunningWindow,
>)
    ensures
        r.len() == windows.len(),
        forall|i: int| 0 <= i < r.len() ==> #[trigger] r@[i] == spec_running_window(windows@[i], workspaces@),
{
    let mut r: Vec<RunningWindow> = Vec::new();
    let mut i: usize = 0;
    while i < windows.len()
        invariant
            i <= windows.len(),
            r.len() == i,
            forall|m: int| 0 <= m < i ==> #[trigger] r@[m] == spec_running_window(windows@[m], workspaces@),
        decreases windows.len() - i,
    {
        let w = &windows[i];
        let rw = match find_workspace(workspaces, w.workspace_id) {
            Some(k) => RunningWindow {
                id: w.id,
                app_id: dup_opt_string(&w.app_id),
                workspace_name: dup_opt_string(&workspaces[k].name),
                workspace_idx: Some(workspaces[k].idx),
            },
            None => RunningWindow {
                id: w.id,
                app_id: dup_opt_string(&w.app_id),
                workspace_name: None,
                workspace_idx: None,
            },
        };
        r.push(rw);
        i = i + 1;
    }
    r
}

/// Index of the first window, from `j` on, of app `a` whose id is not in `claimed`.
pub open spec fn first_unclaimed_from(windows: Seq<NiriWindow>, a: Seq<char>, claimed: Set<u64>, j: int) -> Option<int>
    decreases windows.len() - j,
{
    if j < 0 || j >= windows.len() {
        None
    } else if opt_is(windows[j].app_id, a) && !claimed.contains(windows[j].id) {
        Some(j)
    } else {
        first_unclaimed_from(windows, a, claimed, j + 1)
    }
}

/// Claims the first window of app `app_id` that no other spawn has claimed:
/// its id is added to `claimed` and returned.
pub fn claim_new_window(windows: &Vec<NiriWindow>, app_id: &str, claimed: &mut Vec<u64>) -> (r: Option<u64>)
    ensures
        match first_unclaimed_from(windows@, app_id@, old(claimed)@.to_set(), 0) {
            Some(k) => r == Some(windows@[k].id) && final(claimed)@ == old(claimed)@.push(windows@[k].id),
            None => r is None && final(claimed)@ == old(claimed)@,
        },
{
    let ghost set0 = claimed@.to_set();
    let mut k: usize = 0;
    while k < windows.len()
        invariant
            k <= windows.len(),
            claimed@ == old(claimed)@,
            set0 == old(claimed)@.to_set(),
            first_unclaimed_from(windows@, app_id@, set0, 0) == first_unclaimed_from(windows@, app_id@, set0, k as int),
        decreases windows.len() - k,
    {
        let w = &windows[k];
        let of_app = match &w.app_id {
            Some(x) => str_eq(x.as_str(), app_id),
            None => false,
        };
        if of_app && !vec_contains_u64(claimed, w.id) {
            assert(!set0.contains(w.id));
            claimed.push(w.id);
            return Some(w.id);
        }
        proof {
            if of_app {
                assert(claimed@.contains(w.id));
                assert(set0.contains(w.id));
            }
        }
        k = k + 1;
    }
    None
}

/// What a restore pass decided to do.
#[derive(Debug, Clone, Copy, PartialEq, Eq, Structural)]
pub enum RestoreOutcome {
    /// No usable session data existed; a fresh session was seeded from the
    /// current state (in dry-run mode nothing was written).
    SeededNewSession,
    /// The session held no restorable windows.
    NothingToRestore,
    /// Dry run: nothing was spawned or written.
    WouldRestore { window_count: usize },
    /// Restore ran; the count is how many spawned windows were confirmed.
    Restored { spawned: usize },
}

/// The human-readable line for an outcome.
pub open spec fn outcome_text(o: RestoreOutcome) -> Seq<char> {
    match o {
        RestoreOutcome::SeededNewSession => "Seeded a new session file from the current state"@,
        RestoreOutcome::NothingToRestore => "Session file held nothing to restore"@,
        RestoreOutcome::WouldRestore { window_count } => "DRY RUN: would restore "@ + decimal(
            window_count as nat,
        ) + " window(s)"@,
        RestoreOutcome::Restored { spawned } => "Restored "@ + decimal(spawned as nat) + " window(s)"@,
    }
}

impl RestoreOutcome {
    /// The human-readable line for this outcome.
    pub fn message(&self) -> (s: String)
        ensures
            s@ == outcome_text(*self),
    {
        match self {
            RestoreOutcome::SeededNewSession => String::from_str(
                "Seeded a new session file from the current state",
            ),
            RestoreOutcome::NothingToRestore => String::from_str("Session file held nothing to restore"),
            RestoreOutcome::WouldRestore { window_count } => {
                let mut s = String::from_str("DRY RUN: would restore ");
                push_decimal(&mut s, *window_count as u64);
                push_str(&mut s, " window(s)");
                s
            },
            RestoreOutcome::Restored { spawned } => {
                let mut s = String::from_str("Restored ");
                push_decimal(&mut s, *spawned as u64);
                push_str(&mut s, " window(s)");
                s
            },
        }
    }
}

/// What a restore does with the session it loaded.
#[derive(Debug)]
pub enum RestoreDecision {
    /// No usable session: seed a new session file from the current state
    /// (`write_session` is false in dry-run mode), outcome `SeededNewSession`.
    SeedNewSession { write_session: bool },
    /// Nothing to do; the restore ends with this outcome.
    Finished(RestoreOutcome),
    /// Dry run: report these windows, outcome `WouldRestore`.
    Preview(Vec<SavedWindow>),
    /// Match these windows against the running ones and spawn the rest.
    Restore(Vec<SavedWindow>),
}

/// Decides the course of a restore from what was loaded: no session seeds a
/// new one; after preparation, no windows means nothing to restore; a dry
/// run previews; otherwise the prepared windows are restored.
pub fn decide_restore(loaded: Option<Vec<SavedWindow>>, config: &Config, app_config: &AppConfig) -> (d:
    RestoreDecision)
    ensures
        match loaded {
            None => d == RestoreDecision::SeedNewSession { write_session: !config.dry_run },
            Some(ws) => {
                let p = spec_prepared(window_views(ws@), config.max_restore_windows, app_config.terminal_state);
                if p.len() == 0 {
                    d == RestoreDecision::Finished(RestoreOutcome::NothingToRestore)
                } else if config.dry_run {
                    d matches RestoreDecision::Preview(v) && window_views(v@) == p
                } else {
                    d matches RestoreDecision::Restore(v) && window_views(v@) == p
                }
            },
        },
{
    match loaded {
        None => RestoreDecision::SeedNewSession { write_session: !config.dry_run },
        Some(ws) => {
            let prepared = prepare_saved_windows(ws, config, &app_config.terminal_state);
            if prepared.len() == 0 {
                RestoreDecision::Finished(RestoreOutcome::NothingToRestore)
            } else if config.dry_run {
                RestoreDecision::Preview(prepared)
            } else {
                RestoreDecision::Restore(prepared)
            }
        },
    }
}

/// The outcome of a restore once planning chose `to_spawn` windows and
/// `confirmed` of them appeared.
pub fn restored_outcome(confirmed: usize) -> (o: RestoreOutcome)
    ensures
        o == (RestoreOutcome::Restored { spawned: confirmed }),
{
    RestoreOutcome::Restored { spawned: confirmed }
}

/// Whether the boot restore runs, and whether the restore marker is pruned.
#[derive(Debug, Clone, Copy, PartialEq, Eq, Structural)]
pub enum BootGate {
    /// This boot was already restored and its session file exists.
    Skip,
    /// Restore; `prune_marker` asks to delete a marker that is stale (from
    /// another boot, or from this boot with its session file gone).
    Restore { prune_marker: bool },
}

/// The boot gate: without a boot id a restore always runs (nothing can
/// prove it already happened) and the marker is left alone; an unreadable
/// marker restores; a marker holding this boot's id (after trimming) skips
/// while the session file exists, else it is pruned and the restore runs; a
/// marker of another boot is pruned and the restore runs.
pub open spec fn spec_boot_gate(boot_id: Option<Seq<char>>, marker: Option<Seq<char>>, session_exists: bool) -> BootGate {
    match boot_id {
        None => BootGate::Restore { prune_marker: false },
        Some(id) => match marker {
            None => BootGate::Restore { prune_marker: false },
            Some(m) => if spec_trim(m) == id {
                if session_exists {
                    BootGate::Skip
                } else {
                    BootGate::Restore { prune_marker: true }
                }
            } else {
                BootGate::Restore { prune_marker: true }
            },
        },
    }
}

/// Decides whether the boot restore runs (see `spec_boot_gate`): `marker`
/// holds the marker file's contents, `None` when it could not be read.
pub fn boot_gate(boot_id: Option<&str>, marker: Option<&str>, session_exists: bool) -> (g: BootGate)
    ensures
        g == spec_boot_gate(
            match boot_id {
                Some(b) => Some(b@),
                None => None,
            },
            match marker {
                Some(m) => Some(m@),
                None => None,
            },
            session_exists,
        ),
{
    match boot_id {
        None => BootGate::Restore { prune_marker: false },
        Some(id) => match marker {
            None => BootGate::Restore { prune_marker: false },
            Some(m) => {
                let t = trim(m);
                if str_eq(t.as_str(), id) {
                    if session_exists {
                        BootGate::Skip
                    } else {
                        BootGate::Restore { prune_marker: true }
                    }
                } else {
                    BootGate::Restore { prune_marker: true }
                }
            },
        },
    }
}

/// One restore per boot: once a boot restore has written this boot's id
/// (as read from the boot-id file) to the marker, every later gate in the
/// same boot skips while the session file exists, and prunes the marker
/// and restores once the session file is gone.
pub proof fn law_boot_gate_skips_after_marker(boot_id_file: Seq<char>)
    requires
        spec_trim(boot_id_file).len() > 0,
    ensures
        ({
            let id = spec_trim(boot_id_file);
            &&& spec_boot_gate(Some(id), Some(id), true) == BootGate::Skip
            &&& spec_boot_gate(Some(id), Some(id), false) == (BootGate::Restore { prune_marker: true })
        }),
{
    crate::text::lemma_trim_idempotent(boot_id_file);
}

/// `Path::parent` of a path given as text.
pub uninterp spec fn spec_path_parent(p: Seq<char>) -> Option<Seq<char>>;

/// `Path::join` of two paths given as text.
pub uninterp spec fn spec_path_join(base: Seq<char>, seg: Seq<char>) -> Seq<char>;

/// `std::path::Path::parent`: the path without its last component, `None`
/// for a root or empty path. The contract claims only that the result is
/// the named function `spec_path_parent` of the text; the component rules
/// are left unsaid.
#[verifier::external_body]
fn path_parent(p: &str) -> (r: Option<String>)
    ensures
        opt_view(r) == spec_path_parent(p@),
{
    match std::path::Path::new(p).parent() {
        Some(q) => Some(q.to_string_lossy().into_owned()),
        None => None,
    }
}

/// `std::path::Path::join`: `seg` appended to `base` with a separator (or
/// `seg` itself when absolute). The contract claims that the result is the
/// named function `spec_path_join` of the two texts and, for the documented
/// case of a relative segment pushed onto a non-empty base without a
/// trailing `/` (`/tmp` and `file.bk` give `/tmp/file.bk`), that it is the
/// base, `/` and the segment; the other cases (empty base, trailing or
/// repeated separators) are left unsaid.
#[verifier::external_body]
fn path_join(base: &str, seg: &str) -> (r: String)
    ensures
        r@ == spec_path_join(base@, seg@),
        base@.len() > 0 && base@.last() != '/' && seg@.len() > 0 && seg@[0] != '/' ==> r@ == base@
            + "/"@ + seg@,
{
    std::path::Path::new(base).join(seg).to_string_lossy().into_owned()
}

/// Where the boot-restore marker lives: `restore-marker` beside the
/// session file (in `.` when the session path has no parent).
pub fn get_restore_marker_path(session_file: &str) -> (r: String)
    ensures
        r@ == spec_path_join(
            match spec_path_parent(session_file@) {
                Some(d) => d,
                None => "."@,
            },
            "restore-marker"@,
        ),
        match spec_path_parent(session_file@) {
            Some(d) => d.len() > 0 && d.last() != '/' ==> r@ == d + "/restore-marker"@,
            None => true,
        },
{
    proof {
        reveal_strlit("restore-marker");
        reveal_strlit("/");
        reveal_strlit("/restore-marker");
        assert("/"@ + "restore-marker"@ =~= "/restore-marker"@);
    }
    let dir = match path_parent(session_file) {
        Some(d) => d,
        None => String::from_str("."),
    };
    path_join(dir.as_str(), "restore-marker")
}

/// The boot id from the contents of the kernel's boot-id file: trimmed,
/// `None` when unreadable or blank.
pub fn parse_boot_id(contents: Option<&str>) -> (r: Option<String>)
    ensures
        match contents {
            None => r is None,
            Some(c) => if spec_trim(c@).len() == 0 {
                r is None
            } else {
                r matches Some(s) && s@ == spec_trim(c@)
            },
        },
{
    match contents {
        None => None,
        Some(c) => {
            let t = trim(c);
            if t.as_str().is_empty() {
                None
            } else {
                Some(t)
            }
        },
    }
}

/// The marker to write after a boot restore that succeeded: this boot's id,
/// unless the restore was a dry run or the boot id is unknown.
pub fn marker_after_restore(dry_run: bool, boot_id: Option<&str>) -> (r: Option<String>)
    ensures
        dry_run ==> r is None,
        !dry_run ==> match boot_id {
            Some(b) => r matches Some(s) && s@ == b@,
            None => r is None,
        },
{
    if dry_run {
        None
    } else {
        match boot_id {
            Some(b) => Some(String::from_str(b)),
            None => None,
        }
    }
}

} // verus!
