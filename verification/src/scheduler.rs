//! The interval scheduler's decisions: which workflows declaring
//! `triggers.every_secs` fire on a tick.
//!
//! Due times are kept in memory and seeded lazily: the first tick that sees
//! a scheduled workflow only sets its due time, one interval ahead, so a
//! restart waits a full interval instead of firing every workflow at boot.
//! A workflow fires once its due time has come, and is then due one
//! interval after the tick. Workflows that disappear or stop being
//! scheduled are forgotten.

use std::collections::HashMap;

use vstd::prelude::*;

use crate::model::{Id, Workflow};

verus! {

broadcast use vstd::std_specs::hash::group_hash_axioms;

/// How often the scheduler looks at the workflows, in seconds.
pub const TICK_SECS: u64 = 2;

/// The interval of a workflow in milliseconds, when it has a positive
/// `every_secs`.
pub open spec fn interval_ms(w: Workflow) -> Option<nat> {
    match w.spec.triggers.every_secs {
        Some(e) => if e > 0 {
            Some((e * 1000) as nat)
        } else {
            None
        },
        None => None,
    }
}

/// One workflow seen on a tick at time `now`: the due times after it, and
/// whether it fires.
pub open spec fn tick_one(due: Map<Id, u128>, w: Workflow, now: u128) -> (Map<Id, u128>, bool) {
    match interval_ms(w) {
        None => (due, false),
        Some(iv) => if !due.contains_key(w.id) {
            (due.insert(w.id, (now + iv) as u128), false)
        } else if now >= due[w.id] {
            (due.insert(w.id, (now + iv) as u128), true)
        } else {
            (due, false)
        },
    }
}

/// The workflows `ws` seen in order on a tick at time `now`: the due times
/// after them, and the positions of those that fire, in order.
pub open spec fn tick_all(due: Map<Id, u128>, ws: Seq<Workflow>, now: u128) -> (Map<Id, u128>, Seq<int>)
    decreases ws.len(),
{
    if ws.len() == 0 {
        (due, Seq::empty())
    } else {
        let (d, f) = tick_all(due, ws.drop_last(), now);
        let (d2, fire) = tick_one(d, ws.last(), now);
        (d2, if fire {
            f.push(ws.len() - 1)
        } else {
            f
        })
    }
}

/// The ids of the scheduled workflows among `ws`.
pub open spec fn scheduled_ids(ws: Seq<Workflow>) -> Set<Id> {
    Set::new(|id: Id| exists|i: int| 0 <= i < ws.len() && ws[i].id == id && (#[trigger] interval_ms(ws[i])) is Some)
}

/// The scheduler's memory: when each scheduled workflow is next due, in
/// milliseconds on a monotonic clock.
pub struct Scheduler {
    due: HashMap<Id, u128>,
}

impl Scheduler {
    /// When each scheduled workflow is next due.
    pub closed spec fn due(&self) -> Map<Id, u128> {
        self.due@
    }

    /// A scheduler that has seen nothing yet.
    pub fn new() -> (s: Scheduler)
        ensures
            s.due() == Map::<Id, u128>::empty(),
    {
        Scheduler { due: HashMap::new() }
    }

    /// The due time of a workflow, if it is scheduled.
    pub fn due_at(&self, id: Id) -> (r: Option<u128>)
        ensures
            match r {
                Some(t) => self.due().contains_key(id) && self.due()[id] == t,
                None => !self.due().contains_key(id),
            },
    {
        match self.due.get(&id) {
            Some(t) => Some(*t),
            None => None,
        }
    }

    /// One tick at `now_ms`: the positions in `workflows` of those that
    /// fire, in order. The due times afterwards are those the workflows
    /// leave behind, kept only for the workflows still scheduled.
    pub fn tick(&mut self, workflows: &[Workflow], now_ms: u128) -> (fired: Vec<usize>)
        requires
            now_ms <= u64::MAX,
        ensures
            fired@.map_values(|i: usize| i as int) == tick_all(old(self).due(), workflows@, now_ms).1,
            final(self).due() == tick_all(old(self).due(), workflows@, now_ms).0.restrict(
                scheduled_ids(workflows@),
            ),
    {
        let ghost d0 = self.due@;
        let mut fired: Vec<usize> = Vec::new();
        let mut seen: Vec<Id> = Vec::new();
        let mut i: usize = 0;
        while i < workflows.len()
            invariant
                i <= workflows@.len(),
                now_ms <= u64::MAX,
                self.due@ == tick_all(d0, workflows@.subrange(0, i as int), now_ms).0,
                fired@.map_values(|j: usize| j as int) == tick_all(d0, workflows@.subrange(0, i as int), now_ms).1,
                seen@.to_set() == scheduled_ids(workflows@.subrange(0, i as int)),
                forall|q: int| 0 <= q < seen@.len() ==> self.due@.contains_key(#[trigger] seen@[q]),
            decreases workflows.len() - i,
        {
            let w = &workflows[i];
            let ghost pre = workflows@.subrange(0, i as int);
            let ghost pre1 = workflows@.subrange(0, i + 1);
            proof {
                assert(pre1.drop_last() =~= pre);
                assert(pre1.last() == workflows@[i as int]);
            }
            let ghost before_fired = fired@;
            let ghost before_seen = seen@;
            match w.spec.triggers.every_secs {
                Some(every) if every > 0 => {
                    seen.push(w.id);
                    let next = now_ms + (every as u128) * 1000;
                    let fire = match self.due.get(&w.id) {
                        None => {
                            self.due.insert(w.id, next);
                            false
                        },
                        Some(when) => {
                            if now_ms >= *when {
                                self.due.insert(w.id, next);
                                true
                            } else {
                                false
                            }
                        },
                    };
                    if fire {
                        fired.push(i);
                    }
                    proof {
                        assert(fired@.map_values(|j: usize| j as int) =~= tick_all(d0, pre1, now_ms).1);
                        assert(seen@.to_set() =~= scheduled_ids(pre1)) by {
                            assert forall|id: Id| seen@.to_set().contains(id) <==> scheduled_ids(pre1).contains(id) by {
                                if seen@.to_set().contains(id) {
                                    let q = choose|q: int| 0 <= q < seen@.len() && seen@[q] == id;
                                    if q < before_seen.len() {
                                        assert(before_seen.to_set().contains(id));
                                        let k = choose|k: int| 0 <= k < pre.len() && pre[k].id == id && (#[trigger] interval_ms(pre[k])) is Some;
                                        assert(pre1[k] == pre[k]);
                                    } else {
                                        assert(pre1[i as int].id == id && interval_ms(pre1[i as int]) is Some);
                                    }
                                }
                                if scheduled_ids(pre1).contains(id) {
                                    let k = choose|k: int| 0 <= k < pre1.len() && pre1[k].id == id && (#[trigger] interval_ms(pre1[k])) is Some;
                                    if k < i {
                                        assert(pre[k] == pre1[k]);
                                        assert(scheduled_ids(pre).contains(id));
                                        assert(before_seen.to_set().contains(id));
                                        let q = choose|q: int| 0 <= q < before_seen.len() && before_seen[q] == id;
                                        assert(seen@[q] == id);
                                    } else {
                                        assert(seen@[before_seen.len() as int] == id);
                                    }
                                }
                            }
                        }
                    }
                },
                _ => {
                    proof {
                        assert(interval_ms(*w) is None);
                        assert(fired@.map_values(|j: usize| j as int) =~= tick_all(d0, pre1, now_ms).1);
                        assert(seen@.to_set() =~= scheduled_ids(pre1)) by {
                            assert forall|id: Id| seen@.to_set().contains(id) <==> scheduled_ids(pre1).contains(id) by {
                                if seen@.to_set().contains(id) {
                                    let k = choose|k: int| 0 <= k < pre.len() && pre[k].id == id && (#[trigger] interval_ms(pre[k])) is Some;
                                    assert(pre1[k] == pre[k]);
                                }
                                if scheduled_ids(pre1).contains(id) {
                                    let k = choose|k: int| 0 <= k < pre1.len() && pre1[k].id == id && (#[trigger] interval_ms(pre1[k])) is Some;
                                    assert(k < i);
                                    assert(pre[k] == pre1[k]);
                                    assert(scheduled_ids(pre).contains(id));
                                }
                            }
                        }
                    }
                },
            }
            i = i + 1;
        }
        proof {
            assert(workflows@.subrange(0, workflows@.len() as int) =~= workflows@);
        }
        // Forget workflows that are gone or no longer scheduled.
        let ghost full = self.due@;
        let mut kept: HashMap<Id, u128> = HashMap::new();
        let mut q: usize = 0;
        let ghost sv = seen@;
        while q < seen.len()
            invariant
                q <= seen@.len(),
                self.due@ == full,
                forall|r: int| 0 <= r < seen@.len() ==> full.contains_key(#[trigger] seen@[r]),
                sv == seen@,
                kept@ == full.restrict(seen@.subrange(0, q as int).to_set()),
            decreases seen.len() - q,
        {
            let id = seen[q];
            match self.due.get(&id) {
                Some(t) => {
                    kept.insert(id, *t);
                },
                None => {},
            }
            proof {
                let a = sv.subrange(0, q + 1);
                let b = sv.subrange(0, q as int);
                assert(a.to_set() =~= b.to_set().insert(id)) by {
                    assert forall|x: Id| a.to_set().contains(x) <==> b.to_set().insert(id).contains(x) by {
                        if a.to_set().contains(x) {
                            let w = choose|w: int| 0 <= w < a.len() && #[trigger] a[w] == x;
                            if w < q {
                                assert(b[w] == x);
                            }
                        }
                        if b.to_set().contains(x) {
                            let w = choose|w: int| 0 <= w < b.len() && #[trigger] b[w] == x;
                            assert(a[w] == x);
                        }
                        if x == id {
                            assert(a[q as int] == x);
                        }
                    }
                }
                assert(kept@ =~= full.restrict(seen@.subrange(0, q + 1).to_set()));
            }
            q = q + 1;
        }
        proof {
            assert(seen@.subrange(0, seen@.len() as int) =~= seen@);
        }
        self.due = kept;
        fired
    }
}


/// No two workflows share an id.
pub open spec fn distinct_ids(ws: Seq<Workflow>) -> bool {
    forall|a: int, b: int| 0 <= a < b < ws.len() ==> ws[a].id != ws[b].id
}

proof fn lemma_tick_all_frame(due: Map<Id, u128>, ws: Seq<Workflow>, now: u128, id: Id)
    requires
        forall|k: int| 0 <= k < ws.len() ==> (#[trigger] ws[k]).id != id,
    ensures
        tick_all(due, ws, now).0.contains_key(id) == due.contains_key(id),
        due.contains_key(id) ==> tick_all(due, ws, now).0[id] == due[id],
    decreases ws.len(),
{
    if ws.len() > 0 {
        let p = ws.drop_last();
        assert forall|k: int| 0 <= k < p.len() implies (#[trigger] p[k]).id != id by {
            assert(p[k] == ws[k]);
        }
        lemma_tick_all_frame(due, p, now, id);
        assert(ws.last() == ws[ws.len() - 1]);
    }
}

proof fn lemma_tick_all_positions(due: Map<Id, u128>, ws: Seq<Workflow>, now: u128)
    ensures
        forall|q: int| 0 <= q < tick_all(due, ws, now).1.len() ==> 0 <= #[trigger] tick_all(due, ws, now).1[q] < ws.len(),
    decreases ws.len(),
{
    if ws.len() > 0 {
        let p = ws.drop_last();
        lemma_tick_all_positions(due, p, now);
        let (d, f) = tick_all(due, p, now);
        let (d2, fire) = tick_one(d, ws.last(), now);
        assert(tick_all(due, ws, now).1 == if fire { f.push(ws.len() - 1) } else { f });
        assert forall|q: int| 0 <= q < tick_all(due, ws, now).1.len() implies 0 <= #[trigger] tick_all(due, ws, now).1[q] < ws.len() by {
            if q < f.len() {
                assert(tick_all(due, ws, now).1[q] == f[q]);
            }
        }
    }
}

/// The rule of a tick, for workflows with distinct ids: a workflow fires
/// exactly when it is scheduled, its due time was already set, and that
/// time has come — so a workflow seen for the first time never fires.
/// Afterwards a scheduled workflow that fired or was new is due one
/// interval after the tick, and one whose time has not come keeps its due
/// time.
pub proof fn lemma_tick_rule(due: Map<Id, u128>, ws: Seq<Workflow>, now: u128, j: int)
    requires
        distinct_ids(ws),
        0 <= j < ws.len(),
    ensures
        tick_all(due, ws, now).1.contains(j) <==> (interval_ms(ws[j]) is Some && due.contains_key(ws[j].id)
            && now >= due[ws[j].id]),
        interval_ms(ws[j]) matches Some(iv) ==> ({
            let after = tick_all(due, ws, now).0;
            &&& after.contains_key(ws[j].id)
            &&& after[ws[j].id] == if due.contains_key(ws[j].id) && now < due[ws[j].id] {
                due[ws[j].id]
            } else {
                (now + iv) as u128
            }
        }),
    decreases ws.len(),
{
    let p = ws.drop_last();
    let n = ws.len() - 1;
    let (d, f) = tick_all(due, p, now);
    lemma_tick_all_positions(due, p, now);
    assert(distinct_ids(p)) by {
        assert forall|a: int, b: int| 0 <= a < b < p.len() implies p[a].id != p[b].id by {
            assert(p[a] == ws[a] && p[b] == ws[b]);
        }
    }
    if j < n {
        lemma_tick_rule(due, p, now, j);
        assert(p[j] == ws[j]);
        assert(ws.last().id != ws[j].id);
        if tick_all(due, ws, now).1.contains(j) {
            let q = choose|q: int| 0 <= q < tick_all(due, ws, now).1.len() && tick_all(due, ws, now).1[q] == j;
            if q < f.len() {
                assert(f.contains(j));
            }
        }
        if f.contains(j) {
            let q = choose|q: int| 0 <= q < f.len() && f[q] == j;
            assert(tick_all(due, ws, now).1[q] == j);
        }
    } else {
        assert forall|k: int| 0 <= k < p.len() implies (#[trigger] p[k]).id != ws[j].id by {
            assert(p[k] == ws[k]);
        }
        lemma_tick_all_frame(due, p, now, ws[j].id);
        assert(ws.last() == ws[j]);
        let (d2, fire) = tick_one(d, ws[j], now);
        assert(tick_all(due, ws, now).1 == if fire { f.push(n) } else { f });
        if fire {
            assert(tick_all(due, ws, now).1[f.len() as int] == j);
        }
        if f.contains(j) {
            let q = choose|q: int| 0 <= q < f.len() && f[q] == j;
            assert(f[q] < p.len());
        }
        if tick_all(due, ws, now).1.contains(j) {
            let q = choose|q: int| 0 <= q < tick_all(due, ws, now).1.len() && tick_all(due, ws, now).1[q] == j;
            if q < f.len() {
                assert(f[q] < p.len());
            }
        }
    }
}


// ── across ticks ─────────────────────────────────────────────────────────

/// The due times after the first `k` ticks, the `m`-th at time `ts[m]` over
/// the workflows `wss[m]`, starting from `due0` (what `Scheduler::tick`
/// leaves behind, tick after tick).
pub open spec fn due_after(due0: Map<Id, u128>, wss: Seq<Seq<Workflow>>, ts: Seq<u128>, k: nat) -> Map<Id, u128>
    decreases k,
{
    if k == 0 {
        due0
    } else {
        let d = due_after(due0, wss, ts, (k - 1) as nat);
        tick_all(d, wss[k - 1], ts[k - 1]).0.restrict(scheduled_ids(wss[k - 1]))
    }
}

/// The workflow with id `x` fires on tick `k`.
pub open spec fn fires_at(due0: Map<Id, u128>, wss: Seq<Seq<Workflow>>, ts: Seq<u128>, x: Id, k: nat) -> bool {
    exists|j: int|
        #[trigger] tick_all(due_after(due0, wss, ts, k), wss[k as int], ts[k as int]).1.contains(j)
            && wss[k as int][j].id == x
}

/// The time of the last tick before tick `k` on which `x` fired, or of the
/// first tick when it has not fired.
pub open spec fn last_fire(due0: Map<Id, u128>, wss: Seq<Seq<Workflow>>, ts: Seq<u128>, x: Id, k: nat) -> u128
    decreases k,
{
    if k == 0 {
        ts[0]
    } else if fires_at(due0, wss, ts, x, (k - 1) as nat) {
        ts[k - 1]
    } else {
        last_fire(due0, wss, ts, x, (k - 1) as nat)
    }
}

/// `ws` holds the workflow `x`, scheduled every `iv` milliseconds.
pub open spec fn schedules(ws: Seq<Workflow>, x: Id, iv: nat) -> bool {
    exists|p: int| 0 <= p < ws.len() && ws[p].id == x && #[trigger] interval_ms(ws[p]) == Some(iv)
}

proof fn lemma_last_fire_bounds(due0: Map<Id, u128>, wss: Seq<Seq<Workflow>>, ts: Seq<u128>, x: Id, k: nat)
    requires
        1 <= ts.len(),
        k <= ts.len(),
        forall|a: int, b: int| 0 <= a <= b < ts.len() ==> ts[a] <= ts[b],
    ensures
        ts[0] <= last_fire(due0, wss, ts, x, k),
        k > 0 ==> last_fire(due0, wss, ts, x, k) <= ts[k - 1],
    decreases k,
{
    if k > 0 {
        lemma_last_fire_bounds(due0, wss, ts, x, (k - 1) as nat);
    }
}

/// The schedule across ticks, for a workflow `x` that every tick sees
/// scheduled every `iv` milliseconds, with ticks at non-decreasing times
/// and a scheduler that had not seen `x` before: `x` never fires on the
/// first tick, and never before one interval after it; it fires on a later
/// tick exactly when that tick's time has reached its due time; and after
/// each tick it is due one interval after the last tick on which it fired
/// (or after the first tick, while it has not fired).
pub proof fn lemma_ticks_rule(
    due0: Map<Id, u128>,
    wss: Seq<Seq<Workflow>>,
    ts: Seq<u128>,
    x: Id,
    iv: nat,
    k: nat,
)
    requires
        1 <= k <= ts.len(),
        wss.len() == ts.len(),
        !due0.contains_key(x),
        forall|m: int| 0 <= m < ts.len() ==> distinct_ids(#[trigger] wss[m]),
        forall|m: int| 0 <= m < ts.len() ==> schedules(#[trigger] wss[m], x, iv),
        forall|m: int| 0 <= m < ts.len() ==> #[trigger] ts[m] <= u64::MAX,
        forall|a: int, b: int| 0 <= a <= b < ts.len() ==> ts[a] <= ts[b],
    ensures
        due_after(due0, wss, ts, k).contains_key(x),
        due_after(due0, wss, ts, k)[x] == last_fire(due0, wss, ts, x, k) + iv,
        forall|j: int|
            0 <= j < k ==> (#[trigger] fires_at(due0, wss, ts, x, j as nat) <==> (j > 0 && ts[j]
                >= due_after(due0, wss, ts, j as nat)[x])),
        forall|j: int| 0 <= j < k && #[trigger] fires_at(due0, wss, ts, x, j as nat) ==> ts[j] >= ts[0] + iv,
    decreases k,
{
    let m = k - 1;
    let d = due_after(due0, wss, ts, m as nat);
    let ws = wss[m];
    assert(schedules(ws, x, iv));
    assert(distinct_ids(ws));
    let p = choose|p: int| 0 <= p < ws.len() && ws[p].id == x && #[trigger] interval_ms(ws[p]) == Some(iv);
    let every = ws[p].spec.triggers.every_secs.unwrap();
    assert(iv == every * 1000);
    assert(ts[m] <= u64::MAX);
    lemma_tick_rule(d, ws, ts[m], p);
    // `x` fires on tick `m` exactly when position `p` does.
    assert(fires_at(due0, wss, ts, x, m as nat) <==> tick_all(d, ws, ts[m]).1.contains(p)) by {
        if fires_at(due0, wss, ts, x, m as nat) {
            let j = choose|j: int| #[trigger] tick_all(d, ws, ts[m]).1.contains(j) && ws[j].id == x;
            lemma_tick_all_positions(d, ws, ts[m]);
            let q = choose|q: int| 0 <= q < tick_all(d, ws, ts[m]).1.len() && tick_all(d, ws, ts[m]).1[q] == j;
            assert(0 <= j < ws.len());
            if j != p {
                if j < p {
                    assert(ws[j].id != ws[p].id);
                } else {
                    assert(ws[p].id != ws[j].id);
                }
            }
        }
    }
    assert(scheduled_ids(ws).contains(x));
    if m == 0 {
        assert(d == due0);
        lemma_last_fire_bounds(due0, wss, ts, x, 0);
        assert(!fires_at(due0, wss, ts, x, 0));
        assert(last_fire(due0, wss, ts, x, 1) == ts[0]);
    } else {
        lemma_ticks_rule(due0, wss, ts, x, iv, m as nat);
        lemma_last_fire_bounds(due0, wss, ts, x, m as nat);
        assert forall|j: int| 0 <= j < k implies (#[trigger] fires_at(due0, wss, ts, x, j as nat) <==> (j > 0 && ts[j]
            >= due_after(due0, wss, ts, j as nat)[x])) by {
            if j < m {
            }
        }
        assert forall|j: int| 0 <= j < k && #[trigger] fires_at(due0, wss, ts, x, j as nat) implies ts[j] >= ts[0] + iv by {
            if j < m {
            }
        }
    }
}

} // verus!
