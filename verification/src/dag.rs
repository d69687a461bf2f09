//! DAG validation and scheduling order for workflow task graphs.
//!
//! A task sits in layer 0 when it depends on nothing, and in layer `k + 1`
//! when the deepest task it depends on sits in layer `k`. Tasks on or
//! downstream of a cycle, or that depend on a task that does not exist, sit
//! in no layer.

use vstd::prelude::*;

use vstd::string::StringExecFns;

use crate::model::TaskSpec;
use crate::text::{sort_strings, strictly_sorted, texts};

verus! {

/// Why a task list is not a valid workflow DAG.
#[derive(Debug, PartialEq, Eq)]
pub enum DagError {
    Empty,
    DuplicateTask(String),
    UnknownDependency { task: String, dep: String },
    SelfDependency(String),
    Cycle(Vec<String>),
}

/// The `e`-th dependency that task `i` names.
pub open spec fn dep_name(tasks: Seq<TaskSpec>, i: int, e: int) -> Seq<char> {
    tasks[i].depends_on@[e]@
}

/// Task `j` exists and is called `d`.
pub open spec fn names(tasks: Seq<TaskSpec>, j: int, d: Seq<char>) -> bool {
    0 <= j < tasks.len() && tasks[j].id@ == d
}

/// Some task is called `d`.
pub open spec fn has_task(tasks: Seq<TaskSpec>, d: Seq<char>) -> bool {
    exists|j: int| #[trigger] names(tasks, j, d)
}

/// No two tasks share an id.
pub open spec fn ids_distinct(tasks: Seq<TaskSpec>) -> bool {
    forall|i: int, j: int| 0 <= i < j < tasks.len() ==> tasks[i].id@ != tasks[j].id@
}

/// The task called `d` (when some task is).
pub open spec fn task_named(tasks: Seq<TaskSpec>, d: Seq<char>) -> int {
    choose|j: int| names(tasks, j, d)
}

/// Task `i` sits in a layer below `k`: every dependency it names is a task
/// that sits in a layer below `k - 1`.
pub open spec fn below(tasks: Seq<TaskSpec>, i: int, k: int) -> bool
    decreases k,
{
    if k <= 0 {
        false
    } else {
        forall|e: int|
            #![trigger dep_name(tasks, i, e)]
            0 <= e < tasks[i].depends_on@.len() ==> has_task(tasks, dep_name(tasks, i, e)) && below(
                tasks,
                task_named(tasks, dep_name(tasks, i, e)),
                k - 1,
            )
    }
}

/// Task `i` sits in layer `k`.
pub open spec fn in_layer(tasks: Seq<TaskSpec>, i: int, k: int) -> bool {
    !below(tasks, i, k) && below(tasks, i, k + 1)
}

/// Task `i` sits in some layer.
pub open spec fn scheduled(tasks: Seq<TaskSpec>, i: int) -> bool {
    exists|k: int| below(tasks, i, k)
}

/// The ids of the tasks among the first `n` that sit in layer `k`, in task order.
pub open spec fn layer_ids_upto(tasks: Seq<TaskSpec>, k: int, n: nat) -> Seq<Seq<char>>
    decreases n,
{
    if n == 0 {
        Seq::empty()
    } else {
        let p = layer_ids_upto(tasks, k, (n - 1) as nat);
        if in_layer(tasks, n - 1, k) {
            p.push(tasks[n - 1].id@)
        } else {
            p
        }
    }
}

/// The ids of the tasks in layer `k`, in task order.
pub open spec fn layer_ids(tasks: Seq<TaskSpec>, k: int) -> Seq<Seq<char>> {
    layer_ids_upto(tasks, k, tasks.len())
}

/// The ids of the tasks that sit in no layer.
pub open spec fn unscheduled_ids(tasks: Seq<TaskSpec>) -> Set<Seq<char>> {
    Set::new(|d: Seq<char>| exists|i: int| names(tasks, i, d) && !scheduled(tasks, i))
}

/// `layers` lists, in order, every non-empty layer of `tasks`.
pub open spec fn is_layering(tasks: Seq<TaskSpec>, layers: Seq<Seq<Seq<char>>>) -> bool {
    &&& forall|q: int| 0 <= q < layers.len() ==> #[trigger] layers[q] == layer_ids(tasks, q as int)
    &&& forall|q: int| 0 <= q < layers.len() ==> #[trigger] layers[q].len() > 0
    &&& layer_ids(tasks, layers.len() as int).len() == 0
}

// ── proofs about layers ──────────────────────────────────────────────────

/// The task that `task_named` picks has that name.
pub proof fn lemma_task_named(tasks: Seq<TaskSpec>, d: Seq<char>)
    requires
        has_task(tasks, d),
    ensures
        names(tasks, task_named(tasks, d), d),
{
}

/// With distinct ids, the task called `d` is the only one.
pub proof fn lemma_task_named_unique(tasks: Seq<TaskSpec>, d: Seq<char>, j: int)
    requires
        ids_distinct(tasks),
        names(tasks, j, d),
    ensures
        task_named(tasks, d) == j,
{
    let c = task_named(tasks, d);
    if c != j {
        if c < j {
            assert(tasks[c].id@ != tasks[j].id@);
        } else {
            assert(tasks[j].id@ != tasks[c].id@);
        }
    }
}

/// Below layer `k + 1` means every dependency is a task below layer `k`.
pub proof fn lemma_below_succ(tasks: Seq<TaskSpec>, i: int, k: int)
    requires
        0 <= k,
    ensures
        below(tasks, i, k + 1) == forall|e: int|
            #![trigger dep_name(tasks, i, e)]
            0 <= e < tasks[i].depends_on@.len() ==> has_task(tasks, dep_name(tasks, i, e)) && below(
                tasks,
                task_named(tasks, dep_name(tasks, i, e)),
                k,
            ),
{
    assert forall|e: int| #![trigger dep_name(tasks, i, e)] 0 <= e < tasks[i].depends_on@.len() implies below(
        tasks,
        task_named(tasks, dep_name(tasks, i, e)),
        (k + 1) - 1,
    ) == below(tasks, task_named(tasks, dep_name(tasks, i, e)), k) by {}
}

/// A task below layer `k` is below every later layer too.
pub proof fn lemma_below_monotone(tasks: Seq<TaskSpec>, k: int)
    ensures
        forall|i: int| #[trigger] below(tasks, i, k) ==> below(tasks, i, k + 1),
    decreases k,
{
    if k > 0 {
        lemma_below_monotone(tasks, k - 1);
        assert forall|i: int| #[trigger] below(tasks, i, k) implies below(tasks, i, k + 1) by {
            assert forall|e: int| #![trigger dep_name(tasks, i, e)] 0 <= e < tasks[i].depends_on@.len() implies
                has_task(tasks, dep_name(tasks, i, e)) && below(tasks, task_named(tasks, dep_name(tasks, i, e)), k) by {
                let x = task_named(tasks, dep_name(tasks, i, e));
                assert(below(tasks, x, k - 1));
                assert(below(tasks, x, (k - 1) + 1));
            }
        }
    }
}

/// Below layer `k` implies below layer `m` for every `m >= k`.
pub proof fn lemma_below_monotone_to(tasks: Seq<TaskSpec>, i: int, k: int, m: int)
    requires
        below(tasks, i, k),
        k <= m,
    ensures
        below(tasks, i, m),
    decreases m - k,
{
    if k < m {
        lemma_below_monotone(tasks, k);
        lemma_below_monotone_to(tasks, i, k + 1, m);
    }
}

/// Once layer `k` is empty, every later layer is empty too.
pub proof fn lemma_below_stable(tasks: Seq<TaskSpec>, k: int, m: int)
    requires
        0 <= k,
        forall|i: int| 0 <= i < tasks.len() ==> #[trigger] below(tasks, i, k + 1) == below(tasks, i, k),
        k <= m,
    ensures
        forall|i: int| 0 <= i < tasks.len() ==> #[trigger] below(tasks, i, m) == below(tasks, i, k),
    decreases m - k,
{
    if k < m {
        lemma_below_stable(tasks, k, m - 1);
        assert forall|i: int| 0 <= i < tasks.len() implies #[trigger] below(tasks, i, m) == below(tasks, i, k + 1) by {
            assert forall|e: int| #![trigger dep_name(tasks, i, e)] 0 <= e < tasks[i].depends_on@.len() && has_task(tasks, dep_name(tasks, i, e)) implies
                below(tasks, task_named(tasks, dep_name(tasks, i, e)), m - 1)
                == below(tasks, task_named(tasks, dep_name(tasks, i, e)), k) by {
                lemma_task_named(tasks, dep_name(tasks, i, e));
            }
        }
    }
}

/// A task below layer `k` sits in exactly one layer, and that layer is below `k`.
pub proof fn lemma_layer_of(tasks: Seq<TaskSpec>, i: int, k: int) -> (l: int)
    requires
        0 <= i < tasks.len(),
        below(tasks, i, k),
    ensures
        0 <= l < k,
        in_layer(tasks, i, l),
    decreases k,
{
    if below(tasks, i, k - 1) {
        lemma_layer_of(tasks, i, k - 1)
    } else {
        k - 1
    }
}

/// A task sits in at most one layer.
pub proof fn lemma_layer_unique(tasks: Seq<TaskSpec>, i: int, k1: int, k2: int)
    requires
        0 <= i < tasks.len(),
        in_layer(tasks, i, k1),
        in_layer(tasks, i, k2),
    ensures
        k1 == k2,
{
    if k1 < k2 {
        lemma_below_monotone_to(tasks, i, k1 + 1, k2);
    } else if k2 < k1 {
        lemma_below_monotone_to(tasks, i, k2 + 1, k1);
    }
}

/// The ids in `layer_ids_upto(tasks, k, n)` are those of the tasks among the
/// first `n` that sit in layer `k`.
pub proof fn lemma_layer_ids_upto_members(tasks: Seq<TaskSpec>, k: int, n: nat)
    requires
        n <= tasks.len(),
        ids_distinct(tasks),
    ensures
        forall|d: Seq<char>| #[trigger] layer_ids_upto(tasks, k, n).contains(d) <==> exists|i: int|
            0 <= i < n && names(tasks, i, d) && in_layer(tasks, i, k),
        layer_ids_upto(tasks, k, n).no_duplicates(),
    decreases n,
{
    if n > 0 {
        lemma_layer_ids_upto_members(tasks, k, (n - 1) as nat);
        let p = layer_ids_upto(tasks, k, (n - 1) as nat);
        let s = layer_ids_upto(tasks, k, n);
        assert forall|d: Seq<char>| #[trigger] s.contains(d) <==> exists|i: int|
            0 <= i < n && names(tasks, i, d) && in_layer(tasks, i, k) by {
            if s.contains(d) {
                let w = choose|w: int| 0 <= w < s.len() && s[w] == d;
                if w < p.len() {
                    assert(p[w] == d);
                    assert(p.contains(d));
                } else {
                    assert(names(tasks, n - 1, d));
                }
            }
            if exists|i: int| 0 <= i < n && names(tasks, i, d) && in_layer(tasks, i, k) {
                let i = choose|i: int| 0 <= i < n && names(tasks, i, d) && in_layer(tasks, i, k);
                if i < n - 1 {
                    assert(p.contains(d));
                    let w = choose|w: int| 0 <= w < p.len() && p[w] == d;
                    assert(s[w] == d);
                } else {
                    assert(s[s.len() - 1] == d);
                }
            }
        }
        if in_layer(tasks, n - 1, k) {
            assert forall|a: int, b: int| 0 <= a < b < s.len() implies s[a] != s[b] by {
                if b == s.len() - 1 {
                    if s[a] == s[b] {
                        assert(p.contains(s[a]));
                        let i = choose|i: int| 0 <= i < n - 1 && names(tasks, i, s[a]) && in_layer(tasks, i, k);
                        assert(tasks[i].id@ == tasks[n - 1].id@);
                    }
                }
            }
        }
    }
}

/// Every dependency of a task in layer `k` is a task in an earlier layer.
pub proof fn lemma_layers_respect_dependencies(tasks: Seq<TaskSpec>, i: int, k: int, e: int)
    requires
        0 <= i < tasks.len(),
        in_layer(tasks, i, k),
        0 <= e < tasks[i].depends_on@.len(),
    ensures
        exists|j: int, l: int|
            names(tasks, j, dep_name(tasks, i, e)) && 0 <= l < k && #[trigger] in_layer(tasks, j, l),
{
    let d = dep_name(tasks, i, e);
    let j = task_named(tasks, d);
    assert(below(tasks, j, k));
    let l = lemma_layer_of(tasks, j, k);
    assert(names(tasks, j, dep_name(tasks, i, e)) && 0 <= l < k && in_layer(tasks, j, l));
}

/// The layers of a task list hold each task at most once, and a task that
/// sits in some layer sits in exactly one.
pub proof fn lemma_layers_partition(tasks: Seq<TaskSpec>, layers: Seq<Seq<Seq<char>>>, i: int)
    requires
        ids_distinct(tasks),
        holds_layers(tasks, layers),
        0 <= i < tasks.len(),
    ensures
        scheduled(tasks, i) ==> exists|q: int| 0 <= q < layers.len() && #[trigger] layers[q].contains(tasks[i].id@),
        forall|q1: int, q2: int|
            0 <= q1 < layers.len() && 0 <= q2 < layers.len() && #[trigger] layers[q1].contains(tasks[i].id@)
                && #[trigger] layers[q2].contains(tasks[i].id@) ==> q1 == q2,
{
    let d = tasks[i].id@;
    assert forall|q: int| 0 <= q < layers.len() implies (#[trigger] layers[q].contains(d) <==> in_layer(tasks, i, q as int)) by {
        if layers[q].contains(d) {
            let j = choose|j: int| names(tasks, j, d) && in_layer(tasks, j, q as int);
            assert(j == i) by {
                if j != i {
                    if j < i {
                        assert(tasks[j].id@ != tasks[i].id@);
                    } else {
                        assert(tasks[i].id@ != tasks[j].id@);
                    }
                }
            }
        }
        if in_layer(tasks, i, q as int) {
            assert(names(tasks, i, d));
        }
    }
    if scheduled(tasks, i) {
        let k = choose|k: int| below(tasks, i, k);
        let l = lemma_layer_of(tasks, i, k);
        // Layer `l` is non-empty, so it is among `layers`.
        if l >= layers.len() {
            lemma_layer_ids_upto_members(tasks, layers.len() as int, tasks.len());
            // No task sits in layer `layers.len()`; so none sits in any later layer.
            lemma_below_monotone(tasks, layers.len() as int);
            assert forall|t: int| 0 <= t < tasks.len() implies #[trigger] below(tasks, t, layers.len() as int + 1) == below(tasks, t, layers.len() as int) by {
                if below(tasks, t, layers.len() as int + 1) && !below(tasks, t, layers.len() as int) {
                    assert(names(tasks, t, tasks[t].id@));
                    assert(layer_ids(tasks, layers.len() as int).contains(tasks[t].id@));
                }
            }
            lemma_below_stable(tasks, layers.len() as int, l);
            lemma_below_stable(tasks, layers.len() as int, l + 1);
        }
        assert(layers[l as int].contains(d));
    }
    assert forall|q1: int, q2: int|
        0 <= q1 < layers.len() && 0 <= q2 < layers.len() && #[trigger] layers[q1].contains(tasks[i].id@)
            && #[trigger] layers[q2].contains(tasks[i].id@) implies q1 == q2 by {
        lemma_layer_unique(tasks, i, q1, q2);
    }
}

// ── the order within a layer ─────────────────────────────────────────────

/// `layers` lists the non-empty layers of `tasks` in order, each holding the
/// ids of its tasks once, in some order.
pub open spec fn holds_layers(tasks: Seq<TaskSpec>, layers: Seq<Seq<Seq<char>>>) -> bool {
    &&& forall|q: int, d: Seq<char>|
        0 <= q < layers.len() ==> (#[trigger] layers[q].contains(d) <==> exists|i: int|
            names(tasks, i, d) && in_layer(tasks, i, q))
    &&& forall|q: int| 0 <= q < layers.len() ==> (#[trigger] layers[q]).no_duplicates() && layers[q].len() > 0
    &&& layer_ids(tasks, layers.len() as int).len() == 0
}

/// The position in `prev` of the last entry named in `deps`, among the
/// first `n`; -1 when there is none.
pub open spec fn last_dep_at(deps: Seq<Seq<char>>, prev: Seq<Seq<char>>, n: nat) -> int
    decreases n,
{
    if n == 0 {
        -1
    } else if deps.contains(prev[n - 1]) {
        n - 1
    } else {
        last_dep_at(deps, prev, (n - 1) as nat)
    }
}

/// The tasks of layer `k` among the first `m` whose last dependency listed
/// in `prev` stands at position `q`, in task order.
pub open spec fn kahn_group(tasks: Seq<TaskSpec>, k: int, prev: Seq<Seq<char>>, q: int, m: nat) -> Seq<Seq<char>>
    decreases m,
{
    if m == 0 {
        Seq::empty()
    } else {
        let g = kahn_group(tasks, k, prev, q, (m - 1) as nat);
        if in_layer(tasks, m - 1, k) && last_dep_at(texts(tasks[m - 1].depends_on@), prev, prev.len()) == q {
            g.push(tasks[m - 1].id@)
        } else {
            g
        }
    }
}

/// The order of layer `k` when layer `k - 1` ran in the order `prev`: a task
/// comes when the last of its dependencies in `prev` has finished, and tasks
/// freed by the same dependency come in task order (Kahn's algorithm). The
/// groups for the first `n` positions of `prev`.
pub open spec fn kahn_order(tasks: Seq<TaskSpec>, k: int, prev: Seq<Seq<char>>, n: nat) -> Seq<Seq<char>>
    decreases n,
{
    if n == 0 {
        Seq::empty()
    } else {
        kahn_order(tasks, k, prev, (n - 1) as nat) + kahn_group(tasks, k, prev, n - 1, tasks.len())
    }
}

/// Each of `layers` is in Kahn's order after the one before, and the first
/// holds the first layer in task order.
pub open spec fn kahn_chain(tasks: Seq<TaskSpec>, layers: Seq<Seq<Seq<char>>>) -> bool {
    forall|q: int|
        0 <= q < layers.len() ==> #[trigger] layers[q] == if q == 0 {
            layer_ids(tasks, 0)
        } else {
            kahn_order(tasks, q, layers[q - 1], layers[q - 1].len())
        }
}

/// `layers` are the layers of `tasks` in the order Kahn's algorithm gives:
/// the first layer in task order, each later one in `kahn_order` after the
/// one before.
pub open spec fn kahn_layers(tasks: Seq<TaskSpec>, layers: Seq<Seq<Seq<char>>>) -> bool {
    &&& kahn_chain(tasks, layers)
    &&& forall|q: int| 0 <= q < layers.len() ==> #[trigger] layers[q].len() > 0
    &&& layer_ids(tasks, layers.len() as int).len() == 0
}

proof fn lemma_last_dep_at(deps: Seq<Seq<char>>, prev: Seq<Seq<char>>, n: nat)
    requires
        n <= prev.len(),
    ensures
        -1 <= last_dep_at(deps, prev, n) < n,
        last_dep_at(deps, prev, n) >= 0 ==> deps.contains(prev[last_dep_at(deps, prev, n)]),
        forall|p: int| 0 <= p < n && deps.contains(#[trigger] prev[p]) ==> p <= last_dep_at(deps, prev, n),
    decreases n,
{
    if n > 0 {
        lemma_last_dep_at(deps, prev, (n - 1) as nat);
    }
}

proof fn lemma_kahn_group_members(tasks: Seq<TaskSpec>, k: int, prev: Seq<Seq<char>>, q: int, m: nat)
    requires
        ids_distinct(tasks),
        m <= tasks.len(),
    ensures
        forall|d: Seq<char>| #[trigger] kahn_group(tasks, k, prev, q, m).contains(d) <==> exists|i: int|
            0 <= i < m && names(tasks, i, d) && in_layer(tasks, i, k) && last_dep_at(
                texts(tasks[i].depends_on@),
                prev,
                prev.len(),
            ) == q,
        kahn_group(tasks, k, prev, q, m).no_duplicates(),
    decreases m,
{
    if m > 0 {
        lemma_kahn_group_members(tasks, k, prev, q, (m - 1) as nat);
        let g = kahn_group(tasks, k, prev, q, (m - 1) as nat);
        let h = kahn_group(tasks, k, prev, q, m);
        assert forall|d: Seq<char>| #[trigger] h.contains(d) <==> exists|i: int|
            0 <= i < m && names(tasks, i, d) && in_layer(tasks, i, k) && last_dep_at(
                texts(tasks[i].depends_on@),
                prev,
                prev.len(),
            ) == q by {
            if h.contains(d) {
                let w = choose|w: int| 0 <= w < h.len() && h[w] == d;
                if w < g.len() {
                    assert(g[w] == d);
                    assert(g.contains(d));
                } else {
                    assert(names(tasks, m - 1, d));
                }
            }
            if exists|i: int|
                0 <= i < m && names(tasks, i, d) && in_layer(tasks, i, k) && last_dep_at(
                    texts(tasks[i].depends_on@),
                    prev,
                    prev.len(),
                ) == q {
                let i = choose|i: int|
                    0 <= i < m && names(tasks, i, d) && in_layer(tasks, i, k) && last_dep_at(
                        texts(tasks[i].depends_on@),
                        prev,
                        prev.len(),
                    ) == q;
                if i < m - 1 {
                    assert(g.contains(d));
                    let w = choose|w: int| 0 <= w < g.len() && g[w] == d;
                    assert(h[w] == d);
                } else {
                    assert(h[h.len() - 1] == d);
                }
            }
        }
        if in_layer(tasks, m - 1, k) && last_dep_at(texts(tasks[m - 1].depends_on@), prev, prev.len()) == q {
            assert forall|a: int, b: int| 0 <= a < b < h.len() implies h[a] != h[b] by {
                if b == h.len() - 1 && h[a] == h[b] {
                    assert(g.contains(h[a]));
                    let i = choose|i: int|
                        0 <= i < m - 1 && names(tasks, i, h[a]) && in_layer(tasks, i, k) && last_dep_at(
                            texts(tasks[i].depends_on@),
                            prev,
                            prev.len(),
                        ) == q;
                    assert(tasks[i].id@ != tasks[m - 1].id@);
                }
            }
        }
    }
}

proof fn lemma_kahn_order_members(tasks: Seq<TaskSpec>, k: int, prev: Seq<Seq<char>>, n: nat)
    requires
        ids_distinct(tasks),
        n <= prev.len(),
    ensures
        forall|d: Seq<char>| #[trigger] kahn_order(tasks, k, prev, n).contains(d) <==> exists|i: int|
            names(tasks, i, d) && in_layer(tasks, i, k) && 0 <= last_dep_at(
                texts(tasks[i].depends_on@),
                prev,
                prev.len(),
            ) < n,
        kahn_order(tasks, k, prev, n).no_duplicates(),
    decreases n,
{
    if n > 0 {
        lemma_kahn_order_members(tasks, k, prev, (n - 1) as nat);
        lemma_kahn_group_members(tasks, k, prev, n - 1, tasks.len());
        let a = kahn_order(tasks, k, prev, (n - 1) as nat);
        let g = kahn_group(tasks, k, prev, n - 1, tasks.len());
        let o = kahn_order(tasks, k, prev, n);
        assert(o == a + g);
        assert forall|d: Seq<char>| #[trigger] o.contains(d) <==> exists|i: int|
            names(tasks, i, d) && in_layer(tasks, i, k) && 0 <= last_dep_at(
                texts(tasks[i].depends_on@),
                prev,
                prev.len(),
            ) < n by {
            if o.contains(d) {
                let w = choose|w: int| 0 <= w < o.len() && o[w] == d;
                if w < a.len() {
                    assert(a[w] == d);
                    assert(a.contains(d));
                } else {
                    assert(g[w - a.len()] == d);
                    assert(g.contains(d));
                }
            }
            if exists|i: int|
                names(tasks, i, d) && in_layer(tasks, i, k) && 0 <= last_dep_at(
                    texts(tasks[i].depends_on@),
                    prev,
                    prev.len(),
                ) < n {
                let i = choose|i: int|
                    names(tasks, i, d) && in_layer(tasks, i, k) && 0 <= last_dep_at(
                        texts(tasks[i].depends_on@),
                        prev,
                        prev.len(),
                    ) < n;
                if last_dep_at(texts(tasks[i].depends_on@), prev, prev.len()) < n - 1 {
                    assert(a.contains(d));
                    let w = choose|w: int| 0 <= w < a.len() && a[w] == d;
                    assert(o[w] == d);
                } else {
                    assert(g.contains(d));
                    let w = choose|w: int| 0 <= w < g.len() && g[w] == d;
                    assert(o[a.len() + w] == d);
                }
            }
        }
        assert forall|x: int, y: int| 0 <= x < y < o.len() implies o[x] != o[y] by {
            if y >= a.len() && x < a.len() && o[x] == o[y] {
                let d = o[x];
                assert(a[x] == d);
                assert(a.contains(d));
                assert(g[y - a.len()] == d);
                assert(g.contains(d));
                let i1 = choose|i: int|
                    names(tasks, i, d) && in_layer(tasks, i, k) && 0 <= last_dep_at(
                        texts(tasks[i].depends_on@),
                        prev,
                        prev.len(),
                    ) < n - 1;
                let i2 = choose|i: int|
                    0 <= i < tasks.len() && names(tasks, i, d) && in_layer(tasks, i, k) && last_dep_at(
                        texts(tasks[i].depends_on@),
                        prev,
                        prev.len(),
                    ) == n - 1;
                assert(i1 == i2) by {
                    if i1 < i2 {
                        assert(tasks[i1].id@ != tasks[i2].id@);
                    } else if i2 < i1 {
                        assert(tasks[i2].id@ != tasks[i1].id@);
                    }
                }
            } else if y >= a.len() && x >= a.len() {
                assert(o[x] == g[x - a.len()] && o[y] == g[y - a.len()]);
            } else if y < a.len() {
                assert(o[x] == a[x] && o[y] == a[y]);
            }
        }
    }
}

/// A task in layer `k > 0` depends on a task of layer `k - 1`.
proof fn lemma_dep_in_previous_layer(tasks: Seq<TaskSpec>, i: int, k: int) -> (e: int)
    requires
        0 <= i < tasks.len(),
        k >= 1,
        in_layer(tasks, i, k),
    ensures
        0 <= e < tasks[i].depends_on@.len(),
        has_task(tasks, dep_name(tasks, i, e)),
        in_layer(tasks, task_named(tasks, dep_name(tasks, i, e)), k - 1),
{
    lemma_below_succ(tasks, i, k);
    lemma_below_succ(tasks, i, k - 1);
    assert((k - 1) + 1 == k);
    let e = choose|e: int|
        #![trigger dep_name(tasks, i, e)]
        0 <= e < tasks[i].depends_on@.len() && !(has_task(tasks, dep_name(tasks, i, e)) && below(
            tasks,
            task_named(tasks, dep_name(tasks, i, e)),
            k - 1,
        ));
    e
}

/// Layers in Kahn's order hold the layers of the tasks.
pub proof fn lemma_kahn_holds(tasks: Seq<TaskSpec>, layers: Seq<Seq<Seq<char>>>)
    requires
        ids_distinct(tasks),
        kahn_layers(tasks, layers),
    ensures
        holds_layers(tasks, layers),
{
    assert forall|q: int| 0 <= q < layers.len() implies (forall|d: Seq<char>|
        #[trigger] layers[q].contains(d) <==> exists|i: int| names(tasks, i, d) && in_layer(tasks, i, q))
        && layers[q].no_duplicates() by {
        lemma_kahn_layer_members(tasks, layers, q);
    }
}

proof fn lemma_kahn_layer_members(tasks: Seq<TaskSpec>, layers: Seq<Seq<Seq<char>>>, q: int)
    requires
        ids_distinct(tasks),
        kahn_chain(tasks, layers),
        0 <= q < layers.len(),
    ensures
        forall|d: Seq<char>| #[trigger] layers[q].contains(d) <==> exists|i: int|
            names(tasks, i, d) && in_layer(tasks, i, q),
        layers[q].no_duplicates(),
    decreases q,
{
    if q == 0 {
        lemma_layer_ids_upto_members(tasks, 0, tasks.len());
        assert forall|d: Seq<char>| #[trigger] layers[q].contains(d) <==> exists|i: int|
            names(tasks, i, d) && in_layer(tasks, i, q) by {
            if exists|i: int| names(tasks, i, d) && in_layer(tasks, i, q) {
                let i = choose|i: int| names(tasks, i, d) && in_layer(tasks, i, q);
                assert(0 <= i < tasks.len() && names(tasks, i, d) && in_layer(tasks, i, 0));
            }
        }
    } else {
        lemma_kahn_layer_members(tasks, layers, q - 1);
        let prev = layers[q - 1];
        assert(layers[q] == kahn_order(tasks, q, prev, prev.len()));
        lemma_kahn_order_members(tasks, q, prev, prev.len());
        assert forall|d: Seq<char>| #[trigger] layers[q].contains(d) <==> exists|i: int|
            names(tasks, i, d) && in_layer(tasks, i, q) by {
            if exists|i: int| names(tasks, i, d) && in_layer(tasks, i, q) {
                let i = choose|i: int| names(tasks, i, d) && in_layer(tasks, i, q);
                let e = lemma_dep_in_previous_layer(tasks, i, q);
                let dn = dep_name(tasks, i, e);
                lemma_task_named(tasks, dn);
                let j = task_named(tasks, dn);
                assert(names(tasks, j, dn) && in_layer(tasks, j, q - 1));
                assert(prev.contains(dn));
                let p = choose|p: int| 0 <= p < prev.len() && prev[p] == dn;
                let deps = texts(tasks[i].depends_on@);
                assert(deps[e] == dn);
                assert(deps.contains(prev[p]));
                lemma_last_dep_at(deps, prev, prev.len());
            }
        }
    }
}

// ── computing the layers ─────────────────────────────────────────────────

/// The texts of each layer.
pub open spec fn layer_texts(layers: Seq<Vec<String>>) -> Seq<Seq<Seq<char>>> {
    layers.map_values(|l: Vec<String>| texts(l@))
}

/// The number of `true` entries in `s`.
pub open spec fn num_true(s: Seq<bool>) -> nat
    decreases s.len(),
{
    if s.len() == 0 {
        0
    } else {
        num_true(s.drop_last()) + if s.last() {
            1nat
        } else {
            0nat
        }
    }
}

proof fn lemma_num_true_bound(s: Seq<bool>)
    ensures
        num_true(s) <= s.len(),
    decreases s.len(),
{
    if s.len() > 0 {
        lemma_num_true_bound(s.drop_last());
    }
}

proof fn lemma_num_true_set(s: Seq<bool>, j: int)
    requires
        0 <= j < s.len(),
        !s[j],
    ensures
        num_true(s.update(j, true)) == num_true(s) + 1,
    decreases s.len(),
{
    let u = s.update(j, true);
    if j < s.len() - 1 {
        assert(u.drop_last() =~= s.drop_last().update(j, true));
        lemma_num_true_set(s.drop_last(), j);
    } else {
        assert(u.drop_last() =~= s.drop_last());
    }
}

/// `r` holds, for task `i`, the positions of the tasks it depends on when
/// every one of them exists, and nothing when one does not.
pub open spec fn resolution(tasks: Seq<TaskSpec>, i: int, r: Option<Vec<usize>>) -> bool {
    match r {
        Some(v) => {
            &&& v@.len() == tasks[i].depends_on@.len()
            &&& forall|e: int| 0 <= e < v@.len() ==> #[trigger] names(tasks, v@[e] as int, dep_name(tasks, i, e))
        },
        None => exists|e: int| 0 <= e < tasks[i].depends_on@.len() && !has_task(tasks, #[trigger] dep_name(tasks, i, e)),
    }
}

/// The position of the task called `d`.
pub(crate) fn find_task(tasks: &[TaskSpec], d: &String) -> (r: Option<usize>)
    ensures
        match r {
            Some(j) => names(tasks@, j as int, d@),
            None => !has_task(tasks@, d@),
        },
{
    let mut j: usize = 0;
    while j < tasks.len()
        invariant
            j <= tasks.len(),
            forall|q: int| 0 <= q < j ==> tasks@[q].id@ != d@,
        decreases tasks.len() - j,
    {
        if tasks[j].id == *d {
            return Some(j);
        }
        j = j + 1;
    }
    None
}

/// The positions of the tasks that task `i` depends on, when they all exist.
fn resolve(tasks: &[TaskSpec], i: usize) -> (r: Option<Vec<usize>>)
    requires
        i < tasks.len(),
    ensures
        resolution(tasks@, i as int, r),
{
    let deps = &tasks[i].depends_on;
    let mut v: Vec<usize> = Vec::new();
    let mut e: usize = 0;
    while e < deps.len()
        invariant
            *deps == tasks@[i as int].depends_on,
            e <= deps.len(),
            v@.len() == e,
            forall|q: int| 0 <= q < e ==> #[trigger] names(tasks@, v@[q] as int, dep_name(tasks@, i as int, q)),
        decreases deps.len() - e,
    {
        match find_task(tasks, &deps[e]) {
            Some(j) => v.push(j),
            None => {
                assert(!has_task(tasks@, dep_name(tasks@, i as int, e as int)));
                return None;
            },
        }
        e = e + 1;
    }
    Some(v)
}

/// Every position in `v` is marked in `placed`.
fn all_placed(v: &Vec<usize>, placed: &Vec<bool>) -> (r: bool)
    requires
        forall|e: int| 0 <= e < v@.len() ==> #[trigger] v@[e] < placed@.len(),
    ensures
        r == forall|e: int| 0 <= e < v@.len() ==> #[trigger] placed@[v@[e] as int],
{
    let mut e: usize = 0;
    while e < v.len()
        invariant
            e <= v.len(),
            forall|q: int| 0 <= q < v@.len() ==> #[trigger] v@[q] < placed@.len(),
            forall|q: int| 0 <= q < e ==> #[trigger] placed@[v@[q] as int],
        decreases v.len() - e,
    {
        if !placed[v[e]] {
            return false;
        }
        e = e + 1;
    }
    true
}

/// Given which tasks sit below layer `k`, a task sits below layer `k + 1`
/// exactly when all the tasks it depends on exist and sit below layer `k`.
proof fn lemma_ready(tasks: Seq<TaskSpec>, placed: Seq<bool>, k: int, i: int, r: Option<Vec<usize>>)
    requires
        ids_distinct(tasks),
        0 <= k,
        0 <= i < tasks.len(),
        placed.len() == tasks.len(),
        forall|j: int| 0 <= j < tasks.len() ==> #[trigger] placed[j] == below(tasks, j, k),
        resolution(tasks, i, r),
    ensures
        below(tasks, i, k + 1) == match r {
            Some(v) => forall|e: int| 0 <= e < v@.len() ==> #[trigger] placed[v@[e] as int],
            None => false,
        },
{
    lemma_below_succ(tasks, i, k);
    match r {
        Some(v) => {
            assert forall|e: int| #![trigger dep_name(tasks, i, e)] 0 <= e < v@.len() implies
                has_task(tasks, dep_name(tasks, i, e)) && task_named(tasks, dep_name(tasks, i, e)) == v@[e] as int by {
                assert(names(tasks, v@[e] as int, dep_name(tasks, i, e)));
                lemma_task_named_unique(tasks, dep_name(tasks, i, e), v@[e] as int);
            }
            if below(tasks, i, k + 1) {
                assert forall|e: int| 0 <= e < v@.len() implies #[trigger] placed[v@[e] as int] by {
                    assert(dep_name(tasks, i, e) == dep_name(tasks, i, e));
                }
            }
            if forall|e: int| 0 <= e < v@.len() ==> #[trigger] placed[v@[e] as int] {
                assert forall|e: int| #![trigger dep_name(tasks, i, e)] 0 <= e < tasks[i].depends_on@.len() implies
                    has_task(tasks, dep_name(tasks, i, e)) && below(tasks, task_named(tasks, dep_name(tasks, i, e)), k) by {
                    assert(placed[v@[e] as int]);
                    assert(names(tasks, v@[e] as int, dep_name(tasks, i, e)));
                }
            }
        },
        None => {
            let e = choose|e: int| 0 <= e < tasks[i].depends_on@.len() && !has_task(tasks, #[trigger] dep_name(tasks, i, e));
            assert(dep_name(tasks, i, e) == dep_name(tasks, i, e));
        },
    }
}

/// The layers of `tasks`, and which tasks they hold.
fn compute_layers(tasks: &[TaskSpec]) -> (r: (Vec<Vec<String>>, Vec<bool>))
    requires
        ids_distinct(tasks@),
    ensures
        is_layering(tasks@, layer_texts(r.0@)),
        r.1@.len() == tasks@.len(),
        forall|i: int| 0 <= i < tasks@.len() ==> #[trigger] r.1@[i] == scheduled(tasks@, i),
{
    let n = tasks.len();
    let mut deps: Vec<Option<Vec<usize>>> = Vec::new();
    let mut placed: Vec<bool> = Vec::new();
    let mut i: usize = 0;
    while i < n
        invariant
            n == tasks@.len(),
            i <= n,
            deps@.len() == i,
            placed@.len() == i,
            forall|j: int| 0 <= j < i ==> resolution(tasks@, j, #[trigger] deps@[j]),
            forall|j: int| 0 <= j < i ==> !#[trigger] placed@[j],
        decreases n - i,
    {
        deps.push(resolve(tasks, i));
        placed.push(false);
        i = i + 1;
    }
    let mut layers: Vec<Vec<String>> = Vec::new();
    let ghost mut count: nat = 0;
    proof {
        assert forall|j: int| 0 <= j < n implies #[trigger] placed@[j] == below(tasks@, j, 0) by {}
        assert(num_true(placed@) == 0) by {
            lemma_num_true_zero(placed@);
        }
    }
    loop
        invariant
            n == tasks@.len(),
            ids_distinct(tasks@),
            deps@.len() == n,
            placed@.len() == n,
            forall|j: int| 0 <= j < n ==> resolution(tasks@, j, #[trigger] deps@[j]),
            forall|j: int| 0 <= j < n ==> #[trigger] placed@[j] == below(tasks@, j, layers@.len() as int),
            forall|q: int| 0 <= q < layers@.len() ==> #[trigger] layer_texts(layers@)[q] == layer_ids(tasks@, q),
            forall|q: int| 0 <= q < layers@.len() ==> #[trigger] layer_texts(layers@)[q].len() > 0,
            count == num_true(placed@),
        ensures
            n == tasks@.len(),
            placed@.len() == n,
            forall|j: int| 0 <= j < n ==> #[trigger] placed@[j] == below(tasks@, j, layers@.len() as int),
            forall|q: int| 0 <= q < layers@.len() ==> #[trigger] layer_texts(layers@)[q] == layer_ids(tasks@, q),
            forall|q: int| 0 <= q < layers@.len() ==> #[trigger] layer_texts(layers@)[q].len() > 0,
            layer_ids(tasks@, layers@.len() as int).len() == 0,
        decreases n - count,
    {
        let ghost k = layers@.len() as int;
        let mut layer: Vec<String> = Vec::new();
        let mut members: Vec<usize> = Vec::new();
        let mut i: usize = 0;
        while i < n
            invariant
                n == tasks@.len(),
                ids_distinct(tasks@),
                deps@.len() == n,
                placed@.len() == n,
                k == layers@.len(),
                forall|j: int| 0 <= j < n ==> resolution(tasks@, j, #[trigger] deps@[j]),
                forall|j: int| 0 <= j < n ==> #[trigger] placed@[j] == below(tasks@, j, k),
                i <= n,
                texts(layer@) == layer_ids_upto(tasks@, k, i as nat),
                members@.len() == layer@.len(),
                forall|t: int| 0 <= t < members@.len() ==> #[trigger] members@[t] < i,
                forall|t: int, u: int| 0 <= t < u < members@.len() ==> members@[t] < members@[u],
                forall|t: int| 0 <= t < members@.len() ==> in_layer(tasks@, #[trigger] members@[t] as int, k),
                forall|j: int| 0 <= j < i && in_layer(tasks@, j, k) ==> #[trigger] members@.contains(j as usize),
            decreases n - i,
        {
            let ready = match &deps[i] {
                Some(v) => {
                    assert forall|e: int| 0 <= e < v@.len() implies #[trigger] v@[e] < placed@.len() by {
                        assert(names(tasks@, v@[e] as int, dep_name(tasks@, i as int, e)));
                    }
                    all_placed(v, &placed)
                },
                None => false,
            };
            proof {
                lemma_ready(tasks@, placed@, k, i as int, deps@[i as int]);
            }
            let ghost before = texts(layer@);
            let ghost old_members = members@;
            if !placed[i] && ready {
                layer.push(tasks[i].id.clone());
                members.push(i);
                proof {
                    assert(texts(layer@) =~= before.push(tasks@[i as int].id@));
                }
            }
            proof {
                assert(layer_ids_upto(tasks@, k, (i + 1) as nat) == if in_layer(tasks@, i as int, k) {
                    layer_ids_upto(tasks@, k, i as nat).push(tasks@[i as int].id@)
                } else {
                    layer_ids_upto(tasks@, k, i as nat)
                });
                assert forall|j: int| 0 <= j < i + 1 && in_layer(tasks@, j, k) implies #[trigger] members@.contains(j as usize) by {
                    if j == i {
                        assert(members@[members@.len() - 1] == j as usize);
                    } else {
                        assert(old_members.contains(j as usize));
                        let w = choose|w: int| 0 <= w < old_members.len() && old_members[w] == j as usize;
                        assert(members@[w] == j as usize);
                    }
                }
            }
            i = i + 1;
        }
        if layer.len() == 0 {
            proof {
                assert(layer_ids(tasks@, k).len() == 0);
            }
            break;
        }
        let ghost old_placed = placed@;
        let mut t: usize = 0;
        while t < members.len()
            invariant
                n == tasks@.len(),
                placed@.len() == n,
                old_placed.len() == n,
                t <= members@.len(),
                forall|u: int| 0 <= u < members@.len() ==> #[trigger] members@[u] < n,
                forall|u: int, w: int| 0 <= u < w < members@.len() ==> members@[u] < members@[w],
                forall|u: int| 0 <= u < members@.len() ==> !#[trigger] old_placed[members@[u] as int],
                forall|j: int| 0 <= j < n ==> #[trigger] placed@[j] == (old_placed[j] || exists|u: int|
                    0 <= u < t && members@[u] == j),
                count + t == num_true(placed@),
            decreases members.len() - t,
        {
            let m = members[t];
            proof {
                assert(!placed@[m as int]) by {
                    if exists|u: int| 0 <= u < t && members@[u] == m {
                        let u = choose|u: int| 0 <= u < t && members@[u] == m;
                        assert(members@[u] < members@[t as int]);
                    }
                }
                lemma_num_true_set(placed@, m as int);
            }
            placed.set(m, true);
            proof {
                assert forall|j: int| 0 <= j < n implies #[trigger] placed@[j] == (old_placed[j] || exists|u: int|
                    0 <= u < t + 1 && members@[u] == j) by {
                    if j == m {
                        assert(members@[t as int] == j);
                    }
                }
            }
            t = t + 1;
        }
        proof {
            count = count + members@.len();
            lemma_num_true_bound(placed@);
            lemma_below_monotone(tasks@, k);
            assert forall|j: int| 0 <= j < n implies #[trigger] placed@[j] == below(tasks@, j, k + 1) by {
                if exists|u: int| 0 <= u < members@.len() && members@[u] == j {
                    let u = choose|u: int| 0 <= u < members@.len() && members@[u] == j;
                    assert(in_layer(tasks@, members@[u] as int, k));
                }
                if below(tasks@, j, k + 1) && !below(tasks@, j, k) {
                    assert(in_layer(tasks@, j, k));
                    assert(members@.contains(j as usize));
                    let u = choose|u: int| 0 <= u < members@.len() && members@[u] == j as usize;
                }
            }
        }
        let ghost old_layers = layers@;
        let ghost new_texts = texts(layer@);
        layers.push(layer);
        proof {
            assert(layers@ == old_layers.push(layers@[k]));
            assert(layer_texts(layers@)[k] == layer_ids(tasks@, k));
            assert(layer_texts(layers@)[k].len() > 0);
            assert forall|q: int| 0 <= q < layers@.len() implies #[trigger] layer_texts(layers@)[q] == layer_ids(tasks@, q)
                && layer_texts(layers@)[q].len() > 0 by {
                if q < k {
                    assert(layers@[q] == old_layers[q]);
                    assert(layer_texts(layers@)[q] == layer_texts(old_layers)[q]);
                }
            }
        }
    }
    proof {
        let k = layers@.len() as int;
        lemma_layer_ids_upto_members(tasks@, k, n as nat);
        lemma_below_monotone(tasks@, k);
        assert forall|j: int| 0 <= j < n implies #[trigger] below(tasks@, j, k + 1) == below(tasks@, j, k) by {
            if below(tasks@, j, k + 1) && !below(tasks@, j, k) {
                assert(names(tasks@, j, tasks@[j].id@));
                assert(layer_ids(tasks@, k).contains(tasks@[j].id@));
            }
        }
        assert forall|j: int| 0 <= j < n implies #[trigger] placed@[j] == scheduled(tasks@, j) by {
            if scheduled(tasks@, j) {
                let k2 = choose|k2: int| below(tasks@, j, k2);
                if k2 <= k {
                    lemma_below_monotone_to(tasks@, j, k2, k);
                } else {
                    lemma_below_stable(tasks@, k, k2);
                }
            }
        }
    }
    (layers, placed)
}

proof fn lemma_num_true_zero(s: Seq<bool>)
    requires
        forall|j: int| 0 <= j < s.len() ==> !#[trigger] s[j],
    ensures
        num_true(s) == 0,
    decreases s.len(),
{
    if s.len() > 0 {
        lemma_num_true_zero(s.drop_last());
    }
}

/// Whether `layer` holds `id`.
fn layer_holds(layer: &Vec<String>, id: &String) -> (r: bool)
    ensures
        r == texts(layer@).contains(id@),
{
    let mut t: usize = 0;
    while t < layer.len()
        invariant
            t <= layer@.len(),
            forall|u: int| 0 <= u < t ==> layer@[u]@ != id@,
        decreases layer.len() - t,
    {
        if crate::text::str_eq(layer[t].as_str(), id.as_str()) {
            assert(texts(layer@)[t as int] == id@);
            return true;
        }
        t = t + 1;
    }
    proof {
        if texts(layer@).contains(id@) {
            let w = choose|w: int| 0 <= w < texts(layer@).len() && texts(layer@)[w] == id@;
            assert(layer@[w]@ == id@);
        }
    }
    false
}

/// The position in `prev` of the last entry named in `deps`, if any.
fn last_dep_position(deps: &Vec<String>, prev: &Vec<String>) -> (r: Option<usize>)
    ensures
        match r {
            Some(p) => p as int == last_dep_at(texts(deps@), texts(prev@), prev@.len()),
            None => last_dep_at(texts(deps@), texts(prev@), prev@.len()) == -1,
        },
{
    let ghost ds = texts(deps@);
    let ghost ps = texts(prev@);
    let mut last: Option<usize> = None;
    let mut p: usize = 0;
    while p < prev.len()
        invariant
            p <= prev@.len(),
            ds == texts(deps@),
            ps == texts(prev@),
            match last {
                Some(x) => x as int == last_dep_at(ds, ps, p as nat),
                None => last_dep_at(ds, ps, p as nat) == -1,
            },
        decreases prev.len() - p,
    {
        if layer_holds(deps, &prev[p]) {
            last = Some(p);
        }
        proof {
            assert(ps[p as int] == prev@[p as int]@);
        }
        p = p + 1;
    }
    last
}

/// A copy of a list of strings.
fn copy_texts(v: &Vec<String>) -> (r: Vec<String>)
    ensures
        texts(r@) == texts(v@),
{
    let mut out: Vec<String> = Vec::new();
    let mut i: usize = 0;
    while i < v.len()
        invariant
            i <= v@.len(),
            texts(out@) == texts(v@).subrange(0, i as int),
        decreases v.len() - i,
    {
        let ghost before = out@;
        out.push(v[i].clone());
        proof {
            assert(texts(out@) =~= texts(before).push(v@[i as int]@));
            assert(texts(v@).subrange(0, i + 1) =~= texts(v@).subrange(0, i as int).push(v@[i as int]@));
        }
        i = i + 1;
    }
    proof {
        assert(texts(v@).subrange(0, v@.len() as int) =~= texts(v@));
    }
    out
}

/// Layer `k` (whose tasks are `members`, in task order) in Kahn's order after
/// the layer before ran in the order `prev`.
fn kahn_next(tasks: &[TaskSpec], members: &Vec<String>, prev_v: &Vec<String>, k: usize) -> (layer: Vec<String>)
    requires
        ids_distinct(tasks@),
        texts(members@) == layer_ids(tasks@, k as int),
    ensures
        texts(layer@) == kahn_order(tasks@, k as int, texts(prev_v@), prev_v@.len()),
{
    let n = tasks.len();
    let ghost kk = k as int;
    let ghost prev = texts(prev_v@);
    proof {
        lemma_layer_ids_upto_members(tasks@, kk, n as nat);
    }
    let mut layer: Vec<String> = Vec::new();
    let mut q: usize = 0;
    while q < prev_v.len()
        invariant
            n == tasks@.len(),
            ids_distinct(tasks@),
            texts(prev_v@) == prev,
            texts(members@) == layer_ids(tasks@, kk),
            kk == k,
            forall|d: Seq<char>| #[trigger] layer_ids_upto(tasks@, kk, n as nat).contains(d) <==> exists|i: int|
                0 <= i < n && names(tasks@, i, d) && in_layer(tasks@, i, kk),
            q <= prev_v@.len(),
            texts(layer@) == kahn_order(tasks@, kk, prev, q as nat),
        decreases prev_v.len() - q,
    {
        let mut i: usize = 0;
        let ghost base = texts(layer@);
        while i < n
            invariant
                n == tasks@.len(),
                ids_distinct(tasks@),
                texts(prev_v@) == prev,
                texts(members@) == layer_ids(tasks@, kk),
                kk == k,
                forall|d: Seq<char>| #[trigger] layer_ids_upto(tasks@, kk, n as nat).contains(d) <==> exists|i: int|
                    0 <= i < n && names(tasks@, i, d) && in_layer(tasks@, i, kk),
                q < prev_v@.len(),
                i <= n,
                base == kahn_order(tasks@, kk, prev, q as nat),
                texts(layer@) == base + kahn_group(tasks@, kk, prev, q as int, i as nat),
            decreases n - i,
        {
            let member = layer_holds(members, &tasks[i].id);
            proof {
                if member {
                    let j = choose|j: int| 0 <= j < n && names(tasks@, j, tasks@[i as int].id@) && in_layer(tasks@, j, kk);
                    assert(j == i) by {
                        if j < i {
                            assert(tasks@[j].id@ != tasks@[i as int].id@);
                        } else if i < j {
                            assert(tasks@[i as int].id@ != tasks@[j].id@);
                        }
                    }
                }
                if in_layer(tasks@, i as int, kk) {
                    assert(names(tasks@, i as int, tasks@[i as int].id@));
                }
            }
            let pos = last_dep_position(&tasks[i].depends_on, prev_v);
            let hit = match pos {
                Some(p) => member && p == q,
                None => false,
            };
            let ghost before = texts(layer@);
            if hit {
                layer.push(tasks[i].id.clone());
                proof {
                    assert(texts(layer@) =~= before.push(tasks@[i as int].id@));
                }
            }
            proof {
                assert(texts(layer@) =~= base + kahn_group(tasks@, kk, prev, q as int, (i + 1) as nat));
            }
            i = i + 1;
        }
        proof {
            assert(kahn_order(tasks@, kk, prev, (q + 1) as nat) == kahn_order(tasks@, kk, prev, q as nat)
                + kahn_group(tasks@, kk, prev, q as int, tasks@.len()));
        }
        q = q + 1;
    }
    layer
}

/// Group task ids into execution layers: every task in layer N only depends
/// on tasks in layers < N, so each layer can run fully in parallel. The
/// first layer lists its tasks in task order; a later layer lists a task
/// once the last of its dependencies in the layer before has finished, in
/// the order those finished, and tasks freed together in task order (the
/// order of Kahn's algorithm).
///
/// Call `validate_dag` first — on a cyclic graph this silently drops the
/// cyclic tasks.
pub fn topo_layers(tasks: &[TaskSpec]) -> (layers: Vec<Vec<String>>)
    requires
        ids_distinct(tasks@),
    ensures
        kahn_layers(tasks@, layer_texts(layers@)),
        holds_layers(tasks@, layer_texts(layers@)),
{
    let (plain, _) = compute_layers(tasks);
    let ghost pl = layer_texts(plain@);
    let mut out: Vec<Vec<String>> = Vec::new();
    let mut k: usize = 0;
    while k < plain.len()
        invariant
            ids_distinct(tasks@),
            pl == layer_texts(plain@),
            is_layering(tasks@, pl),
            k <= plain@.len(),
            out@.len() == k,
            kahn_chain(tasks@, layer_texts(out@)),
        decreases plain.len() - k,
    {
        let ghost old_out = out@;
        let layer = if k == 0 {
            copy_texts(&plain[0])
        } else {
            proof {
                assert(pl[k as int] == layer_ids(tasks@, k as int));
            }
            kahn_next(tasks, &plain[k], &out[k - 1], k)
        };
        proof {
            assert(pl[0] == layer_ids(tasks@, 0));
        }
        out.push(layer);
        proof {
            assert(layer_texts(out@) =~= layer_texts(old_out).push(texts(layer@)));
            lemma_kahn_chain_push(tasks@, layer_texts(old_out), texts(layer@));
        }
        k = k + 1;
    }
    proof {
        lemma_kahn_chain_layers(tasks@, layer_texts(out@), pl);
        lemma_kahn_holds(tasks@, layer_texts(out@));
    }
    out
}

/// A chain in Kahn's order grows by the next layer in that order.
proof fn lemma_kahn_chain_push(tasks: Seq<TaskSpec>, old: Seq<Seq<Seq<char>>>, next: Seq<Seq<char>>)
    requires
        kahn_chain(tasks, old),
        next == if old.len() == 0 {
            layer_ids(tasks, 0)
        } else {
            kahn_order(tasks, old.len() as int, old.last(), old.last().len())
        },
    ensures
        kahn_chain(tasks, old.push(next)),
{
    let s = old.push(next);
    assert forall|q: int| 0 <= q < s.len() implies #[trigger] s[q] == if q == 0 {
        layer_ids(tasks, 0)
    } else {
        kahn_order(tasks, q, s[q - 1], s[q - 1].len())
    } by {
        if q < old.len() {
            assert(s[q] == old[q]);
            if q > 0 {
                assert(s[q - 1] == old[q - 1]);
            }
        } else if q > 0 {
            assert(s[q - 1] == old.last());
        }
    }
}

/// A chain in Kahn's order as long as the layering holds every layer.
proof fn lemma_kahn_chain_layers(tasks: Seq<TaskSpec>, lt: Seq<Seq<Seq<char>>>, pl: Seq<Seq<Seq<char>>>)
    requires
        ids_distinct(tasks),
        kahn_chain(tasks, lt),
        is_layering(tasks, pl),
        lt.len() == pl.len(),
    ensures
        kahn_layers(tasks, lt),
{
    assert forall|q: int| 0 <= q < lt.len() implies #[trigger] lt[q].len() > 0 by {
        lemma_kahn_layer_members(tasks, lt, q);
        assert(pl[q] == layer_ids(tasks, q));
        assert(pl[q].len() > 0);
        lemma_layer_ids_upto_members(tasks, q, tasks.len());
        let d = pl[q][0];
        assert(layer_ids(tasks, q).contains(d));
        let i = choose|i: int| 0 <= i < tasks.len() && names(tasks, i, d) && in_layer(tasks, i, q);
        assert(lt[q].contains(d));
    }
}

// ── validation ───────────────────────────────────────────────────────────

/// Task `i` is the first task whose id an earlier task already has.
pub open spec fn first_duplicate(tasks: Seq<TaskSpec>, i: int) -> bool {
    &&& 0 <= i < tasks.len()
    &&& exists|j: int| 0 <= j < i && tasks[j].id@ == tasks[i].id@
    &&& forall|a: int, b: int| 0 <= b < a < i ==> tasks[b].id@ != tasks[a].id@
}

/// Dependency `e` of task `i` names the task itself or no task at all.
pub open spec fn bad_dep(tasks: Seq<TaskSpec>, i: int, e: int) -> bool {
    dep_name(tasks, i, e) == tasks[i].id@ || !has_task(tasks, dep_name(tasks, i, e))
}

/// Dependency `e` of task `i` exists.
pub open spec fn is_dep(tasks: Seq<TaskSpec>, i: int, e: int) -> bool {
    0 <= i < tasks.len() && 0 <= e < tasks[i].depends_on@.len()
}

/// Some dependency is bad.
pub open spec fn has_bad_dep(tasks: Seq<TaskSpec>) -> bool {
    exists|i: int, e: int| is_dep(tasks, i, e) && #[trigger] bad_dep(tasks, i, e)
}

/// Dependency `e` of task `i` is the first bad one, taking tasks in order and
/// each task's dependencies in order.
pub open spec fn first_bad_dep(tasks: Seq<TaskSpec>, i: int, e: int) -> bool {
    &&& is_dep(tasks, i, e)
    &&& bad_dep(tasks, i, e)
    &&& forall|i2: int, e2: int|
        is_dep(tasks, i2, e2) && (i2 < i || (i2 == i && e2 < e)) ==> !#[trigger] bad_dep(tasks, i2, e2)
}

/// Every task sits in some layer.
pub open spec fn all_scheduled(tasks: Seq<TaskSpec>) -> bool {
    forall|i: int| 0 <= i < tasks.len() ==> #[trigger] scheduled(tasks, i)
}

/// `tasks` form a proper DAG: there is a task, ids are unique, every
/// dependency names another existing task, and no task is on or behind a cycle.
pub open spec fn is_valid_dag(tasks: Seq<TaskSpec>) -> bool {
    &&& tasks.len() > 0
    &&& ids_distinct(tasks)
    &&& !has_bad_dep(tasks)
    &&& all_scheduled(tasks)
}

/// Validate that the task list forms a proper DAG.
pub fn validate_dag(tasks: &[TaskSpec]) -> (r: Result<(), DagError>)
    ensures
        r is Ok <==> is_valid_dag(tasks@),
        r matches Err(DagError::Empty) <==> tasks@.len() == 0,
        r matches Err(DagError::DuplicateTask(d)) ==> exists|i: int|
            first_duplicate(tasks@, i) && d@ == tasks@[i].id@,
        tasks@.len() > 0 && !ids_distinct(tasks@) ==> r matches Err(DagError::DuplicateTask(_)),
        r matches Err(DagError::SelfDependency(t)) ==> ids_distinct(tasks@) && exists|i: int, e: int|
            first_bad_dep(tasks@, i, e) && dep_name(tasks@, i, e) == tasks@[i].id@ && t@ == tasks@[i].id@,
        r matches Err(DagError::UnknownDependency { task, dep }) ==> ids_distinct(tasks@) && exists|i: int, e: int|
            first_bad_dep(tasks@, i, e) && dep_name(tasks@, i, e) != tasks@[i].id@ && task@ == tasks@[i].id@
                && dep@ == dep_name(tasks@, i, e),
        tasks@.len() > 0 && ids_distinct(tasks@) && has_bad_dep(tasks@) ==> (r matches Err(
            DagError::SelfDependency(_),
        ) || r matches Err(DagError::UnknownDependency { .. })),
        r matches Err(DagError::Cycle(c)) ==> {
            &&& tasks@.len() > 0
            &&& ids_distinct(tasks@)
            &&& !has_bad_dep(tasks@)
            &&& texts(c@).len() > 0
            &&& strictly_sorted(texts(c@))
            &&& texts(c@).to_set() == unscheduled_ids(tasks@)
        },
{
    let n = tasks.len();
    if n == 0 {
        return Err(DagError::Empty);
    }
    // Ids must be unique.
    let mut i: usize = 0;
    while i < n
        invariant
            n == tasks@.len(),
            i <= n,
            forall|a: int, b: int| 0 <= b < a < i ==> tasks@[b].id@ != tasks@[a].id@,
        decreases n - i,
    {
        let mut j: usize = 0;
        while j < i
            invariant
                n == tasks@.len(),
                j <= i < n,
                forall|a: int, b: int| 0 <= b < a < i ==> tasks@[b].id@ != tasks@[a].id@,
                forall|b: int| 0 <= b < j ==> tasks@[b].id@ != tasks@[i as int].id@,
            decreases i - j,
        {
            if tasks[j].id == tasks[i].id {
                proof {
                    assert(tasks@[j as int].id@ == tasks@[i as int].id@);
                    assert(first_duplicate(tasks@, i as int));
                }
                return Err(DagError::DuplicateTask(tasks[i].id.clone()));
            }
            j = j + 1;
        }
        i = i + 1;
    }
    // Every dependency must name another existing task.
    let mut i: usize = 0;
    while i < n
        invariant
            n == tasks@.len(),
            ids_distinct(tasks@),
            i <= n,
            forall|i2: int, e2: int| is_dep(tasks@, i2, e2) && i2 < i ==> !#[trigger] bad_dep(tasks@, i2, e2),
        decreases n - i,
    {
        let deps = &tasks[i].depends_on;
        let mut e: usize = 0;
        while e < deps.len()
            invariant
                n == tasks@.len(),
                ids_distinct(tasks@),
                i < n,
                *deps == tasks@[i as int].depends_on,
                e <= deps.len(),
                forall|i2: int, e2: int|
                    is_dep(tasks@, i2, e2) && (i2 < i || (i2 == i && e2 < e)) ==> !#[trigger] bad_dep(tasks@, i2, e2),
            decreases deps.len() - e,
        {
            if deps[e] == tasks[i].id {
                proof {
                    assert(first_bad_dep(tasks@, i as int, e as int));
                }
                return Err(DagError::SelfDependency(tasks[i].id.clone()));
            }
            if find_task(tasks, &deps[e]).is_none() {
                proof {
                    assert(first_bad_dep(tasks@, i as int, e as int));
                }
                return Err(DagError::UnknownDependency { task: tasks[i].id.clone(), dep: deps[e].clone() });
            }
            e = e + 1;
        }
        i = i + 1;
    }
    proof {
        assert(!has_bad_dep(tasks@));
    }
    // Whatever no layer holds is on or behind a cycle.
    let (_, placed) = compute_layers(tasks);
    let mut cyclic: Vec<String> = Vec::new();
    let ghost mut at: Seq<int> = Seq::empty();
    let mut i: usize = 0;
    while i < n
        invariant
            n == tasks@.len(),
            ids_distinct(tasks@),
            placed@.len() == n,
            forall|j: int| 0 <= j < n ==> #[trigger] placed@[j] == scheduled(tasks@, j),
            i <= n,
            at.len() == cyclic@.len(),
            forall|t: int| 0 <= t < at.len() ==> 0 <= #[trigger] at[t] < i,
            forall|t: int, u: int| 0 <= t < u < at.len() ==> at[t] < at[u],
            forall|t: int| 0 <= t < at.len() ==> texts(cyclic@)[t] == tasks@[#[trigger] at[t]].id@
                && !scheduled(tasks@, at[t]),
            forall|j: int| 0 <= j < i && !scheduled(tasks@, j) ==> #[trigger] at.contains(j),
        decreases n - i,
    {
        let ghost old_at = at;
        if !placed[i] {
            cyclic.push(tasks[i].id.clone());
            proof {
                at = at.push(i as int);
            }
        }
        proof {
            assert forall|j: int| 0 <= j < i + 1 && !scheduled(tasks@, j) implies #[trigger] at.contains(j) by {
                if j == i {
                    assert(at[at.len() - 1] == j);
                } else {
                    assert(old_at.contains(j));
                    let w = choose|w: int| 0 <= w < old_at.len() && old_at[w] == j;
                    assert(at[w] == j);
                }
            }
        }
        i = i + 1;
    }
    proof {
        assert(texts(cyclic@).no_duplicates()) by {
            assert forall|t: int, u: int| 0 <= t < u < texts(cyclic@).len() implies texts(cyclic@)[t] != texts(cyclic@)[u] by {
                assert(at[t] < at[u]);
            }
        }
        assert(texts(cyclic@).to_set() =~= unscheduled_ids(tasks@)) by {
            assert forall|d: Seq<char>| texts(cyclic@).to_set().contains(d) <==> unscheduled_ids(tasks@).contains(d) by {
                if texts(cyclic@).to_set().contains(d) {
                    let t = choose|t: int| 0 <= t < texts(cyclic@).len() && texts(cyclic@)[t] == d;
                    assert(names(tasks@, at[t], d));
                }
                if unscheduled_ids(tasks@).contains(d) {
                    let j = choose|j: int| names(tasks@, j, d) && !scheduled(tasks@, j);
                    assert(at.contains(j));
                    let t = choose|t: int| 0 <= t < at.len() && at[t] == j;
                    assert(texts(cyclic@)[t] == d);
                }
            }
        }
    }
    if cyclic.len() == 0 {
        proof {
            assert forall|j: int| 0 <= j < n implies #[trigger] scheduled(tasks@, j) by {
                if !scheduled(tasks@, j) {
                    assert(at.contains(j));
                }
            }
        }
        Ok(())
    } else {
        proof {
            assert(!all_scheduled(tasks@)) by {
                assert(!scheduled(tasks@, at[0]));
            }
        }
        Err(DagError::Cycle(sort_strings(cyclic)))
    }
}

// ── messages ─────────────────────────────────────────────────────────────

/// The text that `{:?}` gives a list of strings, e.g. `["a", "b"]`.
pub uninterp spec fn debug_list_text(items: Seq<Seq<char>>) -> Seq<char>;

/// Format a list of strings with `{:?}`.
#[verifier::external_body]
fn debug_list(items: &Vec<String>) -> (r: String)
    ensures
        r@ == debug_list_text(texts(items@)),
{
    format!("{:?}", items)
}

/// The message of a DAG error.
pub open spec fn dag_error_text(e: DagError) -> Seq<char> {
    match e {
        DagError::Empty => "workflow has no tasks"@,
        DagError::DuplicateTask(id) => "duplicate task id `"@ + id@ + "`"@,
        DagError::UnknownDependency { task, dep } => "task `"@ + task@ + "` depends on unknown task `"@
            + dep@ + "`"@,
        DagError::SelfDependency(id) => "task `"@ + id@ + "` depends on itself"@,
        DagError::Cycle(ids) => "dependency cycle involving tasks: "@ + debug_list_text(texts(ids@)),
    }
}

impl DagError {
    /// The human-readable message of this error.
    pub fn message(&self) -> (m: String)
        ensures
            m@ == dag_error_text(*self),
    {
        match self {
            DagError::Empty => String::from_str("workflow has no tasks"),
            DagError::DuplicateTask(id) => {
                let m = String::from_str("duplicate task id `").concat(id.as_str());
                m.concat("`")
            },
            DagError::UnknownDependency { task, dep } => {
                let m = String::from_str("task `").concat(task.as_str());
                let m = m.concat("` depends on unknown task `").concat(dep.as_str());
                m.concat("`")
            },
            DagError::SelfDependency(id) => {
                let m = String::from_str("task `").concat(id.as_str());
                m.concat("` depends on itself")
            },
            DagError::Cycle(ids) => {
                let list = debug_list(ids);
                String::from_str("dependency cycle involving tasks: ").concat(list.as_str())
            },
        }
    }
}

} // verus!
