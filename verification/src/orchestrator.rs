//! The orchestrator's decisions: how parameters combine, how a run walks its
//! DAG layer by layer, and how a task is retried.

use vstd::prelude::*;

use vstd::string::StringExecFns;

use crate::dag::{
    dep_name, find_task, has_task, holds_layers, ids_distinct, in_layer, kahn_layers, layer_texts,
    lemma_layers_partition, lemma_layers_respect_dependencies, names, scheduled, topo_layers,
};
use crate::json::{find_key, get_member, has_key, insert_member, is_first_key, keys_distinct,
    lemma_first_key_exists, lemma_member_at, lemma_members_view_index, member, members_view, Json,
    JsonV};
use crate::exec::{describe, described, ExecError, ExecOutcome};
use crate::model::{fresh_run, fresh_task_run, terminal, Id, Run, RunState, TaskRun, TaskSpec, Timestamp, Workflow};
use crate::text::{dec_text, decimal, lines_of, push_tagged_lines, tagged_nonblank, texts};

verus! {

/// What shallow-merging `overlay` over `base` gives: objects merge key by key
/// with the overlay winning; a null overlay keeps `base`; any other overlay
/// replaces it.
pub open spec fn merged(base: JsonV, overlay: JsonV, r: JsonV) -> bool {
    match (base, overlay) {
        (JsonV::Object(b), JsonV::Object(o)) => {
            &&& r is Object
            &&& forall|k: Seq<char>|
                #[trigger] member(r->Object_0, k) == if has_key(o, k) {
                    member(o, k)
                } else {
                    member(b, k)
                }
        },
        (_, JsonV::Null) => r == base,
        _ => r == overlay,
    }
}

/// Shallow-merge two JSON values. Objects merge key by key (`overlay` wins);
/// anything else: `overlay` replaces `base` unless it is null.
pub fn merge_params(base: &Json, overlay: &Json) -> (r: Json)
    requires
        overlay@ is Object ==> keys_distinct(overlay@->Object_0),
    ensures
        merged(base@, overlay@, r@),
        base@ is Object && overlay@ is Object && keys_distinct(base@->Object_0)
            ==> keys_distinct(r@->Object_0),
{
    match (base, overlay) {
        (Json::Object(b), Json::Object(o)) => {
            let copy = base.deep_copy();
            let mut out: Vec<(String, Json)> = match copy {
                Json::Object(m) => m,
                _ => Vec::new(),
            };
            let ghost bv = members_view(b@);
            let ghost ov = members_view(o@);
            proof {
                lemma_members_view_index(o@);
            }
            let mut i: usize = 0;
            while i < o.len()
                invariant
                    i <= o.len(),
                    ov == members_view(o@),
                    bv == members_view(b@),
                    ov.len() == o.len(),
                    forall|j: int| 0 <= j < o.len() ==> #[trigger] ov[j] == (o@[j].0@, o@[j].1@),
                    keys_distinct(ov),
                    forall|k: Seq<char>|
                        #[trigger] member(members_view(out@), k) == if has_key(ov.subrange(0, i as int), k) {
                            member(ov, k)
                        } else {
                            member(bv, k)
                        },
                    keys_distinct(bv) ==> keys_distinct(members_view(out@)),
                decreases o.len() - i,
            {
                let key = o[i].0.clone();
                let value = o[i].1.deep_copy();
                let ghost before = members_view(out@);
                let ghost kv = key@;
                proof {
                    lemma_members_view_index(out@);
                    lemma_member_at(ov, kv, i as int);
                    assert(ov[i as int].0 == kv);
                }
                match find_key(&out, &key) {
                    Some(at) => {
                        out.set(at, (key, value));
                        proof {
                            lemma_members_view_index(out@);
                            let after = members_view(out@);
                            assert(after =~= before.update(at as int, (kv, value@)));
                            assert forall|k: Seq<char>| #[trigger] member(after, k) == if has_key(ov.subrange(0, i + 1), k) {
                                member(ov, k)
                            } else {
                                member(bv, k)
                            } by {
                                if k == kv {
                                    assert(is_first_key(after, k, at as int));
                                    lemma_member_at(after, k, at as int);
                                    assert(ov.subrange(0, i + 1)[i as int].0 == k);
                                } else {
                                    if has_key(before, k) {
                                        lemma_first_key_exists(before, k);
                                        let f = choose|f: int| is_first_key(before, k, f);
                                        assert(is_first_key(after, k, f));
                                        lemma_member_at(before, k, f);
                                        lemma_member_at(after, k, f);
                                    } else {
                                        assert(!has_key(after, k));
                                    }
                                    let pre = ov.subrange(0, i as int);
                                    let pre1 = ov.subrange(0, i + 1);
                                    assert(member(before, k) == if has_key(pre, k) {
                                        member(ov, k)
                                    } else {
                                        member(bv, k)
                                    });
                                    if has_key(pre1, k) {
                                        let w = choose|w: int| 0 <= w < pre1.len() && pre1[w].0 == k;
                                        assert(pre[w].0 == k);
                                    }
                                    if has_key(pre, k) {
                                        let w = choose|w: int| 0 <= w < pre.len() && pre[w].0 == k;
                                        assert(pre1[w].0 == k);
                                        assert(ov[w].0 == k);
                                        assert(has_key(ov, k));
                                        lemma_first_key_exists(ov, k);
                                    }
                                }
                            }
                        }
                    },
                    None => {
                        out.push((key, value));
                        proof {
                            lemma_members_view_index(out@);
                            let after = members_view(out@);
                            assert(after =~= before.push((kv, value@)));
                            assert forall|k: Seq<char>| #[trigger] member(after, k) == if has_key(ov.subrange(0, i + 1), k) {
                                member(ov, k)
                            } else {
                                member(bv, k)
                            } by {
                                if k == kv {
                                    assert(!has_key(before, kv));
                                    assert(after[before.len() as int] == (kv, value@));
                                    assert(forall|j: int| 0 <= j < before.len() ==> after[j] == before[j]);
                                    assert(is_first_key(after, k, before.len() as int));
                                    lemma_member_at(after, k, before.len() as int);
                                    assert(ov.subrange(0, i + 1)[i as int].0 == k);
                                } else {
                                    if has_key(before, k) {
                                        lemma_first_key_exists(before, k);
                                        let f = choose|f: int| is_first_key(before, k, f);
                                        assert(is_first_key(after, k, f));
                                        lemma_member_at(before, k, f);
                                        lemma_member_at(after, k, f);
                                    } else {
                                        assert(!has_key(after, k));
                                    }
                                    let pre = ov.subrange(0, i as int);
                                    let pre1 = ov.subrange(0, i + 1);
                                    assert(member(before, k) == if has_key(pre, k) {
                                        member(ov, k)
                                    } else {
                                        member(bv, k)
                                    });
                                    if has_key(pre1, k) {
                                        let w = choose|w: int| 0 <= w < pre1.len() && pre1[w].0 == k;
                                        assert(pre[w].0 == k);
                                    }
                                    if has_key(pre, k) {
                                        let w = choose|w: int| 0 <= w < pre.len() && pre[w].0 == k;
                                        assert(pre1[w].0 == k);
                                        assert(ov[w].0 == k);
                                        assert(has_key(ov, k));
                                        lemma_first_key_exists(ov, k);
                                    }
                                }
                            }
                        }
                    },
                }
                i = i + 1;
            }
            proof {
                assert(ov.subrange(0, o.len() as int) =~= ov);
            }
            let r = Json::Object(out);
            assert(base@ == JsonV::Object(bv));
            assert(overlay@ == JsonV::Object(ov));
            assert(r@ == JsonV::Object(members_view(out@)));
            assert(merged(base@, overlay@, r@));
            r
        },
        (_, Json::Null) => base.deep_copy(),
        _ => overlay.deep_copy(),
    }
}


// ── inputs ───────────────────────────────────────────────────────────────

/// The inputs a task receives: for each task it depends on, that task's
/// result, keyed by the task's id; dependencies without a result are left out.
pub open spec fn inputs_of(deps: Seq<Seq<char>>, results: Seq<(Seq<char>, JsonV)>, inputs: JsonV) -> bool {
    &&& inputs is Object
    &&& keys_distinct(inputs->Object_0)
    &&& forall|k: Seq<char>|
        #[trigger] member(inputs->Object_0, k) == if deps.contains(k) {
            member(results, k)
        } else {
            None
        }
}

/// The inputs object for a task depending on `deps`, given the results so far.
pub fn gather_inputs(deps: &Vec<String>, results: &Vec<(String, Json)>) -> (r: Json)
    ensures
        inputs_of(texts(deps@), members_view(results@), r@),
{
    let mut out: Vec<(String, Json)> = Vec::new();
    let ghost rv = members_view(results@);
    let mut i: usize = 0;
    proof {
        lemma_members_view_index(out@);
    }
    while i < deps.len()
        invariant
            i <= deps.len(),
            rv == members_view(results@),
            keys_distinct(members_view(out@)),
            forall|k: Seq<char>|
                #[trigger] member(members_view(out@), k) == if texts(deps@.subrange(0, i as int)).contains(k) {
                    member(rv, k)
                } else {
                    None
                },
        decreases deps.len() - i,
    {
        let ghost before = members_view(out@);
        let ghost d = deps@[i as int]@;
        let ghost pre = texts(deps@.subrange(0, i as int));
        let ghost pre1 = texts(deps@.subrange(0, i + 1));
        proof {
            assert(pre1 =~= pre.push(d));
        }
        match get_member(results, deps[i].as_str()) {
            Some(v) => {
                let key = deps[i].clone();
                let value = v.deep_copy();
                insert_member(&mut out, key, value);
                proof {
                    assert forall|k: Seq<char>| #[trigger] member(members_view(out@), k) == if pre1.contains(k) {
                        member(rv, k)
                    } else {
                        None
                    } by {
                        if k != d {
                            if pre1.contains(k) {
                                let w = choose|w: int| 0 <= w < pre1.len() && pre1[w] == k;
                                assert(pre[w] == k);
                            }
                            if pre.contains(k) {
                                let w = choose|w: int| 0 <= w < pre.len() && pre[w] == k;
                                assert(pre1[w] == k);
                            }
                        } else {
                            assert(pre1[pre.len() as int] == k);
                        }
                    }
                }
            },
            None => {
                proof {
                    assert forall|k: Seq<char>| #[trigger] member(members_view(out@), k) == if pre1.contains(k) {
                        member(rv, k)
                    } else {
                        None
                    } by {
                        if k != d {
                            if pre1.contains(k) {
                                let w = choose|w: int| 0 <= w < pre1.len() && pre1[w] == k;
                                assert(pre[w] == k);
                            }
                            if pre.contains(k) {
                                let w = choose|w: int| 0 <= w < pre.len() && pre[w] == k;
                                assert(pre1[w] == k);
                            }
                        } else {
                            assert(pre1[pre.len() as int] == k);
                        }
                    }
                }
            },
        }
        i = i + 1;
    }
    proof {
        assert(deps@.subrange(0, deps@.len() as int) =~= deps@);
    }
    Json::Object(out)
}

// ── driving a run ────────────────────────────────────────────────────────

/// Every task's own parameters, when an object, name each key once.
pub open spec fn params_ok(tasks: Seq<TaskSpec>) -> bool {
    forall|i: int|
        0 <= i < tasks.len() && (#[trigger] tasks[i]).params@ is Object ==> keys_distinct(
            tasks[i].params@->Object_0,
        )
}

/// The launch of one task of a layer.
#[derive(Debug)]
pub struct TaskLaunch {
    /// The task's position in the workflow's task list.
    pub task_index: usize,
    pub task_id: String,
    /// The run's parameters merged with the task's own.
    pub params: Json,
    /// The results of the tasks it depends on, keyed by task id.
    pub inputs: Json,
}

/// What the driver asks for next.
#[derive(Debug)]
pub enum RunStep {
    /// Execute these tasks, all at once, and report back in this order.
    Execute(Vec<TaskLaunch>),
    /// The run is over, in this state.
    Finish { state: RunState, error: Option<String> },
}

/// How one launched task ended.
#[derive(Debug)]
pub enum TaskOutcome {
    /// The task produced this value.
    Succeeded(Json),
    /// The task failed, with this message, after its retries.
    Failed(String),
    /// The task's execution itself broke down, with this message.
    Crashed(String),
}

/// The failure that a task's outcome makes of the run, if any.
pub open spec fn outcome_failure(id: Seq<char>, o: TaskOutcome) -> Option<Seq<char>> {
    match o {
        TaskOutcome::Succeeded(_) => None,
        TaskOutcome::Failed(m) => Some("task `"@ + id + "` failed: "@ + m@),
        TaskOutcome::Crashed(m) => Some("task panicked: "@ + m@),
    }
}

/// The run's failure after the outcomes of a layer: the last failing
/// outcome's, or `prior` when none failed.
pub open spec fn layer_failure(ids: Seq<Seq<char>>, outcomes: Seq<TaskOutcome>, prior: Option<Seq<char>>) -> Option<
    Seq<char>,
>
    decreases outcomes.len(),
{
    if outcomes.len() == 0 {
        prior
    } else {
        match outcome_failure(ids[outcomes.len() - 1], outcomes.last()) {
            Some(f) => Some(f),
            None => layer_failure(ids, outcomes.drop_last(), prior),
        }
    }
}

proof fn lemma_layer_failure_none(ids: Seq<Seq<char>>, outcomes: Seq<TaskOutcome>, prior: Option<Seq<char>>)
    requires
        layer_failure(ids, outcomes, prior) is None,
    ensures
        prior is None,
        forall|j: int| 0 <= j < outcomes.len() ==> #[trigger] outcomes[j] is Succeeded,
    decreases outcomes.len(),
{
    if outcomes.len() > 0 {
        lemma_layer_failure_none(ids, outcomes.drop_last(), prior);
        assert forall|j: int| 0 <= j < outcomes.len() implies #[trigger] outcomes[j] is Succeeded by {
            if j < outcomes.len() - 1 {
                assert(outcomes.drop_last()[j] == outcomes[j]);
            }
        }
    }
}

/// Launch `l` starts the task called `id`: with the run's parameters merged
/// with the task's own, and the results of the tasks it depends on.
pub open spec fn launched(
    tasks: Seq<TaskSpec>,
    results: Seq<(Seq<char>, JsonV)>,
    run_params: JsonV,
    id: Seq<char>,
    l: TaskLaunch,
) -> bool {
    &&& names(tasks, l.task_index as int, id)
    &&& l.task_id@ == id
    &&& merged(run_params, tasks[l.task_index as int].params@, l.params@)
    &&& inputs_of(texts(tasks[l.task_index as int].depends_on@), results, l.inputs@)
}

/// The driver of one workflow run: it walks the DAG layer by layer, feeds
/// each task the results of the tasks it depends on, and stops launching at
/// the first layer with a failure.
pub struct RunDriver {
    layers: Vec<Vec<String>>,
    next: usize,
    pending: Vec<String>,
    results: Vec<(String, Json)>,
    failure: Option<String>,
    tasks: Ghost<Seq<TaskSpec>>,
}

impl RunDriver {
    /// The workflow's tasks.
    pub closed spec fn tasks(&self) -> Seq<TaskSpec> {
        self.tasks@
    }

    /// The layers the run walks, in order.
    pub closed spec fn layers(&self) -> Seq<Seq<Seq<char>>> {
        layer_texts(self.layers@)
    }

    /// How many layers have been launched.
    pub closed spec fn next(&self) -> int {
        self.next as int
    }

    /// The tasks of the layer launched and not yet reported, in launch order.
    pub closed spec fn pending(&self) -> Seq<Seq<char>> {
        texts(self.pending@)
    }

    /// The results of the tasks that succeeded, keyed by task id.
    pub closed spec fn results(&self) -> Seq<(Seq<char>, JsonV)> {
        members_view(self.results@)
    }

    /// Why the run failed, once a task has failed.
    pub closed spec fn failure(&self) -> Option<Seq<char>> {
        match self.failure {
            Some(f) => Some(f@),
            None => None,
        }
    }

    /// The layers whose every task has reported.
    pub open spec fn reported(&self) -> int {
        if self.pending().len() > 0 {
            self.next() - 1
        } else {
            self.next()
        }
    }

    /// The driver's invariant: it walks the layering of its tasks; the
    /// pending tasks are the last layer launched; and while no task has
    /// failed, every task of a reported layer has its result.
    pub open spec fn wf(&self) -> bool {
        &&& ids_distinct(self.tasks())
        &&& params_ok(self.tasks())
        &&& holds_layers(self.tasks(), self.layers())
        &&& 0 <= self.next() <= self.layers().len()
        &&& keys_distinct(self.results())
        &&& self.pending().len() > 0 ==> self.next() > 0 && self.pending() == self.layers()[self.next() - 1]
        &&& self.failure() is None ==> forall|q: int, d: Seq<char>|
            0 <= q < self.reported() && #[trigger] self.layers()[q].contains(d) ==> has_key(
                self.results(),
                d,
            )
    }

    /// A driver for a run of `tasks`, before anything is launched.
    pub fn new(tasks: &[TaskSpec]) -> (d: RunDriver)
        requires
            ids_distinct(tasks@),
            params_ok(tasks@),
        ensures
            d.wf(),
            d.tasks() == tasks@,
            kahn_layers(tasks@, d.layers()),
            d.next() == 0,
            d.pending().len() == 0,
            d.results().len() == 0,
            d.failure() is None,
    {
        let layers = topo_layers(tasks);
        let d = RunDriver {
            layers,
            next: 0,
            pending: Vec::new(),
            results: Vec::new(),
            failure: None,
            tasks: Ghost(tasks@),
        };
        proof {
            assert(texts(d.pending@) =~= Seq::<Seq<char>>::empty());
            assert(members_view(d.results@) =~= Seq::<(Seq<char>, JsonV)>::empty());
        }
        d
    }

    /// What to do next: launch the next layer while no task has failed and
    /// layers remain; otherwise finish, failed with the failure's message or
    /// completed.
    pub fn next_step(&mut self, run_params: &Json, tasks: &[TaskSpec]) -> (step: RunStep)
        requires
            old(self).wf(),
            old(self).pending().len() == 0,
            tasks@ == old(self).tasks(),
        ensures
            final(self).wf(),
            final(self).tasks() == old(self).tasks(),
            final(self).results() == old(self).results(),
            final(self).failure() == old(self).failure(),
            match step {
                RunStep::Execute(launches) => {
                    &&& old(self).failure() is None
                    &&& old(self).next() < old(self).layers().len()
                    &&& final(self).next() == old(self).next() + 1
                    &&& final(self).pending() == old(self).layers()[old(self).next()]
                    &&& launches@.len() == final(self).pending().len()
                    &&& forall|j: int|
                        0 <= j < launches@.len() ==> launched(
                            old(self).tasks(),
                            old(self).results(),
                            run_params@,
                            final(self).pending()[j],
                            #[trigger] launches@[j],
                        )
                },
                RunStep::Finish { state, error } => {
                    &&& final(self).next() == old(self).next()
                    &&& final(self).pending().len() == 0
                    &&& match old(self).failure() {
                        Some(f) => state == RunState::Failed && (error matches Some(e) && e@ == f),
                        None => {
                            &&& old(self).next() == old(self).layers().len()
                            &&& state == RunState::Completed
                            &&& error is None
                        },
                    }
                },
            },
            // A launched task receives the result of every task it depends on.
            step matches RunStep::Execute(launches) ==> forall|j: int, e: int|
                0 <= j < launches@.len() && 0 <= e < tasks@[launches@[j].task_index as int].depends_on@.len()
                    ==> has_key(old(self).results(), #[trigger] dep_name(tasks@, launches@[j].task_index as int, e)),
            // A run completes only when every task of its DAG has succeeded.
            step matches RunStep::Finish { state: RunState::Completed, .. } ==> forall|i: int|
                0 <= i < tasks@.len() && #[trigger] scheduled(tasks@, i) ==> has_key(
                    old(self).results(),
                    tasks@[i].id@,
                ),
    {
        if let Some(f) = &self.failure {
            return RunStep::Finish { state: RunState::Failed, error: Some(f.clone()) };
        }
        if self.next >= self.layers.len() {
            proof {
                self.lemma_all_reported_complete();
            }
            return RunStep::Finish { state: RunState::Completed, error: None };
        }
        let ghost old_self = *self;
        let ghost k = self.next as int;
        let ghost layer = self.layers()[k];
        let layer_ids_vec = &self.layers[self.next];
        let mut launches: Vec<TaskLaunch> = Vec::new();
        let mut pending: Vec<String> = Vec::new();
        proof {
            assert(layer == texts(layer_ids_vec@));
        }
        let mut j: usize = 0;
        while j < layer_ids_vec.len()
            invariant
                old_self.wf(),
                old_self.failure() is None,
                old_self.pending().len() == 0,
                tasks@ == old_self.tasks(),
                k == old_self.next(),
                0 <= k < old_self.layers().len(),
                layer == old_self.layers()[k],
                layer == texts(layer_ids_vec@),
                j <= layer_ids_vec.len(),
                launches@.len() == j,
                texts(pending@) == layer.subrange(0, j as int),
                *layer_ids_vec == old_self.layers@[k],
                self.results == old_self.results,
                forall|q: int|
                    0 <= q < j ==> launched(
                        tasks@,
                        old_self.results(),
                        run_params@,
                        layer[q],
                        #[trigger] launches@[q],
                    ),
                forall|q: int| 0 <= q < j ==> #[trigger] in_layer(tasks@, launches@[q].task_index as int, k),
            decreases layer_ids_vec.len() - j,
        {
            let id = &layer_ids_vec[j];
            proof {
                assert(layer[j as int] == id@);
                assert(layer.contains(id@));
            }
            let idx = match find_task(tasks, id) {
                Some(i) => i,
                None => {
                    proof {
                        let w = choose|w: int| names(tasks@, w, id@) && in_layer(tasks@, w, k);
                        assert(names(tasks@, w, id@));
                    }
                    0
                },
            };
            proof {
                let w = choose|w: int| names(tasks@, w, id@) && in_layer(tasks@, w, k);
                assert(idx as int == w) by {
                    if (idx as int) != w {
                        assert(tasks@[idx as int].id@ == tasks@[w].id@);
                    }
                }
                assert(tasks@[idx as int] == tasks[idx as int]);
                assert(params_ok(tasks@));
            }
            let task = &tasks[idx];
            let params = merge_params(run_params, &task.params);
            let inputs = gather_inputs(&task.depends_on, &self.results);
            launches.push(TaskLaunch { task_index: idx, task_id: id.clone(), params, inputs });
            pending.push(id.clone());
            proof {
                assert(layer.subrange(0, j + 1) =~= layer.subrange(0, j as int).push(id@));
                assert(texts(pending@) =~= layer.subrange(0, j + 1));
            }
            j = j + 1;
        }
        proof {
            assert(layer.subrange(0, layer.len() as int) =~= layer);
            // Every task a launched task depends on sits in an earlier layer,
            // and so has its result.
            assert forall|q: int, e: int|
                0 <= q < launches@.len() && 0 <= e < tasks@[launches@[q].task_index as int].depends_on@.len()
                    implies has_key(old_self.results(), #[trigger] dep_name(tasks@, launches@[q].task_index as int, e)) by {
                let i = launches@[q].task_index as int;
                assert(in_layer(tasks@, i, k));
                lemma_layers_respect_dependencies(tasks@, i, k, e);
                let (j2, l) = choose|j2: int, l: int|
                    names(tasks@, j2, dep_name(tasks@, i, e)) && 0 <= l < k && #[trigger] in_layer(tasks@, j2, l);
                assert(old_self.layers()[l].contains(dep_name(tasks@, i, e)));
            }
        }
        self.pending = pending;
        self.next = self.next + 1;
        proof {
            assert(self.layers() == old_self.layers());
            assert forall|q: int, d: Seq<char>|
                0 <= q < self.reported() && #[trigger] self.layers()[q].contains(d) implies has_key(self.results(), d) by {
                assert(old_self.layers()[q].contains(d));
            }
        }
        RunStep::Execute(launches)
    }

    proof fn lemma_all_reported_complete(&self)
        requires
            self.wf(),
            self.failure() is None,
            self.pending().len() == 0,
            self.next() >= self.layers().len(),
        ensures
            forall|i: int|
                0 <= i < self.tasks().len() && #[trigger] scheduled(self.tasks(), i) ==> has_key(
                    self.results(),
                    self.tasks()[i].id@,
                ),
    {
        assert forall|i: int| 0 <= i < self.tasks().len() && #[trigger] scheduled(self.tasks(), i) implies has_key(
            self.results(),
            self.tasks()[i].id@,
        ) by {
            lemma_layers_partition(self.tasks(), self.layers(), i);
            let q = choose|q: int| 0 <= q < self.layers().len() && #[trigger] self.layers()[q].contains(self.tasks()[i].id@);
            assert(self.layers()[q].contains(self.tasks()[i].id@));
        }
    }

    /// Take in how each task of the launched layer ended, in launch order:
    /// successes' results are kept for the tasks downstream, and a failure
    /// (the last one, if several) becomes the run's.
    pub fn finish_layer(&mut self, outcomes: Vec<TaskOutcome>)
        requires
            old(self).wf(),
            old(self).pending().len() > 0,
            outcomes@.len() == old(self).pending().len(),
        ensures
            final(self).wf(),
            final(self).tasks() == old(self).tasks(),
            final(self).next() == old(self).next(),
            final(self).pending().len() == 0,
            final(self).failure() == layer_failure(old(self).pending(), outcomes@, old(self).failure()),
            forall|j: int|
                0 <= j < outcomes@.len() ==> (#[trigger] outcomes@[j] matches TaskOutcome::Succeeded(v)
                    ==> member(final(self).results(), old(self).pending()[j]) == Some(v@)),
            forall|k: Seq<char>|
                !(exists|j: int|
                    0 <= j < outcomes@.len() && old(self).pending()[j] == k && #[trigger] outcomes@[j] is Succeeded)
                    ==> #[trigger] member(final(self).results(), k) == member(old(self).results(), k),
    {
        let ghost old_self = *self;
        let ghost ids = old_self.pending();
        let ghost n = outcomes@.len();
        proof {
            assert(ids == old_self.layers()[old_self.next() - 1]);
            assert(ids.no_duplicates());
        }
        let mut i: usize = 0;
        let ghost all = outcomes@;
        while i < self.pending.len()
            invariant
                old_self.wf(),
                ids == old_self.pending(),
                ids.no_duplicates(),
                ids.len() == n,
                all == outcomes@,
                all.len() == n,
                i <= n,
                self.pending == old_self.pending,
                texts(self.pending@) == ids,
                self.layers == old_self.layers,
                self.next == old_self.next,
                self.tasks == old_self.tasks,
                keys_distinct(self.results()),
                match self.failure {
                    Some(f) => layer_failure(ids, all.subrange(0, i as int), old_self.failure()) == Some(f@),
                    None => layer_failure(ids, all.subrange(0, i as int), old_self.failure()) is None,
                },
                forall|j: int|
                    0 <= j < i ==> (#[trigger] all[j] matches TaskOutcome::Succeeded(v) ==> member(
                        self.results(),
                        ids[j],
                    ) == Some(v@)),
                forall|k: Seq<char>|
                    !(exists|j: int| 0 <= j < i && ids[j] == k && #[trigger] all[j] is Succeeded)
                        ==> #[trigger] member(self.results(), k) == member(old_self.results(), k),
                forall|k: Seq<char>| has_key(old_self.results(), k) ==> #[trigger] has_key(self.results(), k),
                forall|j: int| 0 <= j < i && #[trigger] all[j] is Succeeded ==> has_key(self.results(), ids[j]),
            decreases n - i,
        {
            let ghost before = self.results();
            let o = &outcomes[i];
            proof {
                assert(*o == all[i as int]);
                assert(all.subrange(0, i + 1).drop_last() =~= all.subrange(0, i as int));
                assert(all.subrange(0, i + 1).last() == all[i as int]);
            }
            let id = &self.pending[i];
            proof {
                assert(id@ == ids[i as int]);
            }
            match o {
                TaskOutcome::Succeeded(v0) => {
                    let key = id.clone();
                    let value = v0.deep_copy();
                    insert_member(&mut self.results, key, value);
                    proof {
                        assert forall|j: int|
                            0 <= j < i + 1 implies (#[trigger] all[j] matches TaskOutcome::Succeeded(v) ==> member(
                                self.results(),
                                ids[j],
                            ) == Some(v@)) by {
                            if j < i {
                                assert(ids[j] != ids[i as int]);
                            }
                        }
                        assert forall|k: Seq<char>|
                            !(exists|j: int| 0 <= j < i + 1 && ids[j] == k && #[trigger] all[j] is Succeeded)
                                implies #[trigger] member(self.results(), k) == member(old_self.results(), k) by {
                            assert(k != ids[i as int]);
                            if exists|j: int| 0 <= j < i && ids[j] == k && #[trigger] all[j] is Succeeded {
                                let j = choose|j: int| 0 <= j < i && ids[j] == k && #[trigger] all[j] is Succeeded;
                                assert(0 <= j < i + 1 && ids[j] == k && all[j] is Succeeded);
                            }
                        }
                        assert forall|j: int| 0 <= j < i + 1 && #[trigger] all[j] is Succeeded implies has_key(
                            self.results(),
                            ids[j],
                        ) by {}
                    }
                },
                TaskOutcome::Failed(message) => {
                    let f = String::from_str("task `").concat(id.as_str()).concat("` failed: ").concat(
                        message.as_str(),
                    );
                    self.failure = Some(f);
                    proof {
                        assert forall|k: Seq<char>|
                            !(exists|j: int| 0 <= j < i + 1 && ids[j] == k && #[trigger] all[j] is Succeeded)
                                implies #[trigger] member(self.results(), k) == member(old_self.results(), k) by {
                            if exists|j: int| 0 <= j < i && ids[j] == k && #[trigger] all[j] is Succeeded {
                                let j = choose|j: int| 0 <= j < i && ids[j] == k && #[trigger] all[j] is Succeeded;
                                assert(0 <= j < i + 1 && ids[j] == k && all[j] is Succeeded);
                            }
                        }
                    }
                },
                TaskOutcome::Crashed(message) => {
                    let f = String::from_str("task panicked: ").concat(message.as_str());
                    self.failure = Some(f);
                    proof {
                        assert forall|k: Seq<char>|
                            !(exists|j: int| 0 <= j < i + 1 && ids[j] == k && #[trigger] all[j] is Succeeded)
                                implies #[trigger] member(self.results(), k) == member(old_self.results(), k) by {
                            if exists|j: int| 0 <= j < i && ids[j] == k && #[trigger] all[j] is Succeeded {
                                let j = choose|j: int| 0 <= j < i && ids[j] == k && #[trigger] all[j] is Succeeded;
                                assert(0 <= j < i + 1 && ids[j] == k && all[j] is Succeeded);
                            }
                        }
                    }
                },
            }
            i = i + 1;
        }
        self.pending = Vec::new();
        proof {
            assert(all.subrange(0, n as int) =~= all);
            assert(texts(self.pending@) =~= Seq::<Seq<char>>::empty());
            if self.failure() is None {
                lemma_layer_failure_none(ids, all, old_self.failure());
                assert forall|q: int, d: Seq<char>|
                    0 <= q < self.reported() && #[trigger] self.layers()[q].contains(d) implies has_key(self.results(), d) by {
                    if q < self.next() - 1 {
                        assert(has_key(old_self.results(), d));
                    } else {
                        let w = choose|w: int| 0 <= w < ids.len() && ids[w] == d;
                        assert(all[w] is Succeeded);
                    }
                }
            }
        }
    }
}


// ── one task ─────────────────────────────────────────────────────────────

/// How many times a task is tried: once, plus its retries.
pub fn max_attempts(task: &TaskSpec) -> (n: u32)
    requires
        task.retries < u32::MAX,
    ensures
        n == task.retries + 1,
{
    task.retries + 1
}

/// The log line announcing that attempt `attempt` of `max` failed with
/// `error` and the task will be tried again.
pub open spec fn retry_notice(attempt: u32, max: u32, error: Seq<char>) -> Seq<char> {
    "attempt "@ + dec_text(attempt as nat) + "/"@ + dec_text(max as nat) + " failed ("@ + error
        + "); retrying"@
}

/// The log lines a failed execution adds to its task: a workload error's
/// stack trace, one line per non-blank line, tagged `[trace] `.
pub open spec fn trace_lines(e: ExecError) -> Seq<Seq<char>> {
    match e {
        ExecError::Workload { trace, .. } => tagged_nonblank(lines_of(trace@), "[trace] "@),
        _ => Seq::empty(),
    }
}

/// What becomes of a task after one attempt.
#[derive(Debug)]
pub enum AttemptVerdict {
    /// The attempt produced this value; the task is done.
    Succeeded(Json),
    /// The attempt failed and the task is tried again; this line is logged.
    Retry(String),
    /// The last attempt failed; the task fails with this message.
    GaveUp(String),
}

/// `b` is a state that a run or a task in state `a` may be in next: the
/// same state, a later one after `Pending`, or a terminal one after
/// `Running`. A terminal state moves nowhere.
pub open spec fn moves_forward(a: RunState, b: RunState) -> bool {
    ||| a == b
    ||| (a is Pending && !(b is Pending))
    ||| (a is Running && terminal(b))
}

/// Along any sequence of states in which each step moves forward, a state
/// never goes back: once running a run or task is never pending again, and
/// once terminal it never changes.
pub proof fn lemma_states_only_move_forward(states: Seq<RunState>, i: int, j: int)
    requires
        forall|k: int| 0 <= k < states.len() - 1 ==> moves_forward(#[trigger] states[k], states[k + 1]),
        0 <= i <= j < states.len(),
    ensures
        moves_forward(states[i], states[j]),
        terminal(states[i]) ==> states[j] == states[i],
        states[i] is Running ==> !(states[j] is Pending),
    decreases j - i,
{
    if i < j {
        lemma_states_only_move_forward(states, i, j - 1);
        assert(moves_forward(states[j - 1], states[j]));
    }
}

/// One step a run takes on a task row: starting it, recording an attempt
/// (number `attempt` of `max`, which succeeded or failed), or cancelling
/// the rows it never reached.
pub enum TaskStep {
    Begin,
    Attempt { attempt: u32, max: u32, succeeded: bool },
    Cancel,
}

/// The state a row in state `s` is left in by `step`: what `begin_task`,
/// `after_attempt` and `cancel_unreached` leave.
pub open spec fn task_step_state(s: RunState, step: TaskStep) -> RunState {
    match step {
        TaskStep::Begin => RunState::Running,
        TaskStep::Attempt { attempt, max, succeeded } => if succeeded {
            RunState::Completed
        } else if attempt < max {
            s
        } else {
            RunState::Failed
        },
        TaskStep::Cancel => if terminal(s) {
            s
        } else {
            RunState::Cancelled
        },
    }
}

/// The steps a run takes on one of its rows, in order: none, or a start
/// followed by attempts 1, 2, ... of `max`, each but the last a failure
/// with attempts left (a retry); after them, when the run fails, possibly a
/// cancellation.
pub open spec fn run_task_steps(steps: Seq<TaskStep>, max: u32) -> bool {
    let n = steps_before_cancel(steps);
    &&& n > 0 ==> steps[0] is Begin
    &&& forall|k: int| 1 <= k < n ==> attempt_in_order(#[trigger] steps[k], k, max, k == n - 1)
}

/// `step` records attempt `k` of `max`; unless it is the `last`, it failed
/// with attempts left.
pub open spec fn attempt_in_order(step: TaskStep, k: int, max: u32, last: bool) -> bool {
    match step {
        TaskStep::Attempt { attempt, max: m, succeeded } => {
            &&& attempt == k
            &&& m == max
            &&& 1 <= k <= max
            &&& !last ==> !succeeded && k < max
        },
        _ => false,
    }
}

/// The state an attempt leaves a running row in: completed when it
/// succeeded, failed when it was the last allowed, else still running.
pub open spec fn attempt_end(step: TaskStep) -> RunState {
    match step {
        TaskStep::Attempt { attempt, max, succeeded } => if succeeded {
            RunState::Completed
        } else if attempt < max {
            RunState::Running
        } else {
            RunState::Failed
        },
        _ => RunState::Running,
    }
}

/// The states of a row along `steps`, starting from `s`.
pub open spec fn task_states(s: RunState, steps: Seq<TaskStep>) -> Seq<RunState>
    decreases steps.len(),
{
    if steps.len() == 0 {
        seq![s]
    } else {
        let before = task_states(s, steps.drop_last());
        before.push(task_step_state(before.last(), steps.last()))
    }
}

proof fn lemma_task_states_shape(s: RunState, steps: Seq<TaskStep>)
    ensures
        task_states(s, steps).len() == steps.len() + 1,
        task_states(s, steps)[0] == s,
        forall|j: int|
            0 <= j < steps.len() ==> task_states(s, steps)[j + 1] == task_step_state(
                task_states(s, steps)[j],
                #[trigger] steps[j],
            ),
    decreases steps.len(),
{
    if steps.len() > 0 {
        let p = steps.drop_last();
        let st = task_states(s, steps);
        let sp = task_states(s, p);
        lemma_task_states_shape(s, p);
        assert(st == sp.push(task_step_state(sp.last(), steps.last())));
        assert forall|j: int| 0 <= j < steps.len() implies st[j + 1] == task_step_state(st[j], #[trigger] steps[j]) by {
            if j < p.len() {
                assert(p[j] == steps[j]);
                assert(st[j + 1] == sp[j + 1]);
                assert(st[j] == sp[j]);
            }
        }
    }
}

/// How many of `steps` come before a final cancellation.
pub open spec fn steps_before_cancel(steps: Seq<TaskStep>) -> int {
    if steps.len() > 0 && steps.last() is Cancel {
        steps.len() - 1
    } else {
        steps.len() as int
    }
}

/// Up to the last attempt, a started row is running; only the step that
/// ends the attempts may finish it.
proof fn lemma_running_until_end(steps: Seq<TaskStep>, max: u32, k: int)
    requires
        run_task_steps(steps, max),
        1 <= k <= steps_before_cancel(steps),
    ensures
        task_states(RunState::Pending, steps)[k] is Running || (k == steps_before_cancel(steps) && terminal(
            task_states(RunState::Pending, steps)[k],
        )),
        k > 1 ==> task_states(RunState::Pending, steps)[k] == attempt_end(steps[k - 1]),
    decreases k,
{
    let st = task_states(RunState::Pending, steps);
    let n = steps_before_cancel(steps);
    lemma_task_states_shape(RunState::Pending, steps);
    let step = steps[k - 1];
    assert(st[(k - 1) + 1] == task_step_state(st[k - 1], step));
    if k == 1 {
        assert(steps[0] is Begin);
    } else {
        lemma_running_until_end(steps, max, k - 1);
        assert(attempt_in_order(steps[k - 1], k - 1, max, k - 1 == n - 1));
    }
}

/// Where a row stands after `k` of a run's steps on it: pending before any,
/// running while attempts go on, and finished (or still running) after
/// the last attempt; a final cancellation finishes it, leaving a finished
/// row as it was.
proof fn lemma_state_at(steps: Seq<TaskStep>, max: u32, k: int)
    requires
        run_task_steps(steps, max),
        0 <= k <= steps.len(),
    ensures
        k == 0 ==> task_states(RunState::Pending, steps)[k] is Pending,
        1 <= k < steps_before_cancel(steps) ==> task_states(RunState::Pending, steps)[k] is Running,
        1 <= k == steps_before_cancel(steps) ==> task_states(RunState::Pending, steps)[k] is Running || terminal(
            task_states(RunState::Pending, steps)[k],
        ),
        k > steps_before_cancel(steps) ==> terminal(task_states(RunState::Pending, steps)[k]) && (terminal(
            task_states(RunState::Pending, steps)[k - 1],
        ) ==> task_states(RunState::Pending, steps)[k] == task_states(RunState::Pending, steps)[k - 1]),
        0 < k && steps[k - 1] is Attempt ==> task_states(RunState::Pending, steps)[k] == attempt_end(steps[k - 1]),
{
    let st = task_states(RunState::Pending, steps);
    let n = steps_before_cancel(steps);
    lemma_task_states_shape(RunState::Pending, steps);
    if 1 <= k <= n {
        lemma_running_until_end(steps, max, k);
        if k == 1 {
            assert(steps[0] is Begin);
        }
    } else if k > n {
        let step = steps[k - 1];
        assert(st[(k - 1) + 1] == task_step_state(st[k - 1], step));
        assert(step is Cancel);
        if n >= 1 {
            lemma_running_until_end(steps, max, n);
        }
    }
}

/// Over a whole run, a task row only moves forward: it starts pending, is
/// running from its start until an attempt succeeds (completed) or the last
/// allowed attempt fails (failed), or is cancelled when the run fails before
/// it ends; and once finished it never changes again.
#[verifier::rlimit(30)]
pub proof fn lemma_task_lifecycle(steps: Seq<TaskStep>, max: u32)
    requires
        run_task_steps(steps, max),
    ensures
        task_states(RunState::Pending, steps).len() == steps.len() + 1,
        forall|i: int, j: int|
            0 <= i <= j <= steps.len() ==> moves_forward(
                #[trigger] task_states(RunState::Pending, steps)[i],
                #[trigger] task_states(RunState::Pending, steps)[j],
            ),
        forall|i: int, j: int|
            0 <= i <= j <= steps.len() && terminal(#[trigger] task_states(RunState::Pending, steps)[i]) ==> #[trigger] task_states(
                RunState::Pending,
                steps,
            )[j] == task_states(RunState::Pending, steps)[i],
        forall|k: int| 0 < k <= steps.len() ==> !(#[trigger] task_states(RunState::Pending, steps)[k] is Pending),
        forall|k: int|
            0 < k <= steps.len() && steps[k - 1] is Attempt ==> #[trigger] task_states(RunState::Pending, steps)[k]
                == attempt_end(steps[k - 1]),
        steps.len() > 0 && steps.last() is Cancel ==> terminal(task_states(RunState::Pending, steps).last()),
{
    let st = task_states(RunState::Pending, steps);
    let n = steps_before_cancel(steps);
    assert(st.len() == steps.len() + 1) by {
        lemma_task_states_shape(RunState::Pending, steps);
    }
    assert forall|i: int, j: int| 0 <= i <= j <= steps.len() implies moves_forward(#[trigger] st[i], #[trigger] st[j])
        && (terminal(st[i]) ==> st[j] == st[i]) by {
        lemma_state_at(steps, max, i);
        lemma_state_at(steps, max, j);
        if j > n && i < j {
            // `j` is the final cancellation, one past `n`.
            lemma_state_at(steps, max, j - 1);
        }
    }
    assert forall|k: int| 0 < k <= steps.len() implies !(#[trigger] st[k] is Pending) by {
        lemma_state_at(steps, max, k);
    }
    assert forall|k: int| 0 < k <= steps.len() && steps[k - 1] is Attempt implies #[trigger] st[k] == attempt_end(steps[k - 1]) by {
        lemma_state_at(steps, max, k);
    }
    if steps.len() > 0 && steps.last() is Cancel {
        lemma_state_at(steps, max, steps.len() as int);
    }
}

/// The steps a run takes on itself: starting it, and concluding it in a
/// state.
pub enum RunOp {
    Begin,
    Conclude(RunState),
}

/// The state a run in state `s` is left in by `op`: what `Run::begin` and
/// `Run::conclude` leave.
pub open spec fn run_op_state(s: RunState, op: RunOp) -> RunState {
    match op {
        RunOp::Begin => RunState::Running,
        RunOp::Conclude(e) => e,
    }
}

/// Over a whole run, the run itself only moves forward: a fresh (pending)
/// run is started, then concluded in the finished state the driver reports
/// (completed or failed), and stays there.
pub proof fn lemma_run_lifecycle(end: RunState)
    requires
        end is Completed || end is Failed,
    ensures
        ({
            let s1 = run_op_state(RunState::Pending, RunOp::Begin);
            let s2 = run_op_state(s1, RunOp::Conclude(end));
            &&& s1 is Running
            &&& s2 == end
            &&& moves_forward(RunState::Pending, s1)
            &&& moves_forward(s1, s2)
            &&& terminal(s2)
        }),
{
}

/// Mark a task as started.
pub fn begin_task(tr: &mut TaskRun, now: Timestamp)
    ensures
        *final(tr) == (TaskRun { state: RunState::Running, started_at: Some(now), ..*old(tr) }),
        final(tr).state == task_step_state(old(tr).state, TaskStep::Begin),
        !terminal(old(tr).state) ==> moves_forward(old(tr).state, final(tr).state),
{
    tr.state = RunState::Running;
    tr.started_at = Some(now);
}

/// Record attempt `attempt` of `max` of a task: the lines it streamed, then
/// its outcome. Success completes the task with the value. Failure records
/// the error (and a workload's stack trace); it asks for another attempt
/// while attempts remain, and fails the task after the last one.
pub fn after_attempt(
    tr: &mut TaskRun,
    attempt: u32,
    max: u32,
    streamed: Vec<String>,
    exec: Result<ExecOutcome, ExecError>,
    now: Timestamp,
) -> (v: AttemptVerdict)
    requires
        1 <= attempt <= max,
    ensures
        final(tr).id == old(tr).id,
        final(tr).run_id == old(tr).run_id,
        final(tr).task_id == old(tr).task_id,
        final(tr).name == old(tr).name,
        final(tr).started_at == old(tr).started_at,
        final(tr).attempts == attempt,
        final(tr).state == task_step_state(old(tr).state, TaskStep::Attempt { attempt, max, succeeded: exec is Ok }),
        !terminal(old(tr).state) ==> moves_forward(old(tr).state, final(tr).state),
        match exec {
            Ok(o) => {
                &&& texts(final(tr).logs@) == texts(old(tr).logs@) + texts(streamed@)
                &&& final(tr).state == RunState::Completed
                &&& final(tr).result matches Some(r) && r@ == o.value@
                &&& final(tr).error == old(tr).error
                &&& final(tr).finished_at == Some(now)
                &&& v matches AttemptVerdict::Succeeded(value) && value@ == o.value@
            },
            Err(e) => {
                &&& texts(final(tr).logs@) == texts(old(tr).logs@) + texts(streamed@) + trace_lines(e)
                &&& final(tr).result == old(tr).result
                &&& final(tr).error matches Some(m) && m@ == described(e)
                &&& if attempt < max {
                    &&& final(tr).state == old(tr).state
                    &&& final(tr).finished_at == old(tr).finished_at
                    &&& v matches AttemptVerdict::Retry(line) && line@ == retry_notice(attempt, max, described(e))
                } else {
                    &&& final(tr).state == RunState::Failed
                    &&& final(tr).finished_at == Some(now)
                    &&& v matches AttemptVerdict::GaveUp(m) && m@ == described(e)
                }
            },
        },
{
    tr.attempts = attempt;
    let ghost logs0 = texts(tr.logs@);
    let mut more = streamed;
    let ghost st = texts(more@);
    tr.logs.append(&mut more);
    proof {
        assert(texts(tr.logs@) =~= logs0 + st);
    }
    match exec {
        Ok(outcome) => {
            let value = outcome.value;
            tr.state = RunState::Completed;
            tr.result = Some(value.deep_copy());
            tr.finished_at = Some(now);
            AttemptVerdict::Succeeded(value)
        },
        Err(err) => {
            let last_error = describe(&err);
            tr.error = Some(last_error.clone());
            let ghost before = texts(tr.logs@);
            match &err {
                ExecError::Workload { trace, .. } => {
                    push_tagged_lines(&mut tr.logs, trace.as_str(), "[trace] ");
                },
                _ => {
                    proof {
                        assert(before + trace_lines(err) =~= before);
                    }
                },
            }
            if attempt < max {
                let line = String::from_str("attempt ").concat(decimal(attempt as u64).as_str()).concat(
                    "/",
                ).concat(decimal(max as u64).as_str()).concat(" failed (").concat(last_error.as_str()).concat(
                    "); retrying",
                );
                AttemptVerdict::Retry(line)
            } else {
                tr.state = RunState::Failed;
                tr.finished_at = Some(now);
                AttemptVerdict::GaveUp(last_error)
            }
        },
    }
}

// ── runs and their task rows ─────────────────────────────────────────────

impl Run {
    /// Mark the run as started.
    pub fn begin(&mut self, now: Timestamp)
        ensures
            *final(self) == (Run { state: RunState::Running, started_at: Some(now), ..*old(self) }),
            final(self).state == run_op_state(old(self).state, RunOp::Begin),
            !terminal(old(self).state) ==> moves_forward(old(self).state, final(self).state),
    {
        self.state = RunState::Running;
        self.started_at = Some(now);
    }

    /// Mark the run as over, in `state`, with `error` when there is one.
    pub fn conclude(&mut self, state: RunState, error: Option<String>, now: Timestamp)
        ensures
            *final(self) == (Run {
                state,
                finished_at: Some(now),
                error: match error {
                    Some(e) => Some(e),
                    None => old(self).error,
                },
                ..*old(self)
            }),
            final(self).state == run_op_state(old(self).state, RunOp::Conclude(state)),
            terminal(state) && !terminal(old(self).state) ==> moves_forward(old(self).state, final(self).state),
    {
        self.state = state;
        self.finished_at = Some(now);
        if let Some(e) = error {
            self.error = Some(e);
        }
    }
}

/// The row of a task in a run: the first of `rows` for that task, taken out
/// of `rows`, or a fresh pending row when there is none.
pub fn take_task_run(rows: &mut Vec<TaskRun>, run_id: Id, task: &TaskSpec) -> (tr: TaskRun)
    ensures
        (exists|i: int| 0 <= i < old(rows)@.len() && old(rows)@[i].task_id@ == task.id@) ==> exists|i: int|
            0 <= i < old(rows)@.len() && old(rows)@[i].task_id@ == task.id@ && (forall|j: int|
                0 <= j < i ==> old(rows)@[j].task_id@ != task.id@) && tr == old(rows)@[i] && final(rows)@
                == old(rows)@.remove(i),
        !(exists|i: int| 0 <= i < old(rows)@.len() && old(rows)@[i].task_id@ == task.id@) ==> fresh_task_run(
            tr,
            run_id,
            *task,
        ) && final(rows)@ == old(rows)@,
{
    let ghost orig = rows@;
    let mut i: usize = 0;
    while i < rows.len()
        invariant
            rows@ == orig,
            orig == old(rows)@,
            i <= rows@.len(),
            forall|j: int| 0 <= j < i ==> rows@[j].task_id@ != task.id@,
        decreases rows.len() - i,
    {
        if crate::text::str_eq(rows[i].task_id.as_str(), task.id.as_str()) {
            let tr = rows.remove(i);
            assert(tr == orig[i as int]);
            assert(0 <= i < orig.len() && orig[i as int].task_id@ == task.id@ && (forall|j: int|
                0 <= j < i ==> orig[j].task_id@ != task.id@) && tr == orig[i as int] && rows@ == orig.remove(i as int));
            return tr;
        }
        i = i + 1;
    }
    TaskRun::new(run_id, task)
}

/// Mark every row that has not reached a terminal state as cancelled now.
/// Returns the positions of the rows changed, in order.
pub fn cancel_unreached(rows: &mut Vec<TaskRun>, now: Timestamp) -> (changed: Vec<usize>)
    ensures
        final(rows)@.len() == old(rows)@.len(),
        forall|i: int|
            0 <= i < old(rows)@.len() ==> moves_forward(old(rows)@[i].state, #[trigger] final(rows)@[i].state),
        forall|i: int|
            0 <= i < old(rows)@.len() ==> #[trigger] final(rows)@[i].state == task_step_state(
                old(rows)@[i].state,
                TaskStep::Cancel,
            ),
        forall|i: int|
            0 <= i < old(rows)@.len() ==> #[trigger] final(rows)@[i] == if terminal(old(rows)@[i].state) {
                old(rows)@[i]
            } else {
                TaskRun { state: RunState::Cancelled, finished_at: Some(now), ..old(rows)@[i] }
            },
        forall|q: int| 0 <= q < changed@.len() ==> (#[trigger] changed@[q]) < old(rows)@.len()
            && !terminal(old(rows)@[changed@[q] as int].state),
        forall|q1: int, q2: int| 0 <= q1 < q2 < changed@.len() ==> changed@[q1] < changed@[q2],
        forall|i: int|
            0 <= i < old(rows)@.len() && !terminal(old(rows)@[i].state) ==> changed@.contains(i as usize),
{
    let ghost orig = rows@;
    let mut changed: Vec<usize> = Vec::new();
    let mut i: usize = 0;
    while i < rows.len()
        invariant
            rows@.len() == orig.len(),
            i <= rows@.len(),
            forall|j: int|
                0 <= j < i ==> #[trigger] rows@[j] == if terminal(orig[j].state) {
                    orig[j]
                } else {
                    TaskRun { state: RunState::Cancelled, finished_at: Some(now), ..orig[j] }
                },
            forall|j: int| i <= j < rows@.len() ==> #[trigger] rows@[j] == orig[j],
            forall|q: int| 0 <= q < changed@.len() ==> (#[trigger] changed@[q]) < i && !terminal(orig[changed@[q] as int].state),
            forall|q1: int, q2: int| 0 <= q1 < q2 < changed@.len() ==> changed@[q1] < changed@[q2],
            forall|j: int| 0 <= j < i && !terminal(orig[j].state) ==> changed@.contains(j as usize),
        decreases rows.len() - i,
    {
        if !rows[i].state.is_terminal() {
            let mut tr = rows.remove(i);
            tr.state = RunState::Cancelled;
            tr.finished_at = Some(now);
            rows.insert(i, tr);
            let ghost before = changed@;
            changed.push(i);
            proof {
                assert forall|j: int| 0 <= j < i + 1 && !terminal(orig[j].state) implies changed@.contains(j as usize) by {
                    if j < i {
                        assert(before.contains(j as usize));
                        let w = choose|w: int| 0 <= w < before.len() && before[w] == j as usize;
                        assert(changed@[w] == j as usize);
                    } else {
                        assert(changed@[before.len() as int] == i);
                    }
                }
            }
        }
        i = i + 1;
    }
    changed
}

/// A new run of `workflow` started by `trigger`, with the workflow's
/// parameters merged with `params`, and a pending row for each of its tasks.
pub fn prepare_launch(workflow: &Workflow, params: &Json, trigger: String) -> (r: (Run, Vec<TaskRun>))
    requires
        params@ is Object ==> keys_distinct(params@->Object_0),
    ensures
        fresh_run(r.0, *workflow, r.0.params, trigger@),
        merged(workflow.spec.params@, params@, r.0.params@),
        r.1@.len() == workflow.spec.tasks@.len(),
        forall|i: int|
            0 <= i < r.1@.len() ==> fresh_task_run(#[trigger] r.1@[i], r.0.id, workflow.spec.tasks@[i]),
{
    let effective = merge_params(&workflow.spec.params, params);
    let run = Run::new(workflow, effective, trigger);
    let mut rows: Vec<TaskRun> = Vec::new();
    let tasks = &workflow.spec.tasks;
    let mut i: usize = 0;
    while i < tasks.len()
        invariant
            i <= tasks@.len(),
            rows@.len() == i,
            forall|j: int| 0 <= j < i ==> fresh_task_run(#[trigger] rows@[j], run.id, tasks@[j]),
        decreases tasks.len() - i,
    {
        rows.push(TaskRun::new(run.id, &tasks[i]));
        i = i + 1;
    }
    (run, rows)
}

} // verus!
