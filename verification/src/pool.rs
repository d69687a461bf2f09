//! The warm worker pool's rules.
//!
//! In process isolation, finished interpreters are kept and fed later jobs.
//! One worker serves one job at a time (checkout takes it out of the pool);
//! a clean job checks it back in; workers retire after `max_jobs` jobs, and
//! the pool keeps at most `max_idle` idle workers per runtime. The idle
//! workers of a kind form a stack: the one parked last is handed out first.
//!
//! The pool is generic over the worker handle, so the processes themselves
//! stay with the code that starts them.

use vstd::prelude::*;

use crate::model::Runtime;
use crate::text::parse_u64;
#[allow(unused_imports)]
use crate::text::parsed_u64;

verus! {

/// Which interpreter a worker runs. One Node pool serves both JavaScript and
/// TypeScript: its workers strip types, which is a no-op for plain JS.
#[derive(Debug, Clone, Copy, PartialEq, Eq, Structural)]
pub enum PoolKind {
    Python,
    Node,
}

impl PoolKind {
    /// The slot of this kind among the pool's idle stacks.
    pub fn index(self) -> (i: usize)
        ensures
            i == (if self is Python { 0usize } else { 1usize }),
    {
        match self {
            PoolKind::Python => 0,
            PoolKind::Node => 1,
        }
    }
}

/// The pool a runtime's jobs go to.
pub open spec fn kind_of(runtime: Runtime) -> PoolKind {
    match runtime {
        Runtime::Python => PoolKind::Python,
        _ => PoolKind::Node,
    }
}

/// The pool that serves jobs of `runtime`.
pub fn pool_kind(runtime: Runtime) -> (k: PoolKind)
    ensures
        k == kind_of(runtime),
{
    match runtime {
        Runtime::Python => PoolKind::Python,
        Runtime::Typescript | Runtime::Javascript => PoolKind::Node,
    }
}

/// How large the pool may grow and how long a worker lives.
#[derive(Debug, Clone, Copy, PartialEq, Eq)]
pub struct PoolLimits {
    /// Idle workers kept per kind.
    pub max_idle: usize,
    /// Jobs after which a worker retires.
    pub max_jobs: u32,
}

/// The idle-worker limit when none is configured.
pub const DEFAULT_MAX_IDLE: u64 = 8;

/// The per-worker job limit when none is configured.
pub const DEFAULT_MAX_JOBS: u64 = 128;

/// A configured number: the setting read as a `u64`, or `default` when it is
/// absent or not a number.
pub open spec fn setting_number(setting: Option<Seq<char>>, default: u64) -> u64 {
    match setting {
        Some(s) => match parsed_u64(s) {
            Some(n) => n,
            None => default,
        },
        None => default,
    }
}

fn number_setting(setting: Option<&str>, default: u64) -> (n: u64)
    ensures
        n == setting_number(
            match setting {
                Some(s) => Some(s@),
                None => None,
            },
            default,
        ),
{
    match setting {
        Some(s) => match parse_u64(s) {
            Some(n) => n,
            None => default,
        },
        None => default,
    }
}

impl PoolLimits {
    /// The limits given by the settings for the idle-worker count and the
    /// per-worker job count (each a raw configuration value, if set). The
    /// numbers are narrowed to the limits' types as `as` narrows them.
    pub fn from_settings(max_idle: Option<&str>, max_jobs: Option<&str>) -> (l: PoolLimits)
        ensures
            l.max_idle == setting_number(
                match max_idle {
                    Some(s) => Some(s@),
                    None => None,
                },
                DEFAULT_MAX_IDLE,
            ) as usize,
            l.max_jobs == setting_number(
                match max_jobs {
                    Some(s) => Some(s@),
                    None => None,
                },
                DEFAULT_MAX_JOBS,
            ) as u32,
    {
        let idle = number_setting(max_idle, DEFAULT_MAX_IDLE);
        let jobs = number_setting(max_jobs, DEFAULT_MAX_JOBS);
        PoolLimits { max_idle: idle as usize, max_jobs: jobs as u32 }
    }
}

/// A worker outside a job, with the number of jobs it has served.
pub struct Parked<W> {
    pub worker: W,
    pub kind: PoolKind,
    pub jobs_served: u32,
}

/// Idle workers, one stack per kind.
pub struct WorkerPool<W> {
    python: Vec<Parked<W>>,
    node: Vec<Parked<W>>,
    limits: PoolLimits,
}

impl<W> WorkerPool<W> {
    /// The idle workers of `kind`, the one handed out next last.
    pub closed spec fn idle(&self, kind: PoolKind) -> Seq<Parked<W>> {
        match kind {
            PoolKind::Python => self.python@,
            PoolKind::Node => self.node@,
        }
    }

    /// The pool's limits.
    pub closed spec fn limits(&self) -> PoolLimits {
        self.limits
    }

    /// Every idle worker sits on its own kind's stack and has served fewer
    /// jobs than a worker may, and no stack holds more than `max_idle`.
    pub open spec fn wf(&self) -> bool {
        forall|k: PoolKind| #[trigger] self.stack_ok(k)
    }

    /// The idle stack of `kind` holds workers of that kind that may still
    /// serve a job, and no more than `max_idle` of them.
    pub open spec fn stack_ok(&self, k: PoolKind) -> bool {
        &&& self.idle(k).len() <= self.limits().max_idle
        &&& forall|i: int|
            0 <= i < self.idle(k).len() ==> {
                &&& (#[trigger] self.idle(k)[i]).kind == k
                &&& self.idle(k)[i].jobs_served < self.limits().max_jobs
            }
    }

    proof fn lemma_wf_of_stacks(&self)
        requires
            self.stack_ok(PoolKind::Python),
            self.stack_ok(PoolKind::Node),
        ensures
            self.wf(),
    {
        assert forall|k: PoolKind| #[trigger] self.stack_ok(k) by {
            match k {
                PoolKind::Python => {},
                PoolKind::Node => {},
            }
        }
    }

    /// An empty pool with these limits.
    pub fn new(limits: PoolLimits) -> (p: WorkerPool<W>)
        ensures
            p.wf(),
            p.limits() == limits,
            forall|k: PoolKind| #[trigger] p.idle(k).len() == 0,
    {
        WorkerPool { python: Vec::new(), node: Vec::new(), limits }
    }

    /// How many idle workers of `kind` there are.
    pub fn idle_count(&self, kind: PoolKind) -> (n: usize)
        ensures
            n == self.idle(kind).len(),
    {
        match kind {
            PoolKind::Python => self.python.len(),
            PoolKind::Node => self.node.len(),
        }
    }
}

/// What checking a worker out does: it is the one parked last, or none
/// when the stack is empty; the stack loses it; nothing else changes.
pub open spec fn checked_out<W>(
    before: WorkerPool<W>,
    after: WorkerPool<W>,
    kind: PoolKind,
    r: Option<Parked<W>>,
) -> bool {
    &&& after.limits() == before.limits()
    &&& forall|k: PoolKind| k != kind ==> #[trigger] after.idle(k) == before.idle(k)
    &&& if before.idle(kind).len() == 0 {
        r is None && after.idle(kind) == before.idle(kind)
    } else {
        r == Some(before.idle(kind).last()) && after.idle(kind) == before.idle(kind).drop_last()
    }
}

/// What checking a worker in after a clean job does: it has served one job
/// more; it is kept when it may serve another and its stack has room, and
/// dropped otherwise.
pub open spec fn checked_in<W>(
    before: WorkerPool<W>,
    after: WorkerPool<W>,
    p: Parked<W>,
    kept: bool,
) -> bool {
    &&& after.limits() == before.limits()
    &&& forall|k: PoolKind| k != p.kind ==> #[trigger] after.idle(k) == before.idle(k)
    &&& kept == (p.jobs_served + 1 < before.limits().max_jobs && before.idle(p.kind).len()
        < before.limits().max_idle)
    &&& if kept {
        after.idle(p.kind) == before.idle(p.kind).push(
            Parked { worker: p.worker, kind: p.kind, jobs_served: (p.jobs_served + 1) as u32 },
        )
    } else {
        after.idle(p.kind) == before.idle(p.kind)
    }
}

impl<W> WorkerPool<W> {
    /// Take the most recently parked worker of `kind`, if there is one (the
    /// caller starts a fresh one otherwise).
    pub fn checkout(&mut self, kind: PoolKind) -> (r: Option<Parked<W>>)
        requires
            old(self).wf(),
        ensures
            final(self).wf(),
            checked_out(*old(self), *final(self), kind, r),
    {
        proof {
            assert(old(self).stack_ok(PoolKind::Python));
            assert(old(self).stack_ok(PoolKind::Node));
        }
        let r = match kind {
            PoolKind::Python => self.python.pop(),
            PoolKind::Node => self.node.pop(),
        };
        proof {
            self.lemma_wf_of_stacks();
        }
        r
    }

    /// Return a worker after a clean job; it retires when it has served
    /// enough jobs or the pool is already full. Returns whether it was kept.
    pub fn checkin(&mut self, p: Parked<W>) -> (kept: bool)
        requires
            old(self).wf(),
            p.jobs_served < u32::MAX,
        ensures
            final(self).wf(),
            checked_in(*old(self), *final(self), p, kept),
    {
        proof {
            assert(old(self).stack_ok(PoolKind::Python));
            assert(old(self).stack_ok(PoolKind::Node));
        }
        let served = p.jobs_served + 1;
        if served >= self.limits.max_jobs {
            return false;
        }
        let kind = p.kind;
        let parked = Parked { worker: p.worker, kind, jobs_served: served };
        let kept = match kind {
            PoolKind::Python => {
                if self.python.len() < self.limits.max_idle {
                    self.python.push(parked);
                    true
                } else {
                    false
                }
            },
            PoolKind::Node => {
                if self.node.len() < self.limits.max_idle {
                    self.node.push(parked);
                    true
                } else {
                    false
                }
            },
        };
        proof {
            self.lemma_wf_of_stacks();
        }
        kept
    }
}

/// A worker checked in after a job and kept is the next one of its kind
/// handed out, with its served count one higher.
pub proof fn lemma_checkin_then_checkout<W>(
    p0: WorkerPool<W>,
    p1: WorkerPool<W>,
    p2: WorkerPool<W>,
    w: Parked<W>,
    r: Option<Parked<W>>,
)
    requires
        checked_in(p0, p1, w, true),
        checked_out(p1, p2, w.kind, r),
    ensures
        r matches Some(q) && q.worker == w.worker && q.jobs_served == w.jobs_served + 1,
        p2.idle(w.kind) == p0.idle(w.kind),
{
    assert(p1.idle(w.kind).drop_last() =~= p0.idle(w.kind));
}

/// No idle worker has served as many jobs as a worker may, so none serves
/// more than `max_jobs`; and no kind has more than `max_idle` idle workers.
pub proof fn lemma_pool_bounds<W>(pool: WorkerPool<W>, kind: PoolKind, i: int)
    requires
        pool.wf(),
        0 <= i < pool.idle(kind).len(),
    ensures
        pool.idle(kind)[i].jobs_served < pool.limits().max_jobs,
        pool.idle(kind)[i].kind == kind,
        pool.idle(kind).len() <= pool.limits().max_idle,
{
    assert(pool.stack_ok(kind));
}

} // verus!
