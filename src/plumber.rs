//! The plumber: host and worker actor maps, their interpreter pools, and the
//! tick that drives them.
use vstd::prelude::*;

use crate::actor::{
    completed, eligible, ready, Actor, ActorView, CleanupKey, CleanupKeyView, Execution,
    ExecutionView,
};
use crate::deadline::Deadline;
use crate::model::{
    actors_at, actors_wf, bucket_index, bucket_walk, buckets_unique, cleanup_quiet, cleanup_spec,
    cleared, collect_bucket, collect_spec, fresh_actor, gauges_spec, has_bucket, has_key, has_pool,
    idle, ingest_scopes, ingest_spec, ingested, key_index, lemma_bucket_walk_room, release_workers,
    requests_of, tagged, worker_requests, workers_started_executions,
    lemma_reingest_keeps, lemma_same_pool_ids, mailbox_total, no_requests, plumber_wf, pool_at,
    pool_index, pools_unique, publish, put_in, quiet, reaches_actors, reingest_spec, remote_events,
    same_pool_ids, saturate, start_bucket, start_spec, tick_local, tick_remote, with_actors,
    with_pool, without_requests, worker_gauges, workers_local_of, workers_quiet, workers_remote_of,
    PlumberView,
};
use crate::particle::{
    AquamarineApiError, EventView, ExtendedParticle, ExtendedParticleView, FunctionId, PeerId, PeerScope,
    RemoteRoutingEffects, WorkerId,
};
use crate::schedule::{
    cleanup_actors, cleanup_pass, collect_completed, key_views, lemma_cleanup_nothing, local_views,
    execution_views, release_all, remote_views, start_actors, started_executions,
    LocalRoutingEffects, MAX_CLEANUP_KEYS_SIZE,
};
use crate::token::get_particle_token;
use crate::vm_pool::{VmPool, VmPoolView};
use crate::workers::{
    deal_of, find_worker, is_active, is_registered, worker_index, worker_views, PeerScopes,
    WorkerInfo, WorkerInfoView,
};

verus! {

/// The actors of one worker.
struct WorkerActors {
    worker_id: WorkerId,
    actors: Vec<Actor>,
}

/// The interpreter pool of one worker.
struct WorkerPool {
    worker_id: WorkerId,
    pool: VmPool,
}

pub open spec fn actor_views(s: Seq<Actor>) -> Seq<ActorView> {
    s.map_values(|a: Actor| a.view())
}

/// What one tick asks the embedding runtime to do.
#[derive(Debug)]
pub struct TickActions {
    /// Steps started in this tick, to be run on their interpreter instances.
    pub executions: Vec<Execution>,
    /// Interpreter instances to build, by pool.
    pub vm_requests: Vec<(PeerScope, usize)>,
    /// Keys whose persisted data the data store is to remove in one batch;
    /// empty where no batch was started.
    pub cleanup_keys: Vec<CleanupKey>,
}

/// The outcome of one tick.
#[derive(Debug)]
pub enum PlumberPoll {
    /// An event for the caller; the caller polls again for more.
    Ready(Result<RemoteRoutingEffects, AquamarineApiError>),
    /// No event; the actions of this tick.
    Pending(TickActions),
}

/// The gauges of one actor map: its scope, the particles waiting in its
/// mailboxes (saturating at `u64::MAX`), and its number of actors.
#[derive(Debug)]
pub struct ScopeGauges {
    pub scope: PeerScope,
    pub mailbox_total: u64,
    pub alive_actors: usize,
}

pub open spec fn gauges_view(g: ScopeGauges) -> (PeerScope, u64, usize) {
    (g.scope, g.mailbox_total, g.alive_actors)
}

fn count_mailboxes(actors: &Vec<Actor>) -> (r: u64)
    ensures
        r == saturate(mailbox_total(actor_views(actors@))),
{
    let ghost s = actor_views(actors@);
    let mut total: u64 = 0;
    let mut i: usize = 0;
    while i < actors.len()
        invariant
            i <= actors@.len(),
            s == actor_views(actors@),
            total == saturate(mailbox_total(s.take(i as int))),
        decreases actors@.len() - i,
    {
        assert(s.take(i + 1).drop_last() =~= s.take(i as int));
        assert(s[i as int] == actors@[i as int].view());
        total = total.saturating_add(actors[i].mailbox_size() as u64);
        i = i + 1;
    }
    assert(s.take(i as int) =~= s);
    total
}

pub open spec fn event_views(s: Seq<Result<RemoteRoutingEffects, AquamarineApiError>>) -> Seq<
    EventView,
> {
    s.map_values(|e: Result<RemoteRoutingEffects, AquamarineApiError>| crate::particle::event_view(e))
}

/// Whether two byte strings are equal.
pub fn bytes_eq(a: &Vec<u8>, b: &Vec<u8>) -> (r: bool)
    ensures
        r == (a@ == b@),
{
    if a.len() != b.len() {
        return false;
    }
    let mut i: usize = 0;
    while i < a.len()
        invariant
            a@.len() == b@.len(),
            i <= a@.len(),
            forall|j: int| 0 <= j < i ==> a@[j] == b@[j],
        decreases a@.len() - i,
    {
        if a[i] != b[i] {
            return false;
        }
        i = i + 1;
    }
    assert(a@ =~= b@);
    true
}

fn find_actor(actors: &Vec<Actor>, key: &Vec<u8>) -> (r: Option<usize>)
    requires
        actors_wf(actor_views(actors@)),
    ensures
        match r {
            Some(i) => i < actors@.len() && has_key(actor_views(actors@), key@) && key_index(
                actor_views(actors@),
                key@,
            ) == i,
            None => !has_key(actor_views(actors@), key@),
        },
{
    let ghost s = actor_views(actors@);
    let mut i: usize = 0;
    while i < actors.len()
        invariant
            i <= actors@.len(),
            s == actor_views(actors@),
            actors_wf(s),
            forall|j: int| 0 <= j < i ==> s[j].key != key@,
        decreases actors@.len() - i,
    {
        if bytes_eq(actors[i].key(), key) {
            assert(s[i as int].key == key@);
            assert(has_key(s, key@));
            let ghost k = key_index(s, key@);
            assert(k == i) by {
                if k != i {
                    if k < i {
                        assert(s[k].key != s[i as int].key);
                    } else {
                        assert(s[i as int].key != s[k].key);
                    }
                }
            }
            return Some(i);
        }
        i = i + 1;
    }
    None
}

spec fn bucket_views(s: Seq<WorkerActors>) -> Seq<(WorkerId, Seq<ActorView>)> {
    s.map_values(|b: WorkerActors| (b.worker_id, actor_views(b.actors@)))
}

fn find_bucket(buckets: &Vec<WorkerActors>, w: WorkerId) -> (r: Option<usize>)
    requires
        buckets_unique(bucket_views(buckets@)),
    ensures
        match r {
            Some(i) => i < buckets@.len() && has_bucket(bucket_views(buckets@), w)
                && bucket_index(bucket_views(buckets@), w) == i,
            None => !has_bucket(bucket_views(buckets@), w),
        },
{
    let ghost s = bucket_views(buckets@);
    let mut i: usize = 0;
    while i < buckets.len()
        invariant
            i <= buckets@.len(),
            s == bucket_views(buckets@),
            buckets_unique(s),
            forall|j: int| 0 <= j < i ==> s[j].0 != w,
        decreases buckets@.len() - i,
    {
        if buckets[i].worker_id == w {
            assert(s[i as int].0 == w);
            assert(has_bucket(s, w));
            let ghost k = bucket_index(s, w);
            assert(k == i) by {
                if k != i {
                    if k < i {
                        assert(s[k].0 != s[i as int].0);
                    } else {
                        assert(s[i as int].0 != s[k].0);
                    }
                }
            }
            return Some(i);
        }
        i = i + 1;
    }
    None
}

spec fn pool_views(s: Seq<WorkerPool>) -> Seq<(WorkerId, VmPoolView)> {
    s.map_values(|p: WorkerPool| (p.worker_id, p.pool.view()))
}

fn find_pool(pools: &Vec<WorkerPool>, w: WorkerId) -> (r: Option<usize>)
    requires
        pools_unique(pool_views(pools@)),
    ensures
        match r {
            Some(i) => i < pools@.len() && has_pool(pool_views(pools@), w) && pool_index(
                pool_views(pools@),
                w,
            ) == i,
            None => !has_pool(pool_views(pools@), w),
        },
{
    let ghost s = pool_views(pools@);
    let mut i: usize = 0;
    while i < pools.len()
        invariant
            i <= pools@.len(),
            s == pool_views(pools@),
            pools_unique(s),
            forall|j: int| 0 <= j < i ==> s[j].0 != w,
        decreases pools@.len() - i,
    {
        if pools[i].worker_id == w {
            assert(s[i as int].0 == w);
            assert(has_pool(s, w));
            let ghost k = pool_index(s, w);
            assert(k == i) by {
                if k != i {
                    if k < i {
                        assert(s[k].0 != s[i as int].0);
                    } else {
                        assert(s[i as int].0 != s[k].0);
                    }
                }
            }
            return Some(i);
        }
        i = i + 1;
    }
    None
}

/// Routes `particle` to the actor of its signature in `actors`, creating the
/// actor where there is none and a particle token can be made.
fn put_in_actors(
    actors: &mut Vec<Actor>,
    particle: ExtendedParticle,
    function: Option<FunctionId>,
    now_ms: u64,
    scope: PeerScope,
    current_peer_id: PeerId,
    deal_id: Option<String>,
)
    requires
        actors_wf(actor_views(old(actors)@)),
    ensures
        actors_wf(actor_views(final(actors)@)),
        actor_views(final(actors)@) == put_in(
            actor_views(old(actors)@),
            particle@,
            function,
            now_ms,
            fresh_actor(
                particle@,
                scope,
                current_peer_id,
                match deal_id {
                    Some(d) => Some(d@),
                    None => None,
                },
                now_ms,
            ),
        ),
{
    let ghost s = actor_views(actors@);
    let ghost pv = particle@;
    match find_actor(actors, &particle.particle.signature) {
        Some(i) => {
            actors[i].ingest(particle, now_ms);
            match function {
                Some(f) => actors[i].set_function(f),
                None => {},
            }
            assert(actor_views(actors@) =~= s.update(i as int, ingested(s[i as int], pv, function, now_ms)));
        },
        None => {
            match get_particle_token(&particle.root_signature) {
                Ok(token) => {
                    let mut a = Actor::new(&particle, scope, current_peer_id, token, deal_id, now_ms);
                    a.ingest(particle, now_ms);
                    match function {
                        Some(f) => a.set_function(f),
                        None => {},
                    }
                    let ghost av = a.view();
                    actors.push(a);
                    assert(actor_views(actors@) =~= s.push(av));
                    assert forall|j: int| 0 <= j < s.len() implies s[j].key != av.key by {
                        assert(s[j].key != pv.particle.signature);
                    }
                },
                Err(_) => {},
            }
        },
    }
}

/// The scheduler: host and worker actor maps, their interpreter pools, the
/// queue of events for the caller, and the state of the cleanup task.
pub struct Plumber {
    events: Vec<Result<RemoteRoutingEffects, AquamarineApiError>>,
    host_actors: Vec<Actor>,
    host_vm_pool: VmPool,
    worker_actors: Vec<WorkerActors>,
    worker_vm_pools: Vec<WorkerPool>,
    workers: Vec<WorkerInfo>,
    scopes: PeerScopes,
    cleanup_in_flight: bool,
}

impl Plumber {
    /// The plumber as a value.
    pub closed spec fn view(&self) -> PlumberView {
        PlumberView {
            events: event_views(self.events@),
            host_actors: actor_views(self.host_actors@),
            host_pool: self.host_vm_pool.view(),
            worker_actors: bucket_views(self.worker_actors@),
            worker_pools: pool_views(self.worker_vm_pools@),
            workers: worker_views(self.workers@),
            scopes: self.scopes,
            cleanup_in_flight: self.cleanup_in_flight,
        }
    }

    /// The plumber is sound: see `plumber_wf`, and every pool is sound.
    pub open spec fn wf(&self) -> bool {
        plumber_wf(self.view()) && self.pools_wf()
    }

    pub closed spec fn pools_wf(&self) -> bool {
        &&& self.host_vm_pool.wf()
        &&& forall|i: int| 0 <= i < self.worker_vm_pools@.len() ==> (#[trigger] self.worker_vm_pools@[i]).pool.wf()
    }

    /// A plumber with no actors, no workers and no pending events.
    pub fn new(host_vm_pool: VmPool, scopes: PeerScopes) -> (r: Plumber)
        requires
            host_vm_pool.wf(),
        ensures
            r.wf(),
            r.view() == (PlumberView {
                events: Seq::empty(),
                host_actors: Seq::empty(),
                host_pool: host_vm_pool.view(),
                worker_actors: Seq::empty(),
                worker_pools: Seq::empty(),
                workers: Seq::empty(),
                scopes,
                cleanup_in_flight: false,
            }),
    {
        let r = Plumber {
            events: Vec::new(),
            host_actors: Vec::new(),
            host_vm_pool,
            worker_actors: Vec::new(),
            worker_vm_pools: Vec::new(),
            workers: Vec::new(),
            scopes,
            cleanup_in_flight: false,
        };
        assert(r.view().events =~= Seq::empty());
        assert(r.view().host_actors =~= Seq::empty());
        assert(r.view().worker_actors =~= Seq::empty());
        assert(r.view().worker_pools =~= Seq::empty());
        assert(r.view().workers =~= Seq::empty());
        r
    }


    /// Installs a fresh pool of `thread_count` instances for worker `worker_id`,
    /// replacing the one it had.
    pub fn create_worker_pool(&mut self, worker_id: WorkerId, thread_count: usize)
        requires
            old(self).wf(),
        ensures
            final(self).wf(),
            ({
                let ov = old(self).view();
                let fv = final(self).view();
                let ps = ov.worker_pools;
                &&& fv.worker_pools.len() == if has_pool(ps, worker_id) {
                    ps.len()
                } else {
                    ps.len() + 1
                }
                &&& has_pool(fv.worker_pools, worker_id)
                &&& forall|j: int|
                    0 <= j < ps.len() && ps[j].0 != worker_id ==> fv.worker_pools[j] == ps[j]
                &&& fv.worker_pools[pool_index(fv.worker_pools, worker_id)].1.slots.len()
                    == thread_count
                &&& forall|j: int|
                    0 <= j < thread_count ==> fv.worker_pools[pool_index(
                        fv.worker_pools,
                        worker_id,
                    )].1.slots[j] == crate::vm_pool::VmSlot::Creating
                &&& fv == PlumberView { worker_pools: fv.worker_pools, ..ov }
            }),
    {
        let ghost ps = self.view().worker_pools;
        let pool = VmPool::new(thread_count);
        let ghost np = pool.view();
        let i = match find_pool(&self.worker_vm_pools, worker_id) {
            Some(i) => {
                self.worker_vm_pools.set(i, WorkerPool { worker_id, pool });
                assert(pool_views(self.worker_vm_pools@) =~= ps.update(i as int, (worker_id, np)));
                i
            },
            None => {
                self.worker_vm_pools.push(WorkerPool { worker_id, pool });
                assert(pool_views(self.worker_vm_pools@) =~= ps.push((worker_id, np)));
                self.worker_vm_pools.len() - 1
            },
        };
        let ghost fps = self.view().worker_pools;
        assert(fps[i as int].0 == worker_id);
        assert(pool_index(fps, worker_id) == i) by {
            let k = pool_index(fps, worker_id);
            if k != i {
                if k < i {
                    assert(fps[k].0 != fps[i as int].0);
                } else {
                    assert(fps[i as int].0 != fps[k].0);
                }
            }
        }
    }

    /// Drops the pool of worker `worker_id`. Its actors stay until they
    /// expire but make no progress.
    pub fn remove_worker_pool(&mut self, worker_id: WorkerId)
        requires
            old(self).wf(),
        ensures
            final(self).wf(),
            ({
                let ov = old(self).view();
                let ps = ov.worker_pools;
                final(self).view() == if has_pool(ps, worker_id) {
                    PlumberView { worker_pools: ps.remove(pool_index(ps, worker_id)), ..ov }
                } else {
                    ov
                }
            }),
    {
        let ghost ps = self.view().worker_pools;
        match find_pool(&self.worker_vm_pools, worker_id) {
            Some(i) => {
                self.worker_vm_pools.remove(i);
                assert(pool_views(self.worker_vm_pools@) =~= ps.remove(i as int));
            },
            None => {},
        }
    }

    /// Registers worker `worker_id` with its deal, or updates a registered one.
    pub fn register_worker(&mut self, worker_id: WorkerId, deal_id: String, active: bool)
        requires
            old(self).wf(),
        ensures
            final(self).wf(),
            ({
                let ov = old(self).view();
                let ws = ov.workers;
                let info = WorkerInfoView { worker_id, active, deal_id: deal_id@ };
                final(self).view() == PlumberView {
                    workers: if is_registered(ws, worker_id) {
                        ws.update(worker_index(ws, worker_id), info)
                    } else {
                        ws.push(info)
                    },
                    ..ov
                }
            }),
    {
        let ghost ws = self.view().workers;
        let info = WorkerInfo { worker_id, active, deal_id };
        let ghost iv = info@;
        match find_worker(&self.workers, worker_id) {
            Some(i) => {
                self.workers.set(i, info);
                assert(worker_views(self.workers@) =~= ws.update(i as int, iv));
            },
            None => {
                self.workers.push(info);
                assert(worker_views(self.workers@) =~= ws.push(iv));
            },
        }
    }

    /// Activates or deactivates a registered worker; `false` where there is none.
    pub fn set_worker_active(&mut self, worker_id: WorkerId, active: bool) -> (r: bool)
        requires
            old(self).wf(),
        ensures
            final(self).wf(),
            ({
                let ov = old(self).view();
                let ws = ov.workers;
                &&& r == is_registered(ws, worker_id)
                &&& final(self).view() == if r {
                    PlumberView {
                        workers: ws.update(
                            worker_index(ws, worker_id),
                            WorkerInfoView { active, ..ws[worker_index(ws, worker_id)] },
                        ),
                        ..ov
                    }
                } else {
                    ov
                }
            }),
    {
        let ghost ws = self.view().workers;
        match find_worker(&self.workers, worker_id) {
            Some(i) => {
                let deal_id = self.workers[i].deal_id.clone();
                let info = WorkerInfo { worker_id, active, deal_id };
                let ghost iv = info@;
                self.workers.set(i, info);
                assert(worker_views(self.workers@) =~= ws.update(i as int, iv));
                true
            },
            None => false,
        }
    }

    /// Whether worker `worker_id` is registered and active.
    pub fn is_worker_active(&self, worker_id: WorkerId) -> (r: bool)
        requires
            self.wf(),
        ensures
            r == is_active(self.view().workers, worker_id),
    {
        match find_worker(&self.workers, worker_id) {
            Some(i) => self.workers[i].active,
            None => false,
        }
    }

    /// Records that instance `vm_id` of the pool of `scope` was built.
    pub fn vm_created(&mut self, scope: PeerScope, vm_id: usize) -> (r: bool)
        requires
            old(self).wf(),
        ensures
            final(self).wf(),
            match pool_at(old(self).view(), scope) {
                None => !r && final(self).view() == old(self).view(),
                Some(p) => {
                    let q = pool_at(final(self).view(), scope).unwrap();
                    &&& pool_at(final(self).view(), scope) is Some
                    &&& final(self).view() == with_pool(old(self).view(), scope, q)
                    &&& q.requests == p.requests
                    &&& r == (vm_id < p.slots.len() && p.slots[vm_id as int]
                        == crate::vm_pool::VmSlot::Creating)
                    &&& r ==> q.slots == p.slots.update(
                        vm_id as int,
                        crate::vm_pool::VmSlot::Free,
                    )
                    &&& !r ==> q.slots == p.slots
                },
            },
    {
        let ghost v = self.view();
        match scope {
            PeerScope::Host => self.host_vm_pool.vm_created(vm_id),
            PeerScope::WorkerId(w) => match find_pool(&self.worker_vm_pools, w) {
                Some(i) => {
                    let r = self.worker_vm_pools[i].pool.vm_created(vm_id);
                    let ghost q = self.worker_vm_pools@[i as int].pool.view();
                    assert(pool_views(self.worker_vm_pools@) =~= v.worker_pools.update(
                        i as int,
                        (w, q),
                    ));
                    let ghost fps = self.view().worker_pools;
                    assert(fps[i as int].0 == w);
                    assert(pool_index(fps, w) == i) by {
                        let k = pool_index(fps, w);
                        if k != i {
                            if k < i {
                                assert(fps[k].0 != fps[i as int].0);
                            } else {
                                assert(fps[i as int].0 != fps[k].0);
                            }
                        }
                    }
                    r
                },
                None => false,
            },
        }
    }

    /// Records that building instance `vm_id` of the pool of `scope` failed:
    /// the instance is asked for again.
    pub fn vm_creation_failed(&mut self, scope: PeerScope, vm_id: usize) -> (r: bool)
        requires
            old(self).wf(),
        ensures
            final(self).wf(),
            match pool_at(old(self).view(), scope) {
                None => !r && final(self).view() == old(self).view(),
                Some(p) => {
                    let q = pool_at(final(self).view(), scope).unwrap();
                    &&& pool_at(final(self).view(), scope) is Some
                    &&& final(self).view() == with_pool(old(self).view(), scope, q)
                    &&& q.slots == p.slots
                    &&& r == (vm_id < p.slots.len() && p.slots[vm_id as int]
                        == crate::vm_pool::VmSlot::Creating)
                    &&& r ==> q.requests == p.requests.push(vm_id)
                    &&& !r ==> q.requests == p.requests
                },
            },
    {
        let ghost v = self.view();
        match scope {
            PeerScope::Host => self.host_vm_pool.vm_creation_failed(vm_id),
            PeerScope::WorkerId(w) => match find_pool(&self.worker_vm_pools, w) {
                Some(i) => {
                    let r = self.worker_vm_pools[i].pool.vm_creation_failed(vm_id);
                    let ghost q = self.worker_vm_pools@[i as int].pool.view();
                    assert(pool_views(self.worker_vm_pools@) =~= v.worker_pools.update(
                        i as int,
                        (w, q),
                    ));
                    let ghost fps = self.view().worker_pools;
                    assert(fps[i as int].0 == w);
                    assert(pool_index(fps, w) == i) by {
                        let k = pool_index(fps, w);
                        if k != i {
                            if k < i {
                                assert(fps[k].0 != fps[i as int].0);
                            } else {
                                assert(fps[i as int].0 != fps[k].0);
                            }
                        }
                    }
                    r
                },
                None => false,
            },
        }
    }

    /// Records the outcome of the step that the actor of `key` in `scope` has
    /// in flight. Returns `false`, changing nothing, where there is no such
    /// actor, no step in flight, or the outcome is already known.
    pub fn complete(&mut self, scope: PeerScope, key: &Vec<u8>, outcome: crate::actor::AvmOutcome) -> (r: bool)
        requires
            old(self).wf(),
        ensures
            final(self).wf(),
            ({
                let ov = old(self).view();
                match actors_at(ov, scope) {
                    Some(s) => if has_key(s, key@) && s[key_index(s, key@)].current is Some
                        && s[key_index(s, key@)].current.unwrap().outcome is None {
                        let i = key_index(s, key@);
                        let a = s[i];
                        &&& r
                        &&& final(self).view() == with_actors(
                            ov,
                            scope,
                            s.update(
                                i,
                                ActorView {
                                    current: Some(
                                        crate::actor::InFlightView {
                                            outcome: Some(outcome@),
                                            ..a.current.unwrap()
                                        },
                                    ),
                                    ..a
                                },
                            ),
                        )
                    } else {
                        !r && final(self).view() == ov
                    },
                    None => !r && final(self).view() == ov,
                }
            }),
    {
        let ghost v = self.view();
        match scope {
            PeerScope::Host => match find_actor(&self.host_actors, key) {
                Some(i) => {
                    let ghost s = v.host_actors;
                    let r = self.host_actors[i].complete(outcome);
                    if r {
                        assert(actor_views(self.host_actors@) =~= s.update(
                            i as int,
                            self.host_actors@[i as int].view(),
                        ));
                    } else {
                        assert(actor_views(self.host_actors@) =~= s);
                    }
                    r
                },
                None => false,
            },
            PeerScope::WorkerId(w) => match find_bucket(&self.worker_actors, w) {
                Some(bi) => {
                    let ghost s = v.worker_actors[bi as int].1;
                    match find_actor(&self.worker_actors[bi].actors, key) {
                        Some(i) => {
                            let r = self.worker_actors[bi].actors[i].complete(outcome);
                            if r {
                                assert(actor_views(self.worker_actors@[bi as int].actors@) =~= s.update(
                                    i as int,
                                    self.worker_actors@[bi as int].actors@[i as int].view(),
                                ));
                                assert(bucket_views(self.worker_actors@) =~= v.worker_actors.update(
                                    bi as int,
                                    (w, actor_views(self.worker_actors@[bi as int].actors@)),
                                ));
                            } else {
                                assert(actor_views(self.worker_actors@[bi as int].actors@) =~= s);
                                assert(bucket_views(self.worker_actors@) =~= v.worker_actors);
                            }
                            r
                        },
                        None => false,
                    }
                },
                None => false,
            },
        }
    }

    /// Records that the batch cleanup task handed out earlier has finished.
    pub fn cleanup_finished(&mut self)
        requires
            old(self).wf(),
        ensures
            final(self).wf(),
            final(self).view() == (PlumberView { cleanup_in_flight: false, ..old(self).view() }),
    {
        self.cleanup_in_flight = false;
    }


    /// Collects the finished steps of the actors of every worker that has a pool.
    fn collect_workers(
        &mut self,
        remote: &mut Vec<RemoteRoutingEffects>,
        local: &mut Vec<LocalRoutingEffects>,
    )
        requires
            old(self).wf(),
        ensures
            final(self).wf(),
            ({
                let ov = old(self).view();
                let fv = final(self).view();
                &&& fv == PlumberView {
                    worker_actors: ov.worker_actors.map_values(
                        |b: (WorkerId, Seq<ActorView>)| collect_bucket(b, ov.worker_pools),
                    ),
                    worker_pools: release_workers(ov.worker_pools, ov.worker_actors),
                    ..ov
                }
                &&& same_pool_ids(ov.worker_pools, fv.worker_pools)
                &&& remote_views(final(remote)@) == remote_views(old(remote)@) + workers_remote_of(
                    ov.worker_actors,
                    ov.worker_pools,
                    ov.scopes,
                    ov.workers,
                )
                &&& local_views(final(local)@) == local_views(old(local)@) + workers_local_of(
                    ov.worker_actors,
                    ov.worker_pools,
                    ov.scopes,
                    ov.workers,
                )
            }),
            workers_quiet(old(self).view()) ==> final(self).view() == old(self).view() && final(remote)@
                == old(remote)@ && final(local)@ == old(local)@,
    {
        let ghost v = self.view();
        let ghost q = workers_quiet(v);
        let ghost r0 = remote_views(remote@);
        let ghost l0 = local_views(local@);
        let mut bi: usize = 0;
        while bi < self.worker_actors.len()
            invariant
                self.wf(),
                plumber_wf(v),
                bi <= self.worker_actors@.len(),
                self.view() == (PlumberView {
                    worker_actors: self.view().worker_actors,
                    worker_pools: self.view().worker_pools,
                    ..v
                }),
                same_pool_ids(v.worker_pools, self.view().worker_pools),
                self.view().worker_actors.len() == v.worker_actors.len(),
                forall|b: int| 0 <= b < bi ==> #[trigger] self.view().worker_actors[b] == collect_bucket(v.worker_actors[b], v.worker_pools),
                forall|b: int| bi <= b < v.worker_actors.len() ==> #[trigger] self.view().worker_actors[b] == v.worker_actors[b],
                forall|j: int| 0 <= j < v.worker_pools.len() ==> #[trigger] self.view().worker_pools[j] == if has_bucket(v.worker_actors, v.worker_pools[j].0)
                    && bucket_index(v.worker_actors, v.worker_pools[j].0) < bi {
                    (v.worker_pools[j].0, release_all(v.worker_pools[j].1, v.worker_actors[bucket_index(v.worker_actors, v.worker_pools[j].0)].1))
                } else {
                    v.worker_pools[j]
                },
                remote_views(remote@) == r0 + workers_remote_of(v.worker_actors.take(bi as int), v.worker_pools, v.scopes, v.workers),
                local_views(local@) == l0 + workers_local_of(v.worker_actors.take(bi as int), v.worker_pools, v.scopes, v.workers),
                r0 == remote_views(old(remote)@),
                l0 == local_views(old(local)@),
                q == workers_quiet(v),
                q ==> self.view() == v && remote@ == old(remote)@ && local@ == old(local)@,
            decreases self.worker_actors@.len() - bi,
        {
            let w = self.worker_actors[bi].worker_id;
            let ghost before = self.view();
            let ghost bs = v.worker_actors;
            assert(before.worker_actors[bi as int] == bs[bi as int]);
            assert(bs.take(bi + 1).drop_last() =~= bs.take(bi as int));
            assert(bs.take(bi + 1).last() == bs[bi as int]);
            proof {
                lemma_same_pool_ids(v.worker_pools, before.worker_pools, w);
            }
            match find_pool(&self.worker_vm_pools, w) {
                Some(pi) => {
                    proof {
                        assert(actors_wf(before.worker_actors[bi as int].1));
                        assert(self.worker_vm_pools@[pi as int].pool.wf());
                        if q {
                            assert forall|i: int| 0 <= i < self.worker_actors@[bi as int].actors@.len()
                                implies !completed(#[trigger] actor_views(self.worker_actors@[bi as int].actors@)[i]) by {
                                assert(quiet(v.worker_actors[bi as int].1[i]));
                            }
                        }
                    }
                    let ghost rv = remote_views(remote@);
                    let ghost lv = local_views(local@);
                    collect_completed(
                        &mut self.worker_actors[bi].actors,
                        &mut self.worker_vm_pools[pi].pool,
                        &self.scopes,
                        &self.workers,
                        remote,
                        local,
                    );
                    let ghost after_b = actor_views(self.worker_actors@[bi as int].actors@);
                    assert(bucket_views(self.worker_actors@) =~= before.worker_actors.update(
                        bi as int,
                        (w, after_b),
                    ));
                    assert(pool_views(self.worker_vm_pools@) =~= before.worker_pools.update(
                        pi as int,
                        (w, self.worker_vm_pools@[pi as int].pool.view()),
                    ));
                    assert(remote_views(remote@) =~= r0 + workers_remote_of(bs.take(bi + 1), v.worker_pools, v.scopes, v.workers));
                    assert(local_views(local@) =~= l0 + workers_local_of(bs.take(bi + 1), v.worker_pools, v.scopes, v.workers));
                    proof {
                        assert(has_bucket(v.worker_actors, w));
                        assert(bucket_index(v.worker_actors, w) == bi) by {
                            let k = bucket_index(v.worker_actors, w);
                            if k != bi {
                                if k < bi {
                                    assert(v.worker_actors[k].0 != v.worker_actors[bi as int].0);
                                } else {
                                    assert(v.worker_actors[bi as int].0 != v.worker_actors[k].0);
                                }
                            }
                        }
                        let nv = self.view();
                        assert forall|j: int| 0 <= j < v.worker_pools.len() implies #[trigger] nv.worker_pools[j] == if has_bucket(v.worker_actors, v.worker_pools[j].0)
                            && bucket_index(v.worker_actors, v.worker_pools[j].0) < bi + 1 {
                            (v.worker_pools[j].0, release_all(v.worker_pools[j].1, v.worker_actors[bucket_index(v.worker_actors, v.worker_pools[j].0)].1))
                        } else {
                            v.worker_pools[j]
                        } by {
                            if j == pi {
                                assert(v.worker_pools[j].0 == w);
                            } else {
                                assert(nv.worker_pools[j] == before.worker_pools[j]);
                                assert(v.worker_pools[j].0 != w);
                                if has_bucket(v.worker_actors, v.worker_pools[j].0) {
                                    let k = bucket_index(v.worker_actors, v.worker_pools[j].0);
                                    assert(v.worker_actors[k].0 == v.worker_pools[j].0);
                                    assert(k != bi);
                                }
                            }
                        }
                    }
                    proof {
                        if q {
                            assert(self.view().worker_actors =~= before.worker_actors);
                            assert(self.view().worker_pools =~= before.worker_pools);
                            assert(self.view() =~= before);
                        }
                    }
                },
                None => {
                    proof {
                        assert forall|j: int| 0 <= j < v.worker_pools.len() implies #[trigger] self.view().worker_pools[j] == if has_bucket(v.worker_actors, v.worker_pools[j].0)
                            && bucket_index(v.worker_actors, v.worker_pools[j].0) < bi + 1 {
                            (v.worker_pools[j].0, release_all(v.worker_pools[j].1, v.worker_actors[bucket_index(v.worker_actors, v.worker_pools[j].0)].1))
                        } else {
                            v.worker_pools[j]
                        } by {
                            if has_bucket(v.worker_actors, v.worker_pools[j].0) {
                                let k = bucket_index(v.worker_actors, v.worker_pools[j].0);
                                if k == bi {
                                    assert(v.worker_actors[k].0 == v.worker_pools[j].0);
                                    assert(has_pool(v.worker_pools, w));
                                    assert(false);
                                }
                            }
                        }
                    }
                    assert(workers_remote_of(bs.take(bi + 1), v.worker_pools, v.scopes, v.workers) =~= workers_remote_of(bs.take(bi as int), v.worker_pools, v.scopes, v.workers));
                    assert(workers_local_of(bs.take(bi + 1), v.worker_pools, v.scopes, v.workers) =~= workers_local_of(bs.take(bi as int), v.worker_pools, v.scopes, v.workers));
                },
            }
            bi = bi + 1;
        }
        assert(v.worker_actors.take(bi as int) =~= v.worker_actors);
        assert(self.view().worker_actors =~= v.worker_actors.map_values(
            |b: (WorkerId, Seq<ActorView>)| collect_bucket(b, v.worker_pools),
        ));
        assert(self.view().worker_pools =~= release_workers(v.worker_pools, v.worker_actors));
    }

    /// Starts a cleanup batch unless one is running: removes the expired idle
    /// actors of the host, then of the workers, while fewer than
    /// `MAX_CLEANUP_KEYS_SIZE` keys are collected, and drops the emptied actor
    /// maps of workers that have no pool. Returns the keys of the batch.
    fn cleanup(&mut self, now_ms: u64) -> (r: Vec<CleanupKey>)
        requires
            old(self).wf(),
        ensures
            final(self).wf(),
            r@.len() <= MAX_CLEANUP_KEYS_SIZE,
            final(self).view().events == old(self).view().events,
            old(self).view().cleanup_in_flight ==> r@.len() == 0 && final(self).view() == old(self).view(),
            !old(self).view().cleanup_in_flight ==> final(self).view().cleanup_in_flight == (r@.len() > 0),
            cleanup_quiet(old(self).view(), now_ms) ==> final(self).view() == old(self).view() && r@.len() == 0,
            final(self).view() == cleanup_spec(old(self).view(), now_ms).0,
            key_views(r@) == cleanup_spec(old(self).view(), now_ms).1,
    {
        let mut keys: Vec<CleanupKey> = Vec::new();
        if self.cleanup_in_flight {
            assert(key_views(keys@) =~= Seq::<CleanupKeyView>::empty());
            return keys;
        }
        let ghost v = self.view();
        proof {
            assert(actors_wf(v.host_actors));
            if cleanup_quiet(v, now_ms) {
                lemma_cleanup_nothing(v.host_actors, MAX_CLEANUP_KEYS_SIZE as nat, now_ms);
            }
        }
        cleanup_actors(&mut self.host_actors, &mut keys, now_ms);
        proof {
            if cleanup_quiet(v, now_ms) {
                assert(keys@ =~= Seq::<CleanupKey>::empty()) by {
                    assert(crate::schedule::key_views(keys@).len() == 0);
                }
                assert(self.view() =~= v);
            }
        }
        let ghost hk = key_views(keys@);
        assert(hk =~= Seq::<CleanupKeyView>::empty() + cleanup_pass(v.host_actors, MAX_CLEANUP_KEYS_SIZE as nat, now_ms).1);
        assert(self.view() == PlumberView { host_actors: cleanup_pass(v.host_actors, MAX_CLEANUP_KEYS_SIZE as nat, now_ms).0, ..v });
        self.cleanup_worker_actors(&mut keys, now_ms);
        if keys.len() > 0 {
            self.cleanup_in_flight = true;
        }
        assert(key_views(keys@).len() == keys@.len());
        keys
    }

    /// The worker part of a cleanup walk.
    fn cleanup_worker_actors(&mut self, keys: &mut Vec<CleanupKey>, now_ms: u64)
        requires
            old(self).wf(),
            old(keys)@.len() <= MAX_CLEANUP_KEYS_SIZE,
            !old(self).view().cleanup_in_flight,
        ensures
            final(self).wf(),
            final(keys)@.len() <= MAX_CLEANUP_KEYS_SIZE,
            final(keys)@.len() >= old(keys)@.len(),
            final(self).view() == (PlumberView { worker_actors: final(self).view().worker_actors, ..old(self).view() }),
            cleanup_quiet(old(self).view(), now_ms) ==> final(self).view() == old(self).view()
                && final(keys)@.len() == old(keys)@.len(),
            ({
                let ov = old(self).view();
                let (wb, wk) = if old(keys)@.len() >= MAX_CLEANUP_KEYS_SIZE {
                    (ov.worker_actors, Seq::<CleanupKeyView>::empty())
                } else {
                    bucket_walk(
                        ov.worker_actors,
                        (MAX_CLEANUP_KEYS_SIZE - old(keys)@.len()) as nat,
                        now_ms,
                        ov.worker_pools,
                    )
                };
                &&& final(self).view().worker_actors == wb
                &&& key_views(final(keys)@) == key_views(old(keys)@) + wk
            }),
    {
        if keys.len() >= MAX_CLEANUP_KEYS_SIZE {
            assert(key_views(keys@) =~= key_views(keys@) + Seq::<CleanupKeyView>::empty());
            return;
        }
        let ghost v = self.view();
        let ghost q = cleanup_quiet(v, now_ms);
        let ghost k0 = keys@;
        let ghost room = (MAX_CLEANUP_KEYS_SIZE - k0.len()) as nat;
        let mut rest: Vec<WorkerActors> = Vec::new();
        std::mem::swap(&mut rest, &mut self.worker_actors);
        let ghost s = v.worker_actors;
        assert(bucket_views(rest@) =~= s.subrange(0, s.len() as int));
        while rest.len() > 0
            invariant
                rest@.len() <= s.len(),
                bucket_views(rest@) == s.subrange(s.len() - rest@.len(), s.len() as int),
                buckets_unique(s),
                forall|b: int| 0 <= b < s.len() ==> actors_wf((#[trigger] s[b]).1),
                keys@.len() <= MAX_CLEANUP_KEYS_SIZE,
                keys@.len() >= k0.len(),
                self.pools_wf(),
                plumber_wf(PlumberView { worker_actors: self.view().worker_actors, ..v }),
                self.view() == (PlumberView { worker_actors: self.view().worker_actors, ..v }),
                forall|j: int| 0 <= j < self.worker_actors@.len() ==> exists|m: int| 0 <= m < s.len() - rest@.len() && (#[trigger] bucket_views(self.worker_actors@)[j]).0 == s[m].0,
                q == cleanup_quiet(v, now_ms),
                s == v.worker_actors,
                !v.cleanup_in_flight,
                q ==> bucket_views(self.worker_actors@) == s.take(s.len() - rest@.len()) && keys@.len() == k0.len(),
                k0.len() < MAX_CLEANUP_KEYS_SIZE,
                room == (MAX_CLEANUP_KEYS_SIZE - k0.len()) as nat,
                bucket_views(self.worker_actors@) == bucket_walk(s.take(s.len() - rest@.len()), (MAX_CLEANUP_KEYS_SIZE - k0.len()) as nat, now_ms, v.worker_pools).0,
                key_views(keys@) == key_views(k0) + bucket_walk(s.take(s.len() - rest@.len()), (MAX_CLEANUP_KEYS_SIZE - k0.len()) as nat, now_ms, v.worker_pools).1,
                keys@.len() == k0.len() + bucket_walk(s.take(s.len() - rest@.len()), (MAX_CLEANUP_KEYS_SIZE - k0.len()) as nat, now_ms, v.worker_pools).1.len(),
                self.view().worker_pools == v.worker_pools,
            decreases rest@.len(),
        {
            let ghost n = s.len() - rest@.len();
            let ghost kept = bucket_views(self.worker_actors@);
            assert(bucket_views(rest@)[0] == s[n]);
            let ghost old_rest = rest@;
            let mut b = rest.remove(0);
            assert(rest@ =~= old_rest.subrange(1, old_rest.len() as int));
            assert forall|j: int| 0 <= j < rest@.len() implies #[trigger] bucket_views(rest@)[j] == s[n + 1 + j] by {
                assert(bucket_views(old_rest)[j + 1] == s.subrange(n, s.len() as int)[j + 1]);
            }
            assert((b.worker_id, actor_views(b.actors@)) == s[n]);
            let ghost before_actors = actor_views(b.actors@);
            assert(before_actors == s[n].1);
            proof {
                if q {
                    assert forall|i: int| 0 <= i < before_actors.len() implies !eligible(#[trigger] before_actors[i], now_ms) by {
                        assert(before_actors[i] == v.worker_actors[n].1[i]);
                        assert(!eligible(v.worker_actors[n].1[i], now_ms));
                    }
                    lemma_cleanup_nothing(before_actors, (MAX_CLEANUP_KEYS_SIZE - keys@.len()) as nat, now_ms);
                }
            }
            let ghost kb = keys@;
            let ghost walked = bucket_walk(s.take(n), room, now_ms, v.worker_pools);
            assert(s.take(n + 1).drop_last() =~= s.take(n));
            assert(s.take(n + 1).last() == s[n]);
            proof {
                lemma_bucket_walk_room(s.take(n), room, now_ms, v.worker_pools);
            }
            assert(kb.len() == k0.len() + walked.1.len());
            assert((MAX_CLEANUP_KEYS_SIZE - kb.len()) as nat == (room - walked.1.len()) as nat);
            let ghost cp = cleanup_pass(before_actors, (room - walked.1.len()) as nat, now_ms);
            cleanup_actors(&mut b.actors, keys, now_ms);
            assert(key_views(keys@) == key_views(kb) + cp.1);
            assert(actor_views(b.actors@) == cp.0);
            assert(bucket_walk(s.take(n + 1), room, now_ms, v.worker_pools).1 == walked.1 + cp.1);
            assert(key_views(keys@) =~= key_views(k0) + bucket_walk(s.take(n + 1), room, now_ms, v.worker_pools).1);
            assert(crate::schedule::key_views(keys@).len() == keys@.len());
            assert(crate::schedule::key_views(kb).len() == kb.len());
            let has = find_pool(&self.worker_vm_pools, b.worker_id).is_some();
            if b.actors.len() > 0 || has {
                let ghost bv = (b.worker_id, actor_views(b.actors@));
                self.worker_actors.push(b);
                assert(bucket_views(self.worker_actors@) =~= kept.push(bv));
                assert forall|j: int| 0 <= j < kept.len() implies kept[j].0 != bv.0 by {
                    let m = choose|m: int| 0 <= m < n && (#[trigger] kept[j]).0 == s[m].0;
                    assert(s[m].0 != s[n].0);
                }
                assert forall|j: int| 0 <= j < self.worker_actors@.len() implies exists|m: int| 0 <= m < n + 1 && (#[trigger] bucket_views(self.worker_actors@)[j]).0 == s[m].0 by {
                    if j < kept.len() {
                        assert(bucket_views(self.worker_actors@)[j] == kept[j]);
                    } else {
                        assert(bucket_views(self.worker_actors@)[j] == bv);
                    }
                }
                proof {
                    if q {
                        assert(actor_views(b.actors@) == before_actors);
                        assert(s.take(n + 1) =~= s.take(n).push(s[n]));
                    }
                }
            } else {
                proof {
                    if q {
                        assert(before_actors.len() > 0 || has_pool(v.worker_pools, s[n].0));
                        assert(false);
                    }
                }
            }
            assert(self.view() =~= PlumberView { worker_actors: bucket_views(self.worker_actors@), ..v });
        }
        assert(s.take(s.len() as int) =~= s);
    }

    /// Starts steps on the actors of every worker that has a pool.
    fn start_workers(&mut self, executions: &mut Vec<Execution>)
        requires
            old(self).wf(),
        ensures
            final(self).wf(),
            ({
                let ov = old(self).view();
                let fv = final(self).view();
                &&& fv == PlumberView {
                    worker_actors: fv.worker_actors,
                    worker_pools: fv.worker_pools,
                    ..ov
                }
                &&& same_pool_ids(ov.worker_pools, fv.worker_pools)
                &&& fv.worker_actors.len() == ov.worker_actors.len()
                &&& forall|b: int|
                    0 <= b < ov.worker_actors.len() ==> start_bucket(
                        #[trigger] ov.worker_actors[b],
                        fv.worker_actors[b],
                        ov.worker_pools,
                        fv.worker_pools,
                    )
                &&& forall|j: int|
                    0 <= j < ov.worker_pools.len() ==> (#[trigger] fv.worker_pools[j]).1.requests
                        == ov.worker_pools[j].1.requests
            }),
            execution_views(final(executions)@) == execution_views(old(executions)@)
                + workers_started_executions(old(self).view().worker_actors, final(self).view().worker_actors),
            workers_quiet(old(self).view()) ==> final(self).view() == old(self).view()
                && final(executions)@ == old(executions)@,
    {
        let ghost v = self.view();
        let ghost q = workers_quiet(v);
        let mut bi: usize = 0;
        while bi < self.worker_actors.len()
            invariant
                self.wf(),
                plumber_wf(v),
                bi <= self.worker_actors@.len(),
                self.view() == (PlumberView {
                    worker_actors: self.view().worker_actors,
                    worker_pools: self.view().worker_pools,
                    ..v
                }),
                same_pool_ids(v.worker_pools, self.view().worker_pools),
                self.view().worker_actors.len() == v.worker_actors.len(),
                forall|b: int| 0 <= b < bi ==> start_bucket(#[trigger] v.worker_actors[b], self.view().worker_actors[b], v.worker_pools, self.view().worker_pools),
                forall|b: int| bi <= b < v.worker_actors.len() ==> #[trigger] self.view().worker_actors[b] == v.worker_actors[b],
                forall|j: int|
                    0 <= j < v.worker_pools.len() && !(exists|b: int| 0 <= b < bi && (#[trigger] v.worker_actors[b]).0 == v.worker_pools[j].0)
                        ==> #[trigger] self.view().worker_pools[j] == v.worker_pools[j],
                forall|j: int|
                    0 <= j < v.worker_pools.len() ==> (#[trigger] self.view().worker_pools[j]).1.requests
                        == v.worker_pools[j].1.requests,
                execution_views(executions@) == execution_views(old(executions)@) + workers_started_executions(
                    v.worker_actors.take(bi as int),
                    self.view().worker_actors.take(bi as int),
                ),
                q == workers_quiet(v),
                q ==> self.view() == v && executions@ == old(executions)@,
            decreases self.worker_actors@.len() - bi,
        {
            let w = self.worker_actors[bi].worker_id;
            let ghost before = self.view();
            let ghost ev_before = execution_views(executions@);
            assert(before.worker_actors[bi as int] == v.worker_actors[bi as int]);
            proof {
                lemma_same_pool_ids(v.worker_pools, before.worker_pools, w);
            }
            match find_pool(&self.worker_vm_pools, w) {
                Some(pi) => {
                    proof {
                        assert(actors_wf(before.worker_actors[bi as int].1));
                        assert(self.worker_vm_pools@[pi as int].pool.wf());
                        if q {
                            assert forall|i: int| 0 <= i < self.worker_actors@[bi as int].actors@.len()
                                implies !ready(#[trigger] actor_views(self.worker_actors@[bi as int].actors@)[i]) by {
                                assert(quiet(v.worker_actors[bi as int].1[i]));
                            }
                        }
                        assert(pool_index(v.worker_pools, w) == pi);
                        assert(!(exists|b: int| 0 <= b < bi && (#[trigger] v.worker_actors[b]).0 == v.worker_pools[pi as int].0)) by {
                            if exists|b: int| 0 <= b < bi && (#[trigger] v.worker_actors[b]).0 == v.worker_pools[pi as int].0 {
                                let b = choose|b: int| 0 <= b < bi && (#[trigger] v.worker_actors[b]).0 == v.worker_pools[pi as int].0;
                                assert(v.worker_actors[b].0 != v.worker_actors[bi as int].0);
                            }
                        }
                        assert(before.worker_pools[pi as int] == v.worker_pools[pi as int]);
                    }
                    start_actors(
                        &mut self.worker_actors[bi].actors,
                        &mut self.worker_vm_pools[pi].pool,
                        executions,
                    );
                    let ghost after_b = actor_views(self.worker_actors@[bi as int].actors@);
                    assert(bucket_views(self.worker_actors@) =~= before.worker_actors.update(
                        bi as int,
                        (w, after_b),
                    ));
                    assert(pool_views(self.worker_vm_pools@) =~= before.worker_pools.update(
                        pi as int,
                        (w, self.worker_vm_pools@[pi as int].pool.view()),
                    ));
                    let ghost now_v = self.view();
                    assert(now_v.worker_actors.take(bi + 1).drop_last() =~= before.worker_actors.take(bi as int));
                    assert(v.worker_actors.take(bi + 1).drop_last() =~= v.worker_actors.take(bi as int));
                    assert(execution_views(executions@) == ev_before + started_executions(v.worker_actors[bi as int].1, now_v.worker_actors[bi as int].1));
                    assert forall|b: int| 0 <= b < bi + 1 implies start_bucket(#[trigger] v.worker_actors[b], now_v.worker_actors[b], v.worker_pools, now_v.worker_pools) by {
                        if b < bi {
                            assert(start_bucket(v.worker_actors[b], before.worker_actors[b], v.worker_pools, before.worker_pools));
                            if has_pool(v.worker_pools, v.worker_actors[b].0) {
                                let i = pool_index(v.worker_pools, v.worker_actors[b].0);
                                assert(v.worker_pools[i].0 == v.worker_actors[b].0);
                                assert(v.worker_actors[b].0 != v.worker_actors[bi as int].0);
                                assert(i != pi);
                                assert(now_v.worker_pools[i] == before.worker_pools[i]);
                            }
                        } else {
                            assert(has_pool(v.worker_pools, w));
                        }
                    }
                    assert forall|j: int|
                        0 <= j < v.worker_pools.len() && !(exists|b: int| 0 <= b < bi + 1 && (#[trigger] v.worker_actors[b]).0 == v.worker_pools[j].0)
                            implies #[trigger] now_v.worker_pools[j] == v.worker_pools[j] by {
                        if j == pi {
                            assert(v.worker_actors[bi as int].0 == v.worker_pools[j].0);
                        } else {
                            assert(now_v.worker_pools[j] == before.worker_pools[j]);
                            if exists|b: int| 0 <= b < bi && (#[trigger] v.worker_actors[b]).0 == v.worker_pools[j].0 {
                                let b = choose|b: int| 0 <= b < bi && (#[trigger] v.worker_actors[b]).0 == v.worker_pools[j].0;
                                assert(0 <= b < bi + 1);
                            }
                        }
                    }
                    proof {
                        if q {
                            assert(self.view().worker_actors =~= before.worker_actors);
                            assert(self.view().worker_pools =~= before.worker_pools);
                            assert(self.view() =~= before);
                        }
                    }
                },
                None => {
                    let ghost now_v = self.view();
                    proof {
                        crate::schedule::lemma_started_executions_same(v.worker_actors[bi as int].1);
                        assert(ev_before + Seq::<ExecutionView>::empty() =~= ev_before);
                    }
                    assert(now_v.worker_actors.take(bi + 1).drop_last() =~= before.worker_actors.take(bi as int));
                    assert(v.worker_actors.take(bi + 1).drop_last() =~= v.worker_actors.take(bi as int));
                    assert forall|j: int|
                        0 <= j < v.worker_pools.len() && !(exists|b: int| 0 <= b < bi + 1 && (#[trigger] v.worker_actors[b]).0 == v.worker_pools[j].0)
                            implies #[trigger] now_v.worker_pools[j] == v.worker_pools[j] by {
                        if exists|b: int| 0 <= b < bi && (#[trigger] v.worker_actors[b]).0 == v.worker_pools[j].0 {
                            let b = choose|b: int| 0 <= b < bi && (#[trigger] v.worker_actors[b]).0 == v.worker_pools[j].0;
                            assert(0 <= b < bi + 1);
                        }
                    }
                },
            }
            bi = bi + 1;
        }
        assert(v.worker_actors.take(bi as int) =~= v.worker_actors);
        assert(self.view().worker_actors.take(bi as int) =~= self.view().worker_actors);
    }

    /// Ingests again, for each of its scopes, every local routing effect.
    fn reingest(&mut self, local: Vec<LocalRoutingEffects>, now_ms: u64)
        requires
            old(self).wf(),
        ensures
            final(self).wf(),
            final(self).view() == reingest_spec(old(self).view(), local_views(local@), now_ms),
    {
        let ghost v = self.view();
        let ghost lv = local_views(local@);
        let mut i: usize = 0;
        while i < local.len()
            invariant
                self.wf(),
                i <= local@.len(),
                lv == local_views(local@),
                self.view() == reingest_spec(v, lv.take(i as int), now_ms),
            decreases local@.len() - i,
        {
            let effect = &local[i];
            let ghost vi = self.view();
            let ghost pv = effect.particle@;
            let ghost sc = effect.next_peers@;
            let mut j: usize = 0;
            while j < effect.next_peers.len()
                invariant
                    self.wf(),
                    j <= effect.next_peers@.len(),
                    pv == effect.particle@,
                    sc == effect.next_peers@,
                    self.view() == ingest_scopes(vi, pv, sc.take(j as int), now_ms),
                decreases effect.next_peers@.len() - j,
            {
                let scope = effect.next_peers[j];
                assert(sc.take(j + 1).drop_last() =~= sc.take(j as int));
                self.ingest(effect.particle.duplicate(), None, scope, now_ms);
                j = j + 1;
            }
            assert(sc.take(j as int) =~= sc);
            assert(lv.take(i + 1).drop_last() =~= lv.take(i as int));
            assert(lv[i as int] == (pv, sc));
            i = i + 1;
        }
        assert(lv.take(i as int) =~= lv);
    }

    /// Hands out the instances that the pools ask to be built.
    fn take_vm_requests(&mut self) -> (r: Vec<(PeerScope, usize)>)
        requires
            old(self).wf(),
        ensures
            final(self).wf(),
            final(self).view().events == old(self).view().events,
            final(self).view().cleanup_in_flight == old(self).view().cleanup_in_flight,
            no_requests(old(self).view()) ==> final(self).view() == old(self).view() && r@.len() == 0,
            final(self).view() == without_requests(old(self).view()),
            r@ == requests_of(old(self).view()),
    {
        let ghost v = self.view();
        let ghost q = no_requests(v);
        let mut out: Vec<(PeerScope, usize)> = Vec::new();
        let host = self.host_vm_pool.take_requests();
        let mut k: usize = 0;
        while k < host.len()
            invariant
                k <= host@.len(),
                out@.len() == k,
                out@ == tagged(PeerScope::Host, host@.take(k as int)),
            decreases host@.len() - k,
        {
            out.push((PeerScope::Host, host[k]));
            assert(tagged(PeerScope::Host, host@.take(k + 1)) =~= tagged(PeerScope::Host, host@.take(k as int)).push((PeerScope::Host, host[k as int])));
            k = k + 1;
        }
        assert(host@.take(k as int) =~= host@);
        assert(host@ == v.host_pool.requests);
        assert(self.host_vm_pool.requests() =~= Seq::<usize>::empty());
        assert(self.host_vm_pool.view() == cleared(v.host_pool));
        proof {
            if q {
                assert(self.host_vm_pool.requests() =~= v.host_pool.requests);
                assert(self.host_vm_pool.view() == v.host_pool);
                assert(self.view() =~= v);
            }
        }
        let mut i: usize = 0;
        while i < self.worker_vm_pools.len()
            invariant
                self.wf(),
                i <= self.worker_vm_pools@.len(),
                self.view().events == v.events,
                self.view().cleanup_in_flight == v.cleanup_in_flight,
                self.worker_vm_pools@.len() == v.worker_pools.len(),
                q == no_requests(v),
                q ==> self.view() == v && out@.len() == 0,
                self.view() == (PlumberView { worker_pools: self.view().worker_pools, host_pool: cleared(v.host_pool), ..v }),
                forall|j: int| 0 <= j < i ==> #[trigger] self.view().worker_pools[j] == (v.worker_pools[j].0, cleared(v.worker_pools[j].1)),
                forall|j: int| i <= j < v.worker_pools.len() ==> #[trigger] self.view().worker_pools[j] == v.worker_pools[j],
                out@ == tagged(PeerScope::Host, v.host_pool.requests) + worker_requests(v.worker_pools.take(i as int)),
            decreases self.worker_vm_pools@.len() - i,
        {
            let w = self.worker_vm_pools[i].worker_id;
            let ghost before = self.view();
            assert(self.worker_vm_pools@[i as int].pool.wf());
            let ghost before_pools = self.worker_vm_pools@;
            let ids = self.worker_vm_pools[i].pool.take_requests();
            assert forall|j: int| 0 <= j < self.worker_vm_pools@.len() implies (#[trigger] self.worker_vm_pools@[j]).pool.wf() by {
                if j != i {
                    assert(self.worker_vm_pools@[j] == before_pools[j]);
                }
            }
            assert(before.worker_pools[i as int].0 == w);
            assert(pool_views(self.worker_vm_pools@) =~= before.worker_pools.update(
                i as int,
                (w, self.worker_vm_pools@[i as int].pool.view()),
            ));
            assert(self.view() == PlumberView { worker_pools: self.view().worker_pools, ..before });
            assert(self.worker_vm_pools@[i as int].pool.requests() =~= Seq::<usize>::empty());
            assert(self.view().worker_pools[i as int] == (v.worker_pools[i as int].0, cleared(v.worker_pools[i as int].1)));
            assert(pools_unique(self.view().worker_pools)) by {
                let ps = self.view().worker_pools;
                assert forall|a: int, b: int| 0 <= a < b < ps.len() implies (#[trigger] ps[a]).0 != (#[trigger] ps[b]).0 by {
                    assert(ps[a].0 == before.worker_pools[a].0);
                    assert(ps[b].0 == before.worker_pools[b].0);
                }
            }
            proof {
                if q {
                    assert(v.worker_pools[i as int].1.requests.len() == 0);
                    assert(self.worker_vm_pools@[i as int].pool.requests() =~= v.worker_pools[i as int].1.requests);
                    assert(self.worker_vm_pools@[i as int].pool.view() == v.worker_pools[i as int].1);
                    assert(self.view().worker_pools =~= before.worker_pools);
                    assert(self.view() =~= before);
                }
            }
            assert(ids@ == v.worker_pools[i as int].1.requests);
            let ghost out0 = out@;
            let mut k: usize = 0;
            while k < ids.len()
                invariant
                    k <= ids@.len(),
                    q ==> ids@.len() == 0 && out@.len() == 0,
                    out@ == out0 + tagged(PeerScope::WorkerId(w), ids@.take(k as int)),
                decreases ids@.len() - k,
            {
                out.push((PeerScope::WorkerId(w), ids[k]));
                assert(tagged(PeerScope::WorkerId(w), ids@.take(k + 1)) =~= tagged(PeerScope::WorkerId(w), ids@.take(k as int)).push((PeerScope::WorkerId(w), ids[k as int])));
                k = k + 1;
            }
            assert(ids@.take(k as int) =~= ids@);
            assert(v.worker_pools.take(i + 1).drop_last() =~= v.worker_pools.take(i as int));
            assert(v.worker_pools.take(i + 1).last() == v.worker_pools[i as int]);
            assert(out@ =~= tagged(PeerScope::Host, v.host_pool.requests) + worker_requests(v.worker_pools.take(i + 1)));
            i = i + 1;
        }
        assert(self.view().worker_pools =~= v.worker_pools.map_values(|p: (WorkerId, VmPoolView)| (p.0, cleared(p.1))));
        assert(v.worker_pools.take(i as int) =~= v.worker_pools);
        out
    }


    /// The number of host actors.
    pub fn host_actors_len(&self) -> (r: usize)
        ensures
            r == self.view().host_actors.len(),
    {
        self.host_actors.len()
    }

    /// The number of instances of the host pool available right now.
    pub fn host_free_vms(&self) -> (r: usize)
        ensures
            r == crate::vm_pool::count_slots(self.view().host_pool.slots, crate::vm_pool::VmSlot::Free),
    {
        self.host_vm_pool.free_vms()
    }

    /// The number of actors of worker `worker_id`, where it has an actor map.
    pub fn worker_actors_len(&self, worker_id: WorkerId) -> (r: Option<usize>)
        requires
            self.wf(),
        ensures
            match r {
                Some(n) => has_bucket(self.view().worker_actors, worker_id) && n == self.view().worker_actors[bucket_index(self.view().worker_actors, worker_id)].1.len(),
                None => !has_bucket(self.view().worker_actors, worker_id),
            },
    {
        match find_bucket(&self.worker_actors, worker_id) {
            Some(i) => Some(self.worker_actors[i].actors.len()),
            None => None,
        }
    }

    /// The mailbox size of the actor of `key` in `scope`, where there is one.
    pub fn mailbox_size(&self, scope: PeerScope, key: &Vec<u8>) -> (r: Option<usize>)
        requires
            self.wf(),
        ensures
            match actors_at(self.view(), scope) {
                Some(s) => if has_key(s, key@) {
                    r == Some(s[key_index(s, key@)].mailbox.len() as usize)
                } else {
                    r is None
                },
                None => r is None,
            },
    {
        match scope {
            PeerScope::Host => match find_actor(&self.host_actors, key) {
                Some(i) => Some(self.host_actors[i].mailbox_size()),
                None => None,
            },
            PeerScope::WorkerId(w) => match find_bucket(&self.worker_actors, w) {
                Some(bi) => {
                    assert(actors_wf(self.view().worker_actors[bi as int].1));
                    match find_actor(&self.worker_actors[bi].actors, key) {
                        Some(i) => Some(self.worker_actors[bi].actors[i].mailbox_size()),
                        None => None,
                    }
                },
                None => None,
            },
        }
    }

    /// Whether the actor of `key` in `scope` has a step in flight; `None` where there is no such actor.
    pub fn is_executing(&self, scope: PeerScope, key: &Vec<u8>) -> (r: Option<bool>)
        requires
            self.wf(),
        ensures
            match actors_at(self.view(), scope) {
                Some(s) => if has_key(s, key@) {
                    r == Some(s[key_index(s, key@)].current is Some)
                } else {
                    r is None
                },
                None => r is None,
            },
    {
        match scope {
            PeerScope::Host => match find_actor(&self.host_actors, key) {
                Some(i) => Some(self.host_actors[i].is_executing()),
                None => None,
            },
            PeerScope::WorkerId(w) => match find_bucket(&self.worker_actors, w) {
                Some(bi) => {
                    assert(actors_wf(self.view().worker_actors[bi as int].1));
                    match find_actor(&self.worker_actors[bi].actors, key) {
                        Some(i) => Some(self.worker_actors[bi].actors[i].is_executing()),
                        None => None,
                    }
                },
                None => None,
            },
        }
    }


    /// The gauges to report after a tick: for the host, and for each worker
    /// with a pool, the particles waiting and the actors alive.
    pub fn gauges(&self) -> (r: Vec<ScopeGauges>)
        requires
            self.wf(),
        ensures
            r@.map_values(|g: ScopeGauges| gauges_view(g)) == gauges_spec(self.view()),
    {
        let ghost v = self.view();
        let mut r: Vec<ScopeGauges> = Vec::new();
        r.push(ScopeGauges {
            scope: PeerScope::Host,
            mailbox_total: count_mailboxes(&self.host_actors),
            alive_actors: self.host_actors.len(),
        });
        let ghost bs = v.worker_actors;
        assert(r@.map_values(|g: ScopeGauges| gauges_view(g)) =~= seq![(PeerScope::Host, saturate(mailbox_total(v.host_actors)), v.host_actors.len() as usize)] + worker_gauges(bs.take(0), v.worker_pools));
        let mut bi: usize = 0;
        while bi < self.worker_actors.len()
            invariant
                bi <= self.worker_actors@.len(),
                v == self.view(),
                bs == v.worker_actors,
                plumber_wf(v),
                r@.map_values(|g: ScopeGauges| gauges_view(g)) == seq![(PeerScope::Host, saturate(mailbox_total(v.host_actors)), v.host_actors.len() as usize)] + worker_gauges(bs.take(bi as int), v.worker_pools),
            decreases self.worker_actors@.len() - bi,
        {
            let w = self.worker_actors[bi].worker_id;
            assert(bs.take(bi + 1).drop_last() =~= bs.take(bi as int));
            assert(bs.take(bi + 1).last() == bs[bi as int]);
            assert(bs[bi as int] == (w, actor_views(self.worker_actors@[bi as int].actors@)));
            let ghost before = r@.map_values(|g: ScopeGauges| gauges_view(g));
            match find_pool(&self.worker_vm_pools, w) {
                Some(_) => {
                    let g = ScopeGauges {
                        scope: PeerScope::WorkerId(w),
                        mailbox_total: count_mailboxes(&self.worker_actors[bi].actors),
                        alive_actors: self.worker_actors[bi].actors.len(),
                    };
                    r.push(g);
                    assert(r@.map_values(|g: ScopeGauges| gauges_view(g)) =~= before.push(gauges_view(g)));
                },
                None => {},
            }
            bi = bi + 1;
        }
        assert(bs.take(bi as int) =~= bs);
        r
    }

    /// The number of events waiting for the caller.
    pub fn events_len(&self) -> (r: usize)
        ensures
            r == self.view().events.len(),
    {
        self.events.len()
    }

    /// Whether a cleanup batch handed out earlier is still running.
    pub fn is_cleanup_in_flight(&self) -> (r: bool)
        ensures
            r == self.view().cleanup_in_flight,
    {
        self.cleanup_in_flight
    }

    /// The poll of one tick. Hands out the oldest event if there is one.
    /// Otherwise: collects finished steps (remote effects become events,
    /// local ones are ingested again, instances go back to their pools or are
    /// rebuilt), starts a cleanup batch unless one is running, starts steps
    /// on free instances, and returns the actions for the runtime.
    pub fn poll(&mut self, now_ms: u64) -> (r: PlumberPoll)
        requires
            old(self).wf(),
        ensures
            final(self).wf(),
            ({
                let ov = old(self).view();
                let fv = final(self).view();
                if ov.events.len() > 0 {
                    &&& r matches PlumberPoll::Ready(e) && crate::particle::event_view(e) == ov.events[0]
                    &&& fv == PlumberView { events: ov.events.drop_first(), ..ov }
                } else {
                    &&& r matches PlumberPoll::Pending(t)
                    &&& t.cleanup_keys@.len() <= MAX_CLEANUP_KEYS_SIZE
                    &&& ov.cleanup_in_flight ==> t.cleanup_keys@.len() == 0 && fv.cleanup_in_flight
                    &&& !ov.cleanup_in_flight ==> fv.cleanup_in_flight == (t.cleanup_keys@.len() > 0)
                    &&& idle(ov, now_ms) ==> fv == ov && t.executions@.len() == 0
                        && t.vm_requests@.len() == 0 && t.cleanup_keys@.len() == 0
                    &&& exists|s: PlumberView|
                        #![trigger start_spec(cleanup_spec(collect_spec(ov), now_ms).0, s)]
                        {
                            let c = collect_spec(ov);
                            &&& key_views(t.cleanup_keys@) == cleanup_spec(c, now_ms).1
                            &&& start_spec(cleanup_spec(c, now_ms).0, s)
                            &&& execution_views(t.executions@) == started_executions(
                                cleanup_spec(c, now_ms).0.host_actors,
                                s.host_actors,
                            ) + workers_started_executions(cleanup_spec(c, now_ms).0.worker_actors, s.worker_actors)
                            &&& fv == without_requests(
                                publish(reingest_spec(s, tick_local(ov), now_ms), tick_remote(ov)),
                            )
                            &&& t.vm_requests@ == requests_of(s)
                        }
                }
            }),
    {
        let ghost v = self.view();
        if self.events.len() > 0 {
            let e = self.events.remove(0);
            assert(self.view().events =~= v.events.drop_first());
            assert(self.view() =~= PlumberView { events: v.events.drop_first(), ..v });
            return PlumberPoll::Ready(e);
        }
        let ghost q = idle(v, now_ms);
        let mut remote: Vec<RemoteRoutingEffects> = Vec::new();
        let mut local: Vec<LocalRoutingEffects> = Vec::new();
        proof {
            assert(actors_wf(v.host_actors));
        }
        collect_completed(
            &mut self.host_actors,
            &mut self.host_vm_pool,
            &self.scopes,
            &self.workers,
            &mut remote,
            &mut local,
        );
        assert(q ==> self.view() =~= v);
        self.collect_workers(&mut remote, &mut local);
        let ghost c = self.view();
        assert(c =~= collect_spec(v));
        assert(remote_views(remote@) =~= tick_remote(v));
        assert(local_views(local@) =~= tick_local(v));
        assert(q ==> self.view() == v && remote@.len() == 0 && local@.len() == 0);
        let cleanup_keys = self.cleanup(now_ms);
        let ghost k = self.view();
        assert(q ==> self.view() == v && cleanup_keys@.len() == 0);
        let mut executions: Vec<Execution> = Vec::new();
        assert(actors_wf(k.host_actors));
        start_actors(&mut self.host_actors, &mut self.host_vm_pool, &mut executions);
        assert(q ==> self.view() =~= v && executions@.len() == 0);
        self.start_workers(&mut executions);
        let ghost st = self.view();
        assert(start_spec(k, st));
        assert(q ==> self.view() == v && executions@.len() == 0);
        let ghost flag = self.cleanup_in_flight;
        let ghost before_reingest = self.view();
        proof {
            lemma_reingest_keeps(before_reingest, local_views(local@), now_ms);
            if q {
                assert(local_views(local@) =~= Seq::<(ExtendedParticleView, Seq<PeerScope>)>::empty());
            }
        }
        self.reingest(local, now_ms);
        assert(q ==> self.view() == v);
        let ghost re = self.view();
        let ghost rv = remote_views(remote@);
        let mut rest = remote;
        assert(re =~= PlumberView { events: re.events + remote_events(rv.take(0)), ..re });
        while rest.len() > 0
            invariant
                self.wf(),
                self.view().cleanup_in_flight == flag,
                q ==> rest@.len() == 0,
                q ==> self.view() == v,
                q == idle(v, now_ms),
                rest@.len() <= rv.len(),
                remote_views(rest@) == rv.subrange(rv.len() - rest@.len(), rv.len() as int),
                self.view() == (PlumberView { events: re.events + remote_events(rv.take(rv.len() - rest@.len())), ..re }),
            decreases rest@.len(),
        {
            let ghost n = rv.len() - rest@.len();
            let ghost old_rest = rest@;
            assert(remote_views(rest@)[0] == rv[n]);
            let e = rest.remove(0);
            assert(rest@ =~= old_rest.subrange(1, old_rest.len() as int));
            assert forall|j: int| 0 <= j < rest@.len() implies #[trigger] remote_views(rest@)[j] == rv[n + 1 + j] by {
                assert(remote_views(old_rest)[j + 1] == rv.subrange(n, rv.len() as int)[j + 1]);
            }
            let ghost ev = self.view();
            let ghost evv = crate::particle::event_view(Ok::<RemoteRoutingEffects, AquamarineApiError>(e));
            self.events.push(Ok(e));
            assert(event_views(self.events@) =~= ev.events.push(evv));
            assert(remote_events(rv.take(n + 1)) =~= remote_events(rv.take(n)).push(evv));
            assert(self.view() =~= PlumberView { events: re.events + remote_events(rv.take(n + 1)), ..re });
        }
        assert(rv.take(rv.len() as int) =~= rv);
        assert(self.view() == publish(reingest_spec(st, tick_local(v), now_ms), tick_remote(v)));
        let vm_requests = self.take_vm_requests();
        assert(start_spec(cleanup_spec(c, now_ms).0, st));
        PlumberPoll::Pending(TickActions { executions, vm_requests, cleanup_keys })
    }

    /// Receives a particle: reports it expired or badly signed, drops it when
    /// its worker is inactive and its initiator neither a manager nor the
    /// host, and otherwise puts it in the mailbox of the actor of its
    /// signature, creating that actor where needed. Returns whether the
    /// particle reached the actor maps, in which case the plumber is to be woken.
    pub fn ingest(
        &mut self,
        particle: ExtendedParticle,
        function: Option<FunctionId>,
        peer_scope: PeerScope,
        now_ms: u64,
    ) -> (r: bool)
        requires
            old(self).wf(),
        ensures
            final(self).wf(),
            final(self).view() == ingest_spec(
                old(self).view(),
                particle@,
                function,
                peer_scope,
                now_ms,
            ),
            r == reaches_actors(old(self).view(), particle@, peer_scope, now_ms),
    {
        let ghost v = self.view();
        let ghost pv = particle@;
        let deadline = Deadline::new(particle.particle.timestamp_ms, particle.particle.ttl_ms);
        if deadline.is_expired(now_ms) {
            let e = Err(AquamarineApiError::ParticleExpired { particle_id: particle.particle.id });
            let ghost ev = crate::particle::event_view(e);
            self.events.push(e);
            assert(self.view().events =~= v.events.push(ev));
            assert(self.view() =~= ingest_spec(v, pv, function, peer_scope, now_ms));
            return false;
        }
        let err = match &particle.verification {
            Ok(()) => None,
            Err(e) => Some(e.clone()),
        };
        match err {
            Some(err) => {
                let e = Err(
                    AquamarineApiError::SignatureVerificationFailed {
                        particle_id: particle.particle.id,
                        err,
                    },
                );
                let ghost ev = crate::particle::event_view(e);
                self.events.push(e);
                assert(self.view().events =~= v.events.push(ev));
                assert(self.view() =~= ingest_spec(v, pv, function, peer_scope, now_ms));
                return false;
            },
            None => {},
        }
        match peer_scope {
            PeerScope::Host => {
                let peer = self.scopes.host_peer_id;
                put_in_actors(&mut self.host_actors, particle, function, now_ms, peer_scope, peer, None);
                assert(self.view() =~= ingest_spec(v, pv, function, peer_scope, now_ms));
            },
            PeerScope::WorkerId(w) => {
                let wi = find_worker(&self.workers, w);
                let is_active = match wi {
                    Some(i) => self.workers[i].active,
                    None => false,
                };
                let is_manager = self.scopes.is_management(particle.particle.init_peer_id);
                let is_host = self.scopes.is_host(particle.particle.init_peer_id);
                if !is_active && !is_manager && !is_host {
                    return false;
                }
                let bi = match find_bucket(&self.worker_actors, w) {
                    Some(i) => i,
                    None => {
                        let b = WorkerActors { worker_id: w, actors: Vec::new() };
                        proof {
                            assert(actor_views(b.actors@) =~= Seq::<ActorView>::empty());
                        }
                        self.worker_actors.push(b);
                        assert(bucket_views(self.worker_actors@) =~= v.worker_actors.push(
                            (w, Seq::empty()),
                        ));
                        assert(bucket_views(self.worker_actors@)[v.worker_actors.len() as int].0
                            == w);
                        self.worker_actors.len() - 1
                    },
                };
                let ghost buckets = bucket_views(self.worker_actors@);
                assert(buckets_unique(buckets));
                assert(has_bucket(buckets, w));
                assert(bucket_index(buckets, w) == bi) by {
                    let k = bucket_index(buckets, w);
                    if k != bi {
                        if k < bi {
                            assert(buckets[k].0 != buckets[bi as int].0);
                        } else {
                            assert(buckets[bi as int].0 != buckets[k].0);
                        }
                    }
                }
                match wi {
                    None => {
                        assert(self.view() =~= ingest_spec(v, pv, function, peer_scope, now_ms));
                    },
                    Some(i) => {
                        let deal_id = self.workers[i].deal_id.clone();
                        assert(actors_wf(buckets[bi as int].1));
                        put_in_actors(
                            &mut self.worker_actors[bi].actors,
                            particle,
                            function,
                            now_ms,
                            peer_scope,
                            w,
                            Some(deal_id),
                        );
                        assert(bucket_views(self.worker_actors@) =~= buckets.update(
                            bi as int,
                            (w, put_in(buckets[bi as int].1, pv, function, now_ms, fresh_actor(pv, peer_scope, w, Some(deal_of(v.workers, w)), now_ms))),
                        ));
                        assert(self.view() =~= ingest_spec(v, pv, function, peer_scope, now_ms));
                    },
                }
            },
        }
        true
    }
}

} // verus!
