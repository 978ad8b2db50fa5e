//! The walks of a tick over one actor map: collecting finished steps,
//! cleaning up expired actors, and starting new steps.
use vstd::prelude::*;

use crate::actor::{
    completed, eligible, execution_of, ready, start_of, step_of, cleanup_key_of, Actor, ActorPoll,
    ActorView, CleanupKey, CleanupKeyView, Execution, ExecutionView,
};
use crate::particle::{ExtendedParticle, ExtendedParticleView, PeerId, PeerScope, RemoteRoutingEffects};
use crate::model::actors_wf;
use crate::plumber::actor_views;
use crate::workers::{
    find_worker, is_registered, worker_views, workers_unique, PeerScopes, WorkerInfo,
    WorkerInfoView,
};
use crate::vm_pool::{count_slots, lemma_count_update, VmPool, VmPoolView, VmSlot};

verus! {

/// A particle to be routed again to scopes that this node hosts.
#[derive(Debug)]
pub struct LocalRoutingEffects {
    pub particle: ExtendedParticle,
    pub next_peers: Vec<PeerScope>,
}

pub open spec fn remote_views(s: Seq<RemoteRoutingEffects>) -> Seq<(ExtendedParticleView, Seq<PeerId>)> {
    s.map_values(|e: RemoteRoutingEffects| (e.particle@, e.next_peers@))
}

pub open spec fn local_views(s: Seq<LocalRoutingEffects>) -> Seq<(ExtendedParticleView, Seq<PeerScope>)> {
    s.map_values(|e: LocalRoutingEffects| (e.particle@, e.next_peers@))
}

/// The scope that `peer` resolves to on this node: the host, one of its
/// registered workers, or none (a remote peer).
pub open spec fn scope_of_peer(scopes: PeerScopes, ws: Seq<WorkerInfoView>, peer: PeerId) -> Option<PeerScope> {
    if peer == scopes.host_peer_id {
        Some(PeerScope::Host)
    } else if is_registered(ws, peer) {
        Some(PeerScope::WorkerId(peer))
    } else {
        None
    }
}

/// The peers among `peers` that this node does not host, in order.
pub open spec fn remote_peers(peers: Seq<PeerId>, scopes: PeerScopes, ws: Seq<WorkerInfoView>) -> Seq<PeerId>
    decreases peers.len(),
{
    if peers.len() == 0 {
        Seq::empty()
    } else {
        let r = remote_peers(peers.drop_last(), scopes, ws);
        if scope_of_peer(scopes, ws, peers.last()) is None {
            r.push(peers.last())
        } else {
            r
        }
    }
}

/// The scopes of the peers among `peers` that this node hosts, in order.
pub open spec fn local_scopes(peers: Seq<PeerId>, scopes: PeerScopes, ws: Seq<WorkerInfoView>) -> Seq<PeerScope>
    decreases peers.len(),
{
    if peers.len() == 0 {
        Seq::empty()
    } else {
        let r = local_scopes(peers.drop_last(), scopes, ws);
        match scope_of_peer(scopes, ws, peers.last()) {
            Some(s) => r.push(s),
            None => r,
        }
    }
}

/// Resolves `peer` to a scope of this node.
pub fn scope_of(scopes: &PeerScopes, workers: &Vec<WorkerInfo>, peer: PeerId) -> (r: Option<PeerScope>)
    requires
        workers_unique(worker_views(workers@)),
    ensures
        r == scope_of_peer(*scopes, worker_views(workers@), peer),
{
    if peer == scopes.host_peer_id {
        Some(PeerScope::Host)
    } else {
        match find_worker(workers, peer) {
            Some(_) => Some(PeerScope::WorkerId(peer)),
            None => None,
        }
    }
}

/// Splits `peers` into the remote ones and the scopes of the local ones.
pub fn split_peers(scopes: &PeerScopes, workers: &Vec<WorkerInfo>, peers: &Vec<PeerId>) -> (r: (Vec<PeerId>, Vec<PeerScope>))
    requires
        workers_unique(worker_views(workers@)),
    ensures
        r.0@ == remote_peers(peers@, *scopes, worker_views(workers@)),
        r.1@ == local_scopes(peers@, *scopes, worker_views(workers@)),
{
    let ghost ws = worker_views(workers@);
    let mut remote: Vec<PeerId> = Vec::new();
    let mut local: Vec<PeerScope> = Vec::new();
    let mut i: usize = 0;
    while i < peers.len()
        invariant
            i <= peers@.len(),
            ws == worker_views(workers@),
            workers_unique(ws),
            remote@ == remote_peers(peers@.take(i as int), *scopes, ws),
            local@ == local_scopes(peers@.take(i as int), *scopes, ws),
        decreases peers@.len() - i,
    {
        assert(peers@.take(i + 1).drop_last() =~= peers@.take(i as int));
        match scope_of(scopes, workers, peers[i]) {
            Some(s) => local.push(s),
            None => remote.push(peers[i]),
        }
        i = i + 1;
    }
    assert(peers@.take(i as int) =~= peers@);
    (remote, local)
}

/// The remote routing effects of the completed actors of `s`, in order.
pub open spec fn remote_of(s: Seq<ActorView>, scopes: PeerScopes, ws: Seq<WorkerInfoView>) -> Seq<(ExtendedParticleView, Seq<PeerId>)>
    decreases s.len(),
{
    if s.len() == 0 {
        Seq::empty()
    } else {
        let r = remote_of(s.drop_last(), scopes, ws);
        let a = s.last();
        if completed(a) && remote_peers(step_of(a).next_peers, scopes, ws).len() > 0 {
            r.push((step_of(a).particle, remote_peers(step_of(a).next_peers, scopes, ws)))
        } else {
            r
        }
    }
}

/// The local routing effects of the completed actors of `s`, in order.
pub open spec fn local_of(s: Seq<ActorView>, scopes: PeerScopes, ws: Seq<WorkerInfoView>) -> Seq<(ExtendedParticleView, Seq<PeerScope>)>
    decreases s.len(),
{
    if s.len() == 0 {
        Seq::empty()
    } else {
        let r = local_of(s.drop_last(), scopes, ws);
        let a = s.last();
        if completed(a) && local_scopes(step_of(a).next_peers, scopes, ws).len() > 0 {
            r.push((step_of(a).particle, local_scopes(step_of(a).next_peers, scopes, ws)))
        } else {
            r
        }
    }
}

/// An actor after its finished step, if any, was collected.
pub open spec fn collected(a: ActorView) -> ActorView {
    if completed(a) {
        ActorView { current: None, ..a }
    } else {
        a
    }
}

/// A pool after instance `vm_id` came back from a step: lent again where it
/// survived, rebuilt where it was lost. An instance that was not lent is left alone.
pub open spec fn release(p: VmPoolView, vm_id: usize, returned: bool) -> VmPoolView {
    if vm_id < p.slots.len() && p.slots[vm_id as int] == VmSlot::InUse {
        if returned {
            VmPoolView { slots: p.slots.update(vm_id as int, VmSlot::Free), ..p }
        } else {
            VmPoolView {
                slots: p.slots.update(vm_id as int, VmSlot::Creating),
                requests: p.requests.push(vm_id),
            }
        }
    } else {
        p
    }
}

/// A pool after the instances of the finished steps of `s` came back, in order.
pub open spec fn release_all(p: VmPoolView, s: Seq<ActorView>) -> VmPoolView
    decreases s.len(),
{
    if s.len() == 0 {
        p
    } else {
        let q = release_all(p, s.drop_last());
        if completed(s.last()) {
            release(q, step_of(s.last()).vm_id, step_of(s.last()).vm_returned)
        } else {
            q
        }
    }
}

/// Collects every finished step of `actors`: each one's effects are split
/// into remote and local ones, and its instance goes back to `pool`, or is
/// rebuilt where it was lost.
pub fn collect_completed(
    actors: &mut Vec<Actor>,
    pool: &mut VmPool,
    scopes: &PeerScopes,
    workers: &Vec<WorkerInfo>,
    remote: &mut Vec<RemoteRoutingEffects>,
    local: &mut Vec<LocalRoutingEffects>,
)
    requires
        actors_wf(actor_views(old(actors)@)),
        old(pool).wf(),
        workers_unique(worker_views(workers@)),
    ensures
        actors_wf(actor_views(final(actors)@)),
        final(pool).wf(),
        final(pool).slots().len() == old(pool).slots().len(),
        final(pool).view() == release_all(old(pool).view(), actor_views(old(actors)@)),
        actor_views(final(actors)@) == actor_views(old(actors)@).map_values(|a: ActorView| collected(a)),
        remote_views(final(remote)@) == remote_views(old(remote)@) + remote_of(
            actor_views(old(actors)@),
            *scopes,
            worker_views(workers@),
        ),
        local_views(final(local)@) == local_views(old(local)@) + local_of(
            actor_views(old(actors)@),
            *scopes,
            worker_views(workers@),
        ),
        (forall|i: int| 0 <= i < old(actors)@.len() ==> !completed(#[trigger] actor_views(old(actors)@)[i]))
            ==> final(pool).view() == old(pool).view() && actor_views(final(actors)@) == actor_views(old(actors)@)
                && final(remote)@ == old(remote)@ && final(local)@ == old(local)@,
{
    let ghost s = actor_views(actors@);
    let ghost ws = worker_views(workers@);
    let ghost r0 = remote_views(remote@);
    let ghost l0 = local_views(local@);
    let ghost pool0 = *pool;
    let mut i: usize = 0;
    while i < actors.len()
        invariant
            i <= actors@.len(),
            actors@.len() == s.len(),
            actors_wf(s),
            s == actor_views(old(actors)@),
            ws == worker_views(workers@),
            workers_unique(ws),
            pool.wf(),
            pool.slots().len() == pool0.slots().len(),
            pool.view() == release_all(pool0.view(), s.take(i as int)),
            forall|j: int| 0 <= j < i ==> #[trigger] actor_views(actors@)[j] == collected(s[j]),
            forall|j: int| i <= j < s.len() ==> #[trigger] actor_views(actors@)[j] == s[j],
            remote_views(remote@) == r0 + remote_of(s.take(i as int), *scopes, ws),
            local_views(local@) == l0 + local_of(s.take(i as int), *scopes, ws),
            (forall|j: int| 0 <= j < s.len() ==> !completed(#[trigger] s[j])) ==> pool.view() == pool0.view()
                && remote@ == old(remote)@ && local@ == old(local)@,
        decreases s.len() - i,
    {
        assert(s.take(i + 1).drop_last() =~= s.take(i as int));
        assert(s.take(i + 1).last() == s[i as int]);
        let ghost before = actors@;
        assert(actor_views(actors@)[i as int] == actors@[i as int].view());
        assert(actors@[i as int].wf());
        match actors[i].poll_completed() {
            Some(result) => {
                let (remote_peers, local_peers) = split_peers(scopes, workers, &result.next_peers);
                if remote_peers.len() > 0 {
                    let e = RemoteRoutingEffects {
                        particle: result.particle.duplicate(),
                        next_peers: remote_peers,
                    };
                    let ghost rv = remote_views(remote@);
                    remote.push(e);
                    assert(remote_views(remote@) =~= rv.push((e.particle@, e.next_peers@)));
                }
                if local_peers.len() > 0 {
                    let e = LocalRoutingEffects {
                        particle: result.particle.duplicate(),
                        next_peers: local_peers,
                    };
                    let ghost lv = local_views(local@);
                    local.push(e);
                    assert(local_views(local@) =~= lv.push((e.particle@, e.next_peers@)));
                }
                let ghost pv = pool.view();
                if result.vm_returned {
                    pool.put_vm(result.vm_id);
                } else {
                    pool.recreate_avm(result.vm_id);
                }
                assert(pool.view() == release(pv, result.vm_id, result.vm_returned));
            },
            None => {},
        }
        assert(actor_views(actors@) =~= actor_views(before).update(i as int, collected(s[i as int])));
        i = i + 1;
    }
    assert(s.take(i as int) =~= s);
    assert(actor_views(actors@) =~= s.map_values(|a: ActorView| collected(a)));
    proof {
        if forall|j: int| 0 <= j < s.len() ==> !completed(#[trigger] s[j]) {
            assert(actor_views(actors@) =~= s);
        }
    }
}


/// At most this many cleanup keys are handed out in one tick.
pub const MAX_CLEANUP_KEYS_SIZE: usize = 1024;

pub open spec fn key_views(s: Seq<CleanupKey>) -> Seq<CleanupKeyView> {
    s.map_values(|k: CleanupKey| k@)
}

/// One cleanup walk over an actor map, in order, with room for `room` keys:
/// the actors kept, and the keys of those removed. An actor is removed when
/// there is room left and it is past its deadline with nothing in flight.
pub open spec fn cleanup_pass(s: Seq<ActorView>, room: nat, now_ms: u64) -> (Seq<ActorView>, Seq<CleanupKeyView>)
    decreases s.len(),
{
    if s.len() == 0 {
        (Seq::empty(), Seq::empty())
    } else {
        let (k, ks) = cleanup_pass(s.drop_last(), room, now_ms);
        let a = s.last();
        if ks.len() >= room || !eligible(a, now_ms) {
            (k.push(a), ks)
        } else {
            (k, ks.push(cleanup_key_of(a)))
        }
    }
}

/// A cleanup walk hands out no more keys than it has room for.
pub proof fn lemma_cleanup_room(s: Seq<ActorView>, room: nat, now_ms: u64)
    ensures
        cleanup_pass(s, room, now_ms).1.len() <= room,
    decreases s.len(),
{
    if s.len() > 0 {
        lemma_cleanup_room(s.drop_last(), room, now_ms);
    }
}

/// Removes the expired idle actors of `actors`, in order, while fewer than
/// `MAX_CLEANUP_KEYS_SIZE` keys are collected, adding each one's cleanup key to `keys`.
pub fn cleanup_actors(actors: &mut Vec<Actor>, keys: &mut Vec<CleanupKey>, now_ms: u64)
    requires
        actors_wf(actor_views(old(actors)@)),
        old(keys)@.len() <= MAX_CLEANUP_KEYS_SIZE,
    ensures
        ({
            let (k, ks) = cleanup_pass(
                actor_views(old(actors)@),
                (MAX_CLEANUP_KEYS_SIZE - old(keys)@.len()) as nat,
                now_ms,
            );
            &&& actor_views(final(actors)@) == k
            &&& key_views(final(keys)@) == key_views(old(keys)@) + ks
        }),
        actors_wf(actor_views(final(actors)@)),
        final(keys)@.len() <= MAX_CLEANUP_KEYS_SIZE,
{
    let ghost s = actor_views(actors@);
    let ghost k0 = key_views(keys@);
    let ghost room = (MAX_CLEANUP_KEYS_SIZE - keys@.len()) as nat;
    let mut rest: Vec<Actor> = Vec::new();
    std::mem::swap(&mut rest, actors);
    assert(actor_views(rest@) =~= s.subrange(0, s.len() as int));
    assert(actor_views(actors@) =~= cleanup_pass(s.take(0), room, now_ms).0);
    assert(key_views(keys@) =~= k0 + cleanup_pass(s.take(0), room, now_ms).1);
    while rest.len() > 0
        invariant
            rest@.len() <= s.len(),
            actor_views(rest@) == s.subrange(s.len() - rest@.len(), s.len() as int),
            actors_wf(s),
            k0.len() + room == MAX_CLEANUP_KEYS_SIZE,
            actor_views(actors@) == cleanup_pass(s.take(s.len() - rest@.len()), room, now_ms).0,
            key_views(keys@) == k0 + cleanup_pass(s.take(s.len() - rest@.len()), room, now_ms).1,
            keys@.len() == k0.len() + cleanup_pass(s.take(s.len() - rest@.len()), room, now_ms).1.len(),
            actors_wf(actor_views(actors@)),
            forall|j: int| 0 <= j < actors@.len() ==> exists|m: int| 0 <= m < s.len() - rest@.len() && #[trigger] actor_views(actors@)[j] == s[m],
        decreases rest@.len(),
    {
        let ghost n = s.len() - rest@.len();
        let ghost kept = actor_views(actors@);
        assert(s.take(n + 1).drop_last() =~= s.take(n));
        assert(actor_views(rest@)[0] == s[n]);
        let ghost old_rest = rest@;
        let a = rest.remove(0);
        assert(rest@ =~= old_rest.subrange(1, old_rest.len() as int));
        assert forall|j: int| 0 <= j < rest@.len() implies #[trigger] actor_views(rest@)[j] == s[n + 1 + j] by {
            assert(actor_views(old_rest)[j + 1] == s.subrange(n, s.len() as int)[j + 1]);
        }
        assert(actor_views(rest@) =~= s.subrange(n + 1, s.len() as int));
        assert(a.view() == s[n]);
        proof {
            lemma_cleanup_room(s.take(n), room, now_ms);
        }
        if keys.len() >= MAX_CLEANUP_KEYS_SIZE || !a.is_expired(now_ms) || a.is_executing() {
            actors.push(a);
            assert(actor_views(actors@) =~= kept.push(s[n]));
            assert forall|j: int| 0 <= j < kept.len() implies kept[j].key != s[n].key by {
                let m = choose|m: int| 0 <= m < n && #[trigger] kept[j] == s[m];
                assert(s[m].key != s[n].key);
            }
            assert forall|j: int| 0 <= j < actors@.len() implies exists|m: int| 0 <= m < n + 1 && #[trigger] actor_views(actors@)[j] == s[m] by {
                if j < kept.len() {
                    assert(actor_views(actors@)[j] == kept[j]);
                } else {
                    assert(actor_views(actors@)[j] == s[n]);
                }
            }
        } else {
            let key = a.cleanup_key();
            let ghost kv = key_views(keys@);
            keys.push(key);
            assert(key_views(keys@) =~= kv.push(cleanup_key_of(s[n])));
        }
    }
    assert(s.take(s.len() as int) =~= s);
    proof {
        lemma_cleanup_room(s, room, now_ms);
    }
}

/// How many actors of `o` stand changed in `f`, position by position.
pub open spec fn n_started(o: Seq<ActorView>, f: Seq<ActorView>) -> nat
    decreases o.len(),
{
    if o.len() == 0 || f.len() != o.len() {
        0
    } else {
        n_started(o.drop_last(), f.drop_last()) + if f.last() != o.last() {
            1nat
        } else {
            0nat
        }
    }
}

proof fn lemma_started_executions_tail(o: Seq<ActorView>, f: Seq<ActorView>, i: int)
    requires
        o.len() == f.len(),
        0 <= i <= o.len(),
        forall|j: int| i <= j < o.len() ==> f[j] == o[j],
    ensures
        started_executions(o, f) == started_executions(o.take(i), f.take(i)),
    decreases o.len() - i,
{
    if i < o.len() {
        lemma_started_executions_tail(o, f, i + 1);
        assert(o.take(i + 1).drop_last() =~= o.take(i));
        assert(f.take(i + 1).drop_last() =~= f.take(i));
    } else {
        assert(o.take(i) =~= o);
        assert(f.take(i) =~= f);
    }
}

/// An unchanged actor map has started no step.
pub proof fn lemma_started_executions_same(o: Seq<ActorView>)
    ensures
        started_executions(o, o) == Seq::<ExecutionView>::empty(),
    decreases o.len(),
{
    if o.len() > 0 {
        lemma_started_executions_same(o.drop_last());
    }
}

proof fn lemma_n_started_tail(o: Seq<ActorView>, f: Seq<ActorView>, i: int)
    requires
        o.len() == f.len(),
        0 <= i <= o.len(),
        forall|j: int| i <= j < o.len() ==> f[j] == o[j],
    ensures
        n_started(o, f) == n_started(o.take(i), f.take(i)),
    decreases o.len() - i,
{
    if i < o.len() {
        lemma_n_started_tail(o, f, i + 1);
        assert(o.take(i + 1).drop_last() =~= o.take(i));
        assert(f.take(i + 1).drop_last() =~= f.take(i));
    } else {
        assert(o.take(i) =~= o);
        assert(f.take(i) =~= f);
    }
}

/// The steps that a start walk from `o` to `f` started, in order.
pub open spec fn started_executions(o: Seq<ActorView>, f: Seq<ActorView>) -> Seq<ExecutionView>
    decreases o.len(),
{
    if o.len() == 0 || f.len() != o.len() {
        Seq::empty()
    } else {
        let r = started_executions(o.drop_last(), f.drop_last());
        if f.last() != o.last() {
            r.push(execution_of(o.last(), f.last().current.unwrap().vm_id))
        } else {
            r
        }
    }
}

pub open spec fn execution_views(s: Seq<Execution>) -> Seq<ExecutionView> {
    s.map_values(|e: Execution| e@)
}

/// What one start walk over an actor map does, given the number of free
/// instances before and after: only actors that were ready start, each on an
/// instance that was free, and the walk stops only when every actor is
/// served or no instance is left.
pub open spec fn start_walk(o: Seq<ActorView>, f: Seq<ActorView>, free_before: nat, free_after: nat) -> bool {
    &&& f.len() == o.len()
    &&& forall|i: int|
        0 <= i < o.len() ==> #[trigger] f[i] == o[i] || (ready(o[i]) && f[i] == start_of(
            o[i],
            f[i].current.unwrap().vm_id,
        ))
    &&& free_after == 0 || forall|i: int| 0 <= i < f.len() ==> !ready(#[trigger] f[i])
    &&& free_after + n_started(o, f) == free_before
}

proof fn lemma_n_started_bound(o: Seq<ActorView>, f: Seq<ActorView>)
    ensures
        n_started(o, f) <= o.len(),
        o.len() == f.len() && n_started(o, f) < o.len() ==> exists|i: int| 0 <= i < o.len() && f[i] == o[i],
        o.len() == f.len() && (forall|i: int| 0 <= i < o.len() ==> f[i] != o[i]) ==> n_started(o, f) == o.len(),
    decreases o.len(),
{
    if o.len() > 0 && f.len() == o.len() {
        lemma_n_started_bound(o.drop_last(), f.drop_last());
        if n_started(o, f) < o.len() && f.last() != o.last() {
            let i = choose|i: int| 0 <= i < o.len() - 1 && f.drop_last()[i] == o.drop_last()[i];
            assert(f[i] == o[i]);
        }
        if forall|i: int| 0 <= i < o.len() ==> f[i] != o[i] {
            assert forall|i: int| 0 <= i < o.len() - 1 implies f.drop_last()[i] != o.drop_last()[i] by {
                assert(f[i] != o[i]);
            }
            assert(f[o.len() - 1] != o[o.len() - 1]);
        }
    }
}

/// A pool of `C` free instances and more than `C` ready actors: exactly
/// `C` actors start, the pool is left empty, and some actor still waits for
/// a later tick.
pub proof fn lemma_saturated_pool(o: Seq<ActorView>, f: Seq<ActorView>, free_before: nat, free_after: nat)
    requires
        start_walk(o, f, free_before, free_after),
        forall|i: int| 0 <= i < o.len() ==> ready(#[trigger] o[i]),
        o.len() > free_before,
    ensures
        n_started(o, f) == free_before,
        free_after == 0,
        exists|i: int| 0 <= i < f.len() && ready(#[trigger] f[i]),
{
    lemma_n_started_bound(o, f);
    if free_after > 0 {
        assert forall|i: int| 0 <= i < o.len() implies f[i] != o[i] by {
            assert(!ready(f[i]));
            assert(ready(o[i]));
        }
        assert(false);
    }
    let i = choose|i: int| 0 <= i < o.len() && f[i] == o[i];
    assert(ready(f[i]));
}

/// A start walk never starts an actor that already has a step in flight:
/// at most one step is in flight per actor.
pub proof fn lemma_one_step_in_flight(o: Seq<ActorView>, f: Seq<ActorView>, free_before: nat, free_after: nat, i: int)
    requires
        start_walk(o, f, free_before, free_after),
        0 <= i < o.len(),
        o[i].current is Some,
    ensures
        f[i] == o[i],
{
    assert(f[i] == o[i] || ready(o[i]));
}

/// How many actors of `s` are past their deadline with nothing in flight.
pub open spec fn n_eligible(s: Seq<ActorView>, now_ms: u64) -> nat
    decreases s.len(),
{
    if s.len() == 0 {
        0
    } else {
        n_eligible(s.drop_last(), now_ms) + if eligible(s.last(), now_ms) {
            1nat
        } else {
            0nat
        }
    }
}

/// The actors of `s` that are not to be cleaned up, in order.
pub open spec fn kept_of(s: Seq<ActorView>, now_ms: u64) -> Seq<ActorView>
    decreases s.len(),
{
    if s.len() == 0 {
        Seq::empty()
    } else if eligible(s.last(), now_ms) {
        kept_of(s.drop_last(), now_ms)
    } else {
        kept_of(s.drop_last(), now_ms).push(s.last())
    }
}

/// The cleanup keys of the actors of `s` that are to be cleaned up, in order.
pub open spec fn expired_keys(s: Seq<ActorView>, now_ms: u64) -> Seq<CleanupKeyView>
    decreases s.len(),
{
    if s.len() == 0 {
        Seq::empty()
    } else if eligible(s.last(), now_ms) {
        expired_keys(s.drop_last(), now_ms).push(cleanup_key_of(s.last()))
    } else {
        expired_keys(s.drop_last(), now_ms)
    }
}

/// With room for every expired idle actor, one cleanup walk removes each of
/// them and hands out its key, once, keeps every other actor in order, and
/// leaves no actor that a later walk would clean up again.
pub proof fn lemma_cleanup_complete(s: Seq<ActorView>, room: nat, now_ms: u64)
    requires
        n_eligible(s, now_ms) <= room,
    ensures
        cleanup_pass(s, room, now_ms) == (kept_of(s, now_ms), expired_keys(s, now_ms)),
        expired_keys(s, now_ms).len() == n_eligible(s, now_ms),
        forall|i: int| 0 <= i < kept_of(s, now_ms).len() ==> !eligible(#[trigger] kept_of(s, now_ms)[i], now_ms),
    decreases s.len(),
{
    if s.len() > 0 {
        lemma_cleanup_complete(s.drop_last(), room, now_ms);
        let k = kept_of(s.drop_last(), now_ms);
        if !eligible(s.last(), now_ms) {
            assert forall|i: int| 0 <= i < kept_of(s, now_ms).len() implies !eligible(#[trigger] kept_of(s, now_ms)[i], now_ms) by {
                if i < k.len() {
                    assert(kept_of(s, now_ms)[i] == k[i]);
                }
            }
        }
    }
}

/// Offers instances of `pool` to the actors of `actors`, in order, until the
/// pool runs dry; every step started is appended to `executions`.
pub fn start_actors(actors: &mut Vec<Actor>, pool: &mut VmPool, executions: &mut Vec<Execution>)
    requires
        actors_wf(actor_views(old(actors)@)),
        old(pool).wf(),
    ensures
        actors_wf(actor_views(final(actors)@)),
        final(pool).wf(),
        final(pool).slots().len() == old(pool).slots().len(),
        final(pool).requests() == old(pool).requests(),
        start_walk(
            actor_views(old(actors)@),
            actor_views(final(actors)@),
            count_slots(old(pool).slots(), VmSlot::Free),
            count_slots(final(pool).slots(), VmSlot::Free),
        ),
        final(executions)@.len() == old(executions)@.len() + n_started(
            actor_views(old(actors)@),
            actor_views(final(actors)@),
        ),
        execution_views(final(executions)@) == execution_views(old(executions)@) + started_executions(
            actor_views(old(actors)@),
            actor_views(final(actors)@),
        ),
        final(executions)@.subrange(0, old(executions)@.len() as int) == old(executions)@,
        (forall|i: int| 0 <= i < old(actors)@.len() ==> !ready(#[trigger] actor_views(old(actors)@)[i]))
            ==> final(pool).view() == old(pool).view() && actor_views(final(actors)@) == actor_views(old(actors)@)
                && final(executions)@ == old(executions)@,
{
    let ghost s = actor_views(actors@);
    let ghost pool0 = *pool;
    let ghost e0 = executions@;
    let mut i: usize = 0;
    let mut exhausted = false;
    while i < actors.len() && !exhausted
        invariant
            i <= actors@.len(),
            actors@.len() == s.len(),
            actors_wf(s),
            pool.wf(),
            pool.slots().len() == pool0.slots().len(),
            pool.requests() == pool0.requests(),
            forall|j: int| i <= j < s.len() ==> #[trigger] actor_views(actors@)[j] == s[j],
            forall|j: int|
                0 <= j < i ==> #[trigger] actor_views(actors@)[j] == s[j] || (ready(s[j])
                    && actor_views(actors@)[j] == start_of(
                    s[j],
                    actor_views(actors@)[j].current.unwrap().vm_id,
                )),
            forall|j: int| 0 <= j < i ==> !ready(#[trigger] actor_views(actors@)[j]),
            exhausted ==> !pool.has_free(),
            executions@.len() == e0.len() + n_started(s.take(i as int), actor_views(actors@).take(i as int)),
            execution_views(executions@) == execution_views(e0) + started_executions(s.take(i as int), actor_views(actors@).take(i as int)),
            count_slots(pool.slots(), VmSlot::Free) + n_started(s.take(i as int), actor_views(actors@).take(i as int))
                == count_slots(pool0.slots(), VmSlot::Free),
            executions@.subrange(0, e0.len() as int) == e0,
            s == actor_views(old(actors)@),
            (forall|j: int| 0 <= j < s.len() ==> !ready(#[trigger] s[j])) ==> pool.view() == pool0.view()
                && executions@ == e0,
        decreases s.len() - i + (if exhausted {
            0int
        } else {
            1int
        }),
    {
        let ghost before = actor_views(actors@);
        let ghost slots0 = pool.slots();
        match pool.get_vm() {
            Some(vm) => {
                assert(actor_views(actors@)[i as int] == actors@[i as int].view());
                assert(actors@[i as int].wf());
                match actors[i].poll_next(vm) {
                    ActorPoll::Vm(id) => {
                        pool.put_vm(id);
                        assert(pool.slots() =~= slots0);
                    },
                    ActorPoll::Executing(e) => {
                        proof {
                            lemma_count_update(slots0, vm as int, VmSlot::InUse, VmSlot::Free);
                        }
                        let ghost ev = executions@;
                        let ghost evv = e@;
                        executions.push(e);
                        assert(execution_views(executions@) =~= execution_views(ev).push(evv));
                        assert(executions@.subrange(0, e0.len() as int) =~= ev.subrange(0, e0.len() as int));
                    },
                }
                let ghost after = actor_views(actors@);
                assert(after =~= before.update(i as int, actors@[i as int].view()));
                assert(after.take(i + 1).drop_last() =~= before.take(i as int));
                assert(s.take(i + 1).drop_last() =~= s.take(i as int));
                assert(after.take(i + 1).last() == after[i as int]);
                assert(s.take(i + 1).last() == s[i as int]);
                assert(ready(s[i as int]) ==> after[i as int] != s[i as int]);
                i = i + 1;
            },
            None => {
                exhausted = true;
            },
        }
    }
    proof {
        lemma_n_started_tail(s, actor_views(actors@), i as int);
        lemma_started_executions_tail(s, actor_views(actors@), i as int);
        crate::vm_pool::lemma_no_free(pool.slots());
    }
    proof {
        if forall|j: int| 0 <= j < s.len() ==> !ready(#[trigger] s[j]) {
            assert(actor_views(actors@) =~= s);
        }
    }
}

/// With no actor past its deadline and idle, a cleanup walk keeps everything.
pub proof fn lemma_cleanup_nothing(s: Seq<ActorView>, room: nat, now_ms: u64)
    requires
        forall|i: int| 0 <= i < s.len() ==> !eligible(#[trigger] s[i], now_ms),
    ensures
        cleanup_pass(s, room, now_ms) == (s, Seq::<CleanupKeyView>::empty()),
    decreases s.len(),
{
    if s.len() > 0 {
        lemma_cleanup_nothing(s.drop_last(), room, now_ms);
        assert(s.drop_last().push(s.last()) =~= s);
    } else {
        assert(s =~= Seq::<ActorView>::empty());
    }
}

} // verus!
